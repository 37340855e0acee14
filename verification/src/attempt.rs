//! One attempt to send a part: whether it is made, and what comes of it.

use crate::chunk::{clean_etag, unquoted};
use crate::text::{decimal, decimal_text};
use vstd::prelude::*;
use vstd::string::*;

verus! {

/// Why nothing is sent: uploads are paused, or the run was superseded.
pub open spec fn held_back(paused: bool, current: bool) -> Option<Seq<char>> {
    if paused {
        Some("paused"@)
    } else if !current {
        Some("stale run"@)
    } else {
        None
    }
}

/// Whether the attempt is made.
pub fn may_send(paused: bool, current: bool) -> (r: Result<(), String>)
    ensures
        match held_back(paused, current) {
            Some(why) => r matches Err(e) && e@ == why,
            None => r is Ok,
        },
{
    if paused {
        Err("paused".to_string())
    } else if !current {
        Err("stale run".to_string())
    } else {
        Ok(())
    }
}

/// The server has answered. `etag` is its ETag header, if there is one. The answer to a
/// superseded run counts for nothing.
pub fn answered(etag: Option<&str>, current: bool) -> (r: Result<String, String>)
    ensures
        match etag {
            Some(t) => if current {
                r matches Ok(v) && v@ == unquoted(t@)
            } else {
                r matches Err(e) && e@ == "stale run"@
            },
            None => r matches Err(e) && e@ == "No ETag in response"@,
        },
{
    match etag {
        Some(t) => {
            if current {
                Ok(clean_etag(t))
            } else {
                Err("stale run".to_string())
            }
        },
        None => Err("No ETag in response".to_string()),
    }
}

/// The server has answered with a status. A missing ETag counts as an empty one.
pub fn answered_with_status(status: u16, etag: Option<&str>) -> (r: Result<String, String>)
    ensures
        if 200 <= status < 300 {
            r matches Ok(v) && v@ == unquoted(
                match etag {
                    Some(t) => t@,
                    None => Seq::empty(),
                },
            )
        } else {
            r matches Err(e) && e@ == "HTTP "@ + decimal(status as nat)
        },
{
    if status >= 200 && status < 300 {
        match etag {
            Some(t) => Ok(clean_etag(t)),
            None => {
                proof {
                    reveal_strlit("");
                    assert(""@ =~= Seq::<char>::empty());
                }
                Ok(clean_etag(""))
            },
        }
    } else {
        let mut e = "HTTP ".to_string();
        e.append(decimal_text(status as u64).as_str());
        Err(e)
    }
}

/// The request has failed. A pause or a newer run is named instead of the error.
pub fn request_failed(error: String, paused: bool, current: bool) -> (r: String)
    ensures
        r@ == (match held_back(paused, current) {
            Some(why) => why,
            None => error@,
        }),
{
    match may_send(paused, current) {
        Ok(_) => error,
        Err(why) => why,
    }
}

} // verus!
