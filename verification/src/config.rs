//! The endpoints of the server.

use vstd::prelude::*;

verus! {

/// Where the three calls of an upload go.
#[derive(Debug)]
pub struct UploaderConfig {
    /// Called once per file at upload start; returns the key, the upload id and the part size.
    pub start_upload_api: String,
    /// Called for batches of parts; returns presigned URLs.
    pub get_upload_urls_api: String,
    /// Called once per file when all parts are stored.
    pub complete_api: String,
}

/// Nothing is configured yet.
pub open spec fn unset(c: UploaderConfig) -> bool {
    c.start_upload_api@.len() == 0 && c.get_upload_urls_api@.len() == 0 && c.complete_api@.len()
        == 0
}

/// The configuration, made empty at first use.
pub fn get_config(slot: &mut Option<UploaderConfig>) -> (r: &mut UploaderConfig)
    ensures
        match *old(slot) {
            Some(c) => *r == c,
            None => unset(*r),
        },
        *final(slot) == Some(*final(r)),
{
    if slot.is_none() {
        *slot = Some(
            UploaderConfig {
                start_upload_api: String::new(),
                get_upload_urls_api: String::new(),
                complete_api: String::new(),
            },
        );
    }
    slot.as_mut().unwrap()
}

/// Sets the three endpoints.
pub fn set_config(
    slot: &mut Option<UploaderConfig>,
    start_upload_api: &str,
    get_upload_urls_api: &str,
    complete_api: &str,
)
    ensures
        *final(slot) matches Some(c) && c.start_upload_api@ == start_upload_api@
            && c.get_upload_urls_api@ == get_upload_urls_api@ && c.complete_api@ == complete_api@,
{
    let cfg = get_config(slot);
    cfg.start_upload_api = start_upload_api.to_string();
    cfg.get_upload_urls_api = get_upload_urls_api.to_string();
    cfg.complete_api = complete_api.to_string();
}

} // verus!
