//! Uploads the parts of a file with a fixed number of requests in flight, on one thread:
//! what is known of the run, and every decision on the way. The requests are outside.

use crate::chunk::{numbers, stored_parts, ChunkInfo, ChunkUploadResult};
use crate::ledger::{incomplete, least, Ledger, LedgerView};
use crate::parts::{has_position, part_len, part_position, part_size_for, part_start};
use crate::url_pool::extend_urls;
use crate::MAX_CONCURRENT_UPLOADS;
use std::collections::HashMap;
use vstd::prelude::*;

verus! {

/// One run over the parts of a file.
#[derive(Debug)]
pub struct AsyncRun {
    part_size: u64,
    file_size: u64,
    ledger: Ledger,
    url_pool: HashMap<u32, String>,
}

/// The content of an `AsyncRun`.
#[verifier::ext_equal]
pub struct AsyncView {
    pub part_size: u64,
    pub file_size: u64,
    pub ledger: LedgerView,
    pub urls: Map<u32, String>,
}

/// What to do once a request has ended.
#[derive(Debug)]
pub enum AsyncStep {
    /// Let the other requests end, and give the run up.
    Drain,
    /// Go on with the next part, once the URLs of these parts are fetched.
    Fetch(Vec<u32>),
    /// Go on with the next part.
    Next,
    /// No part is left; wait for the requests in flight.
    Wait,
}

impl View for AsyncRun {
    type V = AsyncView;

    closed spec fn view(&self) -> AsyncView {
        AsyncView {
            part_size: self.part_size,
            file_size: self.file_size,
            ledger: self.ledger@,
            urls: self.url_pool@,
        }
    }
}

impl AsyncView {
    /// A part is left to be handed out.
    pub open spec fn has_next(self) -> bool {
        self.ledger.next < self.ledger.parts.len()
    }

    /// The number of the part that is handed out next.
    pub open spec fn next_part(self) -> u32 {
        self.ledger.parts[self.ledger.next]
    }

    /// The parts, from the next one on, whose URLs are fetched together.
    pub open spec fn next_batch(self) -> Seq<u32> {
        self.ledger.parts.subrange(
            self.ledger.next,
            least(self.ledger.next + MAX_CONCURRENT_UPLOADS, self.ledger.parts.len() as int),
        )
    }
}

impl AsyncRun {
    /// Each part is handed out once, and noted at most once as stored.
    pub closed spec fn wf(&self) -> bool {
        self.ledger.wf()
    }

    /// What every run keeps.
    pub proof fn lemma_sound(&self)
        requires
            self.wf(),
        ensures
            self@.ledger.sound(),
    {
        self.ledger.lemma_sound();
    }

    pub fn new(part_size: u64, file_size: u64, parts_to_upload: Vec<u32>) -> (r: Self)
        ensures
            r.wf(),
            r@ == (AsyncView {
                part_size,
                file_size,
                ledger: LedgerView::fresh(parts_to_upload@),
                urls: Map::empty(),
            }),
    {
        AsyncRun {
            part_size,
            file_size,
            ledger: Ledger::new(parts_to_upload),
            url_pool: HashMap::new(),
        }
    }

    /// The next parts whose URLs are fetched together.
    pub fn batch(&self) -> (r: Vec<u32>)
        requires
            self.wf(),
        ensures
            r@ == self@.next_batch(),
    {
        proof {
            self.ledger.lemma_sound();
        }
        let n: usize = self.ledger.len();
        let from: usize = self.ledger.next();
        let end: usize = if MAX_CONCURRENT_UPLOADS < n - from {
            from + MAX_CONCURRENT_UPLOADS
        } else {
            n
        };
        self.ledger.slice(from, end)
    }

    /// Adds URLs that were fetched.
    pub fn add_urls(&mut self, urls: &HashMap<u32, String>)
        requires
            old(self).wf(),
        ensures
            final(self).wf(),
            final(self)@ == (AsyncView {
                urls: old(self)@.urls.union_prefer_right(urls@),
                ..old(self)@
            }),
    {
        extend_urls(&mut self.url_pool, urls);
    }

    /// Whether another part is begun before the first result is awaited.
    pub fn can_begin(&self, in_flight: usize) -> (r: bool)
        ensures
            r == (self@.has_next() && in_flight < MAX_CONCURRENT_UPLOADS),
    {
        self.ledger.next() < self.ledger.len() && in_flight < MAX_CONCURRENT_UPLOADS
    }

    /// Whether the next part can be begun: there is one, and where it has a URL, it has a
    /// position in a file.
    pub fn is_next_sound(&self) -> (r: bool)
        requires
            self.wf(),
        ensures
            r == (self@.has_next() && (self@.urls.contains_key(self@.next_part()) ==> has_position(
                self@.next_part(),
                self@.part_size,
            ))),
    {
        broadcast use vstd::std_specs::hash::group_hash_axioms;

        proof {
            self.ledger.lemma_sound();
        }
        if self.ledger.next() >= self.ledger.len() {
            return false;
        }
        let part_number: u32 = self.ledger.part_at(self.ledger.next());
        !self.url_pool.contains_key(&part_number) || part_position(part_number, self.part_size).is_some()
    }

    /// Hands the next part out, with its index, and takes its URL out of the pool. A part
    /// without a URL is passed over.
    pub fn begin_next(&mut self) -> (r: Option<(usize, ChunkInfo)>)
        requires
            old(self).wf(),
            old(self)@.has_next(),
            old(self)@.urls.contains_key(old(self)@.next_part()) ==> has_position(
                old(self)@.next_part(),
                old(self)@.part_size,
            ),
        ensures
            final(self).wf(),
            ({
                let run = old(self)@;
                let p = run.next_part();
                &&& final(self)@ == (AsyncView {
                    ledger: run.ledger.advanced(),
                    urls: run.urls.remove(p),
                    ..run
                })
                &&& final(self)@.ledger.is_out(run.ledger.next)
                &&& match r {
                    Some((i, c)) => {
                        &&& run.urls.contains_key(p)
                        &&& i == run.ledger.next
                        &&& c.part_number == p
                        &&& c.start_pos == part_start(p as int, run.part_size as int)
                        &&& c.chunk_size == part_len(p as int, run.part_size as int, run.file_size as int)
                        &&& c.url == run.urls[p]
                    },
                    None => !run.urls.contains_key(p),
                }
            }),
    {
        broadcast use vstd::std_specs::hash::group_hash_axioms;

        proof {
            self.ledger.lemma_sound();
        }
        let idx: usize = self.ledger.next();
        let part_number: u32 = self.ledger.part_at(idx);
        let _ = self.ledger.hand_out();
        match self.url_pool.remove(&part_number) {
            Some(url) => {
                let n: u64 = part_number as u64 - 1;
                assert(0 <= n * self.part_size) by (nonlinear_arith);
                Some(
                    (
                        idx,
                        ChunkInfo {
                            part_number,
                            start_pos: n * self.part_size,
                            chunk_size: part_size_for(part_number, self.part_size, self.file_size),
                            url,
                        },
                    ),
                )
            },
            None => None,
        }
    }

    /// Whether the part at an index was handed out and is not noted as stored.
    pub fn is_out(&self, idx: usize) -> (r: bool)
        requires
            self.wf(),
        ensures
            r == self@.ledger.is_out(idx as int),
    {
        self.ledger.is_out(idx)
    }

    /// The part at an index is stored: what to do next.
    pub fn part_done(&mut self, idx: usize, etag: String, paused: bool) -> (r: AsyncStep)
        requires
            old(self).wf(),
            old(self)@.ledger.is_out(idx as int),
        ensures
            final(self).wf(),
            final(self)@ == (AsyncView {
                ledger: old(self)@.ledger.with_stored(idx as int, etag@),
                ..old(self)@
            }),
            if paused {
                r is Drain
            } else if !old(self)@.has_next() {
                r is Wait
            } else if old(self)@.urls.dom().len() < MAX_CONCURRENT_UPLOADS {
                r matches AsyncStep::Fetch(b) && b@ == old(self)@.next_batch()
            } else {
                r is Next
            },
    {
        broadcast use vstd::std_specs::hash::group_hash_axioms;

        self.ledger.note(idx, etag);
        if paused {
            AsyncStep::Drain
        } else if self.ledger.next() >= self.ledger.len() {
            AsyncStep::Wait
        } else if self.url_pool.len() < MAX_CONCURRENT_UPLOADS {
            AsyncStep::Fetch(self.batch())
        } else {
            AsyncStep::Next
        }
    }

    /// The outcome of the run, once no request is in flight. It succeeds only with exactly
    /// the parts of the run stored.
    pub fn finish(self) -> (r: Result<Vec<ChunkUploadResult>, String>)
        requires
            self.wf(),
        ensures
            if self@.ledger.stored.len() != self@.ledger.parts.len() {
                r matches Err(e) && e@ == incomplete(self@.ledger.stored.len(), self@.ledger.parts.len())
            } else {
                &&& r matches Ok(v)
                &&& stored_parts(v@) == self@.ledger.results()
                &&& numbers(stored_parts(v@)).to_multiset() == self@.ledger.parts.to_multiset()
            },
    {
        self.ledger.finish()
    }
}

/// The error of a run that was given up, once no request is in flight any more. `error`
/// is that of the request that failed, if one did.
pub fn given_up(error: Option<String>, paused: bool) -> (r: String)
    ensures
        match error {
            Some(e) => r@ == (if paused { "Upload paused"@ } else { e@ }),
            None => r@ == "Upload paused"@,
        },
{
    match error {
        Some(e) => {
            if paused {
                "Upload paused".to_string()
            } else {
                e
            }
        },
        None => "Upload paused".to_string(),
    }
}

} // verus!
