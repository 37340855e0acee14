//! Uploads the parts of a file with a fixed number of blocking workers: what they share,
//! and every decision they take. The workers and their requests are outside.

use crate::chunk::{numbers, stored_parts, ChunkInfo, ChunkUploadResult};
use crate::ledger::{incomplete, least, Ledger, LedgerView};
use crate::parts::{has_position, part_len, part_position, part_size_for, part_start};
use crate::text::{contains_text, occurs_in};
use crate::url_pool::extend_urls;
use crate::MAX_CONCURRENT_UPLOADS;
use std::collections::HashMap;
use vstd::prelude::*;

verus! {

/// When the URLs of the parts are fetched.
#[derive(Debug, Clone, Copy, PartialEq, Eq, Structural)]
pub enum BlockingPrefetch {
    /// All of them before the first part, a batch at a time.
    AllUpfront,
    /// A batch at a time, as the parts are handed out.
    Rolling,
}

#[derive(Debug, Clone, Copy)]
pub struct BlockingEngineConfig {
    pub prefetch: BlockingPrefetch,
    /// Whether the first failed part ends the run.
    pub fail_fast: bool,
}

/// What the workers of one run share.
#[derive(Debug)]
pub struct BlockingRun {
    config: BlockingEngineConfig,
    part_size: u64,
    file_size: u64,
    ledger: Ledger,
    url_pool: HashMap<u32, String>,
    abort: bool,
    error_abort: bool,
}

/// The content of a `BlockingRun`.
#[verifier::ext_equal]
pub struct BlockingView {
    pub config: BlockingEngineConfig,
    pub part_size: u64,
    pub file_size: u64,
    pub ledger: LedgerView,
    pub urls: Map<u32, String>,
    /// The run is to end.
    pub abort: bool,
    /// It is to end because of an error.
    pub error_abort: bool,
}

/// What a worker does with the index it was given.
#[derive(Debug)]
pub enum WorkerStep {
    /// End.
    Stop,
    /// There is no URL for the part; `stop` tells whether to end.
    MissingUrl { part_number: u32, stop: bool },
    /// Read and upload the part.
    Upload(ChunkInfo),
}

/// The error tells of a pause or of a superseded run, not of a failure.
pub open spec fn benign(error: Seq<char>) -> bool {
    occurs_in(error, "paused"@) || occurs_in(error, "Interrupted"@) || occurs_in(
        error,
        "stale run"@,
    )
}

fn is_benign(error: &str) -> (r: bool)
    ensures
        r == benign(error@),
{
    contains_text(error, "paused") || contains_text(error, "Interrupted") || contains_text(
        error,
        "stale run",
    )
}

/// `parts` in batches of as many as are uploaded at the same time; the last one may be
/// smaller.
pub open spec fn batches(parts: Seq<u32>) -> Seq<Seq<u32>> {
    Seq::new(
        ((parts.len() + MAX_CONCURRENT_UPLOADS - 1) / MAX_CONCURRENT_UPLOADS as int) as nat,
        |b: int|
            parts.subrange(
                b * MAX_CONCURRENT_UPLOADS,
                least((b + 1) * MAX_CONCURRENT_UPLOADS, parts.len() as int),
            ),
    )
}

/// The parts behind a vector of batches.
pub open spec fn batch_parts(v: Seq<Vec<u32>>) -> Seq<Seq<u32>> {
    v.map_values(|b: Vec<u32>| b@)
}

/// Every part stands in one batch, at its place, and no batch is empty or too large.
pub proof fn lemma_batches(parts: Seq<u32>, i: int, b: int)
    ensures
        0 <= i < parts.len() ==> ({
            let n = MAX_CONCURRENT_UPLOADS as int;
            i / n < batches(parts).len() && i % n < batches(parts)[i / n].len() && batches(parts)[i / n][i % n]
                == parts[i]
        }),
        0 <= b < batches(parts).len() ==> 1 <= batches(parts)[b].len() <= MAX_CONCURRENT_UPLOADS,
{
}

impl View for BlockingRun {
    type V = BlockingView;

    closed spec fn view(&self) -> BlockingView {
        BlockingView {
            config: self.config,
            part_size: self.part_size,
            file_size: self.file_size,
            ledger: self.ledger@,
            urls: self.url_pool@,
            abort: self.abort,
            error_abort: self.error_abort,
        }
    }
}

impl BlockingView {
    /// The number of the part at index `i`.
    pub open spec fn part(self, i: int) -> u32 {
        self.ledger.parts[i]
    }

    /// The run has no reason to go on: it is paused, superseded or aborted.
    pub open spec fn stopped(self, paused: bool, current: bool) -> bool {
        paused || !current || self.abort
    }

    /// The run ends as paused: it is paused or superseded, or was aborted without an error.
    pub open spec fn ends_paused(self, paused: bool, current: bool) -> bool {
        paused || !current || (self.abort && !self.error_abort)
    }

    /// The part at index `i` is to be uploaded.
    pub open spec fn uploads(self, i: int, paused: bool, current: bool) -> bool {
        !paused && current && self.urls.contains_key(self.part(i))
    }
}

impl BlockingRun {
    /// Each part is handed out once, and noted at most once as stored.
    pub closed spec fn wf(&self) -> bool {
        self.ledger.wf()
    }

    /// What every run keeps.
    pub proof fn lemma_sound(&self)
        requires
            self.wf(),
        ensures
            self@.ledger.sound(),
    {
        self.ledger.lemma_sound();
    }

    pub fn new(config: BlockingEngineConfig, part_size: u64, file_size: u64, parts_to_upload: Vec<u32>) -> (r: Self)
        ensures
            r.wf(),
            r@ == (BlockingView {
                config,
                part_size,
                file_size,
                ledger: LedgerView::fresh(parts_to_upload@),
                urls: Map::empty(),
                abort: false,
                error_abort: false,
            }),
    {
        BlockingRun {
            config,
            part_size,
            file_size,
            ledger: Ledger::new(parts_to_upload),
            url_pool: HashMap::new(),
            abort: false,
            error_abort: false,
        }
    }

    /// The parts whose URLs are fetched before the workers begin, in batches.
    pub fn first_batches(&self) -> (r: Vec<Vec<u32>>)
        ensures
            batch_parts(r@) == (match self@.config.prefetch {
                BlockingPrefetch::AllUpfront => batches(self@.ledger.parts),
                BlockingPrefetch::Rolling => batches(self@.ledger.parts).take(
                    least(1, batches(self@.ledger.parts).len() as int),
                ),
            }),
    {
        let n: usize = self.ledger.len();
        let ghost parts = self@.ledger.parts;
        let ghost all = batches(parts);
        let mut r: Vec<Vec<u32>> = Vec::new();
        let mut from: usize = 0;
        assert(batch_parts(r@) =~= all.take(0));
        while from < n
            invariant_except_break
                from <= n,
                n == parts.len(),
                parts == self@.ledger.parts,
                all == batches(parts),
                r@.len() <= all.len(),
                from < n ==> from == r@.len() * MAX_CONCURRENT_UPLOADS && r@.len() < all.len(),
                from == n ==> r@.len() == all.len(),
                self@.config.prefetch == BlockingPrefetch::Rolling ==> r@.len() == 0,
                batch_parts(r@) == all.take(r@.len() as int),
            ensures
                all == batches(parts),
                batch_parts(r@) == all.take(r@.len() as int),
                if self@.config.prefetch == BlockingPrefetch::Rolling {
                    r@.len() == least(1, all.len() as int)
                } else {
                    r@.len() == all.len()
                },
            decreases n - from,
        {
            let end: usize = if MAX_CONCURRENT_UPLOADS < n - from {
                from + MAX_CONCURRENT_UPLOADS
            } else {
                n
            };
            let ghost before = batch_parts(r@);
            let b = self.ledger.slice(from, end);
            assert(b@ =~= all[r@.len() as int]);
            r.push(b);
            assert(batch_parts(r@) =~= before.push(b@));
            assert(batch_parts(r@) =~= all.take(r@.len() as int));
            match self.config.prefetch {
                BlockingPrefetch::AllUpfront => {},
                BlockingPrefetch::Rolling => {
                    break;
                },
            }
            from = end;
        }
        assert(all.take(all.len() as int) =~= all);
        r
    }

    /// The parts whose URLs are fetched before index `idx` is handed out, if any are.
    pub fn batch_at(&self, idx: usize) -> (r: Option<Vec<u32>>)
        requires
            idx < self@.ledger.parts.len(),
        ensures
            if self@.config.prefetch == BlockingPrefetch::Rolling && idx > 0 && idx
                % MAX_CONCURRENT_UPLOADS == 0 {
                r matches Some(b) && b@ == self@.ledger.parts.subrange(
                    idx as int,
                    least(idx + MAX_CONCURRENT_UPLOADS, self@.ledger.parts.len() as int),
                )
            } else {
                r is None
            },
    {
        match self.config.prefetch {
            BlockingPrefetch::AllUpfront => None,
            BlockingPrefetch::Rolling => {
                if idx > 0 && idx % MAX_CONCURRENT_UPLOADS == 0 {
                    let n: usize = self.ledger.len();
                    let end: usize = if MAX_CONCURRENT_UPLOADS < n - idx {
                        idx + MAX_CONCURRENT_UPLOADS
                    } else {
                        n
                    };
                    Some(self.ledger.slice(idx, end))
                } else {
                    None
                }
            },
        }
    }

    /// Adds URLs that were fetched.
    pub fn add_urls(&mut self, urls: &HashMap<u32, String>)
        requires
            old(self).wf(),
        ensures
            final(self).wf(),
            final(self)@ == (BlockingView {
                urls: old(self)@.urls.union_prefer_right(urls@),
                ..old(self)@
            }),
    {
        extend_urls(&mut self.url_pool, urls);
    }

    /// Whether to hand out no further index.
    pub fn should_stop(&self, paused: bool, current: bool) -> (r: bool)
        ensures
            r == self@.stopped(paused, current),
    {
        paused || !current || self.abort
    }

    /// Hands the next part out to a worker, by its index.
    pub fn hand_out(&mut self) -> (r: Option<usize>)
        requires
            old(self).wf(),
        ensures
            final(self).wf(),
            if old(self)@.ledger.next < old(self)@.ledger.parts.len() {
                &&& r matches Some(i) && i == old(self)@.ledger.next
                &&& final(self)@ == (BlockingView { ledger: old(self)@.ledger.advanced(), ..old(self)@ })
                &&& final(self)@.ledger.is_out(old(self)@.ledger.next)
            } else {
                r is None && final(self)@ == old(self)@
            },
    {
        self.ledger.hand_out()
    }

    /// A worker could not begin.
    pub fn worker_failed(&mut self)
        requires
            old(self).wf(),
        ensures
            final(self).wf(),
            final(self)@ == (BlockingView { abort: true, error_abort: true, ..old(self)@ }),
    {
        self.error_abort = true;
        self.abort = true;
    }

    /// Whether a worker may take the step with this index: the part was handed out, and where
    /// it is to be uploaded, it has a position in a file.
    pub fn can_step(&self, idx: usize, paused: bool, current: bool) -> (r: bool)
        requires
            self.wf(),
        ensures
            r == (self@.ledger.is_out(idx as int) && (self@.uploads(idx as int, paused, current) ==> has_position(
                self@.part(idx as int),
                self@.part_size,
            ))),
    {
        broadcast use vstd::std_specs::hash::group_hash_axioms;

        proof {
            self.ledger.lemma_sound();
        }
        if !self.ledger.is_out(idx) {
            return false;
        }
        let part_number: u32 = self.ledger.part_at(idx);
        paused || !current || !self.url_pool.contains_key(&part_number) || part_position(part_number, self.part_size).is_some()
    }

    /// What a worker does with the index it was given.
    pub fn step(&mut self, idx: usize, paused: bool, current: bool) -> (r: WorkerStep)
        requires
            old(self).wf(),
            old(self)@.ledger.is_out(idx as int),
            old(self)@.uploads(idx as int, paused, current) ==> has_position(
                old(self)@.part(idx as int),
                old(self)@.part_size,
            ),
        ensures
            final(self).wf(),
            ({
                let run = old(self)@;
                let p = run.part(idx as int);
                if paused || !current {
                    &&& r is Stop
                    &&& final(self)@ == (BlockingView { abort: true, ..run })
                } else if !run.urls.contains_key(p) {
                    let ff = run.config.fail_fast;
                    &&& r == (WorkerStep::MissingUrl { part_number: p, stop: ff })
                    &&& final(self)@ == (if ff {
                        BlockingView { abort: true, error_abort: true, ..run }
                    } else {
                        run
                    })
                } else {
                    &&& r matches WorkerStep::Upload(c)
                    &&& c.part_number == p
                    &&& c.start_pos == part_start(p as int, run.part_size as int)
                    &&& c.chunk_size == part_len(p as int, run.part_size as int, run.file_size as int)
                    &&& c.url == run.urls[p]
                    &&& final(self)@ == run
                }
            }),
    {
        broadcast use vstd::std_specs::hash::group_hash_axioms;

        proof {
            self.ledger.lemma_sound();
        }
        if paused || !current {
            self.abort = true;
            return WorkerStep::Stop;
        }
        let part_number: u32 = self.ledger.part_at(idx);
        let url: Option<String> = match self.url_pool.get(&part_number) {
            Some(u) => Some(u.clone()),
            None => None,
        };
        match url {
            Some(url) => {
                let n: u64 = part_number as u64 - 1;
                assert(0 <= n * self.part_size) by (nonlinear_arith);
                WorkerStep::Upload(
                    ChunkInfo {
                        part_number,
                        start_pos: n * self.part_size,
                        chunk_size: part_size_for(part_number, self.part_size, self.file_size),
                        url,
                    },
                )
            },
            None => {
                if self.config.fail_fast {
                    self.abort = true;
                    self.error_abort = true;
                }
                WorkerStep::MissingUrl { part_number, stop: self.config.fail_fast }
            },
        }
    }

    /// A part could not be read or uploaded. Tells whether the worker ends.
    pub fn chunk_failed(&mut self, error: &str, paused: bool) -> (r: bool)
        requires
            old(self).wf(),
        ensures
            final(self).wf(),
            r == old(self)@.config.fail_fast,
            final(self)@ == (if !old(self)@.config.fail_fast {
                old(self)@
            } else if paused || benign(error@) {
                BlockingView { abort: true, ..old(self)@ }
            } else {
                BlockingView { abort: true, error_abort: true, ..old(self)@ }
            }),
    {
        if !self.config.fail_fast {
            return false;
        }
        self.abort = true;
        if !paused && !is_benign(error) {
            self.error_abort = true;
        }
        true
    }

    /// Whether the part at an index was handed out and is not noted as stored.
    pub fn is_out(&self, idx: usize) -> (r: bool)
        requires
            self.wf(),
        ensures
            r == self@.ledger.is_out(idx as int),
    {
        self.ledger.is_out(idx)
    }

    /// The part at an index is stored.
    pub fn chunk_done(&mut self, idx: usize, etag: String)
        requires
            old(self).wf(),
            old(self)@.ledger.is_out(idx as int),
        ensures
            final(self).wf(),
            final(self)@ == (BlockingView {
                ledger: old(self)@.ledger.with_stored(idx as int, etag@),
                ..old(self)@
            }),
    {
        self.ledger.note(idx, etag);
    }

    /// Whether the run ends as paused, without waiting for its workers.
    pub fn exits_early(&self, paused: bool, current: bool) -> (r: bool)
        ensures
            r == self@.ends_paused(paused, current),
    {
        paused || !current || (self.abort && !self.error_abort)
    }

    /// The outcome of the run. It succeeds only with exactly the parts of the run stored.
    pub fn finish(self, paused: bool, current: bool) -> (r: Result<Vec<ChunkUploadResult>, String>)
        requires
            self.wf(),
        ensures
            if self@.ends_paused(paused, current) {
                r matches Err(e) && e@ == "Upload paused"@
            } else if self@.ledger.stored.len() != self@.ledger.parts.len() {
                r matches Err(e) && e@ == incomplete(self@.ledger.stored.len(), self@.ledger.parts.len())
            } else {
                &&& r matches Ok(v)
                &&& stored_parts(v@) == self@.ledger.results()
                &&& numbers(stored_parts(v@)).to_multiset() == self@.ledger.parts.to_multiset()
            },
    {
        if self.exits_early(paused, current) {
            return Err("Upload paused".to_string());
        }
        self.ledger.finish()
    }
}

} // verus!
