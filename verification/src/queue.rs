//! Which file is uploaded next.

use crate::report::{lemma_filter_none, lemma_filter_step};
use crate::session::Session;
use crate::string_map::{lookup, StringSet};
use crate::text::same_text;
use std::collections::VecDeque;
use vstd::prelude::*;

verus! {

/// The keys in a queue.
pub open spec fn queued(v: Seq<String>) -> Seq<Seq<char>> {
    v.map_values(|k: String| k@)
}

/// Keys that wait for upload, each at most once.
#[derive(Debug)]
pub struct UploadQueue {
    pending: VecDeque<String>,
    pending_keys: StringSet,
}

impl View for UploadQueue {
    type V = Seq<Seq<char>>;

    closed spec fn view(&self) -> Seq<Seq<char>> {
        queued(self.pending@)
    }
}

impl UploadQueue {
    /// No key waits twice.
    pub closed spec fn wf(&self) -> bool {
        &&& self@.no_duplicates()
        &&& self.pending_keys.wf()
        &&& self.pending_keys@ == self@.to_set()
    }

    pub fn new() -> (r: Self)
        ensures
            r.wf(),
            r@ == Seq::<Seq<char>>::empty(),
    {
        let r = UploadQueue { pending: VecDeque::new(), pending_keys: StringSet::new() };
        assert(r@ =~= Seq::<Seq<char>>::empty());
        assert(r.pending_keys@ =~= r@.to_set());
        r
    }

    /// Appends a key, unless it waits already. Tells whether it was appended.
    pub fn enqueue_key(&mut self, file_key: String) -> (r: bool)
        requires
            old(self).wf(),
        ensures
            final(self).wf(),
            r == !old(self)@.contains(file_key@),
            final(self)@ == (if r {
                old(self)@.push(file_key@)
            } else {
                old(self)@
            }),
    {
        let ghost before = self@;
        assert(before.to_set().contains(file_key@) == before.contains(file_key@));
        if !self.pending_keys.insert(file_key.clone()) {
            assert(self.pending_keys@ =~= before.to_set());
            return false;
        }
        self.pending.push_back(file_key);
        assert(self@ =~= before.push(file_key@));
        assert(self.pending_keys@ =~= self@.to_set()) by {
            assert forall|k: Seq<char>| self@.contains(k) == (before.contains(k) || k == file_key@) by {
                if before.contains(k) {
                    let i = choose|i: int| 0 <= i < before.len() && before[i] == k;
                    assert(self@[i] == k);
                }
                assert(self@[before.len() as int] == file_key@);
                if self@.contains(k) && k != file_key@ {
                    let i = choose|i: int| 0 <= i < self@.len() && self@[i] == k;
                    assert(before[i] == k);
                }
            }
        }
        true
    }

    /// Takes the first key out; none while uploads are paused.
    pub fn pop(&mut self, paused: bool) -> (r: Option<String>)
        requires
            old(self).wf(),
        ensures
            final(self).wf(),
            match r {
                Some(k) => {
                    &&& !paused
                    &&& old(self)@.len() > 0
                    &&& k@ == old(self)@[0]
                    &&& final(self)@ == old(self)@.skip(1)
                },
                None => (paused || old(self)@.len() == 0) && final(self)@ == old(self)@,
            },
    {
        if paused {
            return None;
        }
        let ghost before = self@;
        match self.pending.pop_front() {
            Some(k) => {
                assert(self@ =~= before.skip(1));
                let _ = self.pending_keys.remove(k.as_str());
                proof {
                    assert(k@ == before[0]);
                    assert forall|j: Seq<char>| self@.contains(j) == (before.contains(j) && j != k@) by {
                        if self@.contains(j) {
                            let i = choose|i: int| 0 <= i < self@.len() && self@[i] == j;
                            assert(before[i + 1] == j);
                        }
                        if before.contains(j) && j != k@ {
                            let i = choose|i: int| 0 <= i < before.len() && before[i] == j;
                            assert(self@[i - 1] == j);
                        }
                    }
                    assert(self.pending_keys@ =~= self@.to_set());
                }
                Some(k)
            },
            None => {
                assert(self@ =~= before);
                None
            },
        }
    }

    /// Takes every key out.
    pub fn clear(&mut self)
        ensures
            final(self).wf(),
            final(self)@ == Seq::<Seq<char>>::empty(),
    {
        self.pending.clear();
        self.pending_keys.clear();
        assert(self@ =~= Seq::<Seq<char>>::empty());
        assert(self.pending_keys@ =~= self@.to_set());
    }
}

/// The keys and payloads in a queue.
pub open spec fn entries<T>(v: Seq<(String, T)>) -> Seq<(Seq<char>, T)> {
    v.map_values(|p: (String, T)| (p.0@, p.1))
}

/// Files that wait for upload, each with what is needed to read it.
#[derive(Debug)]
pub struct FileQueue<T> {
    items: VecDeque<(String, T)>,
}

impl<T> View for FileQueue<T> {
    type V = Seq<(Seq<char>, T)>;

    closed spec fn view(&self) -> Seq<(Seq<char>, T)> {
        entries(self.items@)
    }
}

impl<T> FileQueue<T> {
    pub fn new() -> (r: Self)
        ensures
            r@ == Seq::<(Seq<char>, T)>::empty(),
    {
        let r = FileQueue { items: VecDeque::new() };
        assert(r@ =~= Seq::<(Seq<char>, T)>::empty());
        r
    }

    pub fn enqueue_back(&mut self, file_key: String, payload: T)
        ensures
            final(self)@ == old(self)@.push((file_key@, payload)),
    {
        let ghost before = self@;
        self.items.push_back((file_key, payload));
        assert(self@ =~= before.push((file_key@, payload)));
    }

    pub fn enqueue_front(&mut self, file_key: String, payload: T)
        ensures
            final(self)@ == seq![(file_key@, payload)] + old(self)@,
    {
        let ghost before = self@;
        self.items.push_front((file_key, payload));
        assert(self@ =~= seq![(file_key@, payload)] + before);
    }

    /// Queues a file. One that has some bytes stored goes first, so that it is finished
    /// before others begin.
    pub fn enqueue(&mut self, session: &Session, file_key: String, payload: T)
        requires
            session.wf(),
        ensures
            final(self)@ == (if lookup(session@.files, file_key@) matches Some(f) && f.uploaded_bytes > 0 {
                seq![(file_key@, payload)] + old(self)@
            } else {
                old(self)@.push((file_key@, payload))
            }),
    {
        let has_progress = match session.files.get(file_key.as_str()) {
            Some(e) => e.uploaded_bytes > 0,
            None => false,
        };
        if has_progress {
            self.enqueue_front(file_key, payload);
        } else {
            self.enqueue_back(file_key, payload);
        }
    }

    /// Takes the first file out; none while uploads are paused.
    pub fn pop(&mut self, paused: bool) -> (r: Option<(String, T)>)
        ensures
            match r {
                Some(p) => {
                    &&& !paused
                    &&& old(self)@.len() > 0
                    &&& old(self)@[0] == (p.0@, p.1)
                    &&& final(self)@ == old(self)@.skip(1)
                },
                None => (paused || old(self)@.len() == 0) && final(self)@ == old(self)@,
            },
    {
        if paused {
            return None;
        }
        let ghost before = self@;
        match self.items.pop_front() {
            Some(p) => {
                assert(self@ =~= before.skip(1));
                Some(p)
            },
            None => {
                assert(self@ =~= before);
                None
            },
        }
    }

    /// Takes a file out.
    pub fn remove_file(&mut self, file_key: &str)
        ensures
            final(self)@ == old(self)@.filter(|p: (Seq<char>, T)| p.0 != file_key@),
    {
        let ghost before = self@;
        let ghost keep = |p: (Seq<char>, T)| p.0 != file_key@;
        let mut kept: VecDeque<(String, T)> = VecDeque::new();
        let ghost mut k: int = 0;
        proof {
            lemma_filter_none(before, keep);
            assert(before.skip(0) =~= before);
            assert(entries(kept@) =~= before.take(0).filter(keep));
        }
        while self.items.len() > 0
            invariant
                0 <= k <= before.len(),
                keep == (|p: (Seq<char>, T)| p.0 != file_key@),
                self@ == before.skip(k),
                entries(kept@) == before.take(k).filter(keep),
            decreases before.len() - k,
        {
            let ghost done = entries(kept@);
            assert(self@.len() == self.items@.len());
            proof {
                lemma_filter_step(before, keep, k);
            }
            assert(self@[0] == before[k]);
            let ghost left = self@;
            if let Some(p) = self.items.pop_front() {
                assert(self@ =~= left.skip(1));
                assert(left.skip(1) =~= before.skip(k + 1));
                if !same_text(p.0.as_str(), file_key) {
                    kept.push_back(p);
                    assert(entries(kept@) =~= done.push(before[k]));
                }
            }
            proof {
                k = k + 1;
            }
        }
        proof {
            assert(self@.len() == self.items@.len());
            lemma_filter_none(before, keep);
        }
        self.items = kept;
    }

    /// Takes the files of a transfer out.
    pub fn remove_transfer(&mut self, session: &Session, transfer_id: &str)
        requires
            session.wf(),
        ensures
            final(self)@ == old(self)@.filter(
                |p: (Seq<char>, T)|
                    !(lookup(session@.files, p.0) matches Some(f) && f.transfer_id == transfer_id@),
            ),
    {
        let ghost before = self@;
        let ghost keep = |p: (Seq<char>, T)|
            !(lookup(session@.files, p.0) matches Some(f) && f.transfer_id == transfer_id@);
        let mut kept: VecDeque<(String, T)> = VecDeque::new();
        let ghost mut k: int = 0;
        proof {
            lemma_filter_none(before, keep);
            assert(before.skip(0) =~= before);
            assert(entries(kept@) =~= before.take(0).filter(keep));
        }
        while self.items.len() > 0
            invariant
                session.wf(),
                0 <= k <= before.len(),
                keep == (|p: (Seq<char>, T)|
                    !(lookup(session@.files, p.0) matches Some(f) && f.transfer_id == transfer_id@)),
                self@ == before.skip(k),
                entries(kept@) == before.take(k).filter(keep),
            decreases before.len() - k,
        {
            let ghost done = entries(kept@);
            assert(self@.len() == self.items@.len());
            proof {
                lemma_filter_step(before, keep, k);
            }
            assert(self@[0] == before[k]);
            let ghost left = self@;
            if let Some(p) = self.items.pop_front() {
                assert(self@ =~= left.skip(1));
                assert(left.skip(1) =~= before.skip(k + 1));
                let in_transfer = match session.files.get(p.0.as_str()) {
                    Some(f) => same_text(f.transfer_id.as_str(), transfer_id),
                    None => false,
                };
                if !in_transfer {
                    kept.push_back(p);
                    assert(entries(kept@) =~= done.push(before[k]));
                }
            }
            proof {
                k = k + 1;
            }
        }
        proof {
            assert(self@.len() == self.items@.len());
            lemma_filter_none(before, keep);
        }
        self.items = kept;
    }

    /// Takes every file out.
    pub fn clear(&mut self)
        ensures
            final(self)@ == Seq::<(Seq<char>, T)>::empty(),
    {
        self.items.clear();
        assert(self@ =~= Seq::<(Seq<char>, T)>::empty());
    }
}

/// A queue whose files are uploaded one at a time.
#[derive(Debug)]
pub struct SerialQueue<T> {
    pub files: FileQueue<T>,
    /// A file is being uploaded.
    pub running: bool,
    pub paused: bool,
}

impl<T> SerialQueue<T> {
    pub fn new() -> (r: Self)
        ensures
            r.files@ == Seq::<(Seq<char>, T)>::empty(),
            !r.running,
            !r.paused,
    {
        SerialQueue { files: FileQueue::new(), running: false, paused: false }
    }

    /// The file to upload now: none while uploads are paused or one is running.
    pub fn start_next(&mut self) -> (r: Option<(String, T)>)
        ensures
            final(self).paused == old(self).paused,
            match r {
                Some(p) => {
                    &&& !old(self).paused && !old(self).running
                    &&& old(self).files@.len() > 0
                    &&& old(self).files@[0] == (p.0@, p.1)
                    &&& final(self).files@ == old(self).files@.skip(1)
                    &&& final(self).running
                },
                None => {
                    &&& old(self).paused || old(self).running || old(self).files@.len() == 0
                    &&& final(self).files@ == old(self).files@
                    &&& final(self).running == old(self).running
                },
            },
    {
        if self.paused || self.running {
            return None;
        }
        match self.files.pop(false) {
            Some(p) => {
                self.running = true;
                Some(p)
            },
            None => None,
        }
    }

    /// The upload of `entry` has ended. Where it was paused, the file goes first again.
    pub fn finished(&mut self, entry: (String, T), was_paused: bool)
        ensures
            final(self).paused == old(self).paused,
            !final(self).running,
            final(self).files@ == (if was_paused {
                seq![(entry.0@, entry.1)] + old(self).files@
            } else {
                old(self).files@
            }),
    {
        if was_paused {
            self.files.enqueue_front(entry.0, entry.1);
        }
        self.running = false;
    }

    /// Empties the queue and lifts its pause.
    pub fn reset(&mut self)
        ensures
            final(self).files@ == Seq::<(Seq<char>, T)>::empty(),
            !final(self).running,
            !final(self).paused,
    {
        self.files.clear();
        self.paused = false;
        self.running = false;
    }
}

} // verus!
