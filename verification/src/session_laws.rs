//! What each operation on the session does to its parts, and what it leaves alone.

use crate::session::{
    bumped, chunk_completed, first_waiting, hash_among, lemma_with_file, new_file, FileView,
    PendingView, Session, SessionView,
};
use crate::state::{GlobalUploaderState, Percentage, UploadState};
use crate::store::{all_restarted, some_halted};
use crate::string_map::{
    at, holds, law_put_order, lemma_at, lemma_filter_unique, lemma_put, lemma_without, lemma_without_filter, lookup,
    put, unique, without,
};
use crate::transfers::TransferView;
use vstd::prelude::*;

verus! {

/// The global state follows from the files: completed where there are some, all of them are
/// completed and none is pending; else running where one runs, else failed where one has
/// failed, else paused where one is paused and none was cancelled. A file that lacks its
/// local file counts as paused, whatever its state. Nothing else of the session changes.
pub proof fn law_global_state(s: SessionView)
    ensures
        ({
            let missing = s.files_needing_provision;
            let completed = s.files.len() > 0 && s.pending_files.len() == 0 && forall|i: int|
                0 <= i < s.files.len() ==> (#[trigger] s.files[i]).1.state == UploadState::Completed
                    && !missing.contains(s.files[i].1.file_hash);
            let running = exists|i: int|
                0 <= i < s.files.len() && (#[trigger] s.files[i]).1.state == UploadState::Running
                    && !missing.contains(s.files[i].1.file_hash);
            let failed = exists|i: int|
                0 <= i < s.files.len() && (#[trigger] s.files[i]).1.state == UploadState::Failed
                    && !missing.contains(s.files[i].1.file_hash);
            let cancelled = exists|i: int|
                0 <= i < s.files.len() && (#[trigger] s.files[i]).1.state == UploadState::Cancelled
                    && !missing.contains(s.files[i].1.file_hash);
            let paused = exists|i: int|
                0 <= i < s.files.len() && ((#[trigger] s.files[i]).1.state == UploadState::Paused
                    || missing.contains(s.files[i].1.file_hash));
            let state = if completed {
                GlobalUploaderState::Completed
            } else if running {
                GlobalUploaderState::Running
            } else if failed {
                GlobalUploaderState::Failed
            } else if paused && !cancelled {
                GlobalUploaderState::Paused
            } else {
                GlobalUploaderState::NotStarted
            };
            s.recomputed() == (SessionView { global_state: state, ..s })
        }),
{
    let missing = s.files_needing_provision;
    assert forall|i: int| 0 <= i < s.files.len() implies s.effective((#[trigger] s.files[i]).1) == (if missing.contains(
        s.files[i].1.file_hash,
    ) {
        UploadState::Paused
    } else {
        s.files[i].1.state
    }) by {}
    lemma_some_file(s, UploadState::Running);
    lemma_some_file(s, UploadState::Failed);
    lemma_some_file(s, UploadState::Paused);
    if exists|i: int|
        0 <= i < s.files.len() && (#[trigger] s.files[i]).1.state == UploadState::Cancelled && !missing.contains(
            s.files[i].1.file_hash,
        ) {
        let i = choose|i: int|
            0 <= i < s.files.len() && (#[trigger] s.files[i]).1.state == UploadState::Cancelled && !missing.contains(
                s.files[i].1.file_hash,
            );
        assert(s.effective(s.files[i].1) == UploadState::Cancelled);
        assert(!s.all_at_rest());
    } else if !s.some_file(UploadState::Running) && !s.some_file(UploadState::Failed) {
        assert forall|i: int| 0 <= i < s.files.len() implies crate::session::at_rest(
            s.effective((#[trigger] s.files[i]).1),
        ) by {
            let e = s.effective(s.files[i].1);
            assert(e != UploadState::Running && e != UploadState::Failed);
        }
    }
    if s.files.len() > 0 && s.pending_files.len() == 0 && s.all_completed() {
        assert forall|i: int| 0 <= i < s.files.len() implies (#[trigger] s.files[i]).1.state == UploadState::Completed
            && !missing.contains(s.files[i].1.file_hash) by {
            assert(s.effective(s.files[i].1) == UploadState::Completed);
        }
    }
}

/// A file counts as being in a state where it is, and has its local file.
proof fn lemma_some_file(s: SessionView, st: UploadState)
    ensures
        s.some_file(st) == exists|i: int|
            0 <= i < s.files.len() && (if s.files_needing_provision.contains((#[trigger] s.files[i]).1.file_hash) {
                UploadState::Paused
            } else {
                s.files[i].1.state
            }) == st,
{
    if s.some_file(st) {
        let i = choose|i: int| 0 <= i < s.files.len() && s.effective((#[trigger] s.files[i]).1) == st;
        assert(s.effective(s.files[i].1) == st);
    }
    if exists|i: int|
        0 <= i < s.files.len() && (if s.files_needing_provision.contains((#[trigger] s.files[i]).1.file_hash) {
            UploadState::Paused
        } else {
            s.files[i].1.state
        }) == st {
        let i = choose|i: int|
            0 <= i < s.files.len() && (if s.files_needing_provision.contains((#[trigger] s.files[i]).1.file_hash) {
                UploadState::Paused
            } else {
                s.files[i].1.state
            }) == st;
        assert(s.effective(s.files[i].1) == st);
    }
}

/// Pausing turns each running file into a paused one and changes nothing else of any file:
/// its confirmed parts, its upload id and its run version stay. Of the session, only the
/// global state follows.
pub proof fn law_pause_keeps_files(s: SessionView)
    ensures
        s.paused().files.len() == s.files.len(),
        forall|i: int|
            0 <= i < s.files.len() ==> (#[trigger] s.paused().files[i]) == (
                s.files[i].0,
                FileView {
                    state: if s.files[i].1.state == UploadState::Running {
                        UploadState::Paused
                    } else {
                        s.files[i].1.state
                    },
                    ..s.files[i].1
                },
            ),
        s.paused() == (SessionView { files: s.paused().files, ..s }).recomputed(),
{
    assert((SessionView { files: s.paused().files, ..s }) == s.with_files(|f: FileView| crate::session::stopped(f)));
}

/// Loading turns each running file into a paused one and changes nothing else of any file.
/// The files that are not completed are those whose local file is missing; of the rest of
/// the session, only the global state follows.
pub proof fn law_load_keeps_files(s: SessionView, h: Seq<char>)
    ensures
        s.loaded().files.len() == s.files.len(),
        forall|i: int|
            0 <= i < s.files.len() ==> (#[trigger] s.loaded().files[i]) == (
                s.files[i].0,
                FileView {
                    state: if s.files[i].1.state == UploadState::Running {
                        UploadState::Paused
                    } else {
                        s.files[i].1.state
                    },
                    ..s.files[i].1
                },
            ),
        s.loaded().files_needing_provision.contains(h) <==> exists|i: int|
            0 <= i < s.files.len() && (#[trigger] s.files[i]).1.file_hash == h && s.files[i].1.state
                != UploadState::Completed,
        s.loaded() == (SessionView {
            files: s.loaded().files,
            files_needing_provision: s.loaded().files_needing_provision,
            ..s
        }).recomputed(),
{
    let before = SessionView {
        files_needing_provision: crate::session::unfinished_hashes(s.files),
        ..s.with_files(|f: FileView| crate::session::stopped(f))
    };
    assert(before == (SessionView {
        files: s.loaded().files,
        files_needing_provision: s.loaded().files_needing_provision,
        ..s
    }));
}

/// A resume sends each file that is paused or has failed back to waiting, under a new run
/// version, and changes nothing else of any file: its confirmed parts stay. Of the session,
/// only the global state follows, and only where a file was restarted.
pub proof fn law_resume_keeps_files(s: SessionView)
    ensures
        all_restarted(s).files.len() == s.files.len(),
        forall|i: int|
            0 <= i < s.files.len() ==> (#[trigger] all_restarted(s).files[i]) == (
                s.files[i].0,
                if s.files[i].1.state == UploadState::Paused || s.files[i].1.state == UploadState::Failed {
                    FileView {
                        state: UploadState::NotStarted,
                        run_version: if s.files[i].1.run_version < u64::MAX {
                            (s.files[i].1.run_version + 1) as u64
                        } else {
                            u64::MAX
                        },
                        ..s.files[i].1
                    }
                } else {
                    s.files[i].1
                },
            ),
        (exists|i: int|
            0 <= i < s.files.len() && ((#[trigger] s.files[i]).1.state == UploadState::Paused || s.files[i].1.state
                == UploadState::Failed)) ==> all_restarted(s) == (SessionView {
            files: all_restarted(s).files,
            ..s
        }).recomputed(),
        (forall|i: int|
            0 <= i < s.files.len() ==> (#[trigger] s.files[i]).1.state != UploadState::Paused && s.files[i].1.state
                != UploadState::Failed) ==> all_restarted(s) == s,
{
    let all = s.with_files(|f: FileView| crate::store::restarted(f));
    assert forall|i: int| 0 <= i < s.files.len() implies (#[trigger] all.files[i]) == (
        s.files[i].0,
        crate::store::restarted(s.files[i].1),
    ) by {}
    if !some_halted(s) {
        assert forall|i: int| 0 <= i < s.files.len() implies (#[trigger] s.files[i]).1.state != UploadState::Paused
            && s.files[i].1.state != UploadState::Failed by {
            assert(!crate::store::halted(s.files[i].1));
        }
    } else {
        let i = choose|i: int| 0 <= i < s.files.len() && crate::store::halted((#[trigger] s.files[i]).1);
        assert(s.files[i].1.state == UploadState::Paused || s.files[i].1.state == UploadState::Failed);
        assert((SessionView { files: all.files, ..s }) == all);
        assert((SessionView { files: all_restarted(s).files, ..s }) == all);
    }
}

/// Changing one file changes that file alone: the others, their order and the rest of the
/// session stay.
pub proof fn law_one_file_changes(s: SessionView, key: Seq<char>, h: spec_fn(FileView) -> FileView)
    requires
        s.sound(),
    ensures
        s.with_file(key, h).files.len() == s.files.len(),
        forall|i: int|
            0 <= i < s.files.len() ==> (#[trigger] s.with_file(key, h).files[i]) == (
                s.files[i].0,
                if s.files[i].0 == key {
                    h(s.files[i].1)
                } else {
                    s.files[i].1
                },
            ),
        s.with_file(key, h) == (SessionView { files: s.with_file(key, h).files, ..s }),
{
    lemma_with_file(s, key, h);
    assert forall|i: int| 0 <= i < s.files.len() implies (#[trigger] s.with_file(key, h).files[i]) == (
        s.files[i].0,
        if s.files[i].0 == key {
            h(s.files[i].1)
        } else {
            s.files[i].1
        },
    ) by {
        assert(s.files[i].1.file_key == s.files[i].0);
    }
}

/// Moving a file to a state changes its state alone; the global state follows.
pub proof fn law_marking_changes_state(s: SessionView, key: Seq<char>, state: UploadState)
    requires
        s.sound(),
    ensures
        s.marked(key, state).files.len() == s.files.len(),
        forall|i: int|
            0 <= i < s.files.len() ==> (#[trigger] s.marked(key, state).files[i]) == (
                s.files[i].0,
                FileView {
                    state: if s.files[i].0 == key {
                        state
                    } else {
                        s.files[i].1.state
                    },
                    ..s.files[i].1
                },
            ),
        s.marked(key, state) == (SessionView { files: s.marked(key, state).files, ..s }).recomputed(),
{
    let h = |f: FileView| FileView { state, ..f };
    law_one_file_changes(s, key, h);
    assert forall|i: int| 0 <= i < s.files.len() implies (#[trigger] s.marked(key, state).files[i])
        == s.with_file(key, h).files[i] by {}
    assert((SessionView { files: s.marked(key, state).files, ..s }) == s.with_file(key, h));
}

/// A part that was not confirmed before is confirmed under exactly the ETag given, and every
/// part that was confirmed stays so, under its own ETag and in its place. The count of parts
/// goes up by one, the stored bytes by the size of the part, but not past the size of the
/// file. Nothing else changes. A part that was confirmed before changes nothing.
pub proof fn law_part_confirmed_under_its_etag(f: FileView, p: u32, etag: Seq<char>, size: u64)
    requires
        f.completed_parts < u32::MAX,
        f.uploaded_bytes + size <= u64::MAX,
    ensures
        ({
            let g = chunk_completed(f, p, etag, size);
            let before = f.completed_chunk_etags;
            if exists|i: int| 0 <= i < before.len() && (#[trigger] before[i]).0 == p {
                g == f
            } else {
                &&& g.completed_chunk_etags.len() == before.len() + 1
                &&& g.completed_chunk_etags.contains((p, etag))
                &&& forall|i: int| 0 <= i < before.len() ==> (#[trigger] g.completed_chunk_etags[i]) == before[i]
                &&& g.completed_parts == f.completed_parts + 1
                &&& g.uploaded_bytes <= f.total_bytes
                &&& g.uploaded_bytes == f.uploaded_bytes + size || (g.uploaded_bytes == f.total_bytes
                    && f.uploaded_bytes + size > f.total_bytes)
                &&& g == (FileView {
                    completed_chunk_etags: g.completed_chunk_etags,
                    completed_parts: g.completed_parts,
                    uploaded_bytes: g.uploaded_bytes,
                    ..f
                })
            }
        }),
{
    let g = chunk_completed(f, p, etag, size);
    let before = f.completed_chunk_etags;
    if !crate::session::confirmed(before, p) {
        assert(g.completed_chunk_etags[before.len() as int] == (p, etag));
    }
}

/// Two different parts, confirmed one after the other, stand under their own ETags each.
pub proof fn law_two_parts_two_etags(
    f: FileView,
    p: u32,
    etag: Seq<char>,
    size: u64,
    q: u32,
    etag2: Seq<char>,
    size2: u64,
)
    requires
        p != q,
        forall|i: int|
            0 <= i < f.completed_chunk_etags.len() ==> (#[trigger] f.completed_chunk_etags[i]).0 != p
                && f.completed_chunk_etags[i].0 != q,
    ensures
        ({
            let after = chunk_completed(chunk_completed(f, p, etag, size), q, etag2, size2).completed_chunk_etags;
            after.contains((p, etag)) && after.contains((q, etag2))
        }),
{
    let before = f.completed_chunk_etags;
    let g = chunk_completed(f, p, etag, size);
    let h = chunk_completed(g, q, etag2, size2);
    assert(!crate::session::confirmed(before, p));
    assert(g.completed_chunk_etags == before.push((p, etag)));
    assert(!crate::session::confirmed(g.completed_chunk_etags, q)) by {
        assert forall|i: int| 0 <= i < g.completed_chunk_etags.len() implies (#[trigger] g.completed_chunk_etags[i]).0 != q by {
            if i < before.len() {
                assert(g.completed_chunk_etags[i] == before[i]);
            }
        }
    }
    assert(h.completed_chunk_etags[before.len() as int] == (p, etag));
    assert(h.completed_chunk_etags[(before.len() + 1) as int] == (q, etag2));
}

/// A new run has a greater version than the one before, unless that is at its limit, and
/// changes nothing else.
pub proof fn law_new_run(f: FileView)
    ensures
        f.run_version < u64::MAX ==> bumped(f).run_version == f.run_version + 1,
        f.run_version == u64::MAX ==> bumped(f).run_version == u64::MAX,
        bumped(f) == (FileView { run_version: bumped(f).run_version, ..f }),
{
}

/// A file under this key is there and can be picked up for upload: it has not started, is
/// initialized or paused, or has failed.
pub open spec fn awaits(s: SessionView, key: Seq<char>) -> bool {
    lookup(s.files, key) matches Some(f) && (f.state == UploadState::NotStarted || f.state == UploadState::Initialized
        || f.state == UploadState::Paused || f.state == UploadState::Failed)
}

/// Among `keys`, `key` is the first that awaits upload.
pub open spec fn first_awaiting(s: SessionView, keys: Seq<Seq<char>>, key: Seq<char>) -> bool {
    exists|j: int|
        0 <= j < keys.len() && (#[trigger] keys[j]) == key && awaits(s, key) && forall|i: int|
            0 <= i < j ==> !awaits(s, #[trigger] keys[i])
}

/// Some key among `keys` awaits upload.
pub open spec fn some_awaits(s: SessionView, keys: Seq<Seq<char>>) -> bool {
    exists|j: int| 0 <= j < keys.len() && awaits(s, #[trigger] keys[j])
}

/// The first key that waits, where there is one.
proof fn lemma_first_awaiting(s: SessionView, keys: Seq<Seq<char>>)
    ensures
        match first_waiting(s.files, keys) {
            Some(k) => first_awaiting(s, keys, k) && some_awaits(s, keys),
            None => !some_awaits(s, keys),
        },
    decreases keys.len(),
{
    if keys.len() > 0 {
        let rest = keys.skip(1);
        lemma_first_awaiting(s, rest);
        assert forall|i: int| 1 <= i < keys.len() implies #[trigger] keys[i] == rest[i - 1] by {}
        if awaits(s, keys[0]) {
            assert(first_waiting(s.files, keys) == Some(keys[0]));
        } else {
            match first_waiting(s.files, rest) {
                Some(k) => {
                    let j = choose|j: int|
                        0 <= j < rest.len() && (#[trigger] rest[j]) == k && awaits(s, k) && forall|i: int|
                            0 <= i < j ==> !awaits(s, #[trigger] rest[i]);
                    assert(keys[j + 1] == k);
                    assert forall|i: int| 0 <= i < j + 1 implies !awaits(s, #[trigger] keys[i]) by {
                        if i > 0 {
                            assert(!awaits(s, rest[i - 1]));
                        }
                    }
                },
                None => {
                    if some_awaits(s, keys) {
                        let j = choose|j: int| 0 <= j < keys.len() && awaits(s, #[trigger] keys[j]);
                        assert(awaits(s, rest[j - 1]));
                    }
                },
            }
        }
    }
}

/// The search for a transfer with a waiting file goes from the front.
proof fn lemma_first_transfer(s: SessionView, from: int)
    requires
        s.sound(),
        0 <= from <= s.transfers.len(),
    ensures
        from <= s.waiting_transfer(from) <= s.transfers.len(),
        s.waiting_transfer(from) < s.transfers.len() ==> some_awaits(
            s,
            s.transfers[s.waiting_transfer(from)].1.file_keys,
        ),
        forall|i: int|
            from <= i < s.waiting_transfer(from) ==> !some_awaits(s, (#[trigger] s.transfers[i]).1.file_keys),
    decreases s.transfers.len() - from,
{
    if from < s.transfers.len() {
        lemma_at(s.transfers, from);
        lemma_first_awaiting(s, s.transfers[from].1.file_keys);
        if s.waiting_in(s.transfers[from].0) is None {
            lemma_first_transfer(s, from + 1);
        }
    }
}

/// The next file is the first one that awaits upload in the current transfer. Where none
/// does there, it is the first one of the earliest transfer that has one, and that transfer
/// becomes the current one. There is none only where no listed file awaits upload. Nothing
/// else changes.
pub proof fn law_next_in_order(s: SessionView)
    requires
        s.sound(),
    ensures
        ({
            let (next, after) = s.next_pending();
            let here = s.current_transfer_id matches Some(id) && lookup(s.transfers, id) matches Some(t) && some_awaits(
                s,
                t.file_keys,
            );
            if here {
                let t = lookup(s.transfers, s.current_transfer_id->0)->0;
                &&& next matches Some(key) && first_awaiting(s, t.file_keys, key)
                &&& after == s
            } else if exists|k: int| 0 <= k < s.transfers.len() && some_awaits(s, (#[trigger] s.transfers[k]).1.file_keys) {
                exists|k: int|
                    {
                        &&& 0 <= k < s.transfers.len()
                        &&& next matches Some(key) && first_awaiting(s, (#[trigger] s.transfers[k]).1.file_keys, key)
                        &&& forall|i: int| 0 <= i < k ==> !some_awaits(s, (#[trigger] s.transfers[i]).1.file_keys)
                        &&& after == (SessionView { current_transfer_id: Some(s.transfers[k].0), ..s })
                    }
            } else {
                next is None && after == s
            }
        }),
{
    let (next, after) = s.next_pending();
    lemma_first_transfer(s, 0);
    let here = s.current_transfer_id matches Some(id) && lookup(s.transfers, id) matches Some(t) && some_awaits(
        s,
        t.file_keys,
    );
    if s.current_transfer_id is Some && lookup(s.transfers, s.current_transfer_id->0) is Some {
        lemma_first_awaiting(s, (lookup(s.transfers, s.current_transfer_id->0)->0).file_keys);
    }
    if !here {
        let k = s.waiting_transfer(0);
        if k < s.transfers.len() {
            lemma_at(s.transfers, k);
            lemma_first_awaiting(s, s.transfers[k].1.file_keys);
            assert(some_awaits(s, s.transfers[k].1.file_keys));
            let key = next->0;
            assert(first_awaiting(s, s.transfers[k].1.file_keys, key));
        } else {
            assert forall|i: int| 0 <= i < s.transfers.len() implies !some_awaits(
                s,
                (#[trigger] s.transfers[i]).1.file_keys,
            ) by {}
        }
    }
}

/// The transfers with `key` struck: each is still there, at its place and under its id, and
/// lists what it listed before but for `key`.
pub open spec fn only_struck(
    before: Seq<(Seq<char>, TransferView)>,
    after: Seq<(Seq<char>, TransferView)>,
    key: Seq<char>,
) -> bool {
    &&& after.len() == before.len()
    &&& forall|i: int|
        0 <= i < before.len() ==> (#[trigger] after[i]) == (
            before[i].0,
            TransferView {
                transfer_id: before[i].1.transfer_id,
                file_keys: before[i].1.file_keys.filter(|k: Seq<char>| k != key),
            },
        )
}

proof fn lemma_only_struck(m: Seq<(Seq<char>, TransferView)>, key: Seq<char>)
    ensures
        only_struck(m, crate::session::struck(m, key), key),
{
    assert forall|i: int| 0 <= i < m.len() implies (#[trigger] crate::session::struck(m, key)[i]) == (
        m[i].0,
        TransferView {
            transfer_id: m[i].1.transfer_id,
            file_keys: m[i].1.file_keys.filter(|k: Seq<char>| k != key),
        },
    ) by {
        assert(crate::session::other_than(key) =~= (|k: Seq<char>| k != key));
    }
}

/// Cancelling a file by its key takes out that file, what is known under its hash and its
/// mentions in the transfers; every other file, hash, pending file and transfer stays as it
/// is. The global state follows.
pub proof fn law_cancel_leaves_others(s: SessionView, key: Seq<char>, k: Seq<char>, h: Seq<char>)
    requires
        s.sound(),
    ensures
        ({
            let after = s.without_file(key);
            let gone = lookup(s.files, key) matches Some(f) && f.file_hash == h;
            &&& lookup(after.files, k) == (if k == key { None } else { lookup(s.files, k) })
            &&& after.files == s.files.filter(|p: (Seq<char>, FileView)| p.0 != key)
            &&& lookup(after.hash_to_key, h) == (if gone { None } else { lookup(s.hash_to_key, h) })
            &&& after.files_needing_provision.contains(h) == (!gone && s.files_needing_provision.contains(h))
            &&& only_struck(s.transfers, after.transfers, key)
            &&& after == (SessionView {
                files: after.files,
                hash_to_key: after.hash_to_key,
                files_needing_provision: after.files_needing_provision,
                transfers: after.transfers,
                ..s
            }).recomputed()
        }),
{
    let after = s.without_file(key);
    lemma_without(s.files, key, k);
    lemma_without_filter(s.files, key);
    lemma_only_struck(s.transfers, key);
    if holds(s.files, key) {
        lemma_without(s.hash_to_key, (lookup(s.files, key)->0).file_hash, h);
    }
    assert((SessionView {
        files: after.files,
        hash_to_key: after.hash_to_key,
        files_needing_provision: after.files_needing_provision,
        transfers: after.transfers,
        ..s
    }) == (SessionView {
        files: without(s.files, key),
        transfers: crate::session::struck(s.transfers, key),
        ..s.forgotten(lookup(s.files, key))
    }));
}

/// Cancelling by hash takes out what is known under that hash, pending or registered, and
/// leaves everything else alone: every other hash, every other pending file, and every file
/// under another key than the one this hash leads to. The global state follows.
pub proof fn law_cancel_hash_leaves_others(s: SessionView, h: Seq<char>, h2: Seq<char>, k: Seq<char>)
    requires
        s.sound(),
    ensures
        ({
            let after = s.without_hash(h);
            &&& lookup(after.pending_files, h2) == (if h2 == h { None } else { lookup(s.pending_files, h2) })
            &&& after.pending_files == s.pending_files.filter(|p: (Seq<char>, PendingView)| p.0 != h)
            &&& lookup(after.hash_to_key, h2) == (if h2 == h { None } else { lookup(s.hash_to_key, h2) })
            &&& after.files_needing_provision.contains(h2) == (h2 != h && s.files_needing_provision.contains(h2))
            &&& lookup(after.files, k) == (if lookup(s.hash_to_key, h) == Some(k) {
                None
            } else {
                lookup(s.files, k)
            })
            &&& match lookup(s.hash_to_key, h) {
                Some(key) => after.files == s.files.filter(|p: (Seq<char>, FileView)| p.0 != key) && only_struck(
                    s.transfers,
                    after.transfers,
                    key,
                ),
                None => after.files == s.files && after.transfers == s.transfers,
            }
            &&& after == (SessionView {
                files: after.files,
                hash_to_key: after.hash_to_key,
                files_needing_provision: after.files_needing_provision,
                pending_files: after.pending_files,
                transfers: after.transfers,
                ..s
            }).recomputed()
        }),
{
    let after = s.without_hash(h);
    lemma_without(s.pending_files, h, h2);
    lemma_without_filter(s.pending_files, h);
    lemma_without(s.hash_to_key, h, h2);
    let t = SessionView {
        pending_files: without(s.pending_files, h),
        files_needing_provision: s.files_needing_provision.remove(h),
        hash_to_key: without(s.hash_to_key, h),
        ..s
    };
    match lookup(s.hash_to_key, h) {
        Some(key) => {
            lemma_without(s.files, key, k);
            lemma_without_filter(s.files, key);
            lemma_only_struck(s.transfers, key);
            assert((SessionView {
                files: after.files,
                hash_to_key: after.hash_to_key,
                files_needing_provision: after.files_needing_provision,
                pending_files: after.pending_files,
                transfers: after.transfers,
                ..s
            }) == (SessionView {
                files: without(s.files, key),
                transfers: crate::session::struck(s.transfers, key),
                ..t
            }));
        },
        None => {
            assert((SessionView {
                files: after.files,
                hash_to_key: after.hash_to_key,
                files_needing_provision: after.files_needing_provision,
                pending_files: after.pending_files,
                transfers: after.transfers,
                ..s
            }) == t);
        },
    }
}

/// Cancelling a transfer takes out the files that it lists, what is known under their hashes,
/// its pending files and itself; every other file, hash, pending file and transfer stays as
/// it is. The global state follows.
pub proof fn law_cancel_transfer_leaves_others(s: SessionView, id: Seq<char>, k: Seq<char>, h: Seq<char>, other: Seq<char>)
    requires
        s.sound(),
    ensures
        ({
            let after = s.without_transfer(id);
            let listed = |key: Seq<char>| lookup(s.transfers, id) matches Some(t) && t.file_keys.contains(key);
            let hit = exists|i: int|
                0 <= i < s.files.len() && listed((#[trigger] s.files[i]).0) && s.files[i].1.file_hash == h;
            &&& lookup(after.files, k) == (if listed(k) { None } else { lookup(s.files, k) })
            &&& after.files == s.files.filter(|p: (Seq<char>, FileView)| !listed(p.0))
            &&& lookup(after.hash_to_key, h) == (if hit { None } else { lookup(s.hash_to_key, h) })
            &&& after.files_needing_provision.contains(h) == (!hit && s.files_needing_provision.contains(h))
            &&& lookup(after.pending_files, h) == (match lookup(s.pending_files, h) {
                Some(p) => if p.transfer_id == id { None } else { Some(p) },
                None => None,
            })
            &&& after.pending_files == s.pending_files.filter(|p: (Seq<char>, PendingView)| p.1.transfer_id != id)
            &&& lookup(after.transfers, other) == (if other == id { None } else { lookup(s.transfers, other) })
            &&& after.transfers == s.transfers.filter(|p: (Seq<char>, TransferView)| p.0 != id)
            &&& after.current_transfer_id == (if s.current_transfer_id == Some(id) {
                None
            } else {
                s.current_transfer_id
            })
            &&& after == (SessionView {
                files: after.files,
                hash_to_key: after.hash_to_key,
                files_needing_provision: after.files_needing_provision,
                pending_files: after.pending_files,
                transfers: after.transfers,
                current_transfer_id: after.current_transfer_id,
                ..s
            }).recomputed()
        }),
{
    let after = s.without_transfer(id);
    let listed = |key: Seq<char>| lookup(s.transfers, id) matches Some(t) && t.file_keys.contains(key);
    let elsewhere = |p: (Seq<char>, PendingView)| p.1.transfer_id != id;
    lemma_without(s.transfers, id, other);
    lemma_without_filter(s.transfers, id);
    lemma_filter_lookup(s.pending_files, elsewhere, h);
    let stays = |p: (Seq<char>, FileView)| !listed(p.0);
    lemma_filter_lookup(s.files, stays, k);
    match lookup(s.transfers, id) {
        Some(t) => {
            let keys = t.file_keys;
            let keep = |p: (Seq<char>, FileView)| !keys.contains(p.0);
            assert(keep =~= stays);
            assert(hash_among(s.files, keys, h) == exists|i: int|
                0 <= i < s.files.len() && listed((#[trigger] s.files[i]).0) && s.files[i].1.file_hash == h) by {
                if hash_among(s.files, keys, h) {
                    let i = choose|i: int|
                        0 <= i < s.files.len() && keys.contains((#[trigger] s.files[i]).0) && s.files[i].1.file_hash == h;
                    assert(listed(s.files[i].0));
                }
                if exists|i: int| 0 <= i < s.files.len() && listed((#[trigger] s.files[i]).0) && s.files[i].1.file_hash == h {
                    let i = choose|i: int|
                        0 <= i < s.files.len() && listed((#[trigger] s.files[i]).0) && s.files[i].1.file_hash == h;
                    assert(keys.contains(s.files[i].0));
                }
            }
            lemma_filter_lookup(s.hash_to_key, |p: (Seq<char>, Seq<char>)| !hash_among(s.files, keys, p.0), h);
        },
        None => {
            lemma_keep_all(s.files, stays);
            assert(after.files == s.files.filter(stays));
        },
    }
    let u = match lookup(s.transfers, id) {
        Some(t) => s.without_keys(t.file_keys),
        None => s,
    };
    assert((SessionView {
        files: after.files,
        hash_to_key: after.hash_to_key,
        files_needing_provision: after.files_needing_provision,
        pending_files: after.pending_files,
        transfers: after.transfers,
        current_transfer_id: after.current_transfer_id,
        ..s
    }) == (SessionView {
        pending_files: s.pending_files.filter(elsewhere),
        transfers: without(s.transfers, id),
        current_transfer_id: after.current_transfer_id,
        ..u
    }));
}

/// A filter that accepts every item keeps them all.
proof fn lemma_keep_all<A>(s: Seq<A>, f: spec_fn(A) -> bool)
    requires
        forall|i: int| 0 <= i < s.len() ==> f(#[trigger] s[i]),
    ensures
        s.filter(f) == s,
    decreases s.len(),
{
    reveal(Seq::filter);
    if s.len() > 0 {
        let front = s.drop_last();
        assert forall|i: int| 0 <= i < front.len() implies f(#[trigger] front[i]) by {
            assert(front[i] == s[i]);
        }
        lemma_keep_all(front, f);
        assert(s[s.len() - 1] == s.last());
        assert(front.push(s.last()) =~= s);
    }
}

/// A filter leaves under a key what was there, where it accepts it.
proof fn lemma_filter_lookup<T>(m: Seq<(Seq<char>, T)>, f: spec_fn((Seq<char>, T)) -> bool, k: Seq<char>)
    requires
        unique(m),
    ensures
        lookup(m.filter(f), k) == (match lookup(m, k) {
            Some(v) => if f((k, v)) {
                Some(v)
            } else {
                None
            },
            None => None,
        }),
{
    let kept = m.filter(f);
    lemma_filter_unique(m, f);
    if holds(kept, k) {
        let j = at(kept, k);
        assert(m.contains(kept[j]));
        let i = choose|i: int| 0 <= i < m.len() && m[i] == kept[j];
        lemma_at(m, i);
        assert(f(kept[j]));
    }
    if holds(m, k) {
        let i = at(m, k);
        if f(m[i]) {
            assert(kept.contains(m[i]));
            let j = choose|j: int| 0 <= j < kept.len() && kept[j] == m[i];
            lemma_at(kept, j);
        }
    }
}

/// Cancelling everything leaves nothing but the templates.
pub proof fn law_cancel_all_empties(s: SessionView)
    ensures
        s.emptied().files.len() == 0,
        s.emptied().hash_to_key.len() == 0,
        s.emptied().transfers.len() == 0,
        s.emptied().pending_files.len() == 0,
        forall|h: Seq<char>| !(#[trigger] s.emptied().files_needing_provision.contains(h)),
        s.emptied().current_transfer_id is None,
        s.emptied().global_state == GlobalUploaderState::NotStarted,
        s.emptied().title_template == s.title_template,
        s.emptied().subtitle_template == s.subtitle_template,
        Session::empty().files.len() == 0,
        Session::empty().title_template.len() == 0,
        Session::empty().subtitle_template.len() == 0,
        Session::empty().emptied() == Session::empty(),
{
}

/// A new file stands under its key, its hash leads to it, and its transfer lists it last; a
/// transfer that was not there goes last and lists it alone. Every other file, hash and
/// transfer stays as it is, and so does the rest of the session.
pub proof fn law_registering_adds_one(s: SessionView, f: FileView, k: Seq<char>, h: Seq<char>, id: Seq<char>)
    requires
        s.sound(),
    ensures
        ({
            let after = s.with_new_file(f);
            &&& lookup(after.files, k) == (if k == f.file_key { Some(f) } else { lookup(s.files, k) })
            &&& lookup(after.hash_to_key, h) == (if h == f.file_hash {
                Some(f.file_key)
            } else {
                lookup(s.hash_to_key, h)
            })
            &&& lookup(after.transfers, id) == (if id == f.transfer_id {
                Some(
                    match lookup(s.transfers, id) {
                        Some(t) => TransferView { transfer_id: t.transfer_id, file_keys: t.file_keys.push(f.file_key) },
                        None => TransferView { transfer_id: id, file_keys: seq![f.file_key] },
                    },
                )
            } else {
                lookup(s.transfers, id)
            })
            &&& !holds(s.files, f.file_key) ==> after.files == s.files.push((f.file_key, f))
            &&& holds(s.files, f.file_key) ==> after.files.len() == s.files.len()
            &&& !holds(s.transfers, f.transfer_id) ==> after.transfers.len() == s.transfers.len() + 1
                && after.transfers.last().0 == f.transfer_id
            &&& holds(s.transfers, f.transfer_id) ==> after.transfers.len() == s.transfers.len()
            &&& forall|i: int| 0 <= i < s.transfers.len() ==> (#[trigger] after.transfers[i]).0 == s.transfers[i].0
            &&& after == (SessionView {
                files: after.files,
                hash_to_key: after.hash_to_key,
                transfers: after.transfers,
                ..s
            })
        }),
{
    lemma_put(s.files, f.file_key, f, k);
    law_put_order(s.files, f.file_key, f);
    lemma_put(s.hash_to_key, f.file_hash, f.file_key, h);
    let t = match lookup(s.transfers, f.transfer_id) {
        Some(t) => TransferView { file_keys: t.file_keys.push(f.file_key), ..t },
        None => TransferView { transfer_id: f.transfer_id, file_keys: seq![f.file_key] },
    };
    lemma_put(s.transfers, f.transfer_id, t, id);
    law_put_order(s.transfers, f.transfer_id, t);
    let after = s.with_new_file(f);
    assert(after.transfers == put(s.transfers, f.transfer_id, t));
    assert forall|i: int| 0 <= i < s.transfers.len() implies (#[trigger] after.transfers[i]).0 == s.transfers[i].0 by {
        assert(put(s.transfers, f.transfer_id, t)[i].0 == s.transfers[i].0);
    }
}

/// A file begins as initialized, with nothing stored, no part confirmed and no upload id.
pub proof fn law_new_file_has_nothing_stored(
    key: Seq<char>,
    h: Seq<char>,
    id: Seq<char>,
    path: Seq<char>,
    name: Seq<char>,
    total_bytes: u64,
    params: Seq<(Seq<char>, Seq<char>)>,
)
    ensures
        ({
            let f = new_file(key, h, id, path, name, total_bytes, params);
            &&& f.file_key == key && f.file_hash == h && f.transfer_id == id
            &&& f.file_path == path && f.file_name == name && f.total_bytes == total_bytes && f.user_params == params
            &&& f.state == UploadState::Initialized
            &&& f.uploaded_bytes == 0 && f.completed_parts == 0 && f.total_parts == 0
            &&& f.upload_id is None && f.part_size is None
            &&& f.completed_chunk_etags.len() == 0
            &&& f.run_version == 0
        }),
{
}

/// Noting a pending file changes nothing but what is pending under its hash and that its
/// local file is there.
pub proof fn law_pending_adds_one(s: SessionView, p: PendingView, h: Seq<char>)
    requires
        s.sound(),
    ensures
        ({
            let after = s.with_pending(p);
            &&& lookup(after.pending_files, h) == (if h == p.file_hash { Some(p) } else { lookup(s.pending_files, h) })
            &&& after.files_needing_provision.contains(h) == (h != p.file_hash && s.files_needing_provision.contains(h))
            &&& after == (SessionView {
                pending_files: after.pending_files,
                files_needing_provision: after.files_needing_provision,
                ..s
            })
        }),
{
    lemma_put(s.pending_files, p.file_hash, p, h);
}

/// The start call turns a pending file into a file of the session with what the caller and
/// the call have told of it, and takes it from the pending ones; other files, hashes and
/// pending files stay. Without a pending file nothing changes.
pub proof fn law_start_turns_pending_into_file(
    s: SessionView,
    h: Seq<char>,
    key: Seq<char>,
    upload_id: Seq<char>,
    part_size: u64,
    total_parts: u32,
    k: Seq<char>,
    h2: Seq<char>,
)
    requires
        s.sound(),
    ensures
        ({
            let after = s.initialized(h, key, upload_id, part_size, total_parts);
            match lookup(s.pending_files, h) {
                Some(p) => {
                    &&& lookup(after.files, key) matches Some(f) && {
                        &&& f.file_key == key && f.file_hash == h && f.transfer_id == p.transfer_id
                        &&& f.file_path == p.file_path && f.file_name == p.file_name
                        &&& f.total_bytes == p.file_size && f.user_params == p.user_params
                        &&& f.upload_id == Some(upload_id) && f.part_size == Some(part_size)
                        &&& f.total_parts == total_parts
                        &&& f.state == UploadState::Initialized && f.uploaded_bytes == 0 && f.completed_parts == 0
                        &&& f.completed_chunk_etags.len() == 0 && f.run_version == 0
                    }
                    &&& k != key ==> lookup(after.files, k) == lookup(s.files, k)
                    &&& lookup(after.hash_to_key, h2) == (if h2 == h { Some(key) } else { lookup(s.hash_to_key, h2) })
                    &&& lookup(after.pending_files, h2) == (if h2 == h { None } else { lookup(s.pending_files, h2) })
                    &&& lookup(after.transfers, p.transfer_id) matches Some(t) && t.file_keys.last() == key
                    &&& after == (SessionView {
                        files: after.files,
                        hash_to_key: after.hash_to_key,
                        transfers: after.transfers,
                        pending_files: after.pending_files,
                        ..s
                    })
                },
                None => after == s,
            }
        }),
{
    if holds(s.pending_files, h) {
        let p = lookup(s.pending_files, h)->0;
        let taken = SessionView { pending_files: without(s.pending_files, h), ..s };
        let f = FileView {
            upload_id: Some(upload_id),
            part_size: Some(part_size),
            total_parts,
            ..new_file(key, h, p.transfer_id, p.file_path, p.file_name, p.file_size, p.user_params)
        };
        lemma_without(s.pending_files, h, h2);
        law_registering_adds_one(taken, f, key, h2, p.transfer_id);
        law_registering_adds_one(taken, f, k, h2, p.transfer_id);
    }
}

/// A hash leads to a file where it leads to a key and a file stands there.
pub proof fn law_found_by_hash(s: SessionView, h: Seq<char>, f: FileView)
    ensures
        s.by_hash(h) == Some(f) <==> exists|key: Seq<char>|
            lookup(s.hash_to_key, h) == Some(key) && #[trigger] lookup(s.files, key) == Some(f),
{
    if s.by_hash(h) == Some(f) {
        let key = lookup(s.hash_to_key, h)->0;
        assert(lookup(s.files, key) == Some(f));
    }
}

/// The run that counts for a file is the one the file names.
pub proof fn law_run_of_file(s: SessionView, key: Seq<char>)
    ensures
        match lookup(s.files, key) {
            Some(f) => s.run_of(key) == Some(f.run_version),
            None => s.run_of(key) is None,
        },
{
}

/// A file can be resumed where it has an upload id and is neither completed nor cancelled.
/// It is done in full where it is completed; else its stored bytes count, out of all.
pub proof fn law_resumable_and_percentage(f: FileView)
    ensures
        f.resumable() <==> f.upload_id is Some && (f.state == UploadState::NotStarted || f.state
            == UploadState::Initialized || f.state == UploadState::Running || f.state == UploadState::Paused || f.state
            == UploadState::Failed),
        f.state == UploadState::Completed ==> f.percentage() == Percentage::Full,
        f.state != UploadState::Completed && f.total_bytes == 0 ==> f.percentage() == Percentage::Zero,
        f.state != UploadState::Completed && f.total_bytes > 0 ==> f.percentage() == (Percentage::Ratio {
            part: f.uploaded_bytes,
            whole: f.total_bytes,
        }),
{
}

} // verus!
