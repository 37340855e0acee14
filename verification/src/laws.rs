//! What holds of the session across its operations.

use crate::chunk::numbers;
use crate::parts::{all_parts, bytes_in, lemma_bytes_bounded, lemma_parts_cover, parts_needed};
use crate::progress::{lemma_flying_remove, UploadProgressView};
use crate::report::{lemma_sum_filtered, pending_report};
use crate::runtime::plain_notice;
use crate::session::{
    chunk_completed, confirmed, first_waiting, lemma_with_file, lemma_with_files_lookup,
    new_file, other_than, stopped, struck, unfinished_hashes, waiting, FileView, PendingView, SessionView,
};
use crate::state::{GlobalUploaderState, Percentage, UploadState};
use crate::store::{all_restarted, halted, restarted, some_halted};
use crate::string_map::{
    at, holds, lemma_at, lemma_filter_unique, lemma_put, lemma_without, lemma_without_filter, lookup, unique, without,
};
use crate::transfers::TransferView;
use crate::upload::{done_numbers, lemma_missing_numbers, missing_numbers};
use crate::upload_orchestrator::with_stored;
use vstd::prelude::*;

verus! {

/// A file that was registered is found by its hash. The other files are found as before,
/// unless their key was taken over.
pub proof fn law_registered_is_found(s: SessionView, f: FileView, h: Seq<char>)
    requires
        s.sound(),
    ensures
        s.with_new_file(f).by_hash(f.file_hash) == Some(f),
        h != f.file_hash && lookup(s.hash_to_key, h) != Some(f.file_key) ==> s.with_new_file(f).by_hash(h)
            == s.by_hash(h),
{
    lemma_put(s.hash_to_key, f.file_hash, f.file_key, f.file_hash);
    lemma_put(s.hash_to_key, f.file_hash, f.file_key, h);
    lemma_put(s.files, f.file_key, f, f.file_key);
    if lookup(s.hash_to_key, h) is Some {
        lemma_put(s.files, f.file_key, f, lookup(s.hash_to_key, h)->0);
    }
}

/// A file that was just noted as pending is announced as not started, with nothing stored;
/// the files of the session stay as they are.
pub proof fn law_pending_is_announced(s: SessionView, p: PendingView)
    requires
        s.sound(),
    ensures
        lookup(s.with_pending(p).pending_files, p.file_hash) == Some(p),
        s.with_pending(p).files == s.files,
        pending_report(p).state == UploadState::NotStarted,
        pending_report(p).file_hash == p.file_hash,
        pending_report(p).uploaded_bytes == 0,
        plain_notice(s.with_pending(p), pending_report(p), p.transfer_id).file == pending_report(p),
{
    lemma_put(s.pending_files, p.file_hash, p, p.file_hash);
}

/// The two phases of taking a file in: once it is pending and then initialized, it is
/// found by its hash, can be resumed, and is pending no more.
pub proof fn law_two_phases(
    s: SessionView,
    p: PendingView,
    key: Seq<char>,
    upload_id: Seq<char>,
    part_size: u64,
    total_parts: u32,
)
    requires
        s.sound(),
    ensures
        ({
            let after = s.with_pending(p).initialized(
                p.file_hash,
                key,
                upload_id,
                part_size,
                total_parts,
            );
            &&& after.by_hash(p.file_hash) matches Some(f)
            &&& f.file_key == key
            &&& f.transfer_id == p.transfer_id
            &&& f.total_bytes == p.file_size
            &&& f.upload_id == Some(upload_id)
            &&& f.resumable()
            &&& !holds(after.pending_files, p.file_hash)
            &&& !after.files_needing_provision.contains(p.file_hash)
        }),
{
    let waits = s.with_pending(p);
    lemma_put(s.pending_files, p.file_hash, p, p.file_hash);
    lemma_without(waits.pending_files, p.file_hash, p.file_hash);
    let f = FileView {
        upload_id: Some(upload_id),
        part_size: Some(part_size),
        total_parts,
        ..new_file(
            key,
            p.file_hash,
            p.transfer_id,
            p.file_path,
            p.file_name,
            p.file_size,
            p.user_params,
        )
    };
    let taken = SessionView { pending_files: without(waits.pending_files, p.file_hash), ..waits };
    law_registered_is_found(taken, f, p.file_hash);
}

/// Bringing the global state up to date once more changes nothing.
pub proof fn law_recomputed_once(s: SessionView)
    ensures
        s.recomputed().recomputed() == s.recomputed(),
        s.recomputed().global_state == s.recomputed().derived_state(),
{
    assert(s.recomputed().derived_state() == s.derived_state()) by {
        lemma_derived_same(s, s.recomputed());
    }
}

/// The derived state depends on the files, the pending files and the missing ones only.
proof fn lemma_derived_same(s: SessionView, t: SessionView)
    requires
        s.files == t.files,
        s.pending_files == t.pending_files,
        s.files_needing_provision == t.files_needing_provision,
    ensures
        s.derived_state() == t.derived_state(),
{
    assert forall|f: FileView| s.effective(f) == t.effective(f) by {}
    assert(s.all_completed() == t.all_completed());
    assert(s.some_file(UploadState::Running) == t.some_file(UploadState::Running));
    assert(s.some_file(UploadState::Failed) == t.some_file(UploadState::Failed));
    assert(s.some_file(UploadState::Paused) == t.some_file(UploadState::Paused));
    assert(s.all_at_rest() == t.all_at_rest());
}

/// The uploader counts as completed exactly when there are files, none is pending and every
/// one of them is completed and has its local file.
pub proof fn law_completed_iff(s: SessionView)
    ensures
        s.derived_state() == GlobalUploaderState::Completed <==> s.files.len() > 0
            && s.pending_files.len() == 0 && s.all_completed(),
{
}

/// The uploader counts as running only where a file runs that has its local file.
pub proof fn law_running_has_file(s: SessionView)
    requires
        s.derived_state() == GlobalUploaderState::Running,
    ensures
        exists|i: int|
            0 <= i < s.files.len() && (#[trigger] s.files[i]).1.state == UploadState::Running
                && !s.files_needing_provision.contains(s.files[i].1.file_hash),
{
    let i = choose|i: int| 0 <= i < s.files.len() && s.effective((#[trigger] s.files[i]).1) == UploadState::Running;
    assert(s.files[i].1.state == UploadState::Running);
}

/// A cancelled file is gone: it is found neither by its key nor in any transfer. The other
/// files stay as they are.
pub proof fn law_cancelled_is_gone(s: SessionView, key: Seq<char>, other: Seq<char>)
    requires
        s.sound(),
    ensures
        s.without_file(key).sound(),
        !holds(s.without_file(key).files, key),
        forall|i: int|
            0 <= i < s.transfers.len() ==> !(#[trigger] s.without_file(key).transfers[i]).1.file_keys.contains(key),
        other != key ==> lookup(s.without_file(key).files, other) == lookup(s.files, other),
{
    broadcast use vstd::seq_lib::group_filter_ensures;

    lemma_without(s.files, key, key);
    lemma_without(s.files, key, other);
    lemma_struck(s.transfers, key);
    if holds(s.files, key) {
        let h = (lookup(s.files, key)->0).file_hash;
        lemma_without(s.hash_to_key, h, h);
    }
}

/// Striking a key from the transfers leaves them in place and without that key.
proof fn lemma_struck(m: Seq<(Seq<char>, TransferView)>, key: Seq<char>)
    requires
        unique(m),
    ensures
        struck(m, key).len() == m.len(),
        unique(struck(m, key)),
        forall|i: int| 0 <= i < m.len() ==> !(#[trigger] struck(m, key)[i]).1.file_keys.contains(key),
{
    let other = other_than(key);
    let after = struck(m, key);
    assert forall|i: int| 0 <= i < m.len() implies !(#[trigger] after[i]).1.file_keys.contains(key) && after[i].0 == m[i].0 by {
        let keys = m[i].1.file_keys;
        assert(after[i].1.file_keys == keys.filter(other));
        lemma_filter_accepts(keys, other);
        if keys.filter(other).contains(key) {
            let j = choose|j: int| 0 <= j < keys.filter(other).len() && keys.filter(other)[j] == key;
            assert(other(keys.filter(other)[j]));
        }
    }
    assert forall|i: int, j: int| 0 <= i < j < after.len() implies (#[trigger] after[i]).0 != (#[trigger] after[j]).0 by {
        assert(after[i].0 == m[i].0);
        assert(after[j].0 == m[j].0);
    }
}

/// What a filter keeps, it accepts; and what it accepts, it keeps.
proof fn lemma_filter_accepts<A>(s: Seq<A>, f: spec_fn(A) -> bool)
    ensures
        forall|i: int| 0 <= i < s.filter(f).len() ==> f(#[trigger] s.filter(f)[i]) && s.contains(s.filter(f)[i]),
        s.filter(f).filter(f) == s.filter(f),
    decreases s.len(),
{
    reveal(Seq::filter);
    if s.len() > 0 {
        let front = s.drop_last();
        lemma_filter_accepts(front, f);
        let kept = front.filter(f);
        let all = s.filter(f);
        assert forall|i: int| 0 <= i < all.len() implies f(#[trigger] all[i]) && s.contains(all[i]) by {
            if i < kept.len() {
                assert(all[i] == kept[i]);
                assert(front.contains(kept[i]));
                let j = choose|j: int| 0 <= j < front.len() && front[j] == kept[i];
                assert(s[j] == kept[i]);
            } else {
                assert(s[s.len() - 1] == all[i]);
            }
        }
        if f(s.last()) {
            kept.lemma_filter_push(s.last(), f);
        }
    }
}

/// Cancelling a file twice is cancelling it once.
pub proof fn law_cancel_idempotent(s: SessionView, key: Seq<char>)
    requires
        s.sound(),
    ensures
        s.without_file(key).without_file(key) == s.without_file(key),
{
    let t = s.without_file(key);
    law_cancelled_is_gone(s, key, key);
    assert(struck(t.transfers, key) =~= t.transfers) by {
        let other = other_than(key);
        assert forall|i: int| 0 <= i < s.transfers.len() implies (#[trigger] struck(t.transfers, key)[i]) == t.transfers[i] by {
            let keys = s.transfers[i].1.file_keys;
            assert(t.transfers[i].1.file_keys == keys.filter(other));
            lemma_filter_accepts(keys, other);
        }
    }
    assert(t.without_file(key) == (SessionView { transfers: t.transfers, ..t }).recomputed());
    law_recomputed_once(SessionView { global_state: s.global_state, ..t });
    lemma_derived_same(t, SessionView { global_state: s.global_state, ..t });
}

/// After a file is cancelled by its hash, nothing is known under that hash any more.
pub proof fn law_cancelled_hash_is_unknown(s: SessionView, h: Seq<char>)
    requires
        s.sound(),
    ensures
        s.without_hash(h).sound(),
        s.without_hash(h).by_hash(h) is None,
        !holds(s.without_hash(h).pending_files, h),
        !s.without_hash(h).files_needing_provision.contains(h),
{
    lemma_without(s.pending_files, h, h);
    lemma_without(s.hash_to_key, h, h);
    if holds(s.hash_to_key, h) {
        let key = lookup(s.hash_to_key, h)->0;
        lemma_without(s.files, key, key);
        lemma_struck(s.transfers, key);
    }
}

/// After a transfer is cancelled, none of the files it listed is left, none of its files is
/// pending, and it is no longer listed itself.
pub proof fn law_cancelled_transfer_is_gone(s: SessionView, id: Seq<char>)
    requires
        s.sound(),
    ensures
        ({
            let after = s.without_transfer(id);
            &&& after.sound()
            &&& !holds(after.transfers, id)
            &&& after.current_transfer_id != Some(id)
            &&& forall|i: int|
                0 <= i < after.pending_files.len() ==> (#[trigger] after.pending_files[i]).1.transfer_id != id
            &&& lookup(s.transfers, id) matches Some(t) ==> forall|i: int|
                0 <= i < after.files.len() ==> !t.file_keys.contains((#[trigger] after.files[i]).0)
        }),
{
    let after = s.without_transfer(id);
    let other = |p: (Seq<char>, PendingView)| p.1.transfer_id != id;
    lemma_without(s.transfers, id, id);
    lemma_filter_unique(s.pending_files, other);
    assert forall|i: int| 0 <= i < after.pending_files.len() implies (#[trigger] after.pending_files[i]).1.transfer_id != id by {
        assert(other(s.pending_files.filter(other)[i]));
    }
    if lookup(s.transfers, id) is Some {
        let keys = (lookup(s.transfers, id)->0).file_keys;
        let keep = |p: (Seq<char>, FileView)| !keys.contains(p.0);
        lemma_filter_unique(s.files, keep);
        lemma_filter_unique(
            s.hash_to_key,
            |p: (Seq<char>, Seq<char>)| !crate::session::hash_among(s.files, keys, p.0),
        );
        assert forall|i: int| 0 <= i < after.files.len() implies !keys.contains((#[trigger] after.files[i]).0) && after.files[i].1.file_key == after.files[i].0 by {
            assert(keep(s.files.filter(keep)[i]));
            assert(s.files.contains(s.files.filter(keep)[i]));
            let j = choose|j: int| 0 <= j < s.files.len() && s.files[j] == s.files.filter(keep)[i];
            assert(s.files[j].1.file_key == s.files[j].0);
        }
    }
}

/// After a pause no file runs, and the uploader does not count as running. Pausing again
/// changes nothing.
pub proof fn law_paused_runs_nothing(s: SessionView)
    requires
        s.sound(),
    ensures
        s.paused().sound(),
        forall|i: int|
            0 <= i < s.files.len() ==> (#[trigger] s.paused().files[i]).1.state != UploadState::Running,
        s.paused().global_state != GlobalUploaderState::Running,
        s.paused().paused() == s.paused(),
{
    let p = s.paused();
    let h = |f: FileView| stopped(f);
    assert forall|i: int| 0 <= i < s.files.len() implies (#[trigger] p.files[i]) == (s.files[i].0, stopped(s.files[i].1)) by {}
    lemma_with_files_sound(s, h);
    if p.global_state == GlobalUploaderState::Running {
        lemma_derived_same(p, s.with_files(h));
        law_running_has_file(p);
        let i = choose|i: int| 0 <= i < p.files.len() && (#[trigger] p.files[i]).1.state == UploadState::Running;
        assert(p.files[i].1.state != UploadState::Running);
    }
    assert(p.with_files(h).files =~= p.files) by {
        assert forall|i: int| 0 <= i < p.files.len() implies (#[trigger] p.with_files(h).files[i]) == p.files[i] by {
            assert(p.files[i].1.state != UploadState::Running);
        }
    }
    assert(p.with_files(h) == p);
    law_recomputed_once(s.with_files(h));
}

/// Replacing every file by `h` of it, without touching its key, keeps a session sound.
proof fn lemma_with_files_sound(s: SessionView, h: spec_fn(FileView) -> FileView)
    requires
        s.sound(),
        forall|f: FileView| (#[trigger] h(f)).file_key == f.file_key,
    ensures
        s.with_files(h).recomputed().sound(),
{
    let after = s.with_files(h).files;
    assert forall|i: int| 0 <= i < after.len() implies (#[trigger] after[i]) == (s.files[i].0, h(s.files[i].1)) by {}
    assert forall|i: int| 0 <= i < after.len() implies (#[trigger] after[i]).1.file_key == after[i].0 by {
        assert(s.files[i].1.file_key == s.files[i].0);
    }
    assert forall|i: int, j: int| 0 <= i < j < after.len() implies (#[trigger] after[i]).0 != (#[trigger] after[j]).0 by {
        assert(after[i].0 == s.files[i].0);
        assert(after[j].0 == s.files[j].0);
    }
}

/// A resume restarts a file that was paused or had failed: it waits for upload, what is
/// stored of it stays, and the run that was current before is superseded.
pub proof fn law_resumed_supersedes(s: SessionView, key: Seq<char>)
    requires
        s.sound(),
        lookup(s.files, key) matches Some(f) && halted(f) && f.run_version < u64::MAX,
    ensures
        all_restarted(s).sound(),
        all_restarted(s).run_of(key) != s.run_of(key),
        lookup(all_restarted(s).files, key) matches Some(g) && {
            let f = lookup(s.files, key)->0;
            &&& g.state == UploadState::NotStarted
            &&& g.completed_chunk_etags == f.completed_chunk_etags
            &&& g.uploaded_bytes == f.uploaded_bytes
            &&& g.upload_id == f.upload_id
            &&& g.run_version == f.run_version + 1
        },
{
    let h = |f: FileView| restarted(f);
    assert(s.files[at(s.files, key)].0 == key);
    assert(some_halted(s));
    lemma_with_files_lookup(s, h, key);
    lemma_with_files_sound(s, h);
}

/// A resume leaves every file alone that is neither paused nor failed.
pub proof fn law_resumed_leaves_others(s: SessionView, key: Seq<char>)
    requires
        s.sound(),
        lookup(s.files, key) matches Some(f) ==> !halted(f),
    ensures
        lookup(all_restarted(s).files, key) == lookup(s.files, key),
{
    lemma_with_files_lookup(s, |f: FileView| restarted(f), key);
}

/// In a session that has just been loaded nothing runs: every file that is not completed
/// waits for its local file, and the uploader does not count as running.
pub proof fn law_loaded_runs_nothing(s: SessionView, i: int)
    requires
        s.sound(),
    ensures
        0 <= i < s.files.len() ==> s.loaded().files[i].1.state != UploadState::Running,
        0 <= i < s.files.len() && s.loaded().files[i].1.state != UploadState::Completed
            ==> s.loaded().files_needing_provision.contains(s.loaded().files[i].1.file_hash),
        s.loaded().global_state != GlobalUploaderState::Running,
{
    let l = s.loaded();
    assert forall|j: int| 0 <= j < s.files.len() implies (#[trigger] l.files[j]) == (s.files[j].0, stopped(s.files[j].1)) by {}
    if 0 <= i < s.files.len() && l.files[i].1.state != UploadState::Completed {
        assert(s.files[i].1.file_hash == l.files[i].1.file_hash && s.files[i].1.state != UploadState::Completed);
    }
    let before = SessionView {
        files_needing_provision: unfinished_hashes(s.files),
        ..s.with_files(|f: FileView| stopped(f))
    };
    if before.derived_state() == GlobalUploaderState::Running {
        law_running_has_file(before);
        let j = choose|j: int| 0 <= j < before.files.len() && (#[trigger] before.files[j]).1.state == UploadState::Running;
        assert(l.files[j].1.state != UploadState::Running);
    }
}

/// A part counts once: confirming it again changes nothing, and what was confirmed stays
/// confirmed.
pub proof fn law_chunk_counts_once(f: FileView, p: u32, etag: Seq<char>, size: u64, q: u32, etag2: Seq<char>, size2: u64)
    ensures
        confirmed(chunk_completed(f, p, etag, size).completed_chunk_etags, p),
        chunk_completed(chunk_completed(f, p, etag, size), p, etag2, size2) == chunk_completed(f, p, etag, size),
        confirmed(f.completed_chunk_etags, q) ==> confirmed(
            chunk_completed(f, p, etag, size).completed_chunk_etags,
            q,
        ),
{
    let g = chunk_completed(f, p, etag, size);
    if !confirmed(f.completed_chunk_etags, p) {
        assert(g.completed_chunk_etags[f.completed_chunk_etags.len() as int].0 == p);
    }
    if confirmed(f.completed_chunk_etags, q) {
        let i = choose|i: int| 0 <= i < f.completed_chunk_etags.len() && (#[trigger] f.completed_chunk_etags[i]).0 == q;
        assert(g.completed_chunk_etags[i].0 == q);
    }
}

/// Confirming a part never takes stored bytes away, and never counts more than the file
/// has where it did not before.
pub proof fn law_chunk_bytes_grow(f: FileView, p: u32, etag: Seq<char>, size: u64)
    requires
        f.uploaded_bytes <= f.total_bytes,
    ensures
        f.uploaded_bytes <= chunk_completed(f, p, etag, size).uploaded_bytes <= f.total_bytes,
{
}

/// Confirming a part keeps the sizes of a session sound, so that every report can still
/// be made.
pub proof fn law_chunk_keeps_sizes(s: SessionView, key: Seq<char>, p: u32, etag: Seq<char>, size: u64)
    requires
        s.sound(),
        s.sound_sizes(),
    ensures
        s.with_file(key, |f: FileView| chunk_completed(f, p, etag, size)).sound_sizes(),
{
    let h = |f: FileView| chunk_completed(f, p, etag, size);
    lemma_with_file(s, key, h);
    let g = |f: FileView| if f.file_key == key { h(f) } else { f };
    let after = s.with_files(g);
    assert forall|i: int| 0 <= i < after.files.len() implies (#[trigger] after.files[i]).1.uploaded_bytes <= after.files[i].1.total_bytes by {
        let f = s.files[i].1;
        assert(s.files[i].1.uploaded_bytes <= s.files[i].1.total_bytes);
        assert(after.files[i] == (s.files[i].0, g(f)));
        law_chunk_bytes_grow(f, p, etag, size);
    }
    lemma_size_kept(s, g);
}

/// A pause, a resume or a change of state keeps the sizes of a session sound.
pub proof fn law_states_keep_sizes(s: SessionView, key: Seq<char>, state: UploadState)
    requires
        s.sound(),
        s.sound_sizes(),
    ensures
        s.paused().sound_sizes(),
        all_restarted(s).sound_sizes(),
        s.marked(key, state).sound_sizes(),
{
    let mark = |f: FileView| FileView { state, ..f };
    let one = |f: FileView| if f.file_key == key { mark(f) } else { f };
    lemma_with_file(s, key, mark);
    lemma_sizes_kept(s, |f: FileView| stopped(f));
    lemma_sizes_kept(s, |f: FileView| restarted(f));
    lemma_sizes_kept(s, one);
}

/// Noting the bytes stored of a file keeps the sizes of a session sound.
pub proof fn law_stored_keeps_sizes(s: SessionView, key: Seq<char>, bytes: u64)
    requires
        s.sound(),
        s.sound_sizes(),
    ensures
        with_stored(s, key, bytes).sound_sizes(),
{
    let h = |f: FileView|
        FileView {
            uploaded_bytes: if bytes <= f.total_bytes {
                bytes
            } else {
                f.total_bytes
            },
            ..f
        };
    let g = |f: FileView| if f.file_key == key { h(f) } else { f };
    lemma_with_file(s, key, h);
    let after = s.with_files(g);
    assert forall|i: int| 0 <= i < after.files.len() implies (#[trigger] after.files[i]).1.uploaded_bytes <= after.files[i].1.total_bytes by {
        assert(s.files[i].1.uploaded_bytes <= s.files[i].1.total_bytes);
        assert(after.files[i] == (s.files[i].0, g(s.files[i].1)));
    }
    lemma_size_kept(s, g);
}

/// Cancelling a file, by its key or by its hash, a transfer or everything keeps the sizes of
/// a session sound.
pub proof fn law_cancel_keeps_sizes(s: SessionView, key: Seq<char>, h: Seq<char>, id: Seq<char>)
    requires
        s.sound(),
        s.sound_sizes(),
    ensures
        s.without_file(key).sound_sizes(),
        s.without_hash(h).sound_sizes(),
        s.without_transfer(id).sound_sizes(),
        s.emptied().sound_sizes(),
{
    let every_file = |p: (Seq<char>, FileView)| true;
    let every_pending = |p: (Seq<char>, PendingView)| true;
    let no_hash = |p: (Seq<char>, PendingView)| p.0 != h;
    lemma_filter_true(s.files, every_file);
    lemma_filter_true(s.pending_files, every_pending);
    lemma_without_filter(s.files, key);
    lemma_without_filter(s.pending_files, h);
    lemma_fewer_sizes(s, s.without_file(key), |p: (Seq<char>, FileView)| p.0 != key, every_pending);
    match lookup(s.hash_to_key, h) {
        Some(k) => {
            lemma_without_filter(s.files, k);
            lemma_fewer_sizes(s, s.without_hash(h), |p: (Seq<char>, FileView)| p.0 != k, no_hash);
        },
        None => {
            lemma_fewer_sizes(s, s.without_hash(h), every_file, no_hash);
        },
    }
    let elsewhere = |p: (Seq<char>, PendingView)| p.1.transfer_id != id;
    match lookup(s.transfers, id) {
        Some(t) => {
            lemma_fewer_sizes(
                s,
                s.without_transfer(id),
                |p: (Seq<char>, FileView)| !t.file_keys.contains(p.0),
                elsewhere,
            );
        },
        None => {
            lemma_fewer_sizes(s, s.without_transfer(id), every_file, elsewhere);
        },
    }
}

/// A filter that accepts everything keeps everything.
proof fn lemma_filter_true<A>(s: Seq<A>, f: spec_fn(A) -> bool)
    requires
        forall|x: A| #[trigger] f(x),
    ensures
        s.filter(f) == s,
    decreases s.len(),
{
    reveal(Seq::filter);
    if s.len() > 0 {
        lemma_filter_true(s.drop_last(), f);
        assert(f(s.last()));
        assert(s.drop_last().push(s.last()) =~= s);
    }
}

/// With fewer files and fewer pending files, sizes that were sound stay so.
proof fn lemma_fewer_sizes(
    s: SessionView,
    t: SessionView,
    keep: spec_fn((Seq<char>, FileView)) -> bool,
    keep_pending: spec_fn((Seq<char>, PendingView)) -> bool,
)
    requires
        s.sound_sizes(),
        t.files == s.files.filter(keep),
        t.pending_files == s.pending_files.filter(keep_pending),
    ensures
        t.sound_sizes(),
{
    broadcast use vstd::seq_lib::group_filter_ensures;

    lemma_filter_accepts(s.files, keep);
    assert forall|i: int| 0 <= i < t.files.len() implies (#[trigger] t.files[i]).1.uploaded_bytes <= t.files[i].1.total_bytes by {
        assert(s.files.contains(s.files.filter(keep)[i]));
        let j = choose|j: int| 0 <= j < s.files.len() && s.files[j] == t.files[i];
        assert(s.files[j].1.uploaded_bytes <= s.files[j].1.total_bytes);
    }
    lemma_sum_filtered(
        s.files,
        keep,
        SessionView::file_meant(None),
        |p: (Seq<char>, FileView)| p.1.total_bytes as nat,
    );
    lemma_sum_filtered(
        s.pending_files,
        keep_pending,
        SessionView::pending_meant(None),
        |p: (Seq<char>, PendingView)| p.1.file_size as nat,
    );
    assert(t.files.len() <= s.files.len());
    assert(t.pending_files.len() <= s.pending_files.len());
}

/// Replacing every file by one of the same size keeps the size of the session.
proof fn lemma_size_kept(s: SessionView, h: spec_fn(FileView) -> FileView)
    requires
        forall|f: FileView| (#[trigger] h(f)).total_bytes == f.total_bytes && h(f).transfer_id == f.transfer_id,
    ensures
        s.with_files(h).size_of(None) == s.size_of(None),
{
    crate::report::lemma_size_kept(s, h, None);
}

/// Replacing every file by one with the same sizes keeps the sizes sound.
proof fn lemma_sizes_kept(s: SessionView, h: spec_fn(FileView) -> FileView)
    requires
        s.sound_sizes(),
        forall|f: FileView|
            (#[trigger] h(f)).total_bytes == f.total_bytes && h(f).transfer_id == f.transfer_id
                && h(f).uploaded_bytes == f.uploaded_bytes,
    ensures
        s.with_files(h).recomputed().sound_sizes(),
{
    let after = s.with_files(h).recomputed();
    lemma_size_kept(s, h);
    assert forall|i: int| 0 <= i < after.files.len() implies (#[trigger] after.files[i]).1.uploaded_bytes <= after.files[i].1.total_bytes by {
        assert(s.files[i].1.uploaded_bytes <= s.files[i].1.total_bytes);
        assert(after.files[i] == (s.files[i].0, h(s.files[i].1)));
    }
}

/// What a prepared upload has behind it and before it: the parts of the file are split into
/// those that are done and those that remain, none of them twice; and the bytes of those
/// that are done are never more than the file has.
pub proof fn law_prepared_splits(done: Set<u32>, part_size: u64, total_bytes: u64, p: u32)
    requires
        part_size > 0,
        parts_needed(total_bytes as nat, part_size as nat) <= u32::MAX,
    ensures
        ({
            let n = parts_needed(total_bytes as nat, part_size as nat);
            &&& 1 <= p <= n ==> (missing_numbers(n, done).contains(p) != done.contains(p))
            &&& missing_numbers(n, done).contains(p) ==> 1 <= p <= n
            &&& missing_numbers(n, done).no_duplicates()
            &&& bytes_in(done, part_size as int, total_bytes as int) <= total_bytes
        }),
{
    let n = parts_needed(total_bytes as nat, part_size as nat);
    lemma_missing_numbers(n, done);
    lemma_bytes_bounded(done, part_size as int, total_bytes as int, u32::MAX as nat);
}

/// Where nothing remains and every done part is one of the file, all bytes are committed.
pub proof fn law_nothing_left_is_all_stored(done: Set<u32>, part_size: u64, total_bytes: u64)
    requires
        part_size > 0,
        parts_needed(total_bytes as nat, part_size as nat) <= u32::MAX,
        done.subset_of(all_parts(parts_needed(total_bytes as nat, part_size as nat))),
        missing_numbers(parts_needed(total_bytes as nat, part_size as nat), done).len() == 0,
    ensures
        bytes_in(done, part_size as int, total_bytes as int) == total_bytes,
{
    let n = parts_needed(total_bytes as nat, part_size as nat);
    lemma_missing_numbers(n, done);
    assert(done =~= all_parts(n)) by {
        assert forall|p: u32| all_parts(n).contains(p) implies done.contains(p) by {
            assert(!missing_numbers(n, done).contains(p));
        }
    }
    lemma_parts_cover(part_size, total_bytes);
}

/// The file that is picked next waits for upload, and belongs to the transfer that is then
/// the current one. None is picked only where no listed file waits.
pub proof fn law_next_waits(s: SessionView, i: int, j: int)
    requires
        s.sound(),
    ensures
        match s.next_pending().0 {
            Some(key) => {
                &&& lookup(s.files, key) matches Some(f) && waiting(f.state)
                &&& s.next_pending().1.current_transfer_id matches Some(id)
                &&& lookup(s.transfers, id) matches Some(t)
                &&& t.file_keys.contains(key)
            },
            None => 0 <= i < s.transfers.len() && 0 <= j < s.transfers[i].1.file_keys.len() ==> !(lookup(
                s.files,
                s.transfers[i].1.file_keys[j],
            ) matches Some(f) && waiting(f.state)),
        },
{
    lemma_waiting_transfer(s, 0);
    if s.current_transfer_id is Some && s.waiting_in(s.current_transfer_id->0) is Some {
        let t = lookup(s.transfers, s.current_transfer_id->0)->0;
        lemma_first_waiting(s.files, t.file_keys);
    } else if s.waiting_transfer(0) < s.transfers.len() {
        let k = s.waiting_transfer(0);
        lemma_at(s.transfers, k);
        lemma_first_waiting(s.files, s.transfers[k].1.file_keys);
    } else if 0 <= i < s.transfers.len() {
        lemma_at(s.transfers, i);
        assert(s.waiting_in(s.transfers[i].0) is None);
        lemma_first_waiting(s.files, s.transfers[i].1.file_keys);
    }
}

/// The first key that waits is among the keys; where there is none, no key waits.
proof fn lemma_first_waiting(files: Seq<(Seq<char>, FileView)>, keys: Seq<Seq<char>>)
    ensures
        match first_waiting(files, keys) {
            Some(k) => keys.contains(k) && (lookup(files, k) matches Some(f) && waiting(f.state)),
            None => forall|j: int|
                0 <= j < keys.len() ==> !(lookup(files, #[trigger] keys[j]) matches Some(f) && waiting(f.state)),
        },
    decreases keys.len(),
{
    if keys.len() > 0 {
        let rest = keys.skip(1);
        lemma_first_waiting(files, rest);
        assert(keys.contains(keys[0]));
        match first_waiting(files, rest) {
            Some(k) => {
                let j = choose|j: int| 0 <= j < rest.len() && rest[j] == k;
                assert(keys[j + 1] == k);
            },
            None => {
                assert forall|j: int| 1 <= j < keys.len() implies !(lookup(files, #[trigger] keys[j]) matches Some(f) && waiting(f.state)) by {
                    assert(rest[j - 1] == keys[j]);
                }
            },
        }
    }
}

/// The transfer that is picked has a file that waits; those passed over have none.
proof fn lemma_waiting_transfer(s: SessionView, from: int)
    requires
        0 <= from <= s.transfers.len(),
    ensures
        from <= s.waiting_transfer(from) <= s.transfers.len(),
        s.waiting_transfer(from) < s.transfers.len() ==> s.waiting_in(s.transfers[s.waiting_transfer(from)].0) is Some,
        forall|i: int|
            from <= i < s.waiting_transfer(from) ==> s.waiting_in((#[trigger] s.transfers[i]).0) is None,
    decreases s.transfers.len() - from,
{
    if from < s.transfers.len() && s.waiting_in(s.transfers[from].0) is None {
        lemma_waiting_transfer(s, from + 1);
    }
}

/// A completed transfer, or session, is reported with all its bytes stored.
pub proof fn law_completed_report(s: SessionView, t: Option<Seq<char>>)
    requires
        s.state_of(t) == GlobalUploaderState::Completed,
    ensures
        s.aggregate(t).uploaded_size == s.aggregate(t).total_size,
        s.aggregate(t).percentage == Percentage::Full,
        s.aggregate(t).state == GlobalUploaderState::Completed,
{
}

/// Showing a part as completed counts its size in place of what was in flight of it: where
/// all of it was in flight, the bytes sent stay the same.
pub proof fn law_completed_part_keeps_bytes(e: UploadProgressView, p: u32, size: u64)
    requires
        e.in_flight.contains_key(p),
        e.completed_bytes + size <= u64::MAX,
    ensures
        e.with_part(p, size).sent() + e.in_flight[p] == e.sent() + size,
        e.in_flight[p] == size ==> e.with_part(p, size).sent() == e.sent(),
{
    lemma_flying_remove(e.in_flight, p);
}

/// Of a file, no part is confirmed twice: confirming one more keeps it so.
pub proof fn law_confirmed_once(f: FileView, p: u32, etag: Seq<char>, size: u64)
    requires
        numbers(f.completed_chunk_etags).no_duplicates(),
    ensures
        numbers(chunk_completed(f, p, etag, size).completed_chunk_etags).no_duplicates(),
{
    let before = f.completed_chunk_etags;
    let after = chunk_completed(f, p, etag, size).completed_chunk_etags;
    if !confirmed(before, p) {
        assert forall|i: int, j: int| 0 <= i < j < after.len() implies numbers(after)[i] != numbers(after)[j] by {
            assert(numbers(before)[i] == before[i].0);
            if j < before.len() {
                assert(numbers(before)[j] == before[j].0);
            }
        }
    }
}

/// An upload is completed with every part of the file, and with none twice: the parts that
/// were confirmed before, and the results with which a run over the parts that were left
/// ends.
pub proof fn law_completed_with_every_part(
    done: Seq<(u32, Seq<char>)>,
    new: Seq<(u32, Seq<char>)>,
    n: nat,
)
    requires
        n <= u32::MAX,
        numbers(done).no_duplicates(),
        done_numbers(done).subset_of(all_parts(n)),
        numbers(new).to_multiset() == missing_numbers(n, done_numbers(done)).to_multiset(),
    ensures
        numbers(done + new).no_duplicates(),
        done_numbers(done + new) == all_parts(n),
{
    let left = missing_numbers(n, done_numbers(done));
    let fresh = numbers(new);
    lemma_missing_numbers(n, done_numbers(done));
    assert(left.no_duplicates());
    left.lemma_multiset_has_no_duplicates();
    fresh.lemma_multiset_has_no_duplicates_conv();
    let all = done + new;
    assert forall|p: u32| left.contains(p) == fresh.contains(p) by {
        vstd::seq_lib::to_multiset_contains(left, p);
        vstd::seq_lib::to_multiset_contains(fresh, p);
    }
    assert forall|i: int| 0 <= i < new.len() implies left.contains(#[trigger] fresh[i]) by {
        assert(fresh.contains(fresh[i]));
    }
    assert forall|i: int| 0 <= i < done.len() implies done_numbers(done).contains(#[trigger] numbers(done)[i]) by {
        assert(done[i].0 == numbers(done)[i]);
    }
    assert(numbers(all) =~= numbers(done) + fresh);
    assert forall|i: int, j: int| 0 <= i < j < all.len() implies numbers(all)[i] != numbers(all)[j] by {
        if j >= done.len() && i < done.len() {
            assert(left.contains(fresh[j - done.len()]));
            assert(done_numbers(done).contains(numbers(done)[i]));
        }
    }
    assert forall|p: u32| done_numbers(all).contains(p) == all_parts(n).contains(p) by {
        if confirmed(all, p) {
            let i = choose|i: int| 0 <= i < all.len() && (#[trigger] all[i]).0 == p;
            if i < done.len() {
                assert(numbers(done)[i] == p);
            } else {
                assert(fresh[i - done.len()] == p);
            }
        }
        if all_parts(n).contains(p) {
            if confirmed(done, p) {
                let i = choose|i: int| 0 <= i < done.len() && (#[trigger] done[i]).0 == p;
                assert(all[i].0 == p);
            } else {
                assert(left.contains(p));
                assert(fresh.contains(p));
                let i = choose|i: int| 0 <= i < fresh.len() && fresh[i] == p;
                assert(all[done.len() + i].0 == p);
            }
        }
    }
    assert(done_numbers(all) =~= all_parts(n));
}

} // verus!
