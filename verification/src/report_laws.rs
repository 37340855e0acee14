//! What the reports tell of the session: how each file, pending file and transfer counts.

use crate::arith::low32;
use crate::report::{file_report, pending_report, sum_where, FileProgressView};
use crate::session::{FileView, PendingView, SessionView};
use crate::state::{percentage_of, GlobalUploaderState, Percentage, UploadState};
use crate::string_map::lookup;
use crate::transfers::TransferView;
use vstd::prelude::*;

verus! {

/// Small numbers are kept as they are; 2 to the 32nd counts as nothing.
pub proof fn law_low_bits(n: nat)
    ensures
        n <= u32::MAX ==> low32(n) == n,
        low32(n + 0x1_0000_0000) == low32(n),
{
    assert((n + 0x1_0000_0000) % 0x1_0000_0000 == n % 0x1_0000_0000) by (nonlinear_arith);
}

/// Of an empty whole nothing is done; else the part counts out of the whole.
pub proof fn law_percentage(part: u64, whole: u64)
    ensures
        whole == 0 ==> percentage_of(part, whole) == Percentage::Zero,
        whole > 0 ==> percentage_of(part, whole) == (Percentage::Ratio { part, whole }),
{
}

/// One item more adds what it weighs, where it is accepted.
proof fn lemma_sum_push<A>(s: Seq<A>, x: A, keep: spec_fn(A) -> bool, g: spec_fn(A) -> nat)
    ensures
        sum_where(s.push(x), keep, g) == sum_where(s, keep, g) + (if keep(x) {
            g(x)
        } else {
            0
        }),
{
    assert(s.push(x).drop_last() =~= s);
}

/// Without files and pending files, every count and every sum is nothing.
pub proof fn law_nothing_counts_nothing(s: SessionView, t: Option<Seq<char>>, k: Option<Seq<char>>)
    requires
        s.files.len() == 0,
        s.pending_files.len() == 0,
    ensures
        s.size_of(t) == 0,
        s.stored_of(t) == 0,
        s.files_of(t).len() == 0,
        s.pending_of(t).len() == 0,
        s.completed_of(t).len() == 0,
        s.file_reports(t, k).len() == 0,
{
    reveal(Seq::filter);
}

/// A file counts in every report on its transfer and on the session, and in no other: with
/// its size, its stored bytes, as one file, and as a completed one where it is.
pub proof fn law_file_counts_once(s: SessionView, key: Seq<char>, f: FileView, t: Option<Seq<char>>)
    ensures
        ({
            let after = SessionView { files: s.files.push((key, f)), ..s };
            let one: nat = if t is None || t == Some(f.transfer_id) { 1 } else { 0 };
            let done: nat = if f.state == UploadState::Completed { one } else { 0 };
            &&& after.size_of(t) == s.size_of(t) + one * f.total_bytes
            &&& after.stored_of(t) == s.stored_of(t) + one * f.uploaded_bytes
            &&& after.files_of(t).len() == s.files_of(t).len() + one
            &&& after.completed_of(t).len() == s.completed_of(t).len() + done
            &&& after.pending_of(t).len() == s.pending_of(t).len()
        }),
{
    let x = (key, f);
    let keep = SessionView::file_meant(t);
    lemma_sum_push(s.files, x, keep, |p: (Seq<char>, FileView)| p.1.total_bytes as nat);
    lemma_sum_push(s.files, x, keep, |p: (Seq<char>, FileView)| p.1.uploaded_bytes as nat);
    s.files.lemma_filter_push(x, keep);
    s.files.lemma_filter_push(
        x,
        |p: (Seq<char>, FileView)|
            crate::report::meant(t, p.1.transfer_id) && p.1.state == UploadState::Completed,
    );
}

/// A pending file counts in every report on its transfer and on the session, and in no
/// other: with its size, and as one file of which nothing is stored.
pub proof fn law_pending_counts_once(s: SessionView, h: Seq<char>, p: PendingView, t: Option<Seq<char>>)
    ensures
        ({
            let after = SessionView { pending_files: s.pending_files.push((h, p)), ..s };
            let one: nat = if t is None || t == Some(p.transfer_id) { 1 } else { 0 };
            &&& after.size_of(t) == s.size_of(t) + one * p.file_size
            &&& after.stored_of(t) == s.stored_of(t)
            &&& after.files_of(t).len() == s.files_of(t).len()
            &&& after.completed_of(t).len() == s.completed_of(t).len()
            &&& after.pending_of(t).len() == s.pending_of(t).len() + one
        }),
{
    let x = (h, p);
    let keep = SessionView::pending_meant(t);
    lemma_sum_push(s.pending_files, x, keep, |p: (Seq<char>, PendingView)| p.1.file_size as nat);
    s.pending_files.lemma_filter_push(x, keep);
}

/// A transfer is done exactly where every key that it lists is that of a completed file of
/// the session, and no file of it is pending.
pub proof fn law_transfer_done(s: SessionView, tr: TransferView)
    ensures
        s.transfer_done(tr) <==> (forall|i: int|
            0 <= i < tr.file_keys.len() ==> (lookup(s.files, #[trigger] tr.file_keys[i]) matches Some(f) && f.state
                == UploadState::Completed)) && (forall|i: int|
            0 <= i < s.pending_files.len() ==> (#[trigger] s.pending_files[i]).1.transfer_id != tr.transfer_id),
{
    if s.transfer_done(tr) {
        assert forall|i: int| 0 <= i < tr.file_keys.len() implies (lookup(s.files, #[trigger] tr.file_keys[i]) matches Some(f)
            && f.state == UploadState::Completed) by {
            assert(s.key_completed(tr.file_keys[i]));
        }
    }
}

/// A filter keeps as many items as there are positions that it accepts.
proof fn lemma_filter_positions<A>(s: Seq<A>, f: spec_fn(A) -> bool)
    ensures
        Set::new(|i: int| 0 <= i < s.len() && f(s[i])).finite(),
        s.filter(f).len() == Set::new(|i: int| 0 <= i < s.len() && f(s[i])).len(),
    decreases s.len(),
{
    reveal(Seq::filter);
    let all = Set::new(|i: int| 0 <= i < s.len() && f(s[i]));
    if s.len() == 0 {
        assert(all =~= Set::<int>::empty());
    } else {
        let front = s.drop_last();
        lemma_filter_positions(front, f);
        let fewer = Set::new(|i: int| 0 <= i < front.len() && f(front[i]));
        if f(s.last()) {
            assert(all =~= fewer.insert(s.len() - 1));
        } else {
            assert(all =~= fewer);
        }
    }
}

/// The report on the session tells how many transfers there are, and how many of them list
/// completed files only and have none pending. The report on one transfer tells neither.
pub proof fn law_transfers_are_counted(s: SessionView, id: Seq<char>)
    requires
        s.transfers.len() <= u32::MAX,
    ensures
        s.aggregate(None).total_transfers == Some(s.transfers.len() as u32),
        s.aggregate(None).completed_transfers matches Some(n) && n == Set::new(
            |j: int|
                {
                    &&& 0 <= j < s.transfers.len()
                    &&& forall|i: int|
                        0 <= i < s.transfers[j].1.file_keys.len() ==> (lookup(
                            s.files,
                            #[trigger] s.transfers[j].1.file_keys[i],
                        ) matches Some(f) && f.state == UploadState::Completed)
                    &&& forall|i: int|
                        0 <= i < s.pending_files.len() ==> (#[trigger] s.pending_files[i]).1.transfer_id
                            != s.transfers[j].1.transfer_id
                },
        ).len(),
        s.aggregate(Some(id)).total_transfers is None,
        s.aggregate(Some(id)).completed_transfers is None,
{
    broadcast use vstd::seq_lib::group_filter_ensures;

    let done = |p: (Seq<char>, TransferView)| s.transfer_done(p.1);
    lemma_filter_positions(s.transfers, done);
    let a = Set::new(|j: int| 0 <= j < s.transfers.len() && done(s.transfers[j]));
    let b = Set::new(
        |j: int|
            {
                &&& 0 <= j < s.transfers.len()
                &&& forall|i: int|
                    0 <= i < s.transfers[j].1.file_keys.len() ==> (lookup(
                        s.files,
                        #[trigger] s.transfers[j].1.file_keys[i],
                    ) matches Some(f) && f.state == UploadState::Completed)
                &&& forall|i: int|
                    0 <= i < s.pending_files.len() ==> (#[trigger] s.pending_files[i]).1.transfer_id
                        != s.transfers[j].1.transfer_id
            },
    );
    assert forall|j: int| a.contains(j) == b.contains(j) by {
        if 0 <= j < s.transfers.len() {
            law_transfer_done(s, s.transfers[j].1);
        }
    }
    assert(a =~= b);
    assert(s.transfers.filter(done).len() <= s.transfers.len());
    law_low_bits(s.transfers.filter(done).len());
    law_low_bits(s.transfers.len());
}

/// All transfers are counted as completed exactly where each of them lists completed files
/// only and has none pending.
pub proof fn law_all_transfers_completed(s: SessionView)
    requires
        s.transfers.len() <= u32::MAX,
    ensures
        s.aggregate(None).completed_transfers == s.aggregate(None).total_transfers <==> forall|j: int|
            0 <= j < s.transfers.len() ==> s.transfer_done((#[trigger] s.transfers[j]).1),
{
    broadcast use vstd::seq_lib::group_filter_ensures;

    let done = |p: (Seq<char>, TransferView)| s.transfer_done(p.1);
    assert(s.transfers.filter(done).len() <= s.transfers.len());
    law_low_bits(s.transfers.filter(done).len());
    law_low_bits(s.transfers.len());
    lemma_filter_full(s.transfers, done);
}

/// A filter keeps as many items as there are only where it accepts them all.
proof fn lemma_filter_full<A>(s: Seq<A>, f: spec_fn(A) -> bool)
    ensures
        s.filter(f).len() <= s.len(),
        s.filter(f).len() == s.len() <==> forall|i: int| 0 <= i < s.len() ==> f(#[trigger] s[i]),
    decreases s.len(),
{
    reveal(Seq::filter);
    if s.len() > 0 {
        let front = s.drop_last();
        lemma_filter_full(front, f);
        assert(s[s.len() - 1] == s.last());
        if forall|i: int| 0 <= i < front.len() ==> f(#[trigger] front[i]) {
            assert forall|i: int| 0 <= i < s.len() - 1 implies f(#[trigger] s[i]) by {
                assert(front[i] == s[i]);
            }
        }
        if forall|i: int| 0 <= i < s.len() ==> f(#[trigger] s[i]) {
            assert forall|i: int| 0 <= i < front.len() implies f(#[trigger] front[i]) by {
                assert(front[i] == s[i]);
            }
        }
    }
}

/// The figures of a report: the bytes and files of the transfer, or of the session, with the
/// pending ones; the stored bytes, which are all of them where it is completed; and how much
/// of the whole that is.
pub proof fn law_report_figures(s: SessionView, t: Option<Seq<char>>)
    requires
        s.sound_sizes(),
    ensures
        ({
            let r = s.aggregate(t);
            &&& r.total_size == s.size_of(t)
            &&& r.state == GlobalUploaderState::Completed ==> r.uploaded_size == r.total_size && r.percentage
                == Percentage::Full
            &&& r.state != GlobalUploaderState::Completed ==> r.uploaded_size == s.stored_of(t) && r.percentage == (
            if r.total_size == 0 {
                Percentage::Zero
            } else {
                Percentage::Ratio { part: r.uploaded_size, whole: r.total_size }
            })
            &&& r.uploaded_size <= r.total_size
            &&& r.total_files == s.files_of(t).len() + s.pending_of(t).len()
            &&& r.completed_files == s.completed_of(t).len()
            &&& r.completed_files <= r.total_files
            &&& r.state == s.state_of(t)
        }),
{
    broadcast use vstd::seq_lib::group_filter_ensures;

    crate::report::lemma_sound_countable(s, t);
    assert(s.files_of(t).len() <= s.files.len());
    assert(s.pending_of(t).len() <= s.pending_files.len());
    let done = |p: (Seq<char>, FileView)| crate::report::meant(t, p.1.transfer_id) && p.1.state == UploadState::Completed;
    lemma_filter_part(s.files, done, SessionView::file_meant(t));
    law_low_bits(s.files_of(t).len());
    law_low_bits(s.pending_of(t).len());
    law_low_bits(s.completed_of(t).len());
}

/// The sizes of a session are sound exactly where no file has more stored than it has, and
/// the bytes and the files of the whole session can be counted. A report can be made where
/// its own sums can be.
pub proof fn law_sound_sizes(s: SessionView, t: Option<Seq<char>>)
    ensures
        s.sound_sizes() <==> (forall|i: int|
            0 <= i < s.files.len() ==> (#[trigger] s.files[i]).1.uploaded_bytes <= s.files[i].1.total_bytes)
            && s.size_of(None) <= u64::MAX && s.files.len() + s.pending_files.len() <= u32::MAX,
        s.size_of(t) <= u64::MAX && s.stored_of(t) <= u64::MAX && s.files_of(t).len() + s.pending_of(t).len()
            <= u32::MAX ==> s.countable(t),
        s.countable(t) ==> s.size_of(t) <= u64::MAX && s.stored_of(t) <= u64::MAX,
{
    if s.files_of(t).len() + s.pending_of(t).len() <= u32::MAX {
        law_low_bits(s.files_of(t).len());
        law_low_bits(s.pending_of(t).len());
    }
}

/// What accepts less keeps less.
proof fn lemma_filter_part<A>(s: Seq<A>, some: spec_fn(A) -> bool, all: spec_fn(A) -> bool)
    requires
        forall|x: A| #[trigger] some(x) ==> all(x),
    ensures
        s.filter(some).len() <= s.filter(all).len(),
    decreases s.len(),
{
    reveal(Seq::filter);
    if s.len() > 0 {
        lemma_filter_part(s.drop_last(), some, all);
    }
}

/// The state of a transfer, or of the session, follows from its files: not started where
/// there are none, completed where all are completed and none is pending; else running where
/// one runs that has its local file, else failed where one has failed, else paused where one
/// is paused and none runs, has failed or was cancelled; else it is that of the session.
pub proof fn law_state_of_transfer(s: SessionView, t: Option<Seq<char>>)
    ensures
        ({
            let of = |id: Seq<char>| t is None || t == Some(id);
            let in_state = |st: UploadState|
                exists|i: int| 0 <= i < s.files.len() && of((#[trigger] s.files[i]).1.transfer_id) && s.files[i].1.state == st;
            let some_file = exists|i: int| 0 <= i < s.files.len() && of((#[trigger] s.files[i]).1.transfer_id);
            let some_pending = exists|i: int|
                0 <= i < s.pending_files.len() && of((#[trigger] s.pending_files[i]).1.transfer_id);
            let all_completed = forall|i: int|
                0 <= i < s.files.len() && of((#[trigger] s.files[i]).1.transfer_id) ==> s.files[i].1.state
                    == UploadState::Completed;
            let running = exists|i: int|
                0 <= i < s.files.len() && of((#[trigger] s.files[i]).1.transfer_id) && s.files[i].1.state
                    == UploadState::Running && !s.files_needing_provision.contains(s.files[i].1.file_hash);
            s.state_of(t) == (if !some_file && !some_pending {
                GlobalUploaderState::NotStarted
            } else if !some_pending && all_completed {
                GlobalUploaderState::Completed
            } else if running {
                GlobalUploaderState::Running
            } else if in_state(UploadState::Failed) {
                GlobalUploaderState::Failed
            } else if in_state(UploadState::Paused) && !in_state(UploadState::Running) && !in_state(
                UploadState::Cancelled,
            ) {
                GlobalUploaderState::Paused
            } else {
                s.global_state
            })
        }),
{
    let of = |id: Seq<char>| t is None || t == Some(id);
    let in_state = |st: UploadState|
        exists|i: int| 0 <= i < s.files.len() && of((#[trigger] s.files[i]).1.transfer_id) && s.files[i].1.state == st;
    assert forall|id: Seq<char>| crate::report::meant(t, id) == #[trigger] of(id) by {}
    lemma_filter_some(s.files, SessionView::file_meant(t));
    lemma_filter_some(s.pending_files, SessionView::pending_meant(t));
    assert((s.files_of(t).len() > 0) == exists|i: int|
        0 <= i < s.files.len() && of((#[trigger] s.files[i]).1.transfer_id)) by {
        if s.files_of(t).len() > 0 {
            let i = choose|i: int| 0 <= i < s.files.len() && SessionView::file_meant(t)(#[trigger] s.files[i]);
            assert(of(s.files[i].1.transfer_id));
        }
        if exists|i: int| 0 <= i < s.files.len() && of((#[trigger] s.files[i]).1.transfer_id) {
            let i = choose|i: int| 0 <= i < s.files.len() && of((#[trigger] s.files[i]).1.transfer_id);
            assert(SessionView::file_meant(t)(s.files[i]));
        }
    }
    assert((s.pending_of(t).len() > 0) == exists|i: int|
        0 <= i < s.pending_files.len() && of((#[trigger] s.pending_files[i]).1.transfer_id)) by {
        if s.pending_of(t).len() > 0 {
            let i = choose|i: int| 0 <= i < s.pending_files.len() && SessionView::pending_meant(t)(#[trigger] s.pending_files[i]);
            assert(of(s.pending_files[i].1.transfer_id));
        }
        if exists|i: int| 0 <= i < s.pending_files.len() && of((#[trigger] s.pending_files[i]).1.transfer_id) {
            let i = choose|i: int| 0 <= i < s.pending_files.len() && of((#[trigger] s.pending_files[i]).1.transfer_id);
            assert(SessionView::pending_meant(t)(s.pending_files[i]));
        }
    }
    assert forall|st: UploadState| s.some_in(t, st) == #[trigger] in_state(st) by {
        if s.some_in(t, st) {
            let i = choose|i: int|
                0 <= i < s.files.len() && crate::report::meant(t, (#[trigger] s.files[i]).1.transfer_id)
                    && s.files[i].1.state == st;
            assert(of(s.files[i].1.transfer_id));
        }
        if in_state(st) {
            let i = choose|i: int|
                0 <= i < s.files.len() && of((#[trigger] s.files[i]).1.transfer_id) && s.files[i].1.state == st;
            assert(crate::report::meant(t, s.files[i].1.transfer_id));
        }
    }
    if s.running_in(t) {
        let i = choose|i: int|
            0 <= i < s.files.len() && crate::report::meant(t, (#[trigger] s.files[i]).1.transfer_id)
                && s.files[i].1.state == UploadState::Running && !s.files_needing_provision.contains(
                s.files[i].1.file_hash,
            );
        assert(of(s.files[i].1.transfer_id));
    }
    if s.resting_in(t) {
        if in_state(UploadState::Running) {
            let i = choose|i: int|
                0 <= i < s.files.len() && of((#[trigger] s.files[i]).1.transfer_id) && s.files[i].1.state
                    == UploadState::Running;
            assert(crate::session::at_rest(s.files[i].1.state));
        }
        if in_state(UploadState::Cancelled) {
            let i = choose|i: int|
                0 <= i < s.files.len() && of((#[trigger] s.files[i]).1.transfer_id) && s.files[i].1.state
                    == UploadState::Cancelled;
            assert(crate::session::at_rest(s.files[i].1.state));
        }
    } else {
        let i = choose|i: int|
            0 <= i < s.files.len() && crate::report::meant(t, (#[trigger] s.files[i]).1.transfer_id)
                && !crate::session::at_rest(s.files[i].1.state);
        assert(of(s.files[i].1.transfer_id));
        assert(in_state(s.files[i].1.state));
    }
}

/// A filter keeps something exactly where it accepts something.
proof fn lemma_filter_some<A>(s: Seq<A>, f: spec_fn(A) -> bool)
    ensures
        s.filter(f).len() > 0 <==> exists|i: int| 0 <= i < s.len() && f(#[trigger] s[i]),
    decreases s.len(),
{
    reveal(Seq::filter);
    if s.len() > 0 {
        let front = s.drop_last();
        lemma_filter_some(front, f);
        if front.filter(f).len() > 0 {
            let i = choose|i: int| 0 <= i < front.len() && f(#[trigger] front[i]);
            assert(s[i] == front[i]);
        }
        if f(s.last()) {
            assert(f(s[s.len() - 1]));
        } else if exists|i: int| 0 <= i < s.len() && f(#[trigger] s[i]) {
            let i = choose|i: int| 0 <= i < s.len() && f(#[trigger] s[i]);
            assert(front[i] == s[i]);
        }
    }
}

/// What a report on a file tells is what the file has.
pub proof fn law_file_report_tells(f: FileView, p: PendingView)
    ensures
        ({
            let r = file_report(f);
            &&& r.file_key == Some(f.file_key) && r.file_name == f.file_name && r.file_hash == f.file_hash
            &&& r.transfer_id == f.transfer_id && r.total_bytes == f.total_bytes && r.uploaded_bytes == f.uploaded_bytes
            &&& r.completed_parts == f.completed_parts && r.total_parts == f.total_parts && r.state == f.state
            &&& r.percentage == (if f.state == UploadState::Completed {
                Percentage::Full
            } else if f.total_bytes == 0 {
                Percentage::Zero
            } else {
                Percentage::Ratio { part: f.uploaded_bytes, whole: f.total_bytes }
            })
        }),
        ({
            let r = pending_report(p);
            &&& r.file_key is None && r.file_name == p.file_name && r.file_hash == p.file_hash
            &&& r.transfer_id == p.transfer_id && r.total_bytes == p.file_size && r.uploaded_bytes == 0
            &&& r.completed_parts == 0 && r.total_parts == 0 && r.state == UploadState::NotStarted
            &&& r.percentage == Percentage::Zero
        }),
{
}

/// One file more is one report more, at the end, where the file is asked for by its transfer
/// and by its key. Stated for a session without pending files, whose reports come last.
pub proof fn law_file_is_reported(s: SessionView, key: Seq<char>, f: FileView, t: Option<Seq<char>>, k: Option<Seq<char>>)
    requires
        s.pending_files.len() == 0,
    ensures
        (SessionView { files: s.files.push((key, f)), ..s }).file_reports(t, k) == (if (t is None || t == Some(
            f.transfer_id,
        )) && (k is None || k == Some(f.file_key)) {
            s.file_reports(t, k).push(file_report(f))
        } else {
            s.file_reports(t, k)
        }),
{
    reveal(Seq::filter);
    let after = SessionView { files: s.files.push((key, f)), ..s };
    let keep = |p: (Seq<char>, FileView)|
        crate::report::meant(t, p.1.transfer_id) && crate::report::meant(k, p.1.file_key);
    let report = |p: (Seq<char>, FileView)| file_report(p.1);
    s.files.lemma_filter_push((key, f), keep);
    let none = s.pending_of(t).map_values(|p: (Seq<char>, PendingView)| pending_report(p.1));
    assert(none =~= Seq::<FileProgressView>::empty());
    assert(s.files.filter(keep).push((key, f)).map_values(report) =~= s.files.filter(keep).map_values(report).push(
        file_report(f),
    ));
    assert(s.file_reports(t, k) =~= s.files.filter(keep).map_values(report));
    assert(after.file_reports(t, k) =~= after.files.filter(keep).map_values(report));
}

/// One pending file more is one report more, at the end, where its transfer is asked for and
/// no key is.
pub proof fn law_pending_is_reported(s: SessionView, h: Seq<char>, p: PendingView, t: Option<Seq<char>>, k: Option<Seq<char>>)
    ensures
        (SessionView { pending_files: s.pending_files.push((h, p)), ..s }).file_reports(t, k) == (if (t is None || t
            == Some(p.transfer_id)) && k is None {
            s.file_reports(t, k).push(pending_report(p))
        } else {
            s.file_reports(t, k)
        }),
{
    let after = SessionView { pending_files: s.pending_files.push((h, p)), ..s };
    let report = |p: (Seq<char>, PendingView)| pending_report(p.1);
    s.pending_files.lemma_filter_push((h, p), SessionView::pending_meant(t));
    if k is None {
        assert(s.pending_of(t).push((h, p)).map_values(report) =~= s.pending_of(t).map_values(report).push(
            pending_report(p),
        ));
        assert(after.file_reports(t, k) =~= (if t is None || t == Some(p.transfer_id) {
            s.file_reports(t, k).push(pending_report(p))
        } else {
            s.file_reports(t, k)
        }));
    }
}

} // verus!
