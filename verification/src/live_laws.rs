//! What the live progress tells: how bytes in flight count, and how files that change state
//! are shown.

use crate::intake::{all_tracked_completed, live_aggregate_of, live_session, target_of, unseen, untracked, TargetView};
use crate::progress::{
    can_complete, flight_of, flying, law_flying_sums, live, live_notice, live_reports, tracks, UploadProgressView,
};
use crate::report::{AggregateProgress, FileProgressView};
use crate::runtime::{
    cancelled_report, fresh_entry, paused_changes, plain_notice, registered_entry, resumed_changes, status_set,
    statuses_set, transfer_of, with_chunk,
};
use crate::session::{chunk_addable, chunk_completed, FileView, SessionView};
use crate::session_laws::law_one_file_changes;
use crate::state::{GlobalUploaderState, Percentage, UploadState};
use crate::string_map::{holds, lemma_put, lemma_without, lookup, unique};
use vstd::prelude::*;

verus! {

/// What has been sent of a file is what its completed parts hold and what is in flight. The
/// report on it tells that, and else what is known of the file.
pub proof fn law_live_report_tells(e: UploadProgressView)
    requires
        e.fits(),
    ensures
        e.sent() == e.completed_bytes + flying(e.in_flight),
        ({
            let r = e.report();
            &&& r.file_key == Some(e.file_key) && r.file_name == e.file_name && r.file_hash == e.file_hash
            &&& r.transfer_id == e.transfer_id && r.total_bytes == e.total_bytes
            &&& r.uploaded_bytes == e.completed_bytes + flying(e.in_flight)
            &&& r.completed_parts == e.completed_parts && r.total_parts == e.total_parts && r.state == e.status
            &&& r.percentage == (if e.status == UploadState::Completed {
                Percentage::Full
            } else if e.total_bytes == 0 {
                Percentage::Zero
            } else {
                Percentage::Ratio { part: r.uploaded_bytes, whole: e.total_bytes }
            })
        }),
{
}

/// Bytes sent of a part replace what was in flight of it before; the other parts and the rest
/// of the entry stay.
pub proof fn law_flight_replaces(e: UploadProgressView, p: u32, bytes: u64, q: u32)
    ensures
        ({
            let after = e.with_flight(p, bytes);
            let before: nat = if e.in_flight.contains_key(p) { e.in_flight[p] as nat } else { 0 };
            &&& after.in_flight.contains_key(p) && after.in_flight[p] == bytes
            &&& q != p ==> after.in_flight.contains_key(q) == e.in_flight.contains_key(q)
            &&& q != p && e.in_flight.contains_key(q) ==> after.in_flight[q] == e.in_flight[q]
            &&& after == (UploadProgressView { in_flight: after.in_flight, ..e })
            &&& after.sent() + before == e.sent() + bytes
        }),
{
    law_flying_sums(e.in_flight, p, bytes);
}

/// A completed part is no longer in flight; it counts with its size and as one part. The
/// other parts and the rest of the entry stay.
pub proof fn law_part_lands(e: UploadProgressView, p: u32, size: u64, q: u32)
    requires
        e.completed_bytes + size <= u64::MAX,
        e.completed_parts < u32::MAX,
    ensures
        ({
            let after = e.with_part(p, size);
            &&& after.completed_bytes == e.completed_bytes + size
            &&& after.completed_parts == e.completed_parts + 1
            &&& !after.in_flight.contains_key(p)
            &&& q != p ==> after.in_flight.contains_key(q) == e.in_flight.contains_key(q)
            &&& q != p && e.in_flight.contains_key(q) ==> after.in_flight[q] == e.in_flight[q]
            &&& after == (UploadProgressView {
                in_flight: after.in_flight,
                completed_bytes: after.completed_bytes,
                completed_parts: after.completed_parts,
                ..e
            })
        }),
{
}

/// When a part can be confirmed and completed without leaving the range of a count: a part
/// that is confirmed already, or of a file that is not there, always can.
pub proof fn law_counts_in_range(s: SessionView, key: Seq<char>, e: UploadProgressView, p: u32, size: u64)
    ensures
        lookup(s.files, key) is None ==> chunk_addable(s, key, p, size),
        lookup(s.files, key) matches Some(f) ==> (chunk_addable(s, key, p, size) <==> (exists|i: int|
            0 <= i < f.completed_chunk_etags.len() && (#[trigger] f.completed_chunk_etags[i]).0 == p) || (
        f.completed_parts < u32::MAX && f.uploaded_bytes + size <= u64::MAX)),
        e.fits() <==> e.completed_bytes + flying(e.in_flight) <= u64::MAX,
        can_complete(e, p, size) <==> e.completed_parts < u32::MAX && e.completed_bytes + size + flying(
            e.in_flight.remove(p),
        ) <= u64::MAX,
{
}

/// What is in flight for a transfer, or for all of them, is the sum over the tracked files
/// of it: nothing at first, and one more file adds what it has in flight.
pub proof fn law_flight_of_transfer(
    m: Seq<(Seq<char>, UploadProgressView)>,
    key: Seq<char>,
    e: UploadProgressView,
    t: Option<Seq<char>>,
)
    ensures
        flight_of(Seq::empty(), t) == 0,
        !tracks(Seq::empty(), t),
        flight_of(m.push((key, e)), t) == flight_of(m, t) + (if t is None || t == Some(e.transfer_id) {
            flying(e.in_flight)
        } else {
            0
        }),
        tracks(m.push((key, e)), t) == (tracks(m, t) || t is None || t == Some(e.transfer_id)),
{
    let after = m.push((key, e));
    assert(after.drop_last() =~= m);
    if tracks(m, t) {
        let i = choose|i: int| 0 <= i < m.len() && crate::report::meant(t, (#[trigger] m[i]).1.transfer_id);
        assert(after[i] == m[i]);
    }
    if tracks(after, t) {
        let i = choose|i: int| 0 <= i < after.len() && crate::report::meant(t, (#[trigger] after[i]).1.transfer_id);
        if i < m.len() {
            assert(m[i] == after[i]);
        } else {
            assert(after[i] == (key, e));
        }
    }
    if t is None || t == Some(e.transfer_id) {
        assert(after[m.len() as int] == (key, e));
    }
}

/// The live report has the bytes in flight on top of the stored ones, up to the limit of the
/// field; where a file of it is tracked and there are bytes at all, the percentage follows.
/// Every other figure stays.
pub proof fn law_live_adds_flight(
    m: Seq<(Seq<char>, UploadProgressView)>,
    t: Option<Seq<char>>,
    agg: AggregateProgress,
)
    ensures
        ({
            let r = live(m, t, agg);
            &&& r.uploaded_size == agg.uploaded_size + flight_of(m, t) || (r.uploaded_size == u64::MAX
                && agg.uploaded_size + flight_of(m, t) > u64::MAX)
            &&& tracks(m, t) && agg.total_size > 0 ==> r.percentage == (Percentage::Ratio {
                part: r.uploaded_size,
                whole: agg.total_size,
            })
            &&& !tracks(m, t) || agg.total_size == 0 ==> r.percentage == agg.percentage
            &&& r.total_size == agg.total_size && r.total_transfers == agg.total_transfers
            &&& r.completed_transfers == agg.completed_transfers && r.total_files == agg.total_files
            &&& r.completed_files == agg.completed_files && r.state == agg.state
        }),
{
}

/// A notice on a tracked file tells of that file, and has the bytes in flight on top of the
/// sums: those of all files for the session, those of its transfer for the transfer.
pub proof fn law_notice_tells(
    m: Seq<(Seq<char>, UploadProgressView)>,
    key: Seq<char>,
    session: AggregateProgress,
    transfer: AggregateProgress,
)
    requires
        holds(m, key),
    ensures
        ({
            let e = lookup(m, key)->0;
            let n = live_notice(m, key, session, transfer);
            n.file == e.report() && n.session == live(m, None, session) && n.transfer == live(
                m,
                Some(e.transfer_id),
                transfer,
            )
        }),
{
}

/// One tracked file more is one live report more, at the end, where it is asked for by its
/// transfer and by its key.
pub proof fn law_tracked_is_reported(
    m: Seq<(Seq<char>, UploadProgressView)>,
    key: Seq<char>,
    e: UploadProgressView,
    t: Option<Seq<char>>,
    k: Option<Seq<char>>,
)
    ensures
        live_reports(Seq::empty(), t, k) == Seq::<FileProgressView>::empty(),
        live_reports(m.push((key, e)), t, k) == (if (t is None || t == Some(e.transfer_id)) && (k is None || k == Some(
            e.file_key,
        )) {
            live_reports(m, t, k).push(e.report())
        } else {
            live_reports(m, t, k)
        }),
{
    reveal(Seq::filter);
    let keep = |p: (Seq<char>, UploadProgressView)|
        crate::report::meant(t, p.1.transfer_id) && crate::report::meant(k, p.1.file_key);
    let report = |p: (Seq<char>, UploadProgressView)| p.1.report();
    assert(live_reports(Seq::empty(), t, k) =~= Seq::<FileProgressView>::empty());
    m.lemma_filter_push((key, e), keep);
    assert(m.filter(keep).push((key, e)).map_values(report) =~= m.filter(keep).map_values(report).push(e.report()));
}

/// Showing a tracked file in another state changes the state of that entry alone, and tells
/// of it. Nothing happens for a file that is not tracked.
pub proof fn law_status_shown(
    m: Seq<(Seq<char>, UploadProgressView)>,
    s: SessionView,
    key: Seq<char>,
    status: UploadState,
    k: Seq<char>,
)
    requires
        unique(m),
    ensures
        ({
            let (after, notice) = status_set(m, s, key, status);
            &&& unique(after)
            &&& lookup(after, k) == (match lookup(m, k) {
                Some(e) => Some(
                    UploadProgressView {
                        status: if k == key {
                            status
                        } else {
                            e.status
                        },
                        ..e
                    },
                ),
                None => None,
            })
            &&& match lookup(m, key) {
                Some(e) => notice matches Some(n) && {
                    &&& n.file == (UploadProgressView { status, ..e }).report()
                    &&& n.file.state == status
                    &&& n.session == live(after, None, s.aggregate(None))
                    &&& n.transfer == live(after, Some(e.transfer_id), s.aggregate(Some(transfer_of(s, key))))
                },
                None => notice is None && after == m,
            }
        }),
{
    if holds(m, key) {
        let e = UploadProgressView { status, ..lookup(m, key)->0 };
        lemma_put(m, key, e, k);
        lemma_put(m, key, e, key);
    }
}

/// After a row of changes each tracked file is in the state of the last change that names it,
/// and where none does, in the state it had. Nothing else of any entry changes. There is a
/// notice for each change that names a tracked file, and for no other.
pub proof fn law_statuses_shown(
    m: Seq<(Seq<char>, UploadProgressView)>,
    s: SessionView,
    changes: Seq<(Seq<char>, UploadState)>,
    k: Seq<char>,
)
    requires
        unique(m),
    ensures
        ({
            let (after, told) = statuses_set(m, s, changes);
            &&& unique(after)
            &&& holds(after, k) == holds(m, k)
            &&& lookup(m, k) matches Some(e) ==> {
                &&& lookup(after, k) matches Some(f) && f == (UploadProgressView { status: f.status, ..e })
                &&& (forall|i: int| 0 <= i < changes.len() ==> (#[trigger] changes[i]).0 != k) ==> lookup(after, k)
                    == Some(e)
                &&& forall|j: int|
                    0 <= j < changes.len() && (#[trigger] changes[j]).0 == k && (forall|i: int|
                        j < i < changes.len() ==> (#[trigger] changes[i]).0 != k) ==> (lookup(after, k)->0).status
                        == changes[j].1
            }
            &&& told.len() == changes.filter(|c: (Seq<char>, UploadState)| holds(m, c.0)).len()
            &&& forall|n: int|
                0 <= n < told.len() ==> exists|j: int|
                    0 <= j < changes.len() && holds(m, (#[trigger] changes[j]).0) && (#[trigger] told[n]).file.state
                        == changes[j].1
        }),
    decreases changes.len(),
{
    reveal(Seq::filter);
    if changes.len() > 0 {
        let front = changes.drop_last();
        let last = changes.last();
        let known = |c: (Seq<char>, UploadState)| holds(m, c.0);
        law_statuses_shown(m, s, front, k);
        law_statuses_shown(m, s, front, last.0);
        let (before, told) = statuses_set(m, s, front);
        law_status_shown(before, s, last.0, last.1, k);
        assert forall|i: int| 0 <= i < front.len() implies #[trigger] front[i] == changes[i] by {}
        assert(changes[changes.len() - 1] == last);
        let (after, all) = statuses_set(m, s, changes);
        assert(after == status_set(before, s, last.0, last.1).0);
        if holds(m, k) {
            assert forall|j: int|
                0 <= j < changes.len() && (#[trigger] changes[j]).0 == k && (forall|i: int|
                    j < i < changes.len() ==> (#[trigger] changes[i]).0 != k) implies (lookup(after, k)->0).status
                == changes[j].1 by {
                if j < front.len() {
                    assert(front[j].0 == k);
                    assert(changes[changes.len() - 1].0 != k);
                    assert forall|i: int| j < i < front.len() implies (#[trigger] front[i]).0 != k by {
                        assert(changes[i].0 != k);
                    }
                }
            }
        }
        assert(changes.filter(known) == (if holds(m, last.0) {
            front.filter(known).push(last)
        } else {
            front.filter(known)
        }));
        assert forall|n: int| 0 <= n < all.len() implies exists|j: int|
            0 <= j < changes.len() && holds(m, (#[trigger] changes[j]).0) && (#[trigger] all[n]).file.state
                == changes[j].1 by {
            if n < told.len() {
                assert(all[n] == told[n]);
                let j = choose|j: int|
                    0 <= j < front.len() && holds(m, (#[trigger] front[j]).0) && told[n].file.state == front[j].1;
                assert(changes[j] == front[j]);
            } else {
                assert(holds(m, changes[changes.len() - 1].0) && all[n].file.state == changes[changes.len() - 1].1);
            }
        }
    }
}

/// What a filter keeps is what it accepts.
proof fn lemma_filter_has<A>(s: Seq<A>, f: spec_fn(A) -> bool, x: A)
    ensures
        s.filter(f).contains(x) <==> s.contains(x) && f(x),
    decreases s.len(),
{
    broadcast use vstd::seq_lib::group_filter_ensures;

    reveal(Seq::filter);
    if s.len() > 0 {
        let front = s.drop_last();
        lemma_filter_has(front, f, x);
        assert(s =~= front.push(s.last()));
        if front.contains(x) {
            let i = choose|i: int| 0 <= i < front.len() && front[i] == x;
            assert(s[i] == x);
        }
        if s.contains(x) && x != s.last() {
            let i = choose|i: int| 0 <= i < s.len() && s[i] == x;
            assert(front[i] == x);
        }
        let kept = front.filter(f);
        if f(s.last()) {
            assert(s.filter(f) == kept.push(s.last()));
            if kept.contains(x) {
                let i = choose|i: int| 0 <= i < kept.len() && kept[i] == x;
                assert(s.filter(f)[i] == x);
            }
            if x == s.last() {
                assert(s.filter(f)[kept.len() as int] == x);
                assert(s[s.len() - 1] == x);
            }
            if s.filter(f).contains(x) && x != s.last() {
                let i = choose|i: int| 0 <= i < s.filter(f).len() && s.filter(f)[i] == x;
                assert(kept[i] == x);
            }
        }
    }
}

/// A pause shows as paused exactly the tracked files that the session has as paused.
pub proof fn law_pause_shows_paused(
    m: Seq<(Seq<char>, UploadProgressView)>,
    s: SessionView,
    k: Seq<char>,
    st: UploadState,
)
    ensures
        paused_changes(m, s).contains((k, st)) <==> st == UploadState::Paused && holds(m, k) && (lookup(
            s.files,
            k,
        ) matches Some(f) && f.state == UploadState::Paused),
{
    let keys = m.map_values(|p: (Seq<char>, UploadProgressView)| p.0);
    let paused = |k: Seq<char>| lookup(s.files, k) matches Some(f) && f.state == UploadState::Paused;
    let kept = keys.filter(paused);
    lemma_filter_has(keys, paused, k);
    let all = paused_changes(m, s);
    assert(all == kept.map_values(|k: Seq<char>| (k, UploadState::Paused)));
    if all.contains((k, st)) {
        let i = choose|i: int| 0 <= i < all.len() && all[i] == (k, st);
        assert(kept[i] == k);
        assert(keys.contains(k));
        let j = choose|j: int| 0 <= j < keys.len() && keys[j] == k;
        assert(m[j].0 == k);
    }
    if st == UploadState::Paused && holds(m, k) && paused(k) {
        let j = crate::string_map::at(m, k);
        assert(keys[j] == k);
        let i = choose|i: int| 0 <= i < kept.len() && kept[i] == k;
        assert(all[i] == (k, st));
    }
}

/// A resume shows exactly the files that were paused, as running, and those that had failed,
/// as initialized; one for each such file.
pub proof fn law_resume_shows_restarted(s: SessionView, k: Seq<char>, st: UploadState)
    ensures
        resumed_changes(s).contains((k, st)) <==> exists|i: int|
            0 <= i < s.files.len() && (#[trigger] s.files[i]).1.file_key == k && ((s.files[i].1.state
                == UploadState::Paused && st == UploadState::Running) || (s.files[i].1.state == UploadState::Failed
                && st == UploadState::Initialized)),
        resumed_changes(s).len() == s.files.filter(
            |p: (Seq<char>, FileView)| p.1.state == UploadState::Paused || p.1.state == UploadState::Failed,
        ).len(),
{
    let halted = |p: (Seq<char>, FileView)| crate::store::halted(p.1);
    let shown = |p: (Seq<char>, FileView)|
        (
            p.1.file_key,
            if p.1.state == UploadState::Paused {
                UploadState::Running
            } else {
                UploadState::Initialized
            },
        );
    let kept = s.files.filter(halted);
    let all = resumed_changes(s);
    assert(all == kept.map_values(shown));
    assert(halted =~= (|p: (Seq<char>, FileView)| p.1.state == UploadState::Paused || p.1.state == UploadState::Failed));
    if all.contains((k, st)) {
        let i = choose|i: int| 0 <= i < all.len() && all[i] == (k, st);
        let p = kept[i];
        lemma_filter_has(s.files, halted, p);
        assert(kept.contains(p));
        let j = choose|j: int| 0 <= j < s.files.len() && s.files[j] == p;
        assert(s.files[j].1.file_key == k);
    }
    if exists|i: int|
        0 <= i < s.files.len() && (#[trigger] s.files[i]).1.file_key == k && ((s.files[i].1.state == UploadState::Paused
            && st == UploadState::Running) || (s.files[i].1.state == UploadState::Failed && st
            == UploadState::Initialized)) {
        let j = choose|i: int|
            0 <= i < s.files.len() && (#[trigger] s.files[i]).1.file_key == k && ((s.files[i].1.state
                == UploadState::Paused && st == UploadState::Running) || (s.files[i].1.state == UploadState::Failed
                && st == UploadState::Initialized));
        let p = s.files[j];
        lemma_filter_has(s.files, halted, p);
        assert(s.files.contains(p));
        let i = choose|i: int| 0 <= i < kept.len() && kept[i] == p;
        assert(all[i] == (k, st));
    }
}

/// The entry of a file that begins to run has what the session knows of the file and what
/// the run tells, nothing in flight, and runs.
pub proof fn law_run_begins(
    s: SessionView,
    key: Seq<char>,
    total_bytes: u64,
    total_parts: u32,
    completed_bytes: u64,
    completed_parts: u32,
)
    ensures
        ({
            let e = fresh_entry(s, key, total_bytes, total_parts, completed_bytes, completed_parts);
            &&& e.file_key == key && e.total_bytes == total_bytes && e.total_parts == total_parts
            &&& e.completed_bytes == completed_bytes && e.completed_parts == completed_parts
            &&& forall|p: u32| !(#[trigger] e.in_flight.contains_key(p))
            &&& e.status == UploadState::Running
            &&& lookup(s.files, key) matches Some(f) ==> e.file_name == f.file_name && e.file_hash == f.file_hash
                && e.transfer_id == f.transfer_id && transfer_of(s, key) == f.transfer_id
            &&& lookup(s.files, key) is None ==> e.file_name.len() == 0 && e.file_hash.len() == 0 && e.transfer_id.len()
                == 0 && transfer_of(s, key).len() == 0
            &&& e.sent() == completed_bytes
        }),
{
    law_flying_sums(Map::empty(), 0, 0);
}

/// The entry of a file that is registered shows what is stored of it: completed where the
/// file is, paused where something is stored, initialized else.
pub proof fn law_registered_is_shown(s: SessionView, key: Seq<char>)
    ensures
        ({
            let e = registered_entry(s, key);
            &&& e.file_key == key && e.total_parts == 0
            &&& forall|p: u32| !(#[trigger] e.in_flight.contains_key(p))
            &&& match lookup(s.files, key) {
                Some(f) => {
                    &&& e.file_name == f.file_name && e.file_hash == f.file_hash && e.transfer_id == f.transfer_id
                    &&& e.total_bytes == f.total_bytes && e.completed_bytes == f.uploaded_bytes
                    &&& e.completed_parts == f.completed_parts
                    &&& f.state == UploadState::Completed ==> e.status == UploadState::Completed
                    &&& f.state != UploadState::Completed && f.uploaded_bytes > 0 ==> e.status == UploadState::Paused
                    &&& f.state != UploadState::Completed && f.uploaded_bytes == 0 ==> e.status
                        == UploadState::Initialized
                },
                None => e.status == UploadState::Initialized && e.total_bytes == 0 && e.completed_bytes == 0
                    && e.completed_parts == 0 && e.file_name.len() == 0 && e.file_hash.len() == 0
                    && e.transfer_id.len() == 0,
            }
        }),
{
}

/// The report on a cancelled file names it and tells that it was cancelled, with what was
/// stored of it; a notice carries the report it is made for and the sums of the session and
/// of the transfer.
pub proof fn law_cancelled_is_told(
    s: SessionView,
    key: Seq<char>,
    name: Seq<char>,
    h: Seq<char>,
    id: Seq<char>,
    total_bytes: u64,
    uploaded_bytes: u64,
)
    ensures
        ({
            let r = cancelled_report(key, name, h, id, total_bytes, uploaded_bytes);
            &&& r.file_key == Some(key) && r.file_name == name && r.file_hash == h && r.transfer_id == id
            &&& r.total_bytes == total_bytes && r.uploaded_bytes == uploaded_bytes
            &&& r.completed_parts == 0 && r.total_parts == 0 && r.state == UploadState::Cancelled
            &&& total_bytes == 0 ==> r.percentage == Percentage::Zero
            &&& total_bytes > 0 ==> r.percentage == (Percentage::Ratio { part: uploaded_bytes, whole: total_bytes })
            &&& plain_notice(s, r, id).file == r
            &&& plain_notice(s, r, id).session == s.aggregate(None)
            &&& plain_notice(s, r, id).transfer == s.aggregate(Some(id))
        }),
{
}

/// Confirming a part changes the file it belongs to, as confirming does, and nothing else.
pub proof fn law_part_changes_its_file(s: SessionView, key: Seq<char>, p: u32, etag: Seq<char>, size: u64)
    requires
        s.sound(),
    ensures
        ({
            let after = with_chunk(s, key, p, etag, size);
            &&& after == (SessionView { files: after.files, ..s })
            &&& after.files.len() == s.files.len()
            &&& forall|i: int|
                0 <= i < s.files.len() ==> (#[trigger] after.files[i]) == (
                    s.files[i].0,
                    if s.files[i].0 == key {
                        chunk_completed(s.files[i].1, p, etag, size)
                    } else {
                        s.files[i].1
                    },
                )
        }),
{
    law_one_file_changes(s, key, |f: FileView| chunk_completed(f, p, etag, size));
}

/// What is told of a file that is to be cancelled: of a pending one its name and transfer, of
/// a registered one its key and bytes too, of an unknown one nothing.
pub proof fn law_cancel_target(s: SessionView, h: Seq<char>)
    ensures
        ({
            let t = target_of(s, h);
            match lookup(s.pending_files, h) {
                Some(p) => t.file_key.len() == 0 && t.file_name == p.file_name && t.transfer_id == p.transfer_id
                    && t.total_bytes == 0 && t.uploaded_bytes == 0,
                None => match s.by_hash(h) {
                    Some(f) => lookup(s.hash_to_key, h) == Some(t.file_key) && t.file_name == f.file_name
                        && t.transfer_id == f.transfer_id && t.total_bytes == f.total_bytes && t.uploaded_bytes
                        == f.uploaded_bytes,
                    None => {
                        &&& t == (TargetView {
                            file_key: t.file_key,
                            file_name: Seq::empty(),
                            transfer_id: Seq::empty(),
                            total_bytes: 0,
                            uploaded_bytes: 0,
                        })
                        &&& lookup(s.hash_to_key, h) is None ==> t.file_key.len() == 0
                        &&& lookup(s.hash_to_key, h) matches Some(key) ==> t.file_key == key
                    },
                },
            }
        }),
{
}

/// Forgetting files forgets exactly those named; the others are tracked as before.
pub proof fn law_untracked_are_gone(m: Seq<(Seq<char>, UploadProgressView)>, keys: Seq<Seq<char>>, k: Seq<char>)
    requires
        unique(m),
    ensures
        unique(untracked(m, keys)),
        lookup(untracked(m, keys), k) == (if keys.contains(k) {
            None
        } else {
            lookup(m, k)
        }),
    decreases keys.len(),
{
    if keys.len() > 0 {
        let front = keys.drop_last();
        law_untracked_are_gone(m, front, k);
        lemma_without(untracked(m, front), keys.last(), k);
        assert(keys =~= front.push(keys.last()));
        if front.contains(k) {
            let i = choose|i: int| 0 <= i < front.len() && front[i] == k;
            assert(keys[i] == k);
        }
        if keys.contains(k) && k != keys.last() {
            let i = choose|i: int| 0 <= i < keys.len() && keys[i] == k;
            assert(front[i] == k);
        }
        assert(keys[keys.len() - 1] == keys.last());
    }
}

/// A resume forgets exactly the files that it restarts.
pub proof fn law_resumed_keys(s: SessionView, k: Seq<char>)
    ensures
        crate::intake::resumed_keys(s).contains(k) <==> exists|i: int|
            0 <= i < s.files.len() && (#[trigger] s.files[i]).1.file_key == k && (s.files[i].1.state
                == UploadState::Paused || s.files[i].1.state == UploadState::Failed),
{
    let all = resumed_changes(s);
    let keys = crate::intake::resumed_keys(s);
    law_resume_shows_restarted(s, k, UploadState::Running);
    law_resume_shows_restarted(s, k, UploadState::Initialized);
    if keys.contains(k) {
        let i = choose|i: int| 0 <= i < keys.len() && keys[i] == k;
        assert(all[i].0 == k);
        law_resume_shows_restarted(s, k, all[i].1);
        assert(all.contains((k, all[i].1)));
    }
    if all.contains((k, UploadState::Running)) {
        let i = choose|i: int| 0 <= i < all.len() && all[i] == (k, UploadState::Running);
        assert(keys[i] == k);
    }
    if all.contains((k, UploadState::Initialized)) {
        let i = choose|i: int| 0 <= i < all.len() && all[i] == (k, UploadState::Initialized);
        assert(keys[i] == k);
    }
    if exists|i: int|
        0 <= i < s.files.len() && (#[trigger] s.files[i]).1.file_key == k && (s.files[i].1.state == UploadState::Paused
            || s.files[i].1.state == UploadState::Failed) {
        let i = choose|i: int|
            0 <= i < s.files.len() && (#[trigger] s.files[i]).1.file_key == k && (s.files[i].1.state
                == UploadState::Paused || s.files[i].1.state == UploadState::Failed);
        assert(s.files[i].1.file_key == k);
    }
}

/// A report is passed over exactly where a live report is on the same key; one without a key
/// never is.
pub proof fn law_live_reports_take_precedence(live: Seq<FileProgressView>, p: FileProgressView)
    ensures
        unseen(live)(p) <==> p.file_key is None || forall|i: int|
            0 <= i < live.len() ==> (#[trigger] live[i]).file_key != p.file_key,
{
    if p.file_key is Some {
        let k = p.file_key->0;
        if crate::intake::reported(live, k) {
            let i = choose|i: int| 0 <= i < live.len() && (#[trigger] live[i]).file_key == Some(k);
            assert(live[i].file_key == p.file_key);
        }
    }
}

/// The live report on a transfer, or on the session, is the report on it with the bytes in
/// flight. Only its state may differ: where nothing seems to have started, but files are
/// tracked and all of them are completed, it is completed.
pub proof fn law_live_report_of_transfer(
    m: Seq<(Seq<char>, UploadProgressView)>,
    s: SessionView,
    t: Option<Seq<char>>,
)
    ensures
        ({
            let r = live_aggregate_of(m, s, t);
            let plain = live(m, t, s.aggregate(t));
            let v = live_reports(m, t, None);
            let done = v.len() > 0 && forall|i: int|
                0 <= i < v.len() ==> (#[trigger] v[i]).state == UploadState::Completed;
            &&& all_tracked_completed(m, t) == done
            &&& r == (AggregateProgress {
                state: if plain.state == GlobalUploaderState::NotStarted && done {
                    GlobalUploaderState::Completed
                } else {
                    plain.state
                },
                ..plain
            })
        }),
        live_session(m, s) == live(m, None, s.aggregate(None)),
{
}

} // verus!
