//! What the platforms ask of the session: taking a file in, cancelling it, restarting it,
//! reporting on it live.

use crate::progress::{
    live, live_reports, notice_opt, ProgressManager, ProgressNotice, UploadProgressView,
};
use crate::queue::UploadQueue;
use crate::report::{
    lemma_filter_none, lemma_filter_step, reports, AggregateProgress, FileProgress,
    FileProgressView,
};
use crate::runtime::{
    all_reportable, cancelled_report, changes_of, halted_files, missing_files_error, not_provided,
    notices, notify_cancelled_file, plain_notice, reportable, resumed_changes, statuses_set,
};
use crate::session::{str_opt, text_opt, waiting, FileView, PendingFileEntry, Session, SessionView};
use crate::state::{GlobalUploaderState, UploadState};
use crate::store::{self, all_restarted, StoreCommand};
use crate::string_map::{holds, lookup, without};
use crate::text::same_text;
use crate::transfers::texts;
use crate::upload_orchestrator::UploadOutcome;
use vstd::prelude::*;
use vstd::string::*;

verus! {

/// What is known of a file that is handed over.
#[derive(Debug, Clone, Copy, PartialEq, Eq, Structural)]
pub enum Screening {
    /// It is stored already.
    Stored,
    /// Its upload can be taken up again.
    Resumable,
    /// Nothing.
    New,
}

/// The message for a file that is already there.
pub open spec fn duplicate(file_hash: Seq<char>, how: Seq<char>) -> Seq<char> {
    "DUPLICATE_FILE: file with hash "@ + file_hash + " is already "@ + how + " in this session"@
}

fn duplicate_error(file_hash: &str, how: &str) -> (r: String)
    ensures
        r@ == duplicate(file_hash@, how@),
{
    let mut s = "DUPLICATE_FILE: file with hash ".to_string();
    s.append(file_hash);
    s.append(" is already ");
    s.append(how);
    s.append(" in this session");
    s
}

/// Looks a file up by its hash before it is taken in. One that is active but cannot be
/// resumed, or that is pending, is refused.
pub fn screen_file(session: &Session, file_hash: &str) -> (r: Result<Screening, String>)
    requires
        session.wf(),
    ensures
        match session@.by_hash(file_hash@) {
            Some(f) => if f.state == UploadState::Completed {
                r == Ok::<Screening, String>(Screening::Stored)
            } else if f.resumable() {
                r == Ok::<Screening, String>(Screening::Resumable)
            } else {
                r matches Err(e) && e@ == duplicate(file_hash@, "active"@)
            },
            None => if holds(session@.pending_files, file_hash@) {
                r matches Err(e) && e@ == duplicate(file_hash@, "pending"@)
            } else {
                r == Ok::<Screening, String>(Screening::New)
            },
        },
{
    match session.find_by_hash(file_hash) {
        Some(entry) => {
            if entry.state == UploadState::Completed {
                Ok(Screening::Stored)
            } else if entry.is_resumable() {
                Ok(Screening::Resumable)
            } else {
                Err(duplicate_error(file_hash, "active"))
            }
        },
        None => {
            if session.pending_files.contains_key(file_hash) {
                Err(duplicate_error(file_hash, "pending"))
            } else {
                Ok(Screening::New)
            }
        },
    }
}

/// Notes that the local file of a file is there again.
pub fn reprovide_file(session: &mut Session, file_hash: &str)
    requires
        old(session).wf(),
    ensures
        final(session).wf(),
        final(session)@ == (SessionView {
            files_needing_provision: old(session)@.files_needing_provision.remove(file_hash@),
            ..old(session)@
        }),
{
    let _ = session.files_needing_provision.remove(file_hash);
}

/// The pending file with this hash.
pub fn pending_file<'a>(session: &'a Session, file_hash: &str) -> (r: Result<&'a PendingFileEntry, String>)
    requires
        session.wf(),
    ensures
        match lookup(session@.pending_files, file_hash@) {
            Some(p) => r matches Ok(e) && e@ == p,
            None => r matches Err(m) && m@ == "no pending entry for hash "@ + file_hash@,
        },
{
    match session.pending_files.get(file_hash) {
        Some(p) => Ok(p),
        None => {
            let mut m = "no pending entry for hash ".to_string();
            m.append(file_hash);
            Err(m)
        },
    }
}

/// The start call for a pending file has returned, and the file is registered under
/// `file_key`. Where the pending file is gone, it was cancelled in the meantime, and the
/// file is taken out again. Tells whether the file stays.
pub fn settle_start(session: &mut Session, file_hash: &str, file_key: &str) -> (r: bool)
    requires
        old(session).wf(),
    ensures
        final(session).wf(),
        r == holds(old(session)@.pending_files, file_hash@),
        final(session)@ == (if r {
            SessionView {
                pending_files: without(old(session)@.pending_files, file_hash@),
                ..old(session)@
            }
        } else {
            old(session)@.without_file(file_key@)
        }),
{
    let still_active = session.pending_files.contains_key(file_hash);
    let _ = session.pending_files.remove(file_hash);
    if !still_active {
        session.cancel_file(file_key);
    }
    still_active
}

/// The key of a file whose upload goes on without a new start call: it is resumable and
/// not pending.
pub fn resumable_key(session: &Session, file_hash: &str) -> (r: Option<String>)
    requires
        session.wf(),
    ensures
        text_opt(r) == (match session@.by_hash(file_hash@) {
            Some(f) => if f.resumable() && !holds(session@.pending_files, file_hash@) {
                Some(f.file_key)
            } else {
                None
            },
            None => None,
        }),
{
    if session.pending_files.contains_key(file_hash) {
        return None;
    }
    match session.find_by_hash(file_hash) {
        Some(e) => {
            if e.is_resumable() {
                Some(e.file_key.clone())
            } else {
                None
            }
        },
        None => None,
    }
}

/// The path and the run version with which a queued file is uploaded; none where it runs
/// already or has ended.
pub fn run_target(session: &Session, file_key: &str) -> (r: Option<(String, u64)>)
    requires
        session.wf(),
    ensures
        match lookup(session@.files, file_key@) {
            Some(f) => if waiting(f.state) {
                r matches Some(t) && t.0@ == f.file_path && t.1 == f.run_version
            } else {
                r is None
            },
            None => r is None,
        },
{
    match session.files.get(file_key) {
        Some(e) => {
            if matches!(
                e.state,
                UploadState::NotStarted | UploadState::Initialized | UploadState::Paused | UploadState::Failed
            ) {
                Some((e.file_path.clone(), e.run_version))
            } else {
                None
            }
        },
        None => None,
    }
}

/// The key to queue once an upload has ended: after a completed one the next file that
/// waits, after a paused one the file itself, unless a resume has reset it.
pub fn next_after(session: &mut Session, file_key: &str, outcome: &UploadOutcome) -> (r: Option<String>)
    requires
        old(session).wf(),
    ensures
        final(session).wf(),
        match outcome {
            UploadOutcome::Completed => text_opt(r) == old(session)@.next_pending().0 && final(session)@
                == old(session)@.next_pending().1,
            UploadOutcome::Paused => final(session)@ == old(session)@ && text_opt(r) == (if lookup(
                old(session)@.files,
                file_key@,
            ) matches Some(f) && f.state == UploadState::Paused {
                Some(file_key@)
            } else {
                None
            }),
            UploadOutcome::Failed(_) => final(session)@ == old(session)@ && r is None,
        },
{
    match outcome {
        UploadOutcome::Completed => session.next_pending_file(),
        UploadOutcome::Paused => {
            match session.files.get(file_key) {
                Some(e) => {
                    if e.state == UploadState::Paused {
                        Some(file_key.to_string())
                    } else {
                        None
                    }
                },
                None => None,
            }
        },
        UploadOutcome::Failed(_) => None,
    }
}

/// What becomes of a file's descriptor once its upload has ended.
#[derive(Debug, Clone, Copy, PartialEq, Eq, Structural)]
pub enum Descriptor {
    /// The file is queued again, first in line.
    Requeue,
    /// It is kept, for a resume to queue the file again.
    Keep,
    /// It is closed.
    Close,
}

/// What becomes of a file's descriptor once its upload has ended: a paused file that the
/// session still has waiting is queued again, and the descriptor of a file that has failed
/// is kept.
pub fn descriptor_after(session: &Session, file_key: &str, outcome: &UploadOutcome) -> (r: Descriptor)
    requires
        session.wf(),
    ensures
        r == (match outcome {
            UploadOutcome::Paused => if lookup(session@.files, file_key@) matches Some(f) && (f.state
                == UploadState::Paused || f.state == UploadState::NotStarted) {
                Descriptor::Requeue
            } else {
                Descriptor::Close
            },
            UploadOutcome::Failed(_) => if holds(session@.files, file_key@) {
                Descriptor::Keep
            } else {
                Descriptor::Close
            },
            UploadOutcome::Completed => Descriptor::Close,
        }),
{
    match session.files.get(file_key) {
        Some(e) => match outcome {
            UploadOutcome::Paused => {
                if matches!(e.state, UploadState::Paused | UploadState::NotStarted) {
                    Descriptor::Requeue
                } else {
                    Descriptor::Close
                }
            },
            UploadOutcome::Failed(_) => Descriptor::Keep,
            UploadOutcome::Completed => Descriptor::Close,
        },
        None => Descriptor::Close,
    }
}

/// The keys of the files of a transfer.
pub fn transfer_keys(session: &Session, transfer_id: &str) -> (r: Vec<String>)
    requires
        session.wf(),
    ensures
        texts(r@) == session@.files_of(Some(transfer_id@)).map_values(|p: (Seq<char>, FileView)| p.1.file_key),
{
    let ghost files = session@.files;
    let ghost keep = SessionView::file_meant(Some(transfer_id@));
    let ghost key = |p: (Seq<char>, FileView)| p.1.file_key;
    let mut r: Vec<String> = Vec::new();
    let mut i: usize = 0;
    proof {
        lemma_filter_none(files, keep);
        assert(texts(r@) =~= files.take(0).filter(keep).map_values(key));
    }
    while i < session.files.len()
        invariant
            files == session@.files,
            keep == SessionView::file_meant(Some(transfer_id@)),
            key == (|p: (Seq<char>, FileView)| p.1.file_key),
            i <= files.len(),
            texts(r@) == files.take(i as int).filter(keep).map_values(key),
        decreases files.len() - i,
    {
        let e = session.files.value_at(i);
        proof {
            lemma_filter_step(files, keep, i as int);
        }
        if same_text(e.transfer_id.as_str(), transfer_id) {
            let ghost before = texts(r@);
            r.push(e.file_key.clone());
            assert(texts(r@) =~= before.push(e@.file_key));
            assert(texts(r@) =~= files.take(i + 1).filter(keep).map_values(key));
        }
        i += 1;
    }
    proof {
        lemma_filter_none(files, keep);
    }
    r
}

/// What is known of a file that is to be cancelled.
pub struct CancelTarget {
    pub file_key: String,
    pub file_name: String,
    pub transfer_id: String,
    pub total_bytes: u64,
    pub uploaded_bytes: u64,
}

/// The content of a `CancelTarget`.
#[verifier::ext_equal]
pub struct TargetView {
    pub file_key: Seq<char>,
    pub file_name: Seq<char>,
    pub transfer_id: Seq<char>,
    pub total_bytes: u64,
    pub uploaded_bytes: u64,
}

impl View for CancelTarget {
    type V = TargetView;

    open spec fn view(&self) -> TargetView {
        TargetView {
            file_key: self.file_key@,
            file_name: self.file_name@,
            transfer_id: self.transfer_id@,
            total_bytes: self.total_bytes,
            uploaded_bytes: self.uploaded_bytes,
        }
    }
}

/// What the session knows of the file with hash `h`. A pending file has no key yet; of an
/// unknown one nothing is known.
pub open spec fn target_of(s: SessionView, h: Seq<char>) -> TargetView {
    let nothing = TargetView {
        file_key: Seq::empty(),
        file_name: Seq::empty(),
        transfer_id: Seq::empty(),
        total_bytes: 0,
        uploaded_bytes: 0,
    };
    match lookup(s.pending_files, h) {
        Some(p) => TargetView { file_name: p.file_name, transfer_id: p.transfer_id, ..nothing },
        None => match lookup(s.hash_to_key, h) {
            Some(key) => match lookup(s.files, key) {
                Some(f) => TargetView {
                    file_key: key,
                    file_name: f.file_name,
                    transfer_id: f.transfer_id,
                    total_bytes: f.total_bytes,
                    uploaded_bytes: f.uploaded_bytes,
                },
                None => TargetView { file_key: key, ..nothing },
            },
            None => nothing,
        },
    }
}

/// What the session knows of the file with this hash.
pub fn cancel_target(session: &Session, file_hash: &str) -> (r: CancelTarget)
    requires
        session.wf(),
    ensures
        r@ == target_of(session@, file_hash@),
{
    if let Some(p) = session.pending_files.get(file_hash) {
        return CancelTarget {
            file_key: String::new(),
            file_name: p.file_name.clone(),
            transfer_id: p.transfer_id.clone(),
            total_bytes: 0,
            uploaded_bytes: 0,
        };
    }
    match session.hash_to_key.get(file_hash) {
        Some(key) => match session.files.get(key.as_str()) {
            Some(e) => CancelTarget {
                file_key: key.clone(),
                file_name: e.file_name.clone(),
                transfer_id: e.transfer_id.clone(),
                total_bytes: e.total_bytes,
                uploaded_bytes: e.uploaded_bytes,
            },
            None => CancelTarget {
                file_key: key.clone(),
                file_name: String::new(),
                transfer_id: String::new(),
                total_bytes: 0,
                uploaded_bytes: 0,
            },
        },
        None => CancelTarget {
            file_key: String::new(),
            file_name: String::new(),
            transfer_id: String::new(),
            total_bytes: 0,
            uploaded_bytes: 0,
        },
    }
}

/// What follows from a cancellation.
pub struct Cancelled {
    /// The key of the file; empty where it has none.
    pub file_key: String,
    pub notice: Option<ProgressNotice>,
    pub command: StoreCommand,
}

/// Cancels the file with this hash: it is no longer tracked and leaves the session, and
/// where its transfer is known, the caller hears of it.
pub fn cancel_upload(manager: &mut ProgressManager, session: &mut Session, file_hash: &str) -> (r: Cancelled)
    requires
        old(manager).wf(),
        old(session).wf(),
        target_of(old(session)@, file_hash@).transfer_id.len() > 0 ==> reportable(
            old(session)@.without_hash(file_hash@),
            target_of(old(session)@, file_hash@).transfer_id,
        ),
    ensures
        final(manager).wf(),
        final(session).wf(),
        final(session)@ == old(session)@.without_hash(file_hash@),
        ({
            let t = target_of(old(session)@, file_hash@);
            &&& r.file_key@ == t.file_key
            &&& final(manager)@ == (if t.file_key.len() > 0 {
                without(old(manager)@, t.file_key)
            } else {
                old(manager)@
            })
            &&& notice_opt(r.notice) == (if t.transfer_id.len() > 0 {
                Some(
                    plain_notice(
                        final(session)@,
                        cancelled_report(
                            t.file_key,
                            t.file_name,
                            file_hash@,
                            t.transfer_id,
                            t.total_bytes,
                            t.uploaded_bytes,
                        ),
                        t.transfer_id,
                    ),
                )
            } else {
                None
            })
        }),
        r.command == StoreCommand::Save,
{
    proof {
        reveal_strlit("");
    }
    let target = cancel_target(session, file_hash);
    if !same_text(target.file_key.as_str(), "") {
        manager.remove(target.file_key.as_str());
    }
    let command = store::cancel_file_by_hash(session, file_hash);
    let notice = if !same_text(target.transfer_id.as_str(), "") {
        assert(target.transfer_id@.len() > 0) by {
            if target.transfer_id@.len() == 0 {
                assert(target.transfer_id@ =~= ""@);
            }
        }
        Some(
            notify_cancelled_file(
                session,
                target.file_key.as_str(),
                target.file_name.as_str(),
                file_hash,
                target.transfer_id.as_str(),
                target.total_bytes,
                target.uploaded_bytes,
            ),
        )
    } else {
        None
    };
    proof {
        if target.file_key@.len() == 0 {
            assert(target.file_key@ =~= ""@);
        }
        if target.transfer_id@.len() == 0 {
            assert(target.transfer_id@ =~= ""@);
        }
    }
    Cancelled { file_key: target.file_key, notice, command }
}

/// One of the reports has key `k`.
pub open spec fn reported(v: Seq<FileProgressView>, k: Seq<char>) -> bool {
    exists|i: int| 0 <= i < v.len() && (#[trigger] v[i]).file_key == Some(k)
}

/// The report is on a file that `live` has no report on.
pub open spec fn unseen(live: Seq<FileProgressView>) -> spec_fn(FileProgressView) -> bool {
    |p: FileProgressView| p.file_key is None || !reported(live, p.file_key->0)
}

fn is_unseen(live: &Vec<FileProgress>, p: &FileProgress) -> (r: bool)
    ensures
        r == unseen(reports(live@))(p@),
{
    let key = match &p.file_key {
        Some(k) => k,
        None => {
            return true;
        },
    };
    let ghost all = reports(live@);
    let mut i: usize = 0;
    while i < live.len()
        invariant
            i <= live@.len(),
            all == reports(live@),
            p@.file_key == Some(key@),
            forall|j: int| 0 <= j < i ==> (#[trigger] all[j]).file_key != Some(key@),
        decreases live@.len() - i,
    {
        assert(all[i as int] == live@[i as int]@);
        if let Some(k) = &live[i].file_key {
            if same_text(k.as_str(), key.as_str()) {
                assert(all[i as int].file_key == Some(key@));
                return false;
            }
        }
        i += 1;
    }
    true
}

/// The live reports on the tracked files, followed by those on the other files of the
/// session.
pub fn merged_progress(
    manager: &ProgressManager,
    session: &Session,
    transfer_id: Option<&str>,
    file_key: Option<&str>,
) -> (r: Vec<FileProgress>)
    requires
        manager.wf(),
        session.wf(),
    ensures
        ({
            let live = live_reports(manager@, str_opt(transfer_id), str_opt(file_key));
            reports(r@) == live + session@.file_reports(str_opt(transfer_id), str_opt(file_key)).filter(
                unseen(live),
            )
        }),
{
    let live = manager.get_live_progress(transfer_id, file_key);
    let rest = session.get_progress(transfer_id, file_key);
    let ghost seen = reports(live@);
    let ghost all = reports(rest@);
    let ghost keep = unseen(seen);
    let mut more: Vec<FileProgress> = Vec::new();
    let mut rest = rest;
    proof {
        lemma_filter_none(all, keep);
        assert(all.skip(0) =~= all);
        assert(reports(more@) =~= all.take(0).filter(keep));
    }
    let ghost mut k: int = 0;
    while rest.len() > 0
        invariant
            0 <= k <= all.len(),
            seen == reports(live@),
            keep == unseen(seen),
            reports(rest@) == all.skip(k),
            reports(more@) == all.take(k).filter(keep),
        decreases all.len() - k,
    {
        let ghost left = reports(rest@);
        let ghost done = reports(more@);
        assert(left.len() == rest@.len());
        assert(left[0] == all[k]);
        proof {
            lemma_filter_step(all, keep, k);
        }
        let p = rest.remove(0);
        assert(reports(rest@) =~= left.skip(1));
        assert(left.skip(1) =~= all.skip(k + 1));
        if is_unseen(&live, &p) {
            more.push(p);
            assert(reports(more@) =~= done.push(all[k]));
        }
        proof {
            k = k + 1;
        }
    }
    proof {
        assert(reports(rest@).len() == rest@.len());
        lemma_filter_none(all, keep);
    }
    let mut merged = live;
    merged.append(&mut more);
    assert(reports(merged@) =~= seen + all.filter(keep));
    merged
}

/// The report on the session with the bytes in flight.
pub open spec fn live_session(m: Seq<(Seq<char>, UploadProgressView)>, s: SessionView) -> AggregateProgress {
    live(m, None, s.aggregate(None))
}

/// The report on the session with the bytes in flight.
pub fn live_session_report(manager: &ProgressManager, session: &Session) -> (r: AggregateProgress)
    requires
        manager.wf(),
        session.wf(),
        session@.countable(None),
    ensures
        r == live_session(manager@, session@),
{
    let agg = session.get_aggregate_progress(None);
    manager.get_live_aggregate(agg, agg, "").0
}

/// Some file of transfer `t` is tracked, and every such file is completed.
pub open spec fn all_tracked_completed(
    m: Seq<(Seq<char>, UploadProgressView)>,
    t: Option<Seq<char>>,
) -> bool {
    let v = live_reports(m, t, None);
    v.len() > 0 && forall|i: int| 0 <= i < v.len() ==> (#[trigger] v[i]).state == UploadState::Completed
}

/// The live report on transfer `t`, or on the session. A session that was emptied because
/// all is completed counts as completed while its files are still tracked.
pub open spec fn live_aggregate_of(
    m: Seq<(Seq<char>, UploadProgressView)>,
    s: SessionView,
    t: Option<Seq<char>>,
) -> AggregateProgress {
    let agg = live(m, t, s.aggregate(t));
    if agg.state == GlobalUploaderState::NotStarted && all_tracked_completed(m, t) {
        AggregateProgress { state: GlobalUploaderState::Completed, ..agg }
    } else {
        agg
    }
}

/// The live report on a transfer, or on the session.
pub fn live_aggregate_report(manager: &ProgressManager, session: &Session, transfer_id: Option<&str>) -> (r: AggregateProgress)
    requires
        manager.wf(),
        session.wf(),
        session@.countable(str_opt(transfer_id)),
    ensures
        r == live_aggregate_of(manager@, session@, str_opt(transfer_id)),
{
    let agg = session.get_aggregate_progress(transfer_id);
    let mut r = match transfer_id {
        Some(t) => manager.get_live_aggregate(agg, agg, t).1,
        None => manager.get_live_aggregate(agg, agg, "").0,
    };
    if r.state == GlobalUploaderState::NotStarted {
        let v = manager.get_live_progress(transfer_id, None);
        let ghost all = reports(v@);
        let mut completed = v.len() > 0;
        let mut i: usize = 0;
        while i < v.len()
            invariant
                i <= v@.len(),
                all == reports(v@),
                completed == (all.len() > 0 && forall|j: int| 0 <= j < i ==> (#[trigger] all[j]).state == UploadState::Completed),
            decreases v@.len() - i,
        {
            assert(all[i as int].state == v@[i as int].state);
            completed = completed && v[i].state == UploadState::Completed;
            i += 1;
        }
        if completed {
            r.state = GlobalUploaderState::Completed;
        }
    }
    r
}

/// The live files without those under `keys`.
pub open spec fn untracked(
    m: Seq<(Seq<char>, UploadProgressView)>,
    keys: Seq<Seq<char>>,
) -> Seq<(Seq<char>, UploadProgressView)>
    decreases keys.len(),
{
    if keys.len() == 0 {
        m
    } else {
        without(untracked(m, keys.drop_last()), keys.last())
    }
}

/// The keys of the files that a resume restarts.
pub open spec fn resumed_keys(s: SessionView) -> Seq<Seq<char>> {
    resumed_changes(s).map_values(|c: (Seq<char>, UploadState)| c.0)
}

/// Forgets the files of a row of changes.
fn untrack(manager: &mut ProgressManager, changes: &Vec<(String, UploadState)>)
    requires
        old(manager).wf(),
    ensures
        final(manager).wf(),
        final(manager)@ == untracked(
            old(manager)@,
            changes_of(changes@).map_values(|c: (Seq<char>, UploadState)| c.0),
        ),
{
    let ghost keys = changes_of(changes@).map_values(|c: (Seq<char>, UploadState)| c.0);
    let mut i: usize = 0;
    assert(untracked(manager@, keys.take(0)) == manager@);
    while i < changes.len()
        invariant
            manager.wf(),
            keys == changes_of(changes@).map_values(|c: (Seq<char>, UploadState)| c.0),
            i <= changes@.len(),
            manager@ == untracked(old(manager)@, keys.take(i as int)),
        decreases changes@.len() - i,
    {
        assert(keys.take(i + 1).drop_last() =~= keys.take(i as int));
        assert(keys[i as int] == changes@[i as int].0@);
        manager.remove(changes[i].0.as_str());
        i += 1;
    }
    assert(keys.take(keys.len() as int) =~= keys);
}

/// Restarts every file that is paused or has failed, and forgets what was tracked of them,
/// so that runs that have not ended yet add nothing to the new ones.
pub fn resume_untracked(manager: &mut ProgressManager, session: &mut Session) -> (r: Result<(Vec<ProgressNotice>, StoreCommand), String>)
    requires
        old(manager).wf(),
        old(session).wf(),
        old(session)@.files_needing_provision.len() == 0 ==> all_reportable(old(session)@),
    ensures
        final(manager).wf(),
        final(session).wf(),
        if old(session)@.files_needing_provision.len() > 0 {
            &&& r matches Err(e)
            &&& e@ == not_provided(old(session)@.files_needing_provision.len())
            &&& final(session)@ == old(session)@
            &&& final(manager)@ == old(manager)@
        } else {
            let after = statuses_set(
                old(manager)@,
                final(session)@,
                resumed_changes(old(session)@),
            );
            &&& r matches Ok(done)
            &&& final(session)@ == all_restarted(old(session)@)
            &&& final(manager)@ == untracked(after.0, resumed_keys(old(session)@))
            &&& notices(done.0@) == after.1
            &&& done.1 == StoreCommand::Save
        },
{
    let changes = halted_files(session);
    match crate::runtime::resume_all(manager, session) {
        Ok(done) => {
            untrack(manager, &changes);
            Ok(done)
        },
        Err(e) => Err(e),
    }
}

/// Restarts every file that is paused or has failed, silently, and begins the queue anew
/// with the next file that waits.
pub fn resume_requeued(manager: &mut ProgressManager, session: &mut Session, queue: &mut UploadQueue) -> (r: Result<StoreCommand, String>)
    requires
        old(manager).wf(),
        old(session).wf(),
        old(queue).wf(),
    ensures
        final(manager).wf(),
        final(session).wf(),
        final(queue).wf(),
        if old(session)@.files_needing_provision.len() > 0 {
            &&& r matches Err(e)
            &&& e@ == not_provided(old(session)@.files_needing_provision.len())
            &&& final(session)@ == old(session)@
            &&& final(manager)@ == old(manager)@
            &&& final(queue)@ == old(queue)@
        } else {
            let next = all_restarted(old(session)@).next_pending();
            &&& r == Ok::<StoreCommand, String>(StoreCommand::Save)
            &&& final(manager)@ == untracked(old(manager)@, resumed_keys(old(session)@))
            &&& final(session)@ == next.1
            &&& final(queue)@ == (match next.0 {
                Some(k) => seq![k],
                None => Seq::<Seq<char>>::empty(),
            })
        },
{
    if let Some(e) = missing_files_error(session) {
        return Err(e);
    }
    let changes = halted_files(session);
    let command = store::resume_all(session);
    untrack(manager, &changes);
    queue.clear();
    if let Some(k) = session.next_pending_file() {
        let _ = queue.enqueue_key(k);
        assert(queue@ =~= seq![k@]);
    }
    Ok(command)
}

} // verus!
