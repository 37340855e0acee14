//! Operations that change the session and the live progress together.

use crate::progress::{
    can_complete, live_notice, notice_opt, NoticeView, ProgressManager, ProgressNotice,
    UploadProgressView,
};
use crate::report::{
    lemma_countable_kept, lemma_filter_none, lemma_filter_step, pending_report, report_pending, AggregateProgress,
    FileProgress, FileProgressView,
};
use crate::session::{
    chunk_addable, chunk_completed, lemma_with_files_lookup, stopped, FileView, Session,
    SessionView,
};
use crate::state::{percentage_of, Percentage, UploadState};
use crate::store::{self, all_restarted, halted, restarted, StoreCommand};
use crate::string_map::{lemma_put, lookup, put, unique};
use crate::text::{decimal, decimal_text};
use crate::transfers::texts;
use vstd::prelude::*;
use vstd::string::*;

verus! {

/// The transfer of the file under `key`; empty where there is no such file.
pub open spec fn transfer_of(s: SessionView, key: Seq<char>) -> Seq<char> {
    match lookup(s.files, key) {
        Some(f) => f.transfer_id,
        None => Seq::empty(),
    }
}

/// The reports on the session and on transfer `t` can be made.
pub open spec fn reportable(s: SessionView, t: Seq<char>) -> bool {
    s.countable(None) && s.countable(Some(t))
}

/// The reports on the session and on the transfer of any of its files can be made.
pub open spec fn all_reportable(s: SessionView) -> bool {
    forall|key: Seq<char>| reportable(s, #[trigger] transfer_of(s, key))
}

/// The live files with the file under `key` in state `status`, and the notice on it.
pub open spec fn status_set(
    m: Seq<(Seq<char>, UploadProgressView)>,
    s: SessionView,
    key: Seq<char>,
    status: UploadState,
) -> (Seq<(Seq<char>, UploadProgressView)>, Option<NoticeView>) {
    match lookup(m, key) {
        Some(e) => {
            let after = put(m, key, UploadProgressView { status, ..e });
            (
                after,
                Some(
                    live_notice(
                        after,
                        key,
                        s.aggregate(None),
                        s.aggregate(Some(transfer_of(s, key))),
                    ),
                ),
            )
        },
        None => (m, None),
    }
}

/// The live files after a row of status changes, and the notices on them.
pub open spec fn statuses_set(
    m: Seq<(Seq<char>, UploadProgressView)>,
    s: SessionView,
    changes: Seq<(Seq<char>, UploadState)>,
) -> (Seq<(Seq<char>, UploadProgressView)>, Seq<NoticeView>)
    decreases changes.len(),
{
    if changes.len() == 0 {
        (m, Seq::empty())
    } else {
        let before = statuses_set(m, s, changes.drop_last());
        let step = status_set(before.0, s, changes.last().0, changes.last().1);
        (
            step.0,
            match step.1 {
                Some(n) => before.1.push(n),
                None => before.1,
            },
        )
    }
}

/// The notices behind a vector of them.
pub open spec fn notices(v: Seq<ProgressNotice>) -> Seq<NoticeView> {
    v.map_values(|n: ProgressNotice| n@)
}

/// The changes behind a vector of them.
pub open spec fn changes_of(v: Seq<(String, UploadState)>) -> Seq<(Seq<char>, UploadState)> {
    v.map_values(|p: (String, UploadState)| (p.0@, p.1))
}

/// A change of files that keeps their keys, transfers and sizes keeps what can be reported.
proof fn lemma_reportable_kept(s: SessionView, h: spec_fn(FileView) -> FileView)
    requires
        all_reportable(s),
        unique(s.files),
        forall|f: FileView|
            (#[trigger] h(f)).transfer_id == f.transfer_id && h(f).total_bytes == f.total_bytes
                && h(f).uploaded_bytes == f.uploaded_bytes,
    ensures
        all_reportable(s.with_files(h).recomputed()),
{
    let after = s.with_files(h).recomputed();
    assert forall|key: Seq<char>| reportable(after, #[trigger] transfer_of(after, key)) by {
        assert(transfer_of(after, key) == transfer_of(s, key)) by {
            lemma_with_files_lookup(s, h, key);
        }
        assert(reportable(s, transfer_of(s, key)));
        lemma_countable_kept(s, h, None);
        lemma_countable_kept(s, h, Some(transfer_of(s, key)));
    }
}

/// The transfer of a file; empty where the session does not know the file.
pub fn transfer_id_for_file(session: &Session, file_key: &str) -> (r: String)
    requires
        session.wf(),
    ensures
        r@ == transfer_of(session@, file_key@),
{
    match session.files.get(file_key) {
        Some(e) => e.transfer_id.clone(),
        None => String::new(),
    }
}

/// The reports on the session and on one transfer.
pub fn aggregate_snapshot(session: &Session, transfer_id: &str) -> (r: (AggregateProgress, AggregateProgress))
    requires
        session.wf(),
        reportable(session@, transfer_id@),
    ensures
        r.0 == session@.aggregate(None),
        r.1 == session@.aggregate(Some(transfer_id@)),
{
    (session.get_aggregate_progress(None), session.get_aggregate_progress(Some(transfer_id)))
}

/// The transfer of a file, and the reports on the session and on that transfer.
pub fn aggregate_snapshot_for_file(session: &Session, file_key: &str) -> (r: (String, AggregateProgress, AggregateProgress))
    requires
        session.wf(),
        reportable(session@, transfer_of(session@, file_key@)),
    ensures
        r.0@ == transfer_of(session@, file_key@),
        r.1 == session@.aggregate(None),
        r.2 == session@.aggregate(Some(transfer_of(session@, file_key@))),
{
    let transfer_id = transfer_id_for_file(session, file_key);
    let (session_agg, transfer_agg) = aggregate_snapshot(session, transfer_id.as_str());
    (transfer_id, session_agg, transfer_agg)
}

/// Shows a tracked file in another state.
pub fn set_status(
    manager: &mut ProgressManager,
    session: &Session,
    file_key: &str,
    status: UploadState,
) -> (r: Option<ProgressNotice>)
    requires
        old(manager).wf(),
        session.wf(),
        reportable(session@, transfer_of(session@, file_key@)),
    ensures
        final(manager).wf(),
        final(manager)@ == status_set(old(manager)@, session@, file_key@, status).0,
        notice_opt(r) == status_set(old(manager)@, session@, file_key@, status).1,
{
    let (_, session_agg, transfer_agg) = aggregate_snapshot_for_file(session, file_key);
    manager.set_status(file_key, status, session_agg, transfer_agg)
}

/// Shows tracked files in other states, one after the other.
fn set_statuses(
    manager: &mut ProgressManager,
    session: &Session,
    changes: &Vec<(String, UploadState)>,
) -> (r: Vec<ProgressNotice>)
    requires
        old(manager).wf(),
        session.wf(),
        all_reportable(session@),
    ensures
        final(manager).wf(),
        final(manager)@ == statuses_set(old(manager)@, session@, changes_of(changes@)).0,
        notices(r@) == statuses_set(old(manager)@, session@, changes_of(changes@)).1,
{
    let ghost all = changes_of(changes@);
    let mut r: Vec<ProgressNotice> = Vec::new();
    let mut i: usize = 0;
    assert(notices(r@) =~= statuses_set(manager@, session@, all.take(0)).1);
    while i < changes.len()
        invariant
            manager.wf(),
            session.wf(),
            all_reportable(session@),
            all == changes_of(changes@),
            i <= changes@.len(),
            manager@ == statuses_set(old(manager)@, session@, all.take(i as int)).0,
            notices(r@) == statuses_set(old(manager)@, session@, all.take(i as int)).1,
        decreases changes@.len() - i,
    {
        let ghost before = notices(r@);
        proof {
            assert(all.take(i + 1).drop_last() =~= all.take(i as int));
            assert(reportable(session@, transfer_of(session@, changes@[i as int].0@)));
        }
        if let Some(n) = set_status(manager, session, changes[i].0.as_str(), changes[i].1) {
            r.push(n);
            assert(notices(r@) =~= before.push(n@));
        }
        i += 1;
    }
    assert(all.take(all.len() as int) =~= all);
    r
}

/// The tracked files that the session has as paused, each to be shown as paused.
pub open spec fn paused_changes(
    m: Seq<(Seq<char>, UploadProgressView)>,
    s: SessionView,
) -> Seq<(Seq<char>, UploadState)> {
    m.map_values(|p: (Seq<char>, UploadProgressView)| p.0).filter(
        |k: Seq<char>| lookup(s.files, k) matches Some(f) && f.state == UploadState::Paused,
    ).map_values(|k: Seq<char>| (k, UploadState::Paused))
}

/// Pauses every file that runs, and shows the tracked ones among them as paused.
pub fn pause_all(manager: &mut ProgressManager, session: &mut Session) -> (r: (Vec<ProgressNotice>, StoreCommand))
    requires
        old(manager).wf(),
        old(session).wf(),
        all_reportable(old(session)@),
    ensures
        final(manager).wf(),
        final(session).wf(),
        final(session)@ == old(session)@.paused(),
        ({
            let after = statuses_set(
                old(manager)@,
                final(session)@,
                paused_changes(old(manager)@, final(session)@),
            );
            final(manager)@ == after.0 && notices(r.0@) == after.1
        }),
        r.1 == StoreCommand::Save,
{
    proof {
        lemma_reportable_kept(session@, |f: FileView| stopped(f));
    }
    let command = store::pause_all(session);
    let keys = manager.tracked_file_keys();
    let ghost all = texts(keys@);
    let ghost paused = |k: Seq<char>| lookup(session@.files, k) matches Some(f) && f.state == UploadState::Paused;
    let ghost shown = |k: Seq<char>| (k, UploadState::Paused);
    let mut changes: Vec<(String, UploadState)> = Vec::new();
    let mut i: usize = 0;
    proof {
        lemma_filter_none(all, paused);
        assert(changes_of(changes@) =~= all.take(0).filter(paused).map_values(shown));
    }
    while i < keys.len()
        invariant
            session.wf(),
            all == texts(keys@),
            paused == (|k: Seq<char>| lookup(session@.files, k) matches Some(f) && f.state == UploadState::Paused),
            shown == (|k: Seq<char>| (k, UploadState::Paused)),
            i <= keys@.len(),
            changes_of(changes@) == all.take(i as int).filter(paused).map_values(shown),
        decreases keys@.len() - i,
    {
        proof {
            lemma_filter_step(all, paused, i as int);
            assert(all[i as int] == keys@[i as int]@);
        }
        if let Some(e) = session.files.get(keys[i].as_str()) {
            if e.state == UploadState::Paused {
                let ghost before = changes_of(changes@);
                changes.push((keys[i].clone(), UploadState::Paused));
                assert(changes_of(changes@) =~= before.push((all[i as int], UploadState::Paused)));
                assert(changes_of(changes@) =~= all.take(i + 1).filter(paused).map_values(shown));
            }
        }
        i += 1;
    }
    proof {
        lemma_filter_none(all, paused);
    }
    (set_statuses(manager, session, &changes), command)
}

/// The files that `resume_all` restarts, with the states in which they are shown: a
/// paused file as running, a failed one as initialized.
pub open spec fn resumed_changes(s: SessionView) -> Seq<(Seq<char>, UploadState)> {
    s.files.filter(|p: (Seq<char>, FileView)| halted(p.1)).map_values(
        |p: (Seq<char>, FileView)|
            (
                p.1.file_key,
                if p.1.state == UploadState::Paused {
                    UploadState::Running
                } else {
                    UploadState::Initialized
                },
            ),
    )
}

/// The message when local files are missing.
pub open spec fn not_provided(missing: nat) -> Seq<char> {
    "Cannot resume: "@ + decimal(missing)
        + " file(s) not yet re-provided. Call uploadFile() for each missing file first."@
}

/// The refusal to resume while local files are missing; `None` where none is missing.
pub fn missing_files_error(session: &Session) -> (r: Option<String>)
    requires
        session.wf(),
    ensures
        match r {
            Some(e) => session@.files_needing_provision.len() > 0 && e@ == not_provided(
                session@.files_needing_provision.len(),
            ),
            None => session@.files_needing_provision.len() == 0,
        },
{
    let missing: usize = session.files_needing_provision.len();
    if missing > 0 {
        let mut e = "Cannot resume: ".to_string();
        e.append(decimal_text(missing as u64).as_str());
        e.append(" file(s) not yet re-provided. Call uploadFile() for each missing file first.");
        Some(e)
    } else {
        None
    }
}

/// The files that are paused or have failed, with the states in which they are shown
/// once they are restarted.
pub fn halted_files(session: &Session) -> (r: Vec<(String, UploadState)>)
    requires
        session.wf(),
    ensures
        changes_of(r@) == resumed_changes(session@),
{
    let ghost files = session@.files;
    let ghost stopped = |p: (Seq<char>, FileView)| halted(p.1);
    let ghost shown = |p: (Seq<char>, FileView)|
        (
            p.1.file_key,
            if p.1.state == UploadState::Paused {
                UploadState::Running
            } else {
                UploadState::Initialized
            },
        );
    let mut r: Vec<(String, UploadState)> = Vec::new();
    let mut i: usize = 0;
    proof {
        lemma_filter_none(files, stopped);
        assert(changes_of(r@) =~= files.take(0).filter(stopped).map_values(shown));
    }
    while i < session.files.len()
        invariant
            files == session@.files,
            stopped == (|p: (Seq<char>, FileView)| halted(p.1)),
            shown == (|p: (Seq<char>, FileView)|
                (
                    p.1.file_key,
                    if p.1.state == UploadState::Paused {
                        UploadState::Running
                    } else {
                        UploadState::Initialized
                    },
                )),
            i <= files.len(),
            changes_of(r@) == files.take(i as int).filter(stopped).map_values(shown),
        decreases files.len() - i,
    {
        let e = session.files.value_at(i);
        proof {
            lemma_filter_step(files, stopped, i as int);
            assert(e@ == files[i as int].1);
        }
        if e.state == UploadState::Paused || e.state == UploadState::Failed {
            let status = if e.state == UploadState::Paused {
                UploadState::Running
            } else {
                UploadState::Initialized
            };
            let ghost before = changes_of(r@);
            r.push((e.file_key.clone(), status));
            assert(changes_of(r@) =~= before.push(shown(files[i as int])));
            assert(changes_of(r@) =~= files.take(i + 1).filter(stopped).map_values(shown));
        }
        i += 1;
    }
    proof {
        lemma_filter_none(files, stopped);
    }
    r
}

/// Restarts every file that is paused or has failed, and shows the tracked ones among
/// them at once: a paused file as running, since its upload may still be going on, a
/// failed one as initialized. Refused while any file lacks its local file.
pub fn resume_all(manager: &mut ProgressManager, session: &mut Session) -> (r: Result<(Vec<ProgressNotice>, StoreCommand), String>)
    requires
        old(manager).wf(),
        old(session).wf(),
        old(session)@.files_needing_provision.len() == 0 ==> all_reportable(old(session)@),
    ensures
        final(manager).wf(),
        final(session).wf(),
        if old(session)@.files_needing_provision.len() > 0 {
            &&& r matches Err(e)
            &&& e@ == not_provided(old(session)@.files_needing_provision.len())
            &&& final(session)@ == old(session)@
            &&& final(manager)@ == old(manager)@
        } else {
            let after = statuses_set(
                old(manager)@,
                final(session)@,
                resumed_changes(old(session)@),
            );
            &&& r matches Ok(done)
            &&& final(session)@ == all_restarted(old(session)@)
            &&& final(manager)@ == after.0
            &&& notices(done.0@) == after.1
            &&& done.1 == StoreCommand::Save
        },
{
    if let Some(e) = missing_files_error(session) {
        return Err(e);
    }
    let changes = halted_files(session);
    proof {
        lemma_reportable_kept(session@, |f: FileView| restarted(f));
    }
    let command = store::resume_all(session);
    Ok((set_statuses(manager, session, &changes), command))
}

/// Moves a file to another state.
pub fn mark_state_persist(session: &mut Session, file_key: &str, state: UploadState) -> (r: StoreCommand)
    requires
        old(session).wf(),
    ensures
        final(session).wf(),
        final(session)@ == old(session)@.marked(file_key@, state),
        r == StoreCommand::Save,
{
    session.mark_file_state(file_key, state);
    store::persist_session()
}

/// The entry of a file that begins to run, as the session knows the file.
pub open spec fn fresh_entry(
    s: SessionView,
    key: Seq<char>,
    total_bytes: u64,
    total_parts: u32,
    completed_bytes: u64,
    completed_parts: u32,
) -> UploadProgressView {
    let f = lookup(s.files, key);
    UploadProgressView {
        file_key: key,
        file_name: if f is Some { f->0.file_name } else { Seq::empty() },
        file_hash: if f is Some { f->0.file_hash } else { Seq::empty() },
        transfer_id: transfer_of(s, key),
        total_bytes,
        total_parts,
        completed_bytes,
        in_flight: Map::empty(),
        completed_parts,
        status: UploadState::Running,
    }
}

/// A notice with the sums as the session has them.
pub open spec fn plain_notice(s: SessionView, file: FileProgressView, t: Seq<char>) -> NoticeView {
    NoticeView { file, session: s.aggregate(None), transfer: s.aggregate(Some(t)) }
}

/// Begins to track a file. Where it has been paused in the meantime, it is shown as
/// paused at once.
pub fn init_progress(
    manager: &mut ProgressManager,
    session: &Session,
    file_key: &str,
    total_bytes: u64,
    total_parts: u32,
    committed_bytes: u64,
    completed_parts: u32,
) -> (r: Vec<ProgressNotice>)
    requires
        old(manager).wf(),
        session.wf(),
        reportable(session@, transfer_of(session@, file_key@)),
    ensures
        final(manager).wf(),
        ({
            let s = session@;
            let e = fresh_entry(s, file_key@, total_bytes, total_parts, committed_bytes, completed_parts);
            let begun = put(old(manager)@, file_key@, e);
            let first = plain_notice(s, e.report(), transfer_of(s, file_key@));
            if lookup(s.files, file_key@) matches Some(f) && f.state == UploadState::Paused {
                let after = status_set(begun, s, file_key@, UploadState::Paused);
                final(manager)@ == after.0 && notices(r@) == seq![first, after.1->0]
            } else {
                final(manager)@ == begun && notices(r@) == seq![first]
            }
        }),
{
    let (transfer_id, session_agg, transfer_agg) = aggregate_snapshot_for_file(session, file_key);
    let (file_name, file_hash, already_paused) = match session.files.get(file_key) {
        Some(e) => (e.file_name.clone(), e.file_hash.clone(), e.state == UploadState::Paused),
        None => (String::new(), String::new(), false),
    };
    let ghost before = manager@;
    let ghost e = fresh_entry(session@, file_key@, total_bytes, total_parts, committed_bytes, completed_parts);
    let first = manager.init(
        file_key.to_string(),
        file_name,
        file_hash,
        transfer_id,
        total_bytes,
        total_parts,
        committed_bytes,
        completed_parts,
        session_agg,
        transfer_agg,
    );
    let mut r: Vec<ProgressNotice> = Vec::new();
    proof {
        lemma_put(before, file_key@, e, file_key@);
    }
    r.push(first);
    assert(notices(r@) =~= seq![first@]);
    if already_paused {
        if let Some(n) = set_status(manager, session, file_key, UploadState::Paused) {
            r.push(n);
            assert(notices(r@) =~= seq![first@, n@]);
        }
    }
    r
}

/// Notes how much of a part has been sent so far.
pub fn update_in_flight(
    manager: &mut ProgressManager,
    session: &Session,
    file_key: &str,
    part_number: u32,
    bytes_uploaded: u64,
) -> (r: Option<ProgressNotice>)
    requires
        old(manager).wf(),
        session.wf(),
        reportable(session@, transfer_of(session@, file_key@)),
        lookup(old(manager)@, file_key@) matches Some(e) ==> e.with_flight(part_number, bytes_uploaded).fits(),
    ensures
        final(manager).wf(),
        match lookup(old(manager)@, file_key@) {
            Some(e) => {
                &&& final(manager)@ == put(old(manager)@, file_key@, e.with_flight(part_number, bytes_uploaded))
                &&& notice_opt(r) == (if e.status == UploadState::Running {
                    Some(
                        live_notice(
                            final(manager)@,
                            file_key@,
                            session@.aggregate(None),
                            session@.aggregate(Some(transfer_of(session@, file_key@))),
                        ),
                    )
                } else {
                    None
                })
            },
            None => final(manager)@ == old(manager)@ && r is None,
        },
{
    let (_, session_agg, transfer_agg) = aggregate_snapshot_for_file(session, file_key);
    manager.update_in_flight(file_key, part_number, bytes_uploaded, session_agg, transfer_agg)
}

/// The session with part `part_number` of the file under `key` confirmed.
pub open spec fn with_chunk(s: SessionView, key: Seq<char>, part_number: u32, etag: Seq<char>, size: u64) -> SessionView {
    s.with_file(key, |f: FileView| chunk_completed(f, part_number, etag, size))
}

/// Notes that a part is stored under `etag`.
pub fn complete_chunk(
    manager: &mut ProgressManager,
    session: &mut Session,
    file_key: &str,
    part_number: u32,
    etag: String,
    chunk_size: u64,
) -> (r: (Option<ProgressNotice>, StoreCommand))
    requires
        old(manager).wf(),
        old(session).wf(),
        chunk_addable(old(session)@, file_key@, part_number, chunk_size),
        lookup(old(manager)@, file_key@) matches Some(e) ==> can_complete(e, part_number, chunk_size),
        ({
            let after = with_chunk(old(session)@, file_key@, part_number, etag@, chunk_size);
            reportable(after, transfer_of(after, file_key@))
        }),
    ensures
        final(manager).wf(),
        final(session).wf(),
        final(session)@ == with_chunk(old(session)@, file_key@, part_number, etag@, chunk_size),
        match lookup(old(manager)@, file_key@) {
            Some(e) => {
                &&& final(manager)@ == put(old(manager)@, file_key@, e.with_part(part_number, chunk_size))
                &&& notice_opt(r.0) == Some(
                    live_notice(
                        final(manager)@,
                        file_key@,
                        final(session)@.aggregate(None),
                        final(session)@.aggregate(Some(transfer_of(final(session)@, file_key@))),
                    ),
                )
            },
            None => final(manager)@ == old(manager)@ && r.0 is None,
        },
        r.1 == StoreCommand::Save,
{
    session.complete_chunk(file_key, part_number, etag, chunk_size);
    let (_, session_agg, transfer_agg) = aggregate_snapshot_for_file(session, file_key);
    let notice = manager.complete_chunk(file_key, part_number, chunk_size, session_agg, transfer_agg);
    (notice, store::persist_session())
}

/// The notice that a file was cancelled. To be made once the file is out of the session
/// and no longer tracked, so that the sums are those without it.
pub fn notify_cancelled_file(
    session: &Session,
    file_key: &str,
    file_name: &str,
    file_hash: &str,
    transfer_id: &str,
    total_bytes: u64,
    uploaded_bytes: u64,
) -> (r: ProgressNotice)
    requires
        session.wf(),
        reportable(session@, transfer_id@),
    ensures
        r@ == plain_notice(
            session@,
            cancelled_report(file_key@, file_name@, file_hash@, transfer_id@, total_bytes, uploaded_bytes),
            transfer_id@,
        ),
{
    let (session_agg, transfer_agg) = aggregate_snapshot(session, transfer_id);
    ProgressNotice {
        file: FileProgress {
            file_key: Some(file_key.to_string()),
            file_name: file_name.to_string(),
            file_hash: file_hash.to_string(),
            transfer_id: transfer_id.to_string(),
            total_bytes,
            uploaded_bytes,
            completed_parts: 0,
            total_parts: 0,
            percentage: Percentage::of(uploaded_bytes, total_bytes),
            state: UploadState::Cancelled,
        },
        session: session_agg,
        transfer: transfer_agg,
    }
}

/// The report on a cancelled file.
pub open spec fn cancelled_report(
    file_key: Seq<char>,
    file_name: Seq<char>,
    file_hash: Seq<char>,
    transfer_id: Seq<char>,
    total_bytes: u64,
    uploaded_bytes: u64,
) -> FileProgressView {
    FileProgressView {
        file_key: Some(file_key),
        file_name,
        file_hash,
        transfer_id,
        total_bytes,
        uploaded_bytes,
        completed_parts: 0,
        total_parts: 0,
        percentage: percentage_of(uploaded_bytes, total_bytes),
        state: UploadState::Cancelled,
    }
}

/// The notice on a file that was just noted as pending: it has not started. None where no
/// file with this hash is pending.
pub fn notify_file_pending(session: &Session, file_hash: &str) -> (r: Option<ProgressNotice>)
    requires
        session.wf(),
        lookup(session@.pending_files, file_hash@) matches Some(p) ==> reportable(session@, p.transfer_id),
    ensures
        notice_opt(r) == (match lookup(session@.pending_files, file_hash@) {
            Some(p) => Some(plain_notice(session@, pending_report(p), p.transfer_id)),
            None => None,
        }),
{
    match session.pending_files.get(file_hash) {
        Some(p) => {
            let (session_agg, transfer_agg) = aggregate_snapshot(session, p.transfer_id.as_str());
            Some(ProgressNotice { file: report_pending(p), session: session_agg, transfer: transfer_agg })
        },
        None => None,
    }
}

/// The entry of a file that is registered but does not run yet: completed, or paused
/// where some of it is stored, or initialized.
pub open spec fn registered_entry(s: SessionView, key: Seq<char>) -> UploadProgressView {
    match lookup(s.files, key) {
        Some(f) => UploadProgressView {
            status: if f.state == UploadState::Completed {
                UploadState::Completed
            } else if f.uploaded_bytes > 0 {
                UploadState::Paused
            } else {
                UploadState::Initialized
            },
            ..fresh_entry(s, key, f.total_bytes, 0, f.uploaded_bytes, f.completed_parts)
        },
        None => UploadProgressView {
            status: UploadState::Initialized,
            ..fresh_entry(s, key, 0, 0, 0, 0)
        },
    }
}

/// Begins to track a file that is registered but does not run yet.
pub fn notify_file_registered(manager: &mut ProgressManager, session: &Session, file_key: &str) -> (r: ProgressNotice)
    requires
        old(manager).wf(),
        session.wf(),
        reportable(session@, transfer_of(session@, file_key@)),
    ensures
        final(manager).wf(),
        final(manager)@ == put(old(manager)@, file_key@, registered_entry(session@, file_key@)),
        r@ == plain_notice(
            session@,
            registered_entry(session@, file_key@).report(),
            transfer_of(session@, file_key@),
        ),
{
    let (transfer_id, session_agg, transfer_agg) = aggregate_snapshot_for_file(session, file_key);
    match session.files.get(file_key) {
        Some(e) => {
            let state = if e.state == UploadState::Completed {
                UploadState::Completed
            } else if e.uploaded_bytes > 0 {
                UploadState::Paused
            } else {
                UploadState::Initialized
            };
            manager.register_not_started(
                file_key.to_string(),
                e.file_name.clone(),
                e.file_hash.clone(),
                transfer_id,
                e.total_bytes,
                e.uploaded_bytes,
                e.completed_parts,
                state,
                session_agg,
                transfer_agg,
            )
        },
        None => manager.register_not_started(
            file_key.to_string(),
            String::new(),
            String::new(),
            transfer_id,
            0,
            0,
            0,
            UploadState::Initialized,
            session_agg,
            transfer_agg,
        ),
    }
}

} // verus!
