//! The course of one upload, from its first step to its outcome. Reading the file and
//! talking to the server happen outside, between the steps.

use crate::arith::{low32, low_bits};
use crate::chunk::{stored_parts, ChunkUploadResult};
use crate::ledger::{incomplete, incomplete_error};
use crate::parts::{bytes_in, parts_needed};
use crate::progress::{notice_opt, ProgressManager, ProgressNotice};
use crate::report::lemma_countable_kept;
use crate::runtime::{
    fresh_entry, init_progress, mark_state_persist, notices, plain_notice, reportable, set_status,
    status_set, transfer_of,
};
use crate::session::{
    etags, keyed, lemma_with_file, lemma_with_files_lookup, FileView, Session, SessionView,
};
use crate::state::{GlobalUploaderState, UploadState};
use crate::store::{clear_session, StoreCommand};
use crate::string_map::{holds, lemma_put, lookup, put, unique};
use crate::text::{contains_text, occurs_in};
use crate::upload::{
    clone_etags, combine_upload_results, dividable, done_numbers, missing_numbers, prepare_upload,
    prepared, PreparedUpload,
};
use vstd::prelude::*;

verus! {

/// How an upload has ended.
#[derive(Debug)]
pub enum UploadOutcome {
    Completed,
    Paused,
    Failed(String),
}

/// What there is to do once the size of the file is known.
#[derive(Debug)]
pub enum UploadPlan {
    /// Nothing; the upload has failed.
    Fail(String),
    /// All parts are stored; the upload is to be completed.
    Complete { upload_id: String, results: Vec<ChunkUploadResult> },
    /// The remaining parts are to be uploaded.
    Upload { prepared: PreparedUpload, notices: Vec<ProgressNotice> },
}

/// What there is to do once the parts were uploaded, or were not.
#[derive(Debug)]
pub enum PartsStep {
    /// Nothing; the upload has ended.
    End(UploadOutcome),
    /// The upload is to be completed.
    Complete(Vec<ChunkUploadResult>),
}

/// What follows from the outcome of an upload.
#[derive(Debug)]
pub struct UploadEnd {
    pub notice: Option<ProgressNotice>,
    /// What the store is to do, in this order.
    pub commands: Vec<StoreCommand>,
    /// Every file of the session was completed, and the session has been emptied.
    pub session_completed: bool,
}

/// The session with the bytes stored of the file under `key` noted, at most its size.
pub open spec fn with_stored(s: SessionView, key: Seq<char>, bytes: u64) -> SessionView {
    s.with_file(
        key,
        |f: FileView|
            FileView {
                uploaded_bytes: if bytes <= f.total_bytes {
                    bytes
                } else {
                    f.total_bytes
                },
                ..f
            },
    )
}

/// The bytes of the confirmed parts of `f`, a file of `size` bytes.
pub open spec fn committed(f: FileView, size: u64) -> u64 {
    bytes_in(
        done_numbers(f.completed_chunk_etags),
        (f.part_size->0) as int,
        size as int,
    ) as u64
}

/// The parts of `f`, a file of `size` bytes, that are still to be uploaded.
pub open spec fn left_over(f: FileView, size: u64) -> Seq<u32> {
    missing_numbers(
        low32(parts_needed(size as nat, (f.part_size->0) as nat)) as nat,
        done_numbers(f.completed_chunk_etags),
    )
}

/// The file under `key` waits: a resume has reset it.
pub open spec fn was_reset(s: SessionView, key: Seq<char>) -> bool {
    lookup(s.files, key) matches Some(f) && f.state == UploadState::NotStarted
}

/// The first step: the file runs.
pub fn begin_upload(session: &mut Session, file_key: &str) -> (r: StoreCommand)
    requires
        old(session).wf(),
    ensures
        final(session).wf(),
        final(session)@ == old(session)@.marked(file_key@, UploadState::Running),
        r == StoreCommand::Save,
{
    mark_state_persist(session, file_key, UploadState::Running)
}

/// The second step. `total_bytes` is the size of the file, or the error on finding it.
pub fn plan_upload(
    manager: &mut ProgressManager,
    session: &mut Session,
    file_key: &str,
    total_bytes: Result<u64, String>,
) -> (r: UploadPlan)
    requires
        old(manager).wf(),
        old(session).wf(),
        total_bytes is Ok ==> (lookup(old(session)@.files, file_key@) matches Some(f) ==> f.upload_id is Some
            ==> dividable(f)),
        lookup(old(session)@.files, file_key@) matches Some(f) ==> total_bytes matches Ok(size) ==> (
        f.upload_id is Some && f.part_size is Some && left_over(f, size).len() > 0 ==> {
            let after = with_stored(old(session)@, file_key@, committed(f, size));
            reportable(after, transfer_of(after, file_key@))
        }),
    ensures
        final(manager).wf(),
        final(session).wf(),
        match r {
            UploadPlan::Fail(e) => {
                &&& final(session)@ == old(session)@
                &&& final(manager)@ == old(manager)@
                &&& match total_bytes {
                    Err(cause) => e@ == cause@,
                    Ok(_) => match lookup(old(session)@.files, file_key@) {
                        None => e@ == "File entry not found for "@ + file_key@,
                        Some(f) => if f.upload_id is None {
                            e@ == "Missing upload_id for "@ + file_key@
                        } else {
                            f.part_size is None && e@ == "Missing part_size for "@ + file_key@
                        },
                    },
                }
            },
            UploadPlan::Complete { upload_id, results } => {
                &&& total_bytes matches Ok(size)
                &&& lookup(old(session)@.files, file_key@) matches Some(f)
                &&& f.upload_id == Some(upload_id@)
                &&& f.part_size is Some
                &&& left_over(f, size).len() == 0
                &&& final(session)@ == with_stored(old(session)@, file_key@, committed(f, size))
                &&& stored_parts(results@) == f.completed_chunk_etags
                &&& final(manager)@ == old(manager)@
            },
            UploadPlan::Upload { prepared: p, notices: n } => {
                &&& total_bytes matches Ok(size)
                &&& lookup(old(session)@.files, file_key@) matches Some(f)
                &&& prepared(p, f, size)
                &&& left_over(f, size).len() > 0
                &&& final(session)@ == with_stored(old(session)@, file_key@, committed(f, size))
                &&& ({
                    let s = final(session)@;
                    let e = fresh_entry(
                        s,
                        file_key@,
                        size,
                        p.total_parts,
                        p.committed_bytes,
                        low32(p.done_parts@.len()),
                    );
                    let begun = put(old(manager)@, file_key@, e);
                    let first = plain_notice(s, e.report(), transfer_of(s, file_key@));
                    if f.state == UploadState::Paused {
                        let after = status_set(begun, s, file_key@, UploadState::Paused);
                        final(manager)@ == after.0 && notices(n@) == seq![first, after.1->0]
                    } else {
                        final(manager)@ == begun && notices(n@) == seq![first]
                    }
                })
            },
        },
{
    broadcast use vstd::std_specs::hash::group_hash_axioms;

    let size: u64 = match total_bytes {
        Ok(b) => b,
        Err(e) => {
            return UploadPlan::Fail(e);
        },
    };
    let p = match prepare_upload(session, file_key, size) {
        Ok(p) => p,
        Err(e) => {
            return UploadPlan::Fail(e);
        },
    };
    let ghost before = session@;
    let ghost f = lookup(session@.files, file_key@)->0;
    session.set_file_uploaded_bytes(file_key, p.committed_bytes);
    if p.remaining_parts.len() == 0 {
        let results = combine_upload_results(clone_etags(&p.completed_etags), Vec::new());
        assert(stored_parts(results@) =~= f.completed_chunk_etags);
        return UploadPlan::Complete { upload_id: p.upload_id.clone(), results };
    }
    proof {
        lemma_stored_lookup(before, file_key@, p.committed_bytes);
    }
    let n = init_progress(
        manager,
        session,
        file_key,
        size,
        p.total_parts,
        p.committed_bytes,
        low_bits(p.done_parts.len() as u64),
    );
    UploadPlan::Upload { prepared: p, notices: n }
}

/// Noting the bytes stored leaves the state of the file.
proof fn lemma_stored_lookup(s: SessionView, key: Seq<char>, bytes: u64)
    requires
        unique(s.files),
    ensures
        lookup(s.files, key) matches Some(f) ==> lookup(with_stored(s, key, bytes).files, key) matches Some(g)
            && g.state == f.state,
{
    if holds(s.files, key) {
        let f = lookup(s.files, key)->0;
        let g = FileView {
            uploaded_bytes: if bytes <= f.total_bytes {
                bytes
            } else {
                f.total_bytes
            },
            ..f
        };
        lemma_put(s.files, key, g, key);
    }
}

/// The third step: the parts were uploaded, or `result` tells why not. `paused` and
/// `current` are what holds now. The upload is completed only with a result for every part
/// that was left.
pub fn after_parts(
    session: &Session,
    file_key: &str,
    prepared: &PreparedUpload,
    result: Result<Vec<ChunkUploadResult>, String>,
    paused: bool,
    current: bool,
) -> (r: PartsStep)
    requires
        session.wf(),
    ensures
        match result {
            Ok(new) => if !current {
                r matches PartsStep::End(o) && o is Paused
            } else if new@.len() != prepared.remaining_parts@.len() {
                r matches PartsStep::End(UploadOutcome::Failed(m)) && m@ == incomplete(
                    new@.len(),
                    prepared.remaining_parts@.len(),
                )
            } else {
                r matches PartsStep::Complete(v) && stored_parts(v@) == etags(prepared.completed_etags@)
                    + stored_parts(new@)
            },
            Err(e) => if paused || occurs_in(e@, "paused"@) || occurs_in(e@, "stale run"@)
                || was_reset(session@, file_key@) {
                r matches PartsStep::End(o) && o is Paused
            } else {
                r matches PartsStep::End(UploadOutcome::Failed(m)) && m@ == e@
            },
        },
{
    match result {
        Ok(new) => {
            if !current {
                return PartsStep::End(UploadOutcome::Paused);
            }
            let wanted: usize = prepared.remaining_parts.len();
            if new.len() != wanted {
                return PartsStep::End(UploadOutcome::Failed(incomplete_error(new.len(), wanted)));
            }
            PartsStep::Complete(combine_upload_results(clone_etags(&prepared.completed_etags), new))
        },
        Err(e) => {
            if paused || contains_text(e.as_str(), "paused") || contains_text(e.as_str(), "stale run") {
                return PartsStep::End(UploadOutcome::Paused);
            }
            if is_reset(session, file_key) {
                return PartsStep::End(UploadOutcome::Paused);
            }
            PartsStep::End(UploadOutcome::Failed(e))
        },
    }
}

fn is_reset(session: &Session, file_key: &str) -> (r: bool)
    requires
        session.wf(),
    ensures
        r == was_reset(session@, file_key@),
{
    match session.files.get(file_key) {
        Some(e) => e.state == UploadState::NotStarted,
        None => false,
    }
}

/// The fourth step: the upload was completed, or `result` tells why not.
pub fn after_complete(result: Result<(), String>) -> (r: UploadOutcome)
    ensures
        match result {
            Ok(_) => r is Completed,
            Err(e) => if occurs_in(e@, "stale run"@) {
                r is Paused
            } else {
                r matches UploadOutcome::Failed(m) && m@ == e@
            },
        },
{
    match result {
        Ok(_) => UploadOutcome::Completed,
        Err(e) => {
            if contains_text(e.as_str(), "stale run") {
                UploadOutcome::Paused
            } else {
                UploadOutcome::Failed(e)
            }
        },
    }
}

/// A change of state changes no sum and no count.
proof fn lemma_marked_reportable(s: SessionView, key: Seq<char>, state: UploadState)
    requires
        unique(s.files),
        keyed(s.files),
        reportable(s, transfer_of(s, key)),
    ensures
        reportable(s.marked(key, state), transfer_of(s.marked(key, state), key)),
        transfer_of(s.marked(key, state), key) == transfer_of(s, key),
{
    let h = |f: FileView| FileView { state, ..f };
    let g = |f: FileView| if f.file_key == key { h(f) } else { f };
    lemma_with_file(s, key, h);
    lemma_with_files_lookup(s, g, key);
    lemma_countable_kept(s, g, None);
    lemma_countable_kept(s, g, Some(transfer_of(s, key)));
}

/// The last step: the session, the live progress and the store learn of the outcome.
pub fn end_upload(
    manager: &mut ProgressManager,
    session: &mut Session,
    file_key: &str,
    outcome: &UploadOutcome,
) -> (r: UploadEnd)
    requires
        old(manager).wf(),
        old(session).wf(),
        reportable(old(session)@, transfer_of(old(session)@, file_key@)),
    ensures
        final(manager).wf(),
        final(session).wf(),
        match outcome {
            UploadOutcome::Completed => {
                let done = old(session)@.marked(file_key@, UploadState::Completed);
                let shown = status_set(old(manager)@, done, file_key@, UploadState::Completed);
                &&& final(manager)@ == shown.0
                &&& notice_opt(r.notice) == shown.1
                &&& if done.global_state == GlobalUploaderState::Completed {
                    &&& final(session)@ == done.emptied()
                    &&& r.commands@ == seq![StoreCommand::Save, StoreCommand::Clear]
                    &&& r.session_completed
                } else {
                    &&& final(session)@ == done
                    &&& r.commands@ == seq![StoreCommand::Save]
                    &&& !r.session_completed
                }
            },
            UploadOutcome::Paused => {
                &&& final(manager)@ == old(manager)@
                &&& r.notice is None
                &&& !r.session_completed
                &&& if was_reset(old(session)@, file_key@) {
                    &&& final(session)@ == old(session)@
                    &&& r.commands@.len() == 0
                } else {
                    &&& final(session)@ == old(session)@.marked(file_key@, UploadState::Paused)
                    &&& r.commands@ == seq![StoreCommand::Save]
                }
            },
            UploadOutcome::Failed(_) => {
                let failed = old(session)@.marked(file_key@, UploadState::Failed);
                let shown = status_set(old(manager)@, failed, file_key@, UploadState::Failed);
                &&& final(session)@ == failed
                &&& final(manager)@ == shown.0
                &&& notice_opt(r.notice) == shown.1
                &&& r.commands@ == seq![StoreCommand::Save]
                &&& !r.session_completed
            },
        },
{
    let mut commands: Vec<StoreCommand> = Vec::new();
    match outcome {
        UploadOutcome::Completed => {
            proof {
                lemma_marked_reportable(session@, file_key@, UploadState::Completed);
            }
            commands.push(mark_state_persist(session, file_key, UploadState::Completed));
            let notice = set_status(manager, session, file_key, UploadState::Completed);
            if session.global_state == GlobalUploaderState::Completed {
                commands.push(clear_session(session));
                assert(commands@ =~= seq![StoreCommand::Save, StoreCommand::Clear]);
                return UploadEnd { notice, commands, session_completed: true };
            }
            assert(commands@ =~= seq![StoreCommand::Save]);
            UploadEnd { notice, commands, session_completed: false }
        },
        UploadOutcome::Paused => {
            if !is_reset(session, file_key) {
                commands.push(mark_state_persist(session, file_key, UploadState::Paused));
                assert(commands@ =~= seq![StoreCommand::Save]);
            }
            UploadEnd { notice: None, commands, session_completed: false }
        },
        UploadOutcome::Failed(_) => {
            proof {
                lemma_marked_reportable(session@, file_key@, UploadState::Failed);
            }
            commands.push(mark_state_persist(session, file_key, UploadState::Failed));
            let notice = set_status(manager, session, file_key, UploadState::Failed);
            assert(commands@ =~= seq![StoreCommand::Save]);
            UploadEnd { notice, commands, session_completed: false }
        },
    }
}

} // verus!
