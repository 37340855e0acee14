//! Operations on the session that end in a command for the session store.

use crate::session::{bumped, FileView, Session, SessionView};
use crate::state::UploadState;
use crate::text::same_text;
use vstd::prelude::*;
use vstd::string::*;

verus! {

/// What the store is to do once the session has changed.
#[derive(Debug, PartialEq, Eq)]
pub enum StoreCommand {
    /// Write the session.
    Save,
    /// Delete what is stored.
    Clear,
    /// Keep the session at this path from now on.
    SetPath(String),
}

/// `f` with its run taken up again: superseded runs end, and it waits for upload.
pub open spec fn restarted(f: FileView) -> FileView {
    if halted(f) {
        FileView { state: UploadState::NotStarted, ..bumped(f) }
    } else {
        f
    }
}

/// The file is paused or has failed.
pub open spec fn halted(f: FileView) -> bool {
    f.state == UploadState::Paused || f.state == UploadState::Failed
}

/// Some file is paused or has failed.
pub open spec fn some_halted(s: SessionView) -> bool {
    exists|i: int| 0 <= i < s.files.len() && halted((#[trigger] s.files[i]).1)
}

/// The session with every file restarted that is paused or has failed.
pub open spec fn all_restarted(s: SessionView) -> SessionView {
    if some_halted(s) {
        s.with_files(|f: FileView| restarted(f)).recomputed()
    } else {
        s
    }
}

/// Stores the session as it is.
pub fn persist_session() -> (r: StoreCommand)
    ensures
        r == StoreCommand::Save,
{
    StoreCommand::Save
}

/// Removes a file.
pub fn cancel_file(session: &mut Session, key: &str) -> (r: StoreCommand)
    requires
        old(session).wf(),
    ensures
        final(session).wf(),
        final(session)@ == old(session)@.without_file(key@),
        r == StoreCommand::Save,
{
    session.cancel_file(key);
    persist_session()
}

/// Removes the file with this hash, pending or registered.
pub fn cancel_file_by_hash(session: &mut Session, hash: &str) -> (r: StoreCommand)
    requires
        old(session).wf(),
    ensures
        final(session).wf(),
        final(session)@ == old(session)@.without_hash(hash@),
        r == StoreCommand::Save,
{
    session.cancel_file_by_hash(hash);
    persist_session()
}

/// Removes a transfer with all its files.
pub fn cancel_transfer(session: &mut Session, tid: &str) -> (r: StoreCommand)
    requires
        old(session).wf(),
    ensures
        final(session).wf(),
        final(session)@ == old(session)@.without_transfer(tid@),
        r == StoreCommand::Save,
{
    session.cancel_transfer(tid);
    persist_session()
}

/// Pauses every file that runs.
pub fn pause_all(session: &mut Session) -> (r: StoreCommand)
    requires
        old(session).wf(),
    ensures
        final(session).wf(),
        final(session)@ == old(session)@.paused(),
        r == StoreCommand::Save,
{
    session.pause_all();
    persist_session()
}

/// Restarts every file that is paused or has failed.
pub fn resume_all(session: &mut Session) -> (r: StoreCommand)
    requires
        old(session).wf(),
    ensures
        final(session).wf(),
        final(session)@ == all_restarted(old(session)@),
        r == StoreCommand::Save,
{
    let ghost before = session@;
    let n: usize = session.files.len();
    let mut any = false;
    let mut i: usize = 0;
    while i < n
        invariant
            old(session).wf(),
            before == old(session)@,
            n == before.files.len(),
            session@.files.len() == n,
            i <= n,
            session.files_needing_provision.wf(),
            session@ == (SessionView { files: session@.files, ..before }),
            any == exists|j: int| 0 <= j < i && halted((#[trigger] before.files[j]).1),
            forall|j: int| 0 <= j < i ==> #[trigger] session@.files[j] == (before.files[j].0, restarted(before.files[j].1)),
            forall|j: int| i <= j < n ==> #[trigger] session@.files[j] == before.files[j],
        decreases n - i,
    {
        let f = session.files.value_at_mut(i);
        assert((*f)@ == before.files[i as int].1);
        if f.state == UploadState::Paused || f.state == UploadState::Failed {
            f.run_version = f.run_version.saturating_add(1);
            f.state = UploadState::NotStarted;
            any = true;
        }
        i += 1;
    }
    proof {
        let all = before.with_files(|f: FileView| restarted(f));
        assert(session@.files =~= all.files);
        if !any {
            assert forall|j: int| 0 <= j < n implies all.files[j] == before.files[j] by {
                assert(!halted(before.files[j].1));
            }
            assert(session@.files =~= before.files);
        }
    }
    if any {
        session.recompute_global_state();
    }
    persist_session()
}

/// The version of the run that counts for a file.
pub fn file_run_version(session: &Session, file_key: &str) -> (r: Option<u64>)
    requires
        session.wf(),
    ensures
        r == session@.run_of(file_key@),
{
    session.run_version(file_key)
}

/// Whether the run with this version still counts for the file.
pub fn is_current_run(session: &Session, file_key: &str, run_version: u64) -> (r: bool)
    requires
        session.wf(),
    ensures
        r == (session@.run_of(file_key@) == Some(run_version)),
{
    match file_run_version(session, file_key) {
        Some(v) => v == run_version,
        None => false,
    }
}

/// Empties the session and the store.
pub fn clear_session(session: &mut Session) -> (r: StoreCommand)
    ensures
        final(session).wf(),
        final(session)@ == old(session)@.emptied(),
        r == StoreCommand::Clear,
{
    session.cancel_all();
    StoreCommand::Clear
}

/// Moves the store to another path.
pub fn set_storage_path(path: &str) -> (r: StoreCommand)
    ensures
        r matches StoreCommand::SetPath(p) && p@ == path@,
{
    StoreCommand::SetPath(path.to_string())
}

/// The file in which the session is kept, in directory `base` where one is set.
pub fn store_file(base: &str) -> (r: String)
    ensures
        r@ == (if base@.len() == 0 {
            "s3_uploader.redb"@
        } else {
            base@ + "/s3_uploader.redb"@
        }),
{
    proof {
        reveal_strlit("");
    }
    if same_text(base, "") {
        return "s3_uploader.redb".to_string();
    }
    assert(base@.len() == 0 ==> base@ =~= ""@);
    let mut s = base.to_string();
    s.append("/s3_uploader.redb");
    s
}

} // verus!
