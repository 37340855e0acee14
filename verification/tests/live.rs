use bg_uploader::intake::{
    cancel_upload, descriptor_after, live_aggregate_report, live_session_report, merged_progress, next_after, pending_file,
    reprovide_file, resumable_key, resume_requeued, resume_untracked, run_target, screen_file,
    settle_start, transfer_keys, Descriptor, Screening,
};
use bg_uploader::progress::{ProgressManager, UploadProgress};
use bg_uploader::queue::{FileQueue, SerialQueue, UploadQueue};
use bg_uploader::report::AggregateProgress;
use bg_uploader::runtime;
use bg_uploader::session::Session;
use bg_uploader::state::{GlobalUploaderState, Percentage, UploadState};
use bg_uploader::store::StoreCommand;
use bg_uploader::string_map::{StringMap, StringSet};
use bg_uploader::upload_orchestrator::UploadOutcome;

fn add(s: &mut Session, key: &str, transfer: &str, size: u64) {
    s.register_file(
        key.to_string(),
        format!("hash-{key}"),
        transfer.to_string(),
        format!("/{key}"),
        format!("{key}.bin"),
        size,
        StringMap::new(),
    );
    s.set_upload_info(key, format!("up-{key}"), 4, 3);
}

fn wait(s: &mut Session, hash: &str, transfer: &str, size: u64) {
    s.pre_register_file(
        hash.to_string(),
        transfer.to_string(),
        String::new(),
        format!("{hash}.tmp"),
        size,
        StringMap::new(),
    );
}

fn run(m: &mut ProgressManager, s: &mut Session, key: &str, size: u64) {
    s.mark_file_state(key, UploadState::Running);
    runtime::init_progress(m, s, key, size, 3, 0, 0);
}

#[test]
fn progress_of_one_file() {
    let mut p = UploadProgress::new("k".to_string(), "t".to_string(), 100, 4);
    assert_eq!(p.status, UploadState::Running);
    p.update_in_flight(1, 10);
    p.update_in_flight(2, 20);
    p.update_in_flight(1, 15);
    assert_eq!(p.uploaded_bytes(), 35);
    p.complete_chunk(1, 25);
    assert_eq!((p.uploaded_bytes(), p.completed_bytes, p.completed_parts), (45, 25, 1));
    assert_eq!(p.percentage(), Percentage::Ratio { part: 45, whole: 100 });
    p.status = UploadState::Completed;
    assert_eq!(p.percentage(), Percentage::Full);
    let r = p.to_file_progress();
    assert_eq!((r.uploaded_bytes, r.total_bytes, r.total_parts), (45, 100, 4));
    assert_eq!(r.file_key.as_deref(), Some("k"));
    let empty = UploadProgress::new("k".to_string(), "t".to_string(), 0, 0);
    assert_eq!(empty.percentage(), Percentage::Zero);
}

#[test]
fn completing_a_part_in_flight_keeps_the_bytes() {
    let mut p = UploadProgress::new("k".to_string(), "t".to_string(), 100, 4);
    p.update_in_flight(1, 25);
    let before = p.uploaded_bytes();
    p.complete_chunk(1, 25);
    assert_eq!(p.uploaded_bytes(), before);
}

#[test]
fn notices_carry_the_bytes_in_flight() {
    let mut s = Session::new();
    let mut m = ProgressManager::new();
    add(&mut s, "a", "t1", 100);
    add(&mut s, "b", "t2", 300);
    run(&mut m, &mut s, "a", 100);
    run(&mut m, &mut s, "b", 300);
    runtime::update_in_flight(&mut m, &s, "b", 1, 40).unwrap();
    let n = runtime::update_in_flight(&mut m, &s, "a", 1, 10).unwrap();
    assert_eq!(n.file.uploaded_bytes, 10);
    assert_eq!((n.session.uploaded_size, n.session.total_size), (50, 400));
    assert_eq!(n.session.percentage, Percentage::Ratio { part: 50, whole: 400 });
    assert_eq!((n.transfer.uploaded_size, n.transfer.total_size), (10, 100));
    let (n, c) = runtime::complete_chunk(&mut m, &mut s, "a", 1, "e".to_string(), 25);
    let n = n.unwrap();
    assert_eq!(c, StoreCommand::Save);
    assert_eq!((n.file.uploaded_bytes, n.file.completed_parts), (25, 1));
    assert_eq!((n.transfer.uploaded_size, n.session.uploaded_size), (25, 65));
    assert_eq!(s.files.get("a").unwrap().uploaded_bytes, 25);
}

#[test]
fn a_file_that_does_not_run_is_silent() {
    let mut s = Session::new();
    let mut m = ProgressManager::new();
    add(&mut s, "a", "t", 100);
    run(&mut m, &mut s, "a", 100);
    let (notices, c) = runtime::pause_all(&mut m, &mut s);
    assert_eq!((notices.len(), c), (1, StoreCommand::Save));
    assert_eq!(notices[0].file.state, UploadState::Paused);
    assert!(runtime::update_in_flight(&mut m, &s, "a", 1, 10).is_none());
    assert!(runtime::update_in_flight(&mut m, &s, "unknown", 1, 10).is_none());
}

#[test]
fn aggregates_saturate() {
    let mut m = ProgressManager::new();
    let agg = AggregateProgress {
        percentage: Percentage::Zero,
        total_size: 10,
        uploaded_size: u64::MAX - 1,
        total_transfers: None,
        completed_transfers: None,
        total_files: 1,
        completed_files: 0,
        state: GlobalUploaderState::Running,
    };
    assert_eq!(m.get_live_aggregate(agg, agg, "t").0, agg);
    let first = m.init(
        "k".to_string(),
        "n".to_string(),
        "h".to_string(),
        "t".to_string(),
        10,
        2,
        3,
        1,
        agg,
        agg,
    );
    assert_eq!(first.file.uploaded_bytes, 3);
    assert_eq!(first.session, agg);
    m.update_in_flight("k", 1, 5, agg, agg).unwrap();
    let (session, other) = m.get_live_aggregate(agg, agg, "other");
    assert_eq!(session.uploaded_size, u64::MAX);
    assert_eq!(session.percentage, Percentage::Ratio { part: u64::MAX, whole: 10 });
    assert_eq!(other, agg);
}

#[test]
fn tracking_and_forgetting() {
    let mut s = Session::new();
    let mut m = ProgressManager::new();
    add(&mut s, "a", "t1", 100);
    add(&mut s, "b", "t2", 100);
    run(&mut m, &mut s, "a", 100);
    run(&mut m, &mut s, "b", 100);
    assert_eq!(m.tracked_file_keys(), vec!["a", "b"]);
    assert_eq!(m.get_live_progress(Some("t2"), None).len(), 1);
    assert_eq!(m.get_live_progress(None, Some("a")).len(), 1);
    assert_eq!(m.get_live_progress(Some("t2"), Some("a")).len(), 0);
    m.remove("a");
    assert_eq!(m.tracked_file_keys(), vec!["b"]);
    m.clear();
    assert!(m.tracked_file_keys().is_empty());
}

#[test]
fn a_registered_file_is_shown_as_it_stands() {
    let mut s = Session::new();
    let mut m = ProgressManager::new();
    add(&mut s, "a", "t", 100);
    assert_eq!(runtime::notify_file_registered(&mut m, &s, "a").file.state, UploadState::Initialized);
    s.set_file_uploaded_bytes("a", 5);
    let n = runtime::notify_file_registered(&mut m, &s, "a");
    assert_eq!((n.file.state, n.file.uploaded_bytes), (UploadState::Paused, 5));
    s.mark_file_state("a", UploadState::Completed);
    assert_eq!(runtime::notify_file_registered(&mut m, &s, "a").file.state, UploadState::Completed);
    let n = runtime::notify_file_registered(&mut m, &s, "none");
    assert_eq!((n.file.state, n.file.total_bytes), (UploadState::Initialized, 0));
}

#[test]
fn resuming_shows_paused_files_running_and_failed_ones_initialized() {
    let mut s = Session::new();
    let mut m = ProgressManager::new();
    add(&mut s, "a", "t", 100);
    add(&mut s, "b", "t", 100);
    add(&mut s, "c", "t", 100);
    run(&mut m, &mut s, "a", 100);
    run(&mut m, &mut s, "b", 100);
    s.mark_file_state("a", UploadState::Paused);
    s.mark_file_state("b", UploadState::Failed);
    s.mark_file_state("c", UploadState::Paused);
    let (notices, _) = runtime::resume_all(&mut m, &mut s).unwrap();
    let shown: Vec<(Option<String>, UploadState)> =
        notices.into_iter().map(|n| (n.file.file_key, n.file.state)).collect();
    assert_eq!(
        shown,
        vec![(Some("a".to_string()), UploadState::Running), (Some("b".to_string()), UploadState::Initialized)]
    );
    assert_eq!(s.files.get("c").unwrap().state, UploadState::NotStarted);
    assert_eq!(s.run_version("b"), Some(1));
}

#[test]
fn resuming_is_refused_while_files_are_missing() {
    let mut s = Session::new();
    let mut m = ProgressManager::new();
    let mut q = UploadQueue::new();
    add(&mut s, "a", "t", 100);
    s.recompute_needs_provision();
    let message = "Cannot resume: 1 file(s) not yet re-provided. Call uploadFile() for each missing file first.";
    assert_eq!(runtime::resume_all(&mut m, &mut s).unwrap_err(), message);
    assert_eq!(resume_untracked(&mut m, &mut s).unwrap_err(), message);
    assert_eq!(resume_requeued(&mut m, &mut s, &mut q).unwrap_err(), message);
    reprovide_file(&mut s, "hash-a");
    assert!(runtime::resume_all(&mut m, &mut s).is_ok());
}

#[test]
fn resuming_can_forget_what_was_tracked() {
    let mut s = Session::new();
    let mut m = ProgressManager::new();
    add(&mut s, "a", "t", 100);
    add(&mut s, "b", "t", 100);
    run(&mut m, &mut s, "a", 100);
    run(&mut m, &mut s, "b", 100);
    s.mark_file_state("a", UploadState::Paused);
    let (notices, _) = resume_untracked(&mut m, &mut s).unwrap();
    assert_eq!(notices.len(), 1);
    assert_eq!(m.tracked_file_keys(), vec!["b"]);
    let mut q = UploadQueue::new();
    q.enqueue_key("stale".to_string());
    s.mark_file_state("b", UploadState::Failed);
    assert_eq!(resume_requeued(&mut m, &mut s, &mut q), Ok(StoreCommand::Save));
    assert!(m.tracked_file_keys().is_empty());
    assert_eq!(q.pop(false).as_deref(), Some("a"));
    assert_eq!(q.pop(false), None);
}

#[test]
fn snapshots_by_file() {
    let mut s = Session::new();
    add(&mut s, "a", "t", 100);
    assert_eq!(runtime::transfer_id_for_file(&s, "a"), "t");
    assert_eq!(runtime::transfer_id_for_file(&s, "none"), "");
    let (id, session, transfer) = runtime::aggregate_snapshot_for_file(&s, "a");
    assert_eq!((id.as_str(), session.total_size, transfer.total_size), ("t", 100, 100));
    assert_eq!(runtime::mark_state_persist(&mut s, "a", UploadState::Failed), StoreCommand::Save);
    assert_eq!(s.global_state, GlobalUploaderState::Failed);
}

#[test]
fn files_are_screened_before_they_are_taken_in() {
    let mut s = Session::new();
    assert_eq!(screen_file(&s, "hash-a"), Ok(Screening::New));
    wait(&mut s, "hash-a", "t", 1);
    assert_eq!(
        screen_file(&s, "hash-a").unwrap_err(),
        "DUPLICATE_FILE: file with hash hash-a is already pending in this session"
    );
    s.cancel_file_by_hash("hash-a");
    add(&mut s, "a", "t", 1);
    assert_eq!(screen_file(&s, "hash-a"), Ok(Screening::Resumable));
    s.mark_file_state("a", UploadState::Completed);
    assert_eq!(screen_file(&s, "hash-a"), Ok(Screening::Stored));
    s.mark_file_state("a", UploadState::Cancelled);
    assert_eq!(
        screen_file(&s, "hash-a").unwrap_err(),
        "DUPLICATE_FILE: file with hash hash-a is already active in this session"
    );
}

#[test]
fn a_start_that_was_cancelled_meanwhile_is_undone() {
    let mut s = Session::new();
    wait(&mut s, "hash-a", "t", 1);
    assert_eq!(pending_file(&s, "hash-a").unwrap().file_name, "hash-a.tmp");
    add(&mut s, "a", "t", 1);
    assert!(settle_start(&mut s, "hash-a", "a"));
    assert!(s.pending_files.is_empty() && s.files.contains_key("a"));
    assert!(!settle_start(&mut s, "hash-a", "a"));
    assert!(s.files.is_empty());
    assert_eq!(pending_file(&s, "hash-a").unwrap_err(), "no pending entry for hash hash-a");
}

#[test]
fn which_files_go_on_without_a_start_call() {
    let mut s = Session::new();
    assert_eq!(resumable_key(&s, "hash-a"), None);
    add(&mut s, "a", "t", 1);
    assert_eq!(resumable_key(&s, "hash-a").as_deref(), Some("a"));
    wait(&mut s, "hash-a", "t", 1);
    assert_eq!(resumable_key(&s, "hash-a"), None);
}

#[test]
fn which_files_are_run_and_queued_again() {
    let mut s = Session::new();
    add(&mut s, "a", "t", 1);
    add(&mut s, "b", "t", 1);
    assert_eq!(run_target(&s, "a"), Some(("/a".to_string(), 0)));
    for state in [UploadState::Running, UploadState::Completed, UploadState::Cancelled] {
        s.mark_file_state("a", state);
        assert_eq!(run_target(&s, "a"), None);
    }
    s.mark_file_state("a", UploadState::Paused);
    assert_eq!(run_target(&s, "a"), Some(("/a".to_string(), 0)));
    assert_eq!(run_target(&s, "none"), None);
    assert_eq!(next_after(&mut s, "a", &UploadOutcome::Paused).as_deref(), Some("a"));
    let failed = UploadOutcome::Failed("x".to_string());
    assert_eq!(descriptor_after(&s, "a", &UploadOutcome::Paused), Descriptor::Requeue);
    assert_eq!(descriptor_after(&s, "a", &UploadOutcome::Completed), Descriptor::Close);
    assert_eq!(descriptor_after(&s, "a", &failed), Descriptor::Keep);
    assert_eq!(descriptor_after(&s, "none", &failed), Descriptor::Close);
    assert_eq!(descriptor_after(&s, "none", &UploadOutcome::Paused), Descriptor::Close);
    s.mark_file_state("a", UploadState::NotStarted);
    assert_eq!(next_after(&mut s, "a", &UploadOutcome::Paused), None);
    assert_eq!(descriptor_after(&s, "a", &UploadOutcome::Paused), Descriptor::Requeue);
    s.mark_file_state("a", UploadState::Completed);
    assert_eq!(next_after(&mut s, "a", &UploadOutcome::Completed).as_deref(), Some("b"));
    assert_eq!(next_after(&mut s, "a", &UploadOutcome::Failed("x".to_string())), None);
    assert_eq!(transfer_keys(&s, "t"), vec!["a", "b"]);
}

#[test]
fn a_cancelled_upload_is_announced() {
    let mut s = Session::new();
    let mut m = ProgressManager::new();
    add(&mut s, "a", "t", 100);
    run(&mut m, &mut s, "a", 100);
    s.set_file_uploaded_bytes("a", 40);
    let c = cancel_upload(&mut m, &mut s, "hash-a");
    assert_eq!((c.file_key.as_str(), c.command), ("a", StoreCommand::Save));
    let n = c.notice.unwrap();
    assert_eq!(n.file.state, UploadState::Cancelled);
    assert_eq!((n.file.uploaded_bytes, n.session.total_size), (40, 0));
    assert_eq!(n.file.percentage, Percentage::Ratio { part: 40, whole: 100 });
    assert!(m.tracked_file_keys().is_empty() && s.files.is_empty());
    wait(&mut s, "h", "t", 7);
    let c = cancel_upload(&mut m, &mut s, "h");
    assert_eq!(c.file_key, "");
    assert_eq!(c.notice.unwrap().file.percentage, Percentage::Zero);
    assert!(cancel_upload(&mut m, &mut s, "unknown").notice.is_none());
}

#[test]
fn live_reports_hide_stored_ones() {
    let mut s = Session::new();
    let mut m = ProgressManager::new();
    add(&mut s, "a", "t", 100);
    add(&mut s, "b", "t", 100);
    wait(&mut s, "h", "t", 5);
    run(&mut m, &mut s, "b", 100);
    runtime::update_in_flight(&mut m, &s, "b", 1, 10);
    let all = merged_progress(&m, &s, None, None);
    let shown: Vec<(Option<&str>, u64)> = all.iter().map(|p| (p.file_key.as_deref(), p.uploaded_bytes)).collect();
    assert_eq!(shown, vec![(Some("b"), 10), (Some("a"), 0), (None, 0)]);
    assert_eq!(live_session_report(&m, &s).uploaded_size, 10);
    assert_eq!(live_aggregate_report(&m, &s, Some("t")).uploaded_size, 10);
}

#[test]
fn an_emptied_session_counts_as_completed_while_tracked() {
    let mut s = Session::new();
    let mut m = ProgressManager::new();
    assert_eq!(live_aggregate_report(&m, &s, None).state, GlobalUploaderState::NotStarted);
    add(&mut s, "a", "t", 100);
    run(&mut m, &mut s, "a", 100);
    s.mark_file_state("a", UploadState::Completed);
    runtime::set_status(&mut m, &s, "a", UploadState::Completed).unwrap();
    s.cancel_all();
    assert_eq!(live_aggregate_report(&m, &s, None).state, GlobalUploaderState::Completed);
    assert_eq!(live_aggregate_report(&m, &s, Some("other")).state, GlobalUploaderState::NotStarted);
}

#[test]
fn a_key_waits_once() {
    let mut q = UploadQueue::new();
    assert!(q.enqueue_key("a".to_string()));
    assert!(!q.enqueue_key("a".to_string()));
    assert!(q.enqueue_key("b".to_string()));
    assert_eq!(q.pop(true), None);
    assert_eq!(q.pop(false).as_deref(), Some("a"));
    assert!(q.enqueue_key("a".to_string()));
    assert_eq!(q.pop(false).as_deref(), Some("b"));
    q.clear();
    assert_eq!(q.pop(false), None);
}

#[test]
fn files_with_progress_go_first() {
    let mut s = Session::new();
    add(&mut s, "a", "t1", 10);
    add(&mut s, "b", "t2", 10);
    s.set_file_uploaded_bytes("b", 1);
    let mut q: FileQueue<i32> = FileQueue::new();
    q.enqueue(&s, "a".to_string(), 1);
    q.enqueue(&s, "b".to_string(), 2);
    q.enqueue(&s, "c".to_string(), 3);
    q.remove_file("c");
    assert_eq!(q.pop(true), None);
    assert_eq!(q.pop(false), Some(("b".to_string(), 2)));
    q.enqueue_front("b".to_string(), 4);
    q.remove_transfer(&s, "t2");
    q.enqueue_back("x".to_string(), 5);
    assert_eq!(q.pop(false), Some(("a".to_string(), 1)));
    assert_eq!(q.pop(false), Some(("x".to_string(), 5)));
    q.enqueue_back("y".to_string(), 6);
    q.clear();
    assert_eq!(q.pop(false), None);
}

#[test]
fn one_file_at_a_time() {
    let mut q: SerialQueue<u8> = SerialQueue::new();
    q.files.enqueue_back("a".to_string(), 1);
    q.files.enqueue_back("b".to_string(), 2);
    let a = q.start_next().unwrap();
    assert_eq!(a.0, "a");
    assert!(q.start_next().is_none());
    q.finished(a, true);
    q.paused = true;
    assert!(q.start_next().is_none());
    q.paused = false;
    let a = q.start_next().unwrap();
    assert_eq!(a.0, "a");
    q.finished(a, false);
    assert_eq!(q.start_next().unwrap().0, "b");
    q.paused = true;
    q.reset();
    assert!(!q.running && !q.paused && q.start_next().is_none());
}

#[test]
fn maps_and_sets_of_strings() {
    let mut m: StringMap<String> = StringMap::new();
    m.insert("b".to_string(), "1".to_string());
    m.insert("a".to_string(), "2".to_string());
    m.insert("b".to_string(), "3".to_string());
    assert_eq!((m.len(), m.key_at(0).as_str(), m.value_at(0).as_str()), (2, "b", "3"));
    assert_eq!(m.remove("b").as_deref(), Some("3"));
    assert!(m.get("b").is_none() && m.find("a") == Some(0));
    let mut set = StringSet::new();
    assert!(set.insert("x".to_string()) && !set.insert("x".to_string()));
    assert_eq!(set.len(), 1);
    assert!(set.remove("x") && !set.remove("x") && set.is_empty());
}

#[test]
fn sums_of_a_tracked_file_stay_representable() {
    let mut s = Session::new();
    let mut m = ProgressManager::new();
    add(&mut s, "a", "t1", 100);
    assert!(m.accepts_in_flight("a", 1, u64::MAX));
    assert!(m.accepts_chunk("a", 1, u64::MAX));
    run(&mut m, &mut s, "a", 100);
    runtime::update_in_flight(&mut m, &s, "a", 1, 10);
    runtime::update_in_flight(&mut m, &s, "a", 2, 5);
    assert!(m.accepts_in_flight("a", 1, u64::MAX - 5));
    assert!(!m.accepts_in_flight("a", 1, u64::MAX - 4));
    assert!(!m.accepts_in_flight("a", 3, u64::MAX - 14));
    assert!(m.accepts_chunk("a", 1, u64::MAX - 5));
    assert!(!m.accepts_chunk("a", 1, u64::MAX - 4));
    runtime::complete_chunk(&mut m, &mut s, "a", 1, "e".to_string(), 40);
    assert!(m.accepts_chunk("a", 2, u64::MAX - 40));
    assert!(!m.accepts_chunk("a", 2, u64::MAX - 39));
}

#[test]
fn a_pending_file_is_announced_as_not_started() {
    let mut s = Session::new();
    add(&mut s, "a", "t", 100);
    assert!(runtime::notify_file_pending(&s, "h").is_none());
    wait(&mut s, "h", "t", 7);
    wait(&mut s, "other", "u", 1);
    let n = runtime::notify_file_pending(&s, "h").unwrap();
    assert_eq!((n.file.file_hash.as_str(), n.file.file_name.as_str()), ("h", "h.tmp"));
    assert_eq!((n.file.state.as_str(), n.file.total_bytes, n.file.uploaded_bytes), ("NOT_STARTED", 7, 0));
    assert_eq!(n.file.file_key, None);
    assert_eq!((n.session.total_size, n.transfer.total_size), (108, 107));
}
