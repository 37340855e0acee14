use bg_uploader::session::{FileEntry, Session};
use bg_uploader::state::{GlobalUploaderState, Percentage, UploadState};
use bg_uploader::store;
use bg_uploader::store::StoreCommand;
use bg_uploader::string_map::StringMap;

fn add(s: &mut Session, key: &str, hash: &str, transfer: &str, size: u64) {
    s.register_file(
        key.to_string(),
        hash.to_string(),
        transfer.to_string(),
        String::new(),
        format!("{key}.bin"),
        size,
        StringMap::new(),
    );
}

fn state_of(s: &Session, key: &str) -> UploadState {
    s.files.get(key).unwrap().state
}

#[test]
fn it_works() {
    let s = Session::new();
    assert!(!s.has_missing_files());
    assert_eq!(s.global_state, GlobalUploaderState::NotStarted);
}

#[test]
fn a_new_entry_is_initialized_and_empty() {
    let e = FileEntry::new(
        "k".to_string(),
        "h".to_string(),
        "t".to_string(),
        "/p".to_string(),
        "n".to_string(),
        7,
        StringMap::new(),
    );
    assert_eq!(e.state, UploadState::Initialized);
    assert_eq!((e.uploaded_bytes, e.completed_parts, e.total_parts, e.run_version), (0, 0, 0, 0));
    assert!(e.upload_id.is_none() && e.part_size.is_none() && e.completed_chunk_etags.is_empty());
    assert_eq!(e.percentage(), Percentage::Ratio { part: 0, whole: 7 });
    assert!(!e.is_resumable());
}

#[test]
fn percentage_of_a_file() {
    let mut e = FileEntry::new(
        "k".to_string(),
        "h".to_string(),
        "t".to_string(),
        String::new(),
        "n".to_string(),
        0,
        StringMap::new(),
    );
    assert_eq!(e.percentage(), Percentage::Zero);
    e.state = UploadState::Completed;
    assert_eq!(e.percentage(), Percentage::Full);
}

#[test]
fn only_a_started_unfinished_file_is_resumable() {
    let mut s = Session::new();
    add(&mut s, "k", "h", "t", 10);
    s.set_upload_info("k", "u".to_string(), 4, 3);
    for (state, expected) in [
        (UploadState::NotStarted, true),
        (UploadState::Initialized, true),
        (UploadState::Failed, true),
        (UploadState::Paused, true),
        (UploadState::Running, true),
        (UploadState::Completed, false),
        (UploadState::Cancelled, false),
    ] {
        s.mark_file_state("k", state);
        assert_eq!(s.files.get("k").unwrap().is_resumable(), expected, "{state:?}");
    }
}

#[test]
fn registered_files_are_found_by_hash_and_listed_in_order() {
    let mut s = Session::new();
    add(&mut s, "k1", "h1", "t", 10);
    add(&mut s, "k2", "h2", "t", 20);
    assert_eq!(s.find_by_hash("h1").unwrap().file_key, "k1");
    assert_eq!(s.find_by_hash("h2").unwrap().total_bytes, 20);
    assert!(s.find_by_hash("h3").is_none());
    assert_eq!(s.transfers["t"].file_keys, vec!["k1".to_string(), "k2".to_string()]);
}

#[test]
fn a_pending_file_becomes_a_file_of_the_session() {
    let mut s = Session::new();
    let mut params = StringMap::new();
    params.insert("a".to_string(), "b".to_string());
    s.pre_register_file(
        "h".to_string(),
        "t".to_string(),
        "/p".to_string(),
        "n".to_string(),
        9,
        params,
    );
    assert!(s.pending_files.contains_key("h"));
    assert!(!s.initialize_file("other", "k".to_string(), "u".to_string(), 4, 3));
    assert!(s.initialize_file("h", "k".to_string(), "u".to_string(), 4, 3));
    assert!(!s.pending_files.contains_key("h"));
    let f = s.find_by_hash("h").unwrap();
    assert_eq!(f.file_key, "k");
    assert_eq!(f.upload_id.as_deref(), Some("u"));
    assert_eq!((f.part_size, f.total_parts, f.total_bytes), (Some(4), 3, 9));
    assert_eq!(f.user_params.get("a").unwrap(), "b");
    assert_eq!(f.file_path, "/p");
}

#[test]
fn the_current_transfer_is_served_first() {
    let mut s = Session::new();
    add(&mut s, "a1", "h1", "ta", 1);
    add(&mut s, "b1", "h2", "tb", 1);
    add(&mut s, "b2", "h3", "tb", 1);
    s.current_transfer_id = Some("tb".to_string());
    assert_eq!(s.next_pending_file().as_deref(), Some("b1"));
    s.mark_file_state("b1", UploadState::Running);
    assert_eq!(s.next_pending_file().as_deref(), Some("b2"));
    s.mark_file_state("b2", UploadState::Completed);
    assert_eq!(s.next_pending_file().as_deref(), Some("a1"));
    assert_eq!(s.current_transfer_id.as_deref(), Some("ta"));
    s.mark_file_state("a1", UploadState::Cancelled);
    assert_eq!(s.next_pending_file(), None);
}

#[test]
fn paused_and_failed_files_are_picked_again() {
    let mut s = Session::new();
    add(&mut s, "k", "h", "t", 1);
    for state in [UploadState::Paused, UploadState::Failed, UploadState::NotStarted] {
        s.mark_file_state("k", state);
        assert_eq!(s.next_pending_file().as_deref(), Some("k"));
    }
}

#[test]
fn the_global_state_follows_the_files() {
    let mut s = Session::new();
    add(&mut s, "a", "h1", "t", 1);
    add(&mut s, "b", "h2", "t", 1);
    s.recompute_global_state();
    assert_eq!(s.global_state, GlobalUploaderState::NotStarted);
    s.mark_file_state("a", UploadState::Running);
    assert_eq!(s.global_state, GlobalUploaderState::Running);
    s.mark_file_state("b", UploadState::Failed);
    assert_eq!(s.global_state, GlobalUploaderState::Running);
    s.mark_file_state("a", UploadState::Paused);
    assert_eq!(s.global_state, GlobalUploaderState::Failed);
    s.mark_file_state("b", UploadState::Completed);
    assert_eq!(s.global_state, GlobalUploaderState::Paused);
    s.mark_file_state("b", UploadState::Cancelled);
    assert_eq!(s.global_state, GlobalUploaderState::NotStarted);
    s.mark_file_state("a", UploadState::Completed);
    s.mark_file_state("b", UploadState::Completed);
    assert_eq!(s.global_state, GlobalUploaderState::Completed);
    s.pre_register_file(
        "h3".to_string(),
        "t".to_string(),
        String::new(),
        "n".to_string(),
        1,
        StringMap::new(),
    );
    s.recompute_global_state();
    assert_eq!(s.global_state, GlobalUploaderState::NotStarted);
}

#[test]
fn a_part_counts_once_and_bytes_stay_below_the_size() {
    let mut s = Session::new();
    add(&mut s, "k", "h", "t", 10);
    s.complete_chunk("k", 1, "e1".to_string(), 6);
    s.complete_chunk("k", 1, "other".to_string(), 6);
    let f = s.files.get("k").unwrap();
    assert_eq!((f.completed_parts, f.uploaded_bytes), (1, 6));
    assert_eq!(f.completed_chunk_etags, vec![(1, "e1".to_string())]);
    s.complete_chunk("k", 2, "e2".to_string(), 6);
    let f = s.files.get("k").unwrap();
    assert_eq!((f.completed_parts, f.uploaded_bytes), (2, 10));
    s.complete_chunk("unknown", 1, "e".to_string(), 6);
    assert_eq!(s.files.len(), 1);
}

#[test]
fn stored_bytes_are_capped() {
    let mut s = Session::new();
    add(&mut s, "k", "h", "t", 10);
    s.set_file_uploaded_bytes("k", 7);
    assert_eq!(s.files.get("k").unwrap().uploaded_bytes, 7);
    s.set_file_uploaded_bytes("k", 70);
    assert_eq!(s.files.get("k").unwrap().uploaded_bytes, 10);
}

#[test]
fn run_versions_grow_and_saturate() {
    let mut s = Session::new();
    add(&mut s, "k", "h", "t", 10);
    assert_eq!(s.run_version("k"), Some(0));
    assert_eq!(s.bump_run_version("k"), Some(1));
    assert_eq!(s.run_version("k"), Some(1));
    s.files.get_mut("k").unwrap().run_version = u64::MAX;
    assert_eq!(s.bump_run_version("k"), Some(u64::MAX));
    assert_eq!(s.run_version("none"), None);
    assert_eq!(s.bump_run_version("none"), None);
}

#[test]
fn a_new_path_is_noted() {
    let mut s = Session::new();
    add(&mut s, "k", "h", "t", 10);
    s.update_file_path("k", "/new".to_string());
    assert_eq!(s.files.get("k").unwrap().file_path, "/new");
}

#[test]
fn cancelling_a_file_removes_every_trace() {
    let mut s = Session::new();
    add(&mut s, "a", "h1", "t", 1);
    add(&mut s, "b", "h2", "t", 1);
    s.cancel_file("a");
    assert!(s.files.get("a").is_none());
    assert!(s.find_by_hash("h1").is_none());
    assert_eq!(s.transfers["t"].file_keys, vec!["b".to_string()]);
    s.cancel_file("a");
    assert_eq!(s.files.len(), 1);
    assert_eq!(s.find_by_hash("h2").unwrap().file_key, "b");
}

#[test]
fn cancelling_by_hash_reaches_pending_and_registered_files() {
    let mut s = Session::new();
    add(&mut s, "a", "h1", "t", 1);
    s.pre_register_file(
        "h2".to_string(),
        "t".to_string(),
        String::new(),
        "n".to_string(),
        1,
        StringMap::new(),
    );
    s.cancel_file_by_hash("h2");
    assert!(!s.pending_files.contains_key("h2"));
    s.cancel_file_by_hash("h1");
    assert!(s.files.is_empty() && s.hash_to_key.is_empty());
    assert!(s.transfers["t"].file_keys.is_empty());
}

#[test]
fn cancelling_a_transfer_spares_the_others() {
    let mut s = Session::new();
    add(&mut s, "a1", "h1", "ta", 1);
    add(&mut s, "b1", "h2", "tb", 1);
    add(&mut s, "a2", "h3", "ta", 1);
    s.current_transfer_id = Some("ta".to_string());
    for (hash, transfer) in [("h4", "ta"), ("h5", "tb")] {
        s.pre_register_file(
            hash.to_string(),
            transfer.to_string(),
            String::new(),
            "n".to_string(),
            1,
            StringMap::new(),
        );
    }
    s.cancel_transfer("ta");
    assert_eq!(s.files.len(), 1);
    assert_eq!(s.find_by_hash("h2").unwrap().file_key, "b1");
    assert!(s.find_by_hash("h1").is_none() && s.find_by_hash("h3").is_none());
    assert!(!s.pending_files.contains_key("h4") && s.pending_files.contains_key("h5"));
    assert!(s.transfers.get("ta").is_none());
    assert_eq!(s.current_transfer_id, None);
    s.cancel_transfer("unknown");
    assert_eq!(s.files.len(), 1);
}

#[test]
fn cancelling_everything_keeps_the_templates() {
    let mut s = Session::new();
    add(&mut s, "a", "h1", "t", 1);
    s.title_template = "x".to_string();
    assert_eq!(store::clear_session(&mut s), StoreCommand::Clear);
    assert!(s.files.is_empty() && s.transfers.is_empty() && s.hash_to_key.is_empty());
    assert_eq!(s.title_template, "x");
    assert_eq!(s.global_state, GlobalUploaderState::NotStarted);
}

#[test]
fn a_pause_stops_what_runs() {
    let mut s = Session::new();
    add(&mut s, "a", "h1", "t", 1);
    add(&mut s, "b", "h2", "t", 1);
    s.mark_file_state("a", UploadState::Running);
    s.mark_file_state("b", UploadState::Failed);
    assert_eq!(store::pause_all(&mut s), StoreCommand::Save);
    assert_eq!(state_of(&s, "a"), UploadState::Paused);
    assert_eq!(state_of(&s, "b"), UploadState::Failed);
    assert_eq!(s.global_state, GlobalUploaderState::Failed);
}

#[test]
fn a_resume_supersedes_the_old_run() {
    let mut s = Session::new();
    add(&mut s, "a", "h1", "t", 1);
    add(&mut s, "b", "h2", "t", 1);
    s.mark_file_state("a", UploadState::Paused);
    s.mark_file_state("b", UploadState::Completed);
    assert!(store::is_current_run(&s, "a", 0));
    assert_eq!(store::resume_all(&mut s), StoreCommand::Save);
    assert!(!store::is_current_run(&s, "a", 0));
    assert!(store::is_current_run(&s, "a", 1));
    assert_eq!(store::file_run_version(&s, "b"), Some(0));
    assert_eq!(state_of(&s, "a"), UploadState::NotStarted);
    assert_eq!(state_of(&s, "b"), UploadState::Completed);
    assert!(!store::is_current_run(&s, "none", 0));
}

#[test]
fn a_resume_without_halted_files_leaves_the_global_state() {
    let mut s = Session::new();
    add(&mut s, "a", "h1", "t", 1);
    s.global_state = GlobalUploaderState::RunningInBg;
    store::resume_all(&mut s);
    assert_eq!(s.global_state, GlobalUploaderState::RunningInBg);
}

#[test]
fn a_loaded_session_waits_for_its_files() {
    let mut s = Session::new();
    add(&mut s, "a", "h1", "t", 1);
    add(&mut s, "b", "h2", "t", 1);
    s.mark_file_state("a", UploadState::Running);
    s.mark_file_state("b", UploadState::Completed);
    s.recompute_needs_provision();
    assert!(s.has_missing_files());
    assert!(s.files_needing_provision.contains("h1") && !s.files_needing_provision.contains("h2"));
    assert_eq!(state_of(&s, "a"), UploadState::Paused);
    assert_eq!(s.global_state, GlobalUploaderState::Paused);
}

#[test]
fn a_running_file_without_its_local_file_counts_as_paused() {
    let mut s = Session::new();
    add(&mut s, "a", "h1", "t", 1);
    s.files_needing_provision.insert("h1".to_string());
    s.mark_file_state("a", UploadState::Running);
    assert_eq!(s.global_state, GlobalUploaderState::Paused);
}

#[test]
fn store_commands() {
    let mut s = Session::new();
    add(&mut s, "a", "h1", "t", 1);
    assert_eq!(store::persist_session(), StoreCommand::Save);
    assert_eq!(store::cancel_file_by_hash(&mut s, "h1"), StoreCommand::Save);
    assert_eq!(store::cancel_file(&mut s, "a"), StoreCommand::Save);
    assert_eq!(store::cancel_transfer(&mut s, "t"), StoreCommand::Save);
    assert_eq!(store::set_storage_path("/x"), StoreCommand::SetPath("/x".to_string()));
    assert_eq!(store::store_file(""), "s3_uploader.redb");
    assert_eq!(store::store_file("/d"), "/d/s3_uploader.redb");
}

#[test]
fn names_of_states() {
    assert_eq!(UploadState::NotStarted.as_str(), "NOT_STARTED");
    assert_eq!(UploadState::Initialized.as_str(), "INITIALIZED");
    assert_eq!(GlobalUploaderState::RunningInBg.as_str(), "RUNNING_IN_BG");
    assert_eq!(GlobalUploaderState::Completed.as_str(), "COMPLETED");
}

#[test]
fn transfers_keep_their_order() {
    let mut s = Session::new();
    for (key, hash, transfer) in [("a", "h1", "t2"), ("b", "h2", "t1"), ("c", "h3", "t2"), ("d", "h4", "t3")] {
        add(&mut s, key, hash, transfer, 1);
    }
    let ids: Vec<&String> = s.transfers.keys().collect();
    assert_eq!(ids, vec!["t2", "t1", "t3"]);
    s.cancel_transfer("t2");
    let ids: Vec<&String> = s.transfers.keys().collect();
    assert_eq!(ids, vec!["t1", "t3"]);
}

#[test]
fn a_stored_file_is_put_back_under_its_key() {
    let mut s = Session::new();
    let mut e = FileEntry::new(
        "k".to_string(),
        "h".to_string(),
        "t".to_string(),
        String::new(),
        "n".to_string(),
        10,
        StringMap::new(),
    );
    e.state = UploadState::Running;
    e.uploaded_bytes = 4;
    s.restore_file(e);
    let f = s.files.get("k").unwrap();
    assert_eq!((f.state, f.uploaded_bytes), (UploadState::Running, 4));
    assert!(s.find_by_hash("h").is_none() && s.transfers.is_empty());
    s.recompute_needs_provision();
    assert_eq!(state_of(&s, "k"), UploadState::Paused);
    assert!(s.files_needing_provision.contains("h"));
}

#[test]
fn counts_of_a_file_stay_in_range() {
    let mut s = Session::new();
    assert!(s.accepts_chunk("k", 1, u64::MAX));
    add(&mut s, "k", "h", "t", 10);
    s.complete_chunk("k", 1, "e".to_string(), 4);
    assert!(s.accepts_chunk("k", 2, u64::MAX - 4));
    assert!(!s.accepts_chunk("k", 2, u64::MAX - 3));
    assert!(s.accepts_chunk("k", 1, u64::MAX));
    s.files.get_mut("k").unwrap().completed_parts = u32::MAX;
    assert!(!s.accepts_chunk("k", 2, 0));
}

#[test]
fn no_part_is_confirmed_twice() {
    let mut s = Session::new();
    add(&mut s, "k", "h", "t", 100);
    for p in [3, 1, 3, 2, 1] {
        s.complete_chunk("k", p, format!("e{p}"), 10);
    }
    let numbers: Vec<u32> = s.files.get("k").unwrap().completed_chunk_etags.iter().map(|e| e.0).collect();
    assert_eq!(numbers, vec![3, 1, 2]);
}
