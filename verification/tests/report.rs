use bg_uploader::format::{format_template, format_with_live_aggregate, human_bytes};
use bg_uploader::report::AggregateProgress;
use bg_uploader::session::Session;
use bg_uploader::state::{GlobalUploaderState, Percentage, UploadState};
use bg_uploader::string_map::StringMap;

fn add(s: &mut Session, key: &str, hash: &str, transfer: &str, size: u64) {
    s.register_file(
        key.to_string(),
        hash.to_string(),
        transfer.to_string(),
        String::new(),
        format!("{key}.bin"),
        size,
        StringMap::new(),
    );
}

fn wait(s: &mut Session, hash: &str, transfer: &str, size: u64) {
    s.pre_register_file(
        hash.to_string(),
        transfer.to_string(),
        String::new(),
        format!("{hash}.tmp"),
        size,
        StringMap::new(),
    );
}

#[test]
fn reports_on_files() {
    let mut s = Session::new();
    add(&mut s, "a", "h1", "t1", 10);
    add(&mut s, "b", "h2", "t2", 20);
    wait(&mut s, "h3", "t1", 30);
    s.set_file_uploaded_bytes("a", 4);
    let all = s.get_progress(None, None);
    assert_eq!(all.len(), 3);
    assert_eq!(all[0].file_key.as_deref(), Some("a"));
    assert_eq!(all[0].percentage, Percentage::Ratio { part: 4, whole: 10 });
    assert_eq!(all[2].file_key, None);
    assert_eq!(all[2].state, UploadState::NotStarted);
    assert_eq!((all[2].total_bytes, all[2].percentage), (30, Percentage::Zero));
    let of_transfer = s.get_progress(Some("t1"), None);
    assert_eq!(of_transfer.len(), 2);
    let one = s.get_progress(None, Some("b"));
    assert_eq!(one.len(), 1);
    assert_eq!(one[0].file_name, "b.bin");
    assert!(s.get_progress(Some("t1"), Some("b")).is_empty());
}

#[test]
fn an_empty_session_has_not_started() {
    let agg = Session::new().get_aggregate_progress(None);
    assert_eq!(
        agg,
        AggregateProgress {
            percentage: Percentage::Zero,
            total_size: 0,
            uploaded_size: 0,
            total_transfers: Some(0),
            completed_transfers: Some(0),
            total_files: 0,
            completed_files: 0,
            state: GlobalUploaderState::NotStarted,
        }
    );
}

#[test]
fn aggregates_sum_files_and_pending_files() {
    let mut s = Session::new();
    add(&mut s, "a", "h1", "t1", 10);
    add(&mut s, "b", "h2", "t2", 20);
    wait(&mut s, "h3", "t1", 30);
    s.set_file_uploaded_bytes("a", 4);
    s.mark_file_state("b", UploadState::Completed);
    let agg = s.get_aggregate_progress(None);
    assert_eq!((agg.total_size, agg.uploaded_size), (60, 4));
    assert_eq!(agg.percentage, Percentage::Ratio { part: 4, whole: 60 });
    assert_eq!((agg.total_files, agg.completed_files), (3, 1));
    assert_eq!((agg.total_transfers, agg.completed_transfers), (Some(2), Some(1)));
    let t1 = s.get_aggregate_progress(Some("t1"));
    assert_eq!((t1.total_size, t1.uploaded_size, t1.total_files), (40, 4, 2));
    assert_eq!((t1.total_transfers, t1.completed_transfers), (None, None));
    let t2 = s.get_aggregate_progress(Some("t2"));
    assert_eq!(t2.state, GlobalUploaderState::Completed);
    assert_eq!((t2.percentage, t2.uploaded_size), (Percentage::Full, 20));
}

#[test]
fn the_state_of_a_transfer() {
    let mut s = Session::new();
    add(&mut s, "a", "h1", "t", 10);
    add(&mut s, "b", "h2", "t", 10);
    let state = |s: &Session| s.get_aggregate_progress(Some("t")).state;
    s.mark_file_state("a", UploadState::Running);
    assert_eq!(state(&s), GlobalUploaderState::Running);
    s.files_needing_provision.insert("h1".to_string());
    s.recompute_global_state();
    assert_eq!(state(&s), GlobalUploaderState::Paused);
    s.mark_file_state("b", UploadState::Failed);
    assert_eq!(state(&s), GlobalUploaderState::Failed);
    s.mark_file_state("a", UploadState::Paused);
    s.mark_file_state("b", UploadState::Initialized);
    assert_eq!(state(&s), GlobalUploaderState::Paused);
    s.mark_file_state("a", UploadState::Completed);
    s.mark_file_state("b", UploadState::Completed);
    assert_eq!(state(&s), GlobalUploaderState::Completed);
    wait(&mut s, "h3", "t", 1);
    s.global_state = GlobalUploaderState::RunningInBg;
    assert_eq!(state(&s), GlobalUploaderState::RunningInBg);
}

#[test]
fn a_transfer_with_a_pending_file_is_not_completed() {
    let mut s = Session::new();
    add(&mut s, "a", "h1", "t", 10);
    s.mark_file_state("a", UploadState::Completed);
    assert_eq!(s.get_aggregate_progress(None).completed_transfers, Some(1));
    wait(&mut s, "h2", "t", 1);
    assert_eq!(s.get_aggregate_progress(None).completed_transfers, Some(0));
}

#[test]
fn sizes_are_checked_before_they_are_summed() {
    let mut s = Session::new();
    add(&mut s, "a", "h1", "t", u64::MAX);
    assert!(s.has_sound_sizes());
    add(&mut s, "b", "h2", "t", 1);
    assert!(!s.has_sound_sizes());
    s.cancel_file("b");
    wait(&mut s, "h3", "t", 1);
    assert!(!s.has_sound_sizes());
    s.cancel_file_by_hash("h3");
    s.files.get_mut("a").unwrap().total_bytes = 3;
    s.files.get_mut("a").unwrap().uploaded_bytes = 4;
    assert!(!s.has_sound_sizes());
}

#[test]
fn sizes_for_the_user() {
    assert_eq!(human_bytes(0), "0 B");
    assert_eq!(human_bytes(1023), "1023 B");
    assert_eq!(human_bytes(1024), "1.0 KB");
    assert_eq!(human_bytes(1536), "1.5 KB");
    assert_eq!(human_bytes(1024 * 1024 - 1), "1024.0 KB");
    assert_eq!(human_bytes(5 * 1024 * 1024), "5.0 MB");
    assert_eq!(human_bytes(1024 * 1024 * 1024 * 3 / 2), "1.5 GB");
}

#[test]
fn sizes_are_rounded_like_floating_point_numbers() {
    let expected = |bytes: u64| {
        let b = bytes as f64;
        if bytes >= 1 << 30 {
            format!("{:.1} GB", b / (1u64 << 30) as f64)
        } else if bytes >= 1 << 20 {
            format!("{:.1} MB", b / (1u64 << 20) as f64)
        } else if bytes >= 1 << 10 {
            format!("{:.1} KB", b / (1u64 << 10) as f64)
        } else {
            format!("{} B", bytes)
        }
    };
    let mut samples: Vec<u64> = vec![u64::MAX, u64::MAX - 1, (1 << 53) + 1, (1 << 63) + 1025];
    for unit in [1u64 << 10, 1 << 20, 1 << 30] {
        for twentieth in 20..200 {
            let b = unit * twentieth / 20;
            samples.push(b - 1);
            samples.push(b);
            samples.push(b + 1);
        }
    }
    let mut x: u64 = 88172645463325252;
    for _ in 0..3000 {
        x ^= x << 13;
        x ^= x >> 7;
        x ^= x << 17;
        samples.push(x >> (x % 50));
    }
    for b in samples {
        assert_eq!(human_bytes(b), expected(b), "{b}");
    }
}

#[test]
fn templates_are_filled_in() {
    let agg = AggregateProgress {
        percentage: Percentage::Ratio { part: 1, whole: 4 },
        total_size: 4096,
        uploaded_size: 1024,
        total_transfers: Some(3),
        completed_transfers: Some(1),
        total_files: 12,
        completed_files: 5,
        state: GlobalUploaderState::Running,
    };
    let t = "{percentage} {uploadedSize}/{totalSize} {completedTransfers}/{totalTransfers} {completedFiles}/{totalFiles} {x}";
    assert_eq!(format_template(t, &agg, "25%"), "25% 1.0 KB/4.0 KB 1/3 5/12 {x}");
    let one = AggregateProgress { total_transfers: None, completed_transfers: None, ..agg };
    assert_eq!(format_template("{totalTransfers}{completedTransfers}", &one, "25%"), "{totalTransfers}{completedTransfers}");
    assert_eq!(format_template("{totalFiles}{totalFiles}", &agg, "25%"), "1212");
    assert_eq!(format_with_live_aggregate("", &agg, "25%"), "");
    assert_eq!(format_with_live_aggregate("{percentage}!", &agg, "25%"), "25%!");
}

#[test]
fn titles_use_the_session() {
    let mut s = Session::new();
    add(&mut s, "a", "h1", "t", 2048);
    assert_eq!(s.format_title("0%"), "");
    s.title_template = "{totalSize}".to_string();
    s.subtitle_template = "{percentage} of {totalFiles}".to_string();
    assert_eq!(s.format_title("0%"), "2.0 KB");
    assert_eq!(s.format_subtitle("0%"), "0% of 1");
}

#[test]
fn totals_of_the_session_are_sums_over_its_transfers() {
    let mut s = Session::new();
    add(&mut s, "a", "h1", "t1", 10);
    add(&mut s, "b", "h2", "t2", 20);
    add(&mut s, "c", "h3", "t1", 5);
    wait(&mut s, "h4", "t2", 30);
    s.set_file_uploaded_bytes("a", 4);
    s.set_file_uploaded_bytes("b", 7);
    s.mark_file_state("c", UploadState::Completed);
    let all = s.get_aggregate_progress(None);
    let (one, two) = (s.get_aggregate_progress(Some("t1")), s.get_aggregate_progress(Some("t2")));
    assert_eq!((all.total_size, all.uploaded_size), (65, 11));
    assert_eq!((one.total_size, one.uploaded_size), (15, 4));
    assert_eq!((two.total_size, two.uploaded_size), (50, 7));
    assert_eq!((all.total_files, one.total_files, two.total_files), (4, 2, 2));
    assert_eq!((all.completed_files, one.completed_files, two.completed_files), (1, 1, 0));
}

#[test]
fn cancelling_and_noting_bytes_keep_sizes_sound() {
    let mut s = Session::new();
    add(&mut s, "a", "h1", "t1", u64::MAX - 2);
    add(&mut s, "b", "h2", "t2", 1);
    wait(&mut s, "h3", "t1", 1);
    assert!(s.has_sound_sizes());
    s.set_file_uploaded_bytes("b", 9);
    assert!(s.has_sound_sizes());
    assert_eq!(s.get_aggregate_progress(Some("t2")).uploaded_size, 1);
    s.cancel_file_by_hash("h3");
    assert!(s.has_sound_sizes());
    s.cancel_file("b");
    assert!(s.has_sound_sizes());
    s.cancel_transfer("t1");
    assert!(s.has_sound_sizes());
    assert_eq!(s.get_aggregate_progress(None).total_size, 0);
}
