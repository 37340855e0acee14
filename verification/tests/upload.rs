use std::cell::{Cell, RefCell};
use std::collections::{HashMap, HashSet};

use bg_uploader::async_engine::{given_up, AsyncRun, AsyncStep};
use bg_uploader::chunk::ChunkUploadResult;
use bg_uploader::engine::{BlockingEngineConfig, BlockingPrefetch, BlockingRun, WorkerStep};
use bg_uploader::ledger::Ledger;
use bg_uploader::parts::{completed_bytes, part_position, part_size_for, total_parts};
use bg_uploader::progress::ProgressManager;
use bg_uploader::retry::{retry_exhausted_error_with, run_with_retry_string, RetryPolicy, RetryStep};
use bg_uploader::session::Session;
use bg_uploader::state::{GlobalUploaderState, UploadState};
use bg_uploader::store::StoreCommand;
use bg_uploader::string_map::StringMap;
use bg_uploader::upload::{
    combine_upload_results, is_dividable, prepare_upload, register_started_upload, start_decision, StartDecision,
    StartResult, StartUploadResponse,
};
use bg_uploader::upload_orchestrator::{
    after_complete, after_parts, begin_upload, end_upload, plan_upload, PartsStep, UploadOutcome, UploadPlan,
};
use bg_uploader::url_pool::extend_urls;
use bg_uploader::{MAX_CONCURRENT_UPLOADS, MAX_RETRIES};

fn start(s: &mut Session, key: &str, size: u64, part_size: u64) {
    let k = register_started_upload(
        s,
        format!("hash-{key}"),
        "t",
        "/path".to_string(),
        "name".to_string(),
        size,
        StringMap::new(),
        StartUploadResponse { key: key.to_string(), upload_id: format!("up-{key}"), part_size },
    );
    assert_eq!(k, key);
}

fn urls(parts: &[u32]) -> HashMap<u32, String> {
    parts.iter().map(|p| (*p, format!("url{p}"))).collect()
}

fn result(part_number: u32, etag: &str) -> ChunkUploadResult {
    ChunkUploadResult { part_number, etag: etag.to_string() }
}

fn pairs(v: &[ChunkUploadResult]) -> Vec<(u32, &str)> {
    v.iter().map(|r| (r.part_number, r.etag.as_str())).collect()
}

#[test]
fn constants() {
    assert_eq!((MAX_CONCURRENT_UPLOADS, MAX_RETRIES), (4, 5));
}

#[test]
fn parts_of_a_file() {
    assert_eq!(total_parts(0, 5), 0);
    assert_eq!(total_parts(10, 5), 2);
    assert_eq!(total_parts(11, 5), 3);
    assert_eq!(total_parts(u64::MAX, u64::MAX), 1);
    assert_eq!(total_parts(0x1_0000_0002, 1), 2);
    assert_eq!(part_size_for(1, 5, 11), 5);
    assert_eq!(part_size_for(3, 5, 11), 1);
    assert_eq!(part_size_for(4, 5, 11), 0);
    let done: HashSet<u32> = [1, 3].into_iter().collect();
    assert_eq!(completed_bytes(&done, 5, 11), 6);
    let all: HashSet<u32> = [1, 2, 3].into_iter().collect();
    assert_eq!(completed_bytes(&all, 5, 11), 11);
}

#[test]
fn done_and_left_parts_make_up_the_file() {
    for done in 0..8u32 {
        let (a, b): (HashSet<u32>, HashSet<u32>) = (1..=3u32).partition(|p| done & (1 << (p - 1)) != 0);
        assert_eq!(completed_bytes(&a, 5, 11) + completed_bytes(&b, 5, 11), 11);
    }
}

#[test]
fn positions_of_parts() {
    assert_eq!(part_position(1, 5), Some(0));
    assert_eq!(part_position(3, 5), Some(10));
    assert_eq!(part_position(0, 5), None);
    assert_eq!(part_position(2, u64::MAX), Some(u64::MAX));
    assert_eq!(part_position(3, u64::MAX), None);
}

#[test]
fn a_started_upload_is_registered() {
    let mut s = Session::new();
    start(&mut s, "k", 11, 5);
    let f = s.find_by_hash("hash-k").unwrap();
    assert_eq!(f.upload_id.as_deref(), Some("up-k"));
    assert_eq!((f.part_size, f.total_parts), (Some(5), 3));
}

#[test]
fn what_becomes_of_a_file_that_is_handed_over() {
    let mut s = Session::new();
    assert!(matches!(start_decision(&s, "hash-k"), StartDecision::StartNew));
    start(&mut s, "k", 11, 5);
    assert!(matches!(start_decision(&s, "hash-k"), StartDecision::Resume { file_key } if file_key == "k"));
    s.mark_file_state("k", UploadState::Completed);
    assert!(matches!(start_decision(&s, "hash-k"), StartDecision::Completed { file_key } if file_key == "k"));
    s.mark_file_state("k", UploadState::Cancelled);
    assert!(matches!(start_decision(&s, "hash-k"), StartDecision::StartNew));
}

#[test]
fn results_of_a_start() {
    assert!(!StartResult::Completed("k".to_string()).should_upload());
    assert!(StartResult::Resumed("k".to_string()).should_upload());
    assert!(StartResult::Started("k".to_string()).should_upload());
    assert_eq!(StartResult::Resumed("k".to_string()).file_key(), "k");
}

#[test]
fn preparing_skips_what_is_done() {
    let mut s = Session::new();
    start(&mut s, "k", 11, 5);
    s.complete_chunk("k", 2, "e2".to_string(), 5);
    let p = prepare_upload(&s, "k", 11).unwrap();
    assert_eq!(p.remaining_parts, vec![1, 3]);
    assert_eq!((p.total_parts, p.committed_bytes, p.part_size), (3, 5, 5));
    assert_eq!(p.completed_etags, vec![(2, "e2".to_string())]);
    assert!(p.done_parts.contains(&2) && p.done_parts.len() == 1);
    assert_eq!((p.transfer_id.as_str(), p.upload_id.as_str()), ("t", "up-k"));
}

#[test]
fn preparing_needs_a_started_file() {
    let mut s = Session::new();
    assert_eq!(prepare_upload(&s, "k", 1).unwrap_err(), "File entry not found for k");
    s.register_file(
        "k".to_string(),
        "h".to_string(),
        "t".to_string(),
        String::new(),
        String::new(),
        1,
        StringMap::new(),
    );
    assert_eq!(prepare_upload(&s, "k", 1).unwrap_err(), "Missing upload_id for k");
    s.files.get_mut("k").unwrap().upload_id = Some("u".to_string());
    assert_eq!(prepare_upload(&s, "k", 1).unwrap_err(), "Missing part_size for k");
}

#[test]
fn old_results_come_before_new_ones() {
    let r = combine_upload_results(vec![(3, "c".to_string())], vec![result(1, "a"), result(2, "b")]);
    assert_eq!(pairs(&r), vec![(3, "c"), (1, "a"), (2, "b")]);
}

#[test]
fn urls_are_replaced_by_newer_ones() {
    let mut pool = urls(&[1, 2]);
    let more: HashMap<u32, String> = [(2, "new".to_string()), (3, "x".to_string())].into_iter().collect();
    extend_urls(&mut pool, &more);
    assert_eq!(pool.len(), 3);
    assert_eq!((pool[&1].as_str(), pool[&2].as_str(), pool[&3].as_str()), ("url1", "new", "x"));
}

fn engine(prefetch: BlockingPrefetch, fail_fast: bool, parts: Vec<u32>) -> BlockingRun {
    BlockingRun::new(BlockingEngineConfig { prefetch, fail_fast }, 5, 100, parts)
}

#[test]
fn batches_of_urls() {
    let all: Vec<u32> = (1..=10).collect();
    let up = engine(BlockingPrefetch::AllUpfront, true, all.clone());
    assert_eq!(up.first_batches(), vec![vec![1, 2, 3, 4], vec![5, 6, 7, 8], vec![9, 10]]);
    assert_eq!(up.batch_at(4), None);
    let run = engine(BlockingPrefetch::Rolling, true, all);
    assert_eq!(run.first_batches(), vec![vec![1, 2, 3, 4]]);
    assert_eq!(run.batch_at(0), None);
    assert_eq!(run.batch_at(3), None);
    assert_eq!(run.batch_at(4), Some(vec![5, 6, 7, 8]));
    assert_eq!(run.batch_at(8), Some(vec![9, 10]));
    let few = engine(BlockingPrefetch::Rolling, true, vec![7]);
    assert_eq!(few.first_batches(), vec![vec![7]]);
    assert!(engine(BlockingPrefetch::Rolling, true, vec![]).first_batches().is_empty());
    assert!(engine(BlockingPrefetch::AllUpfront, true, vec![]).first_batches().is_empty());
}

#[test]
fn a_blocking_run_stores_every_part() {
    let mut run = engine(BlockingPrefetch::Rolling, true, vec![2, 20, 21]);
    run.add_urls(&urls(&[2, 20, 21]));
    while let Some(idx) = run.hand_out() {
        assert!(!run.should_stop(false, true));
        assert!(run.can_step(idx, false, true));
        match run.step(idx, false, true) {
            WorkerStep::Upload(c) => {
                assert_eq!(c.start_pos, (c.part_number as u64 - 1) * 5);
                assert_eq!(c.chunk_size, if c.part_number == 21 { 0 } else { 5 });
                assert_eq!(c.url, format!("url{}", c.part_number));
                run.chunk_done(idx, format!("e{}", c.part_number));
                assert!(!run.is_out(idx));
            }
            other => panic!("{other:?}"),
        }
    }
    assert!(!run.exits_early(false, true));
    let r = run.finish(false, true).unwrap();
    assert_eq!(pairs(&r), vec![(2, "e2"), (20, "e20"), (21, "e21")]);
}

#[test]
fn a_part_is_handed_out_and_noted_once() {
    let mut l = Ledger::new(vec![4, 7]);
    assert_eq!((l.len(), l.next(), l.part_at(1)), (2, 0, 7));
    assert_eq!(l.slice(0, 2), vec![4, 7]);
    assert!(!l.is_out(0));
    assert_eq!(l.hand_out(), Some(0));
    assert_eq!(l.hand_out(), Some(1));
    assert_eq!(l.hand_out(), None);
    assert!(l.is_out(0) && l.is_out(1) && !l.is_out(2));
    l.note(1, "e7".to_string());
    assert!(l.is_out(0) && !l.is_out(1));
    l.note(0, "e4".to_string());
    assert_eq!(pairs(&l.finish().unwrap()), vec![(7, "e7"), (4, "e4")]);
}

#[test]
fn a_run_without_some_part_fails() {
    let mut l = Ledger::new(vec![1, 2]);
    l.hand_out();
    l.hand_out();
    l.note(0, "e1".to_string());
    assert_eq!(l.finish().unwrap_err(), "Only 1/2 parts uploaded successfully");
    assert!(Ledger::new(vec![]).finish().unwrap().is_empty());
}

#[test]
fn a_blocking_run_stops_when_paused_or_superseded() {
    let mut run = engine(BlockingPrefetch::Rolling, true, vec![1]);
    assert!(run.should_stop(true, true) && run.should_stop(false, false));
    assert_eq!(run.hand_out(), Some(0));
    assert!(matches!(run.step(0, true, true), WorkerStep::Stop));
    assert!(run.should_stop(false, true));
    assert!(run.exits_early(false, true));
    assert_eq!(run.finish(false, true).unwrap_err(), "Upload paused");
    let mut late = engine(BlockingPrefetch::Rolling, true, vec![1]);
    assert_eq!(late.hand_out(), Some(0));
    assert!(matches!(late.step(0, false, false), WorkerStep::Stop));
}

#[test]
fn only_an_uploaded_part_needs_a_position() {
    let mut run = engine(BlockingPrefetch::Rolling, false, vec![0]);
    assert!(!run.can_step(0, true, true));
    assert_eq!(run.hand_out(), Some(0));
    assert!(run.can_step(0, false, true));
    assert!(matches!(run.step(0, false, true), WorkerStep::MissingUrl { part_number: 0, stop: false }));
    run.add_urls(&urls(&[0]));
    assert!(!run.can_step(0, false, true));
    assert!(run.can_step(0, true, true) && run.can_step(0, false, false));
    assert!(matches!(run.step(0, true, true), WorkerStep::Stop));
    let mut run = AsyncRun::new(5, 30, vec![0]);
    assert!(run.is_next_sound());
    run.add_urls(&urls(&[0]));
    assert!(!run.is_next_sound());
    let mut run = AsyncRun::new(5, 30, vec![0]);
    assert!(run.begin_next().is_none());
    assert!(!run.is_next_sound());
}

#[test]
fn failed_parts_end_a_fail_fast_run() {
    let mut run = engine(BlockingPrefetch::Rolling, true, vec![1, 2]);
    assert_eq!(run.hand_out(), Some(0));
    assert!(matches!(run.step(0, false, true), WorkerStep::MissingUrl { part_number: 1, stop: true }));
    assert!(run.should_stop(false, true) && !run.exits_early(false, true));
    assert_eq!(run.finish(false, true).unwrap_err(), "Only 0/2 parts uploaded successfully");
    let mut run = engine(BlockingPrefetch::Rolling, true, vec![1]);
    assert!(run.chunk_failed("boom", false));
    assert!(run.should_stop(false, true) && !run.exits_early(false, true));
    for benign in ["is paused", "Interrupted", "stale run"] {
        let mut run = engine(BlockingPrefetch::Rolling, true, vec![1]);
        assert!(run.chunk_failed(benign, false));
        assert!(run.should_stop(false, true) && run.exits_early(false, true));
    }
    let mut run = engine(BlockingPrefetch::Rolling, true, vec![1]);
    assert!(run.chunk_failed("boom", true));
    assert!(run.should_stop(false, true) && run.exits_early(false, true));
    let mut run = engine(BlockingPrefetch::Rolling, true, vec![1]);
    run.worker_failed();
    assert!(run.should_stop(false, true));
    assert!(!run.exits_early(false, true) && run.exits_early(true, true));
}

#[test]
fn failed_parts_are_counted_otherwise() {
    let mut run = engine(BlockingPrefetch::AllUpfront, false, vec![1, 2]);
    run.add_urls(&urls(&[2]));
    assert_eq!((run.hand_out(), run.hand_out(), run.hand_out()), (Some(0), Some(1), None));
    assert!(matches!(run.step(0, false, true), WorkerStep::MissingUrl { part_number: 1, stop: false }));
    assert!(!run.chunk_failed("boom", false));
    assert!(!run.should_stop(false, true));
    run.chunk_done(1, "e".to_string());
    assert_eq!(run.finish(false, true).unwrap_err(), "Only 1/2 parts uploaded successfully");
}

#[test]
fn an_async_run_goes_through_its_parts() {
    let mut run = AsyncRun::new(5, 30, (1..=6).collect());
    assert_eq!(run.batch(), vec![1, 2, 3, 4]);
    run.add_urls(&urls(&[1, 2, 4]));
    let mut begun = Vec::new();
    for _ in 0..4 {
        assert!(run.can_begin(begun.len()) && run.is_next_sound());
        if let Some((idx, c)) = run.begin_next() {
            begun.push((idx, c.part_number));
        }
    }
    assert_eq!(begun, vec![(0, 1), (1, 2), (3, 4)]);
    assert!(!run.can_begin(4));
    match run.part_done(0, "e1".to_string(), false) {
        AsyncStep::Fetch(b) => assert_eq!(b, vec![5, 6]),
        other => panic!("{other:?}"),
    }
    run.add_urls(&urls(&[5, 6, 7, 8]));
    let (idx, c) = run.begin_next().unwrap();
    assert_eq!((idx, c.part_number, c.url.as_str()), (4, 5, "url5"));
    run.add_urls(&urls(&[9]));
    assert!(matches!(run.part_done(1, "e2".to_string(), false), AsyncStep::Next));
    let (idx, c) = run.begin_next().unwrap();
    assert_eq!((idx, c.start_pos, c.chunk_size), (5, 25, 5));
    assert!(matches!(run.part_done(3, "e4".to_string(), false), AsyncStep::Wait));
    assert!(matches!(run.part_done(4, "e5".to_string(), true), AsyncStep::Drain));
    assert!(run.is_out(2) && run.is_out(5) && !run.is_out(4));
    assert!(!run.can_begin(0));
    assert_eq!(run.finish().unwrap_err(), "Only 4/6 parts uploaded successfully");
}

#[test]
fn an_async_run_ends_with_every_part() {
    let mut run = AsyncRun::new(5, 8, vec![1, 2]);
    run.add_urls(&urls(&[1, 2]));
    assert_eq!(run.begin_next().unwrap().1.chunk_size, 5);
    assert_eq!(run.begin_next().unwrap().1.chunk_size, 3);
    assert!(matches!(run.part_done(1, "e2".to_string(), false), AsyncStep::Wait));
    assert!(matches!(run.part_done(0, "e1".to_string(), false), AsyncStep::Wait));
    assert_eq!(pairs(&run.finish().unwrap()), vec![(2, "e2"), (1, "e1")]);
}

#[test]
fn errors_of_a_run_that_was_given_up() {
    assert_eq!(given_up(Some("boom".to_string()), false), "boom");
    assert_eq!(given_up(Some("boom".to_string()), true), "Upload paused");
    assert_eq!(given_up(None, false), "Upload paused");
}

#[test]
fn pauses_double() {
    let p = RetryPolicy::new(5);
    let d: Vec<Option<u32>> = (1..=5).map(|a| p.delay_ms(a)).collect();
    assert_eq!(d, vec![Some(1000), Some(2000), Some(4000), Some(8000), None]);
    assert_eq!(RetryPolicy::new(24).delay_ms(23), Some(4_194_304_000));
}

#[test]
fn retrying_until_success() {
    let calls = Cell::new(0usize);
    let told = RefCell::new(Vec::new());
    let r = run_with_retry_string(
        &RetryPolicy::new(5),
        |n| {
            calls.set(n);
            if n < 3 {
                Err(format!("e{n}"))
            } else {
                Ok(n * 10)
            }
        },
        |n, e, d| told.borrow_mut().push((n, e.to_string(), d)),
    );
    assert_eq!(r, Ok(30));
    assert_eq!(calls.get(), 3);
    assert_eq!(*told.borrow(), vec![(1, "e1".to_string(), 1000), (2, "e2".to_string(), 2000)]);
}

#[test]
fn retrying_in_vain() {
    let told = Cell::new(0);
    let r: Result<(), String> =
        run_with_retry_string(&RetryPolicy::new(3), |n| Err(format!("e\"{n}")), |_, _, _| told.set(told.get() + 1));
    assert_eq!(r.unwrap_err(), format!("Failed after {} retries: {:?}", 3, Some("e\"3".to_string())));
    assert_eq!(told.get(), 2);
    let none: Result<(), String> = run_with_retry_string(&RetryPolicy::new(0), |_| Ok(()), |_, _, _| {});
    assert_eq!(none.unwrap_err(), "Failed after 0 retries: None");
}

#[test]
fn exhausted_message_quotes_the_error() {
    for e in ["plain", "tab\t", "new\nline", "quote\"", "back\\slash", "\u{e4}\u{200b}"] {
        let expected = format!("Failed after {} retries: {:?}", 7, Some(e.to_string()));
        assert_eq!(retry_exhausted_error_with(7, Some(e)), expected);
    }
}

#[test]
fn the_course_of_an_upload() {
    let mut s = Session::new();
    let mut m = ProgressManager::new();
    start(&mut s, "k", 11, 5);
    assert_eq!(begin_upload(&mut s, "k"), StoreCommand::Save);
    assert_eq!(s.global_state, GlobalUploaderState::Running);
    let (prepared, notices) = match plan_upload(&mut m, &mut s, "k", Ok(11)) {
        UploadPlan::Upload { prepared, notices } => (prepared, notices),
        other => panic!("{other:?}"),
    };
    assert_eq!(notices.len(), 1);
    assert_eq!(notices[0].file.state, UploadState::Running);
    let results = vec![result(1, "a"), result(2, "b"), result(3, "c")];
    let all = match after_parts(&s, "k", &prepared, Ok(results), false, true) {
        PartsStep::Complete(v) => v,
        other => panic!("{other:?}"),
    };
    assert_eq!(all.len(), 3);
    let outcome = after_complete(Ok(()));
    assert!(matches!(outcome, UploadOutcome::Completed));
    let end = end_upload(&mut m, &mut s, "k", &outcome);
    assert!(end.session_completed);
    assert_eq!(end.commands, vec![StoreCommand::Save, StoreCommand::Clear]);
    assert_eq!(end.notice.unwrap().file.state, UploadState::Completed);
    assert!(s.files.is_empty());
}

#[test]
fn an_upload_with_all_parts_stored_is_only_completed() {
    let mut s = Session::new();
    let mut m = ProgressManager::new();
    start(&mut s, "k", 4, 5);
    s.complete_chunk("k", 1, "e1".to_string(), 4);
    match plan_upload(&mut m, &mut s, "k", Ok(4)) {
        UploadPlan::Complete { upload_id, results } => {
            assert_eq!(upload_id, "up-k");
            assert_eq!(pairs(&results), vec![(1, "e1")]);
        }
        other => panic!("{other:?}"),
    }
    assert!(m.tracked_file_keys().is_empty());
}

#[test]
fn a_plan_can_fail() {
    let mut s = Session::new();
    let mut m = ProgressManager::new();
    assert!(matches!(plan_upload(&mut m, &mut s, "k", Err("io".to_string())), UploadPlan::Fail(e) if e == "io"));
    assert!(matches!(plan_upload(&mut m, &mut s, "k", Ok(1)), UploadPlan::Fail(e) if e == "File entry not found for k"));
    start(&mut s, "k", 11, 5);
    s.set_upload_info("k", "up".to_string(), 0, 0);
    assert!(!is_dividable(&s, "k"));
    assert!(matches!(plan_upload(&mut m, &mut s, "k", Err("gone".to_string())), UploadPlan::Fail(e) if e == "gone"));
}

#[test]
fn a_file_paused_before_its_progress_begins_is_shown_paused() {
    let mut s = Session::new();
    let mut m = ProgressManager::new();
    start(&mut s, "k", 11, 5);
    begin_upload(&mut s, "k");
    s.pause_all();
    match plan_upload(&mut m, &mut s, "k", Ok(11)) {
        UploadPlan::Upload { notices, .. } => {
            assert_eq!(notices.len(), 2);
            assert_eq!(notices[1].file.state, UploadState::Paused);
        }
        other => panic!("{other:?}"),
    }
}

#[test]
fn what_follows_from_the_parts() {
    let mut s = Session::new();
    start(&mut s, "k", 11, 5);
    s.mark_file_state("k", UploadState::Running);
    let p = prepare_upload(&s, "k", 11).unwrap();
    let end = |s: &Session, r: Result<Vec<ChunkUploadResult>, String>, paused: bool, current: bool| {
        after_parts(s, "k", &p, r, paused, current)
    };
    let err = |m: &str| Err(m.to_string());
    assert!(matches!(end(&s, Ok(vec![]), false, false), PartsStep::End(UploadOutcome::Paused)));
    let two = vec![result(1, "a"), result(3, "c")];
    let short = "Only 2/3 parts uploaded successfully";
    assert!(matches!(end(&s, Ok(two), false, true), PartsStep::End(UploadOutcome::Failed(e)) if e == short));
    assert!(matches!(end(&s, err("x"), true, true), PartsStep::End(UploadOutcome::Paused)));
    assert!(matches!(end(&s, err("Upload paused"), false, true), PartsStep::End(UploadOutcome::Paused)));
    assert!(matches!(end(&s, err("a stale run b"), false, true), PartsStep::End(UploadOutcome::Paused)));
    assert!(matches!(end(&s, err("x"), false, true), PartsStep::End(UploadOutcome::Failed(e)) if e == "x"));
    s.mark_file_state("k", UploadState::NotStarted);
    assert!(matches!(end(&s, err("x"), false, true), PartsStep::End(UploadOutcome::Paused)));
}

#[test]
fn what_follows_from_completing() {
    assert!(matches!(after_complete(Err("stale run".to_string())), UploadOutcome::Paused));
    assert!(matches!(after_complete(Err("HTTP 500".to_string())), UploadOutcome::Failed(e) if e == "HTTP 500"));
}

#[test]
fn other_outcomes() {
    let mut s = Session::new();
    let mut m = ProgressManager::new();
    start(&mut s, "k", 11, 5);
    begin_upload(&mut s, "k");
    let end = end_upload(&mut m, &mut s, "k", &UploadOutcome::Failed("x".to_string()));
    assert!(end.notice.is_none() && !end.session_completed);
    assert_eq!(s.files.get("k").unwrap().state, UploadState::Failed);
    let end = end_upload(&mut m, &mut s, "k", &UploadOutcome::Paused);
    assert_eq!(end.commands, vec![StoreCommand::Save]);
    assert_eq!(s.files.get("k").unwrap().state, UploadState::Paused);
    s.mark_file_state("k", UploadState::NotStarted);
    let end = end_upload(&mut m, &mut s, "k", &UploadOutcome::Paused);
    assert!(end.commands.is_empty());
    assert_eq!(s.files.get("k").unwrap().state, UploadState::NotStarted);
    start(&mut s, "other", 1, 1);
    let end = end_upload(&mut m, &mut s, "k", &UploadOutcome::Completed);
    assert!(!end.session_completed);
    assert_eq!(end.commands, vec![StoreCommand::Save]);
}

#[test]
fn a_file_is_divided_only_where_its_parts_have_positions() {
    let mut s = Session::new();
    assert!(is_dividable(&s, "k"));
    start(&mut s, "k", 11, 5);
    assert!(is_dividable(&s, "k"));
    s.set_upload_info("k", "up".to_string(), 0, 0);
    assert!(!is_dividable(&s, "k"));
    s.set_upload_info("k", "up".to_string(), u64::MAX, 1);
    assert!(is_dividable(&s, "k"));
    s.complete_chunk("k", 3, "e".to_string(), 1);
    assert!(!is_dividable(&s, "k"));
}

#[test]
fn an_upload_is_completed_with_every_part() {
    let mut s = Session::new();
    start(&mut s, "k", 11, 5);
    s.complete_chunk("k", 2, "e2".to_string(), 5);
    let p = prepare_upload(&s, "k", 11).unwrap();
    let new = vec![result(3, "e3"), result(1, "e1")];
    let PartsStep::Complete(all) = after_parts(&s, "k", &p, Ok(new), false, true) else {
        panic!("not to be completed");
    };
    assert_eq!(pairs(&all), vec![(2, "e2"), (3, "e3"), (1, "e1")]);
}

#[test]
fn what_follows_from_an_attempt() {
    let p = RetryPolicy::new(3);
    assert!(matches!(p.after_attempt(1, Ok(7)), RetryStep::Return(7)));
    let again = p.after_attempt::<u8>(2, Err("e".to_string()));
    assert!(matches!(again, RetryStep::Again { error, delay_ms: 2000 } if error == "e"));
    let last = p.after_attempt::<u8>(3, Err("e".to_string()));
    assert!(matches!(last, RetryStep::GiveUp(m) if m == "Failed after 3 retries: Some(\"e\")"));
}
