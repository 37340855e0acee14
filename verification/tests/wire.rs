use bg_uploader::api::{
    complete_upload_body, complete_upload_url, is_retryable_complete_error, start_upload_body,
    start_upload_fields, upload_urls_batch_body, CompleteRequest, UploadUrlsBatchResponse,
};
use bg_uploader::attempt::{answered, answered_with_status, may_send, request_failed};
use bg_uploader::chunk::{clean_etag, ChunkInfo, ChunkRead, ChunkUploadResult};
use bg_uploader::config::{get_config, set_config};
use bg_uploader::hash::hash_content;
use bg_uploader::meter::ProgressMeter;
use bg_uploader::string_map::StringMap;
use bg_uploader::text::{
    contains_text, decimal_text, hex_text, lower_text, parse_u32, replace_text, same_text,
};
use serde_json::Value;

fn result(part_number: u32, etag: &str) -> ChunkUploadResult {
    ChunkUploadResult { part_number, etag: etag.to_string() }
}

#[test]
fn start_body_overrides_the_parameters() {
    let mut params = StringMap::new();
    params.insert("folder".to_string(), "a\"b".to_string());
    params.insert("fileSize".to_string(), "lie".to_string());
    let body = start_upload_body("n.bin", "hash", 42, &params).unwrap();
    let v: Value = serde_json::from_str(&body).unwrap();
    assert_eq!(v["folder"], Value::from("a\"b"));
    assert_eq!(v["fileName"], Value::from("n.bin"));
    assert_eq!(v["fileHash"], Value::from("hash"));
    assert_eq!(v["fileSize"], Value::from("42"));
    assert_eq!(v.as_object().unwrap().len(), 4);
    let fields = start_upload_fields("n.bin", "hash", 42, &params);
    assert_eq!(fields.len(), 4);
    assert_eq!(fields.key_at(1), "fileSize");
    assert_eq!(fields.value_at(1), "42");
    assert_eq!(params.get("fileSize").unwrap(), "lie");
}

#[test]
fn batch_body() {
    let body = upload_urls_batch_body("k", "u", &[3, 1]).unwrap();
    assert_eq!(body, "{\"key\":\"k\",\"parts\":[3,1],\"uploadId\":\"u\"}");
    let empty = upload_urls_batch_body("k", "u", &[]).unwrap();
    let v: Value = serde_json::from_str(&empty).unwrap();
    assert_eq!(v["parts"].as_array().unwrap().len(), 0);
}

#[test]
fn complete_body_is_sorted() {
    let body = complete_upload_body(vec![result(3, "c"), result(1, "a"), result(2, "b")]).unwrap();
    assert_eq!(
        body,
        "{\"parts\":[{\"ETag\":\"a\",\"PartNumber\":1},{\"ETag\":\"b\",\"PartNumber\":2},{\"ETag\":\"c\",\"PartNumber\":3}]}"
    );
    assert_eq!(complete_upload_body(vec![]).unwrap(), "{\"parts\":[]}");
}

#[test]
fn sorting_keeps_equal_numbers_in_order() {
    let r = CompleteRequest::from_upload_results(vec![
        result(2, "x"),
        result(1, "p"),
        result(2, "y"),
        result(1, "q"),
        result(2, "z"),
    ]);
    let order: Vec<(u32, &str)> = r.parts.iter().map(|p| (p.part_number, p.etag.as_str())).collect();
    assert_eq!(order, vec![(1, "p"), (1, "q"), (2, "x"), (2, "y"), (2, "z")]);
    assert!(r.serialize().unwrap().starts_with("{\"parts\":[{\"ETag\":\"p\""));
}

#[test]
fn complete_url() {
    assert_eq!(complete_upload_url("https://h/c", "u", "a/b"), "https://h/c/u/a/b");
}

#[test]
fn urls_by_part_number() {
    let mut urls = StringMap::new();
    for (k, v) in [("1", "a"), ("x", "b"), ("+2", "c"), ("4294967295", "d"), ("4294967296", "e"), ("", "f"), ("01", "g")] {
        urls.insert(k.to_string(), v.to_string());
    }
    let m = UploadUrlsBatchResponse { urls }.into_part_map();
    assert_eq!(m.len(), 3);
    assert_eq!(m[&1], "g");
    assert_eq!(m[&2], "c");
    assert_eq!(m[&u32::MAX], "d");
}

#[test]
fn numbers_are_parsed_like_std() {
    for s in [
        "", "+", "-1", "0", "00", "+0", "++1", "1 ", " 1", "12a", "4294967295", "4294967296", "99999999999999999999",
        "99999999999999999999x", "+4294967295", "\u{661}",
    ] {
        assert_eq!(parse_u32(s), s.parse::<u32>().ok(), "{s:?}");
    }
}

#[test]
fn errors_that_a_pause_may_cure() {
    for e in [
        "operation Timed Out",
        "TIMEOUT",
        "Request is not finished within timeout",
        "the network connection was lost.",
        "Error NSURLErrorDomain Code=-1001",
        "Error NSURLErrorDomain Code=-1005 x",
    ] {
        assert!(is_retryable_complete_error(e), "{e}");
    }
    assert!(!is_retryable_complete_error("HTTP 500"));
    assert!(!is_retryable_complete_error("NSURLErrorDomain Code=-1009"));
}

#[test]
fn etags_lose_their_quotation_marks() {
    assert_eq!(clean_etag("\"abc\""), "abc");
    assert_eq!(clean_etag("abc"), "abc");
    assert_eq!(clean_etag("\"\"a\"b\"\""), "a\"b");
    assert_eq!(clean_etag("\"\""), "");
    assert_eq!(clean_etag(""), "");
}

#[test]
fn a_part_is_read_piece_by_piece() {
    let file: Vec<u8> = (0..100).collect();
    let chunk = ChunkInfo { part_number: 2, start_pos: 40, chunk_size: 40, url: String::new() };
    let mut read = ChunkRead::new(&chunk);
    let mut calls = 0;
    while let Some((offset, len)) = read.wanted() {
        let from = offset as usize;
        let n = len.min(7).min(file.len() - from);
        read.received(&file[from..from + n]);
        calls += 1;
    }
    assert_eq!(calls, 6);
    assert_eq!(read.finish(), file[40..80].to_vec());
}

#[test]
fn a_part_ends_with_the_file() {
    let chunk = ChunkInfo { part_number: 1, start_pos: 0, chunk_size: 10, url: String::new() };
    let mut read = ChunkRead::new(&chunk);
    assert_eq!(read.wanted(), Some((0, 10)));
    read.received(&[1, 2, 3]);
    assert_eq!(read.wanted(), Some((3, 7)));
    read.received(&[]);
    assert_eq!(read.wanted(), None);
    assert_eq!(read.finish(), vec![1, 2, 3]);
}

#[test]
fn the_meter_notes_every_quarter_megabyte() {
    let mut m = ProgressMeter::new(256 * 1024);
    assert_eq!(m.sent(0), None);
    assert_eq!(m.sent(200_000), None);
    assert_eq!(m.sent(100_000), Some(300_000));
    assert_eq!(m.sent(1), None);
    m.moved_to(0);
    assert_eq!(m.sent(262_143), None);
    assert_eq!(m.sent(1), Some(262_144));
    let mut every = ProgressMeter::new(0);
    assert_eq!(every.sent(1), Some(1));
    assert_eq!(every.sent(0), None);
    assert_eq!(every.sent(1), Some(2));
}

#[test]
fn attempts_are_held_back() {
    assert_eq!(may_send(false, true), Ok(()));
    assert_eq!(may_send(true, true), Err("paused".to_string()));
    assert_eq!(may_send(true, false), Err("paused".to_string()));
    assert_eq!(may_send(false, false), Err("stale run".to_string()));
    assert_eq!(request_failed("boom".to_string(), false, true), "boom");
    assert_eq!(request_failed("boom".to_string(), true, true), "paused");
    assert_eq!(request_failed("boom".to_string(), false, false), "stale run");
}

#[test]
fn answers_of_the_server() {
    assert_eq!(answered(Some("\"e\""), true), Ok("e".to_string()));
    assert_eq!(answered(Some("e"), false), Err("stale run".to_string()));
    assert_eq!(answered(None, true), Err("No ETag in response".to_string()));
    assert_eq!(answered_with_status(200, Some("\"e\"")), Ok("e".to_string()));
    assert_eq!(answered_with_status(299, None), Ok(String::new()));
    assert_eq!(answered_with_status(300, Some("e")), Err("HTTP 300".to_string()));
    assert_eq!(answered_with_status(199, Some("e")), Err("HTTP 199".to_string()));
}

#[test]
fn configuration() {
    let mut slot = None;
    assert_eq!(get_config(&mut slot).complete_api, "");
    set_config(&mut slot, "a", "b", "c");
    let cfg = get_config(&mut slot);
    assert_eq!((cfg.start_upload_api.as_str(), cfg.get_upload_urls_api.as_str(), cfg.complete_api.as_str()), ("a", "b", "c"));
}

#[test]
fn hashes_are_sha256_over_transfer_and_content() {
    let abc = "ba7816bf8f01cfea414140de5dae2223b00361a396177a9cb410ff61f20015ad";
    assert_eq!(hash_content("a", b"bc"), abc);
    assert_eq!(hash_content("", b"abc"), abc);
    assert_eq!(hash_content("abc", b""), abc);
    assert_eq!(
        hash_content("", b""),
        "e3b0c44298fc1c149afbf4c8996fb92427ae41e4649b934ca495991b7852b855"
    );
    assert_eq!(
        hash_content("abcdbcdecdefdefgefgh", b"fghighijhijkijkljklmklmnlmnomnopnopq"),
        "248d6a61d20638b8e5c026930c3e6039a33ce45964ff2167f6ecedd419db06c1"
    );
    assert_eq!(hash_content("\u{e4}", b"x"), hash_content("", &[0xc3, 0xa4, b'x']));
}

#[test]
fn the_whole_content_counts() {
    let mut content = vec![7u8; 200_000];
    let before = hash_content("t", &content);
    content[50_000] = 8;
    assert_ne!(hash_content("t", &content), before);
    assert_ne!(hash_content("u", &content), hash_content("t", &content));
    assert_eq!(hash_content("t", &content).len(), 64);
}

#[test]
fn texts() {
    assert!(same_text("a\u{e4}", "a\u{e4}") && !same_text("a", "b") && !same_text("a", "ab"));
    assert!(contains_text("stale run!", "stale run") && contains_text("x", "") && !contains_text("ab", "ba"));
    assert_eq!(replace_text("aaa", "aa", "b"), "ba");
    assert_eq!(replace_text("x{a}y{a}", "{a}", "{a}{a}"), "x{a}{a}y{a}{a}");
    assert_eq!(lower_text("A\u{c4}z"), "a\u{c4}z");
    assert_eq!(decimal_text(u64::MAX), u64::MAX.to_string());
    assert_eq!(decimal_text(0), "0");
    assert_eq!(hex_text(&[0, 255, 16]), "00ff10");
}
