use wayback_impersonator::filename::clean_filename;
use wayback_impersonator::text::{str_contains, str_less};
use wayback_impersonator::{
    begin_download, build_tasks, cdx_query_url, cdx_records, cdx_response_records,
    clean_extensions_for, count_statuses, decode_body, decompress_brotli, decompress_gzip,
    download_step, http_status_reason, nothing_to_download, record_outcome, retry_delay_millis,
    sanitize_filename, should_process, snapshot_url, CdxError, CdxRecord, DownloadAction,
    DownloadEvent, DownloadStatus, DownloadTask, Journal, StatusCounts,
};

use flate2::write::GzEncoder;
use flate2::Compression;
use std::io::Write;

fn gzip(data: &[u8]) -> Vec<u8> {
    let mut enc = GzEncoder::new(Vec::new(), Compression::default());
    enc.write_all(data).unwrap();
    enc.finish().unwrap()
}

fn brotli_bytes(data: &[u8]) -> Vec<u8> {
    let mut out = Vec::new();
    {
        let mut w = brotli::CompressorWriter::new(&mut out, 4096, 11, 22);
        w.write_all(data).unwrap();
    }
    out
}

fn record(original: &str, timestamp: &str) -> CdxRecord {
    CdxRecord {
        original: original.to_string(),
        timestamp: timestamp.to_string(),
        mimetype: "text/css".to_string(),
    }
}

fn task(name: &str, status: DownloadStatus) -> DownloadTask {
    DownloadTask {
        original_url: format!("https://example.com/{}", name),
        timestamp: "20230101000000".to_string(),
        status,
        local_filename: name.to_string(),
    }
}

fn strings(rows: &[&[&str]]) -> Vec<Vec<String>> {
    rows.iter().map(|r| r.iter().map(|s| s.to_string()).collect()).collect()
}

#[test]
fn extensions_follow_the_mime_type() {
    assert_eq!(clean_extensions_for("application/wasm"), vec![".wasm"]);
    assert_eq!(clean_extensions_for("text/css"), vec![".css"]);
    assert_eq!(clean_extensions_for("image/png"), vec![".png"]);
    assert_eq!(clean_extensions_for("image/jpeg"), vec![".jpeg", ".jpg"]);
    assert_eq!(clean_extensions_for("image/jpg"), vec![".jpeg", ".jpg"]);
    assert_eq!(clean_extensions_for("application/octet-stream"), vec![".bin"]);
    assert_eq!(
        clean_extensions_for("font/woff2"),
        vec![".woff2", ".woff", ".ttf", ".eot"]
    );
    assert_eq!(
        clean_extensions_for("application/vnd.ms-fontobject"),
        vec![".woff2", ".woff", ".ttf", ".eot"]
    );
    assert_eq!(clean_extensions_for("image/svg+xml"), vec![".svg"]);
    assert_eq!(
        clean_extensions_for("text/html"),
        vec![".html", ".js", ".json", ".txt"]
    );
}

#[test]
fn clean_filename_strips_every_leading_slash() {
    assert_eq!(clean_filename("///a/b.css", None, &[".css"]), "a_b.css");
}

#[test]
fn clean_filename_appends_query_then_cuts() {
    assert_eq!(clean_filename("/x/y.js", Some("v=1"), &[".json"]), "x_y.js_v=1");
    assert_eq!(clean_filename("/x/y.js", Some("v=1"), &[".js"]), "x_y.js");
    assert_eq!(clean_filename("/p", Some("a/b"), &[]), "p_a_b");
}

#[test]
fn clean_filename_cuts_at_first_occurrence() {
    assert_eq!(clean_filename("/a.css.css", None, &[".css"]), "a.css");
    assert_eq!(clean_filename("/a.woff.woff2", None, &[".woff2", ".woff"]), "a.woff.woff2");
    assert_eq!(clean_filename("/a.bin", None, &[""]), "");
}

#[test]
fn sanitize_uses_the_parsed_path_not_the_host() {
    assert_eq!(
        sanitize_filename("https://cdn.example.com:8080/static/js/app.js#frag", &[".js"]),
        "static_js_app.js"
    );
}

#[test]
fn sanitize_unparsable_input_is_still_flattened() {
    assert_eq!(sanitize_filename("/dir/file.wasm?x", &[".wasm"]), "dir_file.wasm");
}

#[test]
fn sanitized_names_are_flat_without_query() {
    let name = sanitize_filename("https://example.com/a/b/c/d.png", &[".html"]);
    assert_eq!(name, "a_b_c_d.png");
    assert!(!name.contains('/'));
}

#[test]
fn build_tasks_tie_keeps_first_record() {
    let records = vec![
        record("https://example.com/s.css?v=1", "20230101000000"),
        record("https://example.com/s.css?v=2", "20230101000000"),
    ];
    let tasks = build_tasks(records, "text/css");
    assert_eq!(tasks.len(), 1);
    assert_eq!(tasks[0].original_url, "https://example.com/s.css?v=1");
    assert_eq!(tasks[0].local_filename, "s.css");
}

#[test]
fn build_tasks_newer_capture_replaces_and_keeps_its_url() {
    let records = vec![
        record("https://example.com/s.css?v=1", "20200101000000"),
        record("https://example.com/other.css", "20990101000000"),
        record("https://example.com/s.css?v=2", "20210101000000"),
    ];
    let tasks = build_tasks(records, "text/css");
    assert_eq!(tasks.len(), 2);
    assert_eq!(tasks[0].local_filename, "s.css");
    assert_eq!(tasks[0].original_url, "https://example.com/s.css?v=2");
    assert_eq!(tasks[0].timestamp, "20210101000000");
    assert_eq!(tasks[1].local_filename, "other.css");
}

#[test]
fn build_tasks_names_are_distinct() {
    let records = vec![
        record("https://example.com/a.css", "1"),
        record("https://example.com/b.css", "2"),
        record("https://example.com/a.css?x", "3"),
        record("https://example.com/b.css", "0"),
    ];
    let tasks = build_tasks(records, "text/css");
    assert_eq!(tasks.len(), 2);
    assert_ne!(tasks[0].local_filename, tasks[1].local_filename);
    assert_eq!(tasks[0].timestamp, "3");
    assert_eq!(tasks[1].timestamp, "2");
}

#[test]
fn lexicographic_order_is_that_of_strings() {
    assert!(str_less("2020", "2021"));
    assert!(str_less("202", "2020"));
    assert!(!str_less("2021", "2021"));
    assert_eq!(str_less("9", "10"), "9" < "10");
    assert_eq!(str_less("a", "é"), "a" < "é");
    assert!(str_less("a", "é"));
    assert!(str_contains("application/wasm", "wasm"));
    assert!(!str_contains("wa", "wasm"));
    assert!(str_contains("x", ""));
}

#[test]
fn cdx_url_for_a_domain() {
    assert_eq!(
        cdx_query_url("wokwi.com", "application/wasm"),
        "http://web.archive.org/cdx/search/cdx?url=wokwi.com/*&filter=mimetype:application%2Fwasm&collapse=urlkey&output=json"
    );
    assert_eq!(
        cdx_query_url("a.b", "x y*~"),
        "http://web.archive.org/cdx/search/cdx?url=a.b/*&filter=mimetype:x+y*%7E&collapse=urlkey&output=json"
    );
}

#[test]
fn cdx_url_given_directly_is_kept() {
    let direct = "http://web.archive.org/cdx/search/cdx?url=x.org/*";
    assert_eq!(cdx_query_url(direct, "text/css"), direct);
}

#[test]
fn cdx_records_reads_columns_by_name() {
    let data = strings(&[
        &["urlkey", "timestamp", "original", "mimetype"],
        &["k1", "20200101", "https://a/x.css", "text/css"],
        &["k2", "", "https://a/y.css", "text/css"],
        &["k3", "20210101", "https://a/z.css"],
        &["k4"],
    ]);
    let records = cdx_records(&data);
    assert_eq!(records.len(), 2);
    assert_eq!(records[0].original, "https://a/x.css");
    assert_eq!(records[0].timestamp, "20200101");
    assert_eq!(records[0].mimetype, "text/css");
    assert_eq!(records[1].original, "https://a/z.css");
    assert_eq!(records[1].mimetype, "");
}

#[test]
fn cdx_records_of_header_only_table_is_empty() {
    assert!(cdx_records(&strings(&[&["original", "timestamp"]])).is_empty());
    assert!(cdx_records(&Vec::new()).is_empty());
}

#[test]
fn decompress_gzip_error_variant() {
    assert!(decompress_gzip(b"\x1f\x8bnot really").is_err());
}

#[test]
fn decode_body_by_content_encoding() {
    let body = b"payload".to_vec();
    assert_eq!(decode_body(Some("GZIP"), gzip(&body)), body);
    assert_eq!(decode_body(Some("br"), brotli_bytes(&body)), body);
    assert_eq!(decode_body(Some("identity"), body.clone()), body);
    assert_eq!(decode_body(None, gzip(&body)), body);
    assert_eq!(decode_body(None, body.clone()), body);
    let junk = vec![0x1f, 0x8b, 0x00];
    assert_eq!(decode_body(None, junk.clone()), junk);
    assert_eq!(decode_body(Some("gzip"), junk.clone()), junk);
}

#[test]
fn decompress_brotli_decodes_real_data() {
    let data = brotli_bytes(b"abcabcabc");
    assert_eq!(decompress_brotli(&data).unwrap(), b"abcabcabc".to_vec());
}

#[test]
fn statuses_are_counted() {
    let tasks = vec![
        task("a", DownloadStatus::Pending),
        task("b", DownloadStatus::Success),
        task("c", DownloadStatus::Failed { reason: "x".to_string() }),
        task("d", DownloadStatus::Pending),
    ];
    let counts = count_statuses(&tasks);
    assert_eq!(counts, StatusCounts { pending: 2, success: 1, failed: 1 });
    assert_eq!(counts.pending + counts.success + counts.failed, tasks.len());
}

#[test]
fn nothing_to_download_cases() {
    let done = StatusCounts { pending: 0, success: 3, failed: 0 };
    let failed = StatusCounts { pending: 0, success: 1, failed: 2 };
    let pending = StatusCounts { pending: 1, success: 0, failed: 0 };
    assert!(nothing_to_download(&done, true));
    assert!(nothing_to_download(&failed, false));
    assert!(!nothing_to_download(&failed, true));
    assert!(!nothing_to_download(&pending, false));
}

#[test]
fn retry_filter_decides_failed_tasks() {
    let failed = DownloadStatus::Failed { reason: "HTTP Status 429".to_string() };
    assert!(should_process(&DownloadStatus::Pending, None));
    assert!(!should_process(&DownloadStatus::Success, Some("all")));
    assert!(!should_process(&failed, None));
    assert!(should_process(&failed, Some("all")));
    assert!(should_process(&failed, Some("429")));
    assert!(should_process(&failed, Some("http status")));
    assert!(!should_process(&failed, Some("timeout")));
    assert!(!should_process(&failed, Some("ALL")));
}

#[test]
fn snapshot_url_format() {
    assert_eq!(
        snapshot_url("20230101000000", "https://example.com/app.wasm"),
        "http://web.archive.org/web/20230101000000id_/https://example.com/app.wasm"
    );
}

#[test]
fn retry_delays() {
    assert_eq!(retry_delay_millis(0), 500);
    assert_eq!(retry_delay_millis(1), 2000);
    assert_eq!(retry_delay_millis(4), 6500);
}

#[test]
fn outcome_changes_one_task() {
    let mut journal = Journal {
        target_url: "example.com".to_string(),
        mime_type: "text/css".to_string(),
        tasks: vec![task("a", DownloadStatus::Pending), task("b", DownloadStatus::Pending)],
    };
    record_outcome(&mut journal, 1, Some("HTTP Status 503".to_string()));
    assert_eq!(journal.tasks[0].status, DownloadStatus::Pending);
    assert_eq!(
        journal.tasks[1].status,
        DownloadStatus::Failed { reason: "HTTP Status 503".to_string() }
    );
    record_outcome(&mut journal, 0, None);
    assert_eq!(journal.tasks[0].status, DownloadStatus::Success);
    assert_eq!(journal.tasks[0].local_filename, "a");
    assert_eq!(journal.tasks.len(), 2);
}

#[test]
fn svg_names_are_cut_at_the_extension() {
    let tasks = build_tasks(
        vec![CdxRecord {
            original: "https://example.com/icon.svg?v=1".to_string(),
            timestamp: "20230101000000".to_string(),
            mimetype: "image/svg+xml".to_string(),
        }],
        "image/svg+xml",
    );
    assert_eq!(tasks.len(), 1);
    assert_eq!(tasks[0].local_filename, "icon.svg");
}

#[test]
fn query_slashes_never_make_directories() {
    let name = sanitize_filename("https://example.com/a?x=b/c", &[".wasm"]);
    assert_eq!(name, "a_x=b_c");
    assert!(!name.contains('/'));
}

#[test]
fn cdx_response_is_parsed_from_json() {
    let body = br#"[["urlkey","timestamp","original","mimetype"],["k","20200101","https://a/x.css","text/css"]]"#;
    let records = cdx_response_records(200, body).unwrap();
    assert_eq!(records.len(), 1);
    assert_eq!(records[0].original, "https://a/x.css");
    assert_eq!(records[0].timestamp, "20200101");
    assert!(cdx_response_records(200, b"[]").unwrap().is_empty());
}

#[test]
fn cdx_response_errors() {
    assert!(matches!(cdx_response_records(503, b"[]"), Err(CdxError::HttpStatus(503))));
    assert!(matches!(cdx_response_records(200, b"not json"), Err(CdxError::InvalidJson)));
    assert!(matches!(cdx_response_records(200, br#"[[1,2]]"#), Err(CdxError::InvalidJson)));
}

#[test]
fn http_status_reasons() {
    assert_eq!(http_status_reason(429), "HTTP Status 429");
    assert_eq!(http_status_reason(0), "HTTP Status 0");
    assert_eq!(http_status_reason(4294967295), "HTTP Status 4294967295");
}

#[test]
fn download_steps_retry_then_give_up() {
    let (state, action) = begin_download(2);
    assert!(matches!(action, DownloadAction::Attempt { attempt: 0, delay_millis: 500 }));
    let (state, action) = download_step(state, DownloadEvent::Responded { status: 503 }, 2);
    assert!(matches!(action, DownloadAction::Attempt { attempt: 1, delay_millis: 2000 }));
    assert_eq!(state.last_failure, "HTTP Status 503");
    let (state, action) =
        download_step(state, DownloadEvent::RequestFailed { message: "timeout".to_string() }, 2);
    assert_eq!(state.attempts_started, 2);
    match action {
        DownloadAction::Finish { failure } => assert_eq!(failure, Some("Scraper error: timeout".to_string())),
        _ => panic!("expected the end"),
    }
}

#[test]
fn download_steps_store_then_succeed() {
    let (state, _) = begin_download(3);
    let (state, action) = download_step(state, DownloadEvent::Responded { status: 200 }, 3);
    assert!(matches!(action, DownloadAction::Store));
    let (state, action) =
        download_step(state, DownloadEvent::WriteFailed { message: "disk full".to_string() }, 3);
    assert!(matches!(action, DownloadAction::Attempt { attempt: 1, .. }));
    assert_eq!(state.last_failure, "Disk write error: disk full");
    let (_, action) = download_step(state, DownloadEvent::Stored, 3);
    assert!(matches!(action, DownloadAction::Finish { failure: None }));
}

#[test]
fn download_without_attempts_is_not_started() {
    let (_, action) = begin_download(0);
    match action {
        DownloadAction::Finish { failure } => assert_eq!(failure, Some("Not started".to_string())),
        _ => panic!("expected the end"),
    }
}
