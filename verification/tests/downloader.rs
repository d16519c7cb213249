use brotli::CompressorWriter;
use flate2::write::GzEncoder;
use flate2::Compression;
use std::io::Write;
use wayback_impersonator::{
    build_tasks, decompress_brotli, decompress_gzip, sanitize_filename, CdxRecord, DownloadStatus,
};

fn gzip_compress(data: &[u8]) -> Vec<u8> {
    let mut enc = GzEncoder::new(Vec::new(), Compression::default());
    enc.write_all(data).unwrap();
    enc.finish().unwrap()
}

fn brotli_compress(data: &[u8]) -> Vec<u8> {
    let mut out = Vec::new();
    {
        let mut w = CompressorWriter::new(&mut out, 4096, 11, 22);
        w.write_all(data).unwrap();
    }
    out
}

fn make_record(original: &str, timestamp: &str) -> CdxRecord {
    CdxRecord {
        original: original.to_string(),
        timestamp: timestamp.to_string(),
        mimetype: "application/wasm".to_string(),
    }
}

#[test]
fn sanitize_simple_path() {
    assert_eq!(
        sanitize_filename("https://example.com/file.wasm", &[".wasm"]),
        "file.wasm"
    );
}

#[test]
fn sanitize_nested_path_replaces_slashes() {
    assert_eq!(
        sanitize_filename("https://example.com/a/b/c.wasm", &[".wasm"]),
        "a_b_c.wasm"
    );
}

#[test]
fn sanitize_strips_query_after_extension() {
    assert_eq!(
        sanitize_filename("https://example.com/main.css?v=42&cb=1", &[".css"]),
        "main.css"
    );
}

#[test]
fn sanitize_query_string_appended_when_no_ext_match() {
    let result = sanitize_filename("https://example.com/data.bin?x=1", &[".wasm"]);
    assert!(result.contains("data.bin"));
    assert!(result.contains("x=1"));
}

#[test]
fn sanitize_invalid_url_returns_input() {
    let result = sanitize_filename("not_a_url", &[".wasm"]);
    assert_eq!(result, "not_a_url");
}

#[test]
fn sanitize_root_path_trims_leading_slash() {
    let result = sanitize_filename("https://example.com/", &[".html"]);
    assert_eq!(result, "");
}

#[test]
fn sanitize_chooses_first_matching_extension() {
    let result = sanitize_filename(
        "https://example.com/fonts/icon.woff2?v=3",
        &[".woff2", ".woff"],
    );
    assert_eq!(result, "fonts_icon.woff2");
}

#[test]
fn build_tasks_empty_input() {
    assert!(build_tasks(vec![], "application/wasm").is_empty());
}

#[test]
fn build_tasks_single_record() {
    let tasks = build_tasks(
        vec![make_record("https://example.com/app.wasm", "20230101000000")],
        "application/wasm",
    );
    assert_eq!(tasks.len(), 1);
    assert_eq!(tasks[0].local_filename, "app.wasm");
    assert_eq!(tasks[0].timestamp, "20230101000000");
}

#[test]
fn build_tasks_dedup_keeps_latest_timestamp() {
    let records = vec![
        make_record("https://example.com/app.wasm", "20200101000000"),
        make_record("https://example.com/app.wasm", "20230601000000"),
        make_record("https://example.com/app.wasm", "20210101000000"),
    ];
    let tasks = build_tasks(records, "application/wasm");
    assert_eq!(tasks.len(), 1);
    assert_eq!(tasks[0].timestamp, "20230601000000");
}

#[test]
fn build_tasks_multiple_unique_urls() {
    let records = vec![
        make_record("https://example.com/a.wasm", "20230101000000"),
        make_record("https://example.com/b.wasm", "20230101000000"),
        make_record("https://example.com/c.wasm", "20230101000000"),
    ];
    let tasks = build_tasks(records, "application/wasm");
    assert_eq!(tasks.len(), 3);
}

#[test]
fn build_tasks_all_statuses_start_as_pending() {
    let records = vec![
        make_record("https://example.com/a.wasm", "20230101000000"),
        make_record("https://example.com/b.wasm", "20230101000000"),
    ];
    let tasks = build_tasks(records, "application/wasm");
    assert!(tasks.iter().all(|t| t.status == DownloadStatus::Pending));
}

#[test]
fn build_tasks_mime_css_uses_css_extension() {
    let tasks = build_tasks(
        vec![make_record("https://example.com/style.css", "20230101")],
        "text/css",
    );
    assert_eq!(tasks.len(), 1);
    assert!(tasks[0].local_filename.ends_with(".css"));
}

#[test]
fn download_status_failed_stores_reason() {
    let s = DownloadStatus::Failed {
        reason: "HTTP 429 Too Many Requests".to_string(),
    };
    match s {
        DownloadStatus::Failed { reason } => {
            assert!(reason.contains("429"))
        }
        _ => panic!("Expected Failed variant"),
    }
}

#[test]
fn download_status_equality() {
    assert_eq!(DownloadStatus::Pending, DownloadStatus::Pending);
    assert_eq!(DownloadStatus::Success, DownloadStatus::Success);
    assert_ne!(DownloadStatus::Pending, DownloadStatus::Success);
    assert_ne!(
        DownloadStatus::Pending,
        DownloadStatus::Failed {
            reason: "err".to_string()
        }
    );
}

#[test]
fn gzip_roundtrip() {
    let original = b"wayback gzip roundtrip test payload";
    let compressed = gzip_compress(original);
    let decompressed = decompress_gzip(&compressed).unwrap();
    assert_eq!(decompressed, original);
}

#[test]
fn gzip_empty_payload() {
    let compressed = gzip_compress(b"");
    let decompressed = decompress_gzip(&compressed).unwrap();
    assert!(decompressed.is_empty());
}

#[test]
fn gzip_invalid_bytes_returns_error() {
    let result = decompress_gzip(b"this is not gzip data at all");
    assert!(result.is_err());
}

#[test]
fn gzip_detects_magic_bytes() {
    let compressed = gzip_compress(b"hello");
    assert_eq!(&compressed[..2], &[0x1f, 0x8b]);
}

#[test]
fn brotli_roundtrip() {
    let original = b"wayback brotli roundtrip test payload";
    let compressed = brotli_compress(original);
    let decompressed = decompress_brotli(&compressed).unwrap();
    assert_eq!(decompressed, original.as_ref());
}

#[test]
fn brotli_empty_payload() {
    let compressed = brotli_compress(b"");
    let decompressed = decompress_brotli(&compressed).unwrap();
    assert!(decompressed.is_empty());
}

#[test]
fn brotli_invalid_input_falls_back_to_original() {
    let data = b"this is not valid brotli";
    let result = decompress_brotli(data).unwrap();
    assert_eq!(result, data.as_ref());
}
