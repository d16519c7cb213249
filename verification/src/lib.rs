//! Verified core of a Wayback Machine asset downloader: local file names for
//! archived URLs, deduplication of CDX records into download tasks, CDX query
//! construction and response reading, content decompression, and the decisions
//! of a download session.

pub mod text;
pub mod filename;
pub mod tasks;
pub mod cdx;
pub mod decompress;
pub mod session;

pub use cdx::{cdx_query_url, cdx_records, cdx_response_records, CdxError};
pub use decompress::{decode_body, decompress_brotli, decompress_gzip};
pub use filename::{clean_filename, sanitize_filename};
pub use session::{
    begin_download, count_statuses, download_step, http_status_reason, nothing_to_download,
    record_outcome, retry_delay_millis, should_process, snapshot_url, DownloadAction,
    DownloadEvent, Journal, RetryState, StatusCounts,
};
pub use tasks::{build_tasks, clean_extensions_for, CdxRecord, DownloadStatus, DownloadTask};
