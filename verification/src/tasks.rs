//! Download tasks built from CDX records, one per local file name.

use vstd::prelude::*;
use crate::filename;
use crate::filename::sanitize_filename;
use crate::text;
use crate::text::{str_contains, str_less};

verus! {

/// The lifecycle state of a single download task.
#[derive(Debug, Clone, PartialEq, Eq)]
pub enum DownloadStatus {
    /// The asset has not been attempted yet.
    Pending,
    /// The asset was downloaded and written to disk.
    Success,
    /// The asset failed after all retry attempts; `reason` is the last error message.
    Failed { reason: String },
}

/// A single asset to be downloaded from the Wayback Machine.
#[derive(Debug, Clone)]
pub struct DownloadTask {
    /// The original URL of the asset as recorded by the CDX API.
    pub original_url: String,
    /// The capture timestamp (`YYYYMMDDHHmmss`).
    pub timestamp: String,
    /// Current download state.
    pub status: DownloadStatus,
    /// Local file name derived from `original_url`.
    pub local_filename: String,
}

/// A record returned by the Wayback Machine CDX API.
#[derive(Debug, Clone)]
pub struct CdxRecord {
    /// Original URL of the asset.
    pub original: String,
    /// Capture timestamp (`YYYYMMDDHHmmss`).
    pub timestamp: String,
    /// MIME type as reported by the CDX API.
    pub mimetype: String,
}

/// The file extensions that file names are cut at, chosen by the MIME type filter.
pub open spec fn extensions_for_mime(mime: Seq<char>) -> Seq<Seq<char>> {
    if text::contains_chars(mime, "wasm"@) {
        seq![".wasm"@]
    } else if text::contains_chars(mime, "css"@) {
        seq![".css"@]
    } else if text::contains_chars(mime, "png"@) {
        seq![".png"@]
    } else if text::contains_chars(mime, "jpeg"@) || text::contains_chars(mime, "jpg"@) {
        seq![".jpeg"@, ".jpg"@]
    } else if text::contains_chars(mime, "octet-stream"@) {
        seq![".bin"@]
    } else if text::contains_chars(mime, "font"@) || text::contains_chars(mime, "woff"@) || text::contains_chars(
        mime,
        "ttf"@,
    ) || text::contains_chars(mime, "eot"@) {
        seq![".woff2"@, ".woff"@, ".ttf"@, ".eot"@]
    } else if text::contains_chars(mime, "svg"@) {
        seq![".svg"@]
    } else {
        seq![".html"@, ".js"@, ".json"@, ".txt"@]
    }
}

/// The known file extensions for a MIME type, in the order they are tried.
pub fn clean_extensions_for(mime_type: &str) -> (res: Vec<&'static str>)
    ensures
        filename::ext_views(res@) == extensions_for_mime(mime_type@),
        text::contains_chars(mime_type@, "wasm"@) ==> filename::ext_views(res@) == seq![".wasm"@],
        (!text::contains_chars(mime_type@, "wasm"@) && text::contains_chars(mime_type@, "css"@))
            ==> filename::ext_views(res@) == seq![".css"@],
        (!text::contains_chars(mime_type@, "wasm"@) && !text::contains_chars(mime_type@, "css"@)
            && !text::contains_chars(mime_type@, "png"@) && !text::contains_chars(mime_type@, "jpeg"@)
            && !text::contains_chars(mime_type@, "jpg"@) && !text::contains_chars(
            mime_type@,
            "octet-stream"@,
        ) && !text::contains_chars(mime_type@, "font"@) && !text::contains_chars(mime_type@, "woff"@)
            && !text::contains_chars(mime_type@, "ttf"@) && !text::contains_chars(mime_type@, "eot"@)
            && text::contains_chars(mime_type@, "svg"@)) ==> filename::ext_views(res@) == seq![".svg"@],
{
    let mut v: Vec<&'static str> = Vec::new();
    if str_contains(mime_type, "wasm") {
        v.push(".wasm");
    } else if str_contains(mime_type, "css") {
        v.push(".css");
    } else if str_contains(mime_type, "png") {
        v.push(".png");
    } else if str_contains(mime_type, "jpeg") || str_contains(mime_type, "jpg") {
        v.push(".jpeg");
        v.push(".jpg");
    } else if str_contains(mime_type, "octet-stream") {
        v.push(".bin");
    } else if str_contains(mime_type, "font") || str_contains(mime_type, "woff") || str_contains(
        mime_type,
        "ttf",
    ) || str_contains(mime_type, "eot") {
        v.push(".woff2");
        v.push(".woff");
        v.push(".ttf");
        v.push(".eot");
    } else if str_contains(mime_type, "svg") {
        v.push(".svg");
    } else {
        v.push(".html");
        v.push(".js");
        v.push(".json");
        v.push(".txt");
    }
    assert(filename::ext_views(v@) =~= extensions_for_mime(mime_type@));
    v
}

/// The local file name of a record under the extensions `exts`.
pub open spec fn record_name(r: CdxRecord, exts: Seq<Seq<char>>) -> Seq<char> {
    filename::sanitized_name(r.original@, exts)
}

/// Among the first `n` records, record `k` is the capture kept for its file name: no
/// record with that name has a later timestamp, and every earlier one has an earlier
/// timestamp (so on equal timestamps the first record wins).
pub open spec fn is_kept_capture(records: Seq<CdxRecord>, exts: Seq<Seq<char>>, n: int, k: int) -> bool {
    &&& 0 <= k < n <= records.len()
    &&& forall|m: int|
        0 <= m < n && record_name(#[trigger] records[m], exts) == record_name(records[k], exts)
            ==> !text::lex_less(records[k].timestamp@, records[m].timestamp@)
    &&& forall|m: int|
        0 <= m < k && record_name(#[trigger] records[m], exts) == record_name(records[k], exts)
            ==> text::lex_less(records[m].timestamp@, records[k].timestamp@)
}

/// For each file name at most one record is the kept capture: two kept captures with
/// the same name are the same record. So the task of a name is determined by the
/// records alone.
pub proof fn lemma_kept_capture_unique(records: Seq<CdxRecord>, exts: Seq<Seq<char>>, n: int, k1: int, k2: int)
    requires
        is_kept_capture(records, exts, n, k1),
        is_kept_capture(records, exts, n, k2),
        record_name(records[k1], exts) == record_name(records[k2], exts),
    ensures
        k1 == k2,
{
    if k1 < k2 {
        assert(text::lex_less(records[k1].timestamp@, records[k2].timestamp@));
        assert(!text::lex_less(records[k1].timestamp@, records[k2].timestamp@));
    } else if k2 < k1 {
        assert(text::lex_less(records[k2].timestamp@, records[k1].timestamp@));
        assert(!text::lex_less(records[k2].timestamp@, records[k1].timestamp@));
    }
}

/// The kept capture of a name has a timestamp no record of that name exceeds, and is
/// later than every earlier record of that name.
pub proof fn lemma_kept_capture_is_latest(records: Seq<CdxRecord>, exts: Seq<Seq<char>>, n: int, k: int, m: int)
    requires
        is_kept_capture(records, exts, n, k),
        0 <= m < n,
        record_name(records[m], exts) == record_name(records[k], exts),
    ensures
        records[m].timestamp@ == records[k].timestamp@ || text::lex_less(
            records[m].timestamp@,
            records[k].timestamp@,
        ),
        m < k ==> text::lex_less(records[m].timestamp@, records[k].timestamp@),
{
    text::lemma_lex_total(records[m].timestamp@, records[k].timestamp@);
}

/// `task` is the pending download of record `r` under the file name `name`.
pub open spec fn task_for(task: DownloadTask, r: CdxRecord, name: Seq<char>) -> bool {
    &&& task.original_url@ == r.original@
    &&& task.timestamp@ == r.timestamp@
    &&& task.local_filename@ == name
    &&& task.status is Pending
}

/// Some task in `tasks` has the local file name `name`.
pub open spec fn has_task_named(tasks: Seq<DownloadTask>, name: Seq<char>) -> bool {
    exists|i: int| 0 <= i < tasks.len() && (#[trigger] tasks[i]).local_filename@ == name
}

/// `task` is the pending download of the capture kept, among all `records`, for its file
/// name.
pub open spec fn is_task_of_kept_capture(records: Seq<CdxRecord>, exts: Seq<Seq<char>>, task: DownloadTask) -> bool {
    exists|k: int|
        is_kept_capture(records, exts, records.len() as int, k) && #[trigger] task_for(
            task,
            records[k],
            record_name(records[k], exts),
        )
}

/// The local file names of the tasks are pairwise different.
pub open spec fn names_distinct(tasks: Seq<DownloadTask>) -> bool {
    forall|i: int, j: int|
        0 <= i < j < tasks.len() ==> (#[trigger] tasks[i]).local_filename@ != (#[trigger] tasks[j]).local_filename@
}

/// Deduplicates CDX records into download tasks, keeping the latest capture of each
/// local file name. Names are computed by `sanitize_filename` with the extensions of
/// `mime_type`; of records with the same name, the one with the greatest timestamp is
/// kept, the first of them on a tie. Every task starts as `Pending`. The order of the
/// tasks is not part of the contract.
pub fn build_tasks(records: Vec<CdxRecord>, mime_type: &str) -> (tasks: Vec<DownloadTask>)
    ensures
        names_distinct(tasks@),
        forall|i: int|
            0 <= i < tasks@.len() ==> is_task_of_kept_capture(
                records@,
                extensions_for_mime(mime_type@),
                #[trigger] tasks@[i],
            ),
        forall|k: int|
            0 <= k < records@.len() ==> has_task_named(
                tasks@,
                record_name(#[trigger] records@[k], extensions_for_mime(mime_type@)),
            ),
        tasks@.len() <= records@.len(),
{
    let exts_vec = clean_extensions_for(mime_type);
    let ghost exts = extensions_for_mime(mime_type@);
    let mut out: Vec<DownloadTask> = Vec::new();
    let ghost mut kept: Seq<int> = Seq::empty();
    let mut n: usize = 0;
    while n < records.len()
        invariant
            n <= records@.len(),
            exts == filename::ext_views(exts_vec@),
            exts == extensions_for_mime(mime_type@),
            kept.len() == out@.len(),
            out@.len() <= n,
            names_distinct(out@),
            forall|i: int|
                0 <= i < out@.len() ==> is_kept_capture(records@, exts, n as int, #[trigger] kept[i])
                    && task_for(out@[i], records@[kept[i]], record_name(records@[kept[i]], exts)),
            forall|m: int| 0 <= m < n ==> has_task_named(out@, record_name(#[trigger] records@[m], exts)),
        decreases records@.len() - n,
    {
        let rec = &records[n];
        let name = sanitize_filename(rec.original.as_str(), exts_vec.as_slice());
        let ghost f = record_name(records@[n as int], exts);
        let ghost t = records@[n as int].timestamp@;
        assert(name@ == f);
        let mut j: usize = 0;
        while j < out.len()
            invariant
                j <= out@.len(),
                forall|i: int| 0 <= i < j ==> (#[trigger] out@[i]).local_filename@ != name@,
            ensures
                j <= out@.len(),
                forall|i: int| 0 <= i < j ==> (#[trigger] out@[i]).local_filename@ != name@,
                j < out@.len() ==> out@[j as int].local_filename@ == name@,
            decreases out@.len() - j,
        {
            if out[j].local_filename == name {
                break;
            }
            j = j + 1;
        }
        if j < out.len() {
            assert(out@[j as int].local_filename@ == f);
            let ghost k: int = kept[j as int];
            assert(is_kept_capture(records@, exts, n as int, k));
            assert(record_name(records@[k], exts) == f);
            if str_less(out[j].timestamp.as_str(), rec.timestamp.as_str()) {
                let ghost tk = records@[k].timestamp@;
                assert(text::lex_less(tk, t));
                let task = DownloadTask {
                    original_url: rec.original.clone(),
                    timestamp: rec.timestamp.clone(),
                    status: DownloadStatus::Pending,
                    local_filename: name,
                };
                let ghost old_out = out@;
                let ghost old_kept = kept;
                out.set(j, task);
                proof {
                    kept = kept.update(j as int, n as int);
                    text::lemma_lex_irreflexive(t);
                    assert forall|m: int|
                        0 <= m < n + 1 && record_name(#[trigger] records@[m], exts) == f implies
                        !text::lex_less(t, records@[m].timestamp@) && (m < n ==> text::lex_less(records@[m].timestamp@, t)) by {
                        if m < n {
                            let tm = records@[m].timestamp@;
                            assert(!text::lex_less(tk, tm));
                            text::lemma_lex_total(tm, tk);
                            if text::lex_less(tm, tk) {
                                text::lemma_lex_transitive(tm, tk, t);
                            }
                            assert(text::lex_less(tm, t));
                            if text::lex_less(t, tm) {
                                text::lemma_lex_transitive(t, tm, t);
                            }
                        }
                    }
                    assert(is_kept_capture(records@, exts, n + 1, n as int));
                    assert forall|i: int| 0 <= i < out@.len() && i != j implies is_kept_capture(
                        records@,
                        exts,
                        n + 1,
                        #[trigger] kept[i],
                    ) by {
                        assert(old_out[i] == out@[i]);
                        assert(is_kept_capture(records@, exts, n as int, old_kept[i]));
                        assert(old_out[i].local_filename@ != f);
                    }
                    assert forall|m: int| 0 <= m < n + 1 implies has_task_named(
                        out@,
                        record_name(#[trigger] records@[m], exts),
                    ) by {
                        if m == n {
                            assert(out@[j as int].local_filename@ == f);
                        } else {
                            let i: int = choose|i: int|
                                0 <= i < old_out.len() && (#[trigger] old_out[i]).local_filename@
                                    == record_name(records@[m], exts);
                            assert(out@[i].local_filename@ == old_out[i].local_filename@);
                        }
                    }
                    assert(names_distinct(out@)) by {
                        assert forall|a: int, b: int| 0 <= a < b < out@.len() implies (
                        #[trigger] out@[a]).local_filename@ != (#[trigger] out@[b]).local_filename@ by {
                            assert(old_out[a].local_filename@ != old_out[b].local_filename@);
                        }
                    }
                }
            } else {
                proof {
                    assert forall|i: int| 0 <= i < out@.len() implies is_kept_capture(
                        records@,
                        exts,
                        n + 1,
                        #[trigger] kept[i],
                    ) by {
                        assert(is_kept_capture(records@, exts, n as int, kept[i]));
                        if i != j {
                            assert(out@[i].local_filename@ != f);
                        }
                    }
                    assert forall|m: int| 0 <= m < n + 1 implies has_task_named(
                        out@,
                        record_name(#[trigger] records@[m], exts),
                    ) by {
                        if m == n {
                            assert(out@[j as int].local_filename@ == f);
                        }
                    }
                }
            }
        } else {
            let task = DownloadTask {
                original_url: rec.original.clone(),
                timestamp: rec.timestamp.clone(),
                status: DownloadStatus::Pending,
                local_filename: name,
            };
            let ghost old_out = out@;
            out.push(task);
            proof {
                kept = kept.push(n as int);
                text::lemma_lex_irreflexive(t);
                assert forall|m: int| 0 <= m < n implies record_name(#[trigger] records@[m], exts) != f by {
                    let i: int = choose|i: int|
                        0 <= i < old_out.len() && (#[trigger] old_out[i]).local_filename@
                            == record_name(records@[m], exts);
                    assert(old_out[i].local_filename@ != f);
                }
                assert(is_kept_capture(records@, exts, n + 1, n as int));
                assert forall|i: int| 0 <= i < out@.len() implies is_kept_capture(
                    records@,
                    exts,
                    n + 1,
                    #[trigger] kept[i],
                ) && task_for(out@[i], records@[kept[i]], record_name(records@[kept[i]], exts)) by {
                    if i < old_out.len() {
                        assert(out@[i] == old_out[i]);
                        assert(is_kept_capture(records@, exts, n as int, kept[i]));
                        assert(old_out[i].local_filename@ != f);
                    }
                }
                assert forall|m: int| 0 <= m < n + 1 implies has_task_named(
                    out@,
                    record_name(#[trigger] records@[m], exts),
                ) by {
                    if m == n {
                        assert(out@[old_out.len() as int].local_filename@ == f);
                    } else {
                        let i: int = choose|i: int|
                            0 <= i < old_out.len() && (#[trigger] old_out[i]).local_filename@
                                == record_name(records@[m], exts);
                        assert(out@[i] == old_out[i]);
                    }
                }
            }
        }
        n = n + 1;
    }
    proof {
        assert forall|i: int| 0 <= i < out@.len() implies is_task_of_kept_capture(
            records@,
            extensions_for_mime(mime_type@),
            #[trigger] out@[i],
        ) by {
            let k: int = kept[i];
            assert(is_kept_capture(records@, exts, n as int, k));
            assert(task_for(out@[i], records@[k], record_name(records@[k], exts)));
        }
    }
    out
}

} // verus!
