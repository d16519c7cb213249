//! The decisions of a download session over its journal.

use vstd::prelude::*;
use crate::tasks::{DownloadStatus, DownloadTask};
use crate::text;
use crate::text::{chars_of, str_contains, string_of, to_lower};

verus! {

/// The session journal: every discovered asset and its download state.
#[derive(Debug, Clone)]
pub struct Journal {
    /// The domain or CDX URL that was scraped.
    pub target_url: String,
    /// The MIME type filter used for the CDX query.
    pub mime_type: String,
    /// All discovered assets and their statuses.
    pub tasks: Vec<DownloadTask>,
}

/// How many tasks are in each state.
#[derive(Debug, Clone, Copy, PartialEq, Eq)]
pub struct StatusCounts {
    /// Tasks not attempted yet.
    pub pending: usize,
    /// Tasks downloaded.
    pub success: usize,
    /// Tasks that failed.
    pub failed: usize,
}

/// The number of pending tasks.
pub open spec fn pending_count(tasks: Seq<DownloadTask>) -> nat
    decreases tasks.len(),
{
    if tasks.len() == 0 {
        0
    } else {
        pending_count(tasks.drop_last()) + if tasks.last().status is Pending { 1nat } else { 0nat }
    }
}

/// The number of downloaded tasks.
pub open spec fn success_count(tasks: Seq<DownloadTask>) -> nat
    decreases tasks.len(),
{
    if tasks.len() == 0 {
        0
    } else {
        success_count(tasks.drop_last()) + if tasks.last().status is Success { 1nat } else { 0nat }
    }
}

/// The number of failed tasks.
pub open spec fn failed_count(tasks: Seq<DownloadTask>) -> nat
    decreases tasks.len(),
{
    if tasks.len() == 0 {
        0
    } else {
        failed_count(tasks.drop_last()) + if tasks.last().status is Failed { 1nat } else { 0nat }
    }
}

/// Every task is in exactly one of the three states.
pub proof fn lemma_counts_partition(tasks: Seq<DownloadTask>)
    ensures
        pending_count(tasks) + success_count(tasks) + failed_count(tasks) == tasks.len(),
    decreases tasks.len(),
{
    if tasks.len() > 0 {
        lemma_counts_partition(tasks.drop_last());
    }
}

/// The 0/1 indicator of a condition.
pub open spec fn indicator(b: bool) -> int {
    if b {
        1
    } else {
        0
    }
}

/// Changing the status of one task moves it from the count of its old state to the count
/// of its new one; the other counts stay as they were.
pub proof fn lemma_counts_after_status_change(
    tasks: Seq<DownloadTask>,
    idx: int,
    status: DownloadStatus,
)
    requires
        0 <= idx < tasks.len(),
    ensures
        ({
            let new_tasks = tasks.update(idx, (DownloadTask { status, ..tasks[idx] }));
            &&& pending_count(new_tasks) == pending_count(tasks) - indicator(tasks[idx].status is Pending)
                + indicator(status is Pending)
            &&& success_count(new_tasks) == success_count(tasks) - indicator(tasks[idx].status is Success)
                + indicator(status is Success)
            &&& failed_count(new_tasks) == failed_count(tasks) - indicator(tasks[idx].status is Failed)
                + indicator(status is Failed)
        }),
    decreases tasks.len(),
{
    let new_tasks = tasks.update(idx, (DownloadTask { status, ..tasks[idx] }));
    if idx == tasks.len() - 1 {
        assert(new_tasks.drop_last() =~= tasks.drop_last());
    } else {
        lemma_counts_after_status_change(tasks.drop_last(), idx, status);
        assert(new_tasks.drop_last() =~= tasks.drop_last().update(
            idx,
            (DownloadTask { status, ..tasks[idx] }),
        ));
    }
}

/// Each count is the number of tasks in that state.
pub proof fn lemma_counts_are_filters(tasks: Seq<DownloadTask>)
    ensures
        pending_count(tasks) == tasks.filter(|t: DownloadTask| t.status is Pending).len(),
        success_count(tasks) == tasks.filter(|t: DownloadTask| t.status is Success).len(),
        failed_count(tasks) == tasks.filter(|t: DownloadTask| t.status is Failed).len(),
    decreases tasks.len(),
{
    reveal_with_fuel(Seq::filter, 1);
    if tasks.len() > 0 {
        lemma_counts_are_filters(tasks.drop_last());
    }
}

/// Counts the tasks in each state; the three counts add up to the number of tasks.
pub fn count_statuses(tasks: &[DownloadTask]) -> (res: StatusCounts)
    ensures
        res.pending == pending_count(tasks@),
        res.success == success_count(tasks@),
        res.failed == failed_count(tasks@),
        res.pending + res.success + res.failed == tasks@.len(),
        res.pending == tasks@.filter(|t: DownloadTask| t.status is Pending).len(),
        res.success == tasks@.filter(|t: DownloadTask| t.status is Success).len(),
        res.failed == tasks@.filter(|t: DownloadTask| t.status is Failed).len(),
{
    proof {
        lemma_counts_are_filters(tasks@);
    }
    let mut counts = StatusCounts { pending: 0, success: 0, failed: 0 };
    let mut i: usize = 0;
    while i < tasks.len()
        invariant
            i <= tasks@.len(),
            counts.pending == pending_count(tasks@.take(i as int)),
            counts.success == success_count(tasks@.take(i as int)),
            counts.failed == failed_count(tasks@.take(i as int)),
        decreases tasks@.len() - i,
    {
        proof {
            lemma_counts_partition(tasks@.take(i as int));
            assert(tasks@.take(i + 1).drop_last() =~= tasks@.take(i as int));
        }
        match &tasks[i].status {
            DownloadStatus::Pending => counts.pending = counts.pending + 1,
            DownloadStatus::Success => counts.success = counts.success + 1,
            DownloadStatus::Failed { .. } => counts.failed = counts.failed + 1,
        }
        i = i + 1;
    }
    proof {
        assert(tasks@.take(i as int) =~= tasks@);
        lemma_counts_partition(tasks@);
    }
    counts
}

/// A session has nothing to do when no task is pending and either no task failed or no
/// retry of failures was asked for.
pub fn nothing_to_download(counts: &StatusCounts, retry_requested: bool) -> (res: bool)
    ensures
        res == (counts.pending == 0 && (counts.failed == 0 || !retry_requested)),
{
    counts.pending == 0 && (counts.failed == 0 || !retry_requested)
}

/// Whether a task in state `status` is to be downloaded in a session whose retry filter
/// is `filter`: pending tasks are, downloaded ones are not, and a failed one is when a
/// filter was given that is `all` or that occurs, ignoring case, in the failure reason.
pub open spec fn wants_download(status: DownloadStatus, filter: Option<Seq<char>>) -> bool {
    match status {
        DownloadStatus::Pending => true,
        DownloadStatus::Success => false,
        DownloadStatus::Failed { reason } => match filter {
            None => false,
            Some(f) => f == "all"@ || text::contains_chars(
                text::lowercase_chars(reason@),
                text::lowercase_chars(f),
            ),
        },
    }
}

/// A pending task is downloaded whatever the retry filter is.
pub proof fn lemma_pending_always_downloaded(filter: Option<Seq<char>>)
    ensures
        wants_download(DownloadStatus::Pending, filter),
{
}

/// A downloaded task is never downloaded again, whatever the retry filter is.
pub proof fn lemma_downloaded_never_again(filter: Option<Seq<char>>)
    ensures
        !wants_download(DownloadStatus::Success, filter),
{
}

/// A failed task is retried only when a retry filter was given, and always under the
/// filter `all`.
pub proof fn lemma_failures_retried_only_on_request(reason: Seq<char>)
    ensures
        forall|r: String| r@ == reason ==> !wants_download(DownloadStatus::Failed { reason: r }, None),
        forall|r: String| r@ == reason ==> wants_download(DownloadStatus::Failed { reason: r }, Some("all"@)),
{
}

/// Decides whether a task is to be downloaded (see `wants_download`).
pub fn should_process(status: &DownloadStatus, retry_filter: Option<&str>) -> (res: bool)
    ensures
        res == wants_download(*status, crate::filename::opt_chars(retry_filter)),
        *status is Pending ==> res,
        *status is Success ==> !res,
        (*status is Failed && retry_filter is None) ==> !res,
        (*status is Failed && (retry_filter matches Some(f) && f@ == "all"@)) ==> res,
{
    proof {
        lemma_pending_always_downloaded(crate::filename::opt_chars(retry_filter));
        lemma_downloaded_never_again(crate::filename::opt_chars(retry_filter));
        match status {
            DownloadStatus::Failed { reason } => lemma_failures_retried_only_on_request(reason@),
            _ => {},
        }
    }
    match status {
        DownloadStatus::Pending => true,
        DownloadStatus::Success => false,
        DownloadStatus::Failed { reason } => match retry_filter {
            None => false,
            Some(f) => {
                if f.to_owned() == "all".to_owned() {
                    return true;
                }
                let reason_lower = to_lower(reason.as_str());
                let filter_lower = to_lower(f);
                str_contains(reason_lower.as_str(), filter_lower.as_str())
            },
        },
    }
}

/// The Wayback Machine URL of the raw capture of `original_url` at `timestamp`.
pub open spec fn snapshot_url_chars(timestamp: Seq<char>, original_url: Seq<char>) -> Seq<char> {
    "http://web.archive.org/web/"@ + timestamp + "id_/"@ + original_url
}

/// The snapshot URL is the fixed prefix, the timestamp, `id_/`, then the original URL
/// kept whole to the end (query included): cutting the prefix and the timestamp off
/// gives back exactly `id_/` and the original URL.
pub proof fn lemma_snapshot_url_parts(timestamp: Seq<char>, original_url: Seq<char>)
    ensures
        ({
            let u = snapshot_url_chars(timestamp, original_url);
            let head = "http://web.archive.org/web/"@;
            &&& u.len() == head.len() + timestamp.len() + 4 + original_url.len()
            &&& u.take(head.len() as int) == head
            &&& u.subrange(head.len() as int, (head.len() + timestamp.len()) as int) == timestamp
            &&& u.skip(u.len() - original_url.len()) == original_url
        }),
{
    reveal_strlit("id_/");
    let u = snapshot_url_chars(timestamp, original_url);
    let head = "http://web.archive.org/web/"@;
    assert(u =~= head + timestamp + "id_/"@ + original_url);
    assert(u.take(head.len() as int) =~= head);
    assert(u.subrange(head.len() as int, (head.len() + timestamp.len()) as int) =~= timestamp);
    assert(u.skip(u.len() - original_url.len()) =~= original_url);
}

/// Builds the Wayback Machine URL of the raw capture of an asset.
pub fn snapshot_url(timestamp: &str, original_url: &str) -> (res: String)
    ensures
        res@ == snapshot_url_chars(timestamp@, original_url@),
        res@ == "http://web.archive.org/web/"@ + timestamp@ + "id_/"@ + original_url@,
{
    proof {
        lemma_snapshot_url_parts(timestamp@, original_url@);
    }
    let mut url = String::new();
    url.append("http://web.archive.org/web/");
    url.append(timestamp);
    url.append("id_/");
    url.append(original_url);
    url
}

/// The pause before download attempt number `attempt` (counted from 0), in
/// milliseconds: 500 ms, then 1500 ms more for each earlier attempt.
pub fn retry_delay_millis(attempt: u64) -> (res: u64)
    requires
        500 + 1500 * attempt <= u64::MAX,
    ensures
        res == 500 + 1500 * attempt,
{
    500 + attempt * 1500
}

/// The decimal digit character for `d < 10`.
pub open spec fn digit_char(d: nat) -> char {
    (d + 48) as char
}

/// The decimal representation of `n`, without leading zeros.
pub open spec fn decimal_chars(n: nat) -> Seq<char>
    decreases n,
{
    if n < 10 {
        seq![digit_char(n)]
    } else {
        decimal_chars(n / 10).push(digit_char(n % 10))
    }
}

/// The number that a sequence of decimal digit characters denotes.
pub open spec fn digits_value(s: Seq<char>) -> int
    decreases s.len(),
{
    if s.len() == 0 {
        0
    } else {
        digits_value(s.drop_last()) * 10 + ((s.last() as int) - 48)
    }
}

/// `decimal_chars(n)` is a non-empty string of ASCII digits, without a leading zero
/// unless `n` is zero, that reads back as `n`.
pub proof fn lemma_decimal_reads_back(n: nat)
    ensures
        decimal_chars(n).len() > 0,
        digits_value(decimal_chars(n)) == n,
        forall|i: int|
            0 <= i < decimal_chars(n).len() ==> 48 <= (#[trigger] decimal_chars(n)[i] as int) <= 57,
        n > 0 ==> decimal_chars(n)[0] != '0',
    decreases n,
{
    let last = n % 10;
    assert((digit_char(last) as int) == last + 48);
    if n >= 10 {
        lemma_decimal_reads_back(n / 10);
        let d = decimal_chars(n);
        assert(d.last() == digit_char(last));
        assert(d.drop_last() =~= decimal_chars(n / 10));
        assert(n == (n / 10) * 10 + n % 10);
        assert(digits_value(d) == digits_value(d.drop_last()) * 10 + ((d.last() as int) - 48));
        assert(digits_value(d) == (n / 10) * 10 + last);
        assert(d[0] == decimal_chars(n / 10)[0]);
    } else {
        let d = seq![digit_char(n)];
        assert(d.drop_last() =~= Seq::<char>::empty());
        assert(digits_value(d.drop_last()) == 0);
        assert(d.last() == digit_char(n));
        assert(decimal_chars(n) == d);
    }
}

/// Appends the decimal digits of `n` to `out`.
fn push_decimal(out: &mut Vec<char>, n: u32)
    ensures
        final(out)@ == old(out)@ + decimal_chars(n as nat),
    decreases n,
{
    if n >= 10 {
        push_decimal(out, n / 10);
    }
    let d: u8 = (n % 10) as u8;
    let c: char = (48u8 + d) as char;
    assert(c == digit_char((n % 10) as nat));
    out.push(c);
    assert(old(out)@ + decimal_chars(n as nat) =~= if n >= 10 {
        old(out)@ + decimal_chars((n / 10) as nat)
    } else {
        old(out)@
    }.push(c));
}

/// The failure reason for an HTTP status other than 200: `HTTP Status <status>`.
pub fn http_status_reason(status: u32) -> (res: String)
    ensures
        res@ == "HTTP Status "@ + decimal_chars(status as nat),
        res@.len() > 12,
        digits_value(res@.skip(12)) == status,
{
    proof {
        reveal_strlit("HTTP Status ");
        lemma_decimal_reads_back(status as nat);
        assert(("HTTP Status "@ + decimal_chars(status as nat)).skip(12) =~= decimal_chars(status as nat));
    }
    let mut v = chars_of("HTTP Status ");
    push_decimal(&mut v, status);
    string_of(v.as_slice())
}

/// The progress of downloading one asset: how many attempts were started, and the reason
/// of the last failure (`Not started` before any).
pub struct RetryState {
    /// Attempts started so far.
    pub attempts_started: u64,
    /// The reason of the last failed attempt.
    pub last_failure: String,
}

/// What happened in the step the download loop was asked to take.
pub enum DownloadEvent {
    /// The request was answered with this HTTP status.
    Responded { status: u32 },
    /// The request failed; `message` describes the error.
    RequestFailed { message: String },
    /// The decoded body was written to disk.
    Stored,
    /// Writing the body failed; `message` describes the error.
    WriteFailed { message: String },
}

/// What the download loop is to do next.
pub enum DownloadAction {
    /// Pause `delay_millis`, then make attempt number `attempt` (counted from 0).
    Attempt { attempt: u64, delay_millis: u64 },
    /// Decode the response body and write it to disk.
    Store,
    /// Stop: `failure` is `None` on success, else the reason of the last failure.
    Finish { failure: Option<String> },
}

/// Retry delays fit in a `u64` for every attempt below `max_attempts`.
pub open spec fn delays_fit(max_attempts: u64) -> bool {
    max_attempts == 0 || 500 + 1500 * (max_attempts - 1) <= u64::MAX
}

/// After `started` attempts, of which the last failed with `reason`: the next attempt if
/// one is left, else the end with that reason.
pub open spec fn retry_or_finish(
    started: u64,
    reason: Seq<char>,
    max_attempts: u64,
    state: RetryState,
    action: DownloadAction,
) -> bool {
    &&& state.last_failure@ == reason
    &&& if started < max_attempts {
        &&& state.attempts_started == started + 1
        &&& action matches DownloadAction::Attempt { attempt, delay_millis }
        &&& attempt == started
        &&& delay_millis == 500 + 1500 * started
    } else {
        &&& state.attempts_started == started
        &&& action matches DownloadAction::Finish { failure: Some(f) }
        &&& f@ == reason
    }
}

/// After a failure, another attempt is made exactly when fewer than `max_attempts` were
/// started; it is the next attempt in order, with a delay 1500 ms longer than the one
/// before; the download ends with the failure's reason only when every attempt was made.
pub proof fn lemma_retry_or_finish_bounds(started: u64, max_attempts: u64)
    ensures
        forall|reason: Seq<char>, st: RetryState, act: DownloadAction|
            #[trigger] retry_or_finish(started, reason, max_attempts, st, act) ==> {
                &&& st.last_failure@ == reason
                &&& (act is Attempt <==> started < max_attempts)
                &&& (act matches DownloadAction::Attempt { attempt, delay_millis } ==> attempt == started
                    && delay_millis == 500 + 1500 * started && st.attempts_started == started + 1)
                &&& (act matches DownloadAction::Finish { failure } ==> failure matches Some(f) && f@
                    == reason && st.attempts_started == started)
                &&& !(act is Store)
            },
{
}

fn retry_or_finish_exec(started: u64, reason: String, max_attempts: u64) -> (res: (RetryState, DownloadAction))
    requires
        started <= max_attempts,
        delays_fit(max_attempts),
    ensures
        retry_or_finish(started, reason@, max_attempts, res.0, res.1),
{
    if started < max_attempts {
        let delay: u64 = retry_delay_millis(started);
        (
            RetryState { attempts_started: started + 1, last_failure: reason },
            DownloadAction::Attempt { attempt: started, delay_millis: delay },
        )
    } else {
        let failure = reason.clone();
        (
            RetryState { attempts_started: started, last_failure: reason },
            DownloadAction::Finish { failure: Some(failure) },
        )
    }
}

/// Starts downloading an asset with at most `max_attempts` attempts: the first attempt,
/// at once after 500 ms, or the end with `Not started` when no attempt is allowed.
pub fn begin_download(max_attempts: u64) -> (res: (RetryState, DownloadAction))
    requires
        delays_fit(max_attempts),
    ensures
        retry_or_finish(0, "Not started"@, max_attempts, res.0, res.1),
{
    retry_or_finish_exec(0, "Not started".to_owned(), max_attempts)
}

/// The next step of the download loop after `event`: an answer with status 200 is to be
/// stored; a stored body ends the download with success; any failure (an HTTP status
/// other than 200, a failed request, a failed write) becomes the last failure reason and
/// leads to the next attempt, or to the end when `max_attempts` have been started.
pub fn download_step(state: RetryState, event: DownloadEvent, max_attempts: u64) -> (res: (RetryState, DownloadAction))
    requires
        state.attempts_started <= max_attempts,
        delays_fit(max_attempts),
    ensures
        match event {
            DownloadEvent::Responded { status } => if status == 200 {
                res.0 == state && res.1 is Store
            } else {
                retry_or_finish(
                    state.attempts_started,
                    "HTTP Status "@ + decimal_chars(status as nat),
                    max_attempts,
                    res.0,
                    res.1,
                )
            },
            DownloadEvent::RequestFailed { message } => retry_or_finish(
                state.attempts_started,
                "Scraper error: "@ + message@,
                max_attempts,
                res.0,
                res.1,
            ),
            DownloadEvent::Stored => res.0 == state && res.1 matches DownloadAction::Finish {
                failure: None,
            },
            DownloadEvent::WriteFailed { message } => retry_or_finish(
                state.attempts_started,
                "Disk write error: "@ + message@,
                max_attempts,
                res.0,
                res.1,
            ),
        },
        res.0.attempts_started <= max_attempts,
        res.0.attempts_started >= state.attempts_started,
        res.1 matches DownloadAction::Attempt { attempt, delay_millis } ==> {
            &&& attempt == state.attempts_started
            &&& attempt < max_attempts
            &&& delay_millis == 500 + 1500 * attempt
            &&& res.0.attempts_started == attempt + 1
        },
        (res.1 matches DownloadAction::Finish { failure: Some(_) }) ==> state.attempts_started == max_attempts,
        (event is Stored) <==> (res.1 matches DownloadAction::Finish { failure: None }),
        (event matches DownloadEvent::Responded { status } && status == 200) <==> res.1 is Store,
{
    proof {
        lemma_retry_or_finish_bounds(state.attempts_started, max_attempts);
    }
    match event {
        DownloadEvent::Responded { status } => {
            if status == 200 {
                (state, DownloadAction::Store)
            } else {
                retry_or_finish_exec(state.attempts_started, http_status_reason(status), max_attempts)
            }
        },
        DownloadEvent::RequestFailed { message } => {
            let mut reason = "Scraper error: ".to_owned();
            reason.append(message.as_str());
            retry_or_finish_exec(state.attempts_started, reason, max_attempts)
        },
        DownloadEvent::Stored => (state, DownloadAction::Finish { failure: None }),
        DownloadEvent::WriteFailed { message } => {
            let mut reason = "Disk write error: ".to_owned();
            reason.append(message.as_str());
            retry_or_finish_exec(state.attempts_started, reason, max_attempts)
        },
    }
}

/// The state a download ends in: `Success`, or `Failed` with the error message.
pub open spec fn outcome_status(failure: Option<String>) -> DownloadStatus {
    match failure {
        None => DownloadStatus::Success,
        Some(reason) => DownloadStatus::Failed { reason },
    }
}

/// Records the outcome of downloading task `idx`: its status becomes `Success` when
/// `failure` is `None`, else `Failed` with that reason. Nothing else changes.
pub fn record_outcome(journal: &mut Journal, idx: usize, failure: Option<String>)
    requires
        idx < old(journal).tasks@.len(),
    ensures
        final(journal).target_url == old(journal).target_url,
        final(journal).mime_type == old(journal).mime_type,
        final(journal).tasks@ == old(journal).tasks@.update(
            idx as int,
            (DownloadTask { status: outcome_status(failure), ..old(journal).tasks@[idx as int] }),
        ),
        final(journal).tasks@.len() == old(journal).tasks@.len(),
        forall|i: int|
            0 <= i < old(journal).tasks@.len() && i != idx ==> #[trigger] final(journal).tasks@[i]
                == old(journal).tasks@[i],
        failure is None ==> final(journal).tasks@[idx as int].status is Success,
        failure matches Some(r) ==> final(journal).tasks@[idx as int].status == (DownloadStatus::Failed {
            reason: r,
        }),
        final(journal).tasks@[idx as int].local_filename == old(journal).tasks@[idx as int].local_filename,
        final(journal).tasks@[idx as int].original_url == old(journal).tasks@[idx as int].original_url,
        final(journal).tasks@[idx as int].timestamp == old(journal).tasks@[idx as int].timestamp,
{
    let mut task = journal.tasks.remove(idx);
    task.status = match failure {
        None => DownloadStatus::Success,
        Some(reason) => DownloadStatus::Failed { reason },
    };
    journal.tasks.insert(idx, task);
    assert(journal.tasks@ =~= old(journal).tasks@.update(
        idx as int,
        DownloadTask { status: outcome_status(failure), ..old(journal).tasks@[idx as int] },
    ));
}

} // verus!
