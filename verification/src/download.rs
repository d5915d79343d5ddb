//! Download decisions: retrying, resuming, and where a file comes from.

use crate::config::remote::Channel;
use crate::error::AppError;
use crate::text::{
    all_digits, chars_of, concat, decimal, decimal_of, eq_pred, parse_unsigned, parse_unsigned_seq,
    replace_char, replace_char_seq, split_by, split_on_non_digit, starts_with, starts_with_seq,
    string_of, trim_end_by, trim_end_in, views,
};
use vstd::prelude::*;

verus! {

/// How often, and when not, a download is retried.
#[derive(Debug, Clone)]
pub struct RetryPolicy {
    pub max_attempts: u32,
    /// The pause between attempts, in milliseconds.
    pub backoff_ms: u64,
    /// HTTP statuses that no retry can cure.
    pub dont_retry_status: Vec<u16>,
}

/// What to do after a failed attempt.
#[derive(Debug, Clone, Copy, PartialEq, Eq, Structural)]
pub enum RetryStep {
    /// Report this failure.
    GiveUp,
    /// Try again, after the backoff when `wait`; with no attempt left the
    /// failure is reported after the loop.
    Retry { wait: bool },
}

/// The status code an HTTP error message mentions: the first group of
/// exactly three digits that reads as 100 to 599.
pub open spec fn status_in_words(words: Seq<Seq<char>>) -> Option<u16>
    decreases words.len(),
{
    if words.len() == 0 {
        None
    } else {
        let w = words[0];
        match parse_unsigned(w, 65535) {
            Some(n) => if w.len() == 3 && 100 <= n <= 599 {
                Some(n as u16)
            } else {
                status_in_words(words.drop_first())
            },
            None => status_in_words(words.drop_first()),
        }
    }
}

pub open spec fn status_code_spec(msg: Seq<char>) -> Option<u16> {
    status_in_words(split_by(msg, crate::text::non_digit_pred()))
}

/// The HTTP status an error message mentions, if any.
pub fn extract_status_code(msg: &str) -> (r: Option<u16>)
    ensures
        r == status_code_spec(msg@),
{
    let c = chars_of(msg);
    let words = split_on_non_digit(&c);
    let ghost ws = views(words@);
    let mut i: usize = 0;
    assert(ws.skip(0) =~= ws);
    while i < words.len()
        invariant
            i <= words@.len(),
            ws == views(words@),
            ws == split_by(msg@, crate::text::non_digit_pred()),
            status_in_words(ws) == status_in_words(ws.skip(i as int)),
        decreases words.len() - i,
    {
        assert(ws.skip(i as int)[0] == words@[i as int]@);
        assert(ws.skip(i as int).drop_first() =~= ws.skip(i + 1));
        let w = &words[i];
        match parse_unsigned_seq(w, 65535) {
            Some(n) => {
                if w.len() == 3 && 100 <= n && n <= 599 {
                    assert(ws.skip(i as int).len() > 0);
                    assert(parse_unsigned(ws.skip(i as int)[0], 65535) == Some(n as nat));
                    assert(status_in_words(ws.skip(i as int)) == Some((n as nat) as u16));
                    return Some(n as u16);
                }
            },
            None => {},
        }
        i = i + 1;
    }
    None
}

/// Whether `codes` holds `c`.
pub open spec fn has_code(codes: Seq<u16>, c: u16) -> bool {
    codes.contains(c)
}

/// The step after attempt number `attempt` failed with `e`: a cancel, and
/// an HTTP error with a status on the don't-retry list, end the loop.
pub open spec fn step_spec(p: RetryPolicy, attempt: u32, e: AppError) -> RetryStep {
    let final_status = match e {
        AppError::Http(msg) => match status_code_spec(msg@) {
            Some(c) => has_code(p.dont_retry_status@, c),
            None => false,
        },
        _ => false,
    };
    if final_status || e is Cancelled {
        RetryStep::GiveUp
    } else {
        RetryStep::Retry { wait: attempt < p.max_attempts }
    }
}

impl RetryPolicy {
    /// For whole files: 15 attempts, 3 s apart, no retry on 404.
    pub fn full_file() -> (p: Self)
        ensures
            p.max_attempts == 15,
            p.backoff_ms == 3000,
            p.dont_retry_status@ == seq![404u16],
    {
        let mut codes: Vec<u16> = Vec::new();
        codes.push(404);
        RetryPolicy { max_attempts: 15, backoff_ms: 3000, dont_retry_status: codes }
    }

    /// For parts of chunked files: 50 attempts, 3 s apart, no retry on 404.
    pub fn chunk() -> (p: Self)
        ensures
            p.max_attempts == 50,
            p.backoff_ms == 3000,
            p.dont_retry_status@ == seq![404u16],
    {
        let mut codes: Vec<u16> = Vec::new();
        codes.push(404);
        RetryPolicy { max_attempts: 50, backoff_ms: 3000, dont_retry_status: codes }
    }

    /// What to do after attempt `attempt` failed with `e`.
    pub fn after_failure(&self, attempt: u32, e: &AppError) -> (s: RetryStep)
        ensures
            s == step_spec(*self, attempt, *e),
    {
        let final_status = match e {
            AppError::Http(msg) => match extract_status_code(msg.as_str()) {
                Some(c) => {
                    let mut found = false;
                    let mut i: usize = 0;
                    while i < self.dont_retry_status.len()
                        invariant
                            i <= self.dont_retry_status@.len(),
                            found == (exists|j: int| 0 <= j < i && self.dont_retry_status@[j] == c),
                        decreases self.dont_retry_status.len() - i,
                    {
                        if self.dont_retry_status[i] == c {
                            found = true;
                        }
                        i = i + 1;
                    }
                    found
                },
                None => false,
            },
            _ => false,
        };
        if final_status || e.is_cancelled() {
            RetryStep::GiveUp
        } else {
            RetryStep::Retry { wait: attempt < self.max_attempts }
        }
    }

    /// The error when no attempt was made at all.
    pub fn exhausted_error() -> (e: AppError)
        ensures
            e matches AppError::Other(m) && m@ == "retry exhausted"@,
    {
        AppError::other("retry exhausted")
    }
}

/// How a run of attempts ends.
pub enum RunEnd {
    /// An attempt succeeded; its value is returned.
    Succeeded,
    /// This failure is returned.
    Failed(AppError),
    /// No attempt was made (`retry exhausted`).
    Exhausted,
}

/// The run of attempts from attempt number `i + 1` on, when attempt
/// number `j + 1` would fail with `outs[j]` (`None`: it succeeds): how many
/// attempts are made in all, and how the run ends.  Each failure is
/// followed by the step `after_failure` gives; when every attempt is used,
/// the last failure is returned.
pub open spec fn run_from(p: RetryPolicy, outs: Seq<Option<AppError>>, i: nat) -> (nat, RunEnd)
    decreases p.max_attempts - i,
{
    if i >= p.max_attempts {
        if i == 0 {
            (i, RunEnd::Exhausted)
        } else {
            match outs[i - 1] {
                Some(e) => (i, RunEnd::Failed(e)),
                None => (i, RunEnd::Succeeded),
            }
        }
    } else {
        match outs[i as int] {
            None => ((i + 1) as nat, RunEnd::Succeeded),
            Some(e) => match step_spec(p, (i + 1) as u32, e) {
                RetryStep::GiveUp => ((i + 1) as nat, RunEnd::Failed(e)),
                RetryStep::Retry { .. } => run_from(p, outs, (i + 1) as nat),
            },
        }
    }
}

proof fn lemma_run_from(p: RetryPolicy, outs: Seq<Option<AppError>>, i: nat)
    requires
        i <= p.max_attempts,
        outs.len() >= p.max_attempts,
        i > 0 ==> outs[i - 1] is Some,
    ensures
        i <= run_from(p, outs, i).0 <= p.max_attempts,
        forall|j: int|
            i <= j && j + 1 < run_from(p, outs, i).0 ==> (#[trigger] outs[j]) is Some && step_spec(
                p,
                (j + 1) as u32,
                outs[j]->0,
            ) is Retry,
        run_from(p, outs, i).1 is Succeeded ==> run_from(p, outs, i).0 > i && outs[run_from(
            p,
            outs,
            i,
        ).0 - 1] is None,
        run_from(p, outs, i).1 matches RunEnd::Failed(e) ==> run_from(p, outs, i).0 >= 1 && outs[run_from(
            p,
            outs,
            i,
        ).0 - 1] == Some(e) && (run_from(p, outs, i).0 < p.max_attempts ==> step_spec(
            p,
            run_from(p, outs, i).0 as u32,
            e,
        ) is GiveUp),
        run_from(p, outs, i).1 is Exhausted <==> p.max_attempts == 0,
    decreases p.max_attempts - i,
{
    if i < p.max_attempts {
        match outs[i as int] {
            None => {},
            Some(e) => match step_spec(p, (i + 1) as u32, e) {
                RetryStep::GiveUp => {},
                RetryStep::Retry { .. } => {
                    lemma_run_from(p, outs, (i + 1) as nat);
                },
            },
        }
    }
}

/// The retry loop: attempts are numbered 1, 2, ..., at most
/// `max_attempts` of them; a new attempt is made only after a failure that
/// `after_failure` lets retry (never after a success); the run returns the
/// first success, or a failure that is not retried (a cancel, or an HTTP
/// status on the don't-retry list) as soon as it comes, or else the last
/// failure once every attempt is used, or `retry exhausted` when no
/// attempt may be made.
pub proof fn law_retry_run(p: RetryPolicy, outs: Seq<Option<AppError>>)
    requires
        outs.len() >= p.max_attempts,
    ensures
        run_from(p, outs, 0).0 <= p.max_attempts,
        forall|j: int|
            0 <= j && j + 1 < run_from(p, outs, 0).0 ==> (#[trigger] outs[j]) is Some && step_spec(
                p,
                (j + 1) as u32,
                outs[j]->0,
            ) is Retry,
        run_from(p, outs, 0).1 is Succeeded ==> run_from(p, outs, 0).0 >= 1 && outs[run_from(
            p,
            outs,
            0,
        ).0 - 1] is None,
        run_from(p, outs, 0).1 matches RunEnd::Failed(e) ==> run_from(p, outs, 0).0 >= 1 && outs[run_from(
            p,
            outs,
            0,
        ).0 - 1] == Some(e) && (run_from(p, outs, 0).0 < p.max_attempts ==> step_spec(
            p,
            run_from(p, outs, 0).0 as u32,
            e,
        ) is GiveUp),
        run_from(p, outs, 0).1 is Exhausted <==> p.max_attempts == 0,
{
    lemma_run_from(p, outs, 0);
}

/// `file_path` with `\` written as `/`, after the channel's URL.
pub open spec fn entry_url_spec(game_url: Seq<char>, file_path: Seq<char>) -> Seq<char> {
    trim_end_by(game_url, eq_pred('/')) + seq!['/'] + replace_char(file_path, '\\', '/')
}

/// The URL of a manifest file: `{game_url}/{path}`, the path's `\` made `/`.
pub fn entry_url(channel: &Channel, file_path: &str) -> (r: String)
    ensures
        r@ == entry_url_spec(channel.game_url@, file_path@),
{
    let u = chars_of(channel.game_url.as_str());
    let slash = vec!['/'];
    assert(crate::text::in_set(slash@) =~= eq_pred('/')) by {
        assert(slash@ =~= seq!['/']);
        assert forall|c: char| #[trigger] crate::text::in_set(slash@)(c) == eq_pred('/')(c) by {
            if c == '/' {
                assert(slash@[0] == c);
            }
        }
    }
    let t = trim_end_in(&u, &slash);
    let p = chars_of(file_path);
    let q = replace_char_seq(&p, '\\', '/');
    let ts = concat(&t, &slash);
    let full = concat(&ts, &q);
    string_of(&full)
}

/// Where a download resumes, given the size of what is already on disk:
/// a partial file at or past the expected size is started over.
pub fn resume_offset(existing: u64, expected_size: u64) -> (r: u64)
    ensures
        r == if expected_size > 0 && existing >= expected_size {
            0
        } else {
            existing
        },
{
    if expected_size > 0 && existing >= expected_size {
        0
    } else {
        existing
    }
}

/// The `Range` header that asks for the rest of a file from `offset`.
pub fn range_header(offset: u64) -> (r: String)
    ensures
        r@ == "bytes="@ + decimal(offset as nat) + "-"@,
{
    let a = chars_of("bytes=");
    let n = decimal_of(offset);
    let b = chars_of("-");
    let an = concat(&a, &n);
    let all = concat(&an, &b);
    string_of(&all)
}

/// Whether a partial response's `Content-Range` continues at `offset`.
pub fn content_range_continues(offset: u64, content_range: &str) -> (r: bool)
    ensures
        r == starts_with(content_range@, "bytes "@ + decimal(offset as nat) + "-"@),
{
    let a = chars_of("bytes ");
    let n = decimal_of(offset);
    let b = chars_of("-");
    let an = concat(&a, &n);
    let prefix = concat(&an, &b);
    let c = chars_of(content_range);
    starts_with_seq(&c, &prefix)
}

/// Seconds left at `speed` bytes per second, none when the speed is unknown.
pub fn eta_seconds(total: u64, done: u64, speed: u64) -> (r: u64)
    ensures
        r == if speed > 0 {
            (if total >= done {
                (total - done) as nat
            } else {
                0nat
            }) / (speed as nat)
        } else {
            0
        },
{
    if speed > 0 {
        let left = if total >= done {
            total - done
        } else {
            0
        };
        left / speed
    } else {
        0
    }
}

/// What to do with the response to a download request.
#[derive(Debug)]
pub enum ResponseStep {
    /// Write the body: appended to the partial file, or over it from the
    /// start.
    Write { append: bool },
    /// Fail with `error`, after emptying the partial file when `truncate`.
    Fail { truncate: bool, error: AppError },
}

/// The step for a response with status `status` to a request for `url`
/// from byte `resume_from` (0: the whole file), whose `Content-Range` reads
/// `content_range` (empty when absent).  A range the server cannot serve
/// (416) empties the file and fails; any other status outside 200..=299
/// fails; a partial response (206) to a range request is appended only
/// when its range starts where the file ends, else the file is emptied and
/// the download fails; any other success is written from the start.
pub open spec fn response_spec(url: Seq<char>, resume_from: u64, status: u16, content_range: Seq<char>) -> (
    bool,
    Option<(bool, Seq<char>)>,
) {
    if resume_from > 0 && status == 416 {
        (false, Some((true, url + " HTTP 416"@)))
    } else if !(200 <= status <= 299) {
        (false, Some((false, url + " HTTP "@ + decimal(status as nat))))
    } else if resume_from > 0 && status == 206 {
        if starts_with(content_range, "bytes "@ + decimal(resume_from as nat) + "-"@) {
            (true, None)
        } else {
            (false, Some((true, "GET "@ + url + ": Content-Range 无效 ("@ + content_range + ")"@)))
        }
    } else {
        (false, None)
    }
}

/// What to do with a download response (see `response_spec`); each
/// failure is an HTTP error with the message given there.
pub fn response_step(url: &str, resume_from: u64, status: u16, content_range: &str) -> (r: ResponseStep)
    ensures
        match response_spec(url@, resume_from, status, content_range@) {
            (append, None) => r == ResponseStep::Write { append },
            (_, Some((truncate, m))) => r matches ResponseStep::Fail { truncate: t, error: AppError::Http(e) }
                && t == truncate && e@ == m,
        },
{
    if resume_from > 0 && status == 416 {
        return ResponseStep::Fail { truncate: true, error: AppError::Http(crate::text::join_str(url, " HTTP 416")) };
    }
    if !(200 <= status && status <= 299) {
        let head = crate::text::join_str(url, " HTTP ");
        let code = string_of(&decimal_of(status as u64));
        return ResponseStep::Fail {
            truncate: false,
            error: AppError::Http(crate::text::join_str(head.as_str(), code.as_str())),
        };
    }
    if resume_from > 0 && status == 206 {
        if content_range_continues(resume_from, content_range) {
            return ResponseStep::Write { append: true };
        }
        let m = crate::text::join3_str("GET ", url, ": Content-Range 无效 (");
        return ResponseStep::Fail {
            truncate: true,
            error: AppError::Http(crate::text::join3_str(m.as_str(), content_range, ")")),
        };
    }
    ResponseStep::Write { append: false }
}

/// A finished download must have the size the manifest gives, when it
/// gives one (not 0); else it fails verification, naming its URL.
pub fn check_downloaded_size(url: &str, expected_size: u64, actual_size: u64) -> (r: Result<(), AppError>)
    ensures
        (expected_size == 0 || actual_size == expected_size) ==> r is Ok,
        (expected_size > 0 && actual_size != expected_size) ==> (r matches Err(
            AppError::Verification { path, expected, actual },
        ) && path@ == url@ && expected@ == decimal(expected_size as nat) && actual@ == decimal(
            actual_size as nat,
        )),
{
    if expected_size > 0 && actual_size != expected_size {
        return Err(
            AppError::Verification {
                path: crate::text::string_from_str(url),
                expected: string_of(&decimal_of(expected_size)),
                actual: string_of(&decimal_of(actual_size)),
            },
        );
    }
    Ok(())
}

/// A manifest path (written with `\`) with the platform's separator
/// `separator` in place of each `\`.
pub fn entry_relative_path(entry_path: &str, separator: char) -> (r: String)
    ensures
        r@ == replace_char(entry_path@, '\\', separator),
{
    let c = chars_of(entry_path);
    string_of(&replace_char_seq(&c, '\\', separator))
}

} // verus!
