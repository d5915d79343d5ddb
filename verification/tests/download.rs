use r5r_launcher::config::remote::Channel;
use r5r_launcher::download::{
    check_downloaded_size, content_range_continues, entry_relative_path, entry_url, response_step, ResponseStep, eta_seconds, extract_status_code, range_header, resume_offset,
    RetryPolicy, RetryStep,
};
use r5r_launcher::error::AppError;

#[test]
fn status_codes_are_found_in_messages() {
    assert_eq!(extract_status_code("HTTP 404 Not Found"), Some(404));
    assert_eq!(extract_status_code("https://x/1234/a HTTP 503"), Some(503));
    assert_eq!(extract_status_code("code 099 then 700"), None);
    assert_eq!(extract_status_code("no digits"), None);
}

#[test]
fn retry_decisions_mirror_the_policy() {
    let p = RetryPolicy { max_attempts: 5, backoff_ms: 1, dont_retry_status: vec![404] };
    assert_eq!(p.after_failure(1, &AppError::http("HTTP 404 Not Found")), RetryStep::GiveUp);
    assert_eq!(p.after_failure(1, &AppError::http("HTTP 500")), RetryStep::Retry { wait: true });
    assert_eq!(p.after_failure(5, &AppError::http("HTTP 500")), RetryStep::Retry { wait: false });
    assert_eq!(p.after_failure(2, &AppError::Cancelled), RetryStep::GiveUp);
    assert_eq!(RetryPolicy::full_file().max_attempts, 15);
    assert_eq!(RetryPolicy::chunk().max_attempts, 50);
    assert_eq!(RetryPolicy::chunk().dont_retry_status, vec![404]);
}

#[test]
fn urls_ranges_and_eta() {
    let c = Channel { game_url: "https://cdn.example/live/".into(), ..Default::default() };
    assert_eq!(entry_url(&c, r"paks\Win64\a.rpak"), "https://cdn.example/live/paks/Win64/a.rpak");
    assert_eq!(resume_offset(100, 100), 0);
    assert_eq!(resume_offset(40, 100), 40);
    assert_eq!(resume_offset(40, 0), 40);
    assert_eq!(range_header(40), "bytes=40-");
    assert!(content_range_continues(40, "bytes 40-99/100"));
    assert!(!content_range_continues(40, "bytes 0-99/100"));
    assert_eq!(eta_seconds(100, 40, 20), 3);
    assert_eq!(eta_seconds(100, 140, 20), 0);
    assert_eq!(eta_seconds(100, 40, 0), 0);
}

#[test]
fn retries_until_success() {
    let p = RetryPolicy { max_attempts: 5, backoff_ms: 1, dont_retry_status: vec![404] };
    let e = AppError::http("HTTP 500");
    assert_eq!(p.after_failure(1, &e), RetryStep::Retry { wait: true });
    assert_eq!(p.after_failure(2, &e), RetryStep::Retry { wait: true });
    assert_eq!(p.after_failure(5, &e), RetryStep::Retry { wait: false });
}

#[test]
fn does_not_retry_on_404() {
    let p = RetryPolicy { max_attempts: 5, backoff_ms: 1, dont_retry_status: vec![404] };
    assert_eq!(p.after_failure(1, &AppError::http("HTTP 404 Not Found")), RetryStep::GiveUp);
    assert_eq!(p.after_failure(1, &AppError::Cancelled), RetryStep::GiveUp);
}

/// The retry loop as the application runs it, over scripted outcomes:
/// the number of attempts made, and the index of the outcome returned
/// (`None`: `retry exhausted`).
fn simulate(p: &RetryPolicy, outs: &[Result<(), AppError>]) -> (usize, Option<usize>) {
    let mut calls = 0;
    let mut last = None;
    for attempt in 1..=p.max_attempts {
        calls += 1;
        let i = (attempt - 1) as usize;
        match &outs[i] {
            Ok(()) => return (calls, Some(i)),
            Err(e) => match p.after_failure(attempt, e) {
                RetryStep::GiveUp => return (calls, Some(i)),
                RetryStep::Retry { .. } => last = Some(i),
            },
        }
    }
    (calls, last)
}

#[test]
fn retry_run_stops_at_first_success_or_final_failure() {
    let p = RetryPolicy { max_attempts: 5, backoff_ms: 1, dont_retry_status: vec![404] };
    let e500 = || Err(AppError::http("HTTP 500"));
    assert_eq!(simulate(&p, &[e500(), e500(), Ok(()), e500(), e500()]), (3, Some(2)));
    assert_eq!(simulate(&p, &[Err(AppError::http("HTTP 404 Not Found")), Ok(()), Ok(()), Ok(()), Ok(())]), (1, Some(0)));
    assert_eq!(simulate(&p, &[e500(), Err(AppError::Cancelled), Ok(()), Ok(()), Ok(())]), (2, Some(1)));
    assert_eq!(simulate(&p, &[e500(), e500(), e500(), e500(), e500()]), (5, Some(4)));
    let none = RetryPolicy { max_attempts: 0, backoff_ms: 1, dont_retry_status: vec![] };
    assert_eq!(simulate(&none, &[]), (0, None));
    assert!(matches!(RetryPolicy::exhausted_error(), AppError::Other(m) if m == "retry exhausted"));
}

#[test]
fn download_responses_are_appended_written_or_refused() {
    assert!(matches!(response_step("u", 0, 200, ""), ResponseStep::Write { append: false }));
    assert!(matches!(response_step("u", 10, 200, ""), ResponseStep::Write { append: false }));
    assert!(matches!(response_step("u", 10, 206, "bytes 10-99/100"), ResponseStep::Write { append: true }));
    match response_step("u", 10, 206, "bytes 0-99/100") {
        ResponseStep::Fail { truncate: true, error: AppError::Http(m) } => {
            assert_eq!(m, "GET u: Content-Range 无效 (bytes 0-99/100)")
        }
        other => panic!("unexpected {other:?}"),
    }
    match response_step("u", 10, 416, "") {
        ResponseStep::Fail { truncate: true, error: AppError::Http(m) } => assert_eq!(m, "u HTTP 416"),
        other => panic!("unexpected {other:?}"),
    }
    match response_step("u", 0, 404, "") {
        ResponseStep::Fail { truncate: false, error: AppError::Http(m) } => assert_eq!(m, "u HTTP 404"),
        other => panic!("unexpected {other:?}"),
    }
    match response_step("u", 0, 416, "") {
        ResponseStep::Fail { truncate: false, error: AppError::Http(m) } => assert_eq!(m, "u HTTP 416"),
        other => panic!("unexpected {other:?}"),
    }
}

#[test]
fn downloaded_size_must_match_when_known() {
    assert!(check_downloaded_size("u", 0, 5).is_ok());
    assert!(check_downloaded_size("u", 5, 5).is_ok());
    match check_downloaded_size("u", 5, 3) {
        Err(AppError::Verification { path, expected, actual }) => {
            assert_eq!((path.as_str(), expected.as_str(), actual.as_str()), ("u", "5", "3"))
        }
        other => panic!("unexpected {other:?}"),
    }
}

#[test]
fn manifest_paths_take_the_platform_separator() {
    assert_eq!(entry_relative_path(r"paks\Win64\a.rpak", '/'), "paks/Win64/a.rpak");
    assert_eq!(entry_relative_path(r"paks\a.rpak", '\\'), r"paks\a.rpak");
    assert_eq!(entry_relative_path("r5apex.exe", '/'), "r5apex.exe");
}

