use autogamivoid::client::{
    backoff_delay, backoff_delay_with, classify_response, final_error, is_cloudflare_challenge,
    is_not_found, is_stale_etag, more_admin_pages, next_step, api_base_url, api_request_url, AttemptOutcome, NextStep,
    ResponseAction, RetryDelay,
};

#[test]
fn backoff_grows_with_attempts() {
    let early = backoff_delay(1);
    let late = backoff_delay(4);
    assert!(late > early);
}

#[test]
fn detects_cloudflare_challenge_pages() {
    assert!(is_cloudflare_challenge("<html><title>Just a moment...</title></html>"));
    assert!(is_cloudflare_challenge("<script src=\"/cdn-cgi/challenge-platform/h/b/orchestrate\">"));
    assert!(!is_cloudflare_challenge("{\"categories\":[\"Action\"]}"));
}

#[test]
fn stale_etag_detection() {
    assert!(is_stale_etag("API request failed: HTTP 412 http://x"));
    assert!(!is_stale_etag("API request failed: HTTP 400 http://x"));
}

#[test]
fn backoff_formula_and_not_found() {
    assert_eq!(backoff_delay_with(3, 7), 1307);
    assert!(is_not_found("API request failed: HTTP 404 http://x"));
    assert!(!is_not_found("API request failed: HTTP 500 http://x"));
    assert!(more_admin_pages(100));
    assert!(!more_admin_pages(99));
}

#[test]
fn responses_are_classified() {
    match classify_response(2, 10, 429, Some(3), "", "http://x/api") {
        ResponseAction::Retry { delay, error } => {
            assert_eq!(delay, RetryDelay::Seconds(3));
            assert_eq!(error, "rate limited: HTTP 429 from http://x/api");
        }
        _ => panic!("429 retries"),
    }
    match classify_response(2, 10, 503, None, "", "http://x/api") {
        ResponseAction::Retry { delay, error } => {
            assert_eq!(delay, RetryDelay::Millis(1210));
            assert_eq!(error, "server error: HTTP 503 from http://x/api");
        }
        _ => panic!("5xx retries"),
    }
    assert!(matches!(classify_response(1, 1, 201, None, "{}", "u"), ResponseAction::Accept));
    match classify_response(1, 1, 400, None, "bad", "http://x") {
        ResponseAction::Fail(m) => assert_eq!(m, "API request failed: HTTP 400 http://x \u{2014} bad"),
        _ => panic!("400 fails"),
    }
    match classify_response(1, 1, 403, None, "Just a moment...", "http://x") {
        ResponseAction::Fail(m) => assert!(m.starts_with("Cloudflare bot challenge blocked HTTP 403 http://x")),
        _ => panic!("challenge fails"),
    }
    assert_eq!(final_error(&None, 4), "request failed: request failed after 4 attempts");
    assert_eq!(final_error(&Some("boom".into()), 4), "request failed: boom");
}

#[test]
fn attempts_retry_until_the_last_then_give_up() {
    assert!(matches!(next_step(1, 4, AttemptOutcome::Answered(ResponseAction::Accept)), NextStep::Accept));
    match next_step(2, 4, AttemptOutcome::Answered(ResponseAction::Fail("bad".into()))) {
        NextStep::Fail(m) => assert_eq!(m, "bad"),
        _ => panic!("expected a failure"),
    }
    match next_step(1, 4, AttemptOutcome::Transport("refused".into())) {
        NextStep::Retry { wait, next_attempt } => {
            assert!(wait.is_none());
            assert_eq!(next_attempt, 2);
        }
        _ => panic!("expected a retry"),
    }
    let retry = ResponseAction::Retry { delay: RetryDelay::Seconds(7), error: "rate limited".into() };
    match next_step(3, 4, AttemptOutcome::Answered(retry)) {
        NextStep::Retry { wait, next_attempt } => {
            assert_eq!(wait, Some(RetryDelay::Seconds(7)));
            assert_eq!(next_attempt, 4);
        }
        _ => panic!("expected a retry"),
    }
    let retry = ResponseAction::Retry { delay: RetryDelay::Millis(1500), error: "server error".into() };
    match next_step(4, 4, AttemptOutcome::Answered(retry)) {
        NextStep::GiveUp { wait, message } => {
            assert_eq!(wait, Some(RetryDelay::Millis(1500)));
            assert_eq!(message, "request failed: server error");
        }
        _ => panic!("expected giving up"),
    }
    match next_step(4, 4, AttemptOutcome::Transport("timed out".into())) {
        NextStep::GiveUp { wait, message } => {
            assert!(wait.is_none());
            assert_eq!(message, "request failed: timed out");
        }
        _ => panic!("expected giving up"),
    }
}

#[test]
fn request_urls_resolve_against_the_base() {
    assert_eq!(api_base_url("https://gamivoid.site").as_deref(), Some("https://gamivoid.site/"));
    assert!(api_base_url("not a url").is_none());
    assert_eq!(
        api_request_url("https://gamivoid.site/", "/api/taxonomy").as_deref(),
        Some("https://gamivoid.site/api/taxonomy")
    );
    assert!(api_request_url("nope", "/api").is_none());
}
