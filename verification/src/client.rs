//! Decisions of the publishing API client: retries and backoff, response
//! classification, Cloudflare challenge and stale-ETag detection.
use vstd::prelude::*;
use crate::text::{chars_of, contains, contains_chars, decimal, lower_of, lower_vec, push_str_vec, push_vec, string_of};

verus! {

broadcast use vstd::string::group_string_axioms;

/// A Cloudflare interstitial challenge page ("Just a moment..."), judged on
/// the lower-case body.
pub open spec fn cloudflare_spec(body: Seq<char>) -> bool {
    let l = lower_of(body);
    contains(l, "just a moment"@) || contains(l, "challenge-platform"@) || (contains(l, "cloudflare"@)
        && contains(l, "cf-chl"@)) || contains(l, "attention required! | cloudflare"@)
}

/// Detect Cloudflare's interstitial challenge page so that an actionable
/// error can be reported instead of raw HTML.
pub fn is_cloudflare_challenge(body: &str) -> (r: bool)
    ensures
        r == cloudflare_spec(body@),
{
    let l = lower_vec(&chars_of(body));
    contains_chars(&l, &chars_of("just a moment")) || contains_chars(&l, &chars_of("challenge-platform"))
        || (contains_chars(&l, &chars_of("cloudflare")) && contains_chars(&l, &chars_of("cf-chl")))
        || contains_chars(&l, &chars_of("attention required! | cloudflare"))
}

/// An error message that reports HTTP 412 (a stale ETag).
pub fn is_stale_etag(message: &str) -> (r: bool)
    ensures
        r == contains(message@, "HTTP 412"@),
{
    contains_chars(&chars_of(message), &chars_of("HTTP 412"))
}

/// An error message that reports HTTP 404.
pub fn is_not_found(message: &str) -> (r: bool)
    ensures
        r == contains(message@, "HTTP 404"@),
{
    contains_chars(&chars_of(message), &chars_of("HTTP 404"))
}

/// Milliseconds since the Unix epoch by the system clock (0 before it).
#[verifier::external_body]
fn unix_millis() -> (r: u128) {
    std::time::SystemTime::now().duration_since(std::time::UNIX_EPOCH).unwrap_or_default().as_millis()
}

/// The jitter a clock reading gives: 1 to 500 milliseconds.
pub open spec fn jitter_spec(t: u64) -> u64 {
    ((t / 128) % 500 + 1) as u64
}

/// A pseudo-random jitter of 1 to 500 milliseconds from the clock.
pub fn rand_millis() -> (r: u64)
    ensures
        1 <= r <= 500,
        exists|t: u64| r == jitter_spec(t),
{
    let t = unix_millis() as u64;
    let r = ((t >> 7) % 500) + 1;
    assert(t >> 7 == t / 128) by (bit_vector);
    assert(r == jitter_spec(t));
    r
}

/// The delay before retry `attempt`: one second, the jitter, and 100 ms
/// per attempt.
pub open spec fn backoff_spec(attempt: u32, jitter: u64) -> int {
    1000 + jitter + 100 * attempt
}

/// Backoff before retry `attempt`, in milliseconds, with the given jitter.
pub fn backoff_delay_with(attempt: u32, jitter: u64) -> (r: u64)
    requires
        jitter <= 500,
    ensures
        r == backoff_spec(attempt, jitter),
{
    1000 + jitter + 100 * (attempt as u64)
}

/// Backoff before retry `attempt`, in milliseconds (with clock jitter).
/// For the same jitter, a later attempt waits longer, by 100 ms per attempt.
pub proof fn lemma_backoff_grows(early: u32, late: u32, jitter: u64)
    requires
        early < late,
    ensures
        backoff_spec(late, jitter) - backoff_spec(early, jitter) == 100 * (late - early),
        backoff_spec(early, jitter) < backoff_spec(late, jitter),
{
}

pub fn backoff_delay(attempt: u32) -> (r: u64)
    ensures
        1001 + 100 * attempt <= r <= 1500 + 100 * attempt,
{
    backoff_delay_with(attempt, rand_millis())
}

/// How long to wait before the next attempt.
#[derive(Clone, Copy, Debug, PartialEq, Eq, Structural)]
pub enum RetryDelay {
    /// The server's `Retry-After`, in seconds.
    Seconds(u64),
    /// The backoff of this attempt, in milliseconds.
    Millis(u64),
}

/// What to do with a received response.
pub enum ResponseAction {
    /// 2xx: parse the body.
    Accept,
    /// 429 or 5xx: wait, remember the error, try again.
    Retry { delay: RetryDelay, error: String },
    /// Any other status: fail with this message.
    Fail(String),
}

/// The error recorded for a retried status.
pub open spec fn retry_error(status: u16, url: Seq<char>) -> Seq<char> {
    (if status == 429 {
        "rate limited"@
    } else {
        "server error"@
    }) + ": HTTP "@ + decimal(status as nat) + " from "@ + url
}

/// The message for a failed status.
pub open spec fn failure_message(status: u16, url: Seq<char>, body: Seq<char>) -> Seq<char> {
    if cloudflare_spec(body) {
        "Cloudflare bot challenge blocked HTTP "@ + decimal(status as nat) + " "@ + url + cloudflare_advice()
    } else {
        "API request failed: HTTP "@ + decimal(status as nat) + " "@ + url + " \u{2014} "@
            + crate::text::take_chars(body, 300)
    }
}

pub open spec fn cloudflare_advice() -> Seq<char> {
    ". The runner's IP is not trusted by gamivoid.site's Cloudflare settings. Fix: in the Cloudflare dashboard for gamivoid.site add a WAF rule 'URI Path starts with /api/' -> Skip; Bot Fight Mode cannot be skipped on the free plan (turn it off). See README section 'Cloudflare: letting the automation through'."@
}

fn status_text(status: u16) -> (r: Vec<char>)
    ensures
        r@ == decimal(status as nat),
{
    crate::text::decimal_vec(status as u64)
}

/// Classify a response to attempt `attempt` of a request to `url`:
/// accept a 2xx, retry a 429 or 5xx (after `Retry-After` when given, else
/// the backoff, whose jitter is passed in), fail on anything else.
pub fn classify_response(
    attempt: u32,
    jitter: u64,
    status: u16,
    retry_after: Option<u64>,
    body_text: &str,
    url: &str,
) -> (r: ResponseAction)
    requires
        jitter <= 500,
    ensures
        status == 429 || status >= 500 ==> (r matches ResponseAction::Retry { delay, error }
            && error@ == retry_error(status, url@) && delay == match retry_after {
            Some(s) => RetryDelay::Seconds(s),
            None => RetryDelay::Millis(backoff_spec(attempt, jitter) as u64),
        }),
        !(status == 429 || status >= 500) && 200 <= status < 300 ==> r is Accept,
        !(status == 429 || status >= 500) && !(200 <= status < 300) ==> (r matches ResponseAction::Fail(
            m,
        ) && m@ == failure_message(status, url@, body_text@)),
{
    if status == 429 || status >= 500 {
        let delay = match retry_after {
            Some(s) => RetryDelay::Seconds(s),
            None => RetryDelay::Millis(backoff_delay_with(attempt, jitter)),
        };
        let mut e = if status == 429 {
            chars_of("rate limited")
        } else {
            chars_of("server error")
        };
        push_str_vec(&mut e, ": HTTP ");
        push_vec(&mut e, &status_text(status));
        push_str_vec(&mut e, " from ");
        push_str_vec(&mut e, url);
        return ResponseAction::Retry { delay, error: string_of(&e) };
    }
    if 200 <= status && status < 300 {
        return ResponseAction::Accept;
    }
    if is_cloudflare_challenge(body_text) {
        let mut m = chars_of("Cloudflare bot challenge blocked HTTP ");
        push_vec(&mut m, &status_text(status));
        push_str_vec(&mut m, " ");
        push_str_vec(&mut m, url);
        push_str_vec(
            &mut m,
            ". The runner's IP is not trusted by gamivoid.site's Cloudflare settings. Fix: in the Cloudflare dashboard for gamivoid.site add a WAF rule 'URI Path starts with /api/' -> Skip; Bot Fight Mode cannot be skipped on the free plan (turn it off). See README section 'Cloudflare: letting the automation through'.",
        );
        return ResponseAction::Fail(string_of(&m));
    }
    let mut m = chars_of("API request failed: HTTP ");
    push_vec(&mut m, &status_text(status));
    push_str_vec(&mut m, " ");
    push_str_vec(&mut m, url);
    push_str_vec(&mut m, " \u{2014} ");
    push_vec(&mut m, &crate::text::take_chars_vec(&chars_of(body_text), 300));
    ResponseAction::Fail(string_of(&m))
}

/// The error after every attempt failed: the last recorded error, else a
/// note of how many attempts were made.
pub open spec fn final_error_spec(last: Option<Seq<char>>, max_retries: u32) -> Seq<char> {
    "request failed: "@ + match last {
        Some(e) => e,
        None => "request failed after "@ + decimal(max_retries as nat) + " attempts"@,
    }
}

pub fn final_error(last: &Option<String>, max_retries: u32) -> (r: String)
    ensures
        r@ == final_error_spec(last.deep_view(), max_retries),
{
    let mut m = chars_of("request failed: ");
    match last {
        Some(e) => push_str_vec(&mut m, e.as_str()),
        None => {
            push_str_vec(&mut m, "request failed after ");
            push_vec(&mut m, &crate::text::decimal_vec(max_retries as u64));
            push_str_vec(&mut m, " attempts");
        },
    }
    string_of(&m)
}

/// The text of the URL `url::Url::parse` reads from this text; `None`
/// when it rejects it.
pub uninterp spec fn parsed_url(text: Seq<char>) -> Option<Seq<char>>;

/// The text of the URL `path` resolves to against the URL parsed from
/// `base` (`Url::parse`, then `Url::join`); `None` when either fails.
pub uninterp spec fn joined_url(base: Seq<char>, path: Seq<char>) -> Option<Seq<char>>;

/// `url::Url::parse`, serialized; the result is named, not described.
#[verifier::external_body]
fn parse_url(text: &str) -> (r: Option<String>)
    ensures
        r.deep_view() == parsed_url(text@),
{
    match url::Url::parse(text) {
        Ok(u) => Some(u.to_string()),
        Err(_) => None,
    }
}

/// `url::Url::parse` of the base, then `Url::join` of the path, serialized;
/// the result is named, not described.
#[verifier::external_body]
fn join_url_text(base: &str, path: &str) -> (r: Option<String>)
    ensures
        r.deep_view() == joined_url(base@, path@),
{
    match url::Url::parse(base) {
        Ok(b) => match b.join(path) {
            Ok(u) => Some(u.to_string()),
            Err(_) => None,
        },
        Err(_) => None,
    }
}

/// The API base a client is made with: the configured URL as parsed;
/// `None` when it is not a URL (the client cannot be made).
pub fn api_base_url(text: &str) -> (r: Option<String>)
    ensures
        r.deep_view() == parsed_url(text@),
{
    parse_url(text)
}

/// The URL of an API request: the path resolved against the base.
pub fn api_request_url(base: &str, path: &str) -> (r: Option<String>)
    ensures
        r.deep_view() == joined_url(base@, path@),
{
    join_url_text(base, path)
}

/// What one attempt of a request came to.
pub enum AttemptOutcome {
    /// No response: the request could not be sent or answered.
    Transport(String),
    /// A response, classified.
    Answered(ResponseAction),
}

/// What the request loop does after an attempt.
pub enum NextStep {
    /// The response is accepted: parse its body.
    Accept,
    /// Fail at once with this message.
    Fail(String),
    /// Wait (the server's or the backoff delay, when one is given), then
    /// make attempt `next_attempt`.
    Retry { wait: Option<RetryDelay>, next_attempt: u32 },
    /// No attempt is left: wait as for a retry, then fail with this message.
    GiveUp { wait: Option<RetryDelay>, message: String },
}

/// The decision after attempt `attempt` of `max_retries`: a 2xx is
/// accepted and a failed status fails at once; a transport error or a
/// retried status (429, 5xx) leads to the next attempt, or, after the last
/// one, to the final error built from that attempt's error.
pub fn next_step(attempt: u32, max_retries: u32, outcome: AttemptOutcome) -> (r: NextStep)
    requires
        1 <= attempt <= max_retries,
    ensures
        match outcome {
            AttemptOutcome::Answered(ResponseAction::Accept) => r is Accept,
            AttemptOutcome::Answered(ResponseAction::Fail(m)) => r matches NextStep::Fail(x) && x@ == m@,
            AttemptOutcome::Answered(ResponseAction::Retry { delay, error }) => if attempt < max_retries {
                r matches NextStep::Retry { wait, next_attempt } && wait == Some(delay) && next_attempt
                    == attempt + 1
            } else {
                r matches NextStep::GiveUp { wait, message } && wait == Some(delay) && message@
                    == final_error_spec(Some(error@), max_retries)
            },
            AttemptOutcome::Transport(e) => if attempt < max_retries {
                r matches NextStep::Retry { wait, next_attempt } && wait is None && next_attempt == attempt
                    + 1
            } else {
                r matches NextStep::GiveUp { wait, message } && wait is None && message@
                    == final_error_spec(Some(e@), max_retries)
            },
        },
{
    match outcome {
        AttemptOutcome::Answered(ResponseAction::Accept) => NextStep::Accept,
        AttemptOutcome::Answered(ResponseAction::Fail(m)) => NextStep::Fail(m),
        AttemptOutcome::Answered(ResponseAction::Retry { delay, error }) => {
            if attempt < max_retries {
                NextStep::Retry { wait: Some(delay), next_attempt: attempt + 1 }
            } else {
                NextStep::GiveUp { wait: Some(delay), message: final_error(&Some(error), max_retries) }
            }
        },
        AttemptOutcome::Transport(e) => {
            if attempt < max_retries {
                NextStep::Retry { wait: None, next_attempt: attempt + 1 }
            } else {
                NextStep::GiveUp { wait: None, message: final_error(&Some(e), max_retries) }
            }
        },
    }
}

/// Whether another page of owner listings should be fetched after one with
/// `got` entries (only a full page of 100 means more may follow).
pub fn more_admin_pages(got: usize) -> (r: bool)
    ensures
        r == (got >= 100),
{
    got >= 100
}

} // verus!
