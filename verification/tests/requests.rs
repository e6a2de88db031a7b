use wowctl::error::WowctlError;
use wowctl::sources::{
    breaker_update, check_download, classify_status, failure_error, initial_retry_state, retry_step, start_attempt,
    unauthorized_error, AttemptOutcome, BreakerUpdate, FailureKind, RetryAction, RetryState, SourceKind,
    INITIAL_BACKOFF_MS, MAX_RETRIES,
};

#[test]
fn statuses_are_classified() {
    assert_eq!(classify_status(SourceKind::CurseForge, 200, None), AttemptOutcome::Success);
    assert_eq!(classify_status(SourceKind::Wago, 204, None), AttemptOutcome::Success);
    assert_eq!(classify_status(SourceKind::Wago, 401, None), AttemptOutcome::Unauthorized);
    assert_eq!(classify_status(SourceKind::CurseForge, 401, None), AttemptOutcome::OtherStatus);
    assert_eq!(classify_status(SourceKind::CurseForge, 404, None), AttemptOutcome::NotFound);
    assert_eq!(
        classify_status(SourceKind::CurseForge, 429, Some(5000)),
        AttemptOutcome::RateLimited { retry_after_ms: Some(5000) }
    );
    assert_eq!(classify_status(SourceKind::Wago, 500, None), AttemptOutcome::OtherStatus);
}

/// Runs attempts that all end with `outcome` until the machine stops,
/// collecting the waits.
fn run_until_stop(kind: SourceKind, outcome: AttemptOutcome) -> (Vec<u64>, RetryAction, u32) {
    let mut st = initial_retry_state();
    let mut waits = Vec::new();
    loop {
        st = start_attempt(st);
        let (next, action) = retry_step(kind, st, outcome);
        st = next;
        match action {
            RetryAction::Wait { ms } => waits.push(ms),
            other => return (waits, other, st.attempts),
        }
    }
}

#[test]
fn network_errors_back_off_then_give_up() {
    let (waits, action, attempts) = run_until_stop(SourceKind::CurseForge, AttemptOutcome::NetworkError);
    assert_eq!(waits, vec![1000, 2000]);
    assert_eq!(action, RetryAction::Fail(FailureKind::Network));
    assert_eq!(attempts, MAX_RETRIES);
}

#[test]
fn curseforge_honours_retry_after() {
    let (waits, action, _) =
        run_until_stop(SourceKind::CurseForge, AttemptOutcome::RateLimited { retry_after_ms: Some(7000) });
    assert_eq!(waits, vec![7000, 7000]);
    assert_eq!(action, RetryAction::Fail(FailureKind::RateLimited));
}

#[test]
fn wago_ignores_retry_after_and_backs_off() {
    let (waits, action, _) =
        run_until_stop(SourceKind::Wago, AttemptOutcome::RateLimited { retry_after_ms: Some(7000) });
    assert_eq!(waits, vec![1000, 2000]);
    assert_eq!(action, RetryAction::Fail(FailureKind::RateLimited));
}

#[test]
fn final_outcomes_stop_at_once() {
    let st = start_attempt(initial_retry_state());
    assert_eq!(st, RetryState { attempts: 1, backoff_ms: INITIAL_BACKOFF_MS });
    assert_eq!(retry_step(SourceKind::Wago, st, AttemptOutcome::Success).1, RetryAction::Accept);
    assert_eq!(
        retry_step(SourceKind::Wago, st, AttemptOutcome::Unauthorized).1,
        RetryAction::Fail(FailureKind::Unauthorized)
    );
    assert_eq!(
        retry_step(SourceKind::CurseForge, st, AttemptOutcome::NotFound).1,
        RetryAction::Fail(FailureKind::NotFound)
    );
    assert_eq!(
        retry_step(SourceKind::CurseForge, st, AttemptOutcome::OtherStatus).1,
        RetryAction::Fail(FailureKind::Status)
    );
}

#[test]
fn failure_errors_carry_their_messages() {
    let e = failure_error(SourceKind::CurseForge, FailureKind::NotFound, false, "404 Not Found", "");
    assert!(matches!(&e, WowctlError::AddonNotFound(m) if m == "Addon not found on CurseForge"));
    let e = failure_error(SourceKind::CurseForge, FailureKind::NotFound, true, "404 Not Found", "");
    assert!(matches!(&e, WowctlError::AddonNotFound(m) if m == "Resource not found on CurseForge"));
    let e = failure_error(SourceKind::Wago, FailureKind::NotFound, false, "404 Not Found", "");
    assert!(matches!(&e, WowctlError::AddonNotFound(m) if m == "Addon not found on Wago"));
    let e = failure_error(SourceKind::Wago, FailureKind::RateLimited, false, "429", "");
    assert!(matches!(&e, WowctlError::Network(m) if m == "Rate limited by Wago API after multiple retries"));
    let e = failure_error(SourceKind::CurseForge, FailureKind::Status, false, "500 Internal Server Error", "boom");
    assert!(matches!(&e, WowctlError::Source(m) if m == "CurseForge API error (500 Internal Server Error): boom"));
    let e = failure_error(SourceKind::Wago, FailureKind::Network, false, "", "timed out");
    assert!(matches!(&e, WowctlError::Network(m) if m == "Failed to connect to Wago API after 3 attempts: timed out"));
    let e = failure_error(SourceKind::Wago, FailureKind::Unauthorized, false, "401", "");
    assert!(matches!(&e, WowctlError::Unauthorized(_)));
    assert!(unauthorized_error().message().contains("HTTP 401"));
}

#[test]
fn breaker_counts_what_says_something_of_the_api() {
    let ok: Result<u32, WowctlError> = Ok(1);
    assert_eq!(breaker_update(SourceKind::CurseForge, &ok), BreakerUpdate::Success);
    let nf: Result<u32, WowctlError> = Err(WowctlError::AddonNotFound("x".to_string()));
    assert_eq!(breaker_update(SourceKind::CurseForge, &nf), BreakerUpdate::Skip);
    let open: Result<u32, WowctlError> = Err(WowctlError::CircuitBreakerOpen);
    assert_eq!(breaker_update(SourceKind::Wago, &open), BreakerUpdate::Skip);
    let unauth: Result<u32, WowctlError> = Err(WowctlError::Unauthorized("k".to_string()));
    assert_eq!(breaker_update(SourceKind::Wago, &unauth), BreakerUpdate::Skip);
    assert_eq!(breaker_update(SourceKind::CurseForge, &unauth), BreakerUpdate::Failure);
    let net: Result<u32, WowctlError> = Err(WowctlError::Network("down".to_string()));
    assert_eq!(breaker_update(SourceKind::Wago, &net), BreakerUpdate::Failure);
}

#[test]
fn download_check_accepts_zip() {
    let body = [0x50u8, 0x4b, 0x03, 0x04, 0x00, 0x01];
    assert!(check_download(true, "200 OK", "application/zip", &body, "https://x/a.zip").is_ok());
}

#[test]
fn download_check_rejects_bad_status() {
    let e = check_download(false, "503 Service Unavailable", "", &[], "u").unwrap_err();
    assert!(matches!(&e, WowctlError::Network(m) if m == "Download failed with status: 503 Service Unavailable"));
}

#[test]
fn download_check_rejects_html_page() {
    let e = check_download(true, "200 OK", "text/html; charset=utf-8", b"<html>", "https://x/a.zip").unwrap_err();
    assert!(matches!(&e, WowctlError::Network(m)
        if m == "CDN returned text/html; charset=utf-8 instead of a zip file — the download URL may be invalid: https://x/a.zip"));
}

#[test]
fn download_check_rejects_bad_magic() {
    let e = check_download(true, "200 OK", "application/octet-stream", b"<!DOCTYPE", "https://x/a.zip").unwrap_err();
    assert!(matches!(&e, WowctlError::Extraction(m)
        if m == "Downloaded file is not a valid zip archive (bad magic bytes). Got 9 bytes, first 4: [3c, 21, 44, 4f]. The CDN may have returned an error page. URL: https://x/a.zip"));
    let e = check_download(true, "200 OK", "application/zip", &[0x0a], "u").unwrap_err();
    assert!(matches!(&e, WowctlError::Extraction(m) if m.contains("Got 1 bytes, first 4: [0a].")));
}
