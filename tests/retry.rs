use jp2tw_captioner::retry::{is_transient_status, Backoff, RetryDecision, MAX_ATTEMPTS};

#[test]
fn transient_statuses() {
    for s in [429u16, 500, 502, 503, 504, 599] {
        assert!(is_transient_status(s), "{}", s);
    }
    for s in [200u16, 400, 401, 403, 404, 428, 430, 499, 600] {
        assert!(!is_transient_status(s), "{}", s);
    }
}

#[test]
fn backoff_doubles_then_gives_up() {
    let mut b = Backoff::new();
    let mut delays = Vec::new();
    loop {
        match b.on_failure(true) {
            RetryDecision::Retry { delay_ms } => delays.push(delay_ms),
            RetryDecision::GiveUp => break,
        }
    }
    assert_eq!(delays, vec![2000, 4000, 8000, 16000]);
    assert_eq!(b.failures(), MAX_ATTEMPTS);
    assert_eq!(MAX_ATTEMPTS, 5);
}

#[test]
fn terminal_failure_gives_up_at_once() {
    let mut b = Backoff::new();
    assert_eq!(b.on_failure(false), RetryDecision::GiveUp);
    assert_eq!(b.failures(), 0);
    let mut c = Backoff::new();
    assert_eq!(c.on_failure(true), RetryDecision::Retry { delay_ms: 2000 });
    assert_eq!(c.on_failure(false), RetryDecision::GiveUp);
    assert_eq!(c.failures(), 1);
}
