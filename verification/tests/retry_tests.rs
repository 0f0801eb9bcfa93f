use awful_text_news::api::{ask_with_backoff, backoff_delay, AskAsync, RetryAsk};

struct AlwaysFails {
    calls: usize,
    pauses: Vec<u64>,
}

impl AskAsync for AlwaysFails {
    fn ask(&mut self, _text: &str) -> Result<String, String> {
        self.calls += 1;
        Err("boom".to_string())
    }

    fn pause(&mut self, delay_ms: u64) {
        self.pauses.push(delay_ms);
    }
}

struct SucceedsAfter {
    failures_left: usize,
    calls: usize,
}

impl AskAsync for SucceedsAfter {
    fn ask(&mut self, text: &str) -> Result<String, String> {
        self.calls += 1;
        if self.failures_left == 0 {
            Ok(format!("answer to {}", text))
        } else {
            self.failures_left -= 1;
            Err("transient".to_string())
        }
    }

    fn pause(&mut self, _delay_ms: u64) {}
}

#[test]
fn test_backoff_schedule_doubles_and_caps() {
    assert_eq!(backoff_delay(1000, 30000, 1), 1000);
    assert_eq!(backoff_delay(1000, 30000, 2), 2000);
    assert_eq!(backoff_delay(1000, 30000, 3), 4000);
    assert_eq!(backoff_delay(1000, 30000, 4), 8000);
    assert_eq!(backoff_delay(1000, 30000, 5), 16000);
    assert_eq!(backoff_delay(1000, 30000, 6), 30000);
    assert_eq!(backoff_delay(1000, 30000, 64), 30000);
}

#[test]
fn test_backoff_is_monotone_and_capped() {
    let mut prev: u64 = 0;
    let mut attempt: u64 = 1;
    while attempt <= 12 {
        let d = backoff_delay(1000, 30000, attempt);
        assert!(d >= prev);
        assert!(d <= 30000);
        prev = d;
        attempt += 1;
    }
}

#[test]
fn test_retry_exhaustion_makes_max_plus_one_calls() {
    let cap = AlwaysFails { calls: 0, pauses: vec![] };
    let mut client = RetryAsk::new(cap, 5, 1000);
    let r = client.ask("payload");
    assert_eq!(r, Err("boom".to_string()));
    assert_eq!(client.inner.calls, 6);
    assert_eq!(client.inner.pauses.len(), 5);
}

#[test]
fn test_retry_pauses_follow_backoff_with_bounded_jitter() {
    let cap = AlwaysFails { calls: 0, pauses: vec![] };
    let mut client = RetryAsk::new(cap, 5, 1000);
    let _ = client.ask("payload");
    let bases = [1000u64, 2000, 4000, 8000, 16000];
    assert_eq!(client.inner.pauses.len(), 5);
    for (i, p) in client.inner.pauses.iter().enumerate() {
        assert!(*p >= bases[i]);
        assert!(*p <= bases[i] + 250);
    }
}

#[test]
fn test_retry_succeeds_midway() {
    let cap = SucceedsAfter { failures_left: 2, calls: 0 };
    let mut client = RetryAsk::new(cap, 5, 0);
    let r = client.ask("q");
    assert_eq!(r, Ok("answer to q".to_string()));
    assert_eq!(client.inner.calls, 3);
}

#[test]
fn test_ask_with_backoff_default_policy() {
    let cap = SucceedsAfter { failures_left: 0, calls: 0 };
    let (r, client) = ask_with_backoff(cap, "text");
    assert_eq!(r, Ok("answer to text".to_string()));
    assert_eq!(client.inner.calls, 1);
    assert_eq!(client.max_retries, 5);
    assert_eq!(client.base_delay_ms, 1000);
    assert_eq!(client.max_delay_ms, 30000);

    let failing = AlwaysFails { calls: 0, pauses: vec![] };
    let (r2, client2) = ask_with_backoff(failing, "text");
    assert!(r2.is_err());
    assert_eq!(client2.inner.calls, 6);
}
