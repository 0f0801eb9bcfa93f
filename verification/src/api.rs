//! Retry with exponential backoff around an unreliable request/response
//! capability.
//!
//! [`AskAsync`] abstracts anything that can be asked for a text answer and
//! can pause between attempts; [`RetryAsk`] decorates such a capability
//! with a bounded retry policy: the delay before retry `n` is
//! `min(base * 2^(n-1), max)` plus a small random jitter.

use vstd::prelude::*;

verus! {

/// A request/response capability: send text, receive text or fail with a
/// message.  `pause` performs the suspension that the retry policy requests
/// between attempts; the implementor owns the actual waiting.
pub trait AskAsync {
    fn ask(&mut self, text: &str) -> Result<String, String>;

    fn pause(&mut self, delay_ms: u64);
}

pub open spec fn pow2(k: nat) -> nat
    decreases k,
{
    if k == 0 {
        1
    } else {
        2 * pow2((k - 1) as nat)
    }
}

/// The pre-jitter backoff delay before retry number `attempt` (1-based):
/// the base delay doubled per attempt, capped at `max`.
pub open spec fn backoff_delay_spec(base: nat, max: nat, attempt: nat) -> nat
    recommends
        attempt >= 1,
{
    let raw = base * pow2((attempt - 1) as nat);
    if raw > max {
        max
    } else {
        raw
    }
}

pub proof fn lemma_pow2_mono(a: nat, b: nat)
    requires
        a <= b,
    ensures
        pow2(a) <= pow2(b),
    decreases b,
{
    if a < b {
        lemma_pow2_mono(a, (b - 1) as nat);
    }
}

/// Once the uncapped delay has reached the cap, every later attempt's delay
/// is exactly the cap.
pub proof fn lemma_backoff_capped(base: nat, max: nat, k1: nat, k2: nat)
    requires
        1 <= k1 <= k2,
        base * pow2((k1 - 1) as nat) >= max,
    ensures
        backoff_delay_spec(base, max, k2) == max,
{
    lemma_pow2_mono((k1 - 1) as nat, (k2 - 1) as nat);
    assert(base * pow2((k2 - 1) as nat) >= base * pow2((k1 - 1) as nat)) by (nonlinear_arith)
        requires
            pow2((k2 - 1) as nat) >= pow2((k1 - 1) as nat),
    ;
}

/// Backoff monotonicity: for growing attempt numbers the pre-jitter delay
/// never decreases, and it never exceeds the cap.
pub proof fn lemma_backoff_monotone(base: nat, max: nat, a1: nat, a2: nat)
    requires
        1 <= a1 <= a2,
    ensures
        backoff_delay_spec(base, max, a1) <= backoff_delay_spec(base, max, a2),
        backoff_delay_spec(base, max, a1) <= max,
{
    lemma_pow2_mono((a1 - 1) as nat, (a2 - 1) as nat);
    assert(base * pow2((a2 - 1) as nat) >= base * pow2((a1 - 1) as nat)) by (nonlinear_arith)
        requires
            pow2((a2 - 1) as nat) >= pow2((a1 - 1) as nat),
    ;
}

/// Compute the pre-jitter backoff delay for the given retry attempt.
pub fn backoff_delay(base: u64, max: u64, attempt: u64) -> (d: u64)
    requires
        1 <= attempt,
    ensures
        d as nat == backoff_delay_spec(base as nat, max as nat, attempt as nat),
{
    let mut d: u64 = if base > max {
        max
    } else {
        base
    };
    let mut k: u64 = 1;
    proof {
        assert(pow2(0) == 1);
        assert((base as nat) * pow2(0) == base as nat) by (nonlinear_arith)
            requires
                pow2(0) == 1,
        ;
    }
    while k < attempt
        invariant
            1 <= k <= attempt,
            d as nat == backoff_delay_spec(base as nat, max as nat, k as nat),
            d < max ==> d as nat == (base as nat) * pow2((k - 1) as nat),
            d == max ==> (base as nat) * pow2((k - 1) as nat) >= max as nat,
        decreases attempt - k,
    {
        proof {
            assert(pow2(k as nat) == 2 * pow2((k - 1) as nat));
        }
        if d >= max {
            proof {
                lemma_backoff_capped(base as nat, max as nat, k as nat, attempt as nat);
                lemma_backoff_capped(base as nat, max as nat, k as nat, k as nat);
            }
            d = max;
            k = attempt;
        } else {
            let nd = if d > max / 2 {
                max
            } else {
                2 * d
            };
            proof {
                assert((base as nat) * pow2(k as nat) == 2 * ((base as nat) * pow2(
                    (k - 1) as nat,
                ))) by (nonlinear_arith)
                    requires
                        pow2(k as nat) == 2 * pow2((k - 1) as nat),
                ;
            }
            d = nd;
            k = k + 1;
        }
    }
    d
}

/// How many calls a retry loop makes against a capability whose successive
/// call outcomes are `outcomes` (`true` is success), when the loop gives up
/// after `max_retries` failed retries.  This is the call pattern of
/// [`RetryAsk::ask`], whose `k`-th call succeeds iff `outcomes[k]`.
pub open spec fn retry_calls_spec(outcomes: Seq<bool>, max_retries: nat) -> nat
    decreases outcomes.len(),
{
    if outcomes.len() == 0 {
        0
    } else if outcomes[0] {
        1
    } else if max_retries == 0 {
        1
    } else {
        1 + retry_calls_spec(outcomes.drop_first(), (max_retries - 1) as nat)
    }
}

/// Retry exhaustion: against a capability that always fails, the retry loop
/// makes exactly `max_retries + 1` calls before giving up.
pub proof fn lemma_retry_exhaustion(outcomes: Seq<bool>, max_retries: nat)
    requires
        outcomes.len() > max_retries,
        forall|i: int| 0 <= i < outcomes.len() ==> !outcomes[i],
    ensures
        retry_calls_spec(outcomes, max_retries) == max_retries + 1,
    decreases max_retries,
{
    if max_retries > 0 {
        lemma_retry_exhaustion(outcomes.drop_first(), (max_retries - 1) as nat);
    }
}

/// A capability that is asked once per attempt, with a bounded number of
/// retries and exponential backoff between them.
pub struct RetryAsk<T> {
    pub inner: T,
    pub max_retries: u64,
    pub base_delay_ms: u64,
    pub max_delay_ms: u64,
}

/// Relies on rand's random_range: a draw from `0..=250` lies in that range.
#[verifier::external_body]
fn jitter_ms() -> (r: u64)
    ensures
        r <= 250,
{
    rand::random_range(0u64..=250u64)
}

impl<T: AskAsync> RetryAsk<T> {
    /// Wrap a capability with a retry policy; the delay cap is 30 seconds.
    /// The capability is taken over unchanged and not called.
    pub fn new(inner: T, max_retries: u64, base_delay_ms: u64) -> (r: Self)
        ensures
            r.inner == inner,
            r.max_retries == max_retries,
            r.base_delay_ms == base_delay_ms,
            r.max_delay_ms == 30000,
    {
        RetryAsk { inner, max_retries, base_delay_ms, max_delay_ms: 30000 }
    }

    /// Ask the wrapped capability, retrying on failure.  The capability is
    /// called at most `max_retries + 1` times, the pattern that
    /// [`retry_calls_spec`] describes; only the last error is surfaced.
    /// Between attempts the capability pauses for the backoff delay of the
    /// coming attempt plus a jitter of at most 250 ms.
    pub fn ask(&mut self, text: &str) -> (r: Result<String, String>)
        ensures
            final(self).max_retries == old(self).max_retries,
            final(self).base_delay_ms == old(self).base_delay_ms,
            final(self).max_delay_ms == old(self).max_delay_ms,
    {
        let mut failures: u64 = 0;
        loop
            invariant
                failures <= self.max_retries,
                self.max_retries == old(self).max_retries,
                self.base_delay_ms == old(self).base_delay_ms,
                self.max_delay_ms == old(self).max_delay_ms,
            decreases self.max_retries - failures,
        {
            match self.inner.ask(text) {
                Ok(resp) => {
                    return Ok(resp);
                },
                Err(e) => {
                    if failures == self.max_retries {
                        return Err(e);
                    }
                    failures = failures + 1;
                    let delay = backoff_delay(self.base_delay_ms, self.max_delay_ms, failures);
                    let j = jitter_ms();
                    self.inner.pause(delay.saturating_add(j));
                },
            }
        }
    }
}

/// Ask with the pipeline's default policy: the capability wrapped with
/// five retries, a one-second base delay and the 30-second cap, asked once
/// through [`RetryAsk::ask`].  Returns the answer together with the
/// configured client, whose policy fields carry exactly those defaults.
pub fn ask_with_backoff<T: AskAsync>(inner: T, article: &str) -> (r: (
    Result<String, String>,
    RetryAsk<T>,
))
    ensures
        r.1.max_retries == 5,
        r.1.base_delay_ms == 1000,
        r.1.max_delay_ms == 30000,
{
    let mut client = RetryAsk::new(inner, 5, 1000);
    let res = client.ask(article);
    (res, client)
}

} // verus!
