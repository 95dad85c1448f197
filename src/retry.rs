//! Decisions of the retry-with-backoff engine. The caller performs each
//! attempt and each sleep; this module says what comes next.

use vstd::prelude::*;
use vstd::arithmetic::power::{pow, lemma_pow_positive};
use vstd::arithmetic::div_mod::{lemma_div_is_ordered, lemma_div_denominator, lemma_div_by_multiple, lemma_div_pos_is_pos};
use crate::decimal::{digits_of, digits_ok, digits_value, quotient_capped, times};

verus! {

/// Retry settings. The backoff multiplier is given in thousandths
/// (2000 for a factor of 2.0).
#[derive(Clone, Copy, Debug)]
pub struct RetryConfig {
    pub max_attempts: u32,
    pub initial_backoff_ms: u64,
    pub max_backoff_ms: u64,
    pub backoff_multiplier_milli: u64,
}

/// What the engine does after an attempt.
#[derive(Clone, Copy, Debug, PartialEq, Eq, Structural)]
pub enum RetryDecision {
    /// The attempt succeeded: hand its result back.
    Finish,
    /// Sleep this many milliseconds, then attempt again.
    Backoff(u64),
    /// The attempts are used up: hand the last error back.
    GiveUp,
}

pub open spec fn min_u64(a: int, b: u64) -> u64 {
    if a <= b {
        a as u64
    } else {
        b
    }
}

/// The initial backoff times the multiplier to the power `n`, in whole
/// milliseconds: `initial * m^n / 1000^n` with the multiplier `m` in
/// thousandths, rounded down once.
pub open spec fn grown_backoff(cfg: RetryConfig, n: nat) -> int {
    (cfg.initial_backoff_ms * pow(cfg.backoff_multiplier_milli as int, n)) / pow(1000, n)
}

/// The backoff after attempt `n` (counting from zero): the initial backoff
/// times the multiplier to the power `n`, never above the maximum.
pub open spec fn backoff_ms(cfg: RetryConfig, n: nat) -> u64 {
    min_u64(grown_backoff(cfg, n), cfg.max_backoff_ms)
}

/// The decision after attempt `attempt` (counting from zero).
pub open spec fn decision(cfg: RetryConfig, attempt: nat, succeeded: bool) -> RetryDecision {
    if succeeded {
        RetryDecision::Finish
    } else if attempt + 1 < cfg.max_attempts {
        RetryDecision::Backoff(backoff_ms(cfg, attempt))
    } else {
        RetryDecision::GiveUp
    }
}

/// How many times the operation runs from attempt `attempt` on, when its
/// outcomes are `outcomes` in turn (true for a success).
pub open spec fn invocations(cfg: RetryConfig, outcomes: Seq<bool>, attempt: nat) -> nat
    decreases outcomes.len(),
{
    if outcomes.len() == 0 {
        0
    } else {
        match decision(cfg, attempt, outcomes[0]) {
            RetryDecision::Backoff(_) => 1 + invocations(cfg, outcomes.drop_first(), attempt + 1),
            _ => 1,
        }
    }
}

impl RetryConfig {
    /// Well-formed settings: at least one attempt, a multiplier of at
    /// least 1.0.
    pub open spec fn wf(&self) -> bool {
        self.max_attempts >= 1 && self.backoff_multiplier_milli >= 1000
    }

    /// Three attempts, 100 ms first backoff, 5 s ceiling, factor 2.0.
    pub fn default_config() -> (r: RetryConfig)
        ensures
            r.wf(),
            r.max_attempts == 3,
            r.initial_backoff_ms == 100,
            r.max_backoff_ms == 5000,
            r.backoff_multiplier_milli == 2000,
    {
        RetryConfig { max_attempts: 3, initial_backoff_ms: 100, max_backoff_ms: 5000, backoff_multiplier_milli: 2000 }
    }

    /// The sleep, in ms, between attempt `attempt` and the next.
    pub fn calculate_backoff(&self, attempt: u32) -> (r: u64)
        requires
            self.wf(),
        ensures
            r == backoff_ms(*self, attempt as nat),
    {
        let a = self.initial_backoff_ms;
        let m = self.backoff_multiplier_milli;
        let cap = self.max_backoff_ms;
        if a == 0 {
            proof {
                lemma_pow_positive(1000, attempt as nat);
                assert(a * pow(m as int, attempt as nat) == 0);
                assert(0int / pow(1000, attempt as nat) == 0);
            }
            return 0;
        }
        if m == 1000 {
            proof {
                lemma_pow_positive(1000, attempt as nat);
                lemma_div_by_multiple(a as int, pow(1000, attempt as nat));
            }
            return if a <= cap {
                a
            } else {
                cap
            };
        }
        let mut digits = digits_of(a);
        let mut k: u32 = 0;
        proof {
            reveal(pow);
            assert(pow(m as int, 0) == 1);
        }
        loop
            invariant
                self.wf(),
                a == self.initial_backoff_ms,
                m == self.backoff_multiplier_milli,
                cap == self.max_backoff_ms,
                k <= attempt,
                digits_ok(digits@),
                digits_value(digits@) == a * pow(m as int, k as nat),
            decreases attempt - k,
        {
            while digits.len() <= k as usize
                invariant
                    digits_ok(digits@),
                    digits_value(digits@) == a * pow(m as int, k as nat),
                decreases k as usize + 1 - digits.len(),
            {
                proof {
                    crate::decimal::lemma_push_zero(digits@);
                }
                digits.push(0);
            }
            let cur = quotient_capped(&digits, k as usize, cap);
            if k == attempt {
                return cur;
            }
            if cur == cap {
                proof {
                    lemma_grown_monotonic(*self, k as nat, attempt as nat);
                }
                return cap;
            }
            proof {
                reveal(pow);
                assert(pow(m as int, (k + 1) as nat) == m * pow(m as int, k as nat));
                assert(a * pow(m as int, (k + 1) as nat) == (a * pow(m as int, k as nat)) * m) by (nonlinear_arith)
                    requires pow(m as int, (k + 1) as nat) == m * pow(m as int, k as nat);
            }
            digits = times(&digits, m);
            k = k + 1;
        }
    }

    /// What to do after attempt `attempt` (counting from zero) ended as
    /// `succeeded` says.
    pub fn next_step(&self, attempt: u32, succeeded: bool) -> (r: RetryDecision)
        requires
            self.wf(),
        ensures
            r == decision(*self, attempt as nat, succeeded),
    {
        if succeeded {
            RetryDecision::Finish
        } else if (attempt as u64) + 1 < self.max_attempts as u64 {
            RetryDecision::Backoff(self.calculate_backoff(attempt))
        } else {
            RetryDecision::GiveUp
        }
    }
}

proof fn lemma_grown_step(cfg: RetryConfig, n: nat)
    requires
        cfg.wf(),
    ensures
        0 <= grown_backoff(cfg, n) <= grown_backoff(cfg, n + 1),
{
    let m = cfg.backoff_multiplier_milli as int;
    reveal(pow);
    lemma_pow_positive(m, n);
    lemma_pow_positive(1000, n);
    let x = cfg.initial_backoff_ms * pow(m, n);
    let d = pow(1000, n);
    assert(pow(m, n + 1) == m * pow(m, n));
    assert(pow(1000, n + 1) == 1000 * pow(1000, n));
    assert(cfg.initial_backoff_ms * pow(m, n + 1) == x * m) by (nonlinear_arith)
        requires pow(m, n + 1) == m * pow(m, n), x == cfg.initial_backoff_ms * pow(m, n);
    assert(x >= 0) by (nonlinear_arith)
        requires x == cfg.initial_backoff_ms * pow(m, n), pow(m, n) > 0;
    assert(x * 1000 <= x * m) by (nonlinear_arith)
        requires x >= 0, m >= 1000;
    lemma_div_is_ordered(x * 1000, x * m, 1000 * d);
    lemma_div_denominator(x * 1000, 1000, d);
    lemma_div_by_multiple(x, 1000);
    lemma_div_pos_is_pos(x, d);
}

proof fn lemma_grown_monotonic(cfg: RetryConfig, k: nat, n: nat)
    requires
        cfg.wf(),
        k <= n,
    ensures
        grown_backoff(cfg, k) <= grown_backoff(cfg, n),
    decreases n - k,
{
    if k < n {
        lemma_grown_monotonic(cfg, k, (n - 1) as nat);
        lemma_grown_step(cfg, (n - 1) as nat);
    }
}

/// The backoff never shrinks from one attempt to the next and never
/// exceeds the configured maximum.
pub proof fn lemma_backoff_monotonic(cfg: RetryConfig, n: nat)
    requires
        cfg.wf(),
    ensures
        backoff_ms(cfg, n) <= backoff_ms(cfg, n + 1),
        backoff_ms(cfg, n) <= cfg.max_backoff_ms,
{
    lemma_grown_step(cfg, n);
}

/// However the attempts turn out, the operation runs at most
/// `max_attempts` times.
pub proof fn lemma_retry_bound(cfg: RetryConfig, outcomes: Seq<bool>)
    requires
        cfg.wf(),
    ensures
        invocations(cfg, outcomes, 0) <= cfg.max_attempts,
{
    lemma_invocations_bound(cfg, outcomes, 0);
}

proof fn lemma_invocations_bound(cfg: RetryConfig, outcomes: Seq<bool>, attempt: nat)
    requires
        attempt < cfg.max_attempts,
    ensures
        invocations(cfg, outcomes, attempt) <= cfg.max_attempts - attempt,
    decreases outcomes.len(),
{
    if outcomes.len() > 0 {
        if decision(cfg, attempt, outcomes[0]) is Backoff {
            lemma_invocations_bound(cfg, outcomes.drop_first(), attempt + 1);
        }
    }
}

} // verus!
