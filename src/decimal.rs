//! Unbounded naturals as base-1000 digits, least significant first, with
//! the few operations that exact backoff growth needs.

use vstd::prelude::*;
use vstd::arithmetic::power::{pow, lemma_pow_positive, lemma_pow_adds};
use vstd::arithmetic::div_mod::lemma_fundamental_div_mod_converse;

verus! {

/// The number the digits stand for.
pub open spec fn digits_value(s: Seq<u64>) -> nat
    decreases s.len(),
{
    if s.len() == 0 {
        0
    } else {
        (s[0] + 1000 * digits_value(s.drop_first())) as nat
    }
}

/// Every digit is below 1000.
pub open spec fn digits_ok(s: Seq<u64>) -> bool {
    forall|i: int| 0 <= i < s.len() ==> #[trigger] s[i] < 1000
}

proof fn lemma_pow_step(e: nat)
    ensures
        pow(1000, e + 1) == 1000 * pow(1000, e),
        pow(1000, e) > 0,
{
    reveal(pow);
    lemma_pow_positive(1000, e);
    assert(pow(1000, e + 1) == 1000 * pow(1000, ((e + 1) - 1) as nat));
}

proof fn lemma_push(s: Seq<u64>, d: u64)
    ensures
        digits_value(s.push(d)) == digits_value(s) + d * pow(1000, s.len()),
    decreases s.len(),
{
    reveal(pow);
    if s.len() == 0 {
        assert(s.push(d).drop_first() =~= Seq::<u64>::empty());
        assert(digits_value(Seq::<u64>::empty()) == 0);
        assert(pow(1000, 0) == 1);
        assert(s.push(d)[0] == d);
    } else {
        let t = s.drop_first();
        assert(s.push(d).drop_first() =~= t.push(d));
        lemma_push(t, d);
        lemma_pow_step(t.len());
        assert(s.push(d)[0] == s[0]);
        assert(s.len() == t.len() + 1);
        assert(digits_value(s.push(d)) == s[0] + 1000 * (digits_value(t) + d * pow(1000, t.len())));
        assert(1000 * (d * pow(1000, t.len())) == d * (1000 * pow(1000, t.len()))) by (nonlinear_arith);
    }
}

proof fn lemma_split(s: Seq<u64>, k: int)
    requires
        0 <= k <= s.len(),
    ensures
        digits_value(s) == digits_value(s.subrange(0, k)) + pow(1000, k as nat) * digits_value(s.subrange(k, s.len() as int)),
    decreases k,
{
    reveal(pow);
    if k == 0 {
        assert(s.subrange(0, 0) =~= Seq::<u64>::empty());
        assert(s.subrange(0, s.len() as int) =~= s);
    } else {
        let t = s.drop_first();
        lemma_split(t, k - 1);
        assert(t.subrange(k - 1, t.len() as int) =~= s.subrange(k, s.len() as int));
        assert(s.subrange(0, k).drop_first() =~= t.subrange(0, k - 1));
        lemma_pow_step((k - 1) as nat);
        let a = digits_value(t.subrange(0, k - 1));
        let b = digits_value(s.subrange(k, s.len() as int));
        let p = pow(1000, (k - 1) as nat);
        assert(1000 * (a + p * b) == 1000 * a + (1000 * p) * b) by (nonlinear_arith);
    }
}

proof fn lemma_bound(s: Seq<u64>)
    requires
        digits_ok(s),
    ensures
        digits_value(s) < pow(1000, s.len()),
    decreases s.len(),
{
    reveal(pow);
    if s.len() > 0 {
        let t = s.drop_first();
        assert(digits_ok(t)) by {
            assert forall|i: int| 0 <= i < t.len() implies #[trigger] t[i] < 1000 by {
                assert(t[i] == s[i + 1]);
            }
        }
        lemma_bound(t);
        lemma_pow_step(t.len());
        assert(s[0] < 1000);
        assert(s[0] + 1000 * digits_value(t) < 1000 * pow(1000, t.len())) by (nonlinear_arith)
            requires s[0] < 1000, digits_value(t) < pow(1000, t.len()), digits_value(t) >= 0;
    }
}

/// A leading zero digit leaves the value unchanged.
pub proof fn lemma_push_zero(s: Seq<u64>)
    requires
        digits_ok(s),
    ensures
        digits_value(s.push(0)) == digits_value(s),
        digits_ok(s.push(0)),
{
    lemma_push(s, 0);
    assert(0 * pow(1000, s.len()) == 0);
    assert forall|i: int| 0 <= i < s.push(0).len() implies #[trigger] s.push(0)[i] < 1000 by {
        if i < s.len() {
            assert(s.push(0)[i] == s[i]);
        }
    }
}

/// The digits above the lowest `k` are the quotient by `1000^k`.
pub proof fn lemma_high_digits(s: Seq<u64>, k: int)
    requires
        digits_ok(s),
        0 <= k <= s.len(),
    ensures
        (digits_value(s) as int) / pow(1000, k as nat) == digits_value(s.subrange(k, s.len() as int)) as int,
{
    lemma_split(s, k);
    let low = s.subrange(0, k);
    assert(digits_ok(low)) by {
        assert forall|i: int| 0 <= i < low.len() implies #[trigger] low[i] < 1000 by {
            assert(low[i] == s[i]);
        }
    }
    lemma_bound(low);
    lemma_pow_positive(1000, k as nat);
    lemma_fundamental_div_mod_converse(
        digits_value(s) as int,
        pow(1000, k as nat),
        digits_value(s.subrange(k, s.len() as int)) as int,
        digits_value(low) as int,
    );
}

/// The digits of `a`.
pub fn digits_of(a: u64) -> (r: Vec<u64>)
    ensures
        digits_value(r@) == a,
        digits_ok(r@),
{
    let mut r: Vec<u64> = Vec::new();
    let mut rest: u64 = a;
    proof {
        reveal(pow);
    }
    while rest > 0
        invariant
            digits_value(r@) + pow(1000, r@.len()) * rest == a,
            digits_ok(r@),
        decreases rest,
    {
        let d = rest % 1000;
        proof {
            lemma_push(r@, d);
            lemma_pow_step(r@.len());
            let p = pow(1000, r@.len());
            assert(p * rest == d * p + (1000 * p) * (rest / 1000)) by (nonlinear_arith)
                requires d == rest % 1000, rest >= 0;
        }
        r.push(d);
        rest = rest / 1000;
    }
    r
}

/// The digits of `s`'s value times `m`.
pub fn times(s: &Vec<u64>, m: u64) -> (r: Vec<u64>)
    requires
        digits_ok(s@),
    ensures
        digits_value(r@) == digits_value(s@) * m,
        digits_ok(r@),
{
    let mut r: Vec<u64> = Vec::new();
    let mut carry: u128 = 0;
    let mut i: usize = 0;
    proof {
        reveal(pow);
        assert(s@.subrange(0, s@.len() as int) =~= s@);
    }
    while i < s.len()
        invariant
            i <= s@.len(),
            r@.len() == i,
            digits_ok(s@),
            digits_ok(r@),
            carry <= m,
            digits_value(r@) + pow(1000, i as nat) * (carry + m * digits_value(s@.subrange(i as int, s@.len() as int)))
                == digits_value(s@) * m,
        decreases s@.len() - i,
    {
        let ghost tail = s@.subrange(i as int, s@.len() as int);
        let ghost rest = s@.subrange(i + 1, s@.len() as int);
        proof {
            assert(tail.drop_first() =~= rest);
            assert(digits_value(tail) == s@[i as int] + 1000 * digits_value(rest));
            assert(s[i as int] < 1000);
            assert((s[i as int] as u128) * (m as u128) <= 999 * 0xFFFF_FFFF_FFFF_FFFFu128) by (nonlinear_arith)
                requires s[i as int] < 1000, m <= 0xFFFF_FFFF_FFFF_FFFFu64;
        }
        let t: u128 = (s[i] as u128) * (m as u128) + carry;
        let d = (t % 1000) as u64;
        let c2 = t / 1000;
        proof {
            lemma_push(r@, d);
            lemma_pow_step(i as nat);
            let p = pow(1000, i as nat);
            let v = digits_value(rest);
            assert(c2 <= m) by (nonlinear_arith)
                requires c2 == t / 1000, t == s[i as int] * m + carry, s[i as int] < 1000, carry <= m;
            assert(d * p + (1000 * p) * (c2 + m * v) == p * (carry + m * (s[i as int] + 1000 * v))) by (nonlinear_arith)
                requires d == t % 1000, c2 == t / 1000, t == s[i as int] * m + carry;
        }
        r.push(d);
        carry = c2;
        i = i + 1;
    }
    proof {
        let e = s@.subrange(i as int, s@.len() as int);
        assert(e =~= Seq::<u64>::empty());
        assert(digits_value(e) == 0);
        assert(m * digits_value(e) == 0) by (nonlinear_arith)
            requires digits_value(e) == 0;
        assert(r@.len() == i);
    }
    while carry > 0
        invariant
            digits_ok(r@),
            digits_value(r@) + pow(1000, r@.len()) * carry == digits_value(s@) * m,
        decreases carry,
    {
        let d = (carry % 1000) as u64;
        proof {
            lemma_push(r@, d);
            lemma_pow_step(r@.len());
            let p = pow(1000, r@.len());
            assert(p * carry == d * p + (1000 * p) * (carry / 1000)) by (nonlinear_arith)
                requires d == carry % 1000, carry >= 0;
        }
        r.push(d);
        carry = carry / 1000;
    }
    r
}

/// The quotient of `s`'s value by `1000^k`, or `cap` when it is larger.
pub fn quotient_capped(s: &Vec<u64>, k: usize, cap: u64) -> (r: u64)
    requires
        digits_ok(s@),
        k <= s@.len(),
    ensures
        r as int == if (digits_value(s@) as int) / pow(1000, k as nat) <= cap {
            (digits_value(s@) as int) / pow(1000, k as nat)
        } else {
            cap as int
        },
{
    proof {
        lemma_high_digits(s@, k as int);
    }
    let mut j: usize = s.len();
    let mut acc: u64 = 0;
    proof {
        assert(s@.subrange(j as int, s@.len() as int) =~= Seq::<u64>::empty());
    }
    while j > k
        invariant
            k <= j <= s@.len(),
            digits_ok(s@),
            acc as int == if digits_value(s@.subrange(j as int, s@.len() as int)) <= cap {
                digits_value(s@.subrange(j as int, s@.len() as int)) as int
            } else {
                cap as int
            },
        decreases j,
    {
        let ghost tail = s@.subrange(j - 1, s@.len() as int);
        proof {
            assert(tail.drop_first() =~= s@.subrange(j as int, s@.len() as int));
            assert(s[j - 1] < 1000);
        }
        let next: u128 = (s[j - 1] as u128) + 1000 * (acc as u128);
        proof {
            let v = digits_value(s@.subrange(j as int, s@.len() as int));
            assert(digits_value(tail) == s@[j - 1] + 1000 * v);
        }
        j = j - 1;
        if next <= cap as u128 {
            acc = next as u64;
        } else {
            acc = cap;
        }
    }
    acc
}

} // verus!
