//! The whole-sample part of a signal delay: a circular shift.
//!
//! A fractional delay of `d` samples first shifts the signal circularly by
//! `floor(d)` whole samples and then interpolates between neighbours by the
//! remaining fraction; the interpolation is floating-point arithmetic and is
//! done by the caller. Both the linear and the Lagrange variants use this
//! shift.

use vstd::prelude::*;
use vstd::arithmetic::div_mod::lemma_fundamental_div_mod;
use vstd::arithmetic::div_mod::lemma_mod_multiples_vanish;
use vstd::arithmetic::div_mod::lemma_small_mod;
use vstd::arithmetic::div_mod::lemma_sub_mod_noop;
use vstd::arithmetic::div_mod::lemma_mod_twice;

verus! {

/// Index arithmetic of a circular shift: moving back by `d` is moving forward
/// by `n - r` when `d` is `r` modulo `n`.
proof fn lemma_shift_index(i: int, d: int, n: int, r: int, k: int)
    requires
        n > 0,
        d == n * k + r,
        0 <= r < n,
        0 <= i < n,
    ensures
        (i - d) % n == if i >= r { i - r } else { i + n - r },
{
    lemma_mod_multiples_vanish(-k - 1, i + n - r, n);
    if i >= r {
        lemma_mod_multiples_vanish(1, i - r, n);
        lemma_small_mod((i - r) as nat, n as nat);
    } else {
        lemma_small_mod((i + n - r) as nat, n as nat);
    }
    assert(n * (-k - 1) + (i + n - r) == i - d) by (nonlinear_arith)
        requires
            d == n * k + r,
    ;
}

/// `s` delayed circularly by `d` samples: sample `i` of the result is sample
/// `i - d` of `s`, the index taken modulo the length.
pub open spec fn shifted<S>(s: Seq<S>, d: int) -> Seq<S> {
    Seq::new(s.len(), |i: int| s[(i - d) % (s.len() as int)])
}

/// A delay of zero leaves a signal as it is.
pub proof fn lemma_shift_zero<S>(s: Seq<S>)
    ensures
        shifted(s, 0) == s,
{
    assert forall|i: int| 0 <= i < s.len() implies #[trigger] shifted(s, 0)[i] == s[i] by {
        lemma_small_mod(i as nat, s.len());
    }
    assert(shifted(s, 0) =~= s);
}

/// Two delays in a row are one delay by their sum.
pub proof fn lemma_shift_compose<S>(s: Seq<S>, a: int, b: int)
    ensures
        shifted(shifted(s, a), b) == shifted(s, a + b),
{
    let n = s.len() as int;
    if n > 0 {
        assert forall|i: int| 0 <= i < n implies #[trigger] shifted(shifted(s, a), b)[i] == shifted(
            s,
            a + b,
        )[i] by {
            let x = i - b;
            lemma_sub_mod_noop(x, a, n);
            lemma_sub_mod_noop(x % n, a, n);
            lemma_mod_twice(x, n);
            assert(x - a == i - (a + b));
        }
    }
    assert(shifted(shifted(s, a), b) =~= shifted(s, a + b));
}

/// Delaying by `d` and then by `-d` gives back the signal.
pub proof fn lemma_shift_undo<S>(s: Seq<S>, d: int)
    ensures
        shifted(shifted(s, d), -d) == s,
{
    lemma_shift_compose(s, d, -d);
    lemma_shift_zero(s);
}

/// Delays `signal` circularly by `delay` whole samples: afterwards sample `i`
/// holds what sample `i - delay` (taken modulo the length) held before. A
/// negative delay moves the signal earlier; an empty signal is left as it is.
pub fn apply_integer_delay<S: Copy>(signal: &mut [S], delay: isize)
    ensures
        final(signal)@ == shifted(old(signal)@, delay as int),
{
    let n = signal.len();
    if n == 0 {
        assert(signal@ =~= shifted(signal@, delay as int));
        return;
    }
    let ghost orig = signal@;
    let mut temp: Vec<S> = Vec::new();
    let mut j: usize = 0;
    while j < n
        invariant
            n == signal@.len(),
            signal@ == orig,
            j <= n,
            temp@ == orig.subrange(0, j as int),
        decreases n - j,
    {
        temp.push(signal[j]);
        j = j + 1;
        assert(temp@ =~= orig.subrange(0, j as int));
    }
    assert(temp@ =~= orig);
    // The right shift `r` in [0, n) with delay == n * k + r.
    let r: usize;
    let ghost k: int;
    if delay >= 0 {
        r = (delay as usize) % n;
        proof {
            lemma_fundamental_div_mod(delay as int, n as int);
            k = (delay as int) / (n as int);
        }
    } else {
        let a: usize = (-(delay + 1)) as usize;
        let m = a % n;
        r = n - 1 - m;
        proof {
            lemma_fundamental_div_mod(a as int, n as int);
            k = -((a as int) / (n as int)) - 1;
            assert(delay == (n as int) * k + r) by (nonlinear_arith)
                requires
                    a == n * (a / n) + m,
                    delay == -(a + 1),
                    k == -(a / n) - 1,
                    r == n - 1 - m,
            ;
        }
    }
    let mut i: usize = 0;
    while i < n
        invariant
            n == signal@.len(),
            n == orig.len(),
            temp@ == orig,
            r < n,
            delay == (n as int) * k + r,
            i <= n,
            forall|q: int| 0 <= q < i ==> #[trigger] signal@[q] == orig[(q - delay) % (n as int)],
        decreases n - i,
    {
        let src = if i >= r { i - r } else { i + (n - r) };
        proof {
            lemma_shift_index(i as int, delay as int, n as int, r as int, k);
        }
        signal[i] = temp[src];
        i = i + 1;
    }
    assert(signal@ =~= shifted(orig, delay as int));
}

} // verus!
