//! The layout of the full spectrum used for minimum-phase reconstruction.
//!
//! A single-sided magnitude spectrum `[m0, m1, ..., m(h-1)]` is mirrored into
//! `[m0, ..., m(h-1), m(h-1), ..., m1]` and zero-padded to a power-of-two
//! length for the FFT. The logarithm, Hilbert transform and inverse FFT that
//! follow are floating-point work done by the caller.

use vstd::prelude::*;

verus! {

/// The smallest power of two that is at least `m` (1 for 0 and 1).
pub open spec fn next_power_of_two(m: nat) -> nat
    decreases m,
{
    if m <= 1 {
        1
    } else {
        2 * next_power_of_two(((m + 1) / 2) as nat)
    }
}

/// `next_power_of_two` is at least its argument.
pub proof fn lemma_next_power_of_two_bound(m: nat)
    ensures
        next_power_of_two(m) >= m,
        next_power_of_two(m) >= 1,
    decreases m,
{
    if m > 1 {
        lemma_next_power_of_two_bound(((m + 1) / 2) as nat);
    }
}

/// `p` is a power of two.
pub open spec fn is_power_of_two(p: nat) -> bool
    decreases p,
{
    if p == 1 {
        true
    } else if p < 2 || p % 2 != 0 {
        false
    } else {
        is_power_of_two((p / 2) as nat)
    }
}

/// The padded length is a power of two, as the Hilbert transform requires,
/// and no power of two below it reaches `m`.
pub proof fn lemma_next_power_of_two(m: nat)
    ensures
        is_power_of_two(next_power_of_two(m)),
        next_power_of_two(m) >= m,
        m >= 1 ==> next_power_of_two(m) < 2 * m,
    decreases m,
{
    lemma_next_power_of_two_bound(m);
    if m > 1 {
        let h = ((m + 1) / 2) as nat;
        lemma_next_power_of_two(h);
        let p = next_power_of_two(h);
        assert((2 * p) % 2 == 0);
        assert((2 * p) / 2 == p);
    }
}

/// The smallest power of two that is at least `m`.
pub fn power_of_two_at_least(m: usize) -> (r: usize)
    requires
        next_power_of_two(m as nat) <= usize::MAX,
    ensures
        r == next_power_of_two(m as nat),
    decreases m,
{
    if m <= 1 {
        1
    } else {
        let h = m / 2 + m % 2;
        assert(h == (m + 1) / 2);
        let p = power_of_two_at_least(h);
        2 * p
    }
}

/// The length of the mirrored spectrum before padding.
pub open spec fn mirrored_len(h: nat) -> nat {
    if h == 0 {
        0
    } else {
        (2 * h - 1) as nat
    }
}

/// The mirrored and zero-padded spectrum of `mag`.
pub open spec fn mirrored<S>(mag: Seq<S>, zero: S) -> Seq<S> {
    let h = mag.len();
    let m = mirrored_len(h);
    Seq::new(
        next_power_of_two(m),
        |i: int|
            if i < h {
                mag[i]
            } else if i < m {
                mag[2 * h - 1 - i]
            } else {
                zero
            },
    )
}

/// Mirrors a single-sided spectrum and pads it with `zero` to a power-of-two
/// length.
pub fn mirror_spectrum<S: Copy>(mag: &[S], zero: S) -> (r: Vec<S>)
    requires
        next_power_of_two(mirrored_len(mag@.len())) <= usize::MAX,
    ensures
        r@ == mirrored(mag@, zero),
{
    let h = mag.len();
    proof {
        lemma_next_power_of_two_bound(mirrored_len(h as nat));
    }
    let m: usize = if h == 0 {
        0
    } else {
        h + (h - 1)
    };
    let len = power_of_two_at_least(m);
    let mut out: Vec<S> = Vec::new();
    let mut i: usize = 0;
    while i < h
        invariant
            h == mag@.len(),
            i <= h,
            out@ == mag@.subrange(0, i as int),
        decreases h - i,
    {
        out.push(mag[i]);
        i = i + 1;
        assert(out@ =~= mag@.subrange(0, i as int));
    }
    let mut j: usize = h;
    while j > 1
        invariant
            h == mag@.len(),
            1 <= h ==> 1 <= j <= h,
            h == 0 ==> j == 0,
            out@.len() == 2 * h - j,
            forall|q: int| 0 <= q < h ==> #[trigger] out@[q] == mag@[q],
            forall|q: int| h <= q < out@.len() ==> #[trigger] out@[q] == mag@[2 * h - 1 - q],
        decreases j,
    {
        j = j - 1;
        out.push(mag[j]);
    }
    assert(out@.len() == m);
    while out.len() < len
        invariant
            h == mag@.len(),
            h <= m,
            m <= len,
            m <= out@.len() <= len,
            forall|q: int| 0 <= q < h ==> #[trigger] out@[q] == mag@[q],
            forall|q: int| h <= q < m ==> #[trigger] out@[q] == mag@[2 * h - 1 - q],
            forall|q: int| m <= q < out@.len() ==> #[trigger] out@[q] == zero,
        decreases len - out@.len(),
    {
        out.push(zero);
    }
    assert(out@ =~= mirrored(mag@, zero));
    out
}

/// The mirrored part reads the spectrum backwards: bins `k` and `2h - 1 - k`
/// carry the same magnitude, for `1 <= k < h`; everything from `2h - 1` on is
/// padding.
pub proof fn lemma_mirrored_symmetric<S>(mag: Seq<S>, zero: S)
    ensures
        forall|k: int|
            1 <= k < mag.len() ==> #[trigger] mirrored(mag, zero)[2 * mag.len() - 1 - k] == mirrored(
                mag,
                zero,
            )[k],
        forall|k: int|
            mirrored_len(mag.len()) <= k < mirrored(mag, zero).len() ==> #[trigger] mirrored(mag, zero)[k]
                == zero,
        is_power_of_two(mirrored(mag, zero).len()),
{
    lemma_next_power_of_two(mirrored_len(mag.len()));
}

/// For at least two bins the padded spectrum has room for the whole
/// response of twice the number of bins, which the reconstruction returns;
/// for a single bin it has length 1.
pub proof fn lemma_mirrored_len_covers_response(h: nat)
    ensures
        h >= 2 ==> next_power_of_two(mirrored_len(h)) >= 2 * h,
        h == 1 ==> next_power_of_two(mirrored_len(h)) == 1,
{
    let m = mirrored_len(h);
    lemma_next_power_of_two(m);
    if h >= 2 {
        let p = next_power_of_two(m);
        assert(p >= 3);
        assert(p % 2 == 0);
        assert(m % 2 == 1);
    }
}

} // verus!
