//! The waveform reducer: one peak amplitude per window of samples.
//!
//! When there are at least as many samples `n` as windows `t`, every window
//! is `w = n / t` samples wide (rounded down): window `k` covers
//! `[k * w, (k + 1) * w)`, and the last window runs on to `n`, absorbing the
//! remainder. When there are more windows than samples, window `k` is the one
//! sample at `k * n / t` (rounded down), so samples are duplicated rather than
//! interpolated.
//! Each window yields the largest magnitude among its samples. Samples are
//! signed 32-bit values at full scale, so a magnitude is at most `2^31`.
use vstd::prelude::*;
use vstd::arithmetic::div_mod::{
    lemma_div_by_multiple,
    lemma_div_by_multiple_is_strongly_ordered,
    lemma_div_is_ordered,
};
use vstd::arithmetic::mul::lemma_mul_inequality;
use crate::error::AudioError;

verus! {

/// The absolute value of a sample.
pub open spec fn magnitude(x: i32) -> nat {
    if x < 0 {
        (-x) as nat
    } else {
        x as nat
    }
}

/// First sample of window `k` out of `t` over `n` samples.
pub open spec fn window_start(n: nat, t: nat, k: nat) -> nat {
    if n >= t {
        k * (n / t)
    } else {
        (k * n / t) as nat
    }
}

/// One past the last sample of window `k`: the last window ends at `n`; with
/// fewer samples than windows each window holds one sample.
pub open spec fn window_end(n: nat, t: nat, k: nat) -> nat {
    if n >= t {
        if k + 1 == t {
            n
        } else {
            (k + 1) * (n / t)
        }
    } else {
        window_start(n, t, k) + 1
    }
}

/// The largest magnitude among `s[lo..hi]`; zero for an empty range.
pub open spec fn peak(s: Seq<i32>, lo: int, hi: int) -> nat
    decreases hi - lo,
{
    if hi <= lo {
        0
    } else {
        let p = peak(s, lo, hi - 1);
        let m = magnitude(s[hi - 1]);
        if m > p {
            m
        } else {
            p
        }
    }
}

/// The `t` points that `s` reduces to; all zero when `s` is empty.
pub open spec fn reduced(s: Seq<i32>, t: nat) -> Seq<u32> {
    Seq::new(
        t,
        |k: int|
            if s.len() == 0 {
                0u32
            } else {
                peak(s, window_start(s.len(), t, k as nat) as int, window_end(s.len(), t, k as nat) as int) as u32
            },
    )
}

proof fn lemma_window_bounds(n: nat, t: nat, k: nat)
    requires
        k < t,
        n > 0,
    ensures
        window_start(n, t, k) < window_end(n, t, k) <= n,
{
    let (ni, ti, ki) = (n as int, t as int, k as int);
    if n >= t {
        let w = ni / ti;
        lemma_div_is_ordered(ti, ni, ti);
        lemma_div_by_multiple(1, ti);
        lemma_mul_inequality(ki + 1, ti, w);
        lemma_div_by_multiple_is_strongly_ordered(0, ti, 1, ti);
        vstd::arithmetic::div_mod::lemma_fundamental_div_mod(ni, ti);
        assert(ti * w <= ni) by (nonlinear_arith)
            requires
                ni == ti * w + ni % ti,
                ni % ti >= 0,
        ;
        assert(ki * w < (ki + 1) * w) by (nonlinear_arith)
            requires
                w >= 1,
        ;
        assert(ki * w < ni) by (nonlinear_arith)
            requires
                ki < ti,
                w >= 1,
                ti * w <= ni,
        ;
    } else {
        assert(ki * ni < ti * ni) by (nonlinear_arith)
            requires
                ki < ti,
                ni > 0,
        ;
        lemma_div_by_multiple(ni, ti);
        assert(ti * ni == ni * ti) by (nonlinear_arith);
        lemma_div_by_multiple_is_strongly_ordered(ki * ni, ti * ni, ni, ti);
    }
}

proof fn lemma_peak_bound(s: Seq<i32>, lo: int, hi: int)
    requires
        0 <= lo,
        hi <= s.len(),
    ensures
        peak(s, lo, hi) <= 0x8000_0000,
    decreases hi - lo,
{
    if hi > lo {
        lemma_peak_bound(s, lo, hi - 1);
    }
}

proof fn lemma_peak_covers(s: Seq<i32>, lo: int, hi: int, i: int)
    requires
        lo <= i < hi,
    ensures
        peak(s, lo, hi) >= magnitude(s[i]),
    decreases hi - lo,
{
    if i < hi - 1 {
        lemma_peak_covers(s, lo, hi - 1, i);
    }
}

/// No window attenuates a transient: when window `k` of `s` contains sample
/// `i`, point `k` of the reduction is at least the magnitude of `s[i]`.
pub proof fn lemma_peak_preserved(s: Seq<i32>, t: nat, k: nat, i: int)
    requires
        k < t,
        window_start(s.len(), t, k) <= i < window_end(s.len(), t, k),
        i < s.len(),
    ensures
        reduced(s, t)[k as int] >= magnitude(s[i]),
{
    lemma_window_bounds(s.len(), t, k);
    let lo = window_start(s.len(), t, k) as int;
    let hi = window_end(s.len(), t, k) as int;
    lemma_peak_covers(s, lo, hi, i);
    lemma_peak_bound(s, lo, hi);
}

/// The reduction has exactly `t` points whatever the number of samples,
/// none included.
pub proof fn lemma_reduced_len(s: Seq<i32>, t: nat)
    requires
        t > 0,
    ensures
        reduced(s, t).len() == t,
{
}

/// The reduction depends on the samples and the target alone: equal inputs
/// reduce to equal outputs.
pub proof fn lemma_reduce_deterministic(s1: Seq<i32>, s2: Seq<i32>, t: nat)
    requires
        s1 == s2,
        t > 0,
    ensures
        reduced(s1, t) == reduced(s2, t),
{
}

fn sample_magnitude(x: i32) -> (r: u32)
    ensures
        r == magnitude(x),
{
    if x < 0 {
        (-(x as i64)) as u32
    } else {
        x as u32
    }
}

fn scaled_index(k: usize, n: usize, t: usize) -> (r: usize)
    requires
        t > 0,
        k <= t,
    ensures
        r as int == (k as int) * (n as int) / (t as int),
{
    proof {
        let (ni, ti, ki) = (n as int, t as int, k as int);
        assert(0 <= ki * ni <= 0xffff_ffff_ffff_ffff * 0xffff_ffff_ffff_ffffint) by (nonlinear_arith)
            requires
                0 <= ki <= 0xffff_ffff_ffff_ffff,
                0 <= ni <= 0xffff_ffff_ffff_ffff,
        ;
        lemma_mul_inequality(ki, ti, ni);
        lemma_div_is_ordered(ki * ni, ti * ni, ti);
        lemma_div_by_multiple(ni, ti);
        assert(ti * ni == ni * ti) by (nonlinear_arith);
    }
    let prod: u128 = (k as u128) * (n as u128);
    let q: u128 = prod / (t as u128);
    q as usize
}

fn window_bounds(k: usize, n: usize, t: usize) -> (r: (usize, usize))
    requires
        k < t,
        n > 0,
    ensures
        r.0 == window_start(n as nat, t as nat, k as nat),
        r.1 == window_end(n as nat, t as nat, k as nat),
        r.0 < r.1 <= n,
{
    proof {
        lemma_window_bounds(n as nat, t as nat, k as nat);
    }
    if n >= t {
        let w = n / t;
        let lo = k * w;
        let hi = if k + 1 == t {
            n
        } else {
            proof {
                lemma_window_bounds(n as nat, t as nat, (k + 1) as nat);
            }
            (k + 1) * w
        };
        (lo, hi)
    } else {
        let lo = scaled_index(k, n, t);
        (lo, lo + 1)
    }
}

/// Reduces `samples` to `target` peak points, one per window.
pub fn reduce(samples: &Vec<i32>, target: usize) -> (r: Result<Vec<u32>, AudioError>)
    ensures
        match r {
            Ok(points) => target > 0 && points@ == reduced(samples@, target as nat),
            Err(e) => target == 0 && e == AudioError::InvalidArgument,
        },
{
    if target == 0 {
        return Err(AudioError::InvalidArgument);
    }
    let n = samples.len();
    let ghost s = samples@;
    let mut points: Vec<u32> = Vec::with_capacity(target);
    let mut k: usize = 0;
    while k < target
        invariant
            n == s.len(),
            s == samples@,
            target > 0,
            k <= target,
            points@.len() == k,
            forall|j: int| 0 <= j < k ==> points@[j] == #[trigger] reduced(s, target as nat)[j],
        decreases target - k,
    {
        if n == 0 {
            points.push(0);
        } else {
            proof {
                lemma_window_bounds(n as nat, target as nat, k as nat);
            }
            let (lo, hi) = window_bounds(k, n, target);
            let mut m: u32 = 0;
            let mut i: usize = lo;
            while i < hi
                invariant
                    n == s.len(),
                    s == samples@,
                    lo <= i <= hi <= n,
                    m == peak(s, lo as int, i as int),
                decreases hi - i,
            {
                proof {
                    lemma_peak_bound(s, lo as int, i as int + 1);
                }
                let v = sample_magnitude(samples[i]);
                if v > m {
                    m = v;
                }
                i = i + 1;
            }
            points.push(m);
        }
        k = k + 1;
    }
    assert(points@ =~= reduced(s, target as nat));
    Ok(points)
}

} // verus!
