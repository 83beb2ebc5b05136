//! Thinning and clamping of per-position counts for a scatter plot.
//!
//! A count track has one small integer per position; drawn in full it is an
//! overplotted band. This module picks every `step`-th point and clamps the counts,
//! all in integers. Jitter and scaling by the coverage are floating-point work and are
//! applied by the caller to what comes out of here.

use vstd::prelude::*;

verus! {

/// How many items remain of `len` when only every `step`-th is kept, the first
/// included.
pub open spec fn strided_len(len: nat, step: nat) -> nat {
    if len == 0 {
        0
    } else {
        ((len - 1) / (step as int) + 1) as nat
    }
}

/// Every `step`-th item of `items`, starting with the first.
pub open spec fn strided<T>(items: Seq<T>, step: nat) -> Seq<T> {
    Seq::new(strided_len(items.len(), step), |k: int| items[k * step])
}

/// `count`, but no more than `max_count`.
pub open spec fn clamped(count: u8, max_count: u8) -> u8 {
    if count <= max_count {
        count
    } else {
        max_count
    }
}

/// All of `counts`, each clamped to `max_count`.
pub open spec fn clamped_all(counts: Seq<u8>, max_count: u8) -> Seq<u8> {
    Seq::new(counts.len(), |i: int| clamped(counts[i], max_count))
}

/// The indices that striding keeps are exactly the multiples of `step` below `len`.
pub proof fn lemma_strided_len(len: nat, step: nat, k: int)
    requires
        step > 0,
        0 <= k,
    ensures
        k < strided_len(len, step) <==> k * step < len,
{
    if len > 0 {
        let last = len - 1;
        let d = step as int;
        vstd::arithmetic::div_mod::lemma_fundamental_div_mod(last, d);
        vstd::arithmetic::div_mod::lemma_mod_bound(last, d);
        let q = last / d;
        if k <= q {
            assert(k * d <= q * d) by (nonlinear_arith)
                requires
                    k <= q,
                    d > 0,
            ;
        } else {
            assert(k * d >= (q + 1) * d) by (nonlinear_arith)
                requires
                    k >= q + 1,
                    d > 0,
            ;
            assert((q + 1) * d == q * d + d) by (nonlinear_arith);
        }
        assert(d * q == q * d) by (nonlinear_arith);
    } else {
        assert(k * step >= 0) by (nonlinear_arith)
            requires
                k >= 0,
                step >= 0,
        ;
    }
}

/// Keeps every `step`-th item of `items`, starting with the first.
fn every_nth<T: Copy>(items: &[T], step: usize) -> (picked: Vec<T>)
    requires
        step > 0,
    ensures
        picked@ == strided(items@, step as nat),
{
    let n: usize = items.len();
    let mut picked: Vec<T> = Vec::new();
    let mut i: usize = 0;
    let ghost mut taken: int = 0;
    proof {
        assert(0 * step == 0) by (nonlinear_arith);
    }
    while i < n
        invariant_except_break
            i == taken * step,
            i < n || (n == 0 && taken == 0),
        invariant
            step > 0,
            n == items@.len(),
            taken == picked@.len(),
            forall|j: int| 0 <= j < taken ==> picked@[j] == items@[j * step],
        ensures
            picked@ == strided(items@, step as nat),
        decreases n - i,
    {
        let ghost before = picked@;
        picked.push(items[i]);
        proof {
            assert((taken + 1) * step == taken * step + step) by (nonlinear_arith);
            assert forall|j: int| 0 <= j < taken + 1 implies picked@[j] == items@[j * step] by {
                if j < taken {
                    assert(picked@[j] == before[j]);
                }
            }
            taken = taken + 1;
        }
        if step >= n - i {
            proof {
                lemma_strided_len(n as nat, step as nat, taken - 1);
                lemma_strided_len(n as nat, step as nat, taken);
                assert(picked@ =~= strided(items@, step as nat));
            }
            break ;
        }
        i = i + step;
    }
    proof {
        if n == 0 {
            assert(picked@ =~= strided(items@, step as nat));
        }
    }
    picked
}

/// Picks the points of a scatter plot from a count track: every `step`-th position,
/// and at each of them the count, clamped to `max_count`.
///
/// The two inputs are thinned independently, so the outputs have equal length whenever
/// the inputs do.
pub fn scatter_sample(counts: &[u8], positions: &[u32], max_count: u8, step: usize) -> (points: (
    Vec<u32>,
    Vec<u8>,
))
    requires
        step > 0,
    ensures
        points.0@ == strided(positions@, step as nat),
        points.1@ == strided(clamped_all(counts@, max_count), step as nat),
        counts@.len() == positions@.len() ==> points.0@.len() == points.1@.len(),
{
    let xs = every_nth(positions, step);
    let mut ys = every_nth(counts, step);
    let ghost raw = ys@;
    let mut k: usize = 0;
    while k < ys.len()
        invariant
            k <= ys@.len(),
            ys@.len() == raw.len(),
            forall|j: int| 0 <= j < k ==> ys@[j] == clamped(raw[j], max_count),
            forall|j: int| k <= j < raw.len() ==> ys@[j] == raw[j],
        decreases ys@.len() - k,
    {
        if ys[k] > max_count {
            ys.set(k, max_count);
        }
        k = k + 1;
    }
    proof {
        assert forall|j: int| 0 <= j < ys@.len() implies ys@[j] == strided(
            clamped_all(counts@, max_count),
            step as nat,
        )[j] by {
            lemma_strided_len(counts@.len(), step as nat, j);
        }
        assert(ys@ =~= strided(clamped_all(counts@, max_count), step as nat));
    }
    (xs, ys)
}

} // verus!
