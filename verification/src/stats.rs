//! Fiber statistics for normalization.
//!
//! Normalization transforms the histogram fiber by fiber: a fiber is the
//! one-dimensional slice along the neighbor axis for a fixed base index and
//! offset slot. Each of the five policies rescales a fiber from a few
//! statistics of its counts — minimum, maximum, sum, sum of squares — and
//! each has a degenerate case (a zero denominator) in which the resulting
//! floating-point values are non-finite and are propagated rather than
//! treated as an error. The statistics and the degeneracy test are integer
//! computations and live here; only the final floating-point arithmetic is
//! left to the caller.

use crate::histogram::Histogram;
use vstd::prelude::*;

verus! {

/// The largest value of a nonempty sequence of counters.
pub open spec fn seq_max(s: Seq<u64>) -> u64
    recommends
        s.len() > 0,
    decreases s.len(),
{
    if s.len() <= 1 {
        s[0]
    } else {
        let m = seq_max(s.drop_last());
        if s.last() > m {
            s.last()
        } else {
            m
        }
    }
}

/// The smallest value of a nonempty sequence of counters.
pub open spec fn seq_min(s: Seq<u64>) -> u64
    recommends
        s.len() > 0,
    decreases s.len(),
{
    if s.len() <= 1 {
        s[0]
    } else {
        let m = seq_min(s.drop_last());
        if s.last() < m {
            s.last()
        } else {
            m
        }
    }
}

/// The sum of a sequence of counters.
pub open spec fn seq_sum(s: Seq<u64>) -> int
    decreases s.len(),
{
    if s.len() == 0 {
        0
    } else {
        seq_sum(s.drop_last()) + s.last()
    }
}

/// The sum of the squares of a sequence of counters.
pub open spec fn seq_sum_sq(s: Seq<u64>) -> int
    decreases s.len(),
{
    if s.len() == 0 {
        0
    } else {
        seq_sum_sq(s.drop_last()) + s.last() * s.last()
    }
}

/// The maximum is one of the values, and no value exceeds it.
pub proof fn lemma_seq_max_properties(s: Seq<u64>)
    requires
        s.len() > 0,
    ensures
        s.contains(seq_max(s)),
        forall|i: int| 0 <= i < s.len() ==> s[i] <= seq_max(s),
    decreases s.len(),
{
    if s.len() > 1 {
        lemma_seq_max_properties(s.drop_last());
        let m = seq_max(s.drop_last());
        assert(s.drop_last().contains(m));
        let p = choose|p: int| 0 <= p < s.len() - 1 && s.drop_last()[p] == m;
        assert(s[p] == m);
        if s.last() > m {
            assert(s[s.len() - 1] == seq_max(s));
        }
        assert forall|i: int| 0 <= i < s.len() implies s[i] <= seq_max(s) by {
            if i < s.len() - 1 {
                assert(s.drop_last()[i] == s[i]);
            }
        }
    } else {
        assert(s[0] == seq_max(s));
    }
}

/// The minimum is one of the values, and no value is below it.
pub proof fn lemma_seq_min_properties(s: Seq<u64>)
    requires
        s.len() > 0,
    ensures
        s.contains(seq_min(s)),
        forall|i: int| 0 <= i < s.len() ==> s[i] >= seq_min(s),
    decreases s.len(),
{
    if s.len() > 1 {
        lemma_seq_min_properties(s.drop_last());
        let m = seq_min(s.drop_last());
        assert(s.drop_last().contains(m));
        let p = choose|p: int| 0 <= p < s.len() - 1 && s.drop_last()[p] == m;
        assert(s[p] == m);
        if s.last() < m {
            assert(s[s.len() - 1] == seq_min(s));
        }
        assert forall|i: int| 0 <= i < s.len() implies s[i] >= seq_min(s) by {
            if i < s.len() - 1 {
                assert(s.drop_last()[i] == s[i]);
            }
        }
    } else {
        assert(s[0] == seq_min(s));
    }
}

/// The sum of any prefix is at most the sum of the whole sequence.
pub proof fn lemma_seq_sum_sq_take_le(s: Seq<u64>, i: int)
    requires
        0 <= i <= s.len(),
    ensures
        seq_sum_sq(s.take(i)) <= seq_sum_sq(s),
    decreases s.len() - i,
{
    if i < s.len() {
        lemma_seq_sum_sq_take_le(s, i + 1);
        assert(s.take(i + 1).drop_last() =~= s.take(i));
        assert(s.take(i + 1).last() == s[i]);
        assert(s[i] * s[i] >= 0) by (nonlinear_arith);
    } else {
        assert(s.take(i) =~= s);
    }
}

/// The five normalization policies, selected by their identifier.
#[derive(Clone, Copy, PartialEq, Eq, Structural, Debug)]
pub enum Policy {
    /// `(x - min) / (max - min)`; degenerate when `max == min`.
    MinMax,
    /// `x / sum`; degenerate when `sum == 0`.
    SumToOne,
    /// `x - mean`; never degenerate.
    Center,
    /// `x / max`; degenerate when `max == 0`.
    DivideByMax,
    /// `(x - mean) / stddev` with the population standard deviation;
    /// degenerate when the standard deviation is zero, that is, when all
    /// values of the fiber are equal.
    ZScore,
}

/// The policy a numeric identifier selects, if any.
pub open spec fn spec_policy_from_id(id: u8) -> Option<Policy> {
    if id == 0 {
        Some(Policy::MinMax)
    } else if id == 1 {
        Some(Policy::SumToOne)
    } else if id == 2 {
        Some(Policy::Center)
    } else if id == 3 {
        Some(Policy::DivideByMax)
    } else if id == 4 {
        Some(Policy::ZScore)
    } else {
        None
    }
}

/// Maps a configured policy identifier to its policy: `Some` exactly for
/// the five supported identifiers, `None` for every other, which the
/// caller treats as fatal.
pub fn policy_from_id(id: u8) -> (r: Option<Policy>)
    ensures
        r == spec_policy_from_id(id),
{
    match id {
        0 => Some(Policy::MinMax),
        1 => Some(Policy::SumToOne),
        2 => Some(Policy::Center),
        3 => Some(Policy::DivideByMax),
        4 => Some(Policy::ZScore),
        _ => None,
    }
}

/// A fiber is degenerate under a policy exactly when the policy's
/// denominator is zero on it, so that the resulting floating-point values
/// are non-finite. The z-score denominator is the population standard
/// deviation, which is zero exactly when all values are equal, that is,
/// when the maximum equals the minimum.
pub open spec fn spec_degenerate(p: Policy, s: Seq<u64>) -> bool
    recommends
        s.len() > 0,
{
    match p {
        Policy::MinMax => seq_max(s) == seq_min(s),
        Policy::SumToOne => seq_sum(s) == 0,
        Policy::Center => false,
        Policy::DivideByMax => seq_max(s) == 0,
        Policy::ZScore => seq_max(s) == seq_min(s),
    }
}

/// The values of the fiber `(b, *, j)`: the counts along the neighbor axis
/// for base index `b` and offset slot `j`.
pub fn fiber(h: &Histogram, b: usize, j: usize) -> (v: Vec<u64>)
    requires
        h.wf(),
        b < h.k,
        j < h.w,
    ensures
        v@.len() == h.k,
        forall|n: int| 0 <= n < h.k ==> v@[n] == h.cell(b as int, n, j as int),
    decreases h.k,
{
    let mut v: Vec<u64> = Vec::new();
    let mut n: usize = 0;
    while n < h.k
        invariant
            n <= h.k,
            h.wf(),
            b < h.k,
            j < h.w,
            v@.len() == n,
            forall|p: int| 0 <= p < n ==> v@[p] == h.cell(b as int, p, j as int),
        decreases h.k - n,
    {
        v.push(h.get(b, n, j));
        n += 1;
    }
    v
}

/// The largest value of a nonempty fiber.
pub fn max_of(v: &Vec<u64>) -> (r: u64)
    requires
        v@.len() > 0,
    ensures
        r == seq_max(v@),
{
    let mut m = v[0];
    let mut i: usize = 1;
    proof {
        assert(v@.take(1) =~= seq![v@[0]]);
    }
    while i < v.len()
        invariant
            1 <= i <= v@.len(),
            m == seq_max(v@.take(i as int)),
        decreases v@.len() - i,
    {
        proof {
            assert(v@.take(i + 1).drop_last() =~= v@.take(i as int));
            assert(v@.take(i + 1).last() == v@[i as int]);
        }
        if v[i] > m {
            m = v[i];
        }
        i += 1;
    }
    proof {
        assert(v@.take(v@.len() as int) =~= v@);
    }
    m
}

/// The smallest value of a nonempty fiber.
pub fn min_of(v: &Vec<u64>) -> (r: u64)
    requires
        v@.len() > 0,
    ensures
        r == seq_min(v@),
{
    let mut m = v[0];
    let mut i: usize = 1;
    proof {
        assert(v@.take(1) =~= seq![v@[0]]);
    }
    while i < v.len()
        invariant
            1 <= i <= v@.len(),
            m == seq_min(v@.take(i as int)),
        decreases v@.len() - i,
    {
        proof {
            assert(v@.take(i + 1).drop_last() =~= v@.take(i as int));
            assert(v@.take(i + 1).last() == v@[i as int]);
        }
        if v[i] < m {
            m = v[i];
        }
        i += 1;
    }
    proof {
        assert(v@.take(v@.len() as int) =~= v@);
    }
    m
}

/// The sum of a fiber's values. The sum of at most `usize::MAX` 64-bit
/// counters always fits in 128 bits.
pub fn sum_of(v: &Vec<u64>) -> (r: u128)
    ensures
        r == seq_sum(v@),
{
    let mut s: u128 = 0;
    let mut i: usize = 0;
    while i < v.len()
        invariant
            i <= v@.len(),
            s == seq_sum(v@.take(i as int)),
            s <= (i as int) * (u64::MAX as int),
        decreases v@.len() - i,
    {
        proof {
            assert(v@.take(i + 1).drop_last() =~= v@.take(i as int));
            assert(v@.take(i + 1).last() == v@[i as int]);
            assert((i as int) * (u64::MAX as int) + u64::MAX == (i + 1) * (u64::MAX as int))
                by (nonlinear_arith);
            assert((i + 1) * (u64::MAX as int) <= u128::MAX) by (nonlinear_arith)
                requires
                    0 <= i < usize::MAX,
            ;
        }
        s = s + (v[i] as u128);
        i += 1;
    }
    proof {
        assert(v@.take(v@.len() as int) =~= v@);
    }
    s
}

/// The sum of the squares of a fiber's values, or `None` when that sum does
/// not fit in 128 bits.
pub fn sum_sq_of(v: &Vec<u64>) -> (r: Option<u128>)
    ensures
        match r {
            Some(s) => s == seq_sum_sq(v@),
            None => seq_sum_sq(v@) > u128::MAX,
        },
{
    let mut s: u128 = 0;
    let mut i: usize = 0;
    while i < v.len()
        invariant
            i <= v@.len(),
            s == seq_sum_sq(v@.take(i as int)),
        decreases v@.len() - i,
    {
        proof {
            assert(v@.take(i + 1).drop_last() =~= v@.take(i as int));
            assert(v@.take(i + 1).last() == v@[i as int]);
            assert((v@[i as int] as int) * (v@[i as int] as int) <= u128::MAX) by (nonlinear_arith)
                requires
                    v@[i as int] <= u64::MAX,
            ;
        }
        let sq = (v[i] as u128) * (v[i] as u128);
        if s > u128::MAX - sq {
            proof {
                lemma_seq_sum_sq_take_le(v@, i + 1);
            }
            return None;
        }
        s = s + sq;
        i += 1;
    }
    proof {
        assert(v@.take(v@.len() as int) =~= v@);
    }
    Some(s)
}

/// Whether a fiber is degenerate under a policy: whether the policy's
/// denominator is zero on it.
pub fn fiber_degenerate(p: Policy, v: &Vec<u64>) -> (r: bool)
    requires
        v@.len() > 0,
    ensures
        r == spec_degenerate(p, v@),
{
    match p {
        Policy::MinMax => max_of(v) == min_of(v),
        Policy::SumToOne => sum_of(v) == 0,
        Policy::Center => false,
        Policy::DivideByMax => max_of(v) == 0,
        Policy::ZScore => max_of(v) == min_of(v),
    }
}

/// Degenerate propagation: a fiber whose values are all equal has a zero
/// denominator under the min-max and z-score policies, and so produces
/// non-finite values there, while centering is always defined on it.
pub proof fn lemma_uniform_fiber_degeneracy(s: Seq<u64>)
    requires
        s.len() > 0,
        forall|i: int, j: int| 0 <= i < s.len() && 0 <= j < s.len() ==> s[i] == s[j],
    ensures
        spec_degenerate(Policy::MinMax, s),
        spec_degenerate(Policy::ZScore, s),
        !spec_degenerate(Policy::Center, s),
{
    lemma_seq_max_properties(s);
    lemma_seq_min_properties(s);
    let p = choose|p: int| 0 <= p < s.len() && s[p] == seq_max(s);
    let q = choose|q: int| 0 <= q < s.len() && s[q] == seq_min(s);
    assert(s[p] == s[q]);
}

} // verus!
