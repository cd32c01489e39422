//! Closed-form model: probability that a uniformly random group of size `k`
//! drawn from `n` nodes, `r` of them malicious, contains at least `q`
//! malicious members (the upper tail of a hypergeometric distribution).
//!
//! The probability is returned as an exact rational
//! `conv_sum(r, n - r, k, q) / binom(n, k)`; no floating point and no
//! factorials are involved.  Binomial coefficients are built row by row from
//! Pascal's rule in 128-bit integers, and inputs whose coefficients exceed
//! that width are rejected rather than approximated.

use vstd::prelude::*;
use crate::NN;

verus! {

/// The binomial coefficient C(n, k), defined by Pascal's rule.
/// Zero outside `0 <= k <= n`.
pub open spec fn binom(n: int, k: int) -> int
    decreases n,
{
    if k < 0 || k > n {
        0
    } else if n <= 0 {
        1
    } else {
        binom(n - 1, k - 1) + binom(n - 1, k)
    }
}

/// Pascal's rule holds for every `k` once `n >= 1`.
pub proof fn lemma_pascal(n: int, k: int)
    requires
        n >= 1,
    ensures
        binom(n, k) == binom(n - 1, k - 1) + binom(n - 1, k),
{
    if k < 0 {
        assert(binom(n, k) == 0);
        assert(binom(n - 1, k - 1) == 0);
        assert(binom(n - 1, k) == 0);
    } else if k > n {
        assert(binom(n, k) == 0);
        assert(binom(n - 1, k - 1) == 0);
        assert(binom(n - 1, k) == 0);
    }
}

/// Binomial coefficients are never negative.
pub proof fn lemma_binom_nonneg(n: int, k: int)
    ensures
        binom(n, k) >= 0,
    decreases n,
{
    if !(k < 0 || k > n) && n > 0 {
        lemma_binom_nonneg(n - 1, k - 1);
        lemma_binom_nonneg(n - 1, k);
    }
}

/// Inside the triangle, binomial coefficients are at least one.
pub proof fn lemma_binom_pos(n: int, k: int)
    requires
        0 <= k <= n,
    ensures
        binom(n, k) >= 1,
    decreases n,
{
    if n > 0 {
        if k == 0 {
            lemma_binom_pos(n - 1, 0);
            lemma_binom_nonneg(n - 1, -1);
        } else {
            lemma_binom_pos(n - 1, k - 1);
            lemma_binom_nonneg(n - 1, k);
        }
    }
}

/// C(n, k) grows (weakly) with `n`.
pub proof fn lemma_binom_mono_first(a: int, b: int, k: int)
    requires
        a <= b,
    ensures
        binom(a, k) <= binom(b, k),
    decreases b - a,
{
    if a < b {
        lemma_binom_mono_first(a, b - 1, k);
        if b >= 1 {
            lemma_pascal(b, k);
            lemma_binom_nonneg(b - 1, k - 1);
        } else {
            lemma_binom_nonneg(b, k);
            assert(binom(a, k) == 0);
        }
    }
}

/// Sum over `i` in `q..=k` of `C(r, i) * C(m, k - i)`: the number of ways
/// to pick a `k`-subset from `r + m` elements with at least `q` of the
/// first `r`.  The compromise probability is this over `C(r + m, k)`.
pub open spec fn conv_sum(r: int, m: int, k: int, q: int) -> int
    decreases k - q + 1,
{
    if q > k {
        0
    } else {
        binom(r, q) * binom(m, k - q) + conv_sum(r, m, k, q + 1)
    }
}

/// Every term of the sum, and so the sum itself, is nonnegative.
pub proof fn lemma_conv_nonneg(r: int, m: int, k: int, q: int)
    ensures
        conv_sum(r, m, k, q) >= 0,
    decreases k - q + 1,
{
    if q <= k {
        lemma_binom_nonneg(r, q);
        lemma_binom_nonneg(m, k - q);
        assert(binom(r, q) * binom(m, k - q) >= 0) by (nonlinear_arith)
            requires binom(r, q) >= 0, binom(m, k - q) >= 0;
        lemma_conv_nonneg(r, m, k, q + 1);
    }
}

/// Dropping leading terms can only shrink the sum.
pub proof fn lemma_conv_mono_q(r: int, m: int, k: int, q1: int, q2: int)
    requires
        q1 <= q2,
    ensures
        conv_sum(r, m, k, q2) <= conv_sum(r, m, k, q1),
    decreases q2 - q1,
{
    if q1 < q2 {
        lemma_conv_mono_q(r, m, k, q1 + 1, q2);
        if q1 <= k {
            lemma_binom_nonneg(r, q1);
            lemma_binom_nonneg(m, k - q1);
            assert(binom(r, q1) * binom(m, k - q1) >= 0) by (nonlinear_arith)
                requires binom(r, q1) >= 0, binom(m, k - q1) >= 0;
        }
    }
}

/// With no malicious nodes at all, the tail above any positive quorum is
/// empty.
pub proof fn lemma_conv_zero_r(m: int, k: int, q: int)
    requires
        q >= 1,
    ensures
        conv_sum(0, m, k, q) == 0,
    decreases k - q + 1,
{
    if q <= k {
        assert(binom(0, q) == 0);
        lemma_conv_zero_r(m, k, q + 1);
    }
}

/// Terms with a negative index vanish, so the sum may start at zero.
pub proof fn lemma_conv_neg_start(r: int, m: int, k: int, q: int)
    requires
        q <= 0,
    ensures
        conv_sum(r, m, k, q) == conv_sum(r, m, k, 0),
    decreases -q,
{
    if q < 0 {
        if q <= k {
            assert(binom(r, q) == 0);
            assert(binom(r, q) * binom(m, k - q) == 0);
        } else {
            assert(conv_sum(r, m, k, q) == 0);
            assert(k < 0);
            lemma_conv_mono_q(r, m, k, q + 1, 0);
            lemma_conv_nonneg(r, m, k, q + 1);
        }
        lemma_conv_neg_start(r, m, k, q + 1);
    }
}

/// Splitting `C(r + 1, i)` by Pascal's rule splits the whole sum.
pub proof fn lemma_conv_pascal(r: int, m: int, k: int, q: int)
    requires
        r >= 0,
    ensures
        conv_sum(r + 1, m, k, q) == conv_sum(r, m, k, q) + conv_sum(r, m, k - 1, q - 1),
    decreases k - q + 1,
{
    if q > k {
        assert(conv_sum(r + 1, m, k, q) == 0);
        assert(conv_sum(r, m, k, q) == 0);
        assert(conv_sum(r, m, k - 1, q - 1) == 0);
    } else {
        lemma_conv_pascal(r, m, k, q + 1);
        lemma_pascal(r + 1, q);
        assert((binom(r, q) + binom(r, q - 1)) * binom(m, k - q)
            == binom(r, q) * binom(m, k - q) + binom(r, q - 1) * binom(m, k - q))
            by (nonlinear_arith);
        assert(conv_sum(r, m, k - 1, q - 1)
            == binom(r, q - 1) * binom(m, (k - 1) - (q - 1)) + conv_sum(r, m, k - 1, q));
        assert(binom(m, (k - 1) - (q - 1)) == binom(m, k - q));
    }
}

/// Vandermonde's identity: the full sum counts all `k`-subsets.
pub proof fn lemma_vandermonde(r: int, m: int, k: int)
    requires
        r >= 0,
        m >= 0,
    ensures
        conv_sum(r, m, k, 0) == binom(r + m, k),
    decreases r,
{
    if k < 0 {
        assert(conv_sum(r, m, k, 0) == 0);
        assert(binom(r + m, k) == 0);
    } else if r == 0 {
        assert(conv_sum(0, m, k, 0)
            == binom(0, 0) * binom(m, k) + conv_sum(0, m, k, 1));
        if k >= 1 {
            lemma_conv_zero_r(m, k, 1);
        } else {
            assert(conv_sum(0, m, k, 1) == 0);
        }
        assert(binom(0, 0) == 1);
    } else {
        lemma_conv_pascal(r - 1, m, k, 0);
        lemma_conv_neg_start(r - 1, m, k - 1, -1);
        lemma_vandermonde(r - 1, m, k);
        lemma_vandermonde(r - 1, m, k - 1);
        lemma_pascal(r + m, k);
    }
}

/// With only malicious candidates (`m = 0`), the tail below `k` is the
/// single term `C(r, k)`.
pub proof fn lemma_conv_all_malicious(r: int, k: int, q: int)
    requires
        0 <= q <= k,
    ensures
        conv_sum(r, 0, k, q) == binom(r, k),
    decreases k - q + 1,
{
    if q == k {
        assert(binom(0, 0) == 1);
        assert(conv_sum(r, 0, k, k + 1) == 0);
        assert(binom(r, k) * 1 == binom(r, k)) by (nonlinear_arith);
    } else {
        assert(binom(0, k - q) == 0);
        assert(binom(r, q) * binom(0, k - q) == 0) by (nonlinear_arith)
            requires binom(0, k - q) == 0;
        lemma_conv_all_malicious(r, k, q + 1);
    }
}

/// C(n, 0) is one for every nonnegative `n`.
pub proof fn lemma_binom_zero_k(n: int)
    requires
        n >= 0,
    ensures
        binom(n, 0) == 1,
    decreases n,
{
    if n > 0 {
        lemma_binom_zero_k(n - 1);
        assert(binom(n - 1, -1) == 0);
        assert(binom(n, 0) == binom(n - 1, -1) + binom(n - 1, 0)) by {
            lemma_pascal(n, 0);
        }
    } else {
        assert(binom(0, 0) == 1);
    }
}

/// The tail sum never exceeds the total number of `k`-subsets: every
/// probability the model returns lies in the unit interval.
pub proof fn lemma_prob_at_most_one(r: int, m: int, k: int, q: int)
    requires
        r >= 0,
        m >= 0,
        q >= 0,
    ensures
        conv_sum(r, m, k, q) <= binom(r + m, k),
{
    lemma_conv_mono_q(r, m, k, 0, q);
    lemma_vandermonde(r, m, k);
}

/// Mass partition: with quorum zero the tail is the whole distribution,
/// so the probability is exactly one.
pub proof fn lemma_mass_partition(n: int, r: int, k: int)
    requires
        0 <= r <= n,
    ensures
        conv_sum(r, n - r, k, 0) == binom(n, k),
{
    lemma_vandermonde(r, n - r, k);
}

/// Beyond the group size the tail is empty: a quorum larger than the
/// group can never be reached.
pub proof fn lemma_prob_beyond_k(r: int, m: int, k: int, q: int)
    requires
        q > k,
    ensures
        conv_sum(r, m, k, q) == 0,
{
}

/// When every node is malicious the probability is one: the tail equals
/// the full count of `k`-subsets.
pub proof fn lemma_all_malicious_certain(n: int, k: int, q: int)
    requires
        0 <= q <= k <= n,
    ensures
        conv_sum(n, 0, k, q) == binom(n, k),
{
    lemma_conv_all_malicious(n, k, q);
}

/// An exact probability (or scaled expectation) `num / den`.
#[derive(Clone, Copy, Debug, PartialEq, Eq, Structural)]
pub struct Prob {
    pub num: u128,
    pub den: u128,
}

impl Prob {
    /// Well-formed: the denominator is positive.
    pub open spec fn wf(self) -> bool {
        self.den >= 1
    }

    /// The value is at most one.
    pub open spec fn at_most_one(self) -> bool {
        self.num <= self.den
    }

    /// Whether the value lies in the unit interval.
    pub fn in_unit(self) -> (r: bool)
        ensures
            r == self.at_most_one(),
    {
        self.num <= self.den
    }
}

/// Why the model rejects an input.
#[derive(Clone, Copy, Debug, PartialEq, Eq, Structural)]
pub enum ProbError {
    /// The combination of `n`, `r`, `k`, `q` describes no valid drawing.
    InvalidInput,
    /// A binomial coefficient needed for the answer exceeds 128 bits.
    Overflow,
}

/// The row `C(n, 0..=k)` of Pascal's triangle, or `None` as soon as an
/// entry of an intermediate row overflows 128 bits.
pub fn binom_row(n: NN, k: NN) -> (res: Option<Vec<u128>>)
    requires
        k < 0xffff_ffff,
    ensures
        match res {
            Some(v) => {
                &&& v@.len() == k + 1
                &&& forall|j: int|
                    0 <= j <= k ==> v@[j] == binom(n as int, j) && binom(n as int, j)
                        <= u128::MAX
            },
            None => exists|j: int| 0 <= j <= k && binom(n as int, j) > u128::MAX,
        },
{
    let kk: usize = k as usize;
    let mut row: Vec<u128> = Vec::new();
    row.push(1);
    while row.len() <= kk
        invariant
            1 <= row@.len() <= kk + 1,
            kk == k,
            forall|t: int|
                0 <= t < row@.len() ==> row@[t] == binom(0, t) && binom(0, t) <= u128::MAX,
        decreases kk + 1 - row@.len(),
    {
        row.push(0);
    }
    let mut done: u64 = 0;
    while done < n
        invariant
            0 <= done <= n,
            kk == k,
            kk < 0xffff_ffff,
            row@.len() == k + 1,
            forall|t: int|
                0 <= t <= k ==> row@[t] == binom(done as int, t) && binom(done as int, t)
                    <= u128::MAX,
        decreases n - done,
    {
        let mut next: Vec<u128> = Vec::new();
        next.push(1);
        proof {
            lemma_binom_zero_k(done + 1);
        }
        let mut j: usize = 1;
        while j <= kk
            invariant
                1 <= j <= kk + 1,
                kk == k,
                kk < 0xffff_ffff,
                done < n,
                next@.len() == j,
                row@.len() == k + 1,
                forall|t: int|
                    0 <= t <= k ==> row@[t] == binom(done as int, t) && binom(done as int, t)
                        <= u128::MAX,
                forall|t: int|
                    0 <= t < j ==> next@[t] == binom(done + 1, t) && binom(done + 1, t)
                        <= u128::MAX,
            decreases kk + 1 - j,
        {
            proof {
                lemma_pascal(done + 1, j as int);
            }
            match row[j - 1].checked_add(row[j]) {
                Some(v) => {
                    next.push(v);
                }
                None => {
                    proof {
                        lemma_binom_mono_first(done + 1, n as int, j as int);
                        assert(binom(n as int, j as int) > u128::MAX);
                    }
                    return None;
                }
            }
            j = j + 1;
        }
        row = next;
        done = done + 1;
    }
    Some(row)
}

/// Probability that a uniformly random size-`k` subset of `n` nodes,
/// `r` of them malicious, contains at least `q` malicious members.
///
/// The answer is the exact rational
/// `conv_sum(r, n - r, k, q) / binom(n, k)`, the upper tail of the
/// hypergeometric distribution.  A quorum of zero is always met and a
/// quorum above the group size never is, whatever the other arguments;
/// beyond those boundary cases a group larger than the network or more
/// malicious nodes than the network holds are invalid, and inputs whose
/// binomial coefficients exceed 128 bits are reported as overflow.
pub fn probability_quorum_compromised(n: NN, r: NN, k: NN, q: NN) -> (res: Result<
    Prob,
    ProbError,
>)
    requires
        k < 0xffff_ffff,
    ensures
        match res {
            Ok(p) => {
                &&& p.wf()
                &&& p.at_most_one()
                &&& if q == 0 {
                    p == (Prob { num: 1u128, den: 1u128 })
                } else if q > k {
                    p == (Prob { num: 0u128, den: 1u128 })
                } else {
                    p.num == conv_sum(r as int, n - r, k as int, q as int) && p.den == binom(
                        n as int,
                        k as int,
                    )
                }
            },
            Err(e) => true,
        },
        (res == Err::<Prob, ProbError>(ProbError::InvalidInput)) <==> (1 <= q <= k && (k > n || r
            > n)),
        (res == Err::<Prob, ProbError>(ProbError::Overflow)) <==> (1 <= q <= k && k <= n && r <= n
            && exists|j: int| 0 <= j <= k && binom(n as int, j) > u128::MAX),
{
    if q == 0 {
        return Ok(Prob { num: 1, den: 1 });
    }
    if q > k {
        return Ok(Prob { num: 0, den: 1 });
    }
    if k > n || r > n {
        return Err(ProbError::InvalidInput);
    }
    let row_n = match binom_row(n, k) {
        Some(v) => v,
        None => {
            return Err(ProbError::Overflow);
        },
    };
    let m: u64 = n - r;
    let row_r = match binom_row(r, k) {
        Some(v) => v,
        None => {
            proof {
                let j = choose|j: int| 0 <= j <= k && binom(r as int, j) > u128::MAX;
                lemma_binom_mono_first(r as int, n as int, j);
                assert(row_n@[j] == binom(n as int, j));
                assert(false);
            }
            return Err(ProbError::Overflow);
        },
    };
    let row_m = match binom_row(m, k) {
        Some(v) => v,
        None => {
            proof {
                let j = choose|j: int| 0 <= j <= k && binom(m as int, j) > u128::MAX;
                lemma_binom_mono_first(m as int, n as int, j);
                assert(row_n@[j] == binom(n as int, j));
                assert(false);
            }
            return Err(ProbError::Overflow);
        },
    };
    let ghost ri = r as int;
    let ghost mi = m as int;
    let ghost ki = k as int;
    let ghost qi = q as int;
    proof {
        lemma_vandermonde(ri, mi, ki);
        assert(conv_sum(ri, mi, ki, 0) == binom(n as int, ki));
        assert(row_n@[ki] == binom(n as int, ki));
        lemma_conv_mono_q(ri, mi, ki, 0, qi);
        lemma_conv_nonneg(ri, mi, ki, qi);
    }
    let den: u128 = row_n[k as usize];
    proof {
        lemma_binom_pos(n as int, ki);
    }
    let mut acc: u128 = 0;
    let mut i: u64 = q;
    while i <= k
        invariant
            q <= i <= k + 1,
            k < 0xffff_ffff,
            q >= 1,
            r <= n,
            m == n - r,
            ri == r as int,
            mi == m as int,
            ki == k as int,
            qi == q as int,
            row_r@.len() == k + 1,
            forall|j: int| 0 <= j <= k ==> row_r@[j] == binom(ri, j),
            row_m@.len() == k + 1,
            forall|j: int| 0 <= j <= k ==> row_m@[j] == binom(mi, j),
            conv_sum(ri, mi, ki, 0) == binom(n as int, ki),
            binom(n as int, ki) <= u128::MAX,
            acc == conv_sum(ri, mi, ki, qi) - conv_sum(ri, mi, ki, i as int),
        decreases k + 1 - i,
    {
        proof {
            lemma_conv_mono_q(ri, mi, ki, 0, qi);
            lemma_conv_mono_q(ri, mi, ki, qi, i as int);
            lemma_conv_mono_q(ri, mi, ki, i as int, i + 1);
            lemma_conv_nonneg(ri, mi, ki, i + 1);
            assert(conv_sum(ri, mi, ki, i as int) == binom(ri, i as int) * binom(
                mi,
                ki - i,
            ) + conv_sum(ri, mi, ki, i + 1));
        }
        let a: u128 = row_r[i as usize];
        let b: u128 = row_m[(k - i) as usize];
        let term: u128 = match a.checked_mul(b) {
            Some(t) => t,
            None => {
                proof {
                    assert(false);
                }
                return Err(ProbError::Overflow);
            },
        };
        acc = match acc.checked_add(term) {
            Some(s) => s,
            None => {
                proof {
                    assert(false);
                }
                return Err(ProbError::Overflow);
            },
        };
        i = i + 1;
    }
    proof {
        assert(conv_sum(ri, mi, ki, ki + 1) == 0);
        lemma_conv_mono_q(ri, mi, ki, 0, qi);
    }
    Ok(Prob { num: acc, den })
}

/// The "any group" reporting mode: the single-group probability scaled by
/// `n / k`, an (approximate) expected number of compromised groups in the
/// whole network.  Exact rational scaling; overflow past 128 bits is
/// rejected.
pub fn expected_compromised_groups(p: Prob, n: NN, k: NN) -> (res: Result<Prob, ProbError>)
    requires
        p.wf(),
        k >= 1,
    ensures
        match res {
            Ok(s) => s.wf() && s.num == p.num * n && s.den == p.den * k,
            Err(e) => e == ProbError::Overflow && (p.num * n > u128::MAX || p.den * k
                > u128::MAX),
        },
{
    let num = match p.num.checked_mul(n as u128) {
        Some(v) => v,
        None => {
            return Err(ProbError::Overflow);
        },
    };
    let den = match p.den.checked_mul(k as u128) {
        Some(v) => v,
        None => {
            return Err(ProbError::Overflow);
        },
    };
    proof {
        assert(p.den * k >= 1) by (nonlinear_arith)
            requires p.den >= 1, k >= 1;
    }
    Ok(Prob { num, den })
}

} // verus!
