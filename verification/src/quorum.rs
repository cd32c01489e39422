//! Quorum policies: how many (or which) members of a group must agree,
//! and when a group counts as compromised.
//!
//! The policy set is closed and dispatched by variant.  Two policies give a
//! plain member count; the age-weighted policy does not reduce to a single
//! integer, so `quorum_size` returns `None` for it and compromise is
//! evaluated directly against the group's members.

use vstd::prelude::*;
use crate::NN;
use crate::net::Group;
use crate::net::Node;
use crate::net::age_mal;
use crate::net::age_total;
use crate::net::lemma_counts_bounds;
use crate::net::lemma_counts_take_step;
use crate::net::mal_count;
use crate::ratio::Ratio;

verus! {

/// A quorum policy.
#[derive(Clone, Copy, Debug, PartialEq, Eq, Structural)]
pub enum Quorum {
    /// A fixed member count, whatever the group size.
    Fixed { size: NN },
    /// `ceil(prop * group_size)` members.
    FixedProportion { prop: Ratio },
    /// No single member count applies: a group is compromised when its
    /// malicious members hold at least half of its cumulative age.
    AgeWeighted,
}

impl Quorum {
    /// Well-formed: a proportion is a rational in the unit interval.
    pub open spec fn wf(self) -> bool {
        match self {
            Quorum::FixedProportion { prop } => prop.wf() && prop.at_most_one(),
            _ => true,
        }
    }

    /// The member count this policy requires of a group of `group_size`
    /// nodes, or `None` when no single count applies.
    pub fn quorum_size(&self, group_size: NN) -> (r: Option<NN>)
        requires
            self.wf(),
        ensures
            match *self {
                Quorum::Fixed { size } => r == Some(size),
                Quorum::FixedProportion { prop } => ({
                    let qv = (prop.num * group_size + prop.den - 1) / (prop.den as int);
                    r == Some(qv as NN) && 0 <= qv <= group_size
                }),
                Quorum::AgeWeighted => r is None,
            },
    {
        match self {
            Quorum::Fixed { size } => Some(*size),
            Quorum::FixedProportion { prop } => Some(prop.ceil_mul(group_size)),
            Quorum::AgeWeighted => None,
        }
    }

    /// Overwrite the fixed count.  On the other policies, which derive
    /// their threshold rather than cache one, this is a no-op.
    pub fn set_quorum_size(&mut self, n: NN)
        ensures
            match *old(self) {
                Quorum::Fixed { .. } => *final(self) == (Quorum::Fixed { size: n }),
                _ => *final(self) == *old(self),
            },
    {
        match self {
            Quorum::Fixed { .. } => {
                *self = Quorum::Fixed { size: n };
            },
            _ => {},
        }
    }
}

/// Whether a group falls to the adversary under a policy: its malicious
/// members meet the policy's threshold.  A group without a single
/// malicious member is never compromised.
pub open spec fn group_compromised_spec(s: Seq<Node>, q: Quorum) -> bool {
    mal_count(s) >= 1 && match q {
        Quorum::Fixed { size } => mal_count(s) >= size,
        Quorum::FixedProportion { prop } => mal_count(s) * prop.den >= prop.num * s.len(),
        Quorum::AgeWeighted => 2 * age_mal(s) >= age_total(s),
    }
}

/// Evaluate one group against a policy.
pub fn group_compromised(g: &Group, q: &Quorum) -> (r: bool)
    requires
        q.wf(),
    ensures
        r == group_compromised_spec(g.members@, *q),
{
    let members_len = g.members.len();
    let mut mal: u64 = 0;
    let mut ages: u128 = 0;
    let mut mal_ages: u128 = 0;
    let mut i: usize = 0;
    while i < members_len
        invariant
            i <= members_len,
            members_len == g.members@.len(),
            mal == mal_count(g.members@.take(i as int)),
            ages == age_total(g.members@.take(i as int)),
            mal_ages == age_mal(g.members@.take(i as int)),
            mal <= i,
            ages <= i * 0xffff_ffff_ffff_ffff,
            mal_ages <= ages,
        decreases members_len - i,
    {
        let node = g.members[i];
        proof {
            lemma_counts_take_step(g.members@, i as int);
        }
        if node.is_malicious {
            mal = mal + 1;
            mal_ages = mal_ages + (node.age as u128);
        }
        ages = ages + (node.age as u128);
        i = i + 1;
    }
    proof {
        assert(g.members@.take(members_len as int) =~= g.members@);
    }
    if mal == 0 {
        return false;
    }
    match q {
        Quorum::Fixed { size } => mal >= *size,
        Quorum::FixedProportion { prop } => {
            proof {
                crate::ratio::lemma_u64_mul_fits(mal, prop.den);
                crate::ratio::lemma_u64_mul_fits(prop.num, members_len as u64);
            }
            (mal as u128) * (prop.den as u128) >= (prop.num as u128) * (members_len as u128)
        },
        Quorum::AgeWeighted => mal_ages >= ages - mal_ages,
    }
}

/// Meeting a fixed proportion is the same as meeting the member count
/// that `quorum_size` computes for the group: at least
/// `ceil(prop * len)` malicious members (one of them at minimum).
pub proof fn lemma_proportion_threshold(s: Seq<Node>, prop: Ratio)
    requires
        prop.wf(),
    ensures
        group_compromised_spec(s, Quorum::FixedProportion { prop }) <==> (mal_count(s) >= 1
            && mal_count(s) >= (prop.num * s.len() + prop.den - 1) / (prop.den as int)),
{
    let m = mal_count(s);
    let a = prop.num as int;
    let d = prop.den as int;
    let x = a * s.len();
    lemma_counts_bounds(s);
    assert(a * s.len() >= 0) by (nonlinear_arith)
        requires a >= 0, s.len() >= 0;
    if m * d >= x {
        assert(m >= (x + d - 1) / d) by (nonlinear_arith)
            requires d >= 1, x >= 0, m * d >= x;
    }
    if m >= (x + d - 1) / d {
        assert(m * d >= x) by (nonlinear_arith)
            requires d >= 1, x >= 0, m >= (x + d - 1) / d;
    }
}

/// A unanimous proportion (`prop == 1`) is met exactly when every member
/// of a nonempty group is malicious.
pub proof fn lemma_unanimous_quorum(s: Seq<Node>, prop: Ratio)
    requires
        prop.wf(),
        prop.num == prop.den,
    ensures
        group_compromised_spec(s, Quorum::FixedProportion { prop }) <==> (mal_count(s) == s.len()
            && s.len() >= 1),
{
    lemma_counts_bounds(s);
    if mal_count(s) >= 1 && mal_count(s) * prop.den >= prop.num * s.len() {
        assert(mal_count(s) >= s.len()) by (nonlinear_arith)
            requires
                prop.num == prop.den,
                prop.den >= 1,
                mal_count(s) * prop.den >= prop.num * s.len(),
        ;
    }
    if mal_count(s) == s.len() && s.len() >= 1 {
        assert(mal_count(s) * prop.den >= prop.num * s.len()) by (nonlinear_arith)
            requires
                prop.num == prop.den,
                mal_count(s) == s.len(),
        ;
    }
}

} // verus!
