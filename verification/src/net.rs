//! Mutable population of nodes partitioned into groups, with join, leave
//! and rebalancing.
//!
//! A group's size is kept at or below twice the configured minimum: a join
//! that pushes a group past that bound splits it in two, and a group that
//! falls below the minimum is merged into a neighbour.  A merge that would
//! itself exceed the bound is deferred and reported as a disruption.  Group
//! order within the partition carries no meaning.

use vstd::prelude::*;
use crate::NN;
use crate::ratio::Ratio;
use crate::rng::rand_below;

verus! {

/// One network member: only its malice flag and its age (in steps) matter.
#[derive(Clone, Copy, Debug, PartialEq, Eq, Structural)]
pub struct Node {
    pub is_malicious: bool,
    pub age: NN,
}

/// A disjoint partition unit of the population.
#[derive(Debug)]
pub struct Group {
    pub members: Vec<Node>,
}

/// Number of malicious nodes in a member sequence.
pub open spec fn mal_count(s: Seq<Node>) -> int
    decreases s.len(),
{
    if s.len() == 0 {
        0
    } else {
        mal_count(s.drop_last()) + if s.last().is_malicious {
            1int
        } else {
            0int
        }
    }
}

/// Total age of a member sequence.
pub open spec fn age_total(s: Seq<Node>) -> int
    decreases s.len(),
{
    if s.len() == 0 {
        0
    } else {
        age_total(s.drop_last()) + s.last().age
    }
}

/// Total age of the malicious members of a sequence.
pub open spec fn age_mal(s: Seq<Node>) -> int
    decreases s.len(),
{
    if s.len() == 0 {
        0
    } else {
        age_mal(s.drop_last()) + if s.last().is_malicious {
            s.last().age as int
        } else {
            0int
        }
    }
}

/// The malicious count lies between zero and the length; the age sums are
/// nonnegative and the malicious share never exceeds the total.
pub proof fn lemma_counts_bounds(s: Seq<Node>)
    ensures
        0 <= mal_count(s) <= s.len(),
        0 <= age_mal(s) <= age_total(s),
    decreases s.len(),
{
    if s.len() > 0 {
        lemma_counts_bounds(s.drop_last());
    }
}

/// Appending one node shifts each count by that node's contribution.
pub proof fn lemma_counts_push(s: Seq<Node>, x: Node)
    ensures
        mal_count(s.push(x)) == mal_count(s) + if x.is_malicious {
            1int
        } else {
            0int
        },
        age_total(s.push(x)) == age_total(s) + x.age,
        age_mal(s.push(x)) == age_mal(s) + if x.is_malicious {
            x.age as int
        } else {
            0int
        },
{
    assert(s.push(x).drop_last() =~= s);
    assert(s.push(x).last() == x);
}

/// Extending a prefix by one element shifts each count by that element's
/// contribution.
pub proof fn lemma_counts_take_step(s: Seq<Node>, i: int)
    requires
        0 <= i < s.len(),
    ensures
        mal_count(s.take(i + 1)) == mal_count(s.take(i)) + if s[i].is_malicious {
            1int
        } else {
            0int
        },
        age_total(s.take(i + 1)) == age_total(s.take(i)) + s[i].age,
        age_mal(s.take(i + 1)) == age_mal(s.take(i)) + if s[i].is_malicious {
            s[i].age as int
        } else {
            0int
        },
{
    assert(s.take(i + 1) =~= s.take(i).push(s[i]));
    lemma_counts_push(s.take(i), s[i]);
}

/// Total node count of a partition.
pub open spec fn net_count(gs: Seq<Group>) -> int
    decreases gs.len(),
{
    if gs.len() == 0 {
        0
    } else {
        net_count(gs.drop_last()) + gs.last().members@.len()
    }
}

/// Total malicious count of a partition.
pub open spec fn net_mal(gs: Seq<Group>) -> int
    decreases gs.len(),
{
    if gs.len() == 0 {
        0
    } else {
        net_mal(gs.drop_last()) + mal_count(gs.last().members@)
    }
}

/// Both partition sums are nonnegative.
pub proof fn lemma_net_nonneg(gs: Seq<Group>)
    ensures
        net_count(gs) >= 0,
        net_mal(gs) >= 0,
    decreases gs.len(),
{
    if gs.len() > 0 {
        lemma_net_nonneg(gs.drop_last());
        lemma_counts_bounds(gs.last().members@);
    }
}

/// Appending a group adds its counts.
pub proof fn lemma_net_push(gs: Seq<Group>, g: Group)
    ensures
        net_count(gs.push(g)) == net_count(gs) + g.members@.len(),
        net_mal(gs.push(g)) == net_mal(gs) + mal_count(g.members@),
{
    assert(gs.push(g).drop_last() =~= gs);
    assert(gs.push(g).last() == g);
}

/// Removing a group subtracts its counts.
pub proof fn lemma_net_remove(gs: Seq<Group>, i: int)
    requires
        0 <= i < gs.len(),
    ensures
        net_count(gs.remove(i)) == net_count(gs) - gs[i].members@.len(),
        net_mal(gs.remove(i)) == net_mal(gs) - mal_count(gs[i].members@),
    decreases gs.len(),
{
    if i == gs.len() - 1 {
        assert(gs.remove(i) =~= gs.drop_last());
    } else {
        assert(gs.remove(i).drop_last() =~= gs.drop_last().remove(i));
        assert(gs.remove(i).last() == gs.last());
        lemma_net_remove(gs.drop_last(), i);
        assert(gs.drop_last()[i] == gs[i]);
    }
}

/// Extending a prefix of the partition by one group adds its counts.
pub proof fn lemma_net_take_step(gs: Seq<Group>, i: int)
    requires
        0 <= i < gs.len(),
    ensures
        net_count(gs.take(i + 1)) == net_count(gs.take(i)) + gs[i].members@.len(),
        net_mal(gs.take(i + 1)) == net_mal(gs.take(i)) + mal_count(gs[i].members@),
{
    assert(gs.take(i + 1) =~= gs.take(i).push(gs[i]));
    lemma_net_push(gs.take(i), gs[i]);
}

/// A prefix of the partition counts no more than the whole.
pub proof fn lemma_net_take_le(gs: Seq<Group>, i: int)
    requires
        0 <= i <= gs.len(),
    ensures
        net_count(gs.take(i)) <= net_count(gs),
        net_mal(gs.take(i)) <= net_mal(gs),
    decreases gs.len() - i,
{
    if i == gs.len() {
        assert(gs.take(i) =~= gs);
    } else {
        lemma_net_take_le(gs, i + 1);
        lemma_net_take_step(gs, i);
        lemma_counts_bounds(gs[i].members@);
    }
}

/// No single group holds more malicious nodes than the whole partition.
pub proof fn lemma_net_mal_group_le(gs: Seq<Group>, i: int)
    requires
        0 <= i < gs.len(),
    ensures
        mal_count(gs[i].members@) <= net_mal(gs),
    decreases gs.len(),
{
    if i == gs.len() - 1 {
        lemma_net_nonneg(gs.drop_last());
    } else {
        lemma_net_mal_group_le(gs.drop_last(), i);
        assert(gs.drop_last()[i] == gs[i]);
        lemma_counts_bounds(gs.last().members@);
    }
}

/// A partition with a malicious node has a group holding one.
pub proof fn lemma_net_mal_witness(gs: Seq<Group>)
    requires
        net_mal(gs) >= 1,
    ensures
        exists|i: int| 0 <= i < gs.len() && mal_count(gs[i].members@) >= 1,
    decreases gs.len(),
{
    if gs.len() > 0 {
        lemma_counts_bounds(gs.last().members@);
        if mal_count(gs.last().members@) >= 1 {
            assert(mal_count(gs[gs.len() - 1].members@) >= 1);
        } else {
            lemma_net_mal_witness(gs.drop_last());
            let i = choose|i: int|
                0 <= i < gs.drop_last().len() && mal_count(gs.drop_last()[i].members@) >= 1;
            assert(gs[i] == gs.drop_last()[i]);
            assert(mal_count(gs[i].members@) >= 1);
        }
    }
}

/// The placement policy's choice: the index of the first group of
/// minimal size.
pub open spec fn first_min_index(gs: Seq<Group>) -> int
    decreases gs.len(),
{
    if gs.len() <= 1 {
        0
    } else {
        let rest = first_min_index(gs.drop_last());
        if gs.last().members@.len() < gs[rest].members@.len() {
            gs.len() - 1
        } else {
            rest
        }
    }
}

/// The node population, partitioned into groups.
#[derive(Debug)]
pub struct NetworkState {
    pub groups: Vec<Group>,
    pub min_group_size: NN,
}

impl NetworkState {
    /// Groups are split once they grow past twice the minimum size.
    pub open spec fn max_group_size(self) -> int {
        2 * self.min_group_size
    }

    /// Well-formed: a positive minimum size, at least one group, and no
    /// group above the maximum size.
    pub open spec fn wf(self) -> bool {
        &&& self.min_group_size >= 1
        &&& self.groups@.len() >= 1
        &&& forall|i: int|
            0 <= i < self.groups@.len() ==> self.groups@[i].members@.len()
                <= self.max_group_size()
    }

    /// Total population.
    pub open spec fn total(self) -> int {
        net_count(self.groups@)
    }

    /// Total malicious population.
    pub open spec fn malicious(self) -> int {
        net_mal(self.groups@)
    }

    /// A fresh network: one empty group.
    pub fn new(min_group_size: NN) -> (s: NetworkState)
        requires
            min_group_size >= 1,
        ensures
            s.wf(),
            s.min_group_size == min_group_size,
            s.total() == 0,
            s.malicious() == 0,
    {
        let mut groups: Vec<Group> = Vec::new();
        groups.push(Group { members: Vec::new() });
        proof {
            assert(groups@.drop_last() =~= Seq::<Group>::empty());
            assert(net_count(Seq::<Group>::empty()) == 0);
            assert(net_mal(Seq::<Group>::empty()) == 0);
            assert(mal_count(groups@.last().members@) == 0);
        }
        NetworkState { groups, min_group_size }
    }

    /// Read-only view of the partition, for compromise evaluation.
    pub fn group_snapshot(&self) -> (r: &Vec<Group>)
        ensures
            r@ == self.groups@,
    {
        &self.groups
    }

    /// The placement policy: the first group of minimal size.
    pub fn join_target(&self) -> (idx: usize)
        requires
            self.wf(),
        ensures
            idx < self.groups@.len(),
            idx == first_min_index(self.groups@),
            forall|j: int|
                0 <= j < self.groups@.len() ==> self.groups@[idx as int].members@.len()
                    <= self.groups@[j].members@.len(),
    {
        let mut best: usize = 0;
        let mut i: usize = 1;
        proof {
            assert(best == first_min_index(self.groups@.take(1)));
        }
        while i < self.groups.len()
            invariant
                self.groups@.len() >= 1,
                best < i,
                i <= self.groups@.len(),
                best == first_min_index(self.groups@.take(i as int)),
                forall|j: int|
                    0 <= j < i ==> self.groups@[best as int].members@.len()
                        <= self.groups@[j].members@.len(),
            decreases self.groups@.len() - i,
        {
            proof {
                assert(self.groups@.take(i + 1).drop_last() =~= self.groups@.take(i as int));
                assert(self.groups@.take(i + 1).last() == self.groups@[i as int]);
            }
            if self.groups[i].members.len() < self.groups[best].members.len() {
                best = i;
            }
            i = i + 1;
        }
        proof {
            assert(self.groups@.take(self.groups@.len() as int) =~= self.groups@);
        }
        best
    }

    /// A node joins: it is placed in the first smallest group, and the
    /// group is split in two if it then exceeds the maximum size.
    ///
    /// The last ensures pins the placement: only the first group of
    /// minimal size changes.  It moves to the end of the partition with
    /// the new member appended; if it then exceeds twice the minimum
    /// size it is divided instead into its first half and, as a fresh
    /// group, its remaining members in reverse order.
    pub fn join(&mut self, is_malicious: bool)
        requires
            old(self).wf(),
        ensures
            final(self).wf(),
            final(self).min_group_size == old(self).min_group_size,
            final(self).total() == old(self).total() + 1,
            final(self).malicious() == old(self).malicious() + if is_malicious {
                1int
            } else {
                0int
            },
            ({
                let gs_old = old(self).groups@;
                let gs_new = final(self).groups@;
                let i = first_min_index(gs_old);
                let grown = gs_old[i].members@.push(Node { is_malicious, age: 0 });
                let rest = gs_old.remove(i);
                if grown.len() <= 2 * old(self).min_group_size {
                    &&& gs_new.len() == gs_old.len()
                    &&& gs_new.take(gs_old.len() - 1) == rest
                    &&& gs_new[gs_old.len() - 1].members@ == grown
                } else {
                    &&& gs_new.len() == gs_old.len() + 1
                    &&& gs_new.take(gs_old.len() - 1) == rest
                    &&& gs_new[gs_old.len() - 1].members@ == grown.take(grown.len() as int / 2)
                    &&& gs_new[gs_old.len() as int].members@.len() == grown.len() - grown.len()
                        as int / 2
                    &&& forall|t: int|
                        0 <= t < gs_new[gs_old.len() as int].members@.len()
                            ==> gs_new[gs_old.len() as int].members@[t] == grown[grown.len() - 1
                            - t]
                }
            }),
    {
        let idx = self.join_target();
        let ghost gs0 = self.groups@;
        let mut g = self.groups.remove(idx);
        proof {
            lemma_net_remove(gs0, idx as int);
        }
        let ghost m0 = g.members@;
        g.members.push(Node { is_malicious, age: 0 });
        proof {
            lemma_counts_push(m0, Node { is_malicious, age: 0 });
        }
        let too_big: bool = (g.members.len() as u128) > 2 * (self.min_group_size as u128);
        if too_big {
            let target: usize = g.members.len() / 2;
            let mut moved: Vec<Node> = Vec::new();
            let ghost split0 = g.members@;
            while g.members.len() > target
                invariant
                    target <= g.members@.len(),
                    g.members@.len() + moved@.len() == split0.len(),
                    mal_count(g.members@) + mal_count(moved@) == mal_count(split0),
                    g.members@ == split0.take(g.members@.len() as int),
                    forall|t: int|
                        0 <= t < moved@.len() ==> moved@[t] == split0[split0.len() - 1 - t],
                decreases g.members@.len(),
            {
                let ghost before = g.members@;
                if let Some(node) = g.members.pop() {
                    proof {
                        assert(before.drop_last() =~= g.members@);
                        assert(split0.take(before.len() as int).drop_last() =~= split0.take(
                            before.len() - 1,
                        ));
                        lemma_counts_push(moved@, node);
                    }
                    moved.push(node);
                }
            }
            let ghost gs1 = self.groups@;
            let ghost gsnap = g;
            self.groups.push(g);
            proof {
                lemma_net_push(gs1, gsnap);
            }
            let ghost gs2 = self.groups@;
            let new_group = Group { members: moved };
            let ghost nsnap = new_group;
            self.groups.push(new_group);
            proof {
                lemma_net_push(gs2, nsnap);
                assert(self.groups@.take(gs0.len() - 1) =~= gs0.remove(idx as int));
            }
        } else {
            let ghost gs1 = self.groups@;
            let ghost gsnap = g;
            self.groups.push(g);
            proof {
                lemma_net_push(gs1, gsnap);
                assert(self.groups@.take(gs0.len() - 1) =~= gs0.remove(idx as int));
            }
        }
    }

    /// One churn step of departures: each good node leaves independently
    /// with probability `p_leave`; malicious nodes never leave.  Groups
    /// under the minimum size merge with a neighbour; a merge that would
    /// exceed the maximum size is deferred and reported as a disruption.
    ///
    /// Returns the disruption flag and the remaining population.
    pub fn leave(&mut self, p_leave: Ratio, rng: &mut rand::rngs::StdRng) -> (r: (bool, u64))
        requires
            old(self).wf(),
            p_leave.wf(),
            old(self).total() <= u64::MAX,
        ensures
            final(self).wf(),
            final(self).min_group_size == old(self).min_group_size,
            final(self).malicious() == old(self).malicious(),
            final(self).total() <= old(self).total(),
            r.1 == final(self).total(),
            p_leave.num >= p_leave.den ==> final(self).total() == old(self).malicious(),
            p_leave.num == 0 ==> final(self).total() == old(self).total(),
            (p_leave.num == 0 && (forall|t: int|
                0 <= t < old(self).groups@.len() ==> old(self).groups@[t].members@.len()
                    >= old(self).min_group_size)) ==> !r.0,
    {
        let ghost gs0 = self.groups@;
        let n_groups = self.groups.len();
        let mut new_groups: Vec<Group> = Vec::new();
        let mut total_kept: u64 = 0;
        let mut gi: usize = 0;
        while gi < n_groups
            invariant
                gi <= n_groups,
                n_groups == gs0.len(),
                self.groups@ == gs0,
                old(self).wf(),
                gs0 == old(self).groups@,
                p_leave.wf(),
                new_groups@.len() == gi,
                net_mal(new_groups@) == net_mal(gs0.take(gi as int)),
                net_count(new_groups@) <= net_count(gs0.take(gi as int)),
                total_kept == net_count(new_groups@),
                net_count(gs0) <= u64::MAX,
                forall|t: int|
                    0 <= t < new_groups@.len() ==> new_groups@[t].members@.len() <= 2
                        * old(self).min_group_size,
                p_leave.num >= p_leave.den ==> net_count(new_groups@) == net_mal(
                    gs0.take(gi as int),
                ),
                p_leave.num == 0 ==> net_count(new_groups@) == net_count(gs0.take(gi as int)),
                p_leave.num == 0 ==> forall|t: int|
                    0 <= t < new_groups@.len() ==> new_groups@[t].members@.len()
                        == gs0[t].members@.len(),
            decreases n_groups - gi,
        {
            let members_len = self.groups[gi].members.len();
            let mut kept: Vec<Node> = Vec::new();
            let mut ni: usize = 0;
            while ni < members_len
                invariant
                    ni <= members_len,
                    gi < gs0.len(),
                    self.groups@ == gs0,
                    members_len == gs0[gi as int].members@.len(),
                    p_leave.wf(),
                    kept@.len() <= ni,
                    mal_count(kept@) == mal_count(gs0[gi as int].members@.take(ni as int)),
                    p_leave.num >= p_leave.den ==> kept@.len() == mal_count(
                        gs0[gi as int].members@.take(ni as int),
                    ),
                    p_leave.num == 0 ==> kept@.len() == ni,
                decreases members_len - ni,
            {
                let node = self.groups[gi].members[ni];
                proof {
                    lemma_counts_take_step(gs0[gi as int].members@, ni as int);
                }
                if node.is_malicious {
                    proof {
                        lemma_counts_push(kept@, node);
                    }
                    kept.push(node);
                } else {
                    let d = rand_below(rng, p_leave.den);
                    if d >= p_leave.num {
                        proof {
                            lemma_counts_push(kept@, node);
                        }
                        kept.push(node);
                    }
                }
                ni = ni + 1;
            }
            proof {
                assert(gs0[gi as int].members@.take(members_len as int) =~= gs0[gi as int].members@);
                lemma_net_take_step(gs0, gi as int);
                lemma_net_take_le(gs0, gi + 1);
                lemma_net_nonneg(new_groups@);
            }
            let kept_len = kept.len();
            let group = Group { members: kept };
            let ghost gsnap = group;
            let ghost ng0 = new_groups@;
            new_groups.push(group);
            proof {
                lemma_net_push(ng0, gsnap);
                lemma_counts_bounds(gsnap.members@);
            }
            total_kept = total_kept + (kept_len as u64);
            gi = gi + 1;
        }
        proof {
            assert(gs0.take(n_groups as int) =~= gs0);
        }
        self.groups = new_groups;
        let ghost all_big = p_leave.num == 0 && (forall|t: int|
            0 <= t < gs0.len() ==> gs0[t].members@.len() >= old(self).min_group_size);
        proof {
            if all_big {
                assert forall|t: int|
                    0 <= t < self.groups@.len() implies self.groups@[t].members@.len()
                    >= self.min_group_size by {
                    assert(self.groups@[t].members@.len() == gs0[t].members@.len());
                    assert(gs0[t].members@.len() >= old(self).min_group_size);
                }
            }
        }

        // Rebalancing: merge undersized groups into a neighbour where the
        // bound allows, otherwise defer and flag the disruption.
        let mut disrupted: bool = false;
        let mut i: usize = 0;
        while i < self.groups.len()
            invariant
                i <= self.groups@.len(),
                self.groups@.len() >= 1,
                self.min_group_size == old(self).min_group_size,
                self.min_group_size >= 1,
                net_mal(self.groups@) == net_mal(gs0),
                net_count(self.groups@) == total_kept,
                forall|t: int|
                    0 <= t < self.groups@.len() ==> self.groups@[t].members@.len() <= 2
                        * self.min_group_size,
                all_big ==> (!disrupted && (forall|t: int|
                    0 <= t < self.groups@.len() ==> self.groups@[t].members@.len()
                        >= self.min_group_size)),
            decreases self.groups@.len() - i,
        {
            let is_small = (self.groups[i].members.len() as u64) < self.min_group_size;
            if is_small && self.groups.len() >= 2 {
                let j: usize = if i + 1 < self.groups.len() {
                    i + 1
                } else {
                    i - 1
                };
                let li = self.groups[i].members.len();
                let lj = self.groups[j].members.len();
                if (li as u128) + (lj as u128) <= 2 * (self.min_group_size as u128) {
                    let a: usize = if i < j { i } else { j };
                    let b: usize = if i < j { j } else { i };
                    let ghost gs_a = self.groups@;
                    let gb = self.groups.remove(b);
                    proof {
                        lemma_net_remove(gs_a, b as int);
                    }
                    let ghost gs_b = self.groups@;
                    let ga = self.groups.remove(a);
                    proof {
                        lemma_net_remove(gs_b, a as int);
                    }
                    let mut ma = ga.members;
                    let mut mb = gb.members;
                    let ghost merge_len = ma@.len() + mb@.len();
                    let ghost merge_mal = mal_count(ma@) + mal_count(mb@);
                    while mb.len() > 0
                        invariant
                            ma@.len() + mb@.len() == merge_len,
                            mal_count(ma@) + mal_count(mb@) == merge_mal,
                        decreases mb@.len(),
                    {
                        let ghost mb0 = mb@;
                        if let Some(x) = mb.pop() {
                            proof {
                                lemma_counts_push(ma@, x);
                                assert(mb0.drop_last() =~= mb@);
                            }
                            ma.push(x);
                        }
                    }
                    let merged = Group { members: ma };
                    let ghost msnap = merged;
                    let ghost gs_c = self.groups@;
                    self.groups.push(merged);
                    proof {
                        lemma_net_push(gs_c, msnap);
                    }
                } else {
                    disrupted = true;
                    i = i + 1;
                }
            } else {
                i = i + 1;
            }
        }
        (disrupted, total_kept)
    }

    /// One step of ageing: every node grows one step older (saturating).
    /// Membership, counts and group sizes are unchanged.
    pub fn step_ages(&mut self)
        requires
            old(self).wf(),
        ensures
            final(self).wf(),
            final(self).min_group_size == old(self).min_group_size,
            final(self).total() == old(self).total(),
            final(self).malicious() == old(self).malicious(),
    {
        let ghost gs0 = self.groups@;
        let n_groups = self.groups.len();
        let mut new_groups: Vec<Group> = Vec::new();
        let mut gi: usize = 0;
        while gi < n_groups
            invariant
                gi <= n_groups,
                n_groups == gs0.len(),
                self.groups@ == gs0,
                old(self).wf(),
                gs0 == old(self).groups@,
                new_groups@.len() == gi,
                net_mal(new_groups@) == net_mal(gs0.take(gi as int)),
                net_count(new_groups@) == net_count(gs0.take(gi as int)),
                forall|t: int|
                    0 <= t < new_groups@.len() ==> new_groups@[t].members@.len() <= 2
                        * old(self).min_group_size,
            decreases n_groups - gi,
        {
            let members_len = self.groups[gi].members.len();
            let mut kept: Vec<Node> = Vec::new();
            let mut ni: usize = 0;
            while ni < members_len
                invariant
                    ni <= members_len,
                    gi < gs0.len(),
                    self.groups@ == gs0,
                    members_len == gs0[gi as int].members@.len(),
                    kept@.len() == ni,
                    mal_count(kept@) == mal_count(gs0[gi as int].members@.take(ni as int)),
                decreases members_len - ni,
            {
                let node = self.groups[gi].members[ni];
                let new_age: u64 = if node.age < 0xffff_ffff_ffff_ffff {
                    node.age + 1
                } else {
                    node.age
                };
                let aged = Node { is_malicious: node.is_malicious, age: new_age };
                proof {
                    lemma_counts_take_step(gs0[gi as int].members@, ni as int);
                    lemma_counts_push(kept@, aged);
                }
                kept.push(aged);
                ni = ni + 1;
            }
            proof {
                assert(gs0[gi as int].members@.take(members_len as int) =~= gs0[gi as int].members@);
                lemma_net_take_step(gs0, gi as int);
            }
            let group = Group { members: kept };
            let ghost gsnap = group;
            let ghost ng0 = new_groups@;
            new_groups.push(group);
            proof {
                lemma_net_push(ng0, gsnap);
            }
            gi = gi + 1;
        }
        proof {
            assert(gs0.take(n_groups as int) =~= gs0);
        }
        self.groups = new_groups;
    }
}

} // verus!
