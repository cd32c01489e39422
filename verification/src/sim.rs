//! Discrete-time churn simulator: a state machine driving join, attack
//! injection, departures and quorum evaluation over a `NetworkState`.
//!
//! A run settles an initial population (Stabilizing), then injects
//! malicious nodes under a join-rate bound while background churn
//! continues (Attacking), and ends on compromise or after `max_steps`
//! (Terminated).  Fractional per-step rates are carried exactly as
//! rationals in token-bucket credits; unused whole-node capacity does not
//! accumulate across steps.  Every run owns its generator, seeded
//! explicitly, so independent runs share no randomness.

use vstd::prelude::*;
use vstd::arithmetic::div_mod::lemma_fundamental_div_mod_converse;
use crate::NN;
use crate::net::NetworkState;
use crate::net::lemma_counts_bounds;
use crate::net::lemma_net_mal_group_le;
use crate::quorum::Quorum;
use crate::quorum::group_compromised;
use crate::quorum::group_compromised_spec;
use crate::ratio::Ratio;
use crate::rng::seed_rng;

verus! {

/// The per-run configuration.
#[derive(Clone, Copy, Debug, PartialEq, Eq, Structural)]
pub struct SimParams {
    /// Good nodes settled before the attack begins.
    pub num_initial: NN,
    /// Malicious nodes the adversary will inject.
    pub num_attacking: NN,
    /// Upper bound on joins, in nodes per step; also the injection rate.
    pub max_join_rate: Ratio,
    /// Background good joins during the attack, in nodes per step.
    pub add_rate_good: Ratio,
    /// Probability that a given good node leaves in a given step.
    pub leave_rate_good: Ratio,
    /// Lower bound on group size; groups split at twice this size.
    pub min_group_size: NN,
    /// Quorum proportion for the default policy.
    pub quorum_prop: Ratio,
    /// Attack steps simulated before the run ends undecided.
    pub max_steps: NN,
}

impl SimParams {
    /// Well-formed: rates are valid rationals, the probabilities lie in
    /// the unit interval, and the join bound strictly exceeds both the
    /// background join rate and the leave rate, so the network can reach
    /// and hold its target size.
    pub open spec fn wf(self) -> bool {
        &&& self.min_group_size >= 1
        &&& self.max_join_rate.wf()
        &&& self.add_rate_good.wf()
        &&& self.leave_rate_good.wf()
        &&& self.leave_rate_good.at_most_one()
        &&& self.quorum_prop.wf()
        &&& self.quorum_prop.at_most_one()
        &&& self.add_rate_good.num * self.max_join_rate.den < self.max_join_rate.num
            * self.add_rate_good.den
        &&& self.leave_rate_good.num * self.max_join_rate.den < self.max_join_rate.num
            * self.leave_rate_good.den
    }

    /// Check a configuration before simulating; an invalid one is a fatal
    /// caller error, not a recoverable condition.
    pub fn validate(&self) -> (r: bool)
        ensures
            r == self.wf(),
    {
        self.min_group_size >= 1 && self.max_join_rate.den >= 1 && self.add_rate_good.den >= 1
            && self.leave_rate_good.den >= 1 && self.leave_rate_good.num
            <= self.leave_rate_good.den && self.quorum_prop.den >= 1 && self.quorum_prop.num
            <= self.quorum_prop.den && self.add_rate_good.lt(self.max_join_rate)
            && self.leave_rate_good.lt(self.max_join_rate)
    }

    /// The default policy: a fixed proportion of each group.
    pub fn default_policy(&self) -> (r: Quorum)
        requires
            self.wf(),
        ensures
            r == (Quorum::FixedProportion { prop: self.quorum_prop }),
            r.wf(),
    {
        Quorum::FixedProportion { prop: self.quorum_prop }
    }

    /// Steps the settling phase is expected to need, rounded up:
    /// `num_initial / (max_join_rate - leave_rate_good)`.  Large values
    /// mean slow convergence; the caller may warn, the run proceeds.
    pub fn stabilization_estimate(&self) -> (r: u128)
        requires
            self.wf(),
        ensures
            ({
                let jn = self.max_join_rate.num as int;
                let jd = self.max_join_rate.den as int;
                let ln = self.leave_rate_good.num as int;
                let ld = self.leave_rate_good.den as int;
                let gap = jn * ld - ln * jd;
                let prod = self.num_initial * jd * ld;
                r == if prod + gap - 1 > u128::MAX {
                    u128::MAX as int
                } else {
                    (prod + gap - 1) / gap
                }
            }),
    {
        proof {
            crate::ratio::lemma_u64_mul_fits(self.max_join_rate.num, self.leave_rate_good.den);
            crate::ratio::lemma_u64_mul_fits(
                self.leave_rate_good.num,
                self.max_join_rate.den,
            );
        }
        let jn = self.max_join_rate.num as u128;
        let jd = self.max_join_rate.den as u128;
        let ln = self.leave_rate_good.num as u128;
        let ld = self.leave_rate_good.den as u128;
        let gap: u128 = jn * ld - ln * jd;
        proof {
            assert(gap >= 1);
        }
        let num: u128 = match (self.num_initial as u128).checked_mul(jd) {
            Some(v) => match v.checked_mul(ld) {
                Some(w) => w,
                None => {
                    proof {
                        assert(v * ld + gap - 1 > u128::MAX) by (nonlinear_arith)
                            requires v * ld > u128::MAX, gap >= 1;
                    }
                    return u128::MAX;
                },
            },
            None => {
                proof {
                    let ni = self.num_initial as int;
                    assert(ni * jd * ld + gap - 1 > u128::MAX) by (nonlinear_arith)
                        requires ni * jd > u128::MAX, ld >= 1, gap >= 1;
                }
                return u128::MAX;
            },
        };
        if num == 0 {
            proof {
                let g = gap as int;
                assert((g - 1) / g == 0) by (nonlinear_arith)
                    requires g >= 1;
            }
            return 0;
        }
        if num > u128::MAX - gap + 1 {
            return u128::MAX;
        }
        (num - 1 + gap) / gap
    }
}

/// What one simulation run reports.
#[derive(Clone, Copy, Debug, PartialEq, Eq, Structural)]
pub struct RunOutcome {
    pub compromised: bool,
    pub disrupted: bool,
}

/// The phases of a run.
#[derive(Clone, Copy, Debug, PartialEq, Eq, Structural)]
pub enum Phase {
    /// Initial population settling before the attack.
    Stabilizing,
    /// Malicious injection active, background churn continues.
    Attacking,
    /// Compromise detected or the step budget spent.
    Terminated,
}

/// Whether the policy convicts the partition: some group is compromised
/// (`any_group`), or the tracked first group is.
pub open spec fn policy_convicts(net: NetworkState, policy: Quorum, any_group: bool) -> bool {
    if any_group {
        exists|i: int|
            0 <= i < net.groups@.len() && group_compromised_spec(net.groups@[i].members@, policy)
    } else {
        group_compromised_spec(net.groups@[0].members@, policy)
    }
}

/// Whether any group of the partition (or only the tracked first group)
/// is compromised under a policy.
pub fn network_compromised(net: &NetworkState, policy: &Quorum, any_group: bool) -> (r: bool)
    requires
        net.wf(),
        policy.wf(),
    ensures
        r == policy_convicts(*net, *policy, any_group),
        net.malicious() == 0 ==> !r,
{
    let groups = net.group_snapshot();
    let mut found: bool = false;
    if any_group {
        let mut i: usize = 0;
        while i < groups.len()
            invariant
                i <= groups@.len(),
                groups@ == net.groups@,
                policy.wf(),
                found == exists|t: int|
                    0 <= t < i && group_compromised_spec(net.groups@[t].members@, *policy),
            decreases groups@.len() - i,
        {
            if group_compromised(&groups[i], policy) {
                found = true;
            }
            i = i + 1;
        }
    } else {
        found = group_compromised(&groups[0], policy);
    }
    proof {
        if found && net.malicious() == 0 {
            if any_group {
                let t = choose|t: int|
                    0 <= t < net.groups@.len() && group_compromised_spec(
                        net.groups@[t].members@,
                        *policy,
                    );
                lemma_net_mal_group_le(net.groups@, t);
                lemma_counts_bounds(net.groups@[t].members@);
            } else {
                lemma_net_mal_group_le(net.groups@, 0);
                lemma_counts_bounds(net.groups@[0].members@);
            }
        }
    }
    found
}

/// The simulator: a `NetworkState` driven through the phases, with exact
/// token-bucket credits for the fractional rates.
pub struct ChurnSimulator {
    pub params: SimParams,
    pub policy: Quorum,
    /// Evaluate every group (`true`) or only the tracked first group.
    pub any_group: bool,
    pub net: NetworkState,
    pub phase: Phase,
    /// Malicious nodes admitted so far.
    pub injected: NN,
    /// Mirror of the current population.
    pub total: NN,
    /// Fractional join capacity carried between steps, in `max_join_rate`
    /// denominator units.
    pub join_credit: u128,
    /// Fractional background-join capacity, in `add_rate_good`
    /// denominator units.
    pub good_credit: u128,
    pub compromised: bool,
    pub disrupted: bool,
}

impl ChurnSimulator {
    /// The simulator invariant: a well-formed network mirroring the
    /// counters, injections within budget, and a compromise only ever
    /// recorded with a malicious node present.
    pub open spec fn wf_core(self) -> bool {
        &&& self.params.wf()
        &&& self.policy.wf()
        &&& self.net.wf()
        &&& self.net.min_group_size == self.params.min_group_size
        &&& self.net.total() == self.total
        &&& self.net.malicious() == self.injected
        &&& self.injected <= self.params.num_attacking
        &&& (self.compromised ==> self.injected >= 1)
    }

    /// `wf_core` plus drained credits: both token buckets hold less than
    /// one whole node between steps.
    pub open spec fn wf(self) -> bool {
        &&& self.wf_core()
        &&& self.join_credit < self.params.max_join_rate.den
        &&& self.good_credit < self.params.add_rate_good.den
    }

    /// A fresh simulator in the Stabilizing phase over an empty network.
    pub fn new(params: &SimParams, policy: Quorum, any_group: bool) -> (s: ChurnSimulator)
        requires
            params.wf(),
            policy.wf(),
        ensures
            s.wf(),
            s.params == *params,
            s.policy == policy,
            s.any_group == any_group,
            s.phase == Phase::Stabilizing,
            s.injected == 0,
            s.total == 0,
            s.join_credit == 0,
            s.good_credit == 0,
            !s.compromised,
            !s.disrupted,
    {
        ChurnSimulator {
            params: *params,
            policy,
            any_group,
            net: NetworkState::new(params.min_group_size),
            phase: Phase::Stabilizing,
            injected: 0,
            total: 0,
            join_credit: 0,
            good_credit: 0,
            compromised: false,
            disrupted: false,
        }
    }

    /// One settling step: good joins up to the join bound (stopping at
    /// the target population), then departures.  No malicious node is
    /// admitted here.  The credit equation pins how much join capacity
    /// carries over, and with a zero leave rate the step is fully
    /// deterministic: the population grows by the whole-node capacity,
    /// capped at the target.
    pub fn step_stabilize(&mut self, rng: &mut rand::rngs::StdRng)
        requires
            old(self).wf(),
        ensures
            final(self).wf(),
            final(self).params == old(self).params,
            final(self).policy == old(self).policy,
            final(self).any_group == old(self).any_group,
            final(self).phase == old(self).phase,
            final(self).injected == old(self).injected,
            final(self).compromised == old(self).compromised,
            final(self).disrupted == old(self).disrupted,
            final(self).join_credit == (old(self).join_credit
                + old(self).params.max_join_rate.num) % (
            old(self).params.max_join_rate.den as int),
            final(self).good_credit == old(self).good_credit,
            old(self).params.leave_rate_good.num == 0 ==> ({
                let drains = (old(self).join_credit + old(self).params.max_join_rate.num) / (
                old(self).params.max_join_rate.den as int);
                final(self).total == if old(self).total >= old(self).params.num_initial {
                    old(self).total as int
                } else if old(self).total + drains <= old(self).params.num_initial {
                    old(self).total + drains
                } else {
                    old(self).params.num_initial as int
                }
            }),
    {
        let num = self.params.max_join_rate.num;
        let den = self.params.max_join_rate.den;
        let ghost credit0 = old(self).join_credit + num;
        let ghost mut drains: int = 0;
        self.join_credit = self.join_credit + (num as u128);
        while self.join_credit >= (den as u128)
            invariant
                self.wf_core(),
                self.params == old(self).params,
                self.policy == old(self).policy,
                self.any_group == old(self).any_group,
                self.phase == old(self).phase,
                self.injected == old(self).injected,
                self.compromised == old(self).compromised,
                self.disrupted == old(self).disrupted,
                den == self.params.max_join_rate.den,
                num == self.params.max_join_rate.num,
                self.join_credit < (den as u128) + (num as u128),
                self.good_credit < self.params.add_rate_good.den,
                self.good_credit == old(self).good_credit,
                credit0 == old(self).join_credit + num,
                0 <= drains,
                self.join_credit == credit0 - drains * den,
                self.total == (if old(self).total >= self.params.num_initial {
                    old(self).total as int
                } else if old(self).total + drains <= self.params.num_initial {
                    old(self).total + drains
                } else {
                    self.params.num_initial as int
                }),
            decreases self.join_credit,
        {
            self.join_credit = self.join_credit - (den as u128);
            proof {
                assert((drains + 1) * den == drains * den + den) by (nonlinear_arith);
                drains = drains + 1;
            }
            if self.total < self.params.num_initial {
                self.net.join(false);
                self.total = self.total + 1;
            }
        }
        proof {
            lemma_fundamental_div_mod_converse(
                credit0,
                den as int,
                drains,
                self.join_credit as int,
            );
        }
        let (_d, new_total) = self.net.leave(self.params.leave_rate_good, rng);
        self.total = new_total;
        self.net.step_ages();
    }

    /// Whether the settling target has been absorbed.
    pub fn stabilized(&self) -> (r: bool)
        ensures
            r == (self.total >= self.params.num_initial),
    {
        self.total >= self.params.num_initial
    }

    /// Enter the Attacking phase.
    pub fn begin_attack(&mut self)
        requires
            old(self).wf(),
        ensures
            final(self).wf(),
            final(self).phase == Phase::Attacking,
            final(self).params == old(self).params,
            final(self).policy == old(self).policy,
            final(self).any_group == old(self).any_group,
            final(self).net == old(self).net,
            final(self).injected == old(self).injected,
            final(self).total == old(self).total,
            final(self).join_credit == old(self).join_credit,
            final(self).good_credit == old(self).good_credit,
            final(self).compromised == old(self).compromised,
            final(self).disrupted == old(self).disrupted,
    {
        self.phase = Phase::Attacking;
    }

    /// One attack step: inject malicious nodes under the join bound until
    /// the budget is spent, apply background good joins and departures,
    /// age the population, then evaluate the quorum policy.  Records
    /// compromise and disruption; compromise terminates the run.
    ///
    /// The injection is deterministic: both credit equations are pinned,
    /// and (while the population counter has room) exactly the whole-node
    /// join capacity is injected, capped by the remaining budget.  The
    /// last clause ties a newly recorded compromise to the groups of the
    /// final state: it is recorded exactly when the policy convicts one.
    #[verifier::rlimit(60)]
    pub fn step_attack(&mut self, rng: &mut rand::rngs::StdRng)
        requires
            old(self).wf(),
        ensures
            final(self).wf(),
            final(self).params == old(self).params,
            final(self).policy == old(self).policy,
            final(self).any_group == old(self).any_group,
            final(self).compromised ==> old(self).compromised || final(self).injected >= 1,
            old(self).compromised ==> final(self).compromised,
            old(self).disrupted ==> final(self).disrupted,
            final(self).compromised && !old(self).compromised ==> final(self).phase
                == Phase::Terminated,
            final(self).join_credit == (old(self).join_credit
                + old(self).params.max_join_rate.num) % (
            old(self).params.max_join_rate.den as int),
            final(self).good_credit == (old(self).good_credit
                + old(self).params.add_rate_good.num) % (
            old(self).params.add_rate_good.den as int),
            final(self).injected >= old(self).injected,
            ({
                let drains = (old(self).join_credit + old(self).params.max_join_rate.num) / (
                old(self).params.max_join_rate.den as int);
                old(self).total + drains <= u64::MAX ==> final(self).injected == if old(
                    self,
                ).injected + drains <= old(self).params.num_attacking {
                    old(self).injected + drains
                } else {
                    old(self).params.num_attacking as int
                }
            }),
            !old(self).compromised ==> final(self).compromised == policy_convicts(
                final(self).net,
                old(self).policy,
                old(self).any_group,
            ),
    {
        // (1) malicious injection, bounded by the join rate
        let num = self.params.max_join_rate.num;
        let den = self.params.max_join_rate.den;
        let ghost credit0 = old(self).join_credit + num;
        let ghost drains_all = credit0 / (den as int);
        let ghost capped = old(self).total + drains_all <= u64::MAX;
        let ghost mut drains: int = 0;
        self.join_credit = self.join_credit + (num as u128);
        while self.join_credit >= (den as u128)
            invariant
                self.wf_core(),
                self.params == old(self).params,
                self.policy == old(self).policy,
                self.any_group == old(self).any_group,
                self.phase == old(self).phase,
                self.compromised == old(self).compromised,
                self.disrupted == old(self).disrupted,
                den == self.params.max_join_rate.den,
                num == self.params.max_join_rate.num,
                self.join_credit < (den as u128) + (num as u128),
                self.good_credit < self.params.add_rate_good.den,
                self.good_credit == old(self).good_credit,
                credit0 == old(self).join_credit + num,
                drains_all == credit0 / (den as int),
                capped == (old(self).total + drains_all <= u64::MAX),
                0 <= drains <= drains_all,
                self.join_credit == credit0 - drains * den,
                self.injected >= old(self).injected,
                capped ==> self.injected == (if old(self).injected + drains <= self
                    .params.num_attacking {
                    old(self).injected + drains
                } else {
                    self.params.num_attacking as int
                }),
                capped ==> self.total == old(self).total + (self.injected - old(
                    self,
                ).injected),
            decreases self.join_credit,
        {
            proof {
                assert((drains + 1) * den == drains * den + den) by (nonlinear_arith);
                assert((drains + 1) * den <= credit0);
                assert(drains + 1 <= credit0 / (den as int)) by (nonlinear_arith)
                    requires den >= 1, (drains + 1) * den <= credit0;
            }
            self.join_credit = self.join_credit - (den as u128);
            proof {
                drains = drains + 1;
            }
            if self.injected < self.params.num_attacking && self.total
                < 0xffff_ffff_ffff_ffff {
                self.net.join(true);
                self.injected = self.injected + 1;
                self.total = self.total + 1;
            }
        }
        proof {
            lemma_fundamental_div_mod_converse(
                credit0,
                den as int,
                drains,
                self.join_credit as int,
            );
        }
        let ghost injected_after = self.injected;
        // (2) background good joins
        let gnum = self.params.add_rate_good.num;
        let gden = self.params.add_rate_good.den;
        let ghost gcredit0 = self.good_credit + gnum;
        let ghost mut gdrains: int = 0;
        self.good_credit = self.good_credit + (gnum as u128);
        while self.good_credit >= (gden as u128)
            invariant
                self.wf_core(),
                self.params == old(self).params,
                self.policy == old(self).policy,
                self.any_group == old(self).any_group,
                self.phase == old(self).phase,
                self.compromised == old(self).compromised,
                self.disrupted == old(self).disrupted,
                gden == self.params.add_rate_good.den,
                gnum == self.params.add_rate_good.num,
                self.good_credit < (gden as u128) + (gnum as u128),
                self.join_credit < self.params.max_join_rate.den,
                self.join_credit == (old(self).join_credit + num) % (den as int),
                self.injected == injected_after,
                injected_after >= old(self).injected,
                gcredit0 == old(self).good_credit + gnum,
                0 <= gdrains,
                self.good_credit == gcredit0 - gdrains * gden,
            decreases self.good_credit,
        {
            proof {
                assert((gdrains + 1) * gden == gdrains * gden + gden) by (nonlinear_arith);
            }
            self.good_credit = self.good_credit - (gden as u128);
            proof {
                gdrains = gdrains + 1;
            }
            if self.total < 0xffff_ffff_ffff_ffff {
                self.net.join(false);
                self.total = self.total + 1;
            }
        }
        proof {
            lemma_fundamental_div_mod_converse(
                gcredit0,
                gden as int,
                gdrains,
                self.good_credit as int,
            );
        }
        // (3) departures, ageing, evaluation
        let (d, new_total) = self.net.leave(self.params.leave_rate_good, rng);
        self.total = new_total;
        if d {
            self.disrupted = true;
        }
        self.net.step_ages();
        let convicted = network_compromised(&self.net, &self.policy, self.any_group);
        if convicted {
            self.compromised = true;
            self.phase = Phase::Terminated;
        }
    }
}

/// One full simulation run from an explicit seed.
///
/// The network settles until `num_initial` nodes are absorbed, the attack
/// runs for at most `max_steps` steps, and the recorded events come back.
/// With no malicious budget at all, no run ever reports a compromise; and
/// on a configuration where the first attack step is forced to convict
/// (nothing to settle, a whole node of join capacity, a budget to spend,
/// a one-member quorum, every group watched), every run reports one.
pub fn run_once(params: &SimParams, policy: Quorum, any_group: bool, seed: u64) -> (r: RunOutcome)
    requires
        params.wf(),
        policy.wf(),
    ensures
        params.num_attacking == 0 ==> !r.compromised,
        params.max_steps == 0 ==> r == (RunOutcome { compromised: false, disrupted: false }),
        (params.num_initial == 0 && params.num_attacking >= 1 && params.max_steps >= 1
            && params.max_join_rate.num >= params.max_join_rate.den && policy == (Quorum::Fixed {
            size: 1u64,
        }) && any_group) ==> r.compromised,
{
    let ghost forced = params.num_initial == 0 && params.num_attacking >= 1 && params.max_steps
        >= 1 && params.max_join_rate.num >= params.max_join_rate.den && policy == (Quorum::Fixed {
        size: 1u64,
    }) && any_group;
    let mut rng = seed_rng(seed);
    let mut sim = ChurnSimulator::new(params, policy, any_group);
    let mut settle_steps: u64 = 0;
    while settle_steps < 0xffff_ffff_ffff_ffff && !sim.stabilized()
        invariant
            sim.wf(),
            sim.params == *params,
            sim.policy == policy,
            sim.any_group == any_group,
            !sim.compromised,
            !sim.disrupted,
            params.num_initial == 0 ==> sim.total == 0 && sim.injected == 0 && sim.join_credit
                == 0,
        decreases 0xffff_ffff_ffff_ffff - settle_steps,
    {
        sim.step_stabilize(&mut rng);
        settle_steps = settle_steps + 1;
    }
    sim.begin_attack();
    let mut steps: u64 = 0;
    while steps < params.max_steps && !sim.compromised
        invariant
            sim.wf(),
            sim.params == *params,
            sim.policy == policy,
            sim.any_group == any_group,
            steps <= params.max_steps,
            params.max_steps == 0 ==> !sim.compromised && !sim.disrupted,
            forced == (params.num_initial == 0 && params.num_attacking >= 1 && params.max_steps
                >= 1 && params.max_join_rate.num >= params.max_join_rate.den && policy == (
            Quorum::Fixed { size: 1u64 }) && any_group),
            forced && steps == 0 ==> sim.total == 0 && sim.injected == 0 && sim.join_credit == 0
                && !sim.compromised,
            forced && steps >= 1 ==> sim.compromised,
        decreases params.max_steps - steps,
    {
        let ghost pre = sim;
        sim.step_attack(&mut rng);
        proof {
            if forced && steps == 0 {
                let jn = params.max_join_rate.num as int;
                let jd = params.max_join_rate.den as int;
                assert(jn / jd >= 1) by (nonlinear_arith)
                    requires jd >= 1, jn >= jd;
                assert(jn / jd <= jn) by (nonlinear_arith)
                    requires jd >= 1, jn >= 0;
                assert(pre.total + (pre.join_credit + jn) / jd <= u64::MAX);
                assert(sim.injected >= 1);
                assert(sim.net.malicious() == sim.injected);
                crate::net::lemma_net_mal_witness(sim.net.groups@);
                let w = choose|i: int|
                    0 <= i < sim.net.groups@.len() && crate::net::mal_count(
                        sim.net.groups@[i].members@,
                    ) >= 1;
                assert(group_compromised_spec(sim.net.groups@[w].members@, pre.policy));
                assert(policy_convicts(sim.net, pre.policy, pre.any_group));
                assert(sim.compromised);
            }
        }
        steps = steps + 1;
    }
    proof {
        if params.num_attacking == 0 {
            assert(sim.injected == 0);
        }
    }
    RunOutcome { compromised: sim.compromised, disrupted: sim.disrupted }
}

/// Runs in a sequence that reported a compromise.
pub open spec fn count_compromised(s: Seq<RunOutcome>) -> int
    decreases s.len(),
{
    if s.len() == 0 {
        0
    } else {
        count_compromised(s.drop_last()) + if s.last().compromised {
            1int
        } else {
            0int
        }
    }
}

/// Runs in a sequence that reported a disruption.
pub open spec fn count_disrupted(s: Seq<RunOutcome>) -> int
    decreases s.len(),
{
    if s.len() == 0 {
        0
    } else {
        count_disrupted(s.drop_last()) + if s.last().disrupted {
            1int
        } else {
            0int
        }
    }
}

/// Both counts lie between zero and the number of runs.
pub proof fn lemma_outcome_counts_bounds(s: Seq<RunOutcome>)
    ensures
        0 <= count_compromised(s) <= s.len(),
        0 <= count_disrupted(s) <= s.len(),
    decreases s.len(),
{
    if s.len() > 0 {
        lemma_outcome_counts_bounds(s.drop_last());
    }
}

/// Extending a prefix by one outcome shifts each count by its flags.
pub proof fn lemma_outcome_counts_take_step(s: Seq<RunOutcome>, i: int)
    requires
        0 <= i < s.len(),
    ensures
        count_compromised(s.take(i + 1)) == count_compromised(s.take(i)) + if s[i].compromised {
            1int
        } else {
            0int
        },
        count_disrupted(s.take(i + 1)) == count_disrupted(s.take(i)) + if s[i].disrupted {
            1int
        } else {
            0int
        },
{
    assert(s.take(i + 1) =~= s.take(i).push(s[i]));
    assert(s.take(i).push(s[i]).drop_last() =~= s.take(i));
}

/// Empirical event frequencies over repeated runs.
#[derive(Clone, Copy, Debug, PartialEq, Eq, Structural)]
pub struct SimResult {
    pub p_disrupt: Ratio,
    pub p_compromise: Ratio,
}

/// Reduce a batch of outcomes to the exact fractions of runs in which
/// each event occurred.
pub fn aggregate_outcomes(outcomes: &Vec<RunOutcome>) -> (r: SimResult)
    requires
        outcomes@.len() >= 1,
        outcomes@.len() <= u64::MAX,
    ensures
        r.p_compromise.den == outcomes@.len(),
        r.p_compromise.num == count_compromised(outcomes@),
        r.p_disrupt.den == outcomes@.len(),
        r.p_disrupt.num == count_disrupted(outcomes@),
        r.p_compromise.wf(),
        r.p_compromise.at_most_one(),
        r.p_disrupt.wf(),
        r.p_disrupt.at_most_one(),
{
    let len = outcomes.len();
    let mut n_comp: u64 = 0;
    let mut n_disr: u64 = 0;
    let mut i: usize = 0;
    while i < len
        invariant
            i <= len,
            len == outcomes@.len(),
            len <= u64::MAX,
            n_comp == count_compromised(outcomes@.take(i as int)),
            n_disr == count_disrupted(outcomes@.take(i as int)),
            n_comp <= i,
            n_disr <= i,
        decreases len - i,
    {
        proof {
            lemma_outcome_counts_take_step(outcomes@, i as int);
        }
        if outcomes[i].compromised {
            n_comp = n_comp + 1;
        }
        if outcomes[i].disrupted {
            n_disr = n_disr + 1;
        }
        i = i + 1;
    }
    proof {
        assert(outcomes@.take(len as int) =~= outcomes@);
    }
    SimResult {
        p_disrupt: Ratio { num: n_disr, den: len as u64 },
        p_compromise: Ratio { num: n_comp, den: len as u64 },
    }
}

} // verus!
