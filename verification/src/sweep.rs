//! Parameter sweeps: many independent simulation runs, executed in
//! parallel per parameter set, reduced to one result per set with the
//! input order preserved.
//!
//! Seeds are derived from a single base seed and each work unit's index,
//! so a sweep is reproducible and no randomness is shared across units.

use vstd::prelude::*;
use rayon::iter::IndexedParallelIterator;
use rayon::iter::IntoParallelRefIterator;
use rayon::iter::ParallelIterator;
use crate::NN;
use crate::quorum::Quorum;
use crate::sim::RunOutcome;
use crate::sim::SimParams;
use crate::sim::SimResult;
use crate::sim::aggregate_outcomes;
use crate::sim::count_compromised;
use crate::sim::run_once;

verus! {

/// A parameter set together with its aggregated result.
#[derive(Clone, Copy, Debug, PartialEq, Eq, Structural)]
pub struct ParameterSweepRecord {
    pub params: SimParams,
    pub result: SimResult,
}

/// One parameter set: `repetitions` independent runs, each seeded from
/// the base seed and the work unit's index, reduced to the exact
/// fractions of runs that saw each event.
pub fn run_param_set(
    params: &SimParams,
    policy: Quorum,
    any_group: bool,
    repetitions: NN,
    base_seed: u64,
    set_index: u64,
) -> (rec: ParameterSweepRecord)
    requires
        params.wf(),
        policy.wf(),
        1 <= repetitions <= 0xffff_ffff,
    ensures
        rec.params == *params,
        rec.result.p_compromise.den == repetitions,
        rec.result.p_disrupt.den == repetitions,
        rec.result.p_compromise.wf(),
        rec.result.p_compromise.at_most_one(),
        rec.result.p_disrupt.wf(),
        rec.result.p_disrupt.at_most_one(),
        params.num_attacking == 0 ==> rec.result.p_compromise.num == 0,
        (params.num_initial == 0 && params.num_attacking >= 1 && params.max_steps >= 1
            && params.max_join_rate.num >= params.max_join_rate.den && policy == (Quorum::Fixed {
            size: 1u64,
        }) && any_group) ==> rec.result.p_compromise.num == repetitions,
{
    let ghost forced = params.num_initial == 0 && params.num_attacking >= 1 && params.max_steps
        >= 1 && params.max_join_rate.num >= params.max_join_rate.den && policy == (Quorum::Fixed {
        size: 1u64,
    }) && any_group;
    let seed0 = base_seed.wrapping_add(set_index.wrapping_mul(repetitions));
    let mut outcomes: Vec<RunOutcome> = Vec::new();
    let mut j: u64 = 0;
    while j < repetitions
        invariant
            j <= repetitions,
            repetitions <= 0xffff_ffff,
            outcomes@.len() == j,
            params.wf(),
            policy.wf(),
            params.num_attacking == 0 ==> count_compromised(outcomes@) == 0,
            forced == (params.num_initial == 0 && params.num_attacking >= 1 && params.max_steps
                >= 1 && params.max_join_rate.num >= params.max_join_rate.den && policy == (
            Quorum::Fixed { size: 1u64 }) && any_group),
            forced ==> count_compromised(outcomes@) == j,
        decreases repetitions - j,
    {
        let o = run_once(params, policy, any_group, seed0.wrapping_add(j));
        proof {
            assert(outcomes@.push(o).drop_last() =~= outcomes@);
        }
        outcomes.push(o);
        j = j + 1;
    }
    let result = aggregate_outcomes(&outcomes);
    ParameterSweepRecord { params: *params, result }
}

/// Relies on rayon's indexed parallel iterators: `par_iter` over the
/// sets, `enumerate`, `map` with the verified per-set runner, and an
/// order-preserving `collect`, so slot `i` of the result comes from
/// `sets[i]` and carries what `run_param_set` ensures of it.
#[verifier::external_body]
fn par_map_param_sets(
    sets: &Vec<SimParams>,
    policy: Quorum,
    any_group: bool,
    repetitions: NN,
    base_seed: u64,
) -> (r: Vec<ParameterSweepRecord>)
    requires
        forall|i: int| 0 <= i < sets@.len() ==> sets@[i].wf(),
        policy.wf(),
        1 <= repetitions <= 0xffff_ffff,
    ensures
        r@.len() == sets@.len(),
        forall|i: int|
            0 <= i < r@.len() ==> r@[i].params == sets@[i] && r@[i].result.p_compromise.den
                == repetitions && r@[i].result.p_disrupt.den == repetitions
                && r@[i].result.p_compromise.num <= repetitions
                && r@[i].result.p_disrupt.num <= repetitions && (sets@[i].num_attacking == 0
                ==> r@[i].result.p_compromise.num == 0) && ((sets@[i].num_initial == 0
                && sets@[i].num_attacking >= 1 && sets@[i].max_steps >= 1
                && sets@[i].max_join_rate.num >= sets@[i].max_join_rate.den && policy == (
            Quorum::Fixed { size: 1u64 }) && any_group)
                ==> r@[i].result.p_compromise.num == repetitions),
{
    sets.par_iter().enumerate().map(
        |(i, p): (usize, &SimParams)|
            run_param_set(p, policy, any_group, repetitions, base_seed, i as u64),
    ).collect()
}

/// The sweep: every parameter set is simulated `repetitions` times, the
/// (set, repetition) work units run in parallel, and the records come
/// back in the order the sets were given, whatever the completion order.
pub fn sweep_runner(
    sets: &Vec<SimParams>,
    policy: Quorum,
    any_group: bool,
    repetitions: NN,
    base_seed: u64,
) -> (r: Vec<ParameterSweepRecord>)
    requires
        forall|i: int| 0 <= i < sets@.len() ==> sets@[i].wf(),
        policy.wf(),
        1 <= repetitions <= 0xffff_ffff,
    ensures
        r@.len() == sets@.len(),
        forall|i: int|
            0 <= i < r@.len() ==> r@[i].params == sets@[i] && r@[i].result.p_compromise.den
                == repetitions && r@[i].result.p_disrupt.den == repetitions
                && r@[i].result.p_compromise.at_most_one() && r@[i].result.p_disrupt.at_most_one()
                && (sets@[i].num_attacking == 0 ==> r@[i].result.p_compromise.num == 0) && ((
            sets@[i].num_initial == 0 && sets@[i].num_attacking >= 1 && sets@[i].max_steps >= 1
                && sets@[i].max_join_rate.num >= sets@[i].max_join_rate.den && policy == (
            Quorum::Fixed { size: 1u64 }) && any_group)
                ==> r@[i].result.p_compromise.num == repetitions),
{
    par_map_param_sets(sets, policy, any_group, repetitions, base_seed)
}

} // verus!
