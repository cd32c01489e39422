use routing_sims::prob::probability_quorum_compromised;
use routing_sims::quorum::Quorum;
use routing_sims::ratio::Ratio;
use routing_sims::sim::RunOutcome;
use routing_sims::sim::SimParams;
use routing_sims::sim::aggregate_outcomes;
use routing_sims::sim::run_once;
use routing_sims::sweep::run_param_set;
use routing_sims::sweep::sweep_runner;
use routing_sims::tools::SimTool;
use routing_sims::tools::ToolError;

fn small_params() -> SimParams {
    SimParams {
        num_initial: 40,
        num_attacking: 15,
        max_join_rate: Ratio::new(2, 1),
        add_rate_good: Ratio::new(1, 2),
        leave_rate_good: Ratio::new(1, 100),
        min_group_size: 4,
        quorum_prop: Ratio::new(1, 2),
        max_steps: 30,
    }
}

#[test]
fn params_validation() {
    assert!(small_params().validate());
    let mut bad = small_params();
    bad.max_join_rate = Ratio::new(1, 2);
    // join rate no longer exceeds the background add rate
    assert!(!bad.validate());
    let mut bad2 = small_params();
    bad2.min_group_size = 0;
    assert!(!bad2.validate());
}

#[test]
fn stabilization_estimate_value() {
    let mut p = small_params();
    p.num_initial = 100;
    p.max_join_rate = Ratio::new(2, 1);
    p.leave_rate_good = Ratio::new(1, 10);
    // gap = 2*10 - 1*1 = 19; ceil(100 * 1 * 10 / 19) = 53
    assert_eq!(p.stabilization_estimate(), 53);
    p.leave_rate_good = Ratio::new(1, 100);
    // gap = 2*100 - 1 = 199; ceil(100 * 1 * 100 / 199) = 51
    assert_eq!(p.stabilization_estimate(), 51);
}

#[test]
fn same_seed_same_outcome() {
    let p = small_params();
    let policy = p.default_policy();
    for seed in [0u64, 1, 7, 99, 1234] {
        let a = run_once(&p, policy, false, seed);
        let b = run_once(&p, policy, false, seed);
        assert_eq!(a, b);
    }
    let ra = run_param_set(&p, policy, false, 50, 42, 3);
    let rb = run_param_set(&p, policy, false, 50, 42, 3);
    assert_eq!(ra.result, rb.result);
}

#[test]
fn no_attackers_no_compromise() {
    let mut p = small_params();
    p.num_attacking = 0;
    let policy = p.default_policy();
    let rec = run_param_set(&p, policy, true, 60, 5, 0);
    assert_eq!(rec.result.p_compromise.num, 0);
    assert_eq!(rec.result.p_compromise.den, 60);
}

#[test]
fn heavy_attack_compromises() {
    let mut p = small_params();
    p.num_attacking = 200;
    p.max_steps = 60;
    let policy = p.default_policy();
    let rec = run_param_set(&p, policy, true, 30, 11, 0);
    assert!(rec.result.p_compromise.num > 0);
}

#[test]
fn aggregate_counts_exactly() {
    let outcomes = vec![
        RunOutcome { compromised: true, disrupted: false },
        RunOutcome { compromised: false, disrupted: true },
        RunOutcome { compromised: true, disrupted: true },
        RunOutcome { compromised: false, disrupted: false },
    ];
    let r = aggregate_outcomes(&outcomes);
    assert_eq!(r.p_compromise.num, 2);
    assert_eq!(r.p_compromise.den, 4);
    assert_eq!(r.p_disrupt.num, 2);
    assert_eq!(r.p_disrupt.den, 4);
}

#[test]
fn sweep_preserves_input_order() {
    let mut sets = Vec::new();
    for i in 0..6u64 {
        let mut p = small_params();
        p.num_initial = 20 + i;
        p.num_attacking = if i == 2 { 0 } else { 10 };
        sets.push(p);
    }
    let policy = sets[0].default_policy();
    let records = sweep_runner(&sets, policy, true, 20, 99);
    assert_eq!(records.len(), sets.len());
    for (i, rec) in records.iter().enumerate() {
        assert_eq!(rec.params, sets[i]);
        assert_eq!(rec.result.p_compromise.den, 20);
    }
    assert_eq!(records[2].result.p_compromise.num, 0);
}

#[test]
fn estimates_tighten_with_repetitions() {
    // More repetitions bring independent estimates closer together:
    // the spread over distinct base seeds shrinks.
    let p = small_params();
    let policy = p.default_policy();
    let spread = |reps: u64| -> f64 {
        let mut lo = f64::INFINITY;
        let mut hi = f64::NEG_INFINITY;
        for (i, seed) in [11u64, 22, 33, 44, 55].iter().enumerate() {
            let rec = run_param_set(&p, policy, true, reps, *seed, i as u64);
            let est = rec.result.p_compromise.num as f64 / rec.result.p_compromise.den as f64;
            lo = lo.min(est);
            hi = hi.max(est);
        }
        hi - lo
    };
    let wide = spread(60);
    let narrow = spread(1500);
    assert!(narrow <= wide);
    assert!(wide > 0.0);
}

#[test]
fn tool_matches_direct_model() {
    let tool = SimTool::new(1000, 100, 10, Quorum::Fixed { size: 5 });
    let via_tool = tool.calc_p_compromise().unwrap();
    let direct = probability_quorum_compromised(1000, 100, 10, 5).unwrap();
    assert_eq!(via_tool, direct);
    // ceil(1/2 * 10) = 5: the proportional policy asks the same quorum
    let prop_tool = SimTool::new(1000, 100, 10, Quorum::FixedProportion { prop: Ratio::new(1, 2) });
    assert_eq!(prop_tool.calc_p_compromise().unwrap(), direct);
}

#[test]
fn tool_any_mode_scales() {
    let mut tool = SimTool::new(1000, 100, 10, Quorum::Fixed { size: 5 });
    tool.set_any(true);
    let single = tool.calc_p_compromise();
    // still Ok, but scaled by n / k = 100
    let mut plain = SimTool::new(1000, 100, 10, Quorum::Fixed { size: 5 });
    plain.set_total_nodes(1000);
    let unscaled = plain.calc_p_compromise().unwrap();
    let scaled = single.unwrap();
    assert_eq!(scaled.num, unscaled.num * 1000);
    assert_eq!(scaled.den, unscaled.den * 10);
}

#[test]
fn tool_age_weighted_has_no_scalar_quorum() {
    let tool = SimTool::new(1000, 100, 10, Quorum::AgeWeighted);
    assert_eq!(tool.calc_p_compromise(), Err(ToolError::NoScalarQuorum));
}

#[test]
fn tool_rejects_oversized_group() {
    let tool = SimTool::new(10, 3, 12, Quorum::Fixed { size: 5 });
    assert_eq!(tool.calc_p_compromise(), Err(ToolError::Invalid));
}

#[test]
fn forced_first_step_compromise() {
    // Nothing to settle, a whole node of join capacity per step, a
    // one-member quorum and every group watched: the first attack step
    // must convict, in every run.
    let p = SimParams {
        num_initial: 0,
        num_attacking: 5,
        max_join_rate: Ratio::new(3, 1),
        add_rate_good: Ratio::new(1, 2),
        leave_rate_good: Ratio::new(1, 100),
        min_group_size: 4,
        quorum_prop: Ratio::new(1, 2),
        max_steps: 10,
    };
    assert!(p.validate());
    for seed in [1u64, 2, 3] {
        let o = run_once(&p, Quorum::Fixed { size: 1 }, true, seed);
        assert!(o.compromised);
    }
    let rec = run_param_set(&p, Quorum::Fixed { size: 1 }, true, 25, 7, 0);
    assert_eq!(rec.result.p_compromise.num, 25);
    assert_eq!(rec.result.p_compromise.den, 25);
}
