use routing_sims::net::Group;
use routing_sims::net::NetworkState;
use routing_sims::net::Node;
use routing_sims::quorum::Quorum;
use routing_sims::quorum::group_compromised;
use routing_sims::ratio::Ratio;

fn group_of(flags: &[bool]) -> Group {
    let mut members = Vec::new();
    for &m in flags {
        members.push(Node { is_malicious: m, age: 1 });
    }
    Group { members }
}

#[test]
fn ratio_comparisons() {
    let half = Ratio::new(1, 2);
    let third = Ratio::new(1, 3);
    assert!(third.le(half));
    assert!(third.lt(half));
    assert!(!half.lt(half));
    assert!(half.le(half));
    assert!(half.in_unit());
    assert!(!Ratio::new(3, 2).in_unit());
}

#[test]
fn ratio_ceil_mul() {
    assert_eq!(Ratio::new(1, 2).ceil_mul(10), 5);
    assert_eq!(Ratio::new(1, 3).ceil_mul(10), 4);
    assert_eq!(Ratio::new(1, 1).ceil_mul(7), 7);
    assert_eq!(Ratio::new(0, 1).ceil_mul(7), 0);
    assert_eq!(Ratio::new(2, 3).ceil_mul(0), 0);
}

#[test]
fn quorum_sizes() {
    let fixed = Quorum::Fixed { size: 4 };
    assert_eq!(fixed.quorum_size(10), Some(4));
    let prop = Quorum::FixedProportion { prop: Ratio::new(1, 2) };
    assert_eq!(prop.quorum_size(10), Some(5));
    assert_eq!(prop.quorum_size(9), Some(5));
    assert_eq!(Quorum::AgeWeighted.quorum_size(10), None);
}

#[test]
fn quorum_set_size() {
    let mut q = Quorum::Fixed { size: 4 };
    q.set_quorum_size(7);
    assert_eq!(q.quorum_size(10), Some(7));
    let mut p = Quorum::FixedProportion { prop: Ratio::new(1, 2) };
    p.set_quorum_size(7);
    assert_eq!(p.quorum_size(10), Some(5));
}

#[test]
fn compromise_by_proportion() {
    let majority = Quorum::FixedProportion { prop: Ratio::new(1, 2) };
    assert!(group_compromised(&group_of(&[true, true, false, false]), &majority));
    assert!(!group_compromised(&group_of(&[true, false, false, false]), &majority));
}

#[test]
fn no_malicious_member_never_compromises() {
    // Even a zero threshold needs at least one malicious member.
    let zero = Quorum::Fixed { size: 0 };
    assert!(!group_compromised(&group_of(&[false, false]), &zero));
    assert!(!group_compromised(&group_of(&[]), &zero));
    assert!(group_compromised(&group_of(&[true, false]), &zero));
}

#[test]
fn unanimous_proportion_requires_all_malicious() {
    let unanimous = Quorum::FixedProportion { prop: Ratio::new(1, 1) };
    assert!(group_compromised(&group_of(&[true, true, true]), &unanimous));
    assert!(!group_compromised(&group_of(&[true, true, false]), &unanimous));
    assert!(!group_compromised(&group_of(&[]), &unanimous));
}

#[test]
fn age_weighted_majority() {
    let mut members = Vec::new();
    members.push(Node { is_malicious: true, age: 10 });
    members.push(Node { is_malicious: false, age: 3 });
    members.push(Node { is_malicious: false, age: 4 });
    assert!(group_compromised(&Group { members }, &Quorum::AgeWeighted));

    let mut members2 = Vec::new();
    members2.push(Node { is_malicious: true, age: 2 });
    members2.push(Node { is_malicious: false, age: 30 });
    assert!(!group_compromised(&Group { members: members2 }, &Quorum::AgeWeighted));
}

#[test]
fn join_fills_smallest_group_and_splits() {
    let mut net = NetworkState::new(2);
    for _ in 0..5 {
        net.join(false);
    }
    // 2 * min = 4, so the fifth join forces a split into two groups.
    assert_eq!(net.groups.len(), 2);
    let mut total = 0;
    for g in &net.groups {
        assert!(g.members.len() <= 4);
        total += g.members.len();
    }
    assert_eq!(total, 5);
    // New joins land in the smaller group first.
    let before: Vec<usize> = net.groups.iter().map(|g| g.members.len()).collect();
    let smallest = before.iter().min().unwrap();
    let idx = before.iter().position(|l| l == smallest).unwrap();
    net.join(true);
    assert_eq!(net.groups[idx].members.len(), smallest + 1);
}

#[test]
fn certain_leave_removes_all_good_nodes() {
    let mut net = NetworkState::new(2);
    for i in 0..6 {
        net.join(i % 3 == 0); // two malicious, four good
    }
    let mut rng = routing_sims::rng::seed_rng(1);
    let (_d, total) = net.leave(Ratio::new(1, 1), &mut rng);
    assert_eq!(total, 2);
    let mal: usize = net
        .groups
        .iter()
        .map(|g| g.members.iter().filter(|n| n.is_malicious).count())
        .sum();
    assert_eq!(mal, 2);
}

#[test]
fn zero_leave_rate_keeps_everyone() {
    let mut net = NetworkState::new(2);
    for _ in 0..7 {
        net.join(false);
    }
    let mut rng = routing_sims::rng::seed_rng(2);
    let (d, total) = net.leave(Ratio::new(0, 1), &mut rng);
    assert_eq!(total, 7);
    assert!(!d);
}

#[test]
fn undersized_group_merges_with_neighbour() {
    let mut net = NetworkState {
        groups: vec![group_of(&[false; 4]), group_of(&[true; 3])],
        min_group_size: 4,
    };
    let mut rng = routing_sims::rng::seed_rng(3);
    let (d, total) = net.leave(Ratio::new(0, 1), &mut rng);
    assert!(!d);
    assert_eq!(total, 7);
    assert_eq!(net.groups.len(), 1);
    assert_eq!(net.groups[0].members.len(), 7);
}

#[test]
fn deferred_merge_reports_disruption() {
    let mut net = NetworkState {
        groups: vec![group_of(&[false; 8]), group_of(&[true; 3])],
        min_group_size: 4,
    };
    let mut rng = routing_sims::rng::seed_rng(4);
    let (d, total) = net.leave(Ratio::new(0, 1), &mut rng);
    assert!(d);
    assert_eq!(total, 11);
    assert_eq!(net.groups.len(), 2);
}

#[test]
fn ageing_preserves_membership() {
    let mut net = NetworkState::new(2);
    for i in 0..5 {
        net.join(i == 0);
    }
    net.step_ages();
    net.step_ages();
    let mut count = 0;
    for g in &net.groups {
        for n in &g.members {
            assert_eq!(n.age, 2);
            count += 1;
        }
    }
    assert_eq!(count, 5);
}
