use routing_sims::prob::Prob;
use routing_sims::prob::ProbError;
use routing_sims::prob::binom_row;
use routing_sims::prob::expected_compromised_groups;
use routing_sims::prob::probability_quorum_compromised;

fn prob_as_f64(p: &Prob) -> f64 {
    p.num as f64 / p.den as f64
}

/// Direct combinatorial enumeration via floating-point factorials.
fn choose_f64(n: u64, k: u64) -> f64 {
    if k > n {
        return 0.0;
    }
    let mut acc: f64 = 1.0;
    for i in 0..k {
        acc *= (n - i) as f64 / (k - i) as f64;
    }
    acc
}

fn hypergeometric_tail_f64(n: u64, r: u64, k: u64, q: u64) -> f64 {
    let mut acc: f64 = 0.0;
    for i in q..=k {
        acc += choose_f64(r, i) * choose_f64(n - r, k - i);
    }
    acc / choose_f64(n, k)
}

#[test]
fn matches_direct_enumeration_small() {
    let p = probability_quorum_compromised(10, 3, 4, 2).unwrap();
    let direct = hypergeometric_tail_f64(10, 3, 4, 2);
    assert!((prob_as_f64(&p) - direct).abs() < 1e-9);
}

#[test]
fn matches_direct_enumeration_medium() {
    let p = probability_quorum_compromised(60, 12, 8, 3).unwrap();
    let direct = hypergeometric_tail_f64(60, 12, 8, 3);
    assert!((prob_as_f64(&p) - direct).abs() < 1e-9);
}

#[test]
fn quorum_zero_is_certain() {
    let p = probability_quorum_compromised(1000, 100, 10, 0).unwrap();
    assert_eq!(p.num, 1);
    assert_eq!(p.den, 1);
}

#[test]
fn quorum_above_group_is_impossible() {
    let p = probability_quorum_compromised(1000, 100, 10, 11).unwrap();
    assert_eq!(p.num, 0);
    assert_eq!(p.den, 1);
}

#[test]
fn no_malicious_means_no_compromise() {
    for q in 1..=6u64 {
        let p = probability_quorum_compromised(50, 0, 6, q).unwrap();
        assert_eq!(p.num, 0);
    }
}

#[test]
fn all_malicious_means_certain_compromise() {
    for q in 1..=5u64 {
        let p = probability_quorum_compromised(20, 20, 5, q).unwrap();
        assert_eq!(p.num, p.den);
    }
}

#[test]
fn monotone_in_quorum() {
    let mut last = f64::INFINITY;
    for q in 0..=12u64 {
        let p = probability_quorum_compromised(200, 40, 12, q).unwrap();
        let v = prob_as_f64(&p);
        assert!(v <= last + 1e-12);
        assert!(v <= 1.0);
        last = v;
    }
}

#[test]
fn group_too_large_is_invalid() {
    assert_eq!(
        probability_quorum_compromised(10, 3, 11, 2),
        Err(ProbError::InvalidInput)
    );
}

#[test]
fn too_many_malicious_is_invalid() {
    assert_eq!(
        probability_quorum_compromised(10, 12, 5, 2),
        Err(ProbError::InvalidInput)
    );
}

#[test]
fn oversized_coefficients_overflow() {
    assert_eq!(
        probability_quorum_compromised(500, 100, 250, 10),
        Err(ProbError::Overflow)
    );
}

#[test]
fn scenario_ten_percent_attacker() {
    // n = 1000, r = 100 (10%), k = 10, q = 5: small probability for one
    // group; a larger group with the same quorum is materially easier to
    // reach.  (At n = 1000 a group of 20 needs coefficients beyond 128
    // bits, so the k comparison runs at n = 400, same 10% attacker.)
    let p10 = prob_as_f64(&probability_quorum_compromised(1000, 100, 10, 5).unwrap());
    assert!(p10 > 1e-4 && p10 < 1e-2);
    assert_eq!(
        probability_quorum_compromised(1000, 100, 20, 5),
        Err(ProbError::Overflow)
    );
    let q10 = prob_as_f64(&probability_quorum_compromised(400, 40, 10, 5).unwrap());
    let q20 = prob_as_f64(&probability_quorum_compromised(400, 40, 20, 5).unwrap());
    assert!(q20 > 3.0 * q10);
}

#[test]
fn pascal_row_values() {
    let row = binom_row(10, 5).unwrap();
    assert_eq!(row, vec![1u128, 10, 45, 120, 210, 252]);
    assert!(binom_row(200, 100).is_none());
}

#[test]
fn any_group_scaling() {
    let p = Prob { num: 1, den: 2 };
    let s = expected_compromised_groups(p, 10, 5).unwrap();
    assert_eq!(s.num, 10);
    assert_eq!(s.den, 10);
}
