//! The analytic tool: the closed-form model packaged behind the
//! parameter-holder interface that the simulation tools share.

use vstd::prelude::*;
use crate::NN;
use crate::prob::Prob;
use crate::prob::ProbError;
use crate::prob::binom;
use crate::prob::conv_sum;
use crate::prob::expected_compromised_groups;
use crate::prob::probability_quorum_compromised;
use crate::quorum::Quorum;

verus! {

/// Why the analytic tool could not produce a number.
#[derive(Clone, Copy, Debug, PartialEq, Eq, Structural)]
pub enum ToolError {
    /// The policy yields no single member count; only the simulator can
    /// evaluate it, against concrete groups.
    NoScalarQuorum,
    /// The parameter combination describes no valid drawing.
    Invalid,
    /// An exact intermediate value exceeds 128 bits.
    Overflow,
}

/// The member count a policy demands of a group of `k` nodes, where one
/// exists.
pub open spec fn scalar_quorum(q: Quorum, k: NN) -> Option<int> {
    match q {
        Quorum::Fixed { size } => Some(size as int),
        Quorum::FixedProportion { prop } => Some(
            (prop.num * k + prop.den - 1) / (prop.den as int),
        ),
        Quorum::AgeWeighted => None,
    }
}

/// The closed-form tool: a population, an attacker budget, a group size
/// and a quorum policy, from which the compromise probability of one
/// group (or the expected number of compromised groups) is computed
/// exactly.
pub struct SimTool {
    pub total_nodes: NN,
    pub malicious_nodes: NN,
    pub min_group_size: NN,
    pub quorum: Quorum,
    pub any: bool,
}

impl SimTool {
    /// Well-formed: a positive group size within the supported range and
    /// a well-formed policy.
    pub open spec fn wf(self) -> bool {
        &&& self.min_group_size >= 1
        &&& self.min_group_size < 0xffff_ffff
        &&& self.quorum.wf()
    }

    /// A tool over the given parameters; single-group reporting until
    /// `set_any` says otherwise.
    pub fn new(total_nodes: NN, malicious_nodes: NN, min_group_size: NN, quorum: Quorum) -> (t:
        SimTool)
        requires
            min_group_size >= 1,
            min_group_size < 0xffff_ffff,
            quorum.wf(),
        ensures
            t.wf(),
            t == (SimTool { total_nodes, malicious_nodes, min_group_size, quorum, any: false }),
    {
        SimTool { total_nodes, malicious_nodes, min_group_size, quorum, any: false }
    }

    /// Get the total number of nodes.
    pub fn total_nodes(&self) -> (r: NN)
        ensures
            r == self.total_nodes,
    {
        self.total_nodes
    }

    /// Set the total number of nodes.
    pub fn set_total_nodes(&mut self, n: NN)
        ensures
            *final(self) == (SimTool { total_nodes: n, ..*old(self) }),
    {
        self.total_nodes = n;
    }

    /// Get the number of malicious nodes.
    pub fn malicious_nodes(&self) -> (r: NN)
        ensures
            r == self.malicious_nodes,
    {
        self.malicious_nodes
    }

    /// Set the number of malicious nodes.
    pub fn set_malicious_nodes(&mut self, n: NN)
        ensures
            *final(self) == (SimTool { malicious_nodes: n, ..*old(self) }),
    {
        self.malicious_nodes = n;
    }

    /// Get the minimum group size.
    pub fn min_group_size(&self) -> (r: NN)
        ensures
            r == self.min_group_size,
    {
        self.min_group_size
    }

    /// Set the minimum group size.
    pub fn set_min_group_size(&mut self, n: NN)
        requires
            1 <= n < 0xffff_ffff,
        ensures
            *final(self) == (SimTool { min_group_size: n, ..*old(self) }),
    {
        self.min_group_size = n;
    }

    /// Get the quorum policy.
    pub fn quorum(&self) -> (r: &Quorum)
        ensures
            *r == self.quorum,
    {
        &self.quorum
    }

    /// Replace the quorum policy.
    pub fn set_quorum(&mut self, q: Quorum)
        requires
            q.wf(),
        ensures
            *final(self) == (SimTool { quorum: q, ..*old(self) }),
    {
        self.quorum = q;
    }

    /// Choose between single-group probability (`false`) and the
    /// network-wide expected number of compromised groups (`true`).
    pub fn set_any(&mut self, any: bool)
        ensures
            *final(self) == (SimTool { any, ..*old(self) }),
    {
        self.any = any;
    }

    /// The probability that one group is compromised, or (with `any`)
    /// the expected number of compromised groups network-wide, as an
    /// exact rational.  Success is owed on every input not named by one
    /// of the three error conditions below, each stated if and only if.
    #[verifier::rlimit(60)]
    pub fn calc_p_compromise(&self) -> (res: Result<Prob, ToolError>)
        requires
            self.wf(),
        ensures
            (res == Err::<Prob, ToolError>(ToolError::NoScalarQuorum)) <==> (self.quorum
                is AgeWeighted),
            (res == Err::<Prob, ToolError>(ToolError::Invalid)) <==> (match scalar_quorum(
                self.quorum,
                self.min_group_size,
            ) {
                Some(qv) => 1 <= qv <= self.min_group_size && (self.min_group_size
                    > self.total_nodes || self.malicious_nodes > self.total_nodes),
                None => false,
            }),
            (res == Err::<Prob, ToolError>(ToolError::Overflow)) <==> (match scalar_quorum(
                self.quorum,
                self.min_group_size,
            ) {
                Some(qv) => ({
                    let n = self.total_nodes as int;
                    let r = self.malicious_nodes as int;
                    let k = self.min_group_size as int;
                    &&& 1 <= qv <= k
                    &&& k <= n
                    &&& r <= n
                    &&& ((exists|j: int| 0 <= j <= k && binom(n, j) > u128::MAX) || (self.any
                        && (conv_sum(r, n - r, k, qv) * n > u128::MAX || binom(n, k) * k
                        > u128::MAX)))
                }),
                None => false,
            }),
            match res {
                Ok(p) => p.wf() && (match scalar_quorum(self.quorum, self.min_group_size) {
                    Some(qv) => {
                        let n = self.total_nodes as int;
                        let r = self.malicious_nodes as int;
                        let k = self.min_group_size as int;
                        if !self.any {
                            if qv == 0 {
                                p == (Prob { num: 1u128, den: 1u128 })
                            } else if qv > k {
                                p == (Prob { num: 0u128, den: 1u128 })
                            } else {
                                p.num == conv_sum(r, n - r, k, qv) && p.den == binom(n, k)
                            }
                        } else {
                            if qv == 0 {
                                p.num == n && p.den == k
                            } else if qv > k {
                                p.num == 0 && p.den == k
                            } else {
                                p.num == conv_sum(r, n - r, k, qv) * n && p.den == binom(n, k)
                                    * k
                            }
                        }
                    },
                    None => false,
                }),
                Err(e) => true,
            },
    {
        let qv: NN = match self.quorum.quorum_size(self.min_group_size) {
            Some(v) => v,
            None => {
                return Err(ToolError::NoScalarQuorum);
            },
        };
        match probability_quorum_compromised(
            self.total_nodes,
            self.malicious_nodes,
            self.min_group_size,
            qv,
        ) {
            Ok(p) => {
                if self.any {
                    match expected_compromised_groups(p, self.total_nodes, self.min_group_size) {
                        Ok(s) => {
                            proof {
                                assert(s.num == p.num * self.total_nodes);
                                assert(s.den == p.den * self.min_group_size);
                                if qv == 0 {
                                    assert(p == (Prob { num: 1u128, den: 1u128 }));
                                    assert(s.num == 1 * (self.total_nodes as int));
                                    assert(s.den == 1 * (self.min_group_size as int));
                                } else if qv > self.min_group_size {
                                    assert(p == (Prob { num: 0u128, den: 1u128 }));
                                    assert(s.num == 0 * (self.total_nodes as int));
                                    assert(s.den == 1 * (self.min_group_size as int));
                                }
                            }
                            Ok(s)
                        },
                        Err(_) => Err(ToolError::Overflow),
                    }
                } else {
                    Ok(p)
                }
            },
            Err(ProbError::InvalidInput) => Err(ToolError::Invalid),
            Err(ProbError::Overflow) => Err(ToolError::Overflow),
        }
    }
}

} // verus!
