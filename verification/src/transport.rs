//! Transport of a proof between policy epochs.
//!
//! Transport validates the proof, asks the registry which rules are
//! enabled at the target time, eliminates every cut when the cut rule is
//! not among them, and validates the result. A certificate variant also
//! reports how many cuts and nodes the rewrite removed and the fragility
//! on both sides.

use vstd::prelude::*;

use crate::ast::Proof;
use crate::ast::ProofV;
use crate::ast::clone_proof;
use crate::ast::no_cut_premises;
use crate::ast::unique_ids;
use crate::cutelim::cut_eliminate_all;
use crate::cutelim::elim_spec;
use crate::cutelim::lemma_eliminate_idempotent;
use crate::cutelim::lemma_eliminate_wf;
use crate::frag::cut_count;
use crate::frag::fragility;
use crate::frag::fragility_score;
use crate::frag::lemma_cut_count_le_len;
use crate::registry::Registry;
use crate::registry::RuleId;
use crate::registry::TimeSlice;
use crate::registry::contains_rule;
use crate::registry::enabled_slice;
use crate::text::str_eq;
use crate::validator::WfError;
use crate::validator::WfErrorV;
use crate::validator::validate_local_wf;
use crate::validator::wf;
use crate::validator::wf_error;

verus! {

/// A failed transport: the proof was ill-formed on the way in, or — which
/// would mean a defect in the eliminator — on the way out.
#[derive(Clone, Debug, PartialEq, Eq)]
pub enum TransportError {
    /// The input proof failed validation.
    InputInvalid(WfError),
    /// The rewritten proof failed validation.
    OutputInvalid(WfError),
}

/// Deep view of a [`TransportError`].
pub enum TransportErrorV {
    InputInvalid(WfErrorV),
    OutputInvalid(WfErrorV),
}

impl DeepView for TransportError {
    type V = TransportErrorV;

    open spec fn deep_view(&self) -> TransportErrorV {
        match self {
            TransportError::InputInvalid(e) => TransportErrorV::InputInvalid(e.deep_view()),
            TransportError::OutputInvalid(e) => TransportErrorV::OutputInvalid(e.deep_view()),
        }
    }
}

/// A summary of one transport call: how many cuts and nodes the rewrite
/// removed, and the fragility before and after.
#[derive(Clone, Copy, Debug, PartialEq, Eq, Structural)]
pub struct Certificate {
    pub removed_cuts: u64,
    pub pruned_nodes: u64,
    pub fragility_before: u64,
    pub fragility_after: u64,
}

/// The exact outcome of transport: an ill-formed input is refused; then
/// the proof is rewritten cut-free exactly when the cut rule is not
/// enabled at the target time; an ill-formed result is refused in turn.
/// Only the target time matters; the source time plays no part.
pub open spec fn transport_spec(p: ProofV, times: Seq<TimeSlice>, to: u64) -> Result<
    ProofV,
    TransportErrorV,
> {
    if !wf(p) {
        Err(TransportErrorV::InputInvalid(wf_error(p)->Some_0))
    } else {
        let q = if enabled_slice(times, to).contains(RuleId::Cut) {
            p
        } else {
            elim_spec(p)
        };
        if wf(q) {
            Ok(q)
        } else {
            Err(TransportErrorV::OutputInvalid(wf_error(q)->Some_0))
        }
    }
}

/// Transport `proof` from the policy at `_from` to the policy at `to`:
/// validate, eliminate cuts when the target policy does not enable the cut
/// rule, validate again. The source time is accepted for interface
/// stability; the defined semantics depend on the target time alone.
///
/// Success is owed on every well-formed input whose target policy keeps
/// the cut rule enabled, and on every well-formed input with pairwise
/// distinct node ids in which no node cites a cut as a premise.
pub fn transport(proof: &Proof, reg: &Registry, _from: u64, to: u64) -> (r: Result<
    Proof,
    TransportError,
>)
    ensures
        match r {
            Ok(q) => transport_spec(proof.deep_view(), reg.times@, to) == Ok::<
                ProofV,
                TransportErrorV,
            >(q.deep_view()),
            Err(e) => transport_spec(proof.deep_view(), reg.times@, to) == Err::<
                ProofV,
                TransportErrorV,
            >(e.deep_view()),
        },
        wf(proof.deep_view()) && enabled_slice(reg.times@, to).contains(RuleId::Cut) ==> r is Ok,
        wf(proof.deep_view()) && unique_ids(proof.deep_view().nodes) && no_cut_premises(
            proof.deep_view().nodes,
        ) ==> r is Ok,
{
    let ghost pv = proof.deep_view();
    match validate_local_wf(proof) {
        Err(e) => Err(TransportError::InputInvalid(e)),
        Ok(_) => {
            let enabled = reg.enabled_at(to);
            let q = if contains_rule(&enabled, RuleId::Cut) {
                clone_proof(proof)
            } else {
                cut_eliminate_all(proof)
            };
            match validate_local_wf(&q) {
                Ok(_) => Ok(q),
                Err(e) => {
                    proof {
                        if unique_ids(pv.nodes) && no_cut_premises(pv.nodes) {
                            lemma_eliminate_wf(pv);
                            assert(false);
                        }
                    }
                    Err(TransportError::OutputInvalid(e))
                },
            }
        },
    }
}

/// How many nodes of `proof` carry the rule `Cut`.
fn count_cuts(proof: &Proof) -> (r: u64)
    ensures
        r == cut_count(proof.deep_view().nodes),
{
    let ghost nodes = proof.deep_view().nodes;
    let n = proof.nodes.len();
    let mut cuts: u64 = 0;
    let mut i: usize = 0;
    proof {
        assert(nodes.take(0) =~= Seq::<crate::ast::ProofNodeV>::empty());
    }
    while i < n
        invariant
            n == proof.nodes.len(),
            nodes == proof.deep_view().nodes,
            i <= n,
            cuts == cut_count(nodes.take(i as int)),
            cuts <= i,
        decreases n - i,
    {
        proof {
            assert(nodes.take(i as int + 1).drop_last() =~= nodes.take(i as int));
            assert(nodes.take(i as int + 1).last() == nodes[i as int]);
        }
        if str_eq(&proof.nodes[i].rule, "Cut") {
            cuts = cuts + 1;
        }
        i = i + 1;
    }
    proof {
        assert(nodes.take(n as int) =~= nodes);
    }
    cuts
}

/// Transport `proof` as [`transport`] does and also report a
/// [`Certificate`]: the cuts removed and the nodes pruned, both saturating
/// at zero, and the fragility before and after.
pub fn transport_with_cert(proof: &Proof, reg: &Registry, from: u64, to: u64) -> (r: Result<
    (Proof, Certificate),
    TransportError,
>)
    requires
        fragility(proof.deep_view()) <= u64::MAX,
    ensures
        match r {
            Ok(pair) => {
                let pv = proof.deep_view();
                let qv = pair.0.deep_view();
                &&& transport_spec(pv, reg.times@, to) == Ok::<ProofV, TransportErrorV>(qv)
                &&& pair.1.fragility_before == fragility(pv)
                &&& pair.1.fragility_after == fragility(qv)
                &&& pair.1.removed_cuts as nat == if cut_count(qv.nodes) >= cut_count(pv.nodes) {
                    0nat
                } else {
                    (cut_count(pv.nodes) - cut_count(qv.nodes)) as nat
                }
                &&& pair.1.pruned_nodes as nat == if qv.nodes.len() >= pv.nodes.len() {
                    0nat
                } else {
                    (pv.nodes.len() - qv.nodes.len()) as nat
                }
            },
            Err(e) => transport_spec(proof.deep_view(), reg.times@, to) == Err::<
                ProofV,
                TransportErrorV,
            >(e.deep_view()),
        },
{
    let ghost pv = proof.deep_view();
    match transport(proof, reg, from, to) {
        Ok(q) => {
            proof {
                lemma_cut_count_le_len(pv.nodes);
                lemma_cut_count_le_len(q.deep_view().nodes);
                if !enabled_slice(reg.times@, to).contains(RuleId::Cut) {
                    crate::cutelim::lemma_eliminate_fragility(pv);
                }
            }
            let fragility_before = fragility_score(proof);
            let fragility_after = fragility_score(&q);
            let cuts_before = count_cuts(proof);
            let cuts_after = count_cuts(&q);
            let removed_cuts: u64 = if cuts_after >= cuts_before {
                0
            } else {
                cuts_before - cuts_after
            };
            let nodes_before: u64 = proof.nodes.len() as u64;
            let nodes_after: u64 = q.nodes.len() as u64;
            let pruned_nodes: u64 = if nodes_after >= nodes_before {
                0
            } else {
                nodes_before - nodes_after
            };
            Ok(
                (
                    q,
                    Certificate {
                        removed_cuts,
                        pruned_nodes,
                        fragility_before,
                        fragility_after,
                    },
                ),
            )
        },
        Err(e) => Err(e),
    }
}

/// The change in fragility across a transport: the score after minus the
/// score before, negative or zero whenever the rewrite ran.
pub fn fragility_delta(proof: &Proof, reg: &Registry, from: u64, to: u64) -> (r: Result<
    i64,
    TransportError,
>)
    requires
        fragility(proof.deep_view()) <= i64::MAX,
    ensures
        match r {
            Ok(d) => {
                let outcome = transport_spec(proof.deep_view(), reg.times@, to);
                &&& outcome is Ok
                &&& d == fragility(outcome->Ok_0) - fragility(proof.deep_view())
            },
            Err(e) => transport_spec(proof.deep_view(), reg.times@, to) == Err::<
                ProofV,
                TransportErrorV,
            >(e.deep_view()),
        },
{
    let ghost pv = proof.deep_view();
    match transport(proof, reg, from, to) {
        Ok(q) => {
            proof {
                if !enabled_slice(reg.times@, to).contains(RuleId::Cut) {
                    crate::cutelim::lemma_eliminate_fragility(pv);
                }
            }
            let before = fragility_score(proof);
            let after = fragility_score(&q);
            Ok((after as i64) - (before as i64))
        },
        Err(e) => Err(e),
    }
}

/// Stability of transport under an unchanged policy: a proof already
/// transported to time `t` is a fixed point of a second transport to `t`,
/// so repeated transport cannot drift — in particular its fragility is the
/// same both times.
pub proof fn lemma_transport_stable(p: ProofV, times: Seq<TimeSlice>, t: u64, q: ProofV)
    requires
        wf(p),
        transport_spec(p, times, t) == Ok::<ProofV, TransportErrorV>(q),
    ensures
        transport_spec(q, times, t) == Ok::<ProofV, TransportErrorV>(q),
        fragility(transport_spec(q, times, t)->Ok_0) == fragility(q),
{
    if !enabled_slice(times, t).contains(RuleId::Cut) {
        lemma_eliminate_idempotent(p);
    }
}

} // verus!
