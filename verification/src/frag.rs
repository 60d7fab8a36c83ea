//! The fragility score: a structural complexity metric over proofs.
//!
//! The score of a proof is its node count plus ten for every node whose
//! rule is `Cut`. It is an observability metric, monotone under cut
//! elimination, not a correctness oracle.

use vstd::prelude::*;

use crate::ast::Proof;
use crate::ast::ProofNodeV;
use crate::ast::ProofV;
use crate::ast::is_cut;
use crate::text::str_eq;

verus! {

/// How many nodes of `nodes` carry the rule `Cut`.
pub open spec fn cut_count(nodes: Seq<ProofNodeV>) -> nat
    decreases nodes.len(),
{
    if nodes.len() == 0 {
        0
    } else {
        cut_count(nodes.drop_last()) + if is_cut(nodes.last()) {
            1nat
        } else {
            0nat
        }
    }
}

/// The fragility of a node list: its length plus ten per cut node.
pub open spec fn frag_nodes(nodes: Seq<ProofNodeV>) -> int {
    nodes.len() as int + 10 * (cut_count(nodes) as int)
}

/// The fragility of a proof.
pub open spec fn fragility(p: ProofV) -> int {
    frag_nodes(p.nodes)
}

/// There are no more cut nodes than nodes.
pub proof fn lemma_cut_count_le_len(nodes: Seq<ProofNodeV>)
    ensures
        cut_count(nodes) <= nodes.len(),
    decreases nodes.len(),
{
    if nodes.len() > 0 {
        lemma_cut_count_le_len(nodes.drop_last());
    }
}

/// Extending a node list by one node raises the cut count by one exactly
/// when the new node is a cut.
pub proof fn lemma_cut_count_push(nodes: Seq<ProofNodeV>, n: ProofNodeV)
    ensures
        cut_count(nodes.push(n)) == cut_count(nodes) + if is_cut(n) {
            1nat
        } else {
            0nat
        },
{
    assert(nodes.push(n).drop_last() =~= nodes);
    assert(nodes.push(n).last() == n);
}

/// Keeping a sub-list of nodes cannot raise the cut count.
pub proof fn lemma_cut_count_filter_le(nodes: Seq<ProofNodeV>, p: spec_fn(ProofNodeV) -> bool)
    ensures
        cut_count(nodes.filter(p)) <= cut_count(nodes),
    decreases nodes.len(),
{
    reveal(Seq::filter);
    if nodes.len() > 0 {
        lemma_cut_count_filter_le(nodes.drop_last(), p);
        if p(nodes.last()) {
            lemma_cut_count_push(nodes.drop_last().filter(p), nodes.last());
        }
    }
}

/// Dropping a cut node lowers the cut count by at least one.
pub proof fn lemma_cut_count_filter_lt(
    nodes: Seq<ProofNodeV>,
    p: spec_fn(ProofNodeV) -> bool,
    i: int,
)
    requires
        0 <= i < nodes.len(),
        is_cut(nodes[i]),
        !p(nodes[i]),
    ensures
        cut_count(nodes.filter(p)) < cut_count(nodes),
    decreases nodes.len(),
{
    reveal(Seq::filter);
    if i == nodes.len() - 1 {
        lemma_cut_count_filter_le(nodes.drop_last(), p);
    } else {
        lemma_cut_count_filter_lt(nodes.drop_last(), p, i);
        if p(nodes.last()) {
            lemma_cut_count_push(nodes.drop_last().filter(p), nodes.last());
        }
    }
}

/// The cut count is zero exactly when no node is a cut.
pub proof fn lemma_cut_count_zero(nodes: Seq<ProofNodeV>)
    ensures
        (cut_count(nodes) == 0) <==> (forall|i: int|
            0 <= i < nodes.len() ==> !is_cut(#[trigger] nodes[i])),
    decreases nodes.len(),
{
    if nodes.len() > 0 {
        lemma_cut_count_zero(nodes.drop_last());
        if cut_count(nodes) == 0 {
            assert forall|i: int| 0 <= i < nodes.len() implies !is_cut(#[trigger] nodes[i]) by {
                if i < nodes.len() - 1 {
                    assert(nodes.drop_last()[i] == nodes[i]);
                }
            }
        } else {
            if forall|i: int| 0 <= i < nodes.len() ==> !is_cut(#[trigger] nodes[i]) {
                assert forall|i: int|
                    0 <= i < nodes.drop_last().len() implies !is_cut(
                    #[trigger] nodes.drop_last()[i],
                ) by {
                    assert(nodes.drop_last()[i] == nodes[i]);
                }
                assert(!is_cut(nodes.last()));
                assert(cut_count(nodes) == 0);
            }
        }
    }
}

/// Compute the fragility score of `proof`: its node count plus ten for
/// each node whose rule is `Cut`. Pure and total; the bound only asks that
/// the score fit the result type.
pub fn fragility_score(proof: &Proof) -> (r: u64)
    requires
        fragility(proof.deep_view()) <= u64::MAX,
    ensures
        r == fragility(proof.deep_view()),
{
    let ghost nodes = proof.deep_view().nodes;
    let n = proof.nodes.len();
    let mut cuts: u64 = 0;
    let mut i: usize = 0;
    proof {
        assert(nodes.take(0) =~= Seq::<ProofNodeV>::empty());
    }
    while i < n
        invariant
            n == proof.nodes.len(),
            nodes == proof.deep_view().nodes,
            i <= n,
            cuts == cut_count(nodes.take(i as int)),
            cuts <= i,
        decreases n - i,
    {
        proof {
            assert(nodes.take(i as int + 1).drop_last() =~= nodes.take(i as int));
            assert(nodes.take(i as int + 1).last() == nodes[i as int]);
        }
        if str_eq(&proof.nodes[i].rule, "Cut") {
            cuts = cuts + 1;
        }
        i = i + 1;
    }
    proof {
        assert(nodes.take(n as int) =~= nodes);
        lemma_cut_count_le_len(nodes);
    }
    (n as u64) + 10 * cuts
}

} // verus!
