//! Local well-formedness of proofs.
//!
//! A proof is locally well-formed when its root id names a node, every
//! node's rule name belongs to the known vocabulary, and every premise id
//! names a node. The checks are local: nothing here asks whether a node's
//! sequent actually follows from its premises, nor whether the graph is
//! acyclic or connected.

use vstd::prelude::*;

use crate::ast::Proof;
use crate::ast::ProofNodeV;
use crate::ast::ProofV;
use crate::ast::resolves;
use crate::registry::RuleId;
use crate::text::chars_eq;
use crate::text::chars_of;
use crate::text::lower_chars;
use crate::text::to_lower;
use crate::text::trim;
use crate::text::trim_chars;

verus! {

/// A violation of local well-formedness: the first one found, in check
/// order.
#[derive(Clone, Debug, PartialEq, Eq)]
pub enum WfError {
    /// The proof's root id names no node.
    RootNotFound(String),
    /// A node (named first) carries a rule name (second) outside the known
    /// vocabulary.
    UnknownRule(String, String),
    /// A node (named first) lists a premise id (second) that names no node.
    DanglingPremise(String, String),
}

/// Deep view of a [`WfError`].
pub enum WfErrorV {
    RootNotFound(Seq<char>),
    UnknownRule(Seq<char>, Seq<char>),
    DanglingPremise(Seq<char>, Seq<char>),
}

impl DeepView for WfError {
    type V = WfErrorV;

    open spec fn deep_view(&self) -> WfErrorV {
        match self {
            WfError::RootNotFound(r) => WfErrorV::RootNotFound(r@),
            WfError::UnknownRule(n, r) => WfErrorV::UnknownRule(n@, r@),
            WfError::DanglingPremise(n, p) => WfErrorV::DanglingPremise(n@, p@),
        }
    }
}

/// The rule a name denotes, or `None` for a name outside the vocabulary.
///
/// A name is first trimmed of surrounding whitespace and matched with ASCII
/// case ignored against the alias table; the bottom-introduction sign is
/// also accepted in its exact spelling.
pub open spec fn rule_of(s: Seq<char>) -> Option<RuleId> {
    let t = trim_chars(s);
    let low = lower_chars(t);
    if low == "id"@ || low == "axiom"@ || low == "ax"@ {
        Some(RuleId::Id)
    } else if low == "boti"@ || low == "bottomi"@ || low == "bottomintro"@ {
        Some(RuleId::BotI)
    } else if low == "andl1"@ || low == "andleft1"@ || low == "∧l1"@ {
        Some(RuleId::AndL1)
    } else if low == "andl2"@ || low == "andleft2"@ || low == "∧l2"@ {
        Some(RuleId::AndL2)
    } else if low == "andr"@ || low == "andright"@ || low == "∧r"@ {
        Some(RuleId::AndR)
    } else if low == "orl"@ || low == "orleft"@ || low == "∨l"@ {
        Some(RuleId::OrL)
    } else if low == "or1"@ || low == "orr1"@ || low == "orright1"@ || low == "∨r1"@ {
        Some(RuleId::Or1)
    } else if low == "or2"@ || low == "orr2"@ || low == "orright2"@ || low == "∨r2"@ {
        Some(RuleId::Or2)
    } else if low == "impl"@ || low == "impliesl"@ || low == "→l"@ {
        Some(RuleId::ImpL)
    } else if low == "impr"@ || low == "impliesr"@ || low == "→r"@ {
        Some(RuleId::ImpR)
    } else if low == "cut"@ {
        Some(RuleId::Cut)
    } else if t == "⊥I"@ {
        Some(RuleId::BotI)
    } else {
        None
    }
}

/// Convert a textual rule name to its [`RuleId`], liberally: surrounding
/// whitespace and ASCII case are ignored, and the common alias spellings
/// are accepted.
pub fn rule_from_str(s: &str) -> (r: Option<RuleId>)
    ensures
        r == rule_of(s@),
{
    let cs = chars_of(s);
    let t = trim(&cs);
    let low = to_lower(&t);
    if chars_eq(&low, "id") || chars_eq(&low, "axiom") || chars_eq(&low, "ax") {
        Some(RuleId::Id)
    } else if chars_eq(&low, "boti") || chars_eq(&low, "bottomi") || chars_eq(&low, "bottomintro") {
        Some(RuleId::BotI)
    } else if chars_eq(&low, "andl1") || chars_eq(&low, "andleft1") || chars_eq(&low, "∧l1") {
        Some(RuleId::AndL1)
    } else if chars_eq(&low, "andl2") || chars_eq(&low, "andleft2") || chars_eq(&low, "∧l2") {
        Some(RuleId::AndL2)
    } else if chars_eq(&low, "andr") || chars_eq(&low, "andright") || chars_eq(&low, "∧r") {
        Some(RuleId::AndR)
    } else if chars_eq(&low, "orl") || chars_eq(&low, "orleft") || chars_eq(&low, "∨l") {
        Some(RuleId::OrL)
    } else if chars_eq(&low, "or1") || chars_eq(&low, "orr1") || chars_eq(&low, "orright1")
        || chars_eq(&low, "∨r1") {
        Some(RuleId::Or1)
    } else if chars_eq(&low, "or2") || chars_eq(&low, "orr2") || chars_eq(&low, "orright2")
        || chars_eq(&low, "∨r2") {
        Some(RuleId::Or2)
    } else if chars_eq(&low, "impl") || chars_eq(&low, "impliesl") || chars_eq(&low, "→l") {
        Some(RuleId::ImpL)
    } else if chars_eq(&low, "impr") || chars_eq(&low, "impliesr") || chars_eq(&low, "→r") {
        Some(RuleId::ImpR)
    } else if chars_eq(&low, "cut") {
        Some(RuleId::Cut)
    } else if chars_eq(&t, "⊥I") {
        Some(RuleId::BotI)
    } else {
        None
    }
}

/// The root id names a node.
pub open spec fn root_ok(p: ProofV) -> bool {
    resolves(p.nodes, p.root)
}

/// Every node's rule name is in the vocabulary.
pub open spec fn rules_ok(nodes: Seq<ProofNodeV>) -> bool {
    forall|i: int| 0 <= i < nodes.len() ==> rule_of((#[trigger] nodes[i]).rule) is Some
}

/// Whether some premise of `n` names no node of `nodes`.
pub open spec fn prem_dangling(nodes: Seq<ProofNodeV>, n: ProofNodeV) -> bool {
    exists|k: int| 0 <= k < n.premises.len() && !resolves(nodes, #[trigger] n.premises[k])
}

/// Every premise of every node names a node.
pub open spec fn premises_ok(nodes: Seq<ProofNodeV>) -> bool {
    forall|i: int| 0 <= i < nodes.len() ==> !prem_dangling(nodes, #[trigger] nodes[i])
}

/// Local well-formedness: the three checks together.
pub open spec fn wf(p: ProofV) -> bool {
    root_ok(p) && rules_ok(p.nodes) && premises_ok(p.nodes)
}

/// The first index whose node carries an unknown rule name, or the length
/// when every rule is known.
pub open spec fn first_unknown_rule(nodes: Seq<ProofNodeV>) -> int
    decreases nodes.len(),
{
    if nodes.len() == 0 {
        0
    } else if rule_of(nodes[0].rule) is None {
        0
    } else {
        1 + first_unknown_rule(nodes.subrange(1, nodes.len() as int))
    }
}

/// The first index in `rest` whose node has a dangling premise with respect
/// to `all`, or the length of `rest` when none has.
pub open spec fn first_dangling_node(all: Seq<ProofNodeV>, rest: Seq<ProofNodeV>) -> int
    decreases rest.len(),
{
    if rest.len() == 0 {
        0
    } else if prem_dangling(all, rest[0]) {
        0
    } else {
        1 + first_dangling_node(all, rest.subrange(1, rest.len() as int))
    }
}

/// The first index of a premise of `prems` that names no node, or the
/// length when all resolve.
pub open spec fn first_bad_premise(nodes: Seq<ProofNodeV>, prems: Seq<Seq<char>>) -> int
    decreases prems.len(),
{
    if prems.len() == 0 {
        0
    } else if !resolves(nodes, prems[0]) {
        0
    } else {
        1 + first_bad_premise(nodes, prems.subrange(1, prems.len() as int))
    }
}

/// The violation [`validate_local_wf`] reports: the first one in check
/// order, or `None` for a well-formed proof.
pub open spec fn wf_error(p: ProofV) -> Option<WfErrorV> {
    if !root_ok(p) {
        Some(WfErrorV::RootNotFound(p.root))
    } else if !rules_ok(p.nodes) {
        let i = first_unknown_rule(p.nodes);
        Some(WfErrorV::UnknownRule(p.nodes[i].id, p.nodes[i].rule))
    } else if !premises_ok(p.nodes) {
        let i = first_dangling_node(p.nodes, p.nodes);
        let k = first_bad_premise(p.nodes, p.nodes[i].premises);
        Some(WfErrorV::DanglingPremise(p.nodes[i].id, p.nodes[i].premises[k]))
    } else {
        None
    }
}

proof fn lemma_first_unknown_rule_at(nodes: Seq<ProofNodeV>, i: int)
    requires
        0 <= i < nodes.len(),
        rule_of(nodes[i].rule) is None,
        forall|j: int| 0 <= j < i ==> rule_of((#[trigger] nodes[j]).rule) is Some,
    ensures
        first_unknown_rule(nodes) == i,
    decreases i,
{
    if i > 0 {
        let rest = nodes.subrange(1, nodes.len() as int);
        assert(rest[i - 1] == nodes[i]);
        assert forall|j: int| 0 <= j < i - 1 implies rule_of(
            (#[trigger] rest[j]).rule,
        ) is Some by {
            assert(rest[j] == nodes[j + 1]);
        }
        lemma_first_unknown_rule_at(rest, i - 1);
    }
}

proof fn lemma_first_dangling_node_at(all: Seq<ProofNodeV>, rest: Seq<ProofNodeV>, i: int)
    requires
        0 <= i < rest.len(),
        prem_dangling(all, rest[i]),
        forall|j: int| 0 <= j < i ==> !prem_dangling(all, #[trigger] rest[j]),
    ensures
        first_dangling_node(all, rest) == i,
    decreases i,
{
    if i > 0 {
        let tail = rest.subrange(1, rest.len() as int);
        assert(tail[i - 1] == rest[i]);
        assert forall|j: int| 0 <= j < i - 1 implies !prem_dangling(
            all,
            #[trigger] tail[j],
        ) by {
            assert(tail[j] == rest[j + 1]);
        }
        lemma_first_dangling_node_at(all, tail, i - 1);
    }
}

proof fn lemma_first_bad_premise_at(nodes: Seq<ProofNodeV>, prems: Seq<Seq<char>>, k: int)
    requires
        0 <= k < prems.len(),
        !resolves(nodes, prems[k]),
        forall|j: int| 0 <= j < k ==> resolves(nodes, #[trigger] prems[j]),
    ensures
        first_bad_premise(nodes, prems) == k,
    decreases k,
{
    if k > 0 {
        let tail = prems.subrange(1, prems.len() as int);
        assert(tail[k - 1] == prems[k]);
        assert forall|j: int| 0 <= j < k - 1 implies resolves(nodes, #[trigger] tail[j]) by {
            assert(tail[j] == prems[j + 1]);
        }
        lemma_first_bad_premise_at(nodes, tail, k - 1);
    }
}

/// Whether some node of `nodes` carries the id `id`, by linear scan.
fn resolves_exec(nodes: &Vec<crate::ast::ProofNode>, id: &String) -> (b: bool)
    ensures
        b == resolves(nodes.deep_view(), id@),
{
    let mut i: usize = 0;
    while i < nodes.len()
        invariant
            i <= nodes.len(),
            forall|j: int| 0 <= j < i ==> nodes.deep_view()[j].id != id@,
        decreases nodes.len() - i,
    {
        if nodes[i].id == *id {
            proof {
                assert(nodes.deep_view()[i as int].id == id@);
            }
            return true;
        }
        i = i + 1;
    }
    false
}

/// Check the local well-formedness of `proof`.
///
/// The checks run in order and stop at the first violation: the root id
/// must name a node, then every rule name must be known, then every
/// premise id must name a node. `Ok` comes back exactly on well-formed
/// proofs, and the error is exactly the one [`wf_error`] names.
pub fn validate_local_wf(proof: &Proof) -> (r: Result<(), WfError>)
    ensures
        r is Ok <==> wf(proof.deep_view()),
        match r {
            Ok(_) => wf_error(proof.deep_view()) is None,
            Err(e) => wf_error(proof.deep_view()) == Some(e.deep_view()),
        },
{
    let pv = Ghost(proof.deep_view());
    if !resolves_exec(&proof.nodes, &proof.root) {
        return Err(WfError::RootNotFound(proof.root.clone()));
    }
    let n = proof.nodes.len();
    let mut i: usize = 0;
    while i < n
        invariant
            n == proof.nodes.len(),
            i <= n,
            pv@ == proof.deep_view(),
            root_ok(pv@),
            forall|j: int| 0 <= j < i ==> rule_of((#[trigger] pv@.nodes[j]).rule) is Some,
        decreases n - i,
    {
        if rule_from_str(proof.nodes[i].rule.as_str()).is_none() {
            proof {
                lemma_first_unknown_rule_at(pv@.nodes, i as int);
            }
            return Err(
                WfError::UnknownRule(proof.nodes[i].id.clone(), proof.nodes[i].rule.clone()),
            );
        }
        i = i + 1;
    }
    let mut i: usize = 0;
    while i < n
        invariant
            n == proof.nodes.len(),
            i <= n,
            pv@ == proof.deep_view(),
            root_ok(pv@),
            rules_ok(pv@.nodes),
            forall|j: int| 0 <= j < i ==> !prem_dangling(pv@.nodes, #[trigger] pv@.nodes[j]),
        decreases n - i,
    {
        let m = proof.nodes[i].premises.len();
        let mut k: usize = 0;
        while k < m
            invariant
                n == proof.nodes.len(),
                i < n,
                m == proof.nodes[i as int].premises.len(),
                k <= m,
                pv@ == proof.deep_view(),
                root_ok(pv@),
                rules_ok(pv@.nodes),
                forall|j: int| 0 <= j < i ==> !prem_dangling(pv@.nodes, #[trigger] pv@.nodes[j]),
                forall|j: int|
                    0 <= j < k ==> resolves(pv@.nodes, #[trigger] pv@.nodes[i as int].premises[j]),
            decreases m - k,
        {
            if !resolves_exec(&proof.nodes, &proof.nodes[i].premises[k]) {
                proof {
                    assert(pv@.nodes[i as int].premises[k as int]
                        == proof.nodes[i as int].premises[k as int]@);
                    assert(!resolves(pv@.nodes, pv@.nodes[i as int].premises[k as int]));
                    assert(prem_dangling(pv@.nodes, pv@.nodes[i as int]));
                    lemma_first_dangling_node_at(pv@.nodes, pv@.nodes, i as int);
                    lemma_first_bad_premise_at(
                        pv@.nodes,
                        pv@.nodes[i as int].premises,
                        k as int,
                    );
                    assert(!premises_ok(pv@.nodes));
                }
                return Err(
                    WfError::DanglingPremise(
                        proof.nodes[i].id.clone(),
                        proof.nodes[i].premises[k].clone(),
                    ),
                );
            }
            k = k + 1;
        }
        proof {
            assert(!prem_dangling(pv@.nodes, pv@.nodes[i as int]));
        }
        i = i + 1;
    }
    Ok(())
}

} // verus!
