use proof_transport::ast::{Formula, FormulaNode, Proof, ProofNode, Sequent, Term, TermNode};
use proof_transport::cutelim::cut_eliminate_all;
use proof_transport::frag::fragility_score;
use proof_transport::validator::validate_local_wf;

fn node(id: &str, rule: &str, premises: Vec<&str>, thm: Formula) -> ProofNode {
    ProofNode {
        id: id.to_string(),
        rule: rule.to_string(),
        premises: premises.into_iter().map(|p| p.to_string()).collect(),
        sequent: Sequent { ctx: Vec::new(), thm },
    }
}

fn text(s: &str) -> Formula {
    Formula::Text(s.to_string())
}

fn proof_with_cut() -> Proof {
    Proof {
        root: "n0".to_string(),
        nodes: vec![
            node("n0", "Cut", vec!["n1", "n2"], text("A")),
            node("n1", "Id", vec![], text("A")),
            node("n2", "Id", vec![], text("A")),
        ],
    }
}

fn proof_cut_chain() -> Proof {
    Proof {
        root: "c0".to_string(),
        nodes: vec![
            node("c0", "Cut", vec!["c1", "w"], text("A")),
            node("c1", "Cut", vec!["x", "y"], text("A")),
            node("x", "Id", vec![], text("A")),
            node("y", "Id", vec![], text("A")),
            node("w", "Id", vec![], text("A")),
        ],
    }
}

fn proof_cut_pair() -> Proof {
    Proof {
        root: "c0".to_string(),
        nodes: vec![
            node("c0", "Cut", vec!["a", "b"], text("A")),
            node("a", "Cut", vec!["x", "y"], text("A")),
            node("x", "Id", vec![], text("A")),
            node("y", "Id", vec![], text("A")),
            node("b", "Id", vec![], text("A")),
        ],
    }
}

/// A cut-free proof with quantified, structured formulas.
fn proof_fo_quantifiers() -> Proof {
    let px = || Formula::Node(FormulaNode::Pred {
        name: "P".to_string(),
        args: vec![Term::Node(TermNode::Var("x".to_string()))],
    });
    let all = Formula::Node(FormulaNode::Forall("x".to_string(), Box::new(px())));
    Proof {
        root: "r".to_string(),
        nodes: vec![node("r", "ImpR", vec!["l"], all), node("l", "Id", vec![], px())],
    }
}

/// A proof with a root cut and one node unreachable from the root.
fn proof_with_unreachable() -> Proof {
    Proof {
        root: "c".to_string(),
        nodes: vec![
            node("c", "Cut", vec!["a", "b"], text("A")),
            node("a", "Id", vec![], text("A")),
            node("b", "Id", vec![], text("A")),
            node("ghost", "Id", vec![], text("B")),
        ],
    }
}

fn proof_cut_free() -> Proof {
    Proof {
        root: "r".to_string(),
        nodes: vec![node("r", "ImpR", vec!["l"], text("(A -> A)")), node("l", "Id", vec![], text("A"))],
    }
}

/// On these inputs we intentionally have a `Cut` at/near the root,
/// so eliminating cuts must strictly drop fragility.
#[test]
fn fragility_strictly_drops_on_cut_examples() {
    let proofs = [proof_with_cut(), proof_cut_chain(), proof_cut_pair()];

    for (idx, p) in proofs.iter().enumerate() {
        validate_local_wf(p).expect("wf before");

        let before = fragility_score(p);
        let q = cut_eliminate_all(p);
        validate_local_wf(&q).expect("wf after");

        let after = fragility_score(&q);
        assert!(
            after < before,
            "expected fragility to strictly drop on example {idx}, got {before} -> {after}"
        );
    }
}

/// For inputs with no root Cut (or no relevant policy trigger),
/// elimination may be a no-op, but it must *never* increase fragility.
/// (This also guards against regressions in the scoring function.)
#[test]
fn fragility_never_increases_on_all_examples() {
    let proofs = [
        proof_with_cut(),
        proof_cut_chain(),
        proof_cut_pair(),
        proof_fo_quantifiers(),
        proof_with_unreachable(),
        proof_cut_free(),
    ];

    for (idx, p) in proofs.iter().enumerate() {
        validate_local_wf(p).expect("wf before");

        let before = fragility_score(p);
        let q = cut_eliminate_all(p);
        validate_local_wf(&q).expect("wf after");

        let after = fragility_score(&q);
        assert!(
            after <= before,
            "fragility increased on example {idx}: {before} -> {after}"
        );
    }
}

/// Explicitly assert that pruning removes unreachable nodes on the
/// example built to exercise graph cleanup.
#[test]
fn unreachable_nodes_are_pruned() {
    let p = proof_with_unreachable();
    validate_local_wf(&p).expect("wf before");

    let before_nodes = p.nodes.len();
    let q = cut_eliminate_all(&p); // elimination + subsequent prune
    validate_local_wf(&q).expect("wf after");
    let after_nodes = q.nodes.len();

    assert!(
        after_nodes < before_nodes,
        "expected prune to drop unreachable nodes: {before_nodes} -> {after_nodes}"
    );
}
