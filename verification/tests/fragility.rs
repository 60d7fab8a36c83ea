use proof_transport::ast::{Formula, Proof, ProofNode, Sequent};
use proof_transport::fragility_score;

fn node(id: &str, rule: &str, premises: Vec<&str>, thm: &str) -> ProofNode {
    ProofNode {
        id: id.to_string(),
        rule: rule.to_string(),
        premises: premises.into_iter().map(|p| p.to_string()).collect(),
        sequent: Sequent { ctx: Vec::new(), thm: Formula::Text(thm.to_string()) },
    }
}

fn proof_with_cut() -> Proof {
    Proof {
        root: "n0".to_string(),
        nodes: vec![
            node("n0", "Cut", vec!["n1", "n2"], "A"),
            node("n1", "Id", vec![], "A"),
            node("n2", "Id", vec![], "A"),
        ],
    }
}

#[test]
fn fragility_score_nonzero_on_cut_proof() {
    let p = proof_with_cut();
    assert!(fragility_score(&p) > 0);
}

#[test]
fn fragility_score_counts_nodes_plus_ten_per_cut() {
    // three nodes, one of them a cut: 3 + 10 * 1
    let p = proof_with_cut();
    assert_eq!(fragility_score(&p), 13);

    // a single axiom scores one
    let single = Proof { root: "n".to_string(), nodes: vec![node("n", "Id", vec![], "A")] };
    assert_eq!(fragility_score(&single), 1);

    // an empty proof scores zero
    let empty = Proof { root: "r".to_string(), nodes: vec![] };
    assert_eq!(fragility_score(&empty), 0);
}
