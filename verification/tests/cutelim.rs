use proof_transport::ast::{Formula, Proof, ProofNode, Sequent};
use proof_transport::cutelim::cut_eliminate_all;
use proof_transport::fragility_score;

fn node(id: &str, rule: &str, premises: Vec<&str>, thm: &str) -> ProofNode {
    ProofNode {
        id: id.to_string(),
        rule: rule.to_string(),
        premises: premises.into_iter().map(|p| p.to_string()).collect(),
        sequent: Sequent { ctx: Vec::new(), thm: Formula::Text(thm.to_string()) },
    }
}

fn proof_with_cut() -> Proof {
    Proof {
        root: "n0".to_string(),
        nodes: vec![
            node("n0", "Cut", vec!["n1", "n2"], "A"),
            node("n1", "Id", vec![], "A"),
            node("n2", "Id", vec![], "A"),
        ],
    }
}

#[test]
fn cut_elimination_rewrites_root_and_drops_fragility() {
    let p = proof_with_cut();
    let before = fragility_score(&p);
    let q = cut_eliminate_all(&p);
    let after = fragility_score(&q);
    assert!(after < before, "fragility did not drop: {} -> {}", before, after);
}
