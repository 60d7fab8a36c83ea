use proof_transport::ast::{Formula, Proof, ProofNode, Sequent};
use proof_transport::cutelim::{cut_eliminate_all, cut_eliminate_root};
use proof_transport::frag::fragility_score;
use proof_transport::validator::validate_local_wf;

fn node(id: &str, rule: &str, premises: Vec<&str>, ctx: Vec<&str>, thm: &str) -> ProofNode {
    ProofNode {
        id: id.to_string(),
        rule: rule.to_string(),
        premises: premises.into_iter().map(|p| p.to_string()).collect(),
        sequent: Sequent {
            ctx: ctx.into_iter().map(|c| Formula::Text(c.to_string())).collect(),
            thm: Formula::Text(thm.to_string()),
        },
    }
}

/// The example proof with a root cut over two identity axioms.
fn proof_with_cut() -> Proof {
    Proof {
        root: "n0".to_string(),
        nodes: vec![
            node("n0", "Cut", vec!["n1", "n2"], vec![], "A"),
            node("n1", "Id", vec![], vec!["A"], "A"),
            node("n2", "Id", vec![], vec![], "A"),
        ],
    }
}

#[test]
fn loads_and_scores_example() {
    let p = proof_with_cut();
    validate_local_wf(&p).expect("well-formed proof");
    assert!(
        fragility_score(&p) > 1,
        "fragility should be non-zero with Cut present"
    );
}

#[test]
fn cut_elimination_root_and_all_compile() {
    let p = proof_with_cut();
    let _ = cut_eliminate_root(&p);
    let _ = cut_eliminate_all(&p);
}
