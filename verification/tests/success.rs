use proof_transport::ast::{Formula, Proof, ProofNode, Sequent};
use proof_transport::frag::fragility_score;
use proof_transport::validator::validate_local_wf;

fn node(id: &str, rule: &str, premises: Vec<&str>, ctx: Vec<&str>, thm: &str) -> ProofNode {
    ProofNode {
        id: id.to_string(),
        rule: rule.to_string(),
        premises: premises.into_iter().map(|p| p.to_string()).collect(),
        sequent: Sequent {
            ctx: ctx.into_iter().map(|c| Formula::Text(c.to_string())).collect(),
            thm: Formula::Text(thm.to_string()),
        },
    }
}

fn proof_with_cut() -> Proof {
    Proof {
        root: "n0".to_string(),
        nodes: vec![
            node("n0", "Cut", vec!["n1", "n2"], vec![], "A"),
            node("n1", "Id", vec![], vec!["A"], "A"),
            node("n2", "Id", vec![], vec![], "A"),
        ],
    }
}

#[test]
fn public_api_works_on_example() {
    // use the same toy example the other tests use
    let p = proof_with_cut();

    // validator should succeed
    validate_local_wf(&p).expect("validator should accept the example");

    // scoring should be defined and non-zero for the example with a root Cut
    let score = fragility_score(&p);
    assert!(
        score >= 1,
        "fragility score should be >= 1 for a proof with a root Cut; got {}",
        score
    );
}
