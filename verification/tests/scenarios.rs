use proof_transport::ast::{Formula, Proof, ProofNode, Sequent};
use proof_transport::cutelim::{cut_eliminate_all, cut_eliminate_root};
use proof_transport::fragility_score;
use proof_transport::registry::{Registry, RuleId, TimeSlice};
use proof_transport::transport::{transport, transport_with_cert, TransportError};
use proof_transport::validator::{rule_from_str, validate_local_wf, WfError};

fn node(id: &str, rule: &str, premises: Vec<&str>, ctx: Vec<&str>, thm: &str) -> ProofNode {
    ProofNode {
        id: id.to_string(),
        rule: rule.to_string(),
        premises: premises.into_iter().map(|p| p.to_string()).collect(),
        sequent: Sequent {
            ctx: ctx.into_iter().map(|c| Formula::Text(c.to_string())).collect(),
            thm: Formula::Text(thm.to_string()),
        },
    }
}

/// The three-node scenario: a root cut over an axiom with context and an
/// axiom without.
fn three_node_proof() -> Proof {
    Proof {
        root: "n0".to_string(),
        nodes: vec![
            node("n0", "Cut", vec!["n1", "n2"], vec![], "A"),
            node("n1", "Id", vec![], vec!["A"], "A"),
            node("n2", "Id", vec![], vec![], "A"),
        ],
    }
}

#[test]
fn end_to_end_three_node_elimination() {
    let p = three_node_proof();
    assert_eq!(fragility_score(&p), 13);

    let q = cut_eliminate_all(&p);
    assert_eq!(q.root, "n1");
    assert_eq!(q.nodes.len(), 1);
    assert_eq!(q.nodes[0].id, "n1");
    assert_eq!(fragility_score(&q), 1);
}

#[test]
fn root_elimination_keeps_first_premise() {
    let p = three_node_proof();
    let q = cut_eliminate_root(&p);
    assert_eq!(q.root, "n1");
    assert_eq!(q.nodes.len(), 1);
    assert_eq!(q.nodes[0].id, "n1");

    // a proof without a root cut comes back unchanged
    let cut_free = Proof {
        root: "r".to_string(),
        nodes: vec![node("r", "Id", vec![], vec![], "A")],
    };
    let r = cut_eliminate_root(&cut_free);
    assert_eq!(r, cut_free);
}

#[test]
fn dangling_premise_is_rejected_before_and_after_rewrite() {
    let p = Proof {
        root: "n0".to_string(),
        nodes: vec![node("n0", "Id", vec!["missing"], vec![], "A")],
    };
    match validate_local_wf(&p) {
        Err(WfError::DanglingPremise(n, q)) => {
            assert_eq!(n, "n0");
            assert_eq!(q, "missing");
        },
        other => panic!("expected a dangling-premise error, got {:?}", other),
    }
    let rewritten = cut_eliminate_all(&p);
    assert!(matches!(
        validate_local_wf(&rewritten),
        Err(WfError::DanglingPremise(_, _))
    ));
}

#[test]
fn root_not_found_and_unknown_rule_are_reported() {
    let p = Proof {
        root: "nowhere".to_string(),
        nodes: vec![node("n0", "Id", vec![], vec![], "A")],
    };
    match validate_local_wf(&p) {
        Err(WfError::RootNotFound(r)) => assert_eq!(r, "nowhere"),
        other => panic!("expected a root-not-found error, got {:?}", other),
    }

    let q = Proof {
        root: "n0".to_string(),
        nodes: vec![
            node("n0", "Id", vec![], vec![], "A"),
            node("n1", "Flurp", vec![], vec![], "A"),
        ],
    };
    match validate_local_wf(&q) {
        Err(WfError::UnknownRule(n, r)) => {
            assert_eq!(n, "n1");
            assert_eq!(r, "Flurp");
        },
        other => panic!("expected an unknown-rule error, got {:?}", other),
    }
}

#[test]
fn rule_names_accept_aliases_and_reject_the_rest() {
    assert_eq!(rule_from_str("Cut"), Some(RuleId::Cut));
    assert_eq!(rule_from_str("CUT"), Some(RuleId::Cut));
    assert_eq!(rule_from_str("  cut  "), Some(RuleId::Cut));
    assert_eq!(rule_from_str("Id"), Some(RuleId::Id));
    assert_eq!(rule_from_str("axiom"), Some(RuleId::Id));
    assert_eq!(rule_from_str("AX"), Some(RuleId::Id));
    assert_eq!(rule_from_str("OrR1"), Some(RuleId::Or1));
    assert_eq!(rule_from_str("orright2"), Some(RuleId::Or2));
    assert_eq!(rule_from_str("AndLeft1"), Some(RuleId::AndL1));
    assert_eq!(rule_from_str("AndL2"), Some(RuleId::AndL2));
    assert_eq!(rule_from_str("AndR"), Some(RuleId::AndR));
    assert_eq!(rule_from_str("OrL"), Some(RuleId::OrL));
    assert_eq!(rule_from_str("ImpliesL"), Some(RuleId::ImpL));
    assert_eq!(rule_from_str("ImpR"), Some(RuleId::ImpR));
    assert_eq!(rule_from_str("BottomIntro"), Some(RuleId::BotI));
    assert_eq!(rule_from_str("∨L"), Some(RuleId::OrL));
    assert_eq!(rule_from_str("∧R"), Some(RuleId::AndR));
    assert_eq!(rule_from_str("→R"), Some(RuleId::ImpR));
    assert_eq!(rule_from_str("⊥I"), Some(RuleId::BotI));

    assert_eq!(rule_from_str("Flurp"), None);
    assert_eq!(rule_from_str(""), None);
    assert_eq!(rule_from_str("⊥i"), None);
}

#[test]
fn a_validated_proof_may_spell_rules_by_alias() {
    let p = Proof {
        root: "r".to_string(),
        nodes: vec![node("r", "axiom", vec![], vec!["A"], "A")],
    };
    validate_local_wf(&p).expect("alias rule names are part of the vocabulary");
}

#[test]
fn malformed_cut_is_left_untouched() {
    // A cut with a single premise does not match the rewrite precondition:
    // elimination leaves the proof as it is.
    let p = Proof {
        root: "c".to_string(),
        nodes: vec![
            node("c", "Cut", vec!["a"], vec![], "A"),
            node("a", "Id", vec![], vec![], "A"),
        ],
    };
    validate_local_wf(&p).expect("a malformed cut is still locally well-formed");
    let q = cut_eliminate_all(&p);
    assert_eq!(q, p);
    assert_eq!(fragility_score(&q), fragility_score(&p));
}

#[test]
fn transport_keeps_cuts_when_policy_enables_them() {
    let reg = Registry {
        times: vec![TimeSlice { t: 0, enabled_rules: vec![RuleId::Id, RuleId::Cut] }],
    };
    let p = three_node_proof();
    let q = transport(&p, &reg, 0, 0).expect("transport ok");
    assert_eq!(q, p);
    assert!(q.nodes.iter().any(|n| n.rule == "Cut"));
}

#[test]
fn transport_eliminates_cuts_when_policy_drops_them() {
    let reg = Registry {
        times: vec![
            TimeSlice { t: 0, enabled_rules: vec![RuleId::Id, RuleId::Cut] },
            TimeSlice { t: 1, enabled_rules: vec![RuleId::Id] },
        ],
    };
    let p = three_node_proof();
    let q = transport(&p, &reg, 0, 1).expect("transport ok");
    assert!(q.nodes.iter().all(|n| n.rule != "Cut"));
    assert_eq!(q.root, "n1");
}

#[test]
fn transport_rejects_an_ill_formed_input() {
    let reg = Registry::default();
    let p = Proof {
        root: "gone".to_string(),
        nodes: vec![node("n0", "Id", vec![], vec![], "A")],
    };
    match transport(&p, &reg, 0, 0) {
        Err(TransportError::InputInvalid(WfError::RootNotFound(r))) => assert_eq!(r, "gone"),
        other => panic!("expected an input-invalid error, got {:?}", other),
    }
}

#[test]
fn transport_reports_an_eliminator_defect_as_output_invalid() {
    // A node that cites a cut as its premise loses that premise when the
    // cut is deleted: the rewritten proof fails the second validation.
    let reg = Registry::default();
    let p = Proof {
        root: "r".to_string(),
        nodes: vec![
            node("r", "ImpR", vec!["c"], vec![], "A"),
            node("c", "Cut", vec!["a", "b"], vec![], "A"),
            node("a", "Id", vec![], vec![], "A"),
            node("b", "Id", vec![], vec![], "A"),
        ],
    };
    validate_local_wf(&p).expect("wf before");
    match transport(&p, &reg, 0, 0) {
        Err(TransportError::OutputInvalid(WfError::DanglingPremise(n, q))) => {
            assert_eq!(n, "r");
            assert_eq!(q, "c");
        },
        other => panic!("expected an output-invalid error, got {:?}", other),
    }
}

#[test]
fn certificate_reports_removed_cuts_and_pruned_nodes() {
    let reg = Registry::default(); // empty: no rule enabled, cuts must go
    let p = three_node_proof();
    let (q, cert) = transport_with_cert(&p, &reg, 3, 7).expect("transport ok");
    assert_eq!(q.nodes.len(), 1);
    assert_eq!(cert.removed_cuts, 1);
    assert_eq!(cert.pruned_nodes, 2);
    assert_eq!(cert.fragility_before, 13);
    assert_eq!(cert.fragility_after, 1);
}
