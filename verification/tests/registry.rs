use proof_transport::registry::{Registry, RuleId, TimeSlice};

#[test]
fn registry_enabled_at_works() {
    let reg = Registry {
        times: vec![
            TimeSlice { t: 0, enabled_rules: vec![RuleId::Id, RuleId::Cut] },
            TimeSlice { t: 1, enabled_rules: vec![RuleId::Id] },
        ],
    };

    let at0 = reg.enabled_at(0);
    let at1 = reg.enabled_at(1);

    assert!(at0.contains(&RuleId::Id));
    assert!(at0.contains(&RuleId::Cut));
    assert_eq!(at1, vec![RuleId::Id]);
}

#[test]
fn registry_selection_scenario() {
    // slices at t=0 (rules {Id, Cut}) and t=1 (rules {Id})
    let reg = Registry {
        times: vec![
            TimeSlice { t: 0, enabled_rules: vec![RuleId::Id, RuleId::Cut] },
            TimeSlice { t: 1, enabled_rules: vec![RuleId::Id] },
        ],
    };
    assert!(reg.enabled_at(0).contains(&RuleId::Cut));
    assert!(!reg.enabled_at(1).contains(&RuleId::Cut));
    assert!(reg.enabled_at(1).contains(&RuleId::Id));
    // later times keep the latest slice
    assert_eq!(reg.enabled_at(100), vec![RuleId::Id]);

    // with no qualifying slice the answer is empty, not permissive
    let late = Registry {
        times: vec![TimeSlice { t: 5, enabled_rules: vec![RuleId::Id, RuleId::Cut] }],
    };
    assert!(late.enabled_at(4).is_empty());
    let empty = Registry::new();
    assert!(empty.enabled_at(0).is_empty());
    assert!(empty.enabled_at(u64::MAX).is_empty());
}

#[test]
fn registry_enable_and_disable_record_slices() {
    let mut reg = Registry::new();
    reg.enable(RuleId::Cut, 5);
    assert!(reg.enabled_at(4).is_empty());
    assert_eq!(reg.enabled_at(5), vec![RuleId::Cut]);
    assert_eq!(reg.enabled_at(6), vec![RuleId::Cut]);

    reg.enable(RuleId::Id, 6);
    assert_eq!(reg.enabled_at(6), vec![RuleId::Cut, RuleId::Id]);

    reg.disable(RuleId::Cut, 7);
    assert_eq!(reg.enabled_at(7), vec![RuleId::Id]);
    assert_eq!(reg.enabled_at(6), vec![RuleId::Cut, RuleId::Id]);
    assert!(reg.enabled_at(0).is_empty());
}
