use yarapi::market::{
    Agreement, AgreementEvent, AgreementEventType, AgreementState, Demand, NegotiationEngine,
    Proposal, ProposalAction, ProposalState, RequestorEvent, Subscription, SubscriptionId,
    last_event_date, list_active_agreements, list_agreements, proposals_of_events,
    route_proposal,
};

fn proposal(id: &str, prev: Option<&str>) -> Proposal {
    Proposal {
        proposal_id: id.to_string(),
        issuer_id: "issuer".to_string(),
        state: if prev.is_some() { ProposalState::Draft } else { ProposalState::Initial },
        prev_proposal_id: prev.map(|p| p.to_string()),
        properties: "{}".to_string(),
    }
}

fn agreement_event(id: &str, kind: AgreementEventType, date: i64) -> AgreementEvent {
    AgreementEvent { agreement_id: id.to_string(), event_type: kind, event_date: date }
}

#[test]
fn initial_proposals_are_countered_with_the_original_demand() {
    let demand = Demand::new("props".to_string(), "(&(golem.node.debug.subnet=x))".to_string());
    let p = proposal("p1", None);
    match route_proposal(&p, &demand) {
        ProposalAction::Counter { proposal_id, properties, constraints } => {
            assert_eq!(proposal_id, "p1");
            assert_eq!(properties, "props");
            assert_eq!(constraints, "(&(golem.node.debug.subnet=x))");
        }
        ProposalAction::Candidate => panic!("an initial proposal must be countered"),
    }

    let response = proposal("p2", Some("p1"));
    assert!(matches!(route_proposal(&response, &demand), ProposalAction::Candidate));
    assert!(response.is_response());
    assert!(!p.is_response());
}

#[test]
fn subscription_feed_scenario_counts_counters_and_agreements() {
    // subscribe with constraints C; 3 initial proposals draw 3 counters each
    // carrying C; 3 responses fill the pool; once the threshold is met,
    // min(3, target) agreements are created
    let constraints = "C".to_string();
    let demand = Demand::new("{}".to_string(), constraints.clone());
    let target = 2usize;
    let mut engine = NegotiationEngine::new(target, demand);

    let mut counters = Vec::new();
    for i in 0..3 {
        let p = proposal(&format!("init-{}", i), None);
        if let Some(ProposalAction::Counter { constraints: c, .. }) = engine.handle_proposal(p) {
            counters.push(c);
        }
    }
    assert_eq!(counters.len(), 3, "each initial proposal gets exactly one counter");
    assert!(counters.iter().all(|c| c == "C"), "each counter carries the constraints");

    for i in 0..3 {
        let p = proposal(&format!("resp-{}", i), Some(&format!("init-{}", i)));
        assert!(engine.handle_proposal(p).is_none(), "responses are never countered");
    }

    assert!(!engine.selection_ready(3), "too early and not enough margin");
    assert!(engine.selection_ready(31), "after the long wait the bare target suffices");

    engine.start_selection();
    let selected = engine.take_selected();
    assert_eq!(selected.len(), target.min(3));

    let mut agreements = Vec::new();
    for candidate in &selected {
        let mut agreement = Agreement::new(format!("agr-of-{}", candidate.id()));
        agreement.confirm();
        agreement.approve();
        agreements.push(agreement);
    }
    assert_eq!(agreements.len(), 2, "min(3, target) agreement creations");
    assert!(agreements.iter().all(|a| matches!(a.state, AgreementState::Approved)));
}

#[test]
fn selection_threshold_uses_margin_early_and_bare_target_late() {
    let demand = Demand::new("{}".to_string(), "C".to_string());
    let target = 10usize;
    // early threshold: 13 * 10 / 10 + 2 = 15 candidates
    let mut engine = NegotiationEngine::new(target, demand);
    for i in 0..14 {
        engine.handle_proposal(proposal(&format!("r{}", i), Some("x")));
    }
    assert!(!engine.selection_ready(6), "14 candidates miss the early margin");
    engine.handle_proposal(proposal("r14", Some("x")));
    assert!(engine.selection_ready(6), "15 candidates meet the early margin");
    assert!(!engine.selection_ready(5), "the early path needs more than 5 seconds");
    // late threshold: the bare target, but only after 30 seconds
    let demand2 = Demand::new("{}".to_string(), "C".to_string());
    let mut late = NegotiationEngine::new(target, demand2);
    for i in 0..10 {
        late.handle_proposal(proposal(&format!("s{}", i), Some("x")));
    }
    assert!(!late.selection_ready(30));
    assert!(late.selection_ready(31));
}

#[test]
fn zero_target_selects_nothing_after_the_long_wait() {
    let demand = Demand::new("{}".to_string(), "C".to_string());
    let mut engine = NegotiationEngine::new(0, demand);
    assert!(engine.selection_ready(31), "the bare target of zero is met at once");
    engine.start_selection();
    assert!(engine.take_selected().is_empty());
}

#[test]
fn selecting_phase_stops_countering_until_collection_resumes() {
    let demand = Demand::new("{}".to_string(), "C".to_string());
    let mut engine = NegotiationEngine::new(0, demand);
    engine.start_selection();
    assert!(engine.handle_proposal(proposal("p", None)).is_none());
    let selected = engine.take_selected();
    assert!(selected.is_empty());
    assert!(engine.handle_proposal(proposal("q", None)).is_some());
}

#[test]
fn proposals_are_extracted_from_event_pages() {
    let events = vec![
        RequestorEvent::ProposalEvent { proposal: proposal("a", None) },
        RequestorEvent::Other,
        RequestorEvent::ProposalEvent { proposal: proposal("b", Some("a")) },
    ];
    let ps = proposals_of_events(events);
    assert_eq!(ps.len(), 2);
    assert_eq!(ps[0].id(), "a");
    assert_eq!(ps[1].id(), "b");
}

#[test]
fn agreement_lifecycle_only_advances() {
    let mut agreement = Agreement::new("agr".to_string());
    assert_eq!(agreement.id(), "agr");
    assert!(matches!(agreement.state, AgreementState::Proposed));
    agreement.confirm();
    assert!(matches!(agreement.state, AgreementState::Confirmed));
    agreement.approve();
    assert!(matches!(agreement.state, AgreementState::Approved));
    agreement.terminate();
    assert!(matches!(agreement.state, AgreementState::Terminated));

    let mut rejected = Agreement::new("agr2".to_string());
    rejected.confirm();
    rejected.reject();
    assert!(matches!(rejected.state, AgreementState::Rejected));
}

#[test]
fn approved_and_active_agreements_fold_the_event_feed() {
    let events = vec![
        agreement_event("a", AgreementEventType::Approved, 1),
        agreement_event("b", AgreementEventType::Approved, 2),
        agreement_event("x", AgreementEventType::Other, 3),
        agreement_event("a", AgreementEventType::Terminated, 4),
        agreement_event("b", AgreementEventType::Approved, 5),
    ];

    let approved = list_agreements(&events);
    assert_eq!(approved, vec!["a".to_string(), "b".to_string(), "b".to_string()]);

    let active = list_active_agreements(&events);
    assert_eq!(active, vec!["b".to_string()], "terminated agreements leave; each id once");

    assert_eq!(last_event_date(&events), Some(5));
    assert_eq!(last_event_date(&vec![]), None);
}

#[test]
fn subscription_carries_its_id() {
    let id = SubscriptionId::from("sub-17".to_string());
    assert_eq!(id.as_ref(), "sub-17");
    let subscription = Subscription::new(id);
    assert_eq!(subscription.id().as_ref(), "sub-17");
}
