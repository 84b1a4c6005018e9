use charter::{
    advance_startup, ballot_num_bytes, domain_key_hex, is_empty_domain_error, load_ballot_num,
    StartupAction, StartupEvent, StartupState, TransportError, DOMAIN_NAME,
};

fn bonds(txids: &[&str]) -> StartupEvent {
    StartupEvent::Bonds { txids: txids.iter().map(|s| s.to_string()).collect() }
}

fn empty_domain() -> TransportError {
    TransportError::Rpc {
        code: -1,
        message: "No decided ballots for this domain".into(),
    }
}

/// Runs a node whose own next ballot is 12 through some events.
fn run(events: Vec<StartupEvent>) -> (StartupState, Vec<StartupAction>) {
    let mut state = StartupState::Bonds;
    let mut actions = Vec::new();
    for event in events {
        let (next, action) = advance_startup(state, event, 12);
        state = next;
        actions.push(action);
    }
    (state, actions)
}

#[test]
fn detects_empty_domain_rpc_error() {
    let err = TransportError::Rpc {
        code: -1,
        message: "No decided ballots for this domain".into(),
    };
    assert!(is_empty_domain_error(&err));
}

#[test]
fn ignores_other_transport_errors() {
    let err = TransportError::Rpc {
        code: -1,
        message: "some other rpc error".into(),
    };
    assert!(!is_empty_domain_error(&err));
}

#[test]
fn ignores_other_codes_and_failures() {
    let err = TransportError::Rpc {
        code: -2,
        message: "No decided ballots for this domain".into(),
    };
    assert!(!is_empty_domain_error(&err));
    assert!(!is_empty_domain_error(&TransportError::Other));
}

#[test]
fn domain_key_value() {
    assert_eq!(
        domain_key_hex(DOMAIN_NAME),
        "17f24e073d4eb05ef1779b2ea4c9895e7ad0d25e08d188ef5818aa9e1112f5ef"
    );
    assert_eq!(
        domain_key_hex(""),
        "e3b0c44298fc1c149afbf4c8996fb92427ae41e4649b934ca495991b7852b855"
    );
}

#[test]
fn node_comes_up_and_reconciles() {
    let (state, actions) = run(vec![
        bonds(&["t1", "t2"]),
        StartupEvent::Scheduled { success: true },
        StartupEvent::DomainTip { tip_height: 40 },
        StartupEvent::Reconciled { next_ballot: 41 },
    ]);
    assert!(matches!(state, StartupState::Running { bond } if bond == "t1"));
    assert!(matches!(actions[0], StartupAction::ScheduleDomain));
    assert!(matches!(actions[1], StartupAction::QueryDomain));
    assert!(matches!(
        actions[2],
        StartupAction::Reconcile { from_ballot: 12, to_ballot: 40, max_fetch: 100 }
    ));
    assert!(matches!(actions[3], StartupAction::SaveAndRun { next_ballot: 41 }));
}

#[test]
fn node_runs_although_reconciling_failed() {
    let (state, actions) = run(vec![
        bonds(&["t1"]),
        StartupEvent::Scheduled { success: true },
        StartupEvent::DomainTip { tip_height: 40 },
        StartupEvent::ReconcileFailed,
    ]);
    assert!(matches!(state, StartupState::Running { .. }));
    assert!(matches!(actions[3], StartupAction::RunUnreconciled));
}

#[test]
fn empty_domain_is_not_reconciled() {
    let (state, actions) = run(vec![
        bonds(&["t1"]),
        StartupEvent::Scheduled { success: true },
        StartupEvent::DomainInfoFailed { error: empty_domain() },
    ]);
    assert!(matches!(state, StartupState::Running { .. }));
    assert!(matches!(actions[2], StartupAction::RunEmptyDomain { fresh: false }));
    let state = StartupState::DomainInfo { bond: "t1".to_string() };
    let event = StartupEvent::DomainInfoFailed { error: empty_domain() };
    let (_, action) = advance_startup(state, event, 0);
    assert!(matches!(action, StartupAction::RunEmptyDomain { fresh: true }));
}

#[test]
fn node_gives_up() {
    let scheduled = || StartupEvent::Scheduled { success: true };
    for events in [
        vec![bonds(&[])],
        vec![StartupEvent::BondsFailed],
        vec![bonds(&["t"]), StartupEvent::Scheduled { success: false }],
        vec![bonds(&["t"]), StartupEvent::ScheduleFailed],
        vec![
            bonds(&["t"]),
            scheduled(),
            StartupEvent::DomainInfoFailed { error: TransportError::Other },
        ],
    ] {
        let (state, actions) = run(events);
        assert!(matches!(state, StartupState::Stopped));
        assert!(matches!(actions.last(), Some(StartupAction::Exit)));
    }
}

#[test]
fn unexpected_events_change_nothing() {
    let (state, actions) = run(vec![scheduled_too_early(), bonds(&["t"]), bonds(&["u"])]);
    assert!(matches!(state, StartupState::Schedule { bond } if bond == "t"));
    assert!(matches!(actions[0], StartupAction::Wait));
    assert!(matches!(actions[2], StartupAction::Wait));
    let (state, _) = run(vec![StartupEvent::BondsFailed, bonds(&["t"])]);
    assert!(matches!(state, StartupState::Stopped));
}

fn scheduled_too_early() -> StartupEvent {
    StartupEvent::Scheduled { success: true }
}

#[test]
fn ballot_number_is_little_endian() {
    assert_eq!(ballot_num_bytes(0x0102), vec![2, 1, 0, 0, 0, 0, 0, 0]);
    assert_eq!(ballot_num_bytes(u64::MAX), vec![255; 8]);
    assert_eq!(load_ballot_num(Some(&[2, 1, 0, 0, 0, 0, 0, 0x80])), 0x8000_0000_0000_0102);
}

#[test]
fn ballot_number_reads_back() {
    for num in [0, 1, 255, 256, 1 << 40, u64::MAX] {
        let mut bytes = ballot_num_bytes(num);
        assert_eq!(load_ballot_num(Some(&bytes)), num);
        bytes.push(7);
        assert_eq!(load_ballot_num(Some(&bytes)), num);
    }
}

#[test]
fn missing_ballot_number_is_zero() {
    assert_eq!(load_ballot_num(None), 0);
    assert_eq!(load_ballot_num(Some(&[])), 0);
    assert_eq!(load_ballot_num(Some(&[1; 7])), 0);
}
