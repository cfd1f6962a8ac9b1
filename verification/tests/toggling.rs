use displayctl::toggle::{lists_display, Toggle, ToggleAction, ToggleEvent};

const UUID: &str = "E4DB018A-E193-64D6-0857-D6964E3302DB";

/// Runs a request through `events`, returning every action asked for.
fn run(enabled: bool, events: Vec<ToggleEvent>) -> Vec<ToggleAction> {
    let (mut toggle, first) = Toggle::start(String::from(UUID), enabled);
    let mut actions = vec![first];
    for event in events {
        assert!(toggle.accepts(&event));
        actions.push(toggle.step(event));
    }
    actions
}

fn finished_with(action: &ToggleAction) -> Option<Result<(), String>> {
    match action {
        ToggleAction::Finish(r) => Some(r.clone()),
        _ => None,
    }
}

#[test]
fn disabling_an_enabled_display_configures_it() {
    let actions = run(
        false,
        vec![
            ToggleEvent::Resolved(Some(7)),
            ToggleEvent::Online(vec![1, 7]),
            ToggleEvent::CurrentState { active: true, mirrored: false },
            ToggleEvent::Status(0),
            ToggleEvent::Status(0),
            ToggleEvent::Status(0),
        ],
    );
    assert_eq!(actions.len(), 7);
    assert!(matches!(actions[0], ToggleAction::ResolveUuid));
    assert!(matches!(actions[1], ToggleAction::ListOnline));
    assert!(matches!(actions[2], ToggleAction::QueryState(7)));
    assert!(matches!(actions[3], ToggleAction::BeginConfiguration));
    assert!(matches!(actions[4], ToggleAction::ConfigureEnabled(7, false)));
    assert!(matches!(actions[5], ToggleAction::CompleteConfiguration));
    assert_eq!(finished_with(&actions[6]), Some(Ok(())));
}

#[test]
fn display_already_in_requested_state_is_left_alone() {
    // A mirrored display counts as enabled.
    let actions = run(
        true,
        vec![
            ToggleEvent::Resolved(Some(3)),
            ToggleEvent::Online(vec![3]),
            ToggleEvent::CurrentState { active: false, mirrored: true },
        ],
    );
    assert_eq!(actions.len(), 4);
    assert_eq!(finished_with(&actions[3]), Some(Ok(())));
    assert!(!actions.iter().any(|a| matches!(a, ToggleAction::ConfigureEnabled(..))));

    let (mut toggle, _) = Toggle::start(String::from(UUID), false);
    toggle.step(ToggleEvent::Resolved(Some(3)));
    toggle.step(ToggleEvent::Online(vec![3]));
    let done = toggle.step(ToggleEvent::CurrentState { active: false, mirrored: false });
    assert_eq!(finished_with(&done), Some(Ok(())));
    assert!(!toggle.accepts(&ToggleEvent::Status(0)));
}

#[test]
fn unknown_uuid_is_an_error() {
    let actions = run(true, vec![ToggleEvent::Resolved(None)]);
    assert_eq!(
        finished_with(&actions[1]),
        Some(Err(format!("Invalid UUID or display not found: {}", UUID)))
    );
}

#[test]
fn offline_display_is_an_error() {
    let actions = run(true, vec![ToggleEvent::Resolved(Some(9)), ToggleEvent::Online(vec![1, 2])]);
    assert_eq!(finished_with(&actions[2]), Some(Err(format!("Display {} is not online", UUID))));
}

#[test]
fn configuration_failures_report_the_error_code() {
    let prefix = || {
        vec![
            ToggleEvent::Resolved(Some(5)),
            ToggleEvent::Online(vec![5]),
            ToggleEvent::CurrentState { active: false, mirrored: false },
        ]
    };
    let mut events = prefix();
    events.push(ToggleEvent::Status(1000));
    let actions = run(true, events);
    assert_eq!(
        finished_with(actions.last().unwrap()),
        Some(Err(String::from("Failed to begin display configuration (error: 1000)")))
    );

    let mut events = prefix();
    events.push(ToggleEvent::Status(0));
    events.push(ToggleEvent::Status(-1));
    let actions = run(true, events);
    assert!(matches!(actions[4], ToggleAction::ConfigureEnabled(5, true)));
    assert_eq!(
        finished_with(actions.last().unwrap()),
        Some(Err(String::from("Failed to set display enabled=true (error: -1)")))
    );

    let mut events = prefix();
    events.push(ToggleEvent::Status(0));
    events.push(ToggleEvent::Status(0));
    events.push(ToggleEvent::Status(1004));
    let actions = run(true, events);
    assert_eq!(
        finished_with(actions.last().unwrap()),
        Some(Err(String::from("Failed to complete display configuration (error: 1004)")))
    );
}

#[test]
fn failure_message_names_requested_state() {
    let actions = run(
        false,
        vec![
            ToggleEvent::Resolved(Some(5)),
            ToggleEvent::Online(vec![5]),
            ToggleEvent::CurrentState { active: true, mirrored: true },
            ToggleEvent::Status(0),
            ToggleEvent::Status(1001),
        ],
    );
    assert_eq!(
        finished_with(actions.last().unwrap()),
        Some(Err(String::from("Failed to set display enabled=false (error: 1001)")))
    );
}

#[test]
fn answers_of_the_wrong_kind_are_not_accepted() {
    let (toggle, _) = Toggle::start(String::from(UUID), true);
    assert!(toggle.accepts(&ToggleEvent::Resolved(None)));
    assert!(!toggle.accepts(&ToggleEvent::Status(0)));
    assert!(!toggle.accepts(&ToggleEvent::Online(vec![])));
}

#[test]
fn online_membership() {
    assert!(lists_display(&vec![4, 5, 6], 6));
    assert!(!lists_display(&vec![4, 5, 6], 7));
    assert!(!lists_display(&vec![], 0));
}

#[test]
fn request_takes_at_most_six_answers() {
    let (mut toggle, _) = Toggle::start(String::from(UUID), true);
    let events = vec![
        ToggleEvent::Resolved(Some(2)),
        ToggleEvent::Online(vec![2]),
        ToggleEvent::CurrentState { active: false, mirrored: false },
        ToggleEvent::Status(0),
        ToggleEvent::Status(0),
        ToggleEvent::Status(0),
    ];
    for event in events {
        assert!(toggle.accepts(&event));
        toggle.step(event);
    }
    assert!(!toggle.accepts(&ToggleEvent::Status(0)));
    assert!(!toggle.accepts(&ToggleEvent::Resolved(Some(2))));
    assert!(!toggle.accepts(&ToggleEvent::Online(vec![2])));
    assert!(!toggle.accepts(&ToggleEvent::CurrentState { active: true, mirrored: false }));
}
