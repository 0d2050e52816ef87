use mud_engine::engine::{Action, Engine, Envelope, OutMessage, Payload};

fn open(engine: &mut Engine, id: u32) -> Vec<Action> {
    engine.step(Envelope { connection_id: id, payload: Payload::Opened })
}

fn text(engine: &mut Engine, id: u32, s: &str) -> Vec<Action> {
    engine.step(Envelope { connection_id: id, payload: Payload::CommandText(s.to_string()) })
}

fn close(engine: &mut Engine, id: u32) -> Vec<Action> {
    engine.step(Envelope { connection_id: id, payload: Payload::Closed })
}

#[test]
fn open_sends_login_prompt() {
    let mut engine = Engine::new();
    let acts = open(&mut engine, 7);
    assert_eq!(acts.len(), 1);
    match &acts[0] {
        Action::Unicast(id, OutMessage::Chat(msg, cat)) => {
            assert_eq!(*id, 7);
            assert_eq!(msg, "Please enter a name");
            assert_eq!(*cat, 3);
        },
        _ => panic!("expected the login prompt"),
    }
}

#[test]
fn login_grants_health_and_broadcasts_join() {
    let mut engine = Engine::new();
    open(&mut engine, 1);
    let acts = text(&mut engine, 1, "alice");
    assert_eq!(acts.len(), 2);
    match &acts[0] {
        Action::Unicast(1, OutMessage::Health(h, mh)) => {
            assert_eq!(*h, 44);
            assert_eq!(*mh, 47);
        },
        _ => panic!("expected the health update first"),
    }
    match &acts[1] {
        Action::Broadcast(OutMessage::Chat(msg, cat)) => {
            assert_eq!(msg, "alice has joined");
            assert_eq!(*cat, 1);
        },
        _ => panic!("expected the join notice"),
    }
    let c = engine.character_of(1).expect("alice should be playing");
    assert_eq!(c.name, "alice");
    assert_eq!(c.health, 44);
    assert_eq!(c.max_health, 47);
    assert!(engine.name_taken("alice"));
}

#[test]
fn duplicate_name_is_rejected() {
    let mut engine = Engine::new();
    open(&mut engine, 1);
    open(&mut engine, 2);
    text(&mut engine, 1, "alice");
    let acts = text(&mut engine, 2, "alice");
    assert_eq!(acts.len(), 1);
    match &acts[0] {
        Action::Unicast(2, OutMessage::Chat(msg, cat)) => {
            assert_eq!(msg, "The name alice is already taken, do better this time");
            assert_eq!(*cat, 1);
        },
        _ => panic!("expected the rejection notice"),
    }
    // The loser stays in Login and may try again under another name.
    assert!(engine.character_of(2).is_none());
    let acts = text(&mut engine, 2, "bob");
    assert_eq!(acts.len(), 2);
    assert_eq!(engine.character_of(2).unwrap().name, "bob");
}

#[test]
fn resolved_command_is_logged_and_broadcast() {
    let mut engine = Engine::new();
    open(&mut engine, 1);
    text(&mut engine, 1, "alice");
    let acts = text(&mut engine, 1, "talk");
    assert_eq!(acts.len(), 2);
    match &acts[0] {
        Action::Unicast(1, OutMessage::Chat(msg, cat)) => {
            assert_eq!(msg, "talk is not implemented yet");
            assert_eq!(*cat, 1);
        },
        _ => panic!("expected the placeholder notice"),
    }
    match &acts[1] {
        Action::Broadcast(OutMessage::Chat(msg, cat)) => {
            assert_eq!(msg, "alice: \"talk\"");
            assert_eq!(*cat, 2);
        },
        _ => panic!("expected the chat line broadcast"),
    }
    let history = engine.history_snapshot();
    assert_eq!(history, vec!["alice: \"talk\"".to_string()]);
}

#[test]
fn typo_within_tolerance_resolves() {
    let mut engine = Engine::new();
    open(&mut engine, 1);
    text(&mut engine, 1, "alice");
    let acts = text(&mut engine, 1, "tal me later");
    // "tal" is one edit from "talk": the resolved keyword is logged.
    match &acts[1] {
        Action::Broadcast(OutMessage::Chat(msg, 2)) => assert_eq!(msg, "alice: \"talk\""),
        _ => panic!("expected the chat line broadcast"),
    }
}

#[test]
fn unknown_command_gets_a_private_notice() {
    let mut engine = Engine::new();
    open(&mut engine, 1);
    text(&mut engine, 1, "alice");
    let acts = text(&mut engine, 1, "frobnicate the door");
    assert_eq!(acts.len(), 1);
    match &acts[0] {
        Action::Unicast(1, OutMessage::Chat(msg, cat)) => {
            assert_eq!(msg, "I don't know what \"frobnicate\" means");
            assert_eq!(*cat, 1);
        },
        _ => panic!("expected the unknown-command notice"),
    }
    // Nothing joined the history and nothing was broadcast.
    assert!(engine.history_snapshot().is_empty());
}

#[test]
fn kick_costs_three_health() {
    let mut engine = Engine::new();
    open(&mut engine, 1);
    text(&mut engine, 1, "alice");
    let acts = text(&mut engine, 1, "kick");
    assert_eq!(acts.len(), 3);
    match &acts[0] {
        Action::Unicast(1, OutMessage::Chat(msg, 1)) => {
            assert_eq!(msg, "You kick yourself, ouch");
        },
        _ => panic!("expected the kick flavor line"),
    }
    match &acts[1] {
        Action::Unicast(1, OutMessage::Health(h, mh)) => {
            assert_eq!(*h, 41);
            assert_eq!(*mh, 47);
        },
        _ => panic!("expected exactly one health update"),
    }
    match &acts[2] {
        Action::Broadcast(OutMessage::Chat(msg, 2)) => assert_eq!(msg, "alice: \"kick\""),
        _ => panic!("expected the chat line broadcast"),
    }
    assert_eq!(engine.character_of(1).unwrap().health, 41);
}

#[test]
fn kick_is_repeatable_below_zero() {
    let mut engine = Engine::new();
    open(&mut engine, 1);
    text(&mut engine, 1, "alice");
    for _ in 0..20 {
        text(&mut engine, 1, "kick");
    }
    // 44 - 20 * 3: no lower bound is enforced.
    assert_eq!(engine.character_of(1).unwrap().health, -16);
}

#[test]
fn quit_asks_the_transport_to_close() {
    let mut engine = Engine::new();
    open(&mut engine, 1);
    text(&mut engine, 1, "alice");
    let acts = text(&mut engine, 1, "quit");
    assert_eq!(acts.len(), 3);
    match &acts[0] {
        Action::Unicast(1, OutMessage::Chat(msg, 1)) => assert_eq!(msg, "No, goodbye"),
        _ => panic!("expected the farewell"),
    }
    match &acts[1] {
        Action::Broadcast(OutMessage::Chat(msg, 2)) => assert_eq!(msg, "alice: \"quit\""),
        _ => panic!("expected the chat line broadcast"),
    }
    match &acts[2] {
        Action::CloseConnection(id) => assert_eq!(*id, 1),
        _ => panic!("expected the close request"),
    }
    // The engine does not synthesize the disconnect itself.
    assert!(engine.character_of(1).is_some());
}

#[test]
fn late_login_replays_history_in_order() {
    let mut engine = Engine::new();
    open(&mut engine, 1);
    text(&mut engine, 1, "alice");
    text(&mut engine, 1, "kick");
    text(&mut engine, 1, "talk");
    open(&mut engine, 2);
    let acts = text(&mut engine, 2, "bob");
    // Health update, the two history lines in append order, join notice.
    assert_eq!(acts.len(), 4);
    match &acts[0] {
        Action::Unicast(2, OutMessage::Health(44, 47)) => {},
        _ => panic!("expected the health update first"),
    }
    match &acts[1] {
        Action::Unicast(2, OutMessage::Chat(msg, cat)) => {
            assert_eq!(msg, "alice: \"kick\"");
            assert_eq!(*cat, 0);
        },
        _ => panic!("expected the first history line"),
    }
    match &acts[2] {
        Action::Unicast(2, OutMessage::Chat(msg, cat)) => {
            assert_eq!(msg, "alice: \"talk\"");
            assert_eq!(*cat, 0);
        },
        _ => panic!("expected the second history line"),
    }
    match &acts[3] {
        Action::Broadcast(OutMessage::Chat(msg, 1)) => assert_eq!(msg, "bob has joined"),
        _ => panic!("expected the join notice last"),
    }
}

#[test]
fn chat_lines_broadcast_in_history_order() {
    let mut engine = Engine::new();
    open(&mut engine, 1);
    open(&mut engine, 2);
    text(&mut engine, 1, "alice");
    text(&mut engine, 2, "bob");
    let mut broadcast_lines: Vec<String> = Vec::new();
    for (id, cmd) in [(1u32, "kick"), (2u32, "talk"), (1u32, "score")] {
        for act in text(&mut engine, id, cmd) {
            if let Action::Broadcast(OutMessage::Chat(msg, 2)) = act {
                broadcast_lines.push(msg);
            }
        }
    }
    assert_eq!(engine.history_snapshot(), broadcast_lines);
    assert_eq!(
        broadcast_lines,
        vec![
            "alice: \"kick\"".to_string(),
            "bob: \"talk\"".to_string(),
            "alice: \"score\"".to_string(),
        ],
    );
}

#[test]
fn disconnect_frees_the_name() {
    let mut engine = Engine::new();
    open(&mut engine, 1);
    text(&mut engine, 1, "alice");
    let acts = close(&mut engine, 1);
    assert_eq!(acts.len(), 1);
    match &acts[0] {
        Action::Broadcast(OutMessage::Chat(msg, 1)) => assert_eq!(msg, "alice has departed"),
        _ => panic!("expected the departure notice"),
    }
    assert!(!engine.has_player(1));
    assert!(!engine.name_taken("alice"));
    // The name is immediately reusable by a new connection.
    open(&mut engine, 2);
    let acts = text(&mut engine, 2, "alice");
    assert_eq!(acts.len(), 2);
    assert_eq!(engine.character_of(2).unwrap().name, "alice");
}

#[test]
fn disconnect_in_login_is_silent() {
    let mut engine = Engine::new();
    open(&mut engine, 1);
    let acts = close(&mut engine, 1);
    assert!(acts.is_empty());
    assert!(!engine.has_player(1));
}

#[test]
fn stale_envelopes_are_ignored() {
    let mut engine = Engine::new();
    let acts = text(&mut engine, 9, "hello");
    assert!(acts.is_empty());
    let acts = close(&mut engine, 9);
    assert!(acts.is_empty());
    assert!(!engine.has_player(9));
}

#[test]
fn ticks_count_up_by_one() {
    let mut engine = Engine::new();
    assert_eq!(engine.tick_count(), 0);
    for expected in 1..=5u64 {
        let acts = engine.step(Envelope { connection_id: u32::MAX, payload: Payload::Tick });
        assert!(acts.is_empty());
        assert_eq!(engine.tick_count(), expected);
    }
}

#[test]
fn command_traffic_does_not_tick() {
    let mut engine = Engine::new();
    open(&mut engine, 1);
    text(&mut engine, 1, "alice");
    text(&mut engine, 1, "kick");
    close(&mut engine, 1);
    assert_eq!(engine.tick_count(), 0);
}

#[test]
fn empty_input_has_nothing_to_resolve() {
    let mut engine = Engine::new();
    open(&mut engine, 1);
    text(&mut engine, 1, "alice");
    for input in ["", "   ", "\t \n"] {
        let acts = text(&mut engine, 1, input);
        assert_eq!(acts.len(), 1);
        match &acts[0] {
            Action::Unicast(1, OutMessage::Chat(msg, 1)) => {
                assert_eq!(msg, "I don't know what \"\" means");
            },
            _ => panic!("expected the unknown-command notice"),
        }
    }
    assert!(engine.history_snapshot().is_empty());
}

#[test]
fn login_name_is_the_whole_line() {
    let mut engine = Engine::new();
    open(&mut engine, 1);
    text(&mut engine, 1, "lady jane");
    let c = engine.character_of(1).unwrap();
    assert_eq!(c.name, "lady jane");
    assert!(engine.name_taken("lady jane"));
}
