//! Registry, session state machine and bus behaviour.
use presence_sync::bus::Bus;
use presence_sync::bus::RecvOutcome;
use presence_sync::messages::ClientMessage;
use presence_sync::messages::Coord;
use presence_sync::messages::Player;
use presence_sync::messages::ServerMessage;
use presence_sync::registry::Registry;
use presence_sync::session::handle_client_message;
use presence_sync::session::handle_disconnect;

fn coord(t: &str) -> Coord {
    Coord::from_text(t.to_string()).unwrap()
}

fn join(id: &str, name: &str) -> ClientMessage {
    ClientMessage::Join {
        player_id: id.to_string(),
        player_name: name.to_string(),
    }
}

#[test]
fn test_registry_try_insert_is_exclusive() {
    let mut reg = Registry::new();
    let p = Player {
        id: "p1".to_string(),
        name: "Alice".to_string(),
        x: coord("0.0"),
        y: coord("0.0"),
        z: coord("0.0"),
    };
    assert!(reg.try_insert(p.clone()));
    assert!(reg.contains(&"p1".to_string()));
    assert!(!reg.try_insert(p));
    assert_eq!(reg.snapshot().len(), 1);
}

#[test]
fn test_registry_update_absent_is_noop() {
    let mut reg = Registry::new();
    reg.update(&"ghost".to_string(), coord("1.0"), coord("2.0"), coord("3.0"));
    assert!(!reg.contains(&"ghost".to_string()));
    assert_eq!(reg.snapshot().len(), 0);
}

#[test]
fn test_registry_remove_reports_presence() {
    let mut reg = Registry::new();
    let p = Player {
        id: "p1".to_string(),
        name: "Alice".to_string(),
        x: coord("0.0"),
        y: coord("0.0"),
        z: coord("0.0"),
    };
    assert!(reg.try_insert(p));
    assert!(reg.remove(&"p1".to_string()));
    assert!(!reg.remove(&"p1".to_string()));
    assert!(!reg.contains(&"p1".to_string()));
}

#[test]
fn test_join_publishes_snapshot_then_joined() {
    let mut reg = Registry::new();
    let (binding, events) = handle_client_message(join("p1", "Alice"), None, &mut reg);
    assert_eq!(binding, Some("p1".to_string()));
    assert_eq!(events.len(), 2);
    match &events[0] {
        ServerMessage::GameState { players } => {
            assert_eq!(players.len(), 1);
            assert_eq!(players[0].id, "p1");
            assert_eq!(players[0].name, "Alice");
            assert_eq!(players[0].x.text, "0.0");
            assert_eq!(players[0].y.text, "0.0");
            assert_eq!(players[0].z.text, "0.0");
        }
        _ => panic!("first event must be the snapshot"),
    }
    match &events[1] {
        ServerMessage::PlayerJoined {
            player_id,
            player_name,
            x,
            y,
            z,
        } => {
            assert_eq!(player_id.as_str(), "p1");
            assert_eq!(player_name.as_str(), "Alice");
            assert_eq!(x.text, "0.0");
            assert_eq!(y.text, "0.0");
            assert_eq!(z.text, "0.0");
        }
        _ => panic!("second event must be PlayerJoined"),
    }
}

#[test]
fn test_duplicate_join_gets_error_and_stays_unbound() {
    let mut reg = Registry::new();
    let (b1, _) = handle_client_message(join("dup", "First"), None, &mut reg);
    assert_eq!(b1, Some("dup".to_string()));

    let (b2, events) = handle_client_message(join("dup", "Second"), None, &mut reg);
    assert_eq!(b2, None);
    assert_eq!(events.len(), 1);
    match &events[0] {
        ServerMessage::Error { message } => {
            assert_eq!(message.as_str(), "Player ID dup is already in use");
        }
        _ => panic!("duplicate join must produce an Error event"),
    }
    assert_eq!(reg.snapshot().len(), 1);
    assert_eq!(reg.snapshot()[0].name, "First");
}

#[test]
fn test_join_while_bound_is_rejected() {
    let mut reg = Registry::new();
    let (b1, _) = handle_client_message(join("p1", "Alice"), None, &mut reg);
    let (b2, events) = handle_client_message(join("p2", "Alias"), b1, &mut reg);
    assert_eq!(b2, Some("p1".to_string()));
    assert_eq!(events.len(), 1);
    match &events[0] {
        ServerMessage::Error { message } => {
            assert_eq!(message.as_str(), "Session already bound to a player");
        }
        _ => panic!("rebinding must produce an Error event"),
    }
    assert!(!reg.contains(&"p2".to_string()));
}

#[test]
fn test_update_moves_bound_player() {
    let mut reg = Registry::new();
    let (binding, _) = handle_client_message(join("p1", "Alice"), None, &mut reg);
    let upd = ClientMessage::UpdatePosition {
        x: coord("1.0"),
        y: coord("2.0"),
        z: coord("3.0"),
    };
    let (binding, events) = handle_client_message(upd, binding, &mut reg);
    assert_eq!(binding, Some("p1".to_string()));
    assert_eq!(events.len(), 1);
    match &events[0] {
        ServerMessage::PlayerMoved { player_id, x, y, z } => {
            assert_eq!(player_id.as_str(), "p1");
            assert_eq!(x.text, "1.0");
            assert_eq!(y.text, "2.0");
            assert_eq!(z.text, "3.0");
        }
        _ => panic!("update must produce PlayerMoved"),
    }
    let snap = reg.snapshot();
    assert_eq!(snap[0].x.text, "1.0");
    assert_eq!(snap[0].y.text, "2.0");
    assert_eq!(snap[0].z.text, "3.0");
}

#[test]
fn test_update_after_leave_is_silent() {
    let mut reg = Registry::new();
    let upd = ClientMessage::UpdatePosition {
        x: coord("1.0"),
        y: coord("2.0"),
        z: coord("3.0"),
    };
    // The session still believes it is bound, but the record is gone.
    let (binding, events) = handle_client_message(upd, Some("gone".to_string()), &mut reg);
    assert_eq!(binding, Some("gone".to_string()));
    assert!(events.is_empty());
    assert_eq!(reg.snapshot().len(), 0);
}

#[test]
fn test_update_while_unbound_is_silent() {
    let mut reg = Registry::new();
    let upd = ClientMessage::UpdatePosition {
        x: coord("1.0"),
        y: coord("2.0"),
        z: coord("3.0"),
    };
    let (binding, events) = handle_client_message(upd, None, &mut reg);
    assert_eq!(binding, None);
    assert!(events.is_empty());
}

#[test]
fn test_leave_cleans_up() {
    let mut reg = Registry::new();
    let (binding, _) = handle_client_message(join("p1", "Alice"), None, &mut reg);
    let (binding, events) = handle_client_message(ClientMessage::Leave, binding, &mut reg);
    assert_eq!(binding, None);
    assert_eq!(events.len(), 1);
    match &events[0] {
        ServerMessage::PlayerLeft { player_id } => assert_eq!(player_id.as_str(), "p1"),
        _ => panic!("leave must produce PlayerLeft"),
    }
    assert!(!reg.contains(&"p1".to_string()));
}

#[test]
fn test_disconnect_cleans_up_bound_session() {
    let mut reg = Registry::new();
    let (binding, _) = handle_client_message(join("p1", "Alice"), None, &mut reg);
    let events = handle_disconnect(binding, &mut reg);
    assert_eq!(events.len(), 1);
    match &events[0] {
        ServerMessage::PlayerLeft { player_id } => assert_eq!(player_id.as_str(), "p1"),
        _ => panic!("disconnect must produce PlayerLeft"),
    }
    assert!(!reg.contains(&"p1".to_string()));
}

#[test]
fn test_disconnect_of_unbound_session_is_silent() {
    let mut reg = Registry::new();
    let events = handle_disconnect(None, &mut reg);
    assert!(events.is_empty());
}

#[test]
fn test_full_session_scenario() {
    let mut reg = Registry::new();
    let mut bus = Bus::new(100);
    let mut sub = bus.subscribe();

    let (binding, events) = handle_client_message(join("p1", "Alice"), None, &mut reg);
    for e in events {
        bus.publish(e);
    }
    let upd = ClientMessage::UpdatePosition {
        x: coord("1.0"),
        y: coord("2.0"),
        z: coord("3.0"),
    };
    let (binding, events) = handle_client_message(upd, binding, &mut reg);
    for e in events {
        bus.publish(e);
    }
    let events = handle_disconnect(binding, &mut reg);
    for e in events {
        bus.publish(e);
    }
    assert!(!reg.contains(&"p1".to_string()));

    let observed = bus.drain(&mut sub);
    assert_eq!(observed.len(), 4);
    assert!(matches!(&observed[0], ServerMessage::GameState { players } if players.len() == 1));
    assert!(matches!(&observed[1], ServerMessage::PlayerJoined { player_id, .. } if player_id.as_str() == "p1"));
    assert!(
        matches!(&observed[2], ServerMessage::PlayerMoved { player_id, x, .. } if player_id.as_str() == "p1" && x.text == "1.0")
    );
    assert!(matches!(&observed[3], ServerMessage::PlayerLeft { player_id } if player_id.as_str() == "p1"));
}

#[test]
fn test_bus_delivers_in_publish_order() {
    let mut bus = Bus::new(10);
    let mut sub = bus.subscribe();
    bus.publish(ServerMessage::PlayerLeft {
        player_id: "a".to_string(),
    });
    bus.publish(ServerMessage::PlayerLeft {
        player_id: "b".to_string(),
    });
    match bus.recv(&mut sub) {
        RecvOutcome::Event(ServerMessage::PlayerLeft { player_id }) => assert_eq!(player_id, "a"),
        _ => panic!("first event must come first"),
    }
    match bus.recv(&mut sub) {
        RecvOutcome::Event(ServerMessage::PlayerLeft { player_id }) => assert_eq!(player_id, "b"),
        _ => panic!("second event must come second"),
    }
    assert!(matches!(bus.recv(&mut sub), RecvOutcome::Pending));
}

#[test]
fn test_bus_subscriber_misses_earlier_events() {
    let mut bus = Bus::new(10);
    bus.publish(ServerMessage::PlayerLeft {
        player_id: "a".to_string(),
    });
    let mut sub = bus.subscribe();
    assert!(matches!(bus.recv(&mut sub), RecvOutcome::Pending));
}

#[test]
fn test_bus_lagging_subscriber_is_told() {
    let mut bus = Bus::new(2);
    let mut sub = bus.subscribe();
    bus.publish(ServerMessage::PlayerLeft {
        player_id: "a".to_string(),
    });
    bus.publish(ServerMessage::PlayerLeft {
        player_id: "b".to_string(),
    });
    bus.publish(ServerMessage::PlayerLeft {
        player_id: "c".to_string(),
    });
    match bus.recv(&mut sub) {
        RecvOutcome::Lagged => {}
        _ => panic!("a subscriber behind the retained tail must see the lag"),
    }
    match bus.recv(&mut sub) {
        RecvOutcome::Event(ServerMessage::PlayerLeft { player_id }) => assert_eq!(player_id, "b"),
        _ => panic!("after the lag the oldest retained event comes next"),
    }
}

#[test]
fn test_bus_retains_latest_event() {
    let mut bus = Bus::new(1);
    let mut sub = bus.subscribe();
    for id in ["a", "b", "c"] {
        bus.publish(ServerMessage::PlayerLeft {
            player_id: id.to_string(),
        });
    }
    // The subscriber fell behind a capacity-1 buffer; after the lag it is
    // repositioned to the oldest retained event, which is always the one
    // just published.
    assert!(matches!(bus.recv(&mut sub), RecvOutcome::Lagged));
    match bus.recv(&mut sub) {
        RecvOutcome::Event(ServerMessage::PlayerLeft { player_id }) => {
            assert_eq!(player_id.as_str(), "c")
        }
        _ => panic!("the newest published event must be retained"),
    }
    assert!(matches!(bus.recv(&mut sub), RecvOutcome::Pending));
}
