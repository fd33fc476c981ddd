//! Wire-envelope round trips for every message variant.
use presence_sync::codec::decode_client_message;
use presence_sync::codec::decode_player;
use presence_sync::codec::decode_server_message;
use presence_sync::codec::encode_client_message;
use presence_sync::codec::encode_player;
use presence_sync::codec::encode_server_message;
use presence_sync::messages::ClientMessage;
use presence_sync::messages::Coord;
use presence_sync::messages::Player;
use presence_sync::messages::ServerMessage;

fn coord(t: &str) -> Coord {
    Coord::from_text(t.to_string()).unwrap()
}

#[test]
fn test_player_serialization() {
    let player = Player {
        id: "test-id".to_string(),
        name: "Test Player".to_string(),
        x: coord("1.0"),
        y: coord("2.0"),
        z: coord("3.0"),
    };

    let json = encode_player(&player);
    let deserialized: Player = decode_player(&json).unwrap();

    assert_eq!(player.id, deserialized.id);
    assert_eq!(player.name, deserialized.name);
    assert_eq!(player.x.text, deserialized.x.text);
    assert_eq!(player.y.text, deserialized.y.text);
    assert_eq!(player.z.text, deserialized.z.text);
}

#[test]
fn test_client_message_serialization() {
    let join_msg = ClientMessage::Join {
        player_id: "test-id".to_string(),
        player_name: "TestPlayer".to_string(),
    };

    let json = encode_client_message(&join_msg);
    let deserialized: ClientMessage = decode_client_message(&json).unwrap();

    match deserialized {
        ClientMessage::Join { player_name, .. } => {
            assert_eq!(player_name, "TestPlayer");
        }
        _ => panic!("Wrong message type"),
    }
}

#[test]
fn test_server_message_serialization() {
    let player_joined_msg = ServerMessage::PlayerJoined {
        player_id: "test-id".to_string(),
        player_name: "Test Player".to_string(),
        x: coord("0.0"),
        y: coord("0.0"),
        z: coord("0.0"),
    };

    let json = encode_server_message(&player_joined_msg);
    let deserialized: ServerMessage = decode_server_message(&json).unwrap();

    match deserialized {
        ServerMessage::PlayerJoined {
            player_id,
            player_name,
            x,
            y,
            z,
        } => {
            assert_eq!(player_id, "test-id");
            assert_eq!(player_name, "Test Player");
            assert_eq!(x.text, "0.0");
            assert_eq!(y.text, "0.0");
            assert_eq!(z.text, "0.0");
        }
        _ => panic!("Wrong message type"),
    }
}

#[test]
fn test_position_update_message() {
    let update_msg = ClientMessage::UpdatePosition {
        x: coord("10.5"),
        y: coord("20.3"),
        z: coord("30.7"),
    };

    let json = encode_client_message(&update_msg);
    let deserialized: ClientMessage = decode_client_message(&json).unwrap();

    match deserialized {
        ClientMessage::UpdatePosition { x, y, z } => {
            assert_eq!(x.text, "10.5");
            assert_eq!(y.text, "20.3");
            assert_eq!(z.text, "30.7");
        }
        _ => panic!("Wrong message type"),
    }
}

#[test]
fn test_leave_message() {
    let leave_msg = ClientMessage::Leave;
    let json = encode_client_message(&leave_msg);
    let deserialized: ClientMessage = decode_client_message(&json).unwrap();

    match deserialized {
        ClientMessage::Leave => {
            // Test passed
        }
        _ => panic!("Wrong message type"),
    }
}

#[test]
fn test_error_message() {
    let error_msg = ServerMessage::Error {
        message: "Test error".to_string(),
    };

    let json = encode_server_message(&error_msg);
    let deserialized: ServerMessage = decode_server_message(&json).unwrap();

    match deserialized {
        ServerMessage::Error { message } => {
            assert_eq!(message, "Test error");
        }
        _ => panic!("Wrong message type"),
    }
}

#[test]
fn test_game_state_message() {
    let players = vec![
        Player {
            id: "player1".to_string(),
            name: "Player One".to_string(),
            x: coord("1.0"),
            y: coord("2.0"),
            z: coord("3.0"),
        },
        Player {
            id: "player2".to_string(),
            name: "Player Two".to_string(),
            x: coord("4.0"),
            y: coord("5.0"),
            z: coord("6.0"),
        },
    ];

    let game_state_msg = ServerMessage::GameState { players };
    let json = encode_server_message(&game_state_msg);
    let deserialized: ServerMessage = decode_server_message(&json).unwrap();

    match deserialized {
        ServerMessage::GameState {
            players: deserialized_players,
        } => {
            assert_eq!(deserialized_players.len(), 2);
            assert_eq!(deserialized_players[0].id, "player1");
            assert_eq!(deserialized_players[1].id, "player2");
        }
        _ => panic!("Wrong message type"),
    }
}

#[test]
fn test_join_wire_text_is_exact() {
    let msg = ClientMessage::Join {
        player_id: "p1".to_string(),
        player_name: "Alice".to_string(),
    };
    assert_eq!(
        encode_client_message(&msg),
        "{\"type\":\"Join\",\"player_id\":\"p1\",\"player_name\":\"Alice\"}"
    );
}

#[test]
fn test_game_state_wire_text_is_exact() {
    let msg = ServerMessage::GameState {
        players: vec![Player {
            id: "p1".to_string(),
            name: "Alice".to_string(),
            x: coord("0.0"),
            y: coord("0.0"),
            z: coord("0.0"),
        }],
    };
    assert_eq!(
        encode_server_message(&msg),
        "{\"type\":\"GameState\",\"players\":[{\"id\":\"p1\",\"name\":\"Alice\",\"x\":0.0,\"y\":0.0,\"z\":0.0}]}"
    );
}

#[test]
fn test_empty_game_state_round_trip() {
    let msg = ServerMessage::GameState { players: vec![] };
    let json = encode_server_message(&msg);
    assert_eq!(json, "{\"type\":\"GameState\",\"players\":[]}");
    match decode_server_message(&json).unwrap() {
        ServerMessage::GameState { players } => assert_eq!(players.len(), 0),
        _ => panic!("Wrong message type"),
    }
}

#[test]
fn test_player_left_round_trip() {
    let msg = ServerMessage::PlayerLeft {
        player_id: "p1".to_string(),
    };
    let json = encode_server_message(&msg);
    match decode_server_message(&json).unwrap() {
        ServerMessage::PlayerLeft { player_id } => assert_eq!(player_id, "p1"),
        _ => panic!("Wrong message type"),
    }
}

#[test]
fn test_player_moved_round_trip() {
    let msg = ServerMessage::PlayerMoved {
        player_id: "p1".to_string(),
        x: coord("-12.5"),
        y: coord("2e3"),
        z: coord("0.125"),
    };
    let json = encode_server_message(&msg);
    match decode_server_message(&json).unwrap() {
        ServerMessage::PlayerMoved { player_id, x, y, z } => {
            assert_eq!(player_id, "p1");
            assert_eq!(x.text, "-12.5");
            assert_eq!(y.text, "2e3");
            assert_eq!(z.text, "0.125");
        }
        _ => panic!("Wrong message type"),
    }
}

#[test]
fn test_escaped_characters_round_trip() {
    let msg = ServerMessage::Error {
        message: "a \"quoted\" name with a \\ backslash".to_string(),
    };
    let json = encode_server_message(&msg);
    match decode_server_message(&json).unwrap() {
        ServerMessage::Error { message } => {
            assert_eq!(message, "a \"quoted\" name with a \\ backslash");
        }
        _ => panic!("Wrong message type"),
    }
}

#[test]
fn test_empty_strings_round_trip() {
    let msg = ClientMessage::Join {
        player_id: "".to_string(),
        player_name: "".to_string(),
    };
    let json = encode_client_message(&msg);
    match decode_client_message(&json).unwrap() {
        ClientMessage::Join {
            player_id,
            player_name,
        } => {
            assert_eq!(player_id, "");
            assert_eq!(player_name, "");
        }
        _ => panic!("Wrong message type"),
    }
}

#[test]
fn test_malformed_envelopes_are_dropped() {
    assert!(decode_client_message("").is_none());
    assert!(decode_client_message("{}").is_none());
    assert!(decode_client_message("{\"type\":\"Fly\"}").is_none());
    assert!(decode_client_message("{\"type\":\"Join\",\"player_id\":\"p1\"}").is_none());
    assert!(decode_client_message("{\"type\":\"Leave\"} ").is_none());
    assert!(decode_client_message("{\"type\":\"Leave").is_none());
    assert!(decode_client_message("{\"type\":\"Join\",\"player_id\":\"\\x\",\"player_name\":\"a\"}").is_none());
    assert!(decode_client_message("{\"type\":\"UpdatePosition\",\"x\":,\"y\":2,\"z\":3}").is_none());
    assert!(decode_server_message("{\"type\":\"GameState\",\"players\":[]").is_none());
}

#[test]
fn test_coord_rejects_framing_text() {
    assert!(Coord::from_text("".to_string()).is_none());
    assert!(Coord::from_text("1,2".to_string()).is_none());
    assert!(Coord::from_text("1\"".to_string()).is_none());
    assert!(Coord::from_text("-1.5e2".to_string()).is_some());
}

#[test]
fn test_decoder_accepts_standard_escapes() {
    let json = "{\"type\":\"Error\",\"message\":\"line\\nbreak\\ttab\\/slash\\r\\b\\f\"}";
    match decode_server_message(json).unwrap() {
        ServerMessage::Error { message } => {
            assert_eq!(message, "line\nbreak\ttab/slash\r\u{0008}\u{000C}");
        }
        _ => panic!("Wrong message type"),
    }
    // Unicode escapes are outside the accepted grammar and drop the frame.
    assert!(decode_server_message("{\"type\":\"Error\",\"message\":\"\\u0041\"}").is_none());
}
