use rubia::client::{handle_server_message, PendingChunks, PlayerTable};
use rubia::messages::{spawn_position, ClientMessage, PlayerPosition, ServerMessage};
use rubia::server::{handle_client_message, PlayerRegistry, Reply};

fn pos(x: f32, y: f32, z: f32) -> PlayerPosition {
    PlayerPosition { x: x.to_bits(), y: y.to_bits(), z: z.to_bits() }
}

#[test]
fn spawn_is_sixteen_one_sixteen() {
    assert_eq!(spawn_position(), pos(16.0, 1.0, 16.0));
}

#[test]
fn connect_places_player_at_spawn() {
    let mut r: PlayerRegistry<u32> = PlayerRegistry::new();
    r.connect("127.0.0.1:5000".to_string(), 7);
    assert_eq!(r.len(), 1);
    assert_eq!(r.position(&"127.0.0.1:5000".to_string()), Some(spawn_position()));
    assert_eq!(*r.connection_at(0), 7);
}

#[test]
fn reconnect_replaces_player() {
    let mut r: PlayerRegistry<u32> = PlayerRegistry::new();
    let id = "a".to_string();
    r.connect(id.clone(), 1);
    r.update_position(&id, pos(1.0, 2.0, 3.0));
    r.connect(id.clone(), 2);
    assert_eq!(r.len(), 1);
    assert_eq!(r.position(&id), Some(spawn_position()));
    assert_eq!(*r.connection_at(0), 2);
}

#[test]
fn update_is_read_back() {
    let mut r: PlayerRegistry<()> = PlayerRegistry::new();
    let id = "p".to_string();
    r.connect(id.clone(), ());
    let reply = handle_client_message(&mut r, &id, ClientMessage::PlayerPositionUpdate(pos(5.0, 1.0, -2.5)));
    assert_eq!(reply, Reply::BroadcastPositions);
    assert_eq!(r.position(&id), Some(pos(5.0, 1.0, -2.5)));
}

#[test]
fn update_of_unknown_player_is_ignored() {
    let mut r: PlayerRegistry<()> = PlayerRegistry::new();
    r.connect("p".to_string(), ());
    let reply = handle_client_message(
        &mut r,
        &"ghost".to_string(),
        ClientMessage::PlayerPositionUpdate(pos(5.0, 1.0, 0.0)),
    );
    assert_eq!(reply, Reply::BroadcastPositions);
    assert_eq!(r.len(), 1);
    assert_eq!(r.position(&"ghost".to_string()), None);
    assert_eq!(r.position(&"p".to_string()), Some(spawn_position()));
}

#[test]
fn other_messages_give_replies() {
    let mut r: PlayerRegistry<()> = PlayerRegistry::new();
    let id = "p".to_string();
    r.connect(id.clone(), ());
    assert_eq!(
        handle_client_message(&mut r, &id, ClientMessage::RequestChunks { center_x: 3, center_y: -4 }),
        Reply::SendChunksAround { center_x: 3, center_y: -4 }
    );
    assert_eq!(
        handle_client_message(&mut r, &id, ClientMessage::Connect { player_name: "Ada".to_string() }),
        Reply::Greet { player_name: "Ada".to_string() }
    );
    assert_eq!(
        handle_client_message(&mut r, &id, ClientMessage::Move { x: 1, y: 2, z: 3 }),
        Reply::Ignore
    );
    assert_eq!(r.position(&id), Some(spawn_position()));
}

#[test]
fn disconnect_removes_only_that_player() {
    let mut r: PlayerRegistry<u8> = PlayerRegistry::new();
    r.connect("a".to_string(), 1);
    r.connect("b".to_string(), 2);
    r.connect("c".to_string(), 3);
    r.disconnect(&"b".to_string());
    assert_eq!(r.len(), 2);
    assert_eq!(r.position(&"b".to_string()), None);
    assert_eq!(*r.connection_at(0), 1);
    assert_eq!(*r.connection_at(1), 3);
    r.disconnect(&"zzz".to_string());
    assert_eq!(r.len(), 2);
}

#[test]
fn positions_message_lists_players_in_order() {
    let mut r: PlayerRegistry<()> = PlayerRegistry::new();
    r.connect("a".to_string(), ());
    r.connect("b".to_string(), ());
    r.update_position(&"b".to_string(), pos(2.0, 0.0, 0.0));
    assert_eq!(
        r.positions_message(),
        ServerMessage::PlayerPositions(vec![
            ("a".to_string(), spawn_position()),
            ("b".to_string(), pos(2.0, 0.0, 0.0)),
        ])
    );
}

#[test]
fn broadcast_positions_reach_client() {
    let mut r: PlayerRegistry<()> = PlayerRegistry::new();
    for name in ["x", "y", "z"] {
        r.connect(name.to_string(), ());
    }
    r.update_position(&"y".to_string(), pos(9.0, 9.0, 9.0));
    let mut table = PlayerTable::new();
    table.insert("stale".to_string(), pos(0.0, 0.0, 0.0));
    let mut pending = PendingChunks::default();
    handle_server_message(&mut table, &mut pending, r.positions_message());
    assert_eq!(table.len(), 3);
    for name in ["x", "y", "z"] {
        assert_eq!(table.get(&name.to_string()).copied(), r.position(&name.to_string()));
    }
    assert_eq!(table.get(&"stale".to_string()).copied(), None);
}
