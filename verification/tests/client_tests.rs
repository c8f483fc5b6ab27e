use rubia::client::{chunk_cubes, handle_server_message, render_pending_chunks, BlockCube, PendingChunks, PlayerTable};
use rubia::messages::{PlayerPosition, ServerMessage};

fn p(v: u32) -> PlayerPosition {
    PlayerPosition { x: v, y: v, z: v }
}

#[test]
fn player_positions_replace_table_last_wins() {
    let mut table = PlayerTable::new();
    table.insert("old".to_string(), p(1));
    let mut pending = PendingChunks::default();
    handle_server_message(
        &mut table,
        &mut pending,
        ServerMessage::PlayerPositions(vec![
            ("a".to_string(), p(2)),
            ("b".to_string(), p(3)),
            ("a".to_string(), p(4)),
        ]),
    );
    assert_eq!(table.len(), 2);
    assert_eq!(table.get(&"a".to_string()).copied(), Some(p(4)));
    assert_eq!(table.get(&"b".to_string()).copied(), Some(p(3)));
    assert_eq!(table.get(&"old".to_string()).copied(), None);
    assert!(pending.0.is_empty());
}

#[test]
fn chunk_data_is_queued_in_order() {
    let mut table = PlayerTable::new();
    let mut pending = PendingChunks::default();
    handle_server_message(&mut table, &mut pending, ServerMessage::ChunkData { x: 1, y: 2, blocks: vec![5; 3] });
    handle_server_message(&mut table, &mut pending, ServerMessage::ChunkData { x: -1, y: 0, blocks: vec![] });
    assert_eq!(pending.0, vec![(1, 2, vec![5, 5, 5]), (-1, 0, vec![])]);
    assert_eq!(table.len(), 0);
}

#[test]
fn other_server_messages_are_ignored() {
    let mut table = PlayerTable::new();
    table.insert("a".to_string(), p(1));
    let mut pending = PendingChunks::default();
    handle_server_message(&mut table, &mut pending, ServerMessage::Welcome { player_id: 4 });
    handle_server_message(&mut table, &mut pending, ServerMessage::PlayerMoved { player_id: 4, x: 1, y: 2, z: 3 });
    assert_eq!(table.get(&"a".to_string()).copied(), Some(p(1)));
    assert!(pending.0.is_empty());
}

#[test]
fn chunk_cubes_stack_columns() {
    let mut blocks = vec![0u8; 1024];
    blocks[0] = 2; // column x = 0, y = 0
    blocks[3 * 32 + 1] = 1; // column x = 1, y = 3
    let cubes = chunk_cubes(1, -1, &blocks);
    assert_eq!(
        cubes,
        vec![
            BlockCube { x: 32, y: 0, z: -32, top: false },
            BlockCube { x: 32, y: 1, z: -32, top: true },
            BlockCube { x: 33, y: 0, z: -29, top: true },
        ]
    );
}

#[test]
fn chunk_cubes_count_equals_total_height() {
    let blocks: Vec<u8> = (0..1024).map(|n| (n % 5) as u8).collect();
    let cubes = chunk_cubes(0, 0, &blocks);
    let total: usize = blocks.iter().map(|b| *b as usize).sum();
    assert_eq!(cubes.len(), total);
    assert_eq!(cubes.iter().filter(|c| c.top).count(), blocks.iter().filter(|b| **b > 0).count());
}

#[test]
fn render_pending_drains_queue() {
    let mut pending = PendingChunks::default();
    let mut a = vec![0u8; 1024];
    a[0] = 1;
    let mut b = vec![0u8; 1024];
    b[1] = 1;
    pending.0.push((0, 0, a));
    pending.0.push((2, 0, b));
    let cubes = render_pending_chunks(&mut pending);
    assert!(pending.0.is_empty());
    assert_eq!(
        cubes,
        vec![BlockCube { x: 0, y: 0, z: 0, top: true }, BlockCube { x: 65, y: 0, z: 0, top: true }]
    );
}

#[test]
fn zero_height_chunk_at_extreme_coordinates_draws_nothing() {
    let blocks = vec![0u8; 1024];
    assert!(chunk_cubes(i32::MAX, i32::MIN, &blocks).is_empty());
    let mut pending = PendingChunks::default();
    pending.0.push((i32::MAX, 0, blocks));
    assert!(render_pending_chunks(&mut pending).is_empty());
    assert!(pending.0.is_empty());
}

#[test]
fn roster_keeps_insertion_order() {
    let mut table = PlayerTable::new();
    table.insert("b".to_string(), p(1));
    table.insert("a".to_string(), p(2));
    table.insert("b".to_string(), p(3));
    assert_eq!(table.len(), 2);
    assert_eq!(table.key_at(0), "b");
    assert_eq!(*table.value_at(0), p(3));
    assert_eq!(table.find(&"a".to_string()), Some(1));
    table.remove(&"b".to_string());
    assert_eq!(table.key_at(0), "a");
    assert_eq!(table.find(&"b".to_string()), None);
}
