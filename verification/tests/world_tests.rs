use rubia::messages::ServerMessage;
use rubia::world::{generate_world, Chunk, ChunkMap, CHUNK_SIZE};

fn numbered_chunk(x: i32, y: i32) -> Chunk {
    let mut blocks = [[0u8; CHUNK_SIZE]; CHUNK_SIZE];
    for i in 0..CHUNK_SIZE {
        for j in 0..CHUNK_SIZE {
            blocks[i][j] = ((i * 7 + j) % 251) as u8;
        }
    }
    Chunk { x, y, blocks }
}

#[test]
fn flat_vec_is_row_major() {
    let c = numbered_chunk(0, 0);
    let flat = c.to_flat_vec();
    assert_eq!(flat.len(), 1024);
    assert_eq!(flat[0], 0);
    assert_eq!(flat[1], 1);
    assert_eq!(flat[32], 7);
    assert_eq!(flat[3 * 32 + 5], 26);
    assert_eq!(flat[1023], ((31 * 7 + 31) % 251) as u8);
}

#[test]
fn generate_clamps_heights() {
    let c = Chunk::generate(0, 0, &|wx: i32, _wy: i32| -> u8 { (wx * 8) as u8 });
    assert_eq!(c.blocks[0][0], 1); // raw 0
    assert_eq!(c.blocks[1][0], 8); // raw 8
    assert_eq!(c.blocks[1][5], 8);
    assert_eq!(c.blocks[2][0], 10); // raw 16
    assert_eq!(c.blocks[31][31], 10); // raw 248
    for i in 0..CHUNK_SIZE {
        for j in 0..CHUNK_SIZE {
            assert!(1 <= c.blocks[i][j] && c.blocks[i][j] <= 10);
        }
    }
}

#[test]
fn generate_samples_world_coordinates() {
    // The sampler reports the offset of the world coordinate inside chunk (3, -2).
    let c = Chunk::generate(3, -2, &|wx: i32, wy: i32| -> u8 {
        let i = wx - 3 * 32;
        let j = wy + 2 * 32;
        assert!((0..32).contains(&i) && (0..32).contains(&j));
        if i == 4 && j == 9 { 7 } else { 2 }
    });
    assert_eq!(c.x, 3);
    assert_eq!(c.y, -2);
    assert_eq!(c.blocks[4][9], 7);
    assert_eq!(c.blocks[9][4], 2);
}

#[test]
fn generated_world_holds_the_start_area() {
    let w = generate_world(&|_x: i32, _y: i32| -> u8 { 3 });
    for x in -2..=2 {
        for y in -2..=2 {
            let c = w.get((x, y)).expect("chunk in start area");
            assert_eq!((c.x, c.y), (x, y));
            assert_eq!(c.blocks[10][20], 3);
        }
    }
    assert!(w.get((3, 0)).is_none());
    assert!(w.get((0, -3)).is_none());
}

#[test]
fn chunk_map_insert_replaces() {
    let mut m = ChunkMap::new();
    assert!(m.get((1, 1)).is_none());
    m.insert((1, 1), numbered_chunk(1, 1));
    m.insert((1, 1), numbered_chunk(5, 5));
    assert_eq!(m.get((1, 1)).unwrap().x, 5);
}

fn coords(msgs: &[ServerMessage]) -> Vec<(i32, i32)> {
    msgs.iter()
        .map(|m| match m {
            ServerMessage::ChunkData { x, y, .. } => (*x, *y),
            _ => panic!("not chunk data"),
        })
        .collect()
}

#[test]
fn chunks_around_center_sends_nine_in_order() {
    let w = generate_world(&|_x: i32, _y: i32| -> u8 { 4 });
    let msgs = w.chunks_around(0, 0);
    assert_eq!(
        coords(&msgs),
        vec![(-1, -1), (-1, 0), (-1, 1), (0, -1), (0, 0), (0, 1), (1, -1), (1, 0), (1, 1)]
    );
    match &msgs[4] {
        ServerMessage::ChunkData { blocks, .. } => {
            assert_eq!(blocks.len(), 1024);
            assert!(blocks.iter().all(|b| *b == 4));
        }
        _ => panic!(),
    }
}

#[test]
fn chunks_around_edge_sends_only_loaded() {
    let w = generate_world(&|_x: i32, _y: i32| -> u8 { 4 });
    assert_eq!(coords(&w.chunks_around(2, 2)), vec![(1, 1), (1, 2), (2, 1), (2, 2)]);
    assert!(w.chunks_around(10, 10).is_empty());
}

#[test]
fn chunk_data_carries_flattened_chunk() {
    let mut m = ChunkMap::new();
    let c = numbered_chunk(0, 0);
    let expected = c.to_flat_vec();
    m.insert((0, 0), c);
    let msgs = m.chunks_around(1, 1);
    assert_eq!(msgs, vec![ServerMessage::ChunkData { x: 0, y: 0, blocks: expected }]);
}
