use rubia::client::chunk_cubes;
use rubia::world::{generate_world, Chunk, CHUNK_SIZE};

#[test]
fn start_area_centre_gets_nine_chunks() {
    let w = generate_world(&|_x: i32, _y: i32| -> u8 { 1 });
    for cx in -1..=1 {
        for cy in -1..=1 {
            assert_eq!(w.chunks_around(cx, cy).len(), 9);
        }
    }
    assert_eq!(w.chunks_around(2, 0).len(), 6);
}

#[test]
fn drawn_column_reads_transposed_height() {
    let mut blocks = [[0u8; CHUNK_SIZE]; CHUNK_SIZE];
    blocks[2][5] = 3;
    let c = Chunk { x: 0, y: 0, blocks };
    let cubes = chunk_cubes(c.x, c.y, &c.to_flat_vec());
    assert_eq!(cubes.len(), 3);
    assert!(cubes.iter().all(|q| q.x == 5 && q.z == 2));
    assert!(cubes[2].top && !cubes[1].top && !cubes[0].top);
}

#[test]
fn generated_columns_each_have_one_top() {
    let c = Chunk::generate(1, 1, &|x: i32, y: i32| -> u8 { ((x * 31 + y * 17) % 256) as u8 });
    let cubes = chunk_cubes(c.x, c.y, &c.to_flat_vec());
    assert_eq!(cubes.iter().filter(|q| q.top).count(), 1024);
    assert!(cubes.len() >= 1024 && cubes.len() <= 10 * 1024);
}

#[test]
fn start_up_chunk_equals_fresh_generation() {
    let sample = |x: i32, y: i32| -> u8 { ((x * 7 + y * 3) % 13) as u8 };
    let w = generate_world(&sample);
    for x in -2..=2 {
        for y in -2..=2 {
            let fresh = Chunk::generate(x, y, &sample);
            assert_eq!(w.get((x, y)).unwrap().blocks, fresh.blocks);
        }
    }
}
