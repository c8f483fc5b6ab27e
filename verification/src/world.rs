use vstd::prelude::*;
use std::collections::HashMap;
use crate::messages::{ServerMessage, ServerMessageView};

verus! {

/// Width and depth of a chunk, in blocks.
pub const CHUNK_SIZE: usize = 32;

/// A square column of terrain: `blocks[i][j]` is the height of the column at
/// block offset `i` along x and `j` along y inside the chunk.
#[derive(Debug, Clone)]
pub struct Chunk {
    pub x: i32,
    pub y: i32,
    pub blocks: [[u8; CHUNK_SIZE]; CHUNK_SIZE],
}

/// Position of block `(i, j)` of a chunk in a row-major flattening.
pub open spec fn flat_index(i: int, j: int) -> int {
    i * 32 + j
}

/// A chunk coordinate whose blocks all have world coordinates that fit in an
/// `i32`.
pub open spec fn chunk_coord_fits(c: i32) -> bool {
    i32::MIN <= c * 32 && c * 32 + 31 <= i32::MAX
}

/// World coordinate of the block at `offset` inside the chunk at coordinate `c`.
pub open spec fn world_coord(c: i32, offset: int) -> i32 {
    (c * 32 + offset) as i32
}

/// A generated height is kept between 1 and 10.
pub open spec fn clamp_height(h: u8) -> u8 {
    if h < 1 {
        1
    } else if h > 10 {
        10
    } else {
        h
    }
}

/// `v` is the clamped value of some answer of `sample` at world coordinates
/// `(world_x, world_y)`.
pub open spec fn sampled_height<F: Fn(i32, i32) -> u8>(sample: F, world_x: i32, world_y: i32, v: u8) -> bool {
    exists|h: u8| #[trigger] sample.ensures((world_x, world_y), h) && v == clamp_height(h)
}

/// `c` is the chunk at `(x, y)` whose every column height is the clamped value of
/// one answer of `sample` at the column's world coordinates.
pub open spec fn is_generated<F: Fn(i32, i32) -> u8>(c: Chunk, x: i32, y: i32, sample: F) -> bool {
    &&& c.x == x
    &&& c.y == y
    &&& forall|i: int, j: int|
        0 <= i < CHUNK_SIZE && 0 <= j < CHUNK_SIZE ==> sampled_height(
            sample,
            world_coord(x, i),
            world_coord(y, j),
            #[trigger] c.height(i, j),
        )
}

/// A generated height is the sampler's answer at the column's world
/// coordinates, clamped: below 1 it becomes 1, above 10 it becomes 10, and
/// otherwise it is kept as it is.
pub proof fn law_generated_height_is_clamped_sample<F: Fn(i32, i32) -> u8>(
    c: Chunk,
    x: i32,
    y: i32,
    sample: F,
    i: int,
    j: int,
)
    requires
        is_generated(c, x, y, sample),
        0 <= i < CHUNK_SIZE,
        0 <= j < CHUNK_SIZE,
    ensures
        exists|h: u8|
            {
                &&& #[trigger] sample.ensures(((x * 32 + i) as i32, (y * 32 + j) as i32), h)
                &&& c.height(i, j) == if h < 1 {
                    1u8
                } else if h > 10 {
                    10u8
                } else {
                    h
                }
            },
{
    assert(sampled_height(sample, world_coord(x, i), world_coord(y, j), c.height(i, j)));
    let h = choose|h: u8|
        #[trigger] sample.ensures((world_coord(x, i), world_coord(y, j)), h) && c.height(i, j)
            == clamp_height(h);
    assert(sample.ensures(((x * 32 + i) as i32, (y * 32 + j) as i32), h));
}

/// Clamping keeps a height that is already in `1..=10` and moves any other
/// to the nearest bound.
pub proof fn law_clamp_height(h: u8)
    ensures
        1 <= h <= 10 ==> clamp_height(h) == h,
        h < 1 ==> clamp_height(h) == 1,
        h > 10 ==> clamp_height(h) == 10,
{
}

impl Chunk {
    /// Height of the column at offset `(i, j)`.
    pub open spec fn height(&self, i: int, j: int) -> u8 {
        self.blocks@[i]@[j]
    }

    /// The heights in row-major order (`i` major).
    pub open spec fn flat_view(&self) -> Seq<u8> {
        Seq::new((CHUNK_SIZE * CHUNK_SIZE) as nat, |n: int| self.height(n / 32, n % 32))
    }

    /// Generates the chunk at chunk coordinates `(x, y)`. The raw height of each
    /// column comes from `sample`, called with the column's world coordinates
    /// `(x * 32 + i, y * 32 + j)`; the stored height is that value clamped to
    /// `1..=10`.
    pub fn generate<F: Fn(i32, i32) -> u8>(x: i32, y: i32, sample: &F) -> (c: Chunk)
        requires
            chunk_coord_fits(x),
            chunk_coord_fits(y),
            forall|a: i32, b: i32| sample.requires((a, b)),
        ensures
            is_generated(c, x, y, *sample),
            forall|i: int, j: int|
                0 <= i < CHUNK_SIZE && 0 <= j < CHUNK_SIZE ==> 1 <= #[trigger] c.height(i, j) <= 10,
    {
        let mut blocks: [[u8; CHUNK_SIZE]; CHUNK_SIZE] = [[0u8; CHUNK_SIZE]; CHUNK_SIZE];
        let mut i: usize = 0;
        while i < CHUNK_SIZE
            invariant
                i <= CHUNK_SIZE,
                chunk_coord_fits(x),
                chunk_coord_fits(y),
                forall|a: i32, b: i32| sample.requires((a, b)),
                forall|a: int, b: int|
                    0 <= a < i && 0 <= b < CHUNK_SIZE ==> sampled_height(
                        *sample,
                        world_coord(x, a),
                        world_coord(y, b),
                        #[trigger] blocks@[a]@[b],
                    ),
            decreases CHUNK_SIZE - i,
        {
            let mut row: [u8; CHUNK_SIZE] = [0u8; CHUNK_SIZE];
            let mut j: usize = 0;
            while j < CHUNK_SIZE
                invariant
                    i < CHUNK_SIZE,
                    j <= CHUNK_SIZE,
                    chunk_coord_fits(x),
                    chunk_coord_fits(y),
                    forall|a: i32, b: i32| sample.requires((a, b)),
                    forall|b: int|
                        0 <= b < j ==> sampled_height(
                            *sample,
                            world_coord(x, i as int),
                            world_coord(y, b),
                            #[trigger] row@[b],
                        ),
                decreases CHUNK_SIZE - j,
            {
                let world_x: i32 = x * 32 + i as i32;
                let world_y: i32 = y * 32 + j as i32;
                let raw: u8 = sample(world_x, world_y);
                let height: u8 = if raw < 1 {
                    1
                } else if raw > 10 {
                    10
                } else {
                    raw
                };
                assert(world_x == world_coord(x, i as int) && world_y == world_coord(y, j as int));
                assert(sampled_height(*sample, world_x, world_y, height));
                row[j] = height;
                j = j + 1;
            }
            let ghost before = blocks;
            blocks[i] = row;
            assert forall|a: int, b: int| 0 <= a <= i && 0 <= b < CHUNK_SIZE implies sampled_height(
                *sample,
                world_coord(x, a),
                world_coord(y, b),
                #[trigger] blocks@[a]@[b],
            ) by {
                if a < i {
                    assert(blocks@[a] == before@[a]);
                }
            }
            i = i + 1;
        }
        let c = Chunk { x, y, blocks };
        assert forall|i: int, j: int|
            0 <= i < CHUNK_SIZE && 0 <= j < CHUNK_SIZE implies 1 <= #[trigger] c.height(i, j) <= 10 by {
            assert(sampled_height(*sample, world_coord(x, i), world_coord(y, j), blocks@[i]@[j]));
        }
        c
    }

    /// The heights of the chunk, row by row (`i` major), as one byte vector of
    /// `CHUNK_SIZE * CHUNK_SIZE` entries.
    pub fn to_flat_vec(&self) -> (flat: Vec<u8>)
        ensures
            flat@ == self.flat_view(),
            flat@.len() == CHUNK_SIZE * CHUNK_SIZE,
            forall|i: int, j: int|
                0 <= i < CHUNK_SIZE && 0 <= j < CHUNK_SIZE ==> #[trigger] flat@[flat_index(i, j)]
                    == self.height(i, j),
    {
        let mut flat: Vec<u8> = Vec::new();
        let mut i: usize = 0;
        while i < CHUNK_SIZE
            invariant
                i <= CHUNK_SIZE,
                flat@.len() == i * 32,
                forall|a: int, b: int|
                    0 <= a < i && 0 <= b < CHUNK_SIZE ==> #[trigger] flat@[flat_index(a, b)]
                        == self.height(a, b),
            decreases CHUNK_SIZE - i,
        {
            let row: [u8; CHUNK_SIZE] = self.blocks[i];
            let mut j: usize = 0;
            while j < CHUNK_SIZE
                invariant
                    i < CHUNK_SIZE,
                    j <= CHUNK_SIZE,
                    row@ == self.blocks@[i as int]@,
                    flat@.len() == i * 32 + j,
                    forall|a: int, b: int|
                        0 <= a < i && 0 <= b < CHUNK_SIZE ==> #[trigger] flat@[flat_index(a, b)]
                            == self.height(a, b),
                    forall|b: int|
                        0 <= b < j ==> #[trigger] flat@[flat_index(i as int, b)] == self.height(
                            i as int,
                            b,
                        ),
                decreases CHUNK_SIZE - j,
            {
                flat.push(row[j]);
                j = j + 1;
            }
            i = i + 1;
        }
        assert forall|n: int| 0 <= n < CHUNK_SIZE * CHUNK_SIZE implies flat@[n] == #[trigger] self.flat_view()[n] by {
            assert(n == flat_index(n / 32, n % 32));
        }
        assert(flat@ =~= self.flat_view());
        flat
    }
}

/// Chunk coordinates of the area the server generates at start-up.
pub open spec fn in_start_area(k: (i32, i32)) -> bool {
    -2 <= k.0 <= 2 && -2 <= k.1 <= 2
}

/// The `n`-th chunk of the 3 x 3 neighbourhood of `(cx, cy)`, `dx` major:
/// `(cx - 1, cy - 1), (cx - 1, cy), (cx - 1, cy + 1), (cx, cy - 1), ...`.
pub open spec fn neighbor(cx: i32, cy: i32, n: int) -> (i32, i32) {
    ((cx + n / 3 - 1) as i32, (cy + n % 3 - 1) as i32)
}

/// The nine chunk coordinates around `(cx, cy)`, in the order they are visited.
pub open spec fn neighbors(cx: i32, cy: i32) -> Seq<(i32, i32)> {
    Seq::new(9, |n: int| neighbor(cx, cy, n))
}

/// The message that carries chunk `c` stored under `k`.
pub open spec fn chunk_data_view(k: (i32, i32), c: Chunk) -> ServerMessageView {
    ServerMessageView::ChunkData { x: k.0, y: k.1, blocks: c.flat_view() }
}

/// One `ChunkData` message for each key of `keys` that `world` holds, in the
/// order of `keys`.
pub open spec fn chunk_messages(world: Map<(i32, i32), Chunk>, keys: Seq<(i32, i32)>) -> Seq<
    ServerMessageView,
>
    decreases keys.len(),
{
    if keys.len() == 0 {
        Seq::empty()
    } else {
        let rest = chunk_messages(world, keys.drop_last());
        let k = keys.last();
        if world.contains_key(k) {
            rest.push(chunk_data_view(k, world[k]))
        } else {
            rest
        }
    }
}

/// `a` comes before `b` with the first coordinate major.
pub open spec fn lex_lt(a: (i32, i32), b: (i32, i32)) -> bool {
    a.0 < b.0 || (a.0 == b.0 && a.1 < b.1)
}

/// The message that carries the chunk `world` stores under `k`.
pub open spec fn data_of(world: Map<(i32, i32), Chunk>, k: (i32, i32)) -> ServerMessageView {
    ServerMessageView::ChunkData { x: k.0, y: k.1, blocks: world[k].flat_view() }
}

proof fn lemma_messages_from_loaded(world: Map<(i32, i32), Chunk>, keys: Seq<(i32, i32)>)
    ensures
        chunk_messages(world, keys).len() <= keys.len(),
        forall|j: int|
            #![trigger chunk_messages(world, keys)[j]]
            0 <= j < chunk_messages(world, keys).len() ==> exists|i: int|
                0 <= i < keys.len() && world.contains_key(#[trigger] keys[i])
                    && chunk_messages(world, keys)[j] == data_of(world, keys[i]),
    decreases keys.len(),
{
    if keys.len() > 0 {
        let p = keys.drop_last();
        let prev = chunk_messages(world, p);
        let res = chunk_messages(world, keys);
        lemma_messages_from_loaded(world, p);
        assert forall|j: int| #![trigger res[j]] 0 <= j < res.len() implies exists|i: int|
            0 <= i < keys.len() && world.contains_key(#[trigger] keys[i]) && res[j] == data_of(world, keys[i]) by {
            if j < prev.len() {
                assert(res[j] == prev[j]);
                let i = choose|i: int|
                    0 <= i < p.len() && world.contains_key(#[trigger] p[i]) && prev[j] == data_of(world, p[i]);
                assert(keys[i] == p[i]);
            } else {
                assert(keys[keys.len() - 1] == keys.last());
            }
        }
    }
}

proof fn lemma_loaded_have_messages(world: Map<(i32, i32), Chunk>, keys: Seq<(i32, i32)>)
    ensures
        forall|i: int|
            0 <= i < keys.len() && world.contains_key(#[trigger] keys[i]) ==> exists|j: int|
                0 <= j < chunk_messages(world, keys).len() && #[trigger] chunk_messages(world, keys)[j]
                    == data_of(world, keys[i]),
    decreases keys.len(),
{
    if keys.len() > 0 {
        let p = keys.drop_last();
        let prev = chunk_messages(world, p);
        let res = chunk_messages(world, keys);
        lemma_loaded_have_messages(world, p);
        assert forall|i: int| 0 <= i < keys.len() && world.contains_key(#[trigger] keys[i]) implies exists|j: int|
            0 <= j < res.len() && #[trigger] res[j] == data_of(world, keys[i]) by {
            if i < keys.len() - 1 {
                assert(p[i] == keys[i]);
                let j = choose|j: int| 0 <= j < prev.len() && #[trigger] prev[j] == data_of(world, p[i]);
                assert(res[j] == prev[j]);
            } else {
                assert(res[res.len() - 1] == data_of(world, keys.last()));
            }
        }
    }
}

proof fn lemma_messages_ordered(world: Map<(i32, i32), Chunk>, keys: Seq<(i32, i32)>)
    requires
        forall|i1: int, i2: int| 0 <= i1 < i2 < keys.len() ==> lex_lt(#[trigger] keys[i1], #[trigger] keys[i2]),
    ensures
        forall|j1: int, j2: int|
            0 <= j1 < j2 < chunk_messages(world, keys).len() ==> lex_lt(
                (#[trigger] chunk_messages(world, keys)[j1]->ChunkData_x, chunk_messages(world, keys)[j1]->ChunkData_y),
                (#[trigger] chunk_messages(world, keys)[j2]->ChunkData_x, chunk_messages(world, keys)[j2]->ChunkData_y),
            ),
    decreases keys.len(),
{
    if keys.len() > 0 {
        let p = keys.drop_last();
        let prev = chunk_messages(world, p);
        let res = chunk_messages(world, keys);
        assert forall|i1: int, i2: int| 0 <= i1 < i2 < p.len() implies lex_lt(#[trigger] p[i1], #[trigger] p[i2]) by {
            assert(p[i1] == keys[i1] && p[i2] == keys[i2]);
        }
        lemma_messages_ordered(world, p);
        lemma_messages_from_loaded(world, p);
        assert forall|j1: int, j2: int| 0 <= j1 < j2 < res.len() implies lex_lt(
            (#[trigger] res[j1]->ChunkData_x, res[j1]->ChunkData_y),
            (#[trigger] res[j2]->ChunkData_x, res[j2]->ChunkData_y),
        ) by {
            assert(res[j1] == prev[j1]);
            if j2 < prev.len() {
                assert(res[j2] == prev[j2]);
            } else {
                let i = choose|i: int|
                    0 <= i < p.len() && world.contains_key(#[trigger] p[i]) && prev[j1] == data_of(world, p[i]);
                assert(p[i] == keys[i]);
                assert(lex_lt(keys[i], keys[keys.len() - 1]));
            }
        }
    }
}

/// The chunk messages for `keys` are exactly the loaded keys' chunks: every
/// message carries a loaded key of `keys` with that chunk's flattened
/// heights, every loaded key of `keys` has its message, whatever other keys
/// are missing, and when `keys` is strictly ordered, so are the messages.
pub proof fn law_chunk_messages_are_the_loaded_keys(world: Map<(i32, i32), Chunk>, keys: Seq<(i32, i32)>)
    ensures
        chunk_messages(world, keys).len() <= keys.len(),
        forall|j: int|
            #![trigger chunk_messages(world, keys)[j]]
            0 <= j < chunk_messages(world, keys).len() ==> exists|i: int|
                0 <= i < keys.len() && world.contains_key(#[trigger] keys[i])
                    && chunk_messages(world, keys)[j] == (ServerMessageView::ChunkData {
                    x: keys[i].0,
                    y: keys[i].1,
                    blocks: world[keys[i]].flat_view(),
                }),
        forall|i: int|
            0 <= i < keys.len() && world.contains_key(#[trigger] keys[i]) ==> exists|j: int|
                0 <= j < chunk_messages(world, keys).len() && #[trigger] chunk_messages(world, keys)[j]
                    == (ServerMessageView::ChunkData {
                    x: keys[i].0,
                    y: keys[i].1,
                    blocks: world[keys[i]].flat_view(),
                }),
        (forall|i1: int, i2: int| 0 <= i1 < i2 < keys.len() ==> lex_lt(#[trigger] keys[i1], #[trigger] keys[i2]))
            ==> forall|j1: int, j2: int|
            0 <= j1 < j2 < chunk_messages(world, keys).len() ==> lex_lt(
                (#[trigger] chunk_messages(world, keys)[j1]->ChunkData_x, chunk_messages(world, keys)[j1]->ChunkData_y),
                (#[trigger] chunk_messages(world, keys)[j2]->ChunkData_x, chunk_messages(world, keys)[j2]->ChunkData_y),
            ),
{
    lemma_messages_from_loaded(world, keys);
    lemma_loaded_have_messages(world, keys);
    if forall|i1: int, i2: int| 0 <= i1 < i2 < keys.len() ==> lex_lt(#[trigger] keys[i1], #[trigger] keys[i2]) {
        lemma_messages_ordered(world, keys);
    }
}

/// Each message for the neighbourhood of `(cx, cy)` carries one of its loaded
/// chunks.
proof fn lemma_neighbourhood_sent_are_loaded(world: Map<(i32, i32), Chunk>, cx: i32, cy: i32, j: int)
    requires
        i32::MIN < cx < i32::MAX,
        i32::MIN < cy < i32::MAX,
        0 <= j < chunk_messages(world, neighbors(cx, cy)).len(),
    ensures
        exists|k: (i32, i32)|
            {
                &&& cx - 1 <= k.0 <= cx + 1
                &&& cy - 1 <= k.1 <= cy + 1
                &&& #[trigger] world.contains_key(k)
                &&& chunk_messages(world, neighbors(cx, cy))[j] == (ServerMessageView::ChunkData {
                    x: k.0,
                    y: k.1,
                    blocks: world[k].flat_view(),
                })
            },
{
    let keys = neighbors(cx, cy);
    let m = chunk_messages(world, keys);
    lemma_messages_from_loaded(world, keys);
    assert(m[j] == m[j]);
    let i = choose|i: int| 0 <= i < keys.len() && world.contains_key(#[trigger] keys[i]) && m[j] == data_of(world, keys[i]);
    assert(keys[i] == neighbor(cx, cy, i));
    assert(0 <= i / 3 < 3 && 0 <= i % 3 < 3);
    assert(cx - 1 <= keys[i].0 <= cx + 1 && cy - 1 <= keys[i].1 <= cy + 1);
    assert(world.contains_key(keys[i]));
}

/// Every loaded chunk of the neighbourhood of `(cx, cy)` has its message.
proof fn lemma_neighbourhood_loaded_are_sent(world: Map<(i32, i32), Chunk>, cx: i32, cy: i32, k: (i32, i32))
    requires
        cx - 1 <= k.0 <= cx + 1,
        cy - 1 <= k.1 <= cy + 1,
        world.contains_key(k),
    ensures
        exists|j: int|
            0 <= j < chunk_messages(world, neighbors(cx, cy)).len() && #[trigger] chunk_messages(world, neighbors(cx, cy))[j]
                == (ServerMessageView::ChunkData { x: k.0, y: k.1, blocks: world[k].flat_view() }),
{
    let keys = neighbors(cx, cy);
    lemma_neighbor_index(cx, cy, k);
    let i = (k.0 - cx + 1) * 3 + (k.1 - cy + 1);
    assert(world.contains_key(keys[i]));
    lemma_loaded_have_messages(world, keys);
}

/// The messages for the neighbourhood of `(cx, cy)` come `dx` major.
proof fn lemma_neighbourhood_ordered(world: Map<(i32, i32), Chunk>, cx: i32, cy: i32)
    requires
        i32::MIN < cx < i32::MAX,
        i32::MIN < cy < i32::MAX,
    ensures
        forall|j1: int, j2: int|
            0 <= j1 < j2 < chunk_messages(world, neighbors(cx, cy)).len() ==> lex_lt(
                (#[trigger] chunk_messages(world, neighbors(cx, cy))[j1]->ChunkData_x, chunk_messages(world, neighbors(cx, cy))[j1]->ChunkData_y),
                (#[trigger] chunk_messages(world, neighbors(cx, cy))[j2]->ChunkData_x, chunk_messages(world, neighbors(cx, cy))[j2]->ChunkData_y),
            ),
{
    lemma_neighbors_sorted(cx, cy);
    lemma_messages_ordered(world, neighbors(cx, cy));
}

proof fn lemma_neighbors_sorted(cx: i32, cy: i32)
    requires
        i32::MIN < cx < i32::MAX,
        i32::MIN < cy < i32::MAX,
    ensures
        forall|i1: int, i2: int|
            0 <= i1 < i2 < 9 ==> lex_lt(#[trigger] neighbors(cx, cy)[i1], #[trigger] neighbors(cx, cy)[i2]),
{
    assert forall|i1: int, i2: int| 0 <= i1 < i2 < 9 implies lex_lt(
        #[trigger] neighbors(cx, cy)[i1],
        #[trigger] neighbors(cx, cy)[i2],
    ) by {
        assert(0 <= i1 / 3 <= i2 / 3 < 3);
        assert(i1 / 3 == i2 / 3 ==> i1 % 3 < i2 % 3);
        assert(neighbors(cx, cy)[i1] == neighbor(cx, cy, i1));
        assert(neighbors(cx, cy)[i2] == neighbor(cx, cy, i2));
    }
}

proof fn lemma_neighbor_index(cx: i32, cy: i32, k: (i32, i32))
    requires
        cx - 1 <= k.0 <= cx + 1,
        cy - 1 <= k.1 <= cy + 1,
    ensures
        neighbors(cx, cy)[(k.0 - cx + 1) * 3 + (k.1 - cy + 1)] == k,
        0 <= (k.0 - cx + 1) * 3 + (k.1 - cy + 1) < 9,
{
    let i = (k.0 - cx + 1) * 3 + (k.1 - cy + 1);
    assert(i / 3 == k.0 - cx + 1 && i % 3 == k.1 - cy + 1);
}

/// The model of a sequence of messages.
pub open spec fn messages_view(v: Seq<ServerMessage>) -> Seq<ServerMessageView> {
    v.map_values(|m: ServerMessage| m@)
}

/// Builds the start-up world: the 25 chunks with both coordinates in `-2..=2`,
/// each generated with `sample` at its own coordinates.
pub fn generate_world<F: Fn(i32, i32) -> u8>(sample: &F) -> (w: ChunkMap)
    requires
        forall|a: i32, b: i32| sample.requires((a, b)),
    ensures
        forall|k: (i32, i32)| #[trigger] w@.contains_key(k) <==> in_start_area(k),
        forall|k: (i32, i32)| #[trigger] w@.contains_key(k) ==> is_generated(w@[k], k.0, k.1, *sample),
{
    let mut world = ChunkMap::new();
    let mut x: i32 = -2;
    while x <= 2
        invariant
            -2 <= x <= 3,
            forall|a: i32, b: i32| sample.requires((a, b)),
            forall|k: (i32, i32)| #[trigger] world@.contains_key(k) <==> (in_start_area(k) && k.0 < x),
            forall|k: (i32, i32)| #[trigger] world@.contains_key(k) ==> is_generated(world@[k], k.0, k.1, *sample),
        decreases 3 - x,
    {
        let mut y: i32 = -2;
        while y <= 2
            invariant
                -2 <= x <= 2,
                -2 <= y <= 3,
                    forall|a: i32, b: i32| sample.requires((a, b)),
                forall|k: (i32, i32)|
                    #[trigger] world@.contains_key(k) <==> (in_start_area(k) && (k.0 < x || (k.0 == x
                        && k.1 < y))),
                forall|k: (i32, i32)| #[trigger] world@.contains_key(k) ==> is_generated(world@[k], k.0, k.1, *sample),
            decreases 3 - y,
        {
            let c = Chunk::generate(x, y, sample);
            world.insert((x, y), c);
            y = y + 1;
        }
        x = x + 1;
    }
    world
}

/// The integer under which the chunk at `k` is stored: distinct coordinates get
/// distinct integers.
pub open spec fn chunk_key(k: (i32, i32)) -> i64 {
    (k.0 * 0x1_0000_0000 + (k.1 + 0x8000_0000)) as i64
}

proof fn lemma_chunk_key_injective(a: (i32, i32), b: (i32, i32))
    ensures
        chunk_key(a) == chunk_key(b) ==> a == b,
{
    assert(i64::MIN <= a.0 * 0x1_0000_0000 + (a.1 + 0x8000_0000) <= i64::MAX);
    assert(i64::MIN <= b.0 * 0x1_0000_0000 + (b.1 + 0x8000_0000) <= i64::MAX);
    if chunk_key(a) == chunk_key(b) {
        assert(a.0 * 0x1_0000_0000 + (a.1 + 0x8000_0000) == b.0 * 0x1_0000_0000 + (b.1 + 0x8000_0000));
        assert(a.0 == b.0) by (nonlinear_arith)
            requires
                a.0 * 0x1_0000_0000 + (a.1 + 0x8000_0000) == b.0 * 0x1_0000_0000 + (b.1 + 0x8000_0000),
                0 <= a.1 + 0x8000_0000 < 0x1_0000_0000,
                0 <= b.1 + 0x8000_0000 < 0x1_0000_0000,
        ;
    }
}

/// `chunk_key(k)`, computed.
fn key_of(k: (i32, i32)) -> (r: i64)
    ensures
        r == chunk_key(k),
{
    (k.0 as i64) * 0x1_0000_0000 + (k.1 as i64 + 0x8000_0000)
}

/// The loaded chunks of the world, keyed by chunk coordinates.
pub struct ChunkMap {
    chunks: HashMap<i64, Chunk>,
}

impl View for ChunkMap {
    type V = Map<(i32, i32), Chunk>;

    closed spec fn view(&self) -> Map<(i32, i32), Chunk> {
        Map::new(
            |k: (i32, i32)| self.chunks@.contains_key(chunk_key(k)),
            |k: (i32, i32)| self.chunks@[chunk_key(k)],
        )
    }
}

impl ChunkMap {
    /// An empty map.
    pub fn new() -> (m: ChunkMap)
        ensures
            m@ == Map::<(i32, i32), Chunk>::empty(),
    {
        let m = ChunkMap { chunks: HashMap::new() };
        assert(m@ =~= Map::<(i32, i32), Chunk>::empty());
        m
    }

    /// Stores `chunk` under `key`, replacing what was stored there.
    pub fn insert(&mut self, key: (i32, i32), chunk: Chunk)
        ensures
            final(self)@ == old(self)@.insert(key, chunk),
    {
        broadcast use vstd::std_specs::hash::group_hash_axioms;

        let k = key_of(key);
        let _previous = self.chunks.insert(k, chunk);
        assert forall|q: (i32, i32)| #[trigger] self@.contains_key(q) <==> old(self)@.insert(
            key,
            chunk,
        ).contains_key(q) by {
            lemma_chunk_key_injective(q, key);
        }
        assert forall|q: (i32, i32)| #[trigger] self@.contains_key(q) implies self@[q] == old(
            self,
        )@.insert(key, chunk)[q] by {
            lemma_chunk_key_injective(q, key);
        }
        assert(self@ =~= old(self)@.insert(key, chunk));
    }

    /// The chunk stored under `key`, if any.
    pub fn get(&self, key: (i32, i32)) -> (r: Option<&Chunk>)
        ensures
            match r {
                Some(c) => self@.contains_key(key) && *c == self@[key],
                None => !self@.contains_key(key),
            },
    {
        broadcast use vstd::std_specs::hash::group_hash_axioms;

        let k = key_of(key);
        self.chunks.get(&k)
    }

    /// The `ChunkData` messages for the chunks of the 3 x 3 neighbourhood of
    /// `(center_x, center_y)` that the map holds, `dx` major, each carrying the
    /// chunk's coordinates and its flattened heights.
    pub fn chunks_around(&self, center_x: i32, center_y: i32) -> (msgs: Vec<ServerMessage>)
        requires
            i32::MIN < center_x < i32::MAX,
            i32::MIN < center_y < i32::MAX,
        ensures
            messages_view(msgs@) == chunk_messages(self@, neighbors(center_x, center_y)),
            forall|j: int|
                #![trigger msgs@[j]]
                0 <= j < msgs@.len() ==> exists|k: (i32, i32)|
                    {
                        &&& center_x - 1 <= k.0 <= center_x + 1
                        &&& center_y - 1 <= k.1 <= center_y + 1
                        &&& #[trigger] self@.contains_key(k)
                        &&& msgs@[j]@ == (ServerMessageView::ChunkData {
                            x: k.0,
                            y: k.1,
                            blocks: self@[k].flat_view(),
                        })
                    },
            forall|k: (i32, i32)|
                center_x - 1 <= k.0 <= center_x + 1 && center_y - 1 <= k.1 <= center_y + 1
                    && #[trigger] self@.contains_key(k) ==> exists|j: int|
                    0 <= j < msgs@.len() && #[trigger] msgs@[j]@ == (ServerMessageView::ChunkData {
                        x: k.0,
                        y: k.1,
                        blocks: self@[k].flat_view(),
                    }),
            forall|j1: int, j2: int|
                0 <= j1 < j2 < msgs@.len() ==> {
                    ||| (#[trigger] msgs@[j1]@)->ChunkData_x < (#[trigger] msgs@[j2]@)->ChunkData_x
                    ||| msgs@[j1]@->ChunkData_x == msgs@[j2]@->ChunkData_x && msgs@[j1]@->ChunkData_y
                        < msgs@[j2]@->ChunkData_y
                },
    {
        let ghost keys = neighbors(center_x, center_y);
        let mut msgs: Vec<ServerMessage> = Vec::new();
        let mut dx: i32 = -1;
        while dx <= 1
            invariant
                -1 <= dx <= 2,
                    i32::MIN < center_x < i32::MAX,
                i32::MIN < center_y < i32::MAX,
                keys == neighbors(center_x, center_y),
                messages_view(msgs@) == chunk_messages(self@, keys.take((dx + 1) * 3)),
            decreases 2 - dx,
        {
            let mut dy: i32 = -1;
            while dy <= 1
                invariant
                    -1 <= dx <= 1,
                    -1 <= dy <= 2,
                            i32::MIN < center_x < i32::MAX,
                    i32::MIN < center_y < i32::MAX,
                    keys == neighbors(center_x, center_y),
                    messages_view(msgs@) == chunk_messages(self@, keys.take((dx + 1) * 3 + dy + 1)),
                decreases 2 - dy,
            {
                let ghost n: int = (dx + 1) * 3 + dy + 1;
                let key: (i32, i32) = (center_x + dx, center_y + dy);
                assert(keys[n] == key);
                assert(keys.take(n + 1).drop_last() =~= keys.take(n));
                assert(keys.take(n + 1).last() == key);
                let ghost before = msgs@;
                match self.get(key) {
                    Some(chunk) => {
                        let blocks = chunk.to_flat_vec();
                        let m = ServerMessage::ChunkData { x: key.0, y: key.1, blocks };
                        msgs.push(m);
                        assert(messages_view(msgs@) =~= messages_view(before).push(m@));
                    },
                    None => {},
                }
                dy = dy + 1;
            }
            dx = dx + 1;
        }
        assert(keys.take(9) =~= keys);
        proof {
            let m = chunk_messages(self@, keys);
            assert(msgs@.len() == m.len());
            assert forall|j: int| 0 <= j < msgs@.len() implies #[trigger] msgs@[j]@ == m[j] by {
                assert(messages_view(msgs@)[j] == msgs@[j]@);
            }
            assert forall|j: int| #![trigger msgs@[j]] 0 <= j < msgs@.len() implies exists|k: (i32, i32)|
                {
                    &&& center_x - 1 <= k.0 <= center_x + 1
                    &&& center_y - 1 <= k.1 <= center_y + 1
                    &&& #[trigger] self@.contains_key(k)
                    &&& msgs@[j]@ == (ServerMessageView::ChunkData {
                        x: k.0,
                        y: k.1,
                        blocks: self@[k].flat_view(),
                    })
                } by {
                lemma_neighbourhood_sent_are_loaded(self@, center_x, center_y, j);
            }
            assert forall|k: (i32, i32)|
                center_x - 1 <= k.0 <= center_x + 1 && center_y - 1 <= k.1 <= center_y + 1
                    && #[trigger] self@.contains_key(k) implies exists|j: int|
                    0 <= j < msgs@.len() && #[trigger] msgs@[j]@ == (ServerMessageView::ChunkData {
                        x: k.0,
                        y: k.1,
                        blocks: self@[k].flat_view(),
                    }) by {
                lemma_neighbourhood_loaded_are_sent(self@, center_x, center_y, k);
            }
            lemma_neighbourhood_ordered(self@, center_x, center_y);
            assert forall|j1: int, j2: int| 0 <= j1 < j2 < msgs@.len() implies {
                ||| (#[trigger] msgs@[j1]@)->ChunkData_x < (#[trigger] msgs@[j2]@)->ChunkData_x
                ||| msgs@[j1]@->ChunkData_x == msgs@[j2]@->ChunkData_x && msgs@[j1]@->ChunkData_y
                    < msgs@[j2]@->ChunkData_y
            } by {
                assert(msgs@[j1]@ == m[j1] && msgs@[j2]@ == m[j2]);
                assert(lex_lt((m[j1]->ChunkData_x, m[j1]->ChunkData_y), (m[j2]->ChunkData_x, m[j2]->ChunkData_y)));
            }
        }
        msgs
    }
}

} // verus!
