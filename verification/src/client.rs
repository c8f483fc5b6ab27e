use vstd::prelude::*;
use crate::keyed::pairs_to_map;
use crate::roster::Roster;
use crate::messages::{PlayerPosition, ServerMessage, positions_view};

verus! {

/// The other players a client knows of, with their last received positions.
pub type PlayerTable = Roster<PlayerPosition>;

/// Chunks received from the server and not yet turned into cubes:
/// `(chunk_x, chunk_y, flattened heights)`, in arrival order.
pub struct PendingChunks(pub Vec<(i32, i32, Vec<u8>)>);

impl Default for PendingChunks {
    fn default() -> (p: PendingChunks)
        ensures
            p.0@ == Seq::<(i32, i32, Vec<u8>)>::empty(),
    {
        PendingChunks(Vec::new())
    }
}

/// Applies one message from the server to the client's state: a position list
/// replaces the known players (a later entry for the same id wins), chunk data
/// is queued for rendering, anything else is ignored.
pub fn handle_server_message(
    other_players: &mut PlayerTable,
    pending: &mut PendingChunks,
    message: ServerMessage,
)
    requires
        old(other_players).wf(),
    ensures
        final(other_players).wf(),
        match message {
            ServerMessage::PlayerPositions(positions) => {
                &&& final(other_players)@ == pairs_to_map(positions_view(positions@))
                &&& final(pending).0@ == old(pending).0@
            },
            ServerMessage::ChunkData { x, y, blocks } => {
                &&& final(other_players)@ == old(other_players)@
                &&& final(pending).0@ == old(pending).0@.push((x, y, blocks))
            },
            _ => {
                &&& final(other_players)@ == old(other_players)@
                &&& final(pending).0@ == old(pending).0@
            },
        },
{
    match message {
        ServerMessage::PlayerPositions(positions) => {
            other_players.clear();
            let ghost list = positions_view(positions@);
            let mut i: usize = 0;
            while i < positions.len()
                invariant
                    i <= positions@.len(),
                    list == positions_view(positions@),
                    other_players.wf(),
                    other_players@ == pairs_to_map(list.take(i as int)),
                decreases positions@.len() - i,
            {
                let id: String = positions[i].0.clone();
                other_players.insert(id, positions[i].1);
                assert(list.take(i + 1).drop_last() =~= list.take(i as int));
                i = i + 1;
            }
            assert(list.take(positions@.len() as int) =~= list);
        },
        ServerMessage::ChunkData { x, y, blocks } => {
            pending.0.push((x, y, blocks));
        },
        _ => {},
    }
}

/// One unit cube to draw: at world column `(x, z)` and layer `y`; `top` marks
/// the highest cube of its column.
#[derive(Debug, Clone, Copy, PartialEq, Eq, Structural)]
pub struct BlockCube {
    pub x: i32,
    pub y: i32,
    pub z: i32,
    pub top: bool,
}

/// The cubes of the column at offset `(a, b)` of the chunk at `(cx, cy)`: its
/// height is read at index `b * 32 + a` of the flattened heights.
pub open spec fn column_cubes(cx: i32, cy: i32, blocks: Seq<u8>, a: int, b: int) -> Seq<BlockCube> {
    let height = blocks[b * 32 + a];
    Seq::new(
        height as nat,
        |h: int|
            BlockCube {
                x: (cx * 32 + a) as i32,
                y: h as i32,
                z: (cy * 32 + b) as i32,
                top: h == height - 1,
            },
    )
}

/// The cubes of the first `n` columns, visited with `a` major.
pub open spec fn cubes_upto(cx: i32, cy: i32, blocks: Seq<u8>, n: int) -> Seq<BlockCube>
    decreases n,
{
    if n <= 0 {
        Seq::empty()
    } else {
        cubes_upto(cx, cy, blocks, n - 1) + column_cubes(cx, cy, blocks, (n - 1) / 32, (n - 1) % 32)
    }
}

/// All cubes of a chunk.
pub open spec fn chunk_cubes_spec(cx: i32, cy: i32, blocks: Seq<u8>) -> Seq<BlockCube> {
    cubes_upto(cx, cy, blocks, 1024)
}

/// Height of the column at offset `(a, b)` in flattened heights.
pub open spec fn column_height(blocks: Seq<u8>, a: int, b: int) -> u8 {
    blocks[b * 32 + a]
}

/// The world coordinates of the column at offset `(a, b)` of the chunk at
/// `(cx, cy)`, and the chunk offsets they are computed from, fit in an `i32`.
pub open spec fn column_fits(cx: i32, cy: i32, a: int, b: int) -> bool {
    &&& i32::MIN <= cx * 32
    &&& cx * 32 + a <= i32::MAX
    &&& i32::MIN <= cy * 32
    &&& cy * 32 + b <= i32::MAX
}

/// Flattened heights that can be drawn at `(cx, cy)`: there are enough of
/// them, and every column with a positive height has world coordinates that
/// fit in an `i32`.
pub open spec fn chunk_drawable(cx: i32, cy: i32, blocks: Seq<u8>) -> bool {
    &&& blocks.len() >= 1024
    &&& forall|a: int, b: int|
        0 <= a < 32 && 0 <= b < 32 && #[trigger] column_height(blocks, a, b) > 0 ==> column_fits(
            cx,
            cy,
            a,
            b,
        )
}

/// `q` is a cube of the chunk at `(cx, cy)` with flattened heights `blocks`:
/// it stands on a column of the chunk, below that column's height, and it is
/// the top exactly when it is the highest.
pub open spec fn is_chunk_cube(cx: i32, cy: i32, blocks: Seq<u8>, q: BlockCube) -> bool {
    let a = q.x - cx * 32;
    let b = q.z - cy * 32;
    &&& 0 <= a < 32
    &&& 0 <= b < 32
    &&& 0 <= q.y < blocks[b * 32 + a]
    &&& q.top == (q.y == blocks[b * 32 + a] - 1)
}

/// The cubes of the first `n` columns are exactly the chunk's cubes on those
/// columns, each once.
proof fn lemma_cubes_upto(cx: i32, cy: i32, blocks: Seq<u8>, n: int)
    requires
        chunk_drawable(cx, cy, blocks),
        0 <= n <= 1024,
    ensures
        forall|q: BlockCube|
            #[trigger] cubes_upto(cx, cy, blocks, n).contains(q) <==> (is_chunk_cube(cx, cy, blocks, q)
                && (q.x - cx * 32) * 32 + (q.z - cy * 32) < n),
        forall|i: int, j: int|
            0 <= i < j < cubes_upto(cx, cy, blocks, n).len() ==> cubes_upto(cx, cy, blocks, n)[i]
                != cubes_upto(cx, cy, blocks, n)[j],
    decreases n,
{
    if n > 0 {
        let m = n - 1;
        lemma_cubes_upto(cx, cy, blocks, m);
        let prev = cubes_upto(cx, cy, blocks, m);
        let a = m / 32;
        let b = m % 32;
        let col = column_cubes(cx, cy, blocks, a, b);
        let all = cubes_upto(cx, cy, blocks, n);
        assert(all == prev + col);
        assert(0 <= a < 32 && 0 <= b < 32 && a * 32 + b == m);
        let height = blocks[b * 32 + a];
        assert(b * 32 + a < 1024) by (nonlinear_arith)
            requires
                0 <= a < 32,
                0 <= b < 32,
        ;
        if height > 0 {
            assert(column_height(blocks, a, b) > 0);
            assert(column_fits(cx, cy, a, b));
        }
        assert forall|h: int| 0 <= h < col.len() implies #[trigger] col[h].x == cx * 32 + a && col[h].z
            == cy * 32 + b && col[h].y == h by {
            assert(column_height(blocks, a, b) > 0);
        }
        assert forall|q: BlockCube| #[trigger] all.contains(q) <==> (is_chunk_cube(cx, cy, blocks, q) && (
        q.x - cx * 32) * 32 + (q.z - cy * 32) < n) by {
            let qa = q.x - cx * 32;
            let qb = q.z - cy * 32;
            if all.contains(q) {
                let i = choose|i: int| 0 <= i < all.len() && all[i] == q;
                if i >= prev.len() {
                    let h = i - prev.len();
                    assert(col[h] == q);
                    assert(qa == a && qb == b);
                } else {
                    assert(prev[i] == q);
                    assert(prev.contains(q));
                }
            }
            if is_chunk_cube(cx, cy, blocks, q) && qa * 32 + qb < n {
                if qa * 32 + qb < m {
                    assert(prev.contains(q));
                    let i = choose|i: int| 0 <= i < prev.len() && prev[i] == q;
                    assert(all[i] == q);
                } else {
                    assert(qa == a && qb == b);
                    let h = q.y as int;
                    assert(0 <= h < col.len());
                    assert(col[h] == q);
                    assert(all[prev.len() + h] == q);
                }
            }
        }
        assert forall|i: int, j: int| 0 <= i < j < all.len() implies all[i] != all[j] by {
            if j >= prev.len() {
                let hj = j - prev.len();
                if i >= prev.len() {
                    let hi = i - prev.len();
                    assert(col[hi].y == hi && col[hj].y == hj);
                } else {
                    assert(all[i] == prev[i]);
                    assert(prev.contains(prev[i]));
                    assert(all[j] == col[hj]);
                }
            }
        }
    }
}

/// The cubes that draw the chunk at `(chunk_x, chunk_y)` from its flattened
/// heights: each column gets as many stacked cubes as its height, the top one
/// marked.
pub fn chunk_cubes(chunk_x: i32, chunk_y: i32, blocks: &[u8]) -> (cubes: Vec<BlockCube>)
    requires
        chunk_drawable(chunk_x, chunk_y, blocks@),
    ensures
        cubes@ == chunk_cubes_spec(chunk_x, chunk_y, blocks@),
        forall|q: BlockCube|
            #[trigger] cubes@.contains(q) <==> {
                let a = q.x - chunk_x * 32;
                let b = q.z - chunk_y * 32;
                &&& 0 <= a < 32
                &&& 0 <= b < 32
                &&& 0 <= q.y < blocks@[b * 32 + a]
                &&& q.top == (q.y == blocks@[b * 32 + a] - 1)
            },
        forall|i: int, j: int| 0 <= i < j < cubes@.len() ==> cubes@[i] != cubes@[j],
{
    let mut cubes: Vec<BlockCube> = Vec::new();
    let mut x: usize = 0;
    while x < 32
        invariant
            x <= 32,
            chunk_drawable(chunk_x, chunk_y, blocks@),
            cubes@ == cubes_upto(chunk_x, chunk_y, blocks@, x * 32),
        decreases 32 - x,
    {
        let mut y: usize = 0;
        while y < 32
            invariant
                x < 32,
                y <= 32,
                chunk_drawable(chunk_x, chunk_y, blocks@),
                cubes@ == cubes_upto(chunk_x, chunk_y, blocks@, x * 32 + y),
            decreases 32 - y,
        {
            let ghost n: int = x * 32 + y;
            let ghost before = cubes@;
            let ghost column = column_cubes(chunk_x, chunk_y, blocks@, x as int, y as int);
            let height: u8 = blocks[y * 32 + x];
            if height > 0 {
                assert(column_height(blocks@, x as int, y as int) == height);
                let world_x: i32 = chunk_x * 32 + x as i32;
                let world_z: i32 = chunk_y * 32 + y as i32;
                let mut h: u8 = 0;
                while h < height
                    invariant
                        h <= height,
                        height == blocks@[y * 32 + x],
                        world_x == chunk_x * 32 + x,
                        world_z == chunk_y * 32 + y,
                        column == column_cubes(chunk_x, chunk_y, blocks@, x as int, y as int),
                        cubes@ == before + column.take(h as int),
                    decreases height - h,
                {
                    cubes.push(BlockCube { x: world_x, y: h as i32, z: world_z, top: h == height - 1 });
                    assert(column.take(h + 1) =~= column.take(h as int).push(column[h as int]));
                    h = h + 1;
                }
            }
            assert(column.take(height as int) =~= column);
            assert((n + 1 - 1) / 32 == x && (n + 1 - 1) % 32 == y);
            assert(cubes_upto(chunk_x, chunk_y, blocks@, n + 1) == cubes_upto(chunk_x, chunk_y, blocks@, n)
                + column);
            y = y + 1;
        }
        x = x + 1;
    }
    proof {
        lemma_cubes_upto(chunk_x, chunk_y, blocks@, 1024);
        assert forall|q: BlockCube| #[trigger] cubes@.contains(q) implies is_chunk_cube(
            chunk_x,
            chunk_y,
            blocks@,
            q,
        ) by {}
    }
    cubes
}

/// A pending chunk whose cubes can be computed.
pub open spec fn renderable(c: (i32, i32, Vec<u8>)) -> bool {
    chunk_drawable(c.0, c.1, c.2@)
}

/// The cubes of each chunk of `s`, chunk after chunk.
pub open spec fn pending_cubes(s: Seq<(i32, i32, Vec<u8>)>) -> Seq<BlockCube>
    decreases s.len(),
{
    if s.len() == 0 {
        Seq::empty()
    } else {
        pending_cubes(s.drop_last()) + chunk_cubes_spec(s.last().0, s.last().1, s.last().2@)
    }
}

/// The cubes of each chunk of `s`, one sequence per chunk.
pub open spec fn chunk_parts(s: Seq<(i32, i32, Vec<u8>)>) -> Seq<Seq<BlockCube>> {
    Seq::new(s.len(), |i: int| chunk_cubes_spec(s[i].0, s[i].1, s[i].2@))
}

proof fn lemma_pending_cubes_parts(s: Seq<(i32, i32, Vec<u8>)>)
    ensures
        pending_cubes(s) == chunk_parts(s).flatten_alt(),
    decreases s.len(),
{
    if s.len() > 0 {
        lemma_pending_cubes_parts(s.drop_last());
        assert(chunk_parts(s).drop_last() =~= chunk_parts(s.drop_last()));
    }
}

/// Takes every pending chunk, in arrival order, and returns the cubes that draw
/// them; the queue is left empty.
pub fn render_pending_chunks(pending: &mut PendingChunks) -> (cubes: Vec<BlockCube>)
    requires
        forall|i: int| 0 <= i < old(pending).0@.len() ==> renderable(#[trigger] old(pending).0@[i]),
    ensures
        final(pending).0@ == Seq::<(i32, i32, Vec<u8>)>::empty(),
        cubes@ == pending_cubes(old(pending).0@),
        exists|parts: Seq<Seq<BlockCube>>|
            {
                &&& parts.len() == old(pending).0@.len()
                &&& cubes@ == parts.flatten()
                &&& forall|i: int|
                    #![trigger parts[i]]
                    0 <= i < parts.len() ==> {
                        &&& forall|q: BlockCube|
                            #[trigger] parts[i].contains(q) <==> {
                                let c = old(pending).0@[i];
                                let a = q.x - c.0 * 32;
                                let b = q.z - c.1 * 32;
                                &&& 0 <= a < 32
                                &&& 0 <= b < 32
                                &&& 0 <= q.y < c.2@[b * 32 + a]
                                &&& q.top == (q.y == c.2@[b * 32 + a] - 1)
                            }
                        &&& forall|j: int, k: int|
                            0 <= j < k < parts[i].len() ==> #[trigger] parts[i][j] != #[trigger] parts[i][k]
                    }
            },
{
    let ghost s = pending.0@;
    let mut cubes: Vec<BlockCube> = Vec::new();
    let mut i: usize = 0;
    while i < pending.0.len()
        invariant
            i <= pending.0@.len(),
            pending.0@ == s,
            forall|j: int| 0 <= j < s.len() ==> renderable(#[trigger] s[j]),
            cubes@ == pending_cubes(s.take(i as int)),
        decreases s.len() - i,
    {
        assert(renderable(s[i as int]));
        let mut part = chunk_cubes(pending.0[i].0, pending.0[i].1, pending.0[i].2.as_slice());
        cubes.append(&mut part);
        assert(s.take(i + 1).drop_last() =~= s.take(i as int));
        i = i + 1;
    }
    assert(s.take(s.len() as int) =~= s);
    proof {
        let parts = chunk_parts(s);
        lemma_pending_cubes_parts(s);
        parts.lemma_flatten_and_flatten_alt_are_equivalent();
        assert forall|i: int| #![trigger parts[i]] 0 <= i < parts.len() implies {
            &&& forall|q: BlockCube|
                #[trigger] parts[i].contains(q) <==> {
                    let c = s[i];
                    let a = q.x - c.0 * 32;
                    let b = q.z - c.1 * 32;
                    &&& 0 <= a < 32
                    &&& 0 <= b < 32
                    &&& 0 <= q.y < c.2@[b * 32 + a]
                    &&& q.top == (q.y == c.2@[b * 32 + a] - 1)
                }
            &&& forall|j: int, k: int|
                0 <= j < k < parts[i].len() ==> #[trigger] parts[i][j] != #[trigger] parts[i][k]
        } by {
            assert(renderable(s[i]));
            lemma_cubes_upto(s[i].0, s[i].1, s[i].2@, 1024);
        }
    }
    pending.0.clear();
    cubes
}

} // verus!
