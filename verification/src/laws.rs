use vstd::prelude::*;
use crate::client::column_cubes;
use crate::keyed::pairs_to_map;
use crate::messages::{PlayerPosition, ServerMessage, ServerMessageView, positions_view, spec_spawn_position};
use crate::server::PlayerRegistry;
use crate::world::{
    Chunk, CHUNK_SIZE, chunk_data_view, chunk_messages, in_start_area, is_generated, neighbors,
    sampled_height, world_coord,
};

verus! {

/// A sampler that always gives the same answer at the same coordinates.
pub open spec fn deterministic<F: Fn(i32, i32) -> u8>(sample: F) -> bool {
    forall|a: i32, b: i32, h1: u8, h2: u8|
        #[trigger] sample.ensures((a, b), h1) && #[trigger] sample.ensures((a, b), h2) ==> h1 == h2
}

/// With a deterministic sampler, there is only one chunk generated at given
/// coordinates: any two are equal.
pub proof fn law_generation_is_deterministic<F: Fn(i32, i32) -> u8>(
    sample: F,
    x: i32,
    y: i32,
    c1: Chunk,
    c2: Chunk,
)
    requires
        deterministic(sample),
        is_generated(c1, x, y, sample),
        is_generated(c2, x, y, sample),
    ensures
        c1 == c2,
{
    broadcast use vstd::array::group_array_axioms;

    assert forall|i: int| 0 <= i < CHUNK_SIZE implies #[trigger] c1.blocks@[i] == c2.blocks@[i] by {
        assert forall|j: int| 0 <= j < CHUNK_SIZE implies c1.blocks@[i]@[j] == c2.blocks@[i]@[j] by {
            assert(sampled_height(sample, world_coord(x, i), world_coord(y, j), c1.height(i, j)));
            assert(sampled_height(sample, world_coord(x, i), world_coord(y, j), c2.height(i, j)));
        }
        assert(c1.blocks@[i] =~= c2.blocks@[i]);
    }
    assert(c1.blocks =~= c2.blocks);
}

/// With a deterministic sampler, every chunk of the start-up world equals the
/// chunk a fresh generation gives at the same coordinates.
pub proof fn law_start_up_chunk_is_fresh_generation<F: Fn(i32, i32) -> u8>(
    world: Map<(i32, i32), Chunk>,
    sample: F,
    k: (i32, i32),
    fresh: Chunk,
)
    requires
        deterministic(sample),
        forall|q: (i32, i32)| #[trigger] world.contains_key(q) ==> is_generated(world[q], q.0, q.1, sample),
        world.contains_key(k),
        is_generated(fresh, k.0, k.1, sample),
    ensures
        world[k] == fresh,
{
    law_generation_is_deterministic(sample, k.0, k.1, world[k], fresh);
}

/// When every one of `keys` is loaded, the chunk messages are exactly one per
/// key, in the order of `keys`.
pub proof fn law_all_present_chunks_are_sent(world: Map<(i32, i32), Chunk>, keys: Seq<(i32, i32)>)
    requires
        forall|i: int| 0 <= i < keys.len() ==> world.contains_key(#[trigger] keys[i]),
    ensures
        chunk_messages(world, keys).len() == keys.len(),
        forall|i: int|
            0 <= i < keys.len() ==> #[trigger] chunk_messages(world, keys)[i] == chunk_data_view(
                keys[i],
                world[keys[i]],
            ),
    decreases keys.len(),
{
    if keys.len() > 0 {
        let p = keys.drop_last();
        assert forall|i: int| 0 <= i < p.len() implies world.contains_key(#[trigger] p[i]) by {
            assert(p[i] == keys[i]);
        }
        law_all_present_chunks_are_sent(world, p);
        assert(world.contains_key(keys[keys.len() - 1]));
        assert forall|i: int| 0 <= i < keys.len() implies #[trigger] chunk_messages(world, keys)[i]
            == chunk_data_view(keys[i], world[keys[i]]) by {
            if i < keys.len() - 1 {
                assert(p[i] == keys[i]);
            }
        }
    }
}

/// A client standing in a chunk whose whole 3 x 3 neighbourhood is loaded
/// receives nine chunks.
pub proof fn law_full_neighbourhood_sends_nine(world: Map<(i32, i32), Chunk>, cx: i32, cy: i32)
    requires
        forall|i: int| 0 <= i < 9 ==> world.contains_key(#[trigger] neighbors(cx, cy)[i]),
    ensures
        chunk_messages(world, neighbors(cx, cy)).len() == 9,
{
    law_all_present_chunks_are_sent(world, neighbors(cx, cy));
}

/// In the start-up world, a client standing in a chunk no more than one chunk
/// away from the origin on each axis receives nine chunks.
pub proof fn law_start_area_centres_get_nine(world: Map<(i32, i32), Chunk>, cx: i32, cy: i32)
    requires
        forall|k: (i32, i32)| #[trigger] world.contains_key(k) <==> in_start_area(k),
        -1 <= cx <= 1,
        -1 <= cy <= 1,
    ensures
        chunk_messages(world, neighbors(cx, cy)).len() == 9,
{
    assert forall|i: int| 0 <= i < 9 implies world.contains_key(#[trigger] neighbors(cx, cy)[i]) by {
        assert(in_start_area(neighbors(cx, cy)[i]));
    }
    law_full_neighbourhood_sends_nine(world, cx, cy);
}

/// A client that applies the position list the server broadcasts ends up
/// knowing exactly the registry's players and positions.
pub proof fn law_broadcast_positions_reach_client<C>(r: &PlayerRegistry<C>, m: ServerMessage)
    requires
        r.wf(),
        m@ == ServerMessageView::PlayerPositions(r.snapshot()),
    ensures
        m matches ServerMessage::PlayerPositions(v) && pairs_to_map(positions_view(v@)) == r@,
{
    r.lemma_snapshot();
}

/// Reading a player's position after it connected and sent an update gives
/// the update back.
pub proof fn law_update_is_read_back(
    before: Map<Seq<char>, PlayerPosition>,
    connected: Map<Seq<char>, PlayerPosition>,
    updated: Map<Seq<char>, PlayerPosition>,
    id: Seq<char>,
    pos: PlayerPosition,
)
    requires
        connected == before.insert(id, spec_spawn_position()),
        updated == (if connected.contains_key(id) {
            connected.insert(id, pos)
        } else {
            connected
        }),
    ensures
        updated.contains_key(id),
        updated[id] == pos,
        updated.dom() == connected.dom(),
{
    assert(updated.dom() =~= connected.dom());
}

/// A position update from a player that is not registered changes nothing,
/// and an update never adds a player.
pub proof fn law_update_never_adds_players(
    before: Map<Seq<char>, PlayerPosition>,
    after: Map<Seq<char>, PlayerPosition>,
    id: Seq<char>,
    pos: PlayerPosition,
)
    requires
        after == (if before.contains_key(id) {
            before.insert(id, pos)
        } else {
            before
        }),
    ensures
        after.dom() == before.dom(),
        !before.contains_key(id) ==> after == before,
{
    assert(after.dom() =~= before.dom());
}

/// After a player disconnects it is gone, and every other player keeps its
/// position.
pub proof fn law_disconnect_forgets_only_that_player(
    before: Map<Seq<char>, PlayerPosition>,
    after: Map<Seq<char>, PlayerPosition>,
    id: Seq<char>,
)
    requires
        after == before.remove(id),
    ensures
        !after.contains_key(id),
        forall|k: Seq<char>| k != id && before.contains_key(k) ==> #[trigger] after.contains_key(k)
            && after[k] == before[k],
{
}

/// The client draws the column at offset `(a, b)` of a chunk it received as
/// flattened heights with as many cubes as the chunk's height at `(b, a)`
/// (the flattening is `i` major, the drawing reads index `b * 32 + a`), and
/// only the last of them is the top.
pub proof fn law_drawn_column_height(c: Chunk, a: int, b: int)
    requires
        0 <= a < CHUNK_SIZE,
        0 <= b < CHUNK_SIZE,
    ensures
        column_cubes(c.x, c.y, c.flat_view(), a, b).len() == c.height(b, a),
        forall|h: int|
            0 <= h < c.height(b, a) ==> (#[trigger] column_cubes(c.x, c.y, c.flat_view(), a, b)[h].top
                <==> h == c.height(b, a) - 1),
{
    assert(b * 32 + a < 1024) by (nonlinear_arith)
        requires
            0 <= a < 32,
            0 <= b < 32,
    ;
    assert((b * 32 + a) / 32 == b && (b * 32 + a) % 32 == a);
}

/// Every column of a generated chunk is drawn with between one and ten cubes,
/// exactly one of them the top.
pub proof fn law_generated_columns_are_drawn(c: Chunk, a: int, b: int)
    requires
        0 <= a < CHUNK_SIZE,
        0 <= b < CHUNK_SIZE,
        forall|i: int, j: int|
            0 <= i < CHUNK_SIZE && 0 <= j < CHUNK_SIZE ==> 1 <= #[trigger] c.height(i, j) <= 10,
    ensures
        1 <= column_cubes(c.x, c.y, c.flat_view(), a, b).len() <= 10,
        column_cubes(c.x, c.y, c.flat_view(), a, b).last().top,
{
    law_drawn_column_height(c, a, b);
    assert(1 <= c.height(b, a) <= 10);
}

} // verus!
