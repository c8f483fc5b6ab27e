use vstd::prelude::*;

verus! {

/// Position of a player in the world. Each coordinate is the IEEE-754 bit
/// pattern of a single-precision float (`f32::to_bits`); the library only
/// stores and forwards positions, so it keeps them in this exact form.
#[derive(Debug, Clone, Copy, PartialEq, Eq, Structural)]
pub struct PlayerPosition {
    pub x: u32,
    pub y: u32,
    pub z: u32,
}

/// Bit pattern of the `f32` value `16.0`.
pub const SIXTEEN_BITS: u32 = 0x4180_0000;

/// Bit pattern of the `f32` value `1.0`.
pub const ONE_BITS: u32 = 0x3f80_0000;

/// The position a player gets when it connects: `(16.0, 1.0, 16.0)`.
pub open spec fn spec_spawn_position() -> PlayerPosition {
    PlayerPosition { x: SIXTEEN_BITS, y: ONE_BITS, z: SIXTEEN_BITS }
}

/// The position a player gets when it connects: `(16.0, 1.0, 16.0)`.
pub fn spawn_position() -> (p: PlayerPosition)
    ensures
        p == spec_spawn_position(),
{
    PlayerPosition { x: SIXTEEN_BITS, y: ONE_BITS, z: SIXTEEN_BITS }
}

/// What a client sends to the server.
#[derive(Debug, Clone, PartialEq)]
pub enum ClientMessage {
    Connect { player_name: String },
    Move { x: u32, y: u32, z: u32 },
    RequestChunks { center_x: i32, center_y: i32 },
    PlayerPositionUpdate(PlayerPosition),
}

/// What the server sends to a client.
#[derive(Debug, Clone, PartialEq)]
pub enum ServerMessage {
    Welcome { player_id: u32 },
    PlayerMoved { player_id: u32, x: u32, y: u32, z: u32 },
    ChunkData { x: i32, y: i32, blocks: Vec<u8> },
    PlayerPositions(Vec<(String, PlayerPosition)>),
}

/// Mathematical model of a `ServerMessage`: vectors and strings are replaced by
/// their sequences.
pub enum ServerMessageView {
    Welcome { player_id: u32 },
    PlayerMoved { player_id: u32, x: u32, y: u32, z: u32 },
    ChunkData { x: i32, y: i32, blocks: Seq<u8> },
    PlayerPositions(Seq<(Seq<char>, PlayerPosition)>),
}

/// The list of a `PlayerPositions` message with each id taken by its view.
pub open spec fn positions_view(v: Seq<(String, PlayerPosition)>) -> Seq<(Seq<char>, PlayerPosition)> {
    v.map_values(|p: (String, PlayerPosition)| (p.0@, p.1))
}

impl View for ServerMessage {
    type V = ServerMessageView;

    open spec fn view(&self) -> ServerMessageView {
        match self {
            ServerMessage::Welcome { player_id } => ServerMessageView::Welcome { player_id: *player_id },
            ServerMessage::PlayerMoved { player_id, x, y, z } => ServerMessageView::PlayerMoved {
                player_id: *player_id,
                x: *x,
                y: *y,
                z: *z,
            },
            ServerMessage::ChunkData { x, y, blocks } => ServerMessageView::ChunkData {
                x: *x,
                y: *y,
                blocks: blocks@,
            },
            ServerMessage::PlayerPositions(v) => ServerMessageView::PlayerPositions(
                positions_view(v@),
            ),
        }
    }
}

} // verus!
