use vstd::prelude::*;

verus! {

/// Kind of a block placed in the map editor.
#[derive(Debug, Clone, Copy, PartialEq, Eq, Structural)]
pub enum BlockType {
    Empty,
    Grass,
    Dirt,
    Stone,
}

impl Default for BlockType {
    fn default() -> (b: BlockType)
        ensures
            b == BlockType::Empty,
    {
        BlockType::Empty
    }
}

/// The edited map: each placed block with its `(x, y, z)` position.
pub struct WorldMap {
    pub blocks: Vec<((i32, i32, i32), BlockType)>,
}

impl Default for WorldMap {
    fn default() -> (m: WorldMap)
        ensures
            m.blocks@ == Seq::<((i32, i32, i32), BlockType)>::empty(),
    {
        WorldMap { blocks: Vec::new() }
    }
}

/// The colour a block is drawn in.
#[derive(Debug, Clone, Copy, PartialEq, Eq, Structural)]
pub enum BlockColour {
    Green,
    Gray,
    Brown,
    White,
}

/// Grass is green, stone gray, dirt brown, anything else white.
pub open spec fn block_colour(b: BlockType) -> BlockColour {
    match b {
        BlockType::Grass => BlockColour::Green,
        BlockType::Stone => BlockColour::Gray,
        BlockType::Dirt => BlockColour::Brown,
        BlockType::Empty => BlockColour::White,
    }
}

/// The colour block type `b` is drawn in.
pub fn colour_of(b: BlockType) -> (c: BlockColour)
    ensures
        c == block_colour(b),
{
    match b {
        BlockType::Grass => BlockColour::Green,
        BlockType::Stone => BlockColour::Gray,
        BlockType::Dirt => BlockColour::Brown,
        _ => BlockColour::White,
    }
}

/// One unit cube of the edited map: its position and colour.
#[derive(Debug, Clone, Copy, PartialEq, Eq, Structural)]
pub struct MapCube {
    pub x: i32,
    pub y: i32,
    pub z: i32,
    pub colour: BlockColour,
}

/// The cube that draws a placed block.
pub open spec fn map_cube(b: ((i32, i32, i32), BlockType)) -> MapCube {
    MapCube { x: b.0.0, y: b.0.1, z: b.0.2, colour: block_colour(b.1) }
}

/// The cubes that draw the map: one per placed block, in the map's order, at
/// the block's position and in its type's colour.
pub fn map_cubes(map: &WorldMap) -> (cubes: Vec<MapCube>)
    ensures
        cubes@.len() == map.blocks@.len(),
        forall|i: int| 0 <= i < map.blocks@.len() ==> #[trigger] cubes@[i] == map_cube(map.blocks@[i]),
        forall|i: int|
            0 <= i < map.blocks@.len() ==> {
                &&& #[trigger] cubes@[i].x == map.blocks@[i].0.0
                &&& cubes@[i].y == map.blocks@[i].0.1
                &&& cubes@[i].z == map.blocks@[i].0.2
                &&& cubes@[i].colour == match map.blocks@[i].1 {
                    BlockType::Grass => BlockColour::Green,
                    BlockType::Stone => BlockColour::Gray,
                    BlockType::Dirt => BlockColour::Brown,
                    BlockType::Empty => BlockColour::White,
                }
            },
{
    let mut cubes: Vec<MapCube> = Vec::new();
    let mut i: usize = 0;
    while i < map.blocks.len()
        invariant
            i <= map.blocks@.len(),
            cubes@.len() == i,
            forall|j: int| 0 <= j < i ==> #[trigger] cubes@[j] == map_cube(map.blocks@[j]),
        decreases map.blocks@.len() - i,
    {
        let (pos, block_type) = map.blocks[i];
        cubes.push(MapCube { x: pos.0, y: pos.1, z: pos.2, colour: colour_of(block_type) });
        i = i + 1;
    }
    cubes
}

/// The block type the editor currently places.
pub struct CurrentTool {
    pub block_type: BlockType,
}

impl Default for CurrentTool {
    fn default() -> (t: CurrentTool)
        ensures
            t.block_type == BlockType::Grass,
    {
        CurrentTool { block_type: BlockType::Grass }
    }
}

/// A button of the editor's window.
#[derive(Debug, Clone, Copy, PartialEq, Eq, Structural)]
pub enum EditorButton {
    Grass,
    Dirt,
    Stone,
    SaveMap,
    LoadMap,
}

/// What the editor must do with the map file after a button press.
#[derive(Debug, Clone, Copy, PartialEq, Eq, Structural)]
pub enum MapFileAction {
    Nothing,
    Save,
    Load,
}

/// Handles a press of `button`: a block button selects that block type, the
/// save and load buttons leave the tool alone and ask for the file operation.
pub fn press_button(tool: &mut CurrentTool, button: EditorButton) -> (action: MapFileAction)
    ensures
        match button {
            EditorButton::Grass => final(tool).block_type == BlockType::Grass && action
                == MapFileAction::Nothing,
            EditorButton::Dirt => final(tool).block_type == BlockType::Dirt && action
                == MapFileAction::Nothing,
            EditorButton::Stone => final(tool).block_type == BlockType::Stone && action
                == MapFileAction::Nothing,
            EditorButton::SaveMap => final(tool).block_type == old(tool).block_type && action
                == MapFileAction::Save,
            EditorButton::LoadMap => final(tool).block_type == old(tool).block_type && action
                == MapFileAction::Load,
        },
{
    match button {
        EditorButton::Grass => {
            tool.block_type = BlockType::Grass;
            MapFileAction::Nothing
        },
        EditorButton::Dirt => {
            tool.block_type = BlockType::Dirt;
            MapFileAction::Nothing
        },
        EditorButton::Stone => {
            tool.block_type = BlockType::Stone;
            MapFileAction::Nothing
        },
        EditorButton::SaveMap => MapFileAction::Save,
        EditorButton::LoadMap => MapFileAction::Load,
    }
}

} // verus!
