use rubia::mapeditor::{map_cubes, press_button, BlockColour, BlockType, CurrentTool, EditorButton, MapCube, MapFileAction, WorldMap};

#[test]
fn defaults() {
    assert_eq!(BlockType::default(), BlockType::Empty);
    assert_eq!(CurrentTool::default().block_type, BlockType::Grass);
    assert!(WorldMap::default().blocks.is_empty());
}

#[test]
fn block_buttons_select_tool() {
    let mut tool = CurrentTool::default();
    assert_eq!(press_button(&mut tool, EditorButton::Stone), MapFileAction::Nothing);
    assert_eq!(tool.block_type, BlockType::Stone);
    assert_eq!(press_button(&mut tool, EditorButton::Dirt), MapFileAction::Nothing);
    assert_eq!(tool.block_type, BlockType::Dirt);
    assert_eq!(press_button(&mut tool, EditorButton::Grass), MapFileAction::Nothing);
    assert_eq!(tool.block_type, BlockType::Grass);
}

#[test]
fn file_buttons_keep_tool() {
    let mut tool = CurrentTool { block_type: BlockType::Dirt };
    assert_eq!(press_button(&mut tool, EditorButton::SaveMap), MapFileAction::Save);
    assert_eq!(press_button(&mut tool, EditorButton::LoadMap), MapFileAction::Load);
    assert_eq!(tool.block_type, BlockType::Dirt);
}

#[test]
fn map_cubes_one_per_block_coloured_by_type() {
    let map = WorldMap {
        blocks: vec![
            ((1, 2, 3), BlockType::Grass),
            ((0, 0, 0), BlockType::Stone),
            ((-4, 5, 6), BlockType::Dirt),
            ((7, 7, 7), BlockType::Empty),
        ],
    };
    assert_eq!(
        map_cubes(&map),
        vec![
            MapCube { x: 1, y: 2, z: 3, colour: BlockColour::Green },
            MapCube { x: 0, y: 0, z: 0, colour: BlockColour::Gray },
            MapCube { x: -4, y: 5, z: 6, colour: BlockColour::Brown },
            MapCube { x: 7, y: 7, z: 7, colour: BlockColour::White },
        ]
    );
    assert!(map_cubes(&WorldMap::default()).is_empty());
}
