use innovus::block::{AttributeType, AttributeValue, Block, BlockType, Connector, select_block_index, ClickAction};
use innovus::world::{
    BlockCoord, BlockSlot, Chunk, TerrainKind, TestWorldGenerator, choose_random, resolve_relative_coordinate,
    expected_light, expected_sky_light, light_changes, sky_light_at, sky_light_map, CHUNK_SIZE,
};

static AIR: BlockType = BlockType {
    name: "air",
    attributes: &[],
    colliders: &[],
    is_full_block: false,
    light_emission: 0,
    connector: Connector::Never,
    light_attribute: None,
    right_click: ClickAction::Nothing,
};
static STONE: BlockType = BlockType {
    name: "stone",
    attributes: &[],
    colliders: &[],
    is_full_block: true,
    light_emission: 0,
    connector: Connector::FullBlock,
    light_attribute: None,
    right_click: ClickAction::Nothing,
};
static GLASS: BlockType = BlockType {
    name: "glass",
    attributes: &[],
    colliders: &[],
    is_full_block: true,
    light_emission: 0,
    connector: Connector::SameType,
    light_attribute: None,
    right_click: ClickAction::Nothing,
};
static COPPER_WIRE: BlockType = BlockType {
    name: "copper_wire",
    attributes: &[],
    colliders: &[],
    is_full_block: false,
    light_emission: 0,
    connector: Connector::Electricity,
    light_attribute: None,
    right_click: ClickAction::Nothing,
};
static BATTERY: BlockType = BlockType {
    name: "voltagite_battery",
    attributes: &[
        ("charge", AttributeType::U8(0)),
        ("label", AttributeType::String("cell")),
        ("wall", AttributeType::Enum(2, &["bottom", "left", "right", "top"])),
        ("on", AttributeType::Bool(true)),
        ("power", AttributeType::I32(-3)),
    ],
    colliders: &[],
    is_full_block: true,
    light_emission: 5,
    connector: Connector::Electricity,
    light_attribute: None,
    right_click: ClickAction::Nothing,
};

#[test]
fn relative_coordinates_split_euclidean() {
    assert_eq!(resolve_relative_coordinate(0), (0, 0));
    assert_eq!(resolve_relative_coordinate(15), (0, 15));
    assert_eq!(resolve_relative_coordinate(16), (1, 0));
    assert_eq!(resolve_relative_coordinate(-1), (-1, 15));
    assert_eq!(resolve_relative_coordinate(-16), (-1, 0));
    assert_eq!(resolve_relative_coordinate(-17), (-2, 15));
    assert_eq!(CHUNK_SIZE, 16);
}

#[test]
fn block_coord_round_trips() {
    for value in [-100i64, -17, -16, -1, 0, 1, 15, 16, 31, 1000] {
        let coord = BlockCoord::from(value);
        assert!(coord.offset < 16);
        assert_eq!(i64::from(coord), value);
    }
    assert_eq!(BlockCoord::from(-1), BlockCoord::new(-1, 15));
    assert_eq!(i64::from(BlockCoord::new(2, 3)), 35);
    assert!(BlockCoord::new(0, 5) < BlockCoord::new(1, 0));
}

#[test]
fn sky_light_follows_depth() {
    assert_eq!(sky_light_at(10, 10), 15);
    assert_eq!(sky_light_at(10, 20), 15);
    assert_eq!(sky_light_at(10, 9), 14);
    assert_eq!(sky_light_at(10, 0), 5);
    assert_eq!(sky_light_at(10, -5), 0);
    assert_eq!(sky_light_at(10, -100), 0);
    let mut heights = [0i64; 16];
    heights[3] = 20;
    let map = sky_light_map(&heights, 1);
    assert_eq!(map.len(), 16);
    assert_eq!(map[0][0], 15);
    assert_eq!(map[0][3], 11);
    assert_eq!(map[15][3], 15);
    assert_eq!(map[4][3], 15);
}

#[test]
fn choose_random_picks_by_modulo() {
    let items = [10, 20, 30];
    assert_eq!(choose_random(&items, 0), Some(&10));
    assert_eq!(choose_random(&items, 4), Some(&20));
    assert_eq!(choose_random(&items, 8), Some(&30));
    let none: [u8; 0] = [];
    assert_eq!(choose_random(&none, 7), None);
}

#[test]
fn test_world_layout() {
    let generator = TestWorldGenerator::new(42);
    assert_eq!(generator.world_seed(), 42);
    let surface = generator.generate_chunk(-1);
    assert_eq!(surface[0][0], TerrainKind::Dirt);
    assert_eq!(surface[14][7], TerrainKind::Dirt);
    assert_eq!(surface[15][7], TerrainKind::GrassyDirt);
    assert_eq!(generator.generate_chunk(-2)[15][15], TerrainKind::Stone);
    assert_eq!(generator.generate_chunk(0)[0][0], TerrainKind::Air);
}

#[test]
fn block_type_defaults_and_connections() {
    let defaults = BATTERY.default_attributes();
    assert_eq!(defaults.len(), 5);
    assert!(matches!(defaults[0], AttributeValue::U8(0)));
    assert!(matches!(&defaults[1], AttributeValue::String(s) if s == "cell"));
    assert!(matches!(defaults[2], AttributeValue::U8(2)));
    assert!(matches!(defaults[3], AttributeValue::Bool(true)));
    assert!(matches!(defaults[4], AttributeValue::I32(-3)));
    assert!(AIR.default_attributes().is_empty());
    assert!(!AIR.connects_to(&STONE));
    assert!(STONE.connects_to(&GLASS));
    assert!(!STONE.connects_to(&AIR));
    assert!(GLASS.connects_to(&GLASS));
    assert!(!GLASS.connects_to(&STONE));
    assert!(COPPER_WIRE.connects_to(&BATTERY));
    assert!(BATTERY.connects_to(&COPPER_WIRE));
    assert!(!COPPER_WIRE.connects_to(&STONE));
}

#[test]
fn block_new_uses_defaults() {
    let block = Block::new(&BATTERY, 3, 4);
    assert_eq!(block.block_type.name, "voltagite_battery");
    assert_eq!(block.block_light, 3);
    assert_eq!(block.sky_light, 4);
    assert_eq!(block.attributes.len(), 5);
    let slot = BlockSlot::from_block(block);
    assert_eq!(slot.block_light(), 0);
    assert_eq!(slot.sky_light(), 0);
    assert!(slot.needs_render());
    assert_eq!(slot.block().block_type.name, "voltagite_battery");
}

#[test]
fn hotbar_selection_skips_air() {
    let types: [&'static BlockType; 3] = [&AIR, &STONE, &GLASS];
    assert_eq!(select_block_index(1, 1, &types), 1);
    assert_eq!(select_block_index(3, 1, &types), 1);
    assert_eq!(select_block_index(3, -1, &types), 2);
    assert_eq!(select_block_index(-1, 1, &types), 2);
    assert_eq!(select_block_index(-3, -1, &types), 2);
}

#[test]
fn chunk_storage_and_lighting() {
    let mut chunk = Chunk::new((2, -1), &AIR);
    assert_eq!(chunk.location(), (2, -1));
    assert_eq!(chunk.height_map(), &[0; 16]);
    assert_eq!(chunk.block_at(5, 5).block_type.name, "air");
    assert!(chunk.is_dirty_at(0, 0));
    chunk.set_block(4, 7, Block::new(&STONE, 0, 0));
    assert_eq!(chunk.block_at(4, 7).block_type.name, "stone");
    assert_eq!(chunk.block_slot_at(4, 7).block().block_type.name, "stone");
    let mut heights = [-10i64; 16];
    heights[0] = -8;
    chunk.set_height_map(heights);
    assert_eq!(chunk.height_map()[0], -8);
    assert_eq!(chunk.sky_light_at(0, 0), 7);
    assert_eq!(chunk.sky_light_at(0, 8), 15);
    assert_eq!(chunk.sky_light_at(1, 0), 9);
    assert_eq!(chunk.block_light_at(0, 0), 0);
    assert_eq!(chunk.relative_chunk_location(1, -1), (3, -2));
    chunk.set_all_need_render();
}

#[test]
fn chunk_render_flag_reaches_neighbours() {
    let mut chunk = Chunk::new((0, 0), &AIR);
    let outside = chunk.propagate_render_flag(0, 5);
    assert_eq!(outside.len(), 3);
    assert!(outside.contains(&(-1, 0, 15, 4)));
    assert!(outside.contains(&(-1, 0, 15, 5)));
    assert!(outside.contains(&(-1, 0, 15, 6)));
    let corner = chunk.propagate_render_flag(15, 15);
    assert_eq!(corner.len(), 5);
    assert!(corner.contains(&(1, 1, 0, 0)));
    assert!(corner.contains(&(0, 1, 14, 0)));
    assert!(corner.contains(&(1, 0, 0, 14)));
    assert!(chunk.propagate_render_flag(7, 7).is_empty());
}

#[test]
fn expected_light_spreads_from_brightest_neighbor() {
    assert_eq!(expected_light(0, &[Some(5), None, Some(9), Some(2)]), 8);
    assert_eq!(expected_light(12, &[Some(5), None, Some(9), Some(2)]), 12);
    assert_eq!(expected_light(0, &[Some(0), None, None, None]), 0);
    assert_eq!(expected_light(3, &[None, None, None, Some(1)]), 3);
}

#[test]
fn chunk_light_and_render_marks() {
    let mut chunk = Chunk::new((0, 0), &AIR);
    chunk.set_block_light(2, 3, 7);
    assert_eq!(chunk.block_light_at(2, 3), 7);
    assert_eq!(chunk.block_light_at(3, 2), 0);
    chunk.mark_needs_render(4, 4);
    assert!(chunk.is_dirty_at(4, 4));
}

#[test]
fn chunk_render_flags_taken_in_order() {
    let mut chunk = Chunk::new((0, 0), &AIR);
    assert!(chunk.renders_all_blocks());
    let all = chunk.take_render_flags();
    assert_eq!(all.len(), 256);
    assert_eq!(all[0], (0, 0));
    assert_eq!(all[17], (1, 1));
    assert!(!chunk.renders_all_blocks());
    assert!(chunk.take_render_flags().is_empty());
    chunk.mark_needs_render(5, 2);
    chunk.mark_needs_render(1, 0);
    assert_eq!(chunk.take_render_flags(), vec![(1, 0), (5, 2)]);
    assert!(!chunk.is_dirty_at(5, 2));
}

static CRYSTAL: BlockType = BlockType {
    name: "amethyst_crystal",
    attributes: &[("wall", AttributeType::Enum(0, &["bottom", "left", "right", "top"]))],
    colliders: &[],
    is_full_block: false,
    light_emission: 5,
    light_attribute: None,
    connector: Connector::Never,
    right_click: ClickAction::CycleAttribute(0, 4),
};
static CELL: BlockType = BlockType {
    name: "voltagite_battery",
    attributes: &[("charge", AttributeType::U8(0))],
    colliders: &[],
    is_full_block: true,
    light_emission: 0,
    light_attribute: Some(0),
    connector: Connector::Electricity,
    right_click: ClickAction::CycleAttribute(0, 9),
};
static EMPTY: BlockType = BlockType {
    name: "air",
    attributes: &[],
    colliders: &[],
    is_full_block: false,
    light_emission: 0,
    light_attribute: None,
    connector: Connector::Never,
    right_click: ClickAction::PlaceHeld,
};

#[test]
fn right_click_rules() {
    let crystal = Block::new(&CRYSTAL, 0, 0);
    let mut turned = crystal.right_click(&STONE).unwrap();
    assert!(matches!(turned.attributes[0], AttributeValue::U8(1)));
    for _ in 0..3 {
        turned = turned.right_click(&STONE).unwrap();
    }
    assert!(matches!(turned.attributes[0], AttributeValue::U8(0)));
    assert_eq!(crystal.light_emission(), 5);

    let mut cell = Block::new(&CELL, 0, 0);
    assert_eq!(cell.light_emission(), 0);
    for _ in 0..8 {
        cell = cell.right_click(&STONE).unwrap();
    }
    assert_eq!(cell.light_emission(), 8);
    assert_eq!(cell.right_click(&STONE).unwrap().light_emission(), 0);

    let placed = Block::new(&EMPTY, 0, 0).right_click(&STONE).unwrap();
    assert_eq!(placed.block_type.name, "stone");
    assert!(Block::new(&STONE, 0, 0).right_click(&CRYSTAL).is_none());
}

#[test]
fn sky_light_comes_from_above_and_spreads() {
    assert_eq!(expected_sky_light(false, &[None, None, None, None]), 15);
    assert_eq!(expected_sky_light(true, &[Some(15), Some(3), None, None]), 14);
    assert_eq!(expected_sky_light(false, &[Some(10), Some(12), Some(3), Some(0)]), 11);
    assert_eq!(expected_sky_light(false, &[Some(0), Some(0), Some(0), Some(0)]), 0);
    assert_eq!(expected_sky_light(false, &[Some(15), Some(0), Some(0), Some(0)]), 15);
}

#[test]
fn light_changes_report_only_checked_differences() {
    let block = [Some(5), None, None, None];
    let sky = [Some(15), None, None, None];
    assert_eq!(light_changes(3, 15, 0, false, true, true, &block, &sky), (Some(4), None));
    assert_eq!(light_changes(4, 2, 0, false, true, true, &block, &sky), (None, Some(15)));
    assert_eq!(light_changes(3, 2, 0, false, false, false, &block, &sky), (None, None));
    assert_eq!(light_changes(0, 0, 9, true, true, true, &block, &sky), (Some(9), Some(14)));
}
