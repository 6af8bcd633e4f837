use innovus::input::{get_key_index, InputState, KeyAction};
use innovus::snek::{Direction, Snake};
use std::collections::VecDeque;

#[test]
fn snake_moves_and_turns() {
    let mut snake = Snake::new();
    assert_eq!(snake.nodes(), &VecDeque::from([(1, 5), (2, 5), (3, 5)]));
    assert!(snake.step_in_range());
    snake.step();
    assert_eq!(snake.nodes(), &VecDeque::from([(2, 5), (3, 5), (4, 5)]));
    assert_eq!(snake.prev_tail(), (1, 5));
    // Moving right, it cannot turn straight back left.
    assert!(!snake.turn(Direction::Left));
    assert_eq!(snake.face(), (1, 0));
    assert!(snake.turn(Direction::Up));
    assert_eq!(snake.face(), (0, -1));
    // It has not moved up yet, so it may still turn down (back to right is fine too).
    assert!(snake.turn(Direction::Down));
    assert_eq!(snake.face(), (0, 1));
    snake.step();
    assert_eq!(snake.head(), (4, 6));
    assert!(!snake.turn(Direction::Up));
    assert!(snake.turn(Direction::Left));
    snake.step();
    assert_eq!(snake.nodes(), &VecDeque::from([(4, 5), (4, 6), (3, 6)]));
}

#[test]
fn held_keys() {
    let mut input = InputState::new();
    assert_eq!(get_key_index(32), Some(0));
    assert_eq!(get_key_index(348), Some(316));
    assert_eq!(get_key_index(-1), None);
    assert!(!input.key_is_held(87));
    input.handle_key(87, KeyAction::Press);
    assert!(input.key_is_held(87));
    input.handle_key(87, KeyAction::Repeat);
    assert!(input.key_is_held(87));
    assert!(!input.key_is_held(65));
    input.handle_key(87, KeyAction::Release);
    assert!(!input.key_is_held(87));
    input.handle_key(-1, KeyAction::Press);
    assert!(!input.key_is_held(-1));
    assert!(input.key_was_pressed(87));
    input.reset();
    assert!(!input.key_was_pressed(87));
    input.handle_key(65, KeyAction::Press);
    assert!(input.key_was_pressed(65));
    assert!(input.key_is_held(65));
    input.handle_mouse_button(1, KeyAction::Press);
    assert!(input.mouse_button_is_held(1));
    assert!(!input.mouse_button_is_held(0));
    assert!(!input.mouse_button_is_held(8));
}

use innovus::block::{BlockType, Connector, ClickAction};
use innovus::game::{step_block_cursor, toggled_mode, BlockActions, BlockCursor, BlockInput, PlayerMode};

static AIR: BlockType = BlockType {
    name: "air",
    attributes: &[],
    colliders: &[],
    is_full_block: false,
    light_emission: 0,
    connector: Connector::Never,
    light_attribute: None,
    right_click: ClickAction::Nothing,
};
static DIRT: BlockType = BlockType {
    name: "dirt",
    attributes: &[],
    colliders: &[],
    is_full_block: true,
    light_emission: 0,
    connector: Connector::FullBlock,
    light_attribute: None,
    right_click: ClickAction::Nothing,
};
static STONE: BlockType = BlockType {
    name: "stone",
    attributes: &[],
    colliders: &[],
    is_full_block: true,
    light_emission: 0,
    connector: Connector::FullBlock,
    light_attribute: None,
    right_click: ClickAction::Nothing,
};

fn input() -> BlockInput {
    BlockInput {
        cycle_pressed: false,
        shift_held: false,
        left_held: false,
        right_held: false,
        middle_held: false,
        block_pos: (3, 4),
        hovered: None,
    }
}

#[test]
fn block_cursor_cycles_past_air() {
    let types: [&'static BlockType; 3] = [&AIR, &DIRT, &STONE];
    let mut cursor = BlockCursor { selected_block_index: 1, last_block_pos: None };
    let mut frame = input();
    frame.cycle_pressed = true;
    assert_eq!(step_block_cursor(&mut cursor, &frame, &types), BlockActions { destroy: false, place: None });
    assert_eq!(cursor.selected_block_index, 2);
    step_block_cursor(&mut cursor, &frame, &types);
    assert_eq!(cursor.selected_block_index, 1);
    frame.shift_held = true;
    step_block_cursor(&mut cursor, &frame, &types);
    assert_eq!(cursor.selected_block_index, 2);
}

#[test]
fn block_cursor_acts_once_per_position() {
    let types: [&'static BlockType; 3] = [&AIR, &DIRT, &STONE];
    let mut cursor = BlockCursor { selected_block_index: 1, last_block_pos: None };
    let mut frame = input();
    frame.left_held = true;
    frame.right_held = true;
    assert_eq!(step_block_cursor(&mut cursor, &frame, &types), BlockActions { destroy: true, place: Some(1) });
    assert_eq!(cursor.last_block_pos, Some((3, 4)));
    assert_eq!(step_block_cursor(&mut cursor, &frame, &types), BlockActions { destroy: false, place: None });
    frame.block_pos = (3, 5);
    assert_eq!(step_block_cursor(&mut cursor, &frame, &types), BlockActions { destroy: true, place: Some(1) });
    let released = input();
    step_block_cursor(&mut cursor, &released, &types);
    assert_eq!(cursor.last_block_pos, None);
}

#[test]
fn block_cursor_middle_picks_hovered() {
    let types: [&'static BlockType; 3] = [&AIR, &DIRT, &STONE];
    let mut cursor = BlockCursor { selected_block_index: 1, last_block_pos: None };
    let mut frame = input();
    frame.middle_held = true;
    frame.right_held = true;
    frame.hovered = Some(&STONE);
    assert_eq!(step_block_cursor(&mut cursor, &frame, &types), BlockActions { destroy: false, place: Some(2) });
    assert_eq!(cursor.selected_block_index, 2);
    frame.block_pos = (0, 0);
    frame.hovered = Some(&AIR);
    step_block_cursor(&mut cursor, &frame, &types);
    assert_eq!(cursor.selected_block_index, 2);
    assert_eq!(toggled_mode(PlayerMode::Normal), PlayerMode::Spectating);
    assert_eq!(toggled_mode(PlayerMode::Spectating), PlayerMode::Normal);
}
