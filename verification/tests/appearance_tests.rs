use innovus::appearance::{
    parse_attribute_value, parse_condition, AttributeInput, BlockAppearance, Condition, ConditionError, ImageSelector,
};
use innovus::appearance::{state_image_keys, ImageKeyError};
use innovus::block::{AttributeType, AttributeValue, Block, BlockType, Connector, ClickAction};

static LAMP: BlockType = BlockType {
    name: "lamp",
    attributes: &[
        ("lit", AttributeType::Bool(false)),
        ("color", AttributeType::Enum(0, &["white", "red", "green"])),
    ],
    colliders: &[],
    is_full_block: true,
    light_emission: 0,
    connector: Connector::FullBlock,
    light_attribute: None,
    right_click: ClickAction::Nothing,
};

fn input() -> AttributeInput {
    AttributeInput { as_bool: None, as_u8: None, as_i8: None, as_u32: None, as_i32: None, as_str: None }
}

fn is_u8(v: &Option<AttributeValue>, n: u8) -> bool {
    matches!(v, Some(AttributeValue::U8(x)) if *x == n)
}

#[test]
fn attribute_values_by_kind() {
    let mut v = input();
    v.as_bool = Some(true);
    assert!(matches!(parse_attribute_value(&AttributeType::Bool(false), &v), Some(AttributeValue::Bool(true))));
    assert!(parse_attribute_value(&AttributeType::U8(0), &v).is_none());
    let mut s = input();
    s.as_str = Some("green".to_string());
    assert!(is_u8(&parse_attribute_value(&AttributeType::Enum(0, &["white", "red", "green"]), &s), 2));
    s.as_str = Some("blue".to_string());
    assert!(parse_attribute_value(&AttributeType::Enum(0, &["white", "red", "green"]), &s).is_none());
    assert!(matches!(
        parse_attribute_value(&AttributeType::String("x"), &s),
        Some(AttributeValue::String(ref t)) if t == "blue"
    ));
}

#[test]
fn condition_parse_and_accept() {
    let mut lit = input();
    lit.as_bool = Some(true);
    let mut red = input();
    red.as_str = Some("red".to_string());
    let entries = vec![("lit".to_string(), lit), ("color".to_string(), red)];
    let condition = parse_condition(&entries, &LAMP).ok().unwrap();
    assert_eq!(condition.attributes.len(), 2);
    let mut block = Block::new(&LAMP, 0, 0);
    assert!(!condition.accepts(&block));
    block.attributes[0] = AttributeValue::Bool(true);
    block.attributes[1] = AttributeValue::U8(1);
    assert!(condition.accepts(&block));

    let bad = vec![("size".to_string(), input())];
    assert!(matches!(parse_condition(&bad, &LAMP), Err(ConditionError::NoSuchAttribute(ref n)) if n == "size"));
    let wrong = vec![("lit".to_string(), input())];
    assert!(matches!(parse_condition(&wrong, &LAMP), Err(ConditionError::WrongKind(ref n)) if n == "lit"));
}

#[test]
fn appearance_picks_first_matching_state() {
    let lit_only = Condition { attributes: vec![(0, AttributeValue::Bool(true))] };
    let any = Condition { attributes: vec![] };
    let appearance = BlockAppearance {
        states: vec![
            (lit_only, ImageSelector { images: vec!["lamp_on"] }),
            (any, ImageSelector { images: vec!["lamp_a", "lamp_b", "lamp_c"] }),
        ],
    };
    let mut block = Block::new(&LAMP, 0, 0);
    assert_eq!(appearance.get_image(&block, 7), Some(&"lamp_b"));
    assert_eq!(appearance.get_image(&block, 9), Some(&"lamp_a"));
    block.attributes[0] = AttributeValue::Bool(true);
    assert_eq!(appearance.get_image(&block, 7), Some(&"lamp_on"));
    let empty: BlockAppearance<&str> = BlockAppearance { states: vec![] };
    assert_eq!(empty.get_image(&block, 0), None);
}

#[test]
fn state_image_keys_substitute_block_type() {
    let state = innovus::json_data::parse_json_text(
        r#"{"images": ["block/{block_type}", "block/{block_type}_{block_type}", "plain", 7, "{block_type"]}"#,
    )
    .unwrap();
    let keys = innovus::appearance::state_image_keys(&state, "lamp").unwrap();
    assert_eq!(
        keys,
        vec![
            Some("block/lamp".to_string()),
            Some("block/lamp_lamp".to_string()),
            Some("plain".to_string()),
            None,
            Some("{block_type".to_string()),
        ]
    );
}

#[test]
fn state_image_keys_errors() {
    let empty = innovus::json_data::parse_json_text(r#"{"images": []}"#).unwrap();
    assert_eq!(state_image_keys(&empty, "lamp"), Err(ImageKeyError::NoKeys));
    let missing = innovus::json_data::parse_json_text(r#"{"conditions": {}}"#).unwrap();
    assert_eq!(state_image_keys(&missing, "lamp"), Err(ImageKeyError::NoKeys));
    assert_eq!(
        ImageKeyError::NoKeys.message("lamp"),
        "expected a list of one or more image keys for block type 'lamp'"
    );
    assert_eq!(ImageKeyError::NotString.message("lamp"), "all image keys for block type 'lamp' must be strings");
}
