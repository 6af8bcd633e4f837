use innovus::appearance::{attribute_input, condition_entries};
use innovus::asset::{block_image_metadata, MetadataField};
use innovus::json_data::{parse_json_text, JsonData};

#[test]
fn json_text_reads_values() {
    let data = parse_json_text(r#"{"a": [1, -2, 2.5, "x", true, null], "b": {"c": 3}}"#).unwrap();
    let a = data.member_value("a").unwrap();
    let items = a.members();
    assert_eq!(items.len(), 6);
    assert_eq!(items[0].as_u32(), Some(1));
    assert_eq!(items[1].as_u32(), None);
    assert_eq!(items[1].as_i32(), Some(-2));
    assert_eq!(items[1].as_i8(), Some(-2));
    assert_eq!(items[2].as_u32(), None);
    assert!(matches!(items[2], JsonData::Number(true, 25, -1)));
    assert_eq!(items[3].as_str(), Some("x"));
    assert_eq!(items[4].as_bool(), Some(true));
    assert!(items[5].is_null());
    let b = data.member_value("b").unwrap();
    assert_eq!(b.member_value("c").and_then(JsonData::as_u8), Some(3));
    assert!(data.member_value("missing").is_none());
    assert!(a.member_value("a").is_none());
    assert_eq!(b.entries().len(), 1);
    assert_eq!(b.entries()[0].0, "c");
}

#[test]
fn json_text_reports_errors() {
    assert!(parse_json_text("{").is_err());
    assert!(parse_json_text("[1,]").is_err());
    let message = parse_json_text("tru").unwrap_err();
    assert!(!message.is_empty());
}

#[test]
fn json_number_ranges() {
    let data = parse_json_text("[300, 4294967296, -129, 128]").unwrap();
    let items = data.members();
    assert_eq!(items[0].as_u8(), None);
    assert_eq!(items[0].as_u32(), Some(300));
    assert_eq!(items[1].as_u32(), None);
    assert_eq!(items[2].as_i8(), None);
    assert_eq!(items[2].as_i32(), Some(-129));
    assert_eq!(items[3].as_i8(), None);
    assert_eq!(items[3].as_u8(), Some(128));
}

#[test]
fn block_image_metadata_from_json() {
    let data = parse_json_text(r#"{"size": 16, "format": "connected_simple", "shapes": ["fill", 3]}"#).unwrap();
    let metadata = block_image_metadata(&data);
    assert!(matches!(metadata.size, MetadataField::Value(16)));
    assert!(matches!(metadata.format, MetadataField::Value(ref f) if f == "connected_simple"));
    assert_eq!(metadata.shapes, vec![Some("fill".to_string()), None]);

    let other = parse_json_text(r#"{"size": -1, "format": 2, "shapes": "x"}"#).unwrap();
    let metadata = block_image_metadata(&other);
    assert!(matches!(metadata.size, MetadataField::Other));
    assert!(matches!(metadata.format, MetadataField::Other));
    assert!(metadata.shapes.is_empty());

    let empty = parse_json_text(r#"{"size": null}"#).unwrap();
    let metadata = block_image_metadata(&empty);
    assert!(matches!(metadata.size, MetadataField::Null));
    assert!(matches!(metadata.format, MetadataField::Null));
}

#[test]
fn attribute_inputs_from_json() {
    let data = parse_json_text(r#"{"condition": {"wall": "left", "charge": 3, "lit": false}}"#).unwrap();
    let entries = condition_entries(&data);
    assert_eq!(entries.len(), 3);
    assert_eq!(entries[0].0, "wall");
    assert_eq!(entries[0].1.as_str.as_deref(), Some("left"));
    assert_eq!(entries[1].1.as_u8, Some(3));
    assert_eq!(entries[1].1.as_i32, Some(3));
    assert_eq!(entries[1].1.as_str, None);
    assert_eq!(entries[2].1.as_bool, Some(false));
    let none = parse_json_text(r#"{"images": []}"#).unwrap();
    assert!(condition_entries(&none).is_empty());
    let value = parse_json_text("-5").unwrap();
    let input = attribute_input(&value);
    assert_eq!(input.as_i8, Some(-5));
    assert_eq!(input.as_u8, None);
}
