use innovus::asset::{
    parse_image_animation, AnimationError,
    BlockImage, BlockImageError, BlockImageFormat, BlockImageMetadata, BlockNeighbors, MetadataField, SimpleShape,
    parse_shape_name, parse_shape_offsets,
};
use innovus::rect::Rectangle;

fn names(list: &[&str]) -> Vec<Option<String>> {
    list.iter().map(|s| Some(s.to_string())).collect()
}

fn connected(shapes: Vec<Option<String>>) -> BlockImageMetadata {
    BlockImageMetadata {
        size: MetadataField::Value(16),
        format: MetadataField::Value("connected_simple".to_string()),
        shapes,
    }
}

#[test]
fn shape_names() {
    assert_eq!(parse_shape_name(&"fill".to_string()), Some(SimpleShape::Fill));
    assert_eq!(parse_shape_name(&"vertical".to_string()), Some(SimpleShape::Vertical));
    assert_eq!(parse_shape_name(&"diagonal".to_string()), None);
    assert_eq!(SimpleShape::InwardCorners.index(), 3);
}

#[test]
fn shape_offsets_follow_list_order() {
    let shapes = names(&["fill", "horizontal", "outward_corners", "inward_corners", "vertical"]);
    assert_eq!(parse_shape_offsets(&shapes).unwrap(), [2, 1, 4, 3, 0]);
}

#[test]
fn shape_offset_errors() {
    assert!(matches!(
        parse_shape_offsets(&names(&["fill", "fill"])),
        Err(BlockImageError::DuplicateShape(SimpleShape::Fill))
    ));
    assert!(matches!(
        parse_shape_offsets(&names(&["fill", "corner"])),
        Err(BlockImageError::UnrecognizedShape(s)) if s == "corner"
    ));
    assert!(matches!(
        parse_shape_offsets(&vec![Some("fill".to_string()), None]),
        Err(BlockImageError::ShapeNotString)
    ));
    assert!(matches!(
        parse_shape_offsets(&names(&["fill", "vertical"])),
        Err(BlockImageError::MissingShapes)
    ));
    assert!(matches!(parse_shape_offsets(&vec![]), Err(BlockImageError::MissingShapes)));
}

#[test]
fn parse_block_image() {
    let meta = connected(names(&["outward_corners", "horizontal", "vertical", "inward_corners", "fill"]));
    let image = BlockImage::parse("stone".to_string(), &meta, None).unwrap();
    assert_eq!(image.key(), "stone");
    assert_eq!(image.size(), 16);
    let single = BlockImageMetadata {
        size: MetadataField::Null,
        format: MetadataField::Null,
        shapes: vec![],
    };
    let inherited = BlockImage::parse("dirt".to_string(), &single, Some(&image)).unwrap();
    assert_eq!(inherited.size(), 16);
    assert_eq!(inherited.get_shape_offset(true, true, true), 4);
    assert!(matches!(
        BlockImage::parse("dirt".to_string(), &single, None),
        Err(BlockImageError::MissingSize)
    ));
}

#[test]
fn parse_block_image_errors_in_order() {
    let zero = BlockImageMetadata {
        size: MetadataField::Value(0),
        format: MetadataField::Other,
        shapes: vec![],
    };
    assert!(matches!(BlockImage::parse("k".to_string(), &zero, None), Err(BlockImageError::InvalidSize)));
    let bad_size = BlockImageMetadata { size: MetadataField::Other, format: MetadataField::Null, shapes: vec![] };
    assert!(matches!(BlockImage::parse("k".to_string(), &bad_size, None), Err(BlockImageError::InvalidSize)));
    let no_format = BlockImageMetadata { size: MetadataField::Value(8), format: MetadataField::Null, shapes: vec![] };
    assert!(matches!(BlockImage::parse("k".to_string(), &no_format, None), Err(BlockImageError::MissingFormat)));
    let not_string = BlockImageMetadata { size: MetadataField::Value(8), format: MetadataField::Other, shapes: vec![] };
    assert!(matches!(BlockImage::parse("k".to_string(), &not_string, None), Err(BlockImageError::FormatNotString)));
    let unknown = BlockImageMetadata {
        size: MetadataField::Value(8),
        format: MetadataField::Value("animated".to_string()),
        shapes: vec![],
    };
    assert!(matches!(
        BlockImage::parse("k".to_string(), &unknown, None),
        Err(BlockImageError::UnrecognizedFormat(s)) if s == "animated"
    ));
    let missing = connected(names(&["fill"]));
    assert!(matches!(BlockImage::parse("k".to_string(), &missing, None), Err(BlockImageError::MissingShapes)));
}

#[test]
fn atlas_region_and_quadrants() {
    let meta = connected(names(&["outward_corners", "horizontal", "vertical", "inward_corners", "fill"]));
    let mut image = BlockImage::parse("stone".to_string(), &meta, None).unwrap();
    let wrong = image.set_atlas_region(Rectangle::new(0, 0, 16, 16));
    assert!(matches!(
        wrong,
        Err(BlockImageError::UnexpectedImageSize { expected_width: 80, expected_height: 16, width: 16, height: 16 })
    ));
    assert!(image.set_atlas_region(Rectangle::new(32, 48, 80, 16)).is_ok());
    let alone = BlockNeighbors {
        left: false,
        right: false,
        down: false,
        up: false,
        up_left: false,
        up_right: false,
        down_left: false,
        down_right: false,
    };
    assert_eq!(image.get_quadrant_atlas_offsets(alone), [(32, 48); 4]);
    let row = BlockNeighbors { left: true, right: true, ..alone };
    assert_eq!(image.get_quadrant_atlas_offsets(row), [(48, 48); 4]);
    let surrounded = BlockNeighbors {
        left: true,
        right: true,
        down: true,
        up: true,
        up_left: true,
        up_right: false,
        down_left: true,
        down_right: true,
    };
    assert_eq!(image.get_quadrant_atlas_offsets(surrounded), [(96, 48), (80, 48), (96, 48), (96, 48)]);
    assert_eq!(image.get_shape_offset(false, true, false), 2);
    image.set_key("granite".to_string());
    assert_eq!(image.key(), "granite");
}

#[test]
fn single_format() {
    let meta = BlockImageMetadata {
        size: MetadataField::Value(4),
        format: MetadataField::Value("single".to_string()),
        shapes: vec![None],
    };
    let mut image = BlockImage::parse("glass".to_string(), &meta, None).unwrap();
    assert!(image.set_atlas_region(Rectangle::new(1, 2, 4, 4)).is_ok());
    assert_eq!(image.get_shape_offset(true, true, false), 0);
    let all = BlockNeighbors {
        left: true,
        right: true,
        down: true,
        up: true,
        up_left: true,
        up_right: true,
        down_left: true,
        down_right: true,
    };
    assert_eq!(image.get_quadrant_atlas_offsets(all), [(1, 2); 4]);
    assert_eq!(BlockImageFormat::Single.shape_count(), 1);
    assert_eq!(BlockImageFormat::ConnectedSimple { shape_offsets: [0, 1, 2, 3, 4] }.shape_count(), 5);
}

#[test]
fn animation_splits_region_into_frames() {
    let region = Rectangle::new(4u32, 8, 16, 64);
    let (base, anim) = parse_image_animation(region, Some(4), Some(100)).unwrap();
    assert_eq!((base.x(), base.y(), base.width(), base.height()), (4, 8, 16, 16));
    let anim = anim.unwrap();
    assert_eq!((anim.frame_count, anim.frame_time), (4, 100));

    let (still, none) = parse_image_animation(region, None, Some(3)).unwrap();
    assert_eq!((still.x(), still.y(), still.width(), still.height()), (4, 8, 16, 64));
    assert!(none.is_none());

    assert_eq!(parse_image_animation(region, Some(4), None).err(), Some(AnimationError::MissingFrameTime));
    assert_eq!(
        parse_image_animation(region, Some(5), Some(1)).err(),
        Some(AnimationError::InvalidFrameCount { height: 64, frame_count: 5 })
    );
    assert_eq!(
        parse_image_animation(region, Some(0), Some(1)).err(),
        Some(AnimationError::InvalidFrameCount { height: 64, frame_count: 0 })
    );
}

#[test]
fn block_image_error_messages() {
    assert_eq!(BlockImageError::MissingSize.message("stone"), "missing size property for stone");
    assert_eq!(
        BlockImageError::UnrecognizedFormat("tiled".to_string()).message("glass"),
        "invalid format property for glass: unrecognized format 'tiled'"
    );
    assert_eq!(
        BlockImageError::DuplicateShape(SimpleShape::InwardCorners).message("glass"),
        "invalid shapes property for glass: duplicate shape 'inward_corners'"
    );
    assert_eq!(
        BlockImageError::UnexpectedImageSize { expected_width: 80, expected_height: 16, width: 16, height: 16 }
            .message("glass"),
        "unexpected image size for glass: expected 80x16, got 16x16"
    );
    assert_eq!(
        AnimationError::InvalidFrameCount { height: 64, frame_count: 5 }.message("player"),
        "invalid frame count for entity/player: image height (64) not divisible by animation.frame_count (5)"
    );
    assert_eq!(AnimationError::MissingFrameTime.message("player"), "missing key for entity/player: animation.frame_time");
}

#[test]
fn parsed_images_keep_positive_size_and_five_distinct_offsets() {
    let meta = connected(names(&["vertical", "fill", "inward_corners", "outward_corners", "horizontal"]));
    let image = BlockImage::parse("glass".to_string(), &meta, None).unwrap();
    let inherited = BlockImage::parse(
        "glass_pane".to_string(),
        &BlockImageMetadata { size: MetadataField::Null, format: MetadataField::Null, shapes: vec![] },
        Some(&image),
    )
    .unwrap();
    for img in [&image, &inherited] {
        assert!(img.size() > 0);
        match img.format() {
            BlockImageFormat::ConnectedSimple { shape_offsets } => {
                let mut sorted = shape_offsets;
                sorted.sort();
                assert_eq!(sorted, [0, 1, 2, 3, 4]);
                assert_eq!(shape_offsets, [3, 4, 0, 2, 1]);
            }
            BlockImageFormat::Single => panic!("expected a connected format"),
        }
    }
    let copy = inherited.clone();
    assert_eq!(copy.key(), "glass_pane");
    assert_eq!(copy.size(), 16);
}
