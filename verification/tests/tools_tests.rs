use innovus::stratego::{PieceType, BOARD_SIZE};
use innovus::tools::{generate_uuid, Easing};

#[test]
fn uuids_are_random_version_four() {
    let a = generate_uuid();
    let b = generate_uuid();
    assert_ne!(a, b);
    assert_eq!(a[6] >> 4, 4);
    assert_eq!(a[8] >> 6, 2);
    let uuid = uuid::Uuid::from_bytes(a);
    assert_eq!(uuid.get_version_num(), 4);
    assert_eq!(uuid.get_variant(), uuid::Variant::RFC4122);
}

#[test]
fn plain_enums() {
    assert_eq!(Easing::Linear, Easing::Linear);
    assert_ne!(Easing::Step, Easing::Sine);
    assert_eq!(BOARD_SIZE, 10);
    assert_ne!(PieceType::Spy, PieceType::Scout);
}

#[test]
fn stratego_piece_symbols() {
    assert_eq!(PieceType::Bomb.symbol(), b'B');
    assert_eq!(PieceType::Marshal.symbol(), b'1');
    assert_eq!(PieceType::Scout.symbol(), b'9');
    assert_eq!(PieceType::Spy.symbol(), b'S');
    assert_eq!(PieceType::Flag.symbol(), b'F');
}
