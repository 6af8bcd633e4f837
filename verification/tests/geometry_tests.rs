use innovus::phys::{CollisionSide, Physics};
use innovus::rect::Rectangle;
use std::cmp::Ordering;

#[test]
fn rectangle_accessors() {
    let mut r = Rectangle::new(1i32, 2, 3, 4);
    assert_eq!((r.x(), r.y(), r.width(), r.height()), (1, 2, 3, 4));
    assert_eq!(r.xw(), 4);
    assert_eq!(r.yh(), 6);
    r.set_x(-1);
    r.set_y(0);
    r.set_width(10);
    r.set_height(1);
    assert_eq!((r.x(), r.y(), r.width(), r.height()), (-1, 0, 10, 1));
}

#[test]
fn rectangle_intersection() {
    let a = Rectangle::new(0i32, 0, 10, 10);
    let b = Rectangle::new(5i32, 5, 10, 10);
    let c = Rectangle::new(10i32, 0, 5, 5);
    assert!(a.intersects(&b));
    assert!(b.intersects(&a));
    assert!(!a.intersects(&c));
    assert!(!c.intersects(&a));
    assert!(a.intersects(&a));
    let u = Rectangle::new(0u32, 0, 2, 2);
    let v = Rectangle::new(1u32, 1, 2, 2);
    let w = Rectangle::new(0u32, 2, 2, 2);
    assert!(u.intersects(&v));
    assert!(!u.intersects(&w));
    assert_eq!(v.xw(), 3);
    assert_eq!(w.yh(), 4);
}

#[test]
fn collision_side_opposites() {
    let sides = [
        CollisionSide::Left,
        CollisionSide::Right,
        CollisionSide::Bottom,
        CollisionSide::Top,
        CollisionSide::BottomLeft,
        CollisionSide::BottomRight,
        CollisionSide::TopLeft,
        CollisionSide::TopRight,
    ];
    for side in sides {
        assert_eq!(side.opposite().opposite(), side);
        assert_ne!(side.opposite(), side);
    }
    assert_eq!(CollisionSide::BottomLeft.opposite(), CollisionSide::TopRight);
    assert_eq!(CollisionSide::Top.opposite(), CollisionSide::Bottom);
}

#[test]
fn collision_side_detection() {
    assert_eq!(CollisionSide::detect(Ordering::Less, true, false), CollisionSide::Right);
    assert_eq!(CollisionSide::detect(Ordering::Less, false, true), CollisionSide::Left);
    assert_eq!(CollisionSide::detect(Ordering::Greater, true, true), CollisionSide::Top);
    assert_eq!(CollisionSide::detect(Ordering::Greater, false, false), CollisionSide::Bottom);
    assert_eq!(CollisionSide::detect(Ordering::Equal, true, true), CollisionSide::TopRight);
    assert_eq!(CollisionSide::detect(Ordering::Equal, true, false), CollisionSide::BottomRight);
    assert_eq!(CollisionSide::detect(Ordering::Equal, false, true), CollisionSide::TopLeft);
    assert_eq!(CollisionSide::detect(Ordering::Equal, false, false), CollisionSide::BottomLeft);
    assert!(CollisionSide::Left < CollisionSide::BottomLeft);
}

#[test]
fn physics_store_adds_and_removes() {
    let mut physics: Physics<&str> = Physics::new();
    let a = physics.add_collider("a");
    let b = physics.add_collider("b");
    assert_eq!(physics.get_collider(&a), Some(&"a"));
    assert_eq!(physics.get_collider(&b), Some(&"b"));
    assert_eq!(physics.slot_count(), 2);
    assert_eq!(physics.remove_collider(a), Some("a"));
    let c = physics.add_collider("c");
    assert_eq!(physics.slot_count(), 2);
    assert_eq!(physics.get_collider(&c), Some(&"c"));
    assert_eq!(physics.current_collider(0), Some(&"c"));
    *physics.get_collider_mut(&c).unwrap() = "d";
    assert_eq!(physics.current_collider(0), Some(&"d"));
    *physics.current_collider_mut(1).unwrap() = "e";
    assert_eq!(physics.get_collider(&b), Some(&"e"));
    assert_eq!(physics.current_collider(2), None);
}

#[test]
fn physics_removed_handle_stays_dead() {
    let mut physics: Physics<u8> = Physics::new();
    let a = physics.add_collider(1);
    let a_again = physics.add_collider(9);
    assert_eq!(physics.remove_collider(a_again), Some(9));
    let fresh = physics.add_collider(2);
    assert_eq!(physics.get_collider(&fresh), Some(&2));
    assert_eq!(physics.current_collider(1), Some(&2));
    assert_eq!(physics.get_collider(&a), Some(&1));
    assert!(physics.get_collider_mut(&a).is_some());
}

#[test]
fn physics_candidate_pairs_skip_open_slots() {
    let mut physics: Physics<u8> = Physics::new();
    let _a = physics.add_collider(0);
    let b = physics.add_collider(1);
    let _c = physics.add_collider(2);
    let _d = physics.add_collider(3);
    assert_eq!(physics.candidate_pairs(), vec![(0, 1), (0, 2), (0, 3), (1, 2), (1, 3), (2, 3)]);
    physics.remove_collider(b);
    assert_eq!(physics.candidate_pairs(), vec![(0, 2), (0, 3), (2, 3)]);
    let empty: Physics<u8> = Physics::new();
    assert!(empty.candidate_pairs().is_empty());
}
