use innovus::arena::{ArenaHandle, ArenaSlot, BoundedArena, UnboundedArena};

#[test]
fn unbounded_insert_then_get() {
    let mut arena = UnboundedArena::new();
    let a = arena.insert(10u32);
    let b = arena.insert(20u32);
    assert_eq!(a, ArenaHandle { slot: 0, version: 0 });
    assert_eq!(b, ArenaHandle { slot: 1, version: 0 });
    assert_eq!(arena.get(a), Some(&10));
    assert_eq!(arena.get(b), Some(&20));
    assert_eq!(arena.get(ArenaHandle { slot: 2, version: 0 }), None);
}

#[test]
fn unbounded_remove_kills_handle_and_reuses_slot() {
    let mut arena = UnboundedArena::new();
    let a = arena.insert("a".to_string());
    let b = arena.insert("b".to_string());
    assert_eq!(arena.remove(a), Some("a".to_string()));
    assert_eq!(arena.get(a), None);
    assert_eq!(arena.remove(a), None);
    let c = arena.insert("c".to_string());
    assert_eq!(c, ArenaHandle { slot: 0, version: 1 });
    assert_eq!(arena.get(a), None);
    assert_eq!(arena.get(c), Some(&"c".to_string()));
    assert_eq!(arena.get(b), Some(&"b".to_string()));
    assert_eq!(arena.slots().len(), 2);
}

#[test]
fn unbounded_free_list_is_last_in_first_out() {
    let mut arena = UnboundedArena::new();
    let handles: Vec<ArenaHandle> = (0..4u8).map(|v| arena.insert(v)).collect();
    assert_eq!(arena.remove(handles[1]), Some(1));
    assert_eq!(arena.remove(handles[3]), Some(3));
    let x = arena.insert(30);
    let y = arena.insert(10);
    let z = arena.insert(40);
    assert_eq!(x.slot, 3);
    assert_eq!(y.slot, 1);
    assert_eq!(z.slot, 4);
    assert_eq!(x.version, 1);
    assert_eq!(z.version, 0);
}

#[test]
fn unbounded_get_mut_and_current() {
    let mut arena = UnboundedArena::new();
    let a = arena.insert(5i64);
    if let Some(v) = arena.get_mut(a) {
        *v = 7;
    }
    assert_eq!(arena.get(a), Some(&7));
    assert_eq!(arena.get_current(0), Some(&7));
    assert_eq!(arena.get_current(1), None);
    if let Some(v) = arena.get_current_mut(0) {
        *v += 1;
    }
    assert_eq!(arena.get(a), Some(&8));
    assert!(arena.get_mut(ArenaHandle { slot: 0, version: 3 }).is_none());
    assert_eq!(arena.remove(ArenaHandle { slot: 0, version: 3 }), None);
    assert_eq!(arena.get(a), Some(&8));
}

#[test]
fn unbounded_values_walk_filled_slots_in_order() {
    let mut arena = UnboundedArena::new();
    let a = arena.insert('a');
    arena.insert('b');
    arena.insert('c');
    arena.remove(a);
    let mut values = arena.values();
    let mut seen = Vec::new();
    while let Some((slot, v)) = values.next() {
        seen.push((slot, *v));
    }
    assert_eq!(seen, vec![(1, 'b'), (2, 'c')]);
    assert!(values.next().is_none());
}

#[test]
fn unbounded_values_mut_changes_values() {
    let mut arena = UnboundedArena::new();
    let a = arena.insert(1u16);
    let b = arena.insert(2u16);
    let c = arena.insert(3u16);
    arena.remove(b);
    {
        let mut values = arena.values_mut();
        while let Some((slot, v)) = values.next() {
            *v += 10 * slot as u16;
        }
    }
    assert_eq!(arena.get(a), Some(&1));
    assert_eq!(arena.get(c), Some(&23));
}

#[test]
fn bounded_starts_with_chained_open_slots() {
    let arena: BoundedArena<u8> = BoundedArena::new(3);
    let slots = arena.slots();
    assert_eq!(slots.len(), 3);
    assert!(matches!(slots[0], ArenaSlot::Open { next_open_slot: Some(1), version: 0 }));
    assert!(matches!(slots[1], ArenaSlot::Open { next_open_slot: Some(2), version: 0 }));
    assert!(matches!(slots[2], ArenaSlot::Open { next_open_slot: None, version: 0 }));
}

#[test]
fn bounded_refuses_when_full() {
    let mut arena = BoundedArena::new(2);
    let a = arena.try_insert(1u8).unwrap();
    let b = arena.try_insert(2u8).unwrap();
    assert_eq!(a, ArenaHandle { slot: 0, version: 0 });
    assert_eq!(b, ArenaHandle { slot: 1, version: 0 });
    assert_eq!(arena.try_insert(3u8), Err(3));
    assert_eq!(arena.remove(a), Some(1));
    let c = arena.try_insert(4u8).unwrap();
    assert_eq!(c, ArenaHandle { slot: 0, version: 1 });
    assert_eq!(arena.get(a), None);
    assert_eq!(arena.get(c), Some(&4));
    assert_eq!(arena.slots().len(), 2);
}

#[test]
fn bounded_values_and_mutation() {
    let mut arena = BoundedArena::new(4);
    let a = arena.try_insert(100u32).unwrap();
    let b = arena.try_insert(200u32).unwrap();
    *arena.get_mut(b).unwrap() += 1;
    assert_eq!(arena.get(b), Some(&201));
    assert_eq!(arena.get_current(0), Some(&100));
    *arena.get_current_mut(0).unwrap() = 5;
    assert_eq!(arena.get(a), Some(&5));
    let mut count = 0;
    let mut values = arena.values();
    while values.next().is_some() {
        count += 1;
    }
    assert_eq!(count, 2);
    let mut values = arena.values_mut();
    while let Some((_, v)) = values.next() {
        *v = 0;
    }
    assert_eq!(arena.get(a), Some(&0));
    assert_eq!(arena.get(b), Some(&0));
}

#[test]
fn slot_value_reads_by_version() {
    let mut slot: ArenaSlot<i32> = ArenaSlot::Filled { value: 9, version: 4 };
    assert_eq!(slot.value(4), Some(&9));
    assert_eq!(slot.value(3), None);
    assert_eq!(slot.current_value(), Some(&9));
    *slot.value_mut(4).unwrap() = 10;
    assert!(slot.value_mut(5).is_none());
    *slot.current_value_mut().unwrap() += 1;
    assert_eq!(slot.value(4), Some(&11));
    let open: ArenaSlot<i32> = ArenaSlot::Open { next_open_slot: None, version: 4 };
    assert_eq!(open.value(4), None);
    assert_eq!(open.current_value(), None);
}

fn filled(slots: &[ArenaSlot<u32>]) -> usize {
    slots.iter().filter(|s| matches!(s, ArenaSlot::Filled { .. })).count()
}

#[test]
fn bounded_filled_count_follows_inserts_and_removes() {
    let mut arena = BoundedArena::new(3);
    assert_eq!(filled(arena.slots()), 0);
    let a = arena.try_insert(1u32).unwrap();
    let b = arena.try_insert(2u32).unwrap();
    assert_eq!(filled(arena.slots()), 2);
    assert_eq!(arena.remove(a), Some(1));
    assert_eq!(filled(arena.slots()), 1);
    assert_eq!(arena.remove(a), None);
    assert_eq!(filled(arena.slots()), 1);
    let mut values = arena.values_mut();
    while let Some((_, v)) = values.next() {
        *v += 10;
    }
    assert_eq!(filled(arena.slots()), 1);
    assert_eq!(arena.get(b), Some(&12));
    arena.try_insert(3u32).unwrap();
    arena.try_insert(4u32).unwrap();
    assert_eq!(filled(arena.slots()), 3);
    assert_eq!(arena.try_insert(5u32), Err(5));
    assert_eq!(arena.slots().len(), 3);
}
