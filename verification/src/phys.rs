use vstd::prelude::*;
use std::cmp::Ordering;
use crate::arena::{
    ArenaHandle, ArenaSlot, deref_opt, free_list_wf, free_head, slots_lookup, slots_current, lemma_fill_head,
    lemma_push_filled, lemma_open_slot, lemma_refill,
};

verus! {

/// The side or corner of a first collider that meets a second collider.
/// The corners come last.
#[derive(Debug, Copy, Clone, PartialEq, Eq, Structural, PartialOrd, Ord)]
pub enum CollisionSide {
    /// The left side of the first collider meets the right side of the second.
    Left,
    /// The right side of the first collider meets the left side of the second.
    Right,
    /// The bottom side of the first collider meets the top side of the second.
    Bottom,
    /// The top side of the first collider meets the bottom side of the second.
    Top,
    /// The bottom-left corner of the first meets the top-right corner of the second.
    BottomLeft,
    /// The bottom-right corner of the first meets the top-left corner of the second.
    BottomRight,
    /// The top-left corner of the first meets the bottom-right corner of the second.
    TopLeft,
    /// The top-right corner of the first meets the bottom-left corner of the second.
    TopRight,
}

/// The side seen from the second collider.
pub open spec fn opposite_side(side: CollisionSide) -> CollisionSide {
    match side {
        CollisionSide::Left => CollisionSide::Right,
        CollisionSide::Right => CollisionSide::Left,
        CollisionSide::Bottom => CollisionSide::Top,
        CollisionSide::Top => CollisionSide::Bottom,
        CollisionSide::BottomLeft => CollisionSide::TopRight,
        CollisionSide::BottomRight => CollisionSide::TopLeft,
        CollisionSide::TopLeft => CollisionSide::BottomRight,
        CollisionSide::TopRight => CollisionSide::BottomLeft,
    }
}

/// The side that a sweep detects from which axis collides first and the
/// signs of the relative velocity: an earlier x time gives a vertical side,
/// an earlier y time a horizontal side, and a tie a corner.
pub open spec fn detected_side(time_order: Ordering, moving_right: bool, moving_up: bool) -> CollisionSide {
    match time_order {
        Ordering::Less => if moving_right {
            CollisionSide::Right
        } else {
            CollisionSide::Left
        },
        Ordering::Greater => if moving_up {
            CollisionSide::Top
        } else {
            CollisionSide::Bottom
        },
        Ordering::Equal => if moving_right {
            if moving_up {
                CollisionSide::TopRight
            } else {
                CollisionSide::BottomRight
            }
        } else {
            if moving_up {
                CollisionSide::TopLeft
            } else {
                CollisionSide::BottomLeft
            }
        },
    }
}

impl CollisionSide {
    /// The side that collides, given how the x-axis collision time compares
    /// with the y-axis one (`time_order`) and whether the relative velocity
    /// points right (`x > 0`) and up (`y > 0`).
    pub fn detect(time_order: Ordering, moving_right: bool, moving_up: bool) -> (r: Self)
        ensures
            r == detected_side(time_order, moving_right, moving_up),
    {
        match time_order {
            Ordering::Less => {
                if moving_right {
                    Self::Right
                } else {
                    Self::Left
                }
            },
            Ordering::Greater => {
                if moving_up {
                    Self::Top
                } else {
                    Self::Bottom
                }
            },
            Ordering::Equal => {
                if moving_right {
                    if moving_up {
                        Self::TopRight
                    } else {
                        Self::BottomRight
                    }
                } else {
                    if moving_up {
                        Self::TopLeft
                    } else {
                        Self::BottomLeft
                    }
                }
            },
        }
    }

    pub fn opposite(&self) -> (r: Self)
        ensures
            r == opposite_side(*self),
    {
        match self {
            Self::Left => Self::Right,
            Self::Right => Self::Left,
            Self::Bottom => Self::Top,
            Self::Top => Self::Bottom,
            Self::BottomLeft => Self::TopRight,
            Self::BottomRight => Self::TopLeft,
            Self::TopLeft => Self::BottomRight,
            Self::TopRight => Self::BottomLeft,
        }
    }
}

/// Whether a collision on `side` touches the left, right, bottom and top of
/// the collider: a corner touches both of its sides.
pub open spec fn touched_sides(side: CollisionSide) -> (bool, bool, bool, bool) {
    match side {
        CollisionSide::Left => (true, false, false, false),
        CollisionSide::Right => (false, true, false, false),
        CollisionSide::Bottom => (false, false, true, false),
        CollisionSide::Top => (false, false, false, true),
        CollisionSide::BottomLeft => (true, false, true, false),
        CollisionSide::BottomRight => (false, true, true, false),
        CollisionSide::TopLeft => (true, false, false, true),
        CollisionSide::TopRight => (false, true, false, true),
    }
}

/// Which sides of a collider were hit during the last simulation step.
#[derive(Copy, Clone, Debug, PartialEq, Eq, Structural, Default)]
pub struct HitFlags {
    pub left: bool,
    pub right: bool,
    pub bottom: bool,
    pub top: bool,
}

impl HitFlags {
    /// Nothing hit.
    pub fn clear_hit_flags(&mut self)
        ensures
            *final(self) == (HitFlags { left: false, right: false, bottom: false, top: false }),
    {
        *self = HitFlags { left: false, right: false, bottom: false, top: false };
    }

    /// Records a hit on `side`; earlier hits stay recorded.
    pub fn set_hit_flags(&mut self, side: CollisionSide)
        ensures
            ({
                let (l, r, b, t) = touched_sides(side);
                *final(self) == (HitFlags {
                    left: old(self).left || l,
                    right: old(self).right || r,
                    bottom: old(self).bottom || b,
                    top: old(self).top || t,
                })
            }),
    {
        match side {
            CollisionSide::Left => {
                self.left = true;
            },
            CollisionSide::Right => {
                self.right = true;
            },
            CollisionSide::Bottom => {
                self.bottom = true;
            },
            CollisionSide::Top => {
                self.top = true;
            },
            CollisionSide::BottomLeft => {
                self.left = true;
                self.bottom = true;
            },
            CollisionSide::BottomRight => {
                self.right = true;
                self.bottom = true;
            },
            CollisionSide::TopLeft => {
                self.left = true;
                self.top = true;
            },
            CollisionSide::TopRight => {
                self.right = true;
                self.top = true;
            },
        }
    }
}

/// Which velocity components a collision on `side` replaces with the shared
/// collision velocity: the horizontal one for a left or right hit, the
/// vertical one for a bottom or top hit, both for a corner.
pub open spec fn resolved_axes(side: CollisionSide) -> (bool, bool) {
    match side {
        CollisionSide::Left | CollisionSide::Right => (true, false),
        CollisionSide::Bottom | CollisionSide::Top => (false, true),
        _ => (true, true),
    }
}

pub fn collision_axes(side: CollisionSide) -> (r: (bool, bool))
    ensures
        r == resolved_axes(side),
{
    match side {
        CollisionSide::Left | CollisionSide::Right => (true, false),
        CollisionSide::Bottom | CollisionSide::Top => (false, true),
        CollisionSide::BottomLeft | CollisionSide::BottomRight | CollisionSide::TopLeft | CollisionSide::TopRight => (
            true,
            true,
        ),
    }
}

/// The two colliders of a collision record the same contact: what the first
/// hits on a side, the second hits on the opposite side.
pub proof fn law_opposite_touches_mirror(side: CollisionSide)
    ensures
        ({
            let (l, r, b, t) = touched_sides(side);
            touched_sides(opposite_side(side)) == (r, l, t, b)
        }),
{
}

/// Taking the opposite side twice gives the side back, and no side is its
/// own opposite.
pub proof fn law_opposite_involution(side: CollisionSide)
    ensures
        opposite_side(opposite_side(side)) == side,
        opposite_side(side) != side,
{
}

/// A reference to a collider of a `Physics` store: its slot and the version
/// that the slot had when the collider was added.
#[derive(PartialEq, Eq, Structural, Debug)]
pub struct ColliderHandle {
    slot: usize,
    version: usize,
}

impl ColliderHandle {
    pub closed spec fn slot_of(&self) -> usize {
        self.slot
    }

    pub closed spec fn version_of(&self) -> usize {
        self.version
    }

    /// The same slot and version as an arena handle.
    pub open spec fn as_arena_handle(&self) -> ArenaHandle {
        ArenaHandle { slot: self.slot_of(), version: self.version_of() }
    }
}

/// The slots, free-list head and handle that adding `collider` gives: a
/// reused open slot moves on to the next version, a new slot starts at 0.
pub open spec fn collider_added<C>(slots: Seq<ArenaSlot<C>>, head: Option<usize>, collider: C) -> (Seq<ArenaSlot<C>>, Option<usize>, ArenaHandle) {
    match head {
        Some(s) => {
            let version = slots[s as int].slot_version().wrapping_add(1);
            (
                slots.update(s as int, ArenaSlot::Filled { value: collider, version }),
                slots[s as int].open_link(),
                ArenaHandle { slot: s, version },
            )
        },
        None => (
            slots.push(ArenaSlot::Filled { value: collider, version: 0 }),
            None,
            ArenaHandle { slot: slots.len() as usize, version: 0 },
        ),
    }
}

/// The slots and free-list head after removing through `handle`: when the
/// handle reads a collider, its slot opens, keeping its version, and becomes
/// the head of the free list; otherwise nothing changes.
pub open spec fn collider_removed<C>(slots: Seq<ArenaSlot<C>>, head: Option<usize>, handle: ArenaHandle) -> (Seq<ArenaSlot<C>>, Option<usize>) {
    if slots_lookup(slots, handle) is Some {
        (
            slots.update(handle.slot as int, ArenaSlot::Open { next_open_slot: head, version: handle.version }),
            Some(handle.slot),
        )
    } else {
        (slots, head)
    }
}

/// Pair `a` comes before pair `b` in the order of first and then second
/// index.
pub open spec fn pair_before(a: (usize, usize), b: (usize, usize)) -> bool {
    a.0 < b.0 || (a.0 == b.0 && a.1 < b.1)
}

/// The store of the colliders that a physics simulation moves: colliders
/// live in versioned slots, and the slots that removals free are reused.
pub struct Physics<C> {
    slots: Vec<ArenaSlot<C>>,
    first_open_slot_index: Option<usize>,
    free: Ghost<Seq<usize>>,
}

impl<C> Physics<C> {
    pub closed spec fn slots_view(&self) -> Seq<ArenaSlot<C>> {
        self.slots@
    }

    /// The open slot that the next collider goes into, if any.
    pub closed spec fn open_head(&self) -> Option<usize> {
        self.first_open_slot_index
    }

    pub closed spec fn wf(&self) -> bool {
        free_list_wf(self.slots@, self.first_open_slot_index, self.free@)
    }

    /// The collider that a handle reads.
    pub open spec fn lookup(&self, handle: &ColliderHandle) -> Option<C> {
        slots_lookup(self.slots_view(), handle.as_arena_handle())
    }

    pub fn new() -> (r: Self)
        ensures
            r.wf(),
            r.slots_view().len() == 0,
            r.open_head() is None,
    {
        Self { slots: Vec::new(), first_open_slot_index: None, free: Ghost(Seq::empty()) }
    }

    pub fn add_collider(&mut self, collider: C) -> (h: ColliderHandle)
        requires
            old(self).wf(),
        ensures
            final(self).wf(),
            (final(self).slots_view(), final(self).open_head(), h.as_arena_handle()) == collider_added(
                old(self).slots_view(),
                old(self).open_head(),
                collider,
            ),
    {
        match self.first_open_slot_index {
            Some(first_open_slot_index) => {
                let (next_open_slot_index, version) = match &self.slots[first_open_slot_index] {
                    ArenaSlot::Open { next_open_slot, version } => (*next_open_slot, version.wrapping_add(1)),
                    ArenaSlot::Filled { .. } => {
                        proof {
                            assert(self.slots@[self.free@[0] as int] is Open);
                        }
                        (None, 0)
                    },
                };
                proof {
                    lemma_fill_head(self.slots@, self.first_open_slot_index, self.free@, collider, version);
                }
                self.first_open_slot_index = next_open_slot_index;
                self.slots.set(first_open_slot_index, ArenaSlot::Filled { value: collider, version });
                self.free = Ghost(self.free@.drop_first());
                ColliderHandle { slot: first_open_slot_index, version }
            },
            None => {
                let ghost before = self.slots@;
                let handle = ColliderHandle { slot: self.slots.len(), version: 0 };
                self.slots.push(ArenaSlot::Filled { value: collider, version: 0 });
                proof {
                    // A vector never holds more than `usize::MAX` items.
                    assert(self.slots@.len() == self.slots.len());
                    lemma_push_filled(before, self.first_open_slot_index, self.free@, collider);
                }
                handle
            },
        }
    }

    pub fn get_collider(&self, handle: &ColliderHandle) -> (r: Option<&C>)
        ensures
            deref_opt(r) == self.lookup(handle),
    {
        if handle.slot < self.slots.len() {
            self.slots[handle.slot].value(handle.version)
        } else {
            None
        }
    }

    pub fn get_collider_mut(&mut self, handle: &ColliderHandle) -> (r: Option<&mut C>)
        requires
            old(self).wf(),
        ensures
            final(self).wf(),
            final(self).open_head() == old(self).open_head(),
            match r {
                Some(v) => {
                    &&& old(self).lookup(handle) == Some(*v)
                    &&& final(self).slots_view() == old(self).slots_view().update(
                        handle.slot_of() as int,
                        ArenaSlot::Filled { value: *final(v), version: handle.version_of() },
                    )
                },
                None => {
                    &&& old(self).lookup(handle) is None
                    &&& final(self).slots_view() == old(self).slots_view()
                },
            },
    {
        if handle.slot < self.slots.len() {
            let r = self.slots[handle.slot].value_mut(handle.version);
            proof {
                if r is Some {
                    lemma_refill(old(self).slots@, old(self).first_open_slot_index, old(self).free@, handle.slot, *final(r.unwrap()));
                }
            }
            r
        } else {
            None
        }
    }

    pub fn remove_collider(&mut self, handle: ColliderHandle) -> (r: Option<C>)
        requires
            old(self).wf(),
        ensures
            final(self).wf(),
            r == old(self).lookup(&handle),
            (final(self).slots_view(), final(self).open_head()) == collider_removed(
                old(self).slots_view(),
                old(self).open_head(),
                handle.as_arena_handle(),
            ),
    {
        if handle.slot >= self.slots.len() {
            return None;
        }
        let version = match &self.slots[handle.slot] {
            ArenaSlot::Filled { version, .. } => *version,
            ArenaSlot::Open { .. } => {
                return None;
            },
        };
        if handle.version != version {
            return None;
        }
        proof {
            lemma_open_slot(self.slots@, self.first_open_slot_index, self.free@, handle.slot, version);
        }
        let mut emptied = ArenaSlot::Open { next_open_slot: self.first_open_slot_index, version };
        std::mem::swap(&mut self.slots[handle.slot], &mut emptied);
        self.first_open_slot_index = Some(handle.slot);
        self.free = Ghost(seq![handle.slot] + self.free@);
        match emptied {
            ArenaSlot::Filled { value, .. } => Some(value),
            ArenaSlot::Open { .. } => {
                proof {
                    assert(false);
                }
                None
            },
        }
    }

    /// The number of slots, open or filled.
    pub fn slot_count(&self) -> (r: usize)
        ensures
            r == self.slots_view().len(),
    {
        self.slots.len()
    }

    /// The collider in a slot, whatever its version.
    pub fn current_collider(&self, slot: usize) -> (r: Option<&C>)
        ensures
            deref_opt(r) == slots_current(self.slots_view(), slot),
    {
        if slot < self.slots.len() {
            self.slots[slot].current_value()
        } else {
            None
        }
    }

    /// The collider in a slot, whatever its version, for changing it.
    pub fn current_collider_mut(&mut self, slot: usize) -> (r: Option<&mut C>)
        requires
            old(self).wf(),
        ensures
            final(self).wf(),
            final(self).open_head() == old(self).open_head(),
            match r {
                Some(v) => {
                    &&& slots_current(old(self).slots_view(), slot) == Some(*v)
                    &&& final(self).slots_view() == old(self).slots_view().update(
                        slot as int,
                        ArenaSlot::Filled {
                            value: *final(v),
                            version: old(self).slots_view()[slot as int].slot_version(),
                        },
                    )
                },
                None => {
                    &&& slots_current(old(self).slots_view(), slot) is None
                    &&& final(self).slots_view() == old(self).slots_view()
                },
            },
    {
        if slot < self.slots.len() {
            let r = self.slots[slot].current_value_mut();
            proof {
                if r is Some {
                    lemma_refill(old(self).slots@, old(self).first_open_slot_index, old(self).free@, slot, *final(r.unwrap()));
                }
            }
            r
        } else {
            None
        }
    }
}

impl<C> Physics<C> {
    /// A collider that is added is read back through the handle that the
    /// addition returns; that handle read nothing before, and every other
    /// handle reads what it read before.
    pub proof fn law_add_then_lookup(self, collider: C)
        requires
            self.wf(),
        ensures
            ({
                let (slots, _, h) = collider_added(self.slots_view(), self.open_head(), collider);
                &&& slots_lookup(slots, h) == Some(collider)
                &&& slots_lookup(self.slots_view(), h) is None
                &&& forall|o: ArenaHandle| o != h ==> #[trigger] slots_lookup(slots, o) == slots_lookup(
                    self.slots_view(),
                    o,
                )
            }),
    {
        match self.first_open_slot_index {
            Some(s) => {
                assert(self.free@[0] == s);
                assert(self.slots@[self.free@[0] as int] is Open);
            },
            None => {},
        }
    }

    /// After a removal the removed handle reads nothing and every other
    /// handle reads what it read before; the next addition reuses the slot
    /// under the next version, so the removed handle still reads nothing.
    pub proof fn law_removed_handle_stays_dead(self, handle: ArenaHandle, collider: C)
        requires
            self.wf(),
            slots_lookup(self.slots_view(), handle) is Some,
        ensures
            ({
                let (slots, head) = collider_removed(self.slots_view(), self.open_head(), handle);
                let (after, _, h) = collider_added(slots, head, collider);
                &&& slots_lookup(slots, handle) is None
                &&& forall|o: ArenaHandle| o != handle ==> #[trigger] slots_lookup(slots, o) == slots_lookup(
                    self.slots_view(),
                    o,
                )
                &&& h == (ArenaHandle { slot: handle.slot, version: handle.version.wrapping_add(1) })
                &&& slots_lookup(after, handle) is None
                &&& slots_lookup(after, h) == Some(collider)
            }),
    {
        assert(handle.version.wrapping_add(1) != handle.version);
    }
    /// Every pair of filled slots `(i, j)` with `i < j`, ordered by `i` and
    /// then by `j`: the pairs that a collision sweep examines.
    pub fn candidate_pairs(&self) -> (r: Vec<(usize, usize)>)
        ensures
            forall|k: int|
                0 <= k < r@.len() ==> (#[trigger] r@[k]).0 < r@[k].1 < self.slots_view().len()
                    && self.slots_view()[r@[k].0 as int] is Filled && self.slots_view()[r@[k].1 as int] is Filled,
            forall|k: int, l: int| 0 <= k < l < r@.len() ==> pair_before(#[trigger] r@[k], #[trigger] r@[l]),
            forall|i: int, j: int|
                0 <= i < j < self.slots_view().len() && self.slots_view()[i] is Filled && self.slots_view()[j] is Filled
                    ==> r@.contains((i as usize, j as usize)),
    {
        let mut pairs: Vec<(usize, usize)> = Vec::new();
        let n = self.slots.len();
        let mut i: usize = 0;
        while i < n
            invariant
                n == self.slots_view().len(),
                i <= n,
                forall|k: int|
                    0 <= k < pairs@.len() ==> (#[trigger] pairs@[k]).0 < pairs@[k].1 < n && pairs@[k].0 < i
                        && self.slots_view()[pairs@[k].0 as int] is Filled && self.slots_view()[pairs@[k].1 as int] is Filled,
                forall|k: int, l: int| 0 <= k < l < pairs@.len() ==> pair_before(#[trigger] pairs@[k], #[trigger] pairs@[l]),
                forall|a: int, b: int|
                    0 <= a < i && a < b < n && self.slots_view()[a] is Filled && self.slots_view()[b] is Filled
                        ==> pairs@.contains((a as usize, b as usize)),
            decreases n - i,
        {
            if let ArenaSlot::Filled { .. } = &self.slots[i] {
                let ghost before = pairs@;
                let mut j: usize = i + 1;
                while j < n
                    invariant
                        n == self.slots_view().len(),
                        i < n,
                        i < j <= n,
                        self.slots_view()[i as int] is Filled,
                        before.len() <= pairs@.len(),
                        forall|k: int| 0 <= k < before.len() ==> #[trigger] pairs@[k] == before[k],
                        forall|k: int| 0 <= k < before.len() ==> (#[trigger] before[k]).0 < i,
                        forall|k: int|
                            0 <= k < pairs@.len() ==> (#[trigger] pairs@[k]).0 < pairs@[k].1 < n && pairs@[k].0 <= i
                                && self.slots_view()[pairs@[k].0 as int] is Filled && self.slots_view()[pairs@[k].1 as int]
                                is Filled,
                        forall|k: int| before.len() <= k < pairs@.len() ==> (#[trigger] pairs@[k]).0 == i && pairs@[k].1 < j,
                        forall|k: int, l: int|
                            0 <= k < l < pairs@.len() ==> pair_before(#[trigger] pairs@[k], #[trigger] pairs@[l]),
                        forall|a: int, b: int|
                            0 <= a < i && a < b < n && self.slots_view()[a] is Filled && self.slots_view()[b] is Filled
                                ==> pairs@.contains((a as usize, b as usize)),
                        forall|b: int|
                            i < b < j && self.slots_view()[b] is Filled ==> pairs@.contains((i, b as usize)),
                    decreases n - j,
                {
                    if let ArenaSlot::Filled { .. } = &self.slots[j] {
                        let ghost prev = pairs@;
                        pairs.push((i, j));
                        proof {
                            assert forall|a: int, b: int|
                                0 <= a < i && a < b < n && self.slots_view()[a] is Filled && self.slots_view()[b] is Filled
                                    implies pairs@.contains((a as usize, b as usize)) by {
                                let k = choose|k: int| 0 <= k < prev.len() && prev[k] == (a as usize, b as usize);
                                assert(pairs@[k] == prev[k]);
                            }
                            assert forall|b: int| i < b < j + 1 && self.slots_view()[b] is Filled implies pairs@.contains(
                                (i, b as usize),
                            ) by {
                                if b < j {
                                    let k = choose|k: int| 0 <= k < prev.len() && prev[k] == (i, b as usize);
                                    assert(pairs@[k] == prev[k]);
                                } else {
                                    assert(pairs@[prev.len() as int] == (i, j));
                                }
                            }
                        }
                    }
                    j = j + 1;
                }
            }
            i = i + 1;
        }
        pairs
    }
}

} // verus!
