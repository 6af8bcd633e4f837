use vstd::prelude::*;

verus! {

/// A reference to a value in an arena: the slot that holds it and the
/// version that the slot had when the value was put there.
#[derive(Copy, Clone, PartialEq, Eq, Structural, Debug)]
pub struct ArenaHandle {
    pub slot: usize,
    pub version: usize,
}

/// One slot of an arena. An open slot links to the next open slot, which
/// makes the open slots a free list; a filled slot holds a value.
#[derive(Debug)]
pub enum ArenaSlot<T> {
    Open { next_open_slot: Option<usize>, version: usize },
    Filled { value: T, version: usize },
}

/// The value behind an optional reference.
pub open spec fn deref_opt<T>(o: Option<&T>) -> Option<T> {
    match o {
        Some(v) => Some(*v),
        None => None,
    }
}

impl<T> ArenaSlot<T> {
    /// The version stored in the slot, open or filled.
    pub open spec fn slot_version(self) -> usize {
        match self {
            ArenaSlot::Open { version, .. } => version,
            ArenaSlot::Filled { version, .. } => version,
        }
    }

    /// The link of an open slot to the next open slot (`None` for a filled slot).
    pub open spec fn open_link(self) -> Option<usize> {
        match self {
            ArenaSlot::Open { next_open_slot, .. } => next_open_slot,
            ArenaSlot::Filled { .. } => None,
        }
    }

    /// What a handle with `handle_version` reads from this slot.
    pub open spec fn versioned_value(self, handle_version: usize) -> Option<T> {
        match self {
            ArenaSlot::Open { .. } => None,
            ArenaSlot::Filled { value, version } => if version == handle_version {
                Some(value)
            } else {
                None
            },
        }
    }

    /// The value of a filled slot, whatever its version.
    pub open spec fn held_value(self) -> Option<T> {
        match self {
            ArenaSlot::Open { .. } => None,
            ArenaSlot::Filled { value, .. } => Some(value),
        }
    }

    pub fn value(&self, handle_version: usize) -> (r: Option<&T>)
        ensures
            deref_opt(r) == self.versioned_value(handle_version),
    {
        match self {
            ArenaSlot::Open { .. } => None,
            ArenaSlot::Filled { value, version } => {
                if handle_version == *version {
                    Some(value)
                } else {
                    None
                }
            },
        }
    }

    pub fn value_mut(&mut self, handle_version: usize) -> (r: Option<&mut T>)
        ensures
            match r {
                Some(v) => {
                    &&& old(self).versioned_value(handle_version) == Some(*v)
                    &&& *final(self) == (ArenaSlot::Filled::<T> { value: *final(v), version: handle_version })
                },
                None => {
                    &&& old(self).versioned_value(handle_version) is None
                    &&& *final(self) == *old(self)
                },
            },
    {
        match self {
            ArenaSlot::Open { .. } => None,
            ArenaSlot::Filled { value, version } => {
                if handle_version == *version {
                    Some(value)
                } else {
                    None
                }
            },
        }
    }

    pub fn current_value(&self) -> (r: Option<&T>)
        ensures
            deref_opt(r) == self.held_value(),
    {
        match self {
            ArenaSlot::Open { .. } => None,
            ArenaSlot::Filled { value, .. } => Some(value),
        }
    }

    pub fn current_value_mut(&mut self) -> (r: Option<&mut T>)
        ensures
            match r {
                Some(v) => {
                    &&& old(self).held_value() == Some(*v)
                    &&& *final(self) == (ArenaSlot::Filled::<T> {
                        value: *final(v),
                        version: old(self).slot_version(),
                    })
                },
                None => {
                    &&& old(self).held_value() is None
                    &&& *final(self) == *old(self)
                },
            },
    {
        match self {
            ArenaSlot::Open { .. } => None,
            ArenaSlot::Filled { value, .. } => Some(value),
        }
    }
    /// Fills an open slot, which is the head of the free list, with `value`;
    /// the free list's head moves on to the slot that this one linked to.
    fn convert_to_filled(&mut self, open_slot: &mut Option<usize>, slot: usize, value: T) -> (h: ArenaHandle)
        requires
            *old(self) is Open,
        ensures
            *final(open_slot) == old(self).open_link(),
            *final(self) == (ArenaSlot::Filled::<T> { value, version: old(self).slot_version() }),
            h == (ArenaHandle { slot, version: old(self).slot_version() }),
    {
        let (next, version) = match self {
            ArenaSlot::Open { next_open_slot, version } => (*next_open_slot, *version),
            ArenaSlot::Filled { .. } => {
                proof {
                    assert(false);
                }
                (None, 0)
            },
        };
        *open_slot = next;
        *self = ArenaSlot::Filled { value, version };
        ArenaHandle { slot, version }
    }

    /// Empties a filled slot whose version matches the handle's and puts the
    /// slot at the head of the free list, with its version advanced by one.
    fn convert_to_open(&mut self, open_slot: &mut Option<usize>, handle: ArenaHandle) -> (r: Option<T>)
        ensures
            match old(self).versioned_value(handle.version) {
                Some(v) => {
                    &&& r == Some(v)
                    &&& *final(self) == (ArenaSlot::Open::<T> {
                        next_open_slot: *old(open_slot),
                        version: handle.version.wrapping_add(1),
                    })
                    &&& *final(open_slot) == Some(handle.slot)
                },
                None => {
                    &&& r is None
                    &&& *final(self) == *old(self)
                    &&& *final(open_slot) == *old(open_slot)
                },
            },
    {
        let version = match self {
            ArenaSlot::Open { .. } => {
                return None;
            },
            ArenaSlot::Filled { version, .. } => *version,
        };
        if handle.version != version {
            return None;
        }
        let mut emptied = ArenaSlot::Open { next_open_slot: *open_slot, version: version.wrapping_add(1) };
        std::mem::swap(self, &mut emptied);
        *open_slot = Some(handle.slot);
        match emptied {
            ArenaSlot::Filled { value, .. } => Some(value),
            ArenaSlot::Open { .. } => {
                proof {
                    assert(false);
                }
                None
            },
        }
    }
}


/// The slot that follows position `i` of a free list, if any.
pub open spec fn free_next(free: Seq<usize>, i: int) -> Option<usize> {
    if i + 1 < free.len() {
        Some(free[i + 1])
    } else {
        None
    }
}

/// The first slot of a free list, if any.
pub open spec fn free_head(free: Seq<usize>) -> Option<usize> {
    if free.len() > 0 {
        Some(free[0])
    } else {
        None
    }
}

/// `free` lists the open slots of `slots` without repeats, in the order in
/// which their links chain them, starting at `head`.
pub open spec fn free_list_wf<T>(slots: Seq<ArenaSlot<T>>, head: Option<usize>, free: Seq<usize>) -> bool {
    &&& slots.len() <= usize::MAX
    &&& free.no_duplicates()
    &&& forall|i: int| 0 <= i < free.len() ==> #[trigger] free[i] < slots.len()
    &&& forall|i: int|
        0 <= i < free.len() ==> #[trigger] slots[free[i] as int] is Open && slots[free[i] as int].open_link()
            == free_next(free, i)
    &&& forall|s: int| 0 <= s < slots.len() && #[trigger] slots[s] is Open ==> free.contains(s as usize)
    &&& head == free_head(free)
}

/// A sound free list has a head exactly when some slot is open, and the head
/// is an open slot.
pub proof fn lemma_free_list_head<T>(slots: Seq<ArenaSlot<T>>, head: Option<usize>, free: Seq<usize>)
    requires
        free_list_wf(slots, head, free),
    ensures
        head is Some <==> exists|s: int| 0 <= s < slots.len() && #[trigger] slots[s] is Open,
        head matches Some(s) ==> s < slots.len() && slots[s as int] is Open,
{
    if head is Some {
        assert(slots[free[0] as int] is Open);
    }
    if exists|s: int| 0 <= s < slots.len() && #[trigger] slots[s] is Open {
        let s = choose|s: int| 0 <= s < slots.len() && #[trigger] slots[s] is Open;
        assert(free.contains(s as usize));
    }
}

/// `after` keeps the layout of `before`: the same number of slots, every
/// open slot as it was, and every filled slot filled under the same version
/// (its value may differ).
pub open spec fn same_shape<T>(after: Seq<ArenaSlot<T>>, before: Seq<ArenaSlot<T>>) -> bool {
    &&& after.len() == before.len()
    &&& forall|i: int|
        0 <= i < before.len() ==> match before[i] {
            ArenaSlot::Open { .. } => #[trigger] after[i] == before[i],
            ArenaSlot::Filled { version, .. } => after[i] is Filled && after[i].slot_version() == version,
        }
}

/// A walk step that writes only the value of the filled slot it stops at
/// keeps the layout of the slots, once what follows keeps its own.
pub proof fn lemma_walk_step_keeps_shape<T>(before: Seq<ArenaSlot<T>>, i: int, value: T, rest: Seq<ArenaSlot<T>>)
    requires
        0 <= i < before.len(),
        before[i] is Filled,
    ensures
        same_shape(rest, before.skip(i + 1)) ==> same_shape(
            before.take(i) + seq![ArenaSlot::Filled { value, version: before[i].slot_version() }] + rest,
            before,
        ),
{
    let after = before.take(i) + seq![ArenaSlot::Filled { value, version: before[i].slot_version() }] + rest;
    if same_shape(rest, before.skip(i + 1)) {
        assert forall|j: int| 0 <= j < before.len() implies match before[j] {
            ArenaSlot::Open { .. } => #[trigger] after[j] == before[j],
            ArenaSlot::Filled { version, .. } => after[j] is Filled && after[j].slot_version() == version,
        } by {
            if j > i {
                assert(after[j] == rest[j - i - 1]);
                assert(before.skip(i + 1)[j - i - 1] == before[j]);
            }
        }
    }
}

/// One call of a mutable walk that hands out a value: before it, `rem` are
/// the slots left to walk and `fin` what they hold once the walk is over;
/// after it, `rem2` and `fin2`. The call stops at the first filled slot it
/// meets, and of the slots it passes only that one's value can change.
pub open spec fn walk_step<T>(
    rem: Seq<ArenaSlot<T>>,
    fin: Seq<ArenaSlot<T>>,
    rem2: Seq<ArenaSlot<T>>,
    fin2: Seq<ArenaSlot<T>>,
) -> bool {
    exists|i: int, value: T|
        0 <= i < rem.len() && rem[i] is Filled && rem2 == rem.skip(i + 1) && fin == rem.take(i) + seq![
            #[trigger] rewritten(rem, i, value),
        ] + fin2
}

/// Slot `i` of `slots`, filled with `value` under its own version.
pub open spec fn rewritten<T>(slots: Seq<ArenaSlot<T>>, i: int, value: T) -> ArenaSlot<T> {
    ArenaSlot::Filled { value, version: slots[i].slot_version() }
}

/// A whole mutable walk keeps the layout of the slots: with `walk[k]` the
/// slots left and the slots finally held before call `k`, where every call
/// but the last hands out a value and the last leaves what is left as it is,
/// every slot keeps its status and version, the number of slots stays, and
/// so does the number of filled slots; only values change.
pub proof fn law_walk_keeps_shape<T>(walk: Seq<(Seq<ArenaSlot<T>>, Seq<ArenaSlot<T>>)>)
    requires
        walk.len() > 0,
        forall|k: int| 0 <= k < walk.len() - 1 ==> walk_step(walk[k].0, walk[k].1, #[trigger] walk[k + 1].0, walk[k + 1].1),
        walk.last().1 == walk.last().0,
    ensures
        same_shape(walk[0].1, walk[0].0),
        walk[0].1.len() == walk[0].0.len(),
        filled_count(walk[0].1) == filled_count(walk[0].0),
    decreases walk.len(),
{
    if walk.len() > 1 {
        let rest = walk.drop_first();
        assert forall|k: int| 0 <= k < rest.len() - 1 implies walk_step(
            rest[k].0,
            rest[k].1,
            #[trigger] rest[k + 1].0,
            rest[k + 1].1,
        ) by {
            assert(rest[k] == walk[k + 1]);
            assert(rest[k + 1] == walk[k + 2]);
        }
        law_walk_keeps_shape(rest);
        assert(walk_step(walk[0].0, walk[0].1, walk[1].0, walk[1].1));
        let (i, value) = choose|i: int, value: T|
            0 <= i < walk[0].0.len() && walk[0].0[i] is Filled && walk[1].0 == walk[0].0.skip(i + 1) && walk[0].1
                == walk[0].0.take(i) + seq![#[trigger] rewritten(walk[0].0, i, value)] + walk[1].1;
        lemma_walk_step_keeps_shape(walk[0].0, i, value, walk[1].1);
    }
    lemma_same_shape_filled_count(walk[0].1, walk[0].0);
}

/// Changing only the values of filled slots keeps a free list sound.
pub broadcast proof fn lemma_same_shape_keeps_free_list<T>(
    after: Seq<ArenaSlot<T>>,
    before: Seq<ArenaSlot<T>>,
    head: Option<usize>,
    free: Seq<usize>,
)
    requires
        #[trigger] free_list_wf(before, head, free),
        #[trigger] same_shape(after, before),
    ensures
        free_list_wf(after, head, free),
{
    assert forall|i: int| 0 <= i < free.len() implies #[trigger] after[free[i] as int] is Open
        && after[free[i] as int].open_link() == free_next(free, i) by {
        assert(before[free[i] as int] is Open);
        assert(after[free[i] as int] == before[free[i] as int]);
    }
    assert forall|t: int| 0 <= t < after.len() && #[trigger] after[t] is Open implies free.contains(t as usize) by {
        assert(before[t] is Open);
    }
}

/// The number of slots that hold a value.
pub open spec fn filled_count<T>(slots: Seq<ArenaSlot<T>>) -> nat
    decreases slots.len(),
{
    if slots.len() == 0 {
        0
    } else {
        filled_count(slots.drop_last()) + if slots.last() is Filled {
            1nat
        } else {
            0nat
        }
    }
}

/// At most every slot holds a value, and all of them do exactly when none is
/// open.
pub proof fn lemma_filled_count_bound<T>(slots: Seq<ArenaSlot<T>>)
    ensures
        filled_count(slots) <= slots.len(),
        filled_count(slots) == slots.len() <==> forall|i: int| 0 <= i < slots.len() ==> #[trigger] slots[i] is Filled,
    decreases slots.len(),
{
    if slots.len() > 0 {
        let init = slots.drop_last();
        lemma_filled_count_bound(init);
        if filled_count(slots) == slots.len() {
            assert forall|i: int| 0 <= i < slots.len() implies #[trigger] slots[i] is Filled by {
                if i < slots.len() - 1 {
                    assert(init[i] == slots[i]);
                }
            }
        }
        if forall|i: int| 0 <= i < slots.len() ==> #[trigger] slots[i] is Filled {
            assert forall|i: int| 0 <= i < init.len() implies #[trigger] init[i] is Filled by {
                assert(init[i] == slots[i]);
            }
            assert(slots[slots.len() - 1] is Filled);
        }
    }
}

/// Replacing one slot changes the count by what the two slots hold.
pub proof fn lemma_filled_count_update<T>(slots: Seq<ArenaSlot<T>>, i: int, slot: ArenaSlot<T>)
    requires
        0 <= i < slots.len(),
    ensures
        filled_count(slots.update(i, slot)) + (if slots[i] is Filled {
            1int
        } else {
            0int
        }) == filled_count(slots) + (if slot is Filled {
            1int
        } else {
            0int
        }),
    decreases slots.len(),
{
    let updated = slots.update(i, slot);
    if i == slots.len() - 1 {
        assert(updated.drop_last() =~= slots.drop_last());
    } else {
        assert(updated.drop_last() =~= slots.drop_last().update(i, slot));
        lemma_filled_count_update(slots.drop_last(), i, slot);
    }
}

/// Changing only the values of filled slots keeps the count.
pub proof fn lemma_same_shape_filled_count<T>(after: Seq<ArenaSlot<T>>, before: Seq<ArenaSlot<T>>)
    requires
        same_shape(after, before),
    ensures
        filled_count(after) == filled_count(before),
    decreases before.len(),
{
    if before.len() > 0 {
        let a = after.drop_last();
        let b = before.drop_last();
        assert forall|i: int| 0 <= i < b.len() implies match b[i] {
            ArenaSlot::Open { .. } => #[trigger] a[i] == b[i],
            ArenaSlot::Filled { version, .. } => a[i] is Filled && a[i].slot_version() == version,
        } by {
            assert(a[i] == after[i]);
            assert(b[i] == before[i]);
        }
        lemma_same_shape_filled_count(a, b);
        assert(after[after.len() - 1] is Filled <==> before[before.len() - 1] is Filled);
    }
}

/// What a handle reads from a sequence of slots.
pub open spec fn slots_lookup<T>(slots: Seq<ArenaSlot<T>>, handle: ArenaHandle) -> Option<T> {
    if handle.slot < slots.len() {
        slots[handle.slot as int].versioned_value(handle.version)
    } else {
        None
    }
}

/// The value held at a slot index, whatever its version.
pub open spec fn slots_current<T>(slots: Seq<ArenaSlot<T>>, slot: usize) -> Option<T> {
    if slot < slots.len() {
        slots[slot as int].held_value()
    } else {
        None
    }
}

/// The slots, free-list head and handle that inserting `value` gives: the
/// value goes into the slot at the head of the free list, keeping that slot's
/// version, or, when no slot is open, into a new slot of version 0.
pub open spec fn inserted_into<T>(slots: Seq<ArenaSlot<T>>, head: Option<usize>, value: T) -> (Seq<ArenaSlot<T>>, Option<usize>, ArenaHandle) {
    match head {
        Some(s) => {
            let version = slots[s as int].slot_version();
            (
                slots.update(s as int, ArenaSlot::Filled { value, version }),
                slots[s as int].open_link(),
                ArenaHandle { slot: s, version },
            )
        },
        None => (
            slots.push(ArenaSlot::Filled { value, version: 0 }),
            None,
            ArenaHandle { slot: slots.len() as usize, version: 0 },
        ),
    }
}

/// The slots and free-list head after removing through `handle`: when the
/// handle reads a value, its slot opens with the next version and becomes the
/// head of the free list; otherwise nothing changes.
pub open spec fn removed_from<T>(slots: Seq<ArenaSlot<T>>, head: Option<usize>, handle: ArenaHandle) -> (Seq<ArenaSlot<T>>, Option<usize>) {
    if slots_lookup(slots, handle) is Some {
        (
            slots.update(
                handle.slot as int,
                ArenaSlot::Open { next_open_slot: head, version: handle.version.wrapping_add(1) },
            ),
            Some(handle.slot),
        )
    } else {
        (slots, head)
    }
}

pub(crate) proof fn lemma_fill_head<T>(slots: Seq<ArenaSlot<T>>, head: Option<usize>, free: Seq<usize>, value: T, version: usize)
    requires
        free_list_wf(slots, head, free),
        free.len() > 0,
    ensures
        free_list_wf(
            slots.update(free[0] as int, ArenaSlot::Filled { value, version }),
            slots[free[0] as int].open_link(),
            free.drop_first(),
        ),
{
    let s = free[0];
    let nslots = slots.update(s as int, ArenaSlot::Filled { value, version });
    let nfree = free.drop_first();
    assert(slots[free[0] as int].open_link() == free_next(free, 0));
    assert forall|i: int| 0 <= i < nfree.len() implies #[trigger] nslots[nfree[i] as int] is Open
        && nslots[nfree[i] as int].open_link() == free_next(nfree, i) by {
        assert(nfree[i] == free[i + 1]);
        assert(free[i + 1] != free[0]);
        assert(slots[free[i + 1] as int] is Open);
    }
    assert forall|x: int| 0 <= x < nslots.len() && #[trigger] nslots[x] is Open implies nfree.contains(
        x as usize,
    ) by {
        assert(x != s);
        assert(free.contains(x as usize));
        let k = choose|k: int| 0 <= k < free.len() && free[k] == x as usize;
        assert(k != 0);
        assert(nfree[k - 1] == x as usize);
    }
    assert forall|i: int, j: int| 0 <= i < j < nfree.len() implies nfree[i] != nfree[j] by {
        assert(nfree[i] == free[i + 1] && nfree[j] == free[j + 1]);
    }
    assert forall|i: int| 0 <= i < nfree.len() implies #[trigger] nfree[i] < nslots.len() by {
        assert(nfree[i] == free[i + 1]);
    }
}

pub(crate) proof fn lemma_push_filled<T>(slots: Seq<ArenaSlot<T>>, head: Option<usize>, free: Seq<usize>, value: T)
    requires
        free_list_wf(slots, head, free),
        slots.len() < usize::MAX,
    ensures
        free_list_wf(slots.push(ArenaSlot::Filled { value, version: 0 }), head, free),
{
    let nslots = slots.push(ArenaSlot::Filled { value, version: 0 });
    assert forall|i: int| 0 <= i < free.len() implies #[trigger] nslots[free[i] as int] is Open
        && nslots[free[i] as int].open_link() == free_next(free, i) by {
        assert(free[i] < slots.len());
        assert(nslots[free[i] as int] == slots[free[i] as int]);
    }
    assert forall|x: int| 0 <= x < nslots.len() && #[trigger] nslots[x] is Open implies free.contains(
        x as usize,
    ) by {
        assert(x < slots.len());
        assert(nslots[x] == slots[x]);
    }
}

pub(crate) proof fn lemma_open_slot<T>(
    slots: Seq<ArenaSlot<T>>,
    head: Option<usize>,
    free: Seq<usize>,
    s: usize,
    version: usize,
)
    requires
        free_list_wf(slots, head, free),
        s < slots.len(),
        slots[s as int] is Filled,
    ensures
        free_list_wf(
            slots.update(s as int, ArenaSlot::Open { next_open_slot: head, version }),
            Some(s),
            seq![s] + free,
        ),
{
    let nslots = slots.update(s as int, ArenaSlot::Open { next_open_slot: head, version });
    let nfree = seq![s] + free;
    assert(!free.contains(s)) by {
        if free.contains(s) {
            let k = choose|k: int| 0 <= k < free.len() && free[k] == s;
            assert(slots[free[k] as int] is Open);
        }
    }
    assert forall|i: int| 0 <= i < nfree.len() implies #[trigger] nfree[i] < nslots.len() by {
        if i > 0 {
            assert(nfree[i] == free[i - 1]);
        }
    }
    assert forall|i: int| 0 <= i < nfree.len() implies #[trigger] nslots[nfree[i] as int] is Open
        && nslots[nfree[i] as int].open_link() == free_next(nfree, i) by {
        if i > 0 {
            assert(nfree[i] == free[i - 1]);
            assert(free.contains(free[i - 1]));
            assert(free[i - 1] != s);
            assert(slots[free[i - 1] as int] is Open);
        }
    }
    assert forall|x: int| 0 <= x < nslots.len() && #[trigger] nslots[x] is Open implies nfree.contains(
        x as usize,
    ) by {
        if x == s {
            assert(nfree[0] == s);
        } else {
            assert(free.contains(x as usize));
            let k = choose|k: int| 0 <= k < free.len() && free[k] == x as usize;
            assert(nfree[k + 1] == x as usize);
        }
    }
    assert forall|i: int, j: int| 0 <= i < j < nfree.len() implies nfree[i] != nfree[j] by {
        if i == 0 {
            assert(nfree[j] == free[j - 1]);
            assert(free.contains(free[j - 1]));
        } else {
            assert(nfree[i] == free[i - 1] && nfree[j] == free[j - 1]);
        }
    }
}

pub(crate) proof fn lemma_refill<T>(slots: Seq<ArenaSlot<T>>, head: Option<usize>, free: Seq<usize>, s: usize, value: T)
    requires
        free_list_wf(slots, head, free),
        s < slots.len(),
        slots[s as int] is Filled,
    ensures
        free_list_wf(
            slots.update(s as int, ArenaSlot::Filled { value, version: slots[s as int].slot_version() }),
            head,
            free,
        ),
{
    let nslots = slots.update(s as int, ArenaSlot::Filled { value, version: slots[s as int].slot_version() });
    assert forall|i: int| 0 <= i < free.len() implies #[trigger] nslots[free[i] as int] is Open
        && nslots[free[i] as int].open_link() == free_next(free, i) by {
        assert(slots[free[i] as int] is Open);
    }
}

proof fn lemma_insert_reads_back<T>(slots: Seq<ArenaSlot<T>>, head: Option<usize>, free: Seq<usize>, value: T)
    requires
        free_list_wf(slots, head, free),
    ensures
        ({
            let (after, _, h) = inserted_into(slots, head, value);
            &&& slots_lookup(after, h) == Some(value)
            &&& slots_lookup(slots, h) is None
            &&& forall|o: ArenaHandle| o != h ==> #[trigger] slots_lookup(after, o) == slots_lookup(slots, o)
        }),
{
    match head {
        Some(s) => {
            assert(free[0] == s);
            assert(slots[free[0] as int] is Open);
        },
        None => {},
    }
}

proof fn lemma_remove_kills<T>(slots: Seq<ArenaSlot<T>>, head: Option<usize>, handle: ArenaHandle)
    ensures
        ({
            let (after, _) = removed_from(slots, head, handle);
            &&& slots_lookup(after, handle) is None
            &&& forall|o: ArenaHandle| o != handle ==> #[trigger] slots_lookup(after, o) == slots_lookup(slots, o)
        }),
{
}

pub(crate) proof fn lemma_no_open_head_means_full<T>(slots: Seq<ArenaSlot<T>>, head: Option<usize>, free: Seq<usize>)
    requires
        free_list_wf(slots, head, free),
    ensures
        head is None <==> forall|i: int| 0 <= i < slots.len() ==> #[trigger] slots[i] is Filled,
{
    if head is None {
        assert forall|i: int| 0 <= i < slots.len() implies #[trigger] slots[i] is Filled by {
            if slots[i] is Open {
                assert(free.contains(i as usize));
            }
        }
    } else {
        assert(slots[free[0] as int] is Open);
    }
}

/// An arena that grows as values are inserted: a slot freed by `remove` is
/// reused by the next `insert`, with a new version, so that handles to the
/// removed value stop reading it.
pub struct UnboundedArena<T> {
    slots: Vec<ArenaSlot<T>>,
    next_open_slot: Option<usize>,
    free: Ghost<Seq<usize>>,
}

impl<T> UnboundedArena<T> {
    /// The slots of the arena, in order.
    pub closed spec fn slots_view(&self) -> Seq<ArenaSlot<T>> {
        self.slots@
    }

    /// The open slot that the next insertion fills, if any.
    pub closed spec fn open_head(&self) -> Option<usize> {
        self.next_open_slot
    }

    /// The open slots, in the order in which insertions will fill them.
    pub closed spec fn open_slots(&self) -> Seq<usize> {
        self.free@
    }

    pub closed spec fn wf(&self) -> bool {
        free_list_wf(self.slots@, self.next_open_slot, self.free@)
    }

    /// What a handle reads from the arena.
    pub open spec fn lookup(&self, handle: ArenaHandle) -> Option<T> {
        slots_lookup(self.slots_view(), handle)
    }

    pub fn new() -> (r: Self)
        ensures
            r.wf(),
            r.slots_view().len() == 0,
            r.open_head() is None,
    {
        Self { slots: Vec::new(), next_open_slot: None, free: Ghost(Seq::empty()) }
    }

    pub fn slots(&self) -> (r: &[ArenaSlot<T>])
        ensures
            r@ == self.slots_view(),
    {
        self.slots.as_slice()
    }

    pub fn insert(&mut self, value: T) -> (h: ArenaHandle)
        requires
            old(self).wf(),
        ensures
            final(self).wf(),
            (final(self).slots_view(), final(self).open_head(), h) == inserted_into(
                old(self).slots_view(),
                old(self).open_head(),
                value,
            ),
    {
        match self.next_open_slot {
            Some(slot) => {
                proof {
                    lemma_fill_head(self.slots@, self.next_open_slot, self.free@, value, self.slots@[slot as int].slot_version());
                }
                let h = self.slots[slot].convert_to_filled(&mut self.next_open_slot, slot, value);
                self.free = Ghost(self.free@.drop_first());
                h
            },
            None => {
                let ghost before = self.slots@;
                let handle = ArenaHandle { slot: self.slots.len(), version: 0 };
                self.slots.push(ArenaSlot::Filled { value, version: 0 });
                proof {
                    // A vector never holds more than `usize::MAX` items.
                    assert(self.slots@.len() == self.slots.len());
                    lemma_push_filled(before, self.next_open_slot, self.free@, value);
                }
                handle
            },
        }
    }
    pub fn get(&self, handle: ArenaHandle) -> (r: Option<&T>)
        ensures
            deref_opt(r) == self.lookup(handle),
    {
        if handle.slot < self.slots.len() {
            self.slots[handle.slot].value(handle.version)
        } else {
            None
        }
    }

    pub fn get_mut(&mut self, handle: ArenaHandle) -> (r: Option<&mut T>)
        requires
            old(self).wf(),
        ensures
            final(self).wf(),
            final(self).open_head() == old(self).open_head(),
            match r {
                Some(v) => {
                    &&& old(self).lookup(handle) == Some(*v)
                    &&& final(self).slots_view() == old(self).slots_view().update(
                        handle.slot as int,
                        ArenaSlot::Filled { value: *final(v), version: handle.version },
                    )
                },
                None => {
                    &&& old(self).lookup(handle) is None
                    &&& final(self).slots_view() == old(self).slots_view()
                },
            },
    {
        if handle.slot < self.slots.len() {
            let r = self.slots[handle.slot].value_mut(handle.version);
            proof {
                if r is Some {
                    lemma_refill(old(self).slots@, old(self).next_open_slot, old(self).free@, handle.slot, *final(r.unwrap()));
                }
            }
            r
        } else {
            None
        }
    }
    pub fn get_current(&self, slot: usize) -> (r: Option<&T>)
        ensures
            deref_opt(r) == slots_current(self.slots_view(), slot),
    {
        if slot < self.slots.len() {
            self.slots[slot].current_value()
        } else {
            None
        }
    }

    pub fn get_current_mut(&mut self, slot: usize) -> (r: Option<&mut T>)
        requires
            old(self).wf(),
        ensures
            final(self).wf(),
            final(self).open_head() == old(self).open_head(),
            match r {
                Some(v) => {
                    &&& slots_current(old(self).slots_view(), slot) == Some(*v)
                    &&& final(self).slots_view() == old(self).slots_view().update(
                        slot as int,
                        ArenaSlot::Filled {
                            value: *final(v),
                            version: old(self).slots_view()[slot as int].slot_version(),
                        },
                    )
                },
                None => {
                    &&& slots_current(old(self).slots_view(), slot) is None
                    &&& final(self).slots_view() == old(self).slots_view()
                },
            },
    {
        if slot < self.slots.len() {
            let r = self.slots[slot].current_value_mut();
            proof {
                if r is Some {
                    lemma_refill(old(self).slots@, old(self).next_open_slot, old(self).free@, slot, *final(r.unwrap()));
                }
            }
            r
        } else {
            None
        }
    }

    pub fn remove(&mut self, handle: ArenaHandle) -> (r: Option<T>)
        requires
            old(self).wf(),
        ensures
            final(self).wf(),
            r == old(self).lookup(handle),
            (final(self).slots_view(), final(self).open_head()) == removed_from(
                old(self).slots_view(),
                old(self).open_head(),
                handle,
            ),
    {
        if handle.slot >= self.slots.len() {
            return None;
        }
        proof {
            if old(self).lookup(handle) is Some {
                lemma_open_slot(
                    self.slots@,
                    self.next_open_slot,
                    self.free@,
                    handle.slot,
                    handle.version.wrapping_add(1),
                );
            }
        }
        let r = self.slots[handle.slot].convert_to_open(&mut self.next_open_slot, handle);
        if r.is_some() {
            self.free = Ghost(seq![handle.slot] + self.free@);
        }
        r
    }
    pub fn values(&self) -> (r: ArenaValues<'_, T>)
        ensures
            r.remaining() == self.slots_view(),
            r.position() == 0,
    {
        ArenaValues::new(self.slots.as_slice())
    }

    pub fn values_mut(&mut self) -> (r: ArenaValuesMut<'_, T>)
        requires
            old(self).wf(),
        ensures
            r.remaining() == old(self).slots_view(),
            r.position() == 0,
            final(self).slots_view() == final(r.slots)@,
            final(self).open_head() == old(self).open_head(),
            final(self).open_slots() == old(self).open_slots(),
            same_shape(final(r.slots)@, r.remaining()) ==> final(self).wf(),
    {
        broadcast use lemma_same_shape_keeps_free_list;
        ArenaValuesMut::new(self.slots.as_mut_slice())
    }
}

/// The first filled slot at or after `from`, if any.
pub open spec fn next_filled<T>(slots: Seq<ArenaSlot<T>>, from: int) -> Option<int>
    decreases slots.len() - from,
{
    if from < 0 || from >= slots.len() {
        None
    } else if slots[from] is Filled {
        Some(from)
    } else {
        next_filled(slots, from + 1)
    }
}

/// The filled slots at or after `from`, as pairs of slot index and value, in
/// slot order.
pub open spec fn filled_from<T>(slots: Seq<ArenaSlot<T>>, from: int) -> Seq<(usize, T)>
    decreases slots.len() - from,
{
    if from < 0 || from >= slots.len() {
        Seq::empty()
    } else {
        let rest = filled_from(slots, from + 1);
        match slots[from] {
            ArenaSlot::Filled { value, .. } => seq![(from as usize, value)] + rest,
            ArenaSlot::Open { .. } => rest,
        }
    }
}

proof fn lemma_next_filled_splits<T>(slots: Seq<ArenaSlot<T>>, from: int)
    requires
        0 <= from,
    ensures
        match next_filled(slots, from) {
            Some(i) => {
                &&& from <= i < slots.len()
                &&& slots[i] is Filled
                &&& filled_from(slots, from) == seq![(i as usize, slots[i].held_value().unwrap())] + filled_from(
                    slots,
                    i + 1,
                )
            },
            None => filled_from(slots, from).len() == 0,
        },
    decreases slots.len() - from,
{
    if from < slots.len() {
        lemma_next_filled_splits(slots, from + 1);
    }
}

/// An arena with a fixed number of slots, all made open at the start; an
/// insertion into a full arena hands the value back.
pub struct BoundedArena<T> {
    slots: Vec<ArenaSlot<T>>,
    next_open_slot: Option<usize>,
    free: Ghost<Seq<usize>>,
}

impl<T> BoundedArena<T> {
    /// The slots of the arena, in order.
    pub closed spec fn slots_view(&self) -> Seq<ArenaSlot<T>> {
        self.slots@
    }

    /// The open slot that the next insertion fills, if any.
    pub closed spec fn open_head(&self) -> Option<usize> {
        self.next_open_slot
    }

    /// The open slots, in the order in which insertions will fill them.
    pub closed spec fn open_slots(&self) -> Seq<usize> {
        self.free@
    }

    pub closed spec fn wf(&self) -> bool {
        free_list_wf(self.slots@, self.next_open_slot, self.free@)
    }

    /// What a handle reads from the arena.
    pub open spec fn lookup(&self, handle: ArenaHandle) -> Option<T> {
        slots_lookup(self.slots_view(), handle)
    }

    /// The number of values the arena can hold at once.
    pub open spec fn capacity(&self) -> nat {
        self.slots_view().len()
    }

    /// Makes an arena with room for `max_value_count` values; every slot
    /// starts open, and the free list runs through the slots in order.
    pub fn new(max_value_count: usize) -> (r: Self)
        requires
            max_value_count > 0,
        ensures
            r.wf(),
            r.slots_view().len() == max_value_count,
            r.open_head() == Some(0usize),
            forall|i: int|
                0 <= i < max_value_count ==> #[trigger] r.slots_view()[i] == (ArenaSlot::Open::<T> {
                    next_open_slot: if i + 1 < max_value_count {
                        Some((i + 1) as usize)
                    } else {
                        None
                    },
                    version: 0,
                }),
    {
        let mut slots: Vec<ArenaSlot<T>> = Vec::new();
        let mut i: usize = 0;
        while i < max_value_count
            invariant
                i <= max_value_count,
                slots@.len() == i,
                forall|j: int|
                    0 <= j < i ==> #[trigger] slots@[j] == (ArenaSlot::Open::<T> {
                        next_open_slot: if j + 1 < max_value_count {
                            Some((j + 1) as usize)
                        } else {
                            None
                        },
                        version: 0,
                    }),
            decreases max_value_count - i,
        {
            let next_open_slot = if i + 1 < max_value_count {
                Some(i + 1)
            } else {
                None
            };
            slots.push(ArenaSlot::Open { next_open_slot, version: 0 });
            i = i + 1;
        }
        let ghost free = Seq::new(max_value_count as nat, |j: int| j as usize);
        proof {
            assert forall|j: int| 0 <= j < free.len() implies #[trigger] slots@[free[j] as int] is Open
                && slots@[free[j] as int].open_link() == free_next(free, j) by {
            }
            assert forall|x: int| 0 <= x < slots@.len() && #[trigger] slots@[x] is Open implies free.contains(
                x as usize,
            ) by {
                assert(free[x] == x as usize);
            }
        }
        Self { slots, next_open_slot: Some(0), free: Ghost(free) }
    }

    pub fn slots(&self) -> (r: &[ArenaSlot<T>])
        ensures
            r@ == self.slots_view(),
    {
        self.slots.as_slice()
    }

    /// Puts `value` into the open slot at the head of the free list, or hands
    /// it back when the arena is full.
    pub fn try_insert(&mut self, value: T) -> (r: Result<ArenaHandle, T>)
        requires
            old(self).wf(),
        ensures
            final(self).wf(),
            match old(self).open_head() {
                Some(_) => {
                    let (slots, head, h) = inserted_into(old(self).slots_view(), old(self).open_head(), value);
                    &&& r == Ok::<ArenaHandle, T>(h)
                    &&& final(self).slots_view() == slots
                    &&& final(self).open_head() == head
                },
                None => {
                    &&& r == Err::<ArenaHandle, T>(value)
                    &&& final(self).slots_view() == old(self).slots_view()
                    &&& final(self).open_head() is None
                },
            },
    {
        match self.next_open_slot {
            Some(slot) => {
                proof {
                    lemma_fill_head(self.slots@, self.next_open_slot, self.free@, value, self.slots@[slot as int].slot_version());
                }
                let h = self.slots[slot].convert_to_filled(&mut self.next_open_slot, slot, value);
                self.free = Ghost(self.free@.drop_first());
                Ok(h)
            },
            None => Err(value),
        }
    }

    pub fn get(&self, handle: ArenaHandle) -> (r: Option<&T>)
        ensures
            deref_opt(r) == self.lookup(handle),
    {
        if handle.slot < self.slots.len() {
            self.slots[handle.slot].value(handle.version)
        } else {
            None
        }
    }

    pub fn get_mut(&mut self, handle: ArenaHandle) -> (r: Option<&mut T>)
        requires
            old(self).wf(),
        ensures
            final(self).wf(),
            final(self).open_head() == old(self).open_head(),
            match r {
                Some(v) => {
                    &&& old(self).lookup(handle) == Some(*v)
                    &&& final(self).slots_view() == old(self).slots_view().update(
                        handle.slot as int,
                        ArenaSlot::Filled { value: *final(v), version: handle.version },
                    )
                },
                None => {
                    &&& old(self).lookup(handle) is None
                    &&& final(self).slots_view() == old(self).slots_view()
                },
            },
    {
        if handle.slot < self.slots.len() {
            let r = self.slots[handle.slot].value_mut(handle.version);
            proof {
                if r is Some {
                    lemma_refill(old(self).slots@, old(self).next_open_slot, old(self).free@, handle.slot, *final(r.unwrap()));
                }
            }
            r
        } else {
            None
        }
    }
    pub fn get_current(&self, slot: usize) -> (r: Option<&T>)
        ensures
            deref_opt(r) == slots_current(self.slots_view(), slot),
    {
        if slot < self.slots.len() {
            self.slots[slot].current_value()
        } else {
            None
        }
    }

    pub fn get_current_mut(&mut self, slot: usize) -> (r: Option<&mut T>)
        requires
            old(self).wf(),
        ensures
            final(self).wf(),
            final(self).open_head() == old(self).open_head(),
            match r {
                Some(v) => {
                    &&& slots_current(old(self).slots_view(), slot) == Some(*v)
                    &&& final(self).slots_view() == old(self).slots_view().update(
                        slot as int,
                        ArenaSlot::Filled {
                            value: *final(v),
                            version: old(self).slots_view()[slot as int].slot_version(),
                        },
                    )
                },
                None => {
                    &&& slots_current(old(self).slots_view(), slot) is None
                    &&& final(self).slots_view() == old(self).slots_view()
                },
            },
    {
        if slot < self.slots.len() {
            let r = self.slots[slot].current_value_mut();
            proof {
                if r is Some {
                    lemma_refill(old(self).slots@, old(self).next_open_slot, old(self).free@, slot, *final(r.unwrap()));
                }
            }
            r
        } else {
            None
        }
    }

    pub fn remove(&mut self, handle: ArenaHandle) -> (r: Option<T>)
        requires
            old(self).wf(),
        ensures
            final(self).wf(),
            r == old(self).lookup(handle),
            (final(self).slots_view(), final(self).open_head()) == removed_from(
                old(self).slots_view(),
                old(self).open_head(),
                handle,
            ),
    {
        if handle.slot >= self.slots.len() {
            return None;
        }
        proof {
            if old(self).lookup(handle) is Some {
                lemma_open_slot(
                    self.slots@,
                    self.next_open_slot,
                    self.free@,
                    handle.slot,
                    handle.version.wrapping_add(1),
                );
            }
        }
        let r = self.slots[handle.slot].convert_to_open(&mut self.next_open_slot, handle);
        if r.is_some() {
            self.free = Ghost(seq![handle.slot] + self.free@);
        }
        r
    }
    pub fn values(&self) -> (r: ArenaValues<'_, T>)
        ensures
            r.remaining() == self.slots_view(),
            r.position() == 0,
    {
        ArenaValues::new(self.slots.as_slice())
    }

    pub fn values_mut(&mut self) -> (r: ArenaValuesMut<'_, T>)
        requires
            old(self).wf(),
        ensures
            r.remaining() == old(self).slots_view(),
            r.position() == 0,
            final(self).slots_view() == final(r.slots)@,
            final(self).open_head() == old(self).open_head(),
            final(self).open_slots() == old(self).open_slots(),
            same_shape(final(r.slots)@, r.remaining()) ==> final(self).wf(),
    {
        broadcast use lemma_same_shape_keeps_free_list;
        ArenaValuesMut::new(self.slots.as_mut_slice())
    }
}


impl<T> UnboundedArena<T> {
    /// An insertion fills an open slot, under that slot's version, when one
    /// is open; otherwise it appends a slot of version 0.
    pub proof fn law_insert_fills_open_slot(self, value: T)
        requires
            self.wf(),
        ensures
            ({
                let (slots, _, h) = inserted_into(self.slots_view(), self.open_head(), value);
                if exists|s: int| 0 <= s < self.slots_view().len() && #[trigger] self.slots_view()[s] is Open {
                    &&& h.slot < self.slots_view().len()
                    &&& self.slots_view()[h.slot as int] is Open
                    &&& self.slots_view()[h.slot as int].slot_version() == h.version
                    &&& slots.len() == self.slots_view().len()
                } else {
                    &&& h == (ArenaHandle { slot: self.slots_view().len() as usize, version: 0 })
                    &&& slots.len() == self.slots_view().len() + 1
                }
            }),
    {
        lemma_free_list_head(self.slots_view(), self.open_head(), self.open_slots());
    }

    /// What soundness of the arena means: the open slots, in the order in
    /// which insertions fill them, chain through their links from the head,
    /// without repeats, and every open slot is among them.
    pub proof fn lemma_wf_free_list(self)
        requires
            self.wf(),
        ensures
            free_list_wf(self.slots_view(), self.open_head(), self.open_slots()),
    {
    }

    /// A sound arena has an open head exactly when some slot is open, and the
    /// head is an open slot.
    pub proof fn lemma_open_head_iff_open_slot(self)
        requires
            self.wf(),
        ensures
            self.open_head() is Some <==> exists|s: int| 0 <= s < self.slots_view().len() && #[trigger] self.slots_view()[s] is Open,
            self.open_head() matches Some(s) ==> s < self.slots_view().len() && self.slots_view()[s as int] is Open,
    {
        lemma_free_list_head(self.slots_view(), self.open_head(), self.open_slots());
    }

    /// The slot that the next insertion fills is an open slot of the arena.
    pub proof fn lemma_open_head_is_open(self)
        requires
            self.wf(),
        ensures
            self.open_head() matches Some(s) ==> s < self.slots_view().len() && self.slots_view()[s as int] is Open,
    {
        if self.open_head() is Some {
            assert(self.free@[0] < self.slots@.len());
        }
    }

    /// A value that is inserted is read back through the handle that the
    /// insertion returns; that handle read nothing before, and every other
    /// handle reads what it read before.
    pub proof fn law_insert_then_lookup(self, value: T)
        requires
            self.wf(),
        ensures
            ({
                let (slots, _, h) = inserted_into(self.slots_view(), self.open_head(), value);
                &&& slots_lookup(slots, h) == Some(value)
                &&& self.lookup(h) is None
                &&& forall|o: ArenaHandle| o != h ==> #[trigger] slots_lookup(slots, o) == self.lookup(o)
            }),
    {
        lemma_insert_reads_back(self.slots@, self.next_open_slot, self.free@, value);
    }

    /// After a removal the removed handle reads nothing, and every other
    /// handle reads what it read before.
    pub proof fn law_remove_then_lookup(self, handle: ArenaHandle)
        requires
            self.wf(),
        ensures
            ({
                let (slots, _) = removed_from(self.slots_view(), self.open_head(), handle);
                &&& slots_lookup(slots, handle) is None
                &&& forall|o: ArenaHandle| o != handle ==> #[trigger] slots_lookup(slots, o) == self.lookup(o)
            }),
    {
        lemma_remove_kills(self.slots@, self.next_open_slot, handle);
    }

    /// When a value is removed, the next insertion reuses its slot under the
    /// next version, so the removed handle still reads nothing.
    pub proof fn law_removed_handle_stays_dead(self, handle: ArenaHandle, value: T)
        requires
            self.wf(),
            self.lookup(handle) is Some,
        ensures
            ({
                let (slots, head) = removed_from(self.slots_view(), self.open_head(), handle);
                let (after, _, h) = inserted_into(slots, head, value);
                &&& h == (ArenaHandle { slot: handle.slot, version: handle.version.wrapping_add(1) })
                &&& h != handle
                &&& slots_lookup(after, handle) is None
                &&& slots_lookup(after, h) == Some(value)
            }),
    {
        lemma_open_slot(self.slots@, self.next_open_slot, self.free@, handle.slot, handle.version.wrapping_add(1));
        let (slots, head) = removed_from(self.slots_view(), self.open_head(), handle);
        lemma_insert_reads_back(slots, head, seq![handle.slot] + self.free@, value);
        assert(handle.version.wrapping_add(1) != handle.version);
    }

}

impl<T> BoundedArena<T> {
    /// What soundness of the arena means: the open slots, in the order in
    /// which insertions fill them, chain through their links from the head,
    /// without repeats, and every open slot is among them.
    pub proof fn lemma_wf_free_list(self)
        requires
            self.wf(),
        ensures
            free_list_wf(self.slots_view(), self.open_head(), self.open_slots()),
    {
    }

    /// A sound arena has an open head exactly when some slot is open, and the
    /// head is an open slot.
    pub proof fn lemma_open_head_iff_open_slot(self)
        requires
            self.wf(),
        ensures
            self.open_head() is Some <==> exists|s: int| 0 <= s < self.slots_view().len() && #[trigger] self.slots_view()[s] is Open,
            self.open_head() matches Some(s) ==> s < self.slots_view().len() && self.slots_view()[s as int] is Open,
    {
        lemma_free_list_head(self.slots_view(), self.open_head(), self.open_slots());
    }

    /// A value that is inserted is read back through the handle that the
    /// insertion returns; that handle read nothing before, and every other
    /// handle reads what it read before.
    pub proof fn law_insert_then_lookup(self, value: T)
        requires
            self.wf(),
        ensures
            ({
                let (slots, _, h) = inserted_into(self.slots_view(), self.open_head(), value);
                &&& slots_lookup(slots, h) == Some(value)
                &&& self.lookup(h) is None
                &&& forall|o: ArenaHandle| o != h ==> #[trigger] slots_lookup(slots, o) == self.lookup(o)
            }),
    {
        lemma_insert_reads_back(self.slots@, self.next_open_slot, self.free@, value);
    }

    /// After a removal the removed handle reads nothing, and every other
    /// handle reads what it read before.
    pub proof fn law_remove_then_lookup(self, handle: ArenaHandle)
        requires
            self.wf(),
        ensures
            ({
                let (slots, _) = removed_from(self.slots_view(), self.open_head(), handle);
                &&& slots_lookup(slots, handle) is None
                &&& forall|o: ArenaHandle| o != handle ==> #[trigger] slots_lookup(slots, o) == self.lookup(o)
            }),
    {
        lemma_remove_kills(self.slots@, self.next_open_slot, handle);
    }

    /// When a value is removed, the next insertion reuses its slot under the
    /// next version, so the removed handle still reads nothing.
    pub proof fn law_removed_handle_stays_dead(self, handle: ArenaHandle, value: T)
        requires
            self.wf(),
            self.lookup(handle) is Some,
        ensures
            ({
                let (slots, head) = removed_from(self.slots_view(), self.open_head(), handle);
                let (after, _, h) = inserted_into(slots, head, value);
                &&& h == (ArenaHandle { slot: handle.slot, version: handle.version.wrapping_add(1) })
                &&& h != handle
                &&& slots_lookup(after, handle) is None
                &&& slots_lookup(after, h) == Some(value)
            }),
    {
        lemma_open_slot(self.slots@, self.next_open_slot, self.free@, handle.slot, handle.version.wrapping_add(1));
        let (slots, head) = removed_from(self.slots_view(), self.open_head(), handle);
        lemma_insert_reads_back(slots, head, seq![handle.slot] + self.free@, value);
        assert(handle.version.wrapping_add(1) != handle.version);
    }


    /// A bounded arena refuses an insertion exactly when every one of its
    /// slots holds a value.
    pub proof fn law_full_iff_no_open_slot(self)
        requires
            self.wf(),
        ensures
            self.open_head() is None <==> forall|i: int|
                0 <= i < self.capacity() ==> #[trigger] self.slots_view()[i] is Filled,
    {
        lemma_no_open_head_means_full(self.slots@, self.next_open_slot, self.free@);
    }

    /// How many values a bounded arena holds: never more than its capacity,
    /// all of it exactly when an insertion would be refused; a successful
    /// insertion adds one, a removal that returns a value takes one away, and
    /// a removal that returns nothing changes nothing.
    pub proof fn law_filled_count(self, value: T, handle: ArenaHandle)
        requires
            self.wf(),
        ensures
            filled_count(self.slots_view()) <= self.capacity(),
            self.open_head() is None <==> filled_count(self.slots_view()) == self.capacity(),
            self.open_head() is Some ==> filled_count(inserted_into(self.slots_view(), self.open_head(), value).0)
                == filled_count(self.slots_view()) + 1,
            filled_count(removed_from(self.slots_view(), self.open_head(), handle).0) + (if self.lookup(
                handle,
            ) is Some {
                1int
            } else {
                0int
            }) == filled_count(self.slots_view()),
    {
        lemma_filled_count_bound(self.slots_view());
        lemma_no_open_head_means_full(self.slots@, self.next_open_slot, self.free@);
        if self.open_head() is Some {
            let s = self.free@[0];
            assert(self.slots@[s as int] is Open);
            lemma_filled_count_update(
                self.slots@,
                s as int,
                ArenaSlot::Filled { value, version: self.slots@[s as int].slot_version() },
            );
        }
        if self.lookup(handle) is Some {
            lemma_filled_count_update(
                self.slots@,
                handle.slot as int,
                ArenaSlot::Open { next_open_slot: self.open_head(), version: handle.version.wrapping_add(1) },
            );
        }
    }

    /// Insertions and removals never change the number of slots of a bounded
    /// arena.
    pub proof fn law_capacity_is_fixed(self, value: T, handle: ArenaHandle)
        requires
            self.wf(),
        ensures
            self.open_head() is Some ==> inserted_into(self.slots_view(), self.open_head(), value).0.len()
                == self.capacity(),
            removed_from(self.slots_view(), self.open_head(), handle).0.len() == self.capacity(),
    {
        if self.open_head() is Some {
            assert(self.free@[0] < self.slots@.len());
        }
    }
}

/// Walks the filled slots of an arena in slot order, giving each slot's
/// index and value.
pub struct ArenaValues<'a, T> {
    slots: &'a [ArenaSlot<T>],
    next_slot: usize,
}

impl<'a, T> ArenaValues<'a, T> {
    #[verifier::type_invariant]
    spec fn position_in_bounds(&self) -> bool {
        self.next_slot <= self.slots@.len()
    }

    /// The slots being walked.
    pub closed spec fn remaining(&self) -> Seq<ArenaSlot<T>> {
        self.slots@
    }

    /// The index of the next slot to look at.
    pub closed spec fn position(&self) -> int {
        self.next_slot as int
    }

    /// The pairs that calls of `next` will still give, in order.
    pub open spec fn pending(&self) -> Seq<(usize, T)> {
        filled_from(self.remaining(), self.position())
    }

    fn new(slots: &'a [ArenaSlot<T>]) -> (r: Self)
        ensures
            r.remaining() == slots@,
            r.position() == 0,
    {
        Self { slots, next_slot: 0 }
    }

    /// The next filled slot at or after the current position with its value,
    /// or `None` when no filled slot is left.
    pub fn next(&mut self) -> (r: Option<(usize, &'a T)>)
        ensures
            final(self).remaining() == old(self).remaining(),
            match next_filled(old(self).remaining(), old(self).position()) {
                Some(i) => {
                    &&& r is Some
                    &&& r.unwrap().0 == i
                    &&& old(self).remaining()[i].held_value() == Some(*r.unwrap().1)
                    &&& final(self).position() == i + 1
                },
                None => {
                    &&& r is None
                    &&& final(self).position() >= old(self).remaining().len()
                },
            },
            match r {
                Some(p) => old(self).pending() == seq![(p.0, *p.1)] + final(self).pending(),
                None => old(self).pending().len() == 0 && final(self).pending().len() == 0,
            },
    {
        proof {
            lemma_next_filled_splits(self.slots@, self.next_slot as int);
        }
        proof {
            use_type_invariant(&*self);
        }
        let slots = self.slots;
        while self.next_slot < slots.len()
            invariant
                self.slots == slots,
                old(self).slots == slots,
                old(self).next_slot <= self.next_slot <= slots@.len(),
                next_filled(slots@, old(self).next_slot as int) == next_filled(slots@, self.next_slot as int),
            decreases slots@.len() - self.next_slot,
        {
            let slot = self.next_slot;
            self.next_slot = self.next_slot + 1;
            match &slots[slot] {
                ArenaSlot::Filled { value, .. } => {
                    proof {
                        lemma_next_filled_splits(slots@, old(self).next_slot as int);
                        lemma_next_filled_splits(slots@, slot as int);
                    }
                    return Some((slot, value));
                },
                ArenaSlot::Open { .. } => {},
            }
        }
        None
    }
}

/// Walks the filled slots of an arena in slot order, giving each slot's
/// index and a mutable reference to its value.
pub struct ArenaValuesMut<'a, T> {
    /// The slots not walked yet.
    pub slots: &'a mut [ArenaSlot<T>],
    /// The index, in the arena, of the first slot not walked yet.
    pub next_slot: usize,
}

impl<'a, T> ArenaValuesMut<'a, T> {
    /// The slots not walked yet.
    pub open spec fn remaining(&self) -> Seq<ArenaSlot<T>> {
        self.slots@
    }

    /// The index, in the arena, of the first slot not walked yet.
    pub open spec fn position(&self) -> int {
        self.next_slot as int
    }

    fn new(slots: &'a mut [ArenaSlot<T>]) -> (r: Self)
        ensures
            r.remaining() == old(slots)@,
            r.position() == 0,
            final(slots)@ == final(r.slots)@,
    {
        Self { slots, next_slot: 0 }
    }

    /// The next filled slot with a mutable reference to its value, or `None`
    /// when no filled slot is left.
    pub fn next(&mut self) -> (r: Option<(usize, &'a mut T)>)
        requires
            old(self).position() + old(self).remaining().len() <= usize::MAX,
        ensures
            final(self).position() + final(self).remaining().len() <= usize::MAX,
            match next_filled(old(self).remaining(), 0) {
                Some(i) => {
                    &&& r is Some
                    &&& 0 <= i < old(self).remaining().len()
                    &&& r.unwrap().0 == old(self).position() + i
                    &&& old(self).remaining()[i].held_value() == Some(*r.unwrap().1)
                    &&& final(self).remaining() == old(self).remaining().skip(i + 1)
                    &&& final(self).position() == old(self).position() + i + 1
                    &&& final(old(self).slots)@ == old(self).slots@.take(i) + seq![
                        ArenaSlot::Filled { value: *final(r.unwrap().1), version: old(self).slots@[i].slot_version() },
                    ] + final(final(self).slots)@
                    &&& same_shape(final(final(self).slots)@, final(self).remaining()) ==> same_shape(
                        final(old(self).slots)@,
                        old(self).remaining(),
                    )
                    &&& walk_step(
                        old(self).remaining(),
                        final(old(self).slots)@,
                        final(self).remaining(),
                        final(final(self).slots)@,
                    )
                },
                None => {
                    &&& r is None
                    &&& final(self).remaining().len() == 0
                    &&& final(old(self).slots)@ == old(self).slots@
                    &&& same_shape(final(old(self).slots)@, old(self).remaining())
                },
            },
    {
        let ghost start = self.slots@;
        let ghost start_pos = self.next_slot as int;
        loop
            invariant
                start == old(self).slots@,
                start_pos == old(self).next_slot,
                0 <= self.next_slot - start_pos <= start.len(),
                self.slots@ == start.skip(self.next_slot - start_pos),
                start_pos + start.len() <= usize::MAX,
                next_filled(start, 0) == next_filled(start, self.next_slot - start_pos),
                final(old(self).slots)@ == start.take(self.next_slot - start_pos) + final(self.slots)@,
            decreases self.slots@.len(),
        {
            let mut taken: &'a mut [ArenaSlot<T>] = &mut [];
            std::mem::swap(&mut self.slots, &mut taken);
            assert(taken@ == start.skip(self.next_slot - start_pos));
            if taken.len() == 0 {
                assert(self.next_slot - start_pos == start.len());
                assert(next_filled(start, self.next_slot - start_pos) is None);
                return None;
            }
            let (first, rest) = taken.split_at_mut(1);
            self.slots = rest;
            let slot = self.next_slot;
            self.next_slot = self.next_slot + 1;
            proof {
                assert(first@[0] == start[slot - start_pos]);
                assert(self.slots@ =~= start.skip(self.next_slot - start_pos));
            }
            match &mut first[0] {
                ArenaSlot::Filled { value, .. } => {
                    proof {
                        lemma_walk_step_keeps_shape(start, slot - start_pos, *final(value), final(self.slots)@);
                        assert(rewritten(start, slot - start_pos, *final(value)) == ArenaSlot::Filled {
                            value: *final(value),
                            version: start[slot - start_pos].slot_version(),
                        });
                    }
                    return Some((slot, value));
                },
                ArenaSlot::Open { .. } => {},
            }
        }
    }

}

} // verus!
