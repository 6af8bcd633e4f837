use vstd::prelude::*;
use crate::arena::{deref_opt, inserted_into, slots_lookup, ArenaHandle, ArenaSlot, BoundedArena, UnboundedArena};
use crate::asset::ImageAnimation;

verus! {

/// How many entity pieces one render batch holds.
pub const PIECES_PER_BATCH: usize = 512;

/// A reference to an entity piece: its batch and its place in the batch.
#[derive(Copy, Clone, PartialEq, Eq, Structural, Debug)]
pub struct EntityPieceHandle {
    batch: ArenaHandle,
    piece: ArenaHandle,
}

impl EntityPieceHandle {
    pub closed spec fn batch_handle(&self) -> ArenaHandle {
        self.batch
    }

    pub closed spec fn piece_handle(&self) -> ArenaHandle {
        self.piece
    }

    /// The slot of the piece's batch.
    pub fn batch_slot(&self) -> (r: usize)
        ensures
            r == self.batch_handle().slot,
    {
        self.batch.slot
    }

    /// The slot of the piece within its batch.
    pub fn piece_slot(&self) -> (r: usize)
        ensures
            r == self.piece_handle().slot,
    {
        self.piece.slot
    }
}

/// The pieces that entities are drawn with, kept in batches of
/// `PIECES_PER_BATCH` that are each drawn at once: a new piece goes into the
/// first batch with room, or a new batch when all are full, and a batch that
/// empties is dropped.
pub struct EntityRenderer<P> {
    batches: UnboundedArena<BoundedArena<P>>,
}

/// Every batch is a sound arena of `PIECES_PER_BATCH` slots.
pub open spec fn batches_wf<P>(slots: Seq<ArenaSlot<BoundedArena<P>>>) -> bool {
    forall|i: int|
        0 <= i < slots.len() ==> match #[trigger] slots[i] {
            ArenaSlot::Filled { value, .. } => value.wf() && value.capacity() == PIECES_PER_BATCH,
            ArenaSlot::Open { .. } => true,
        }
}

/// Whether no slot of a batch holds a piece.
pub open spec fn batch_empty<P>(batch: BoundedArena<P>) -> bool {
    forall|i: int| 0 <= i < batch.slots_view().len() ==> #[trigger] batch.slots_view()[i] is Open
}

fn is_empty_batch<P>(batch: &BoundedArena<P>) -> (r: bool)
    ensures
        r == batch_empty(*batch),
{
    let slots = batch.slots();
    let mut i: usize = 0;
    while i < slots.len()
        invariant
            i <= slots@.len(),
            slots@ == batch.slots_view(),
            forall|j: int| 0 <= j < i ==> #[trigger] slots@[j] is Open,
        decreases slots@.len() - i,
    {
        match &slots[i] {
            ArenaSlot::Filled { .. } => {
                return false;
            },
            ArenaSlot::Open { .. } => {},
        }
        i = i + 1;
    }
    true
}

/// What a piece handle reads from batches.
pub open spec fn batches_piece<P>(slots: Seq<ArenaSlot<BoundedArena<P>>>, h: EntityPieceHandle) -> Option<P> {
    match slots_lookup(slots, h.batch_handle()) {
        Some(batch) => batch.lookup(h.piece_handle()),
        None => None,
    }
}

/// A handle whose piece was removed: its piece slot, or its whole batch
/// slot when the batch was dropped, is open at the version after the
/// handle's.
pub open spec fn retired<P>(slots: Seq<ArenaSlot<BoundedArena<P>>>, h: EntityPieceHandle) -> bool {
    let b = h.batch_handle();
    let p = h.piece_handle();
    &&& b.slot < slots.len()
    &&& match slots[b.slot as int] {
        ArenaSlot::Open { version, .. } => version == b.version.wrapping_add(1),
        ArenaSlot::Filled { value, version } => {
            &&& version == b.version
            &&& p.slot < value.slots_view().len()
            &&& value.slots_view()[p.slot as int] is Open
            &&& value.slots_view()[p.slot as int].slot_version() == p.version.wrapping_add(1)
        },
    }
}

/// Whether a batch slot holds a batch with an open slot.
pub open spec fn has_room<P>(slot: ArenaSlot<BoundedArena<P>>) -> bool {
    slot matches ArenaSlot::Filled { value, .. } && value.open_head() is Some
}

/// The first of the first `k` batch slots that holds a batch with room.
pub open spec fn first_with_room<P>(slots: Seq<ArenaSlot<BoundedArena<P>>>, k: int) -> Option<int>
    decreases k,
{
    if k <= 0 {
        None
    } else {
        match first_with_room(slots, k - 1) {
            Some(i) => Some(i),
            None => if has_room(slots[k - 1]) {
                Some(k - 1)
            } else {
                None
            },
        }
    }
}

proof fn lemma_first_with_room_stays<P>(slots: Seq<ArenaSlot<BoundedArena<P>>>, k: int, m: int)
    requires
        0 < k <= m,
        first_with_room(slots, k) is Some,
    ensures
        first_with_room(slots, m) == first_with_room(slots, k),
    decreases m - k,
{
    if m > k {
        lemma_first_with_room_stays(slots, k, m - 1);
    }
}

/// Whether handle `a` comes before handle `b` in batch order, then slot
/// order.
pub open spec fn handle_before(a: EntityPieceHandle, b: EntityPieceHandle) -> bool {
    a.batch_handle().slot < b.batch_handle().slot || (a.batch_handle().slot == b.batch_handle().slot
        && a.piece_handle().slot < b.piece_handle().slot)
}

impl<P> EntityRenderer<P> {
    pub closed spec fn batch_slots(&self) -> Seq<ArenaSlot<BoundedArena<P>>> {
        self.batches.slots_view()
    }

    /// The batch slot that a new batch goes into: the first open one, or a
    /// new slot at the end.
    pub closed spec fn next_batch_slot(&self) -> int {
        match self.batches.open_head() {
            Some(s) => s as int,
            None => self.batches.slots_view().len() as int,
        }
    }

    pub closed spec fn wf(&self) -> bool {
        &&& self.batches.wf()
        &&& batches_wf(self.batches.slots_view())
    }

    /// What a handle reads.
    pub open spec fn piece(&self, h: EntityPieceHandle) -> Option<P> {
        batches_piece(self.batch_slots(), h)
    }

    pub fn new() -> (r: Self)
        ensures
            r.wf(),
            forall|h: EntityPieceHandle| r.piece(h) is None,
            r.batch_slots().len() == 0,
            r.next_batch_slot() == 0,
    {
        EntityRenderer { batches: UnboundedArena::new() }
    }

    /// How many batch slots there are.
    pub fn batch_slot_count(&self) -> (r: usize)
        ensures
            r == self.batch_slots().len(),
    {
        self.batches.slots().len()
    }

    pub fn get_piece(&self, handle: &EntityPieceHandle) -> (r: Option<&P>)
        ensures
            deref_opt(r) == self.piece(*handle),
    {
        match self.batches.get(handle.batch) {
            Some(batch) => batch.get(handle.piece),
            None => None,
        }
    }
    /// Adds a piece to the first batch with room, or to a new batch when
    /// every batch is full.
    pub fn add_piece(&mut self, piece: P) -> (h: EntityPieceHandle)
        requires
            old(self).wf(),
        ensures
            final(self).wf(),
            final(self).piece(h) == Some(piece),
            old(self).piece(h) is None,
            forall|o: EntityPieceHandle| o != h ==> #[trigger] final(self).piece(o) == old(self).piece(o),
            final(self).batch_slots().len() <= old(self).batch_slots().len() + 1,
            !retired(old(self).batch_slots(), h),
            match first_with_room(old(self).batch_slots(), old(self).batch_slots().len() as int) {
                Some(i) => {
                    let b = old(self).batch_slots()[i]->Filled_value;
                    &&& h.batch_handle() == (ArenaHandle { slot: i as usize, version: old(self).batch_slots()[i].slot_version() })
                    &&& h.piece_handle() == inserted_into(b.slots_view(), b.open_head(), piece).2
                },
                None => {
                    &&& h.batch_handle().slot == old(self).next_batch_slot()
                    &&& h.piece_handle() == (ArenaHandle { slot: 0, version: 0 })
                },
            },
    {
        let ghost p0 = piece;
        let n = self.batches.slots().len();
        let mut pending: Option<P> = Some(piece);
        let mut slot: usize = 0;
        while slot < n
            invariant
                self.wf(),
                n == self.batch_slots().len(),
                n == old(self).batch_slots().len(),
                self.batches.open_head() == old(self).batches.open_head(),
                pending == Some(p0),
                p0 == piece,
                forall|o: EntityPieceHandle| #[trigger] self.piece(o) == old(self).piece(o),
                forall|i: int| slot <= i < n ==> #[trigger] self.batch_slots()[i] == old(self).batch_slots()[i],
                slot <= n,
                first_with_room(old(self).batch_slots(), slot as int) is None,
                forall|i: int|
                    0 <= i < n && old(self).batch_slots()[i] is Open ==> #[trigger] self.batch_slots()[i] == old(
                        self,
                    ).batch_slots()[i],
                forall|i: int|
                    0 <= i < n && old(self).batch_slots()[i] is Filled ==> #[trigger] self.batch_slots()[i] is Filled
                        && self.batch_slots()[i].slot_version() == old(self).batch_slots()[i].slot_version(),
            decreases n - slot,
        {
            let version = match &self.batches.slots()[slot] {
                ArenaSlot::Filled { version, .. } => *version,
                ArenaSlot::Open { version, .. } => *version,
            };
            let ghost before = self.batch_slots();
            let ghost renderer_before = *self;
            proof {
                assert(version == before[slot as int].slot_version());
                if before[slot as int] is Filled {
                    let b = before[slot as int]->value;
                    assert(b.wf() && b.capacity() == PIECES_PER_BATCH);
                    b.law_insert_then_lookup(p0);
                    b.law_capacity_is_fixed(p0, ArenaHandle { slot: 0, version: 0 });
                }
            }
            let item = match pending.take() {
                Some(item) => item,
                None => {
                    proof {
                        assert(false);
                    }
                    return EntityPieceHandle { batch: ArenaHandle { slot: 0, version: 0 }, piece: ArenaHandle { slot: 0, version: 0 } };
                },
            };
            let outcome = match self.batches.get_current_mut(slot) {
                Some(batch) => Some(batch.try_insert(item)),
                None => {
                    pending = Some(item);
                    None
                },
            };
            let ghost after = self.batch_slots();
            proof {
                assert forall|i: int| 0 <= i < after.len() implies match #[trigger] after[i] {
                    ArenaSlot::Filled { value, .. } => value.wf() && value.capacity() == PIECES_PER_BATCH,
                    ArenaSlot::Open { .. } => true,
                } by {
                    if i != slot {
                        assert(after[i] == before[i]);
                    }
                }
            }
            match outcome {
                Some(Ok(ph)) => {
                    let h = EntityPieceHandle { batch: ArenaHandle { slot, version }, piece: ph };
                    proof {
                        assert(renderer_before.piece(h) is None);
                        assert(old(self).piece(h) == renderer_before.piece(h));
                        let b = before[slot as int]->Filled_value;
                        assert(old(self).batch_slots()[slot as int] == before[slot as int]);
                        match b.open_head() {
                            Some(s) => {
                                assert(ph == ArenaHandle { slot: s, version: b.slots_view()[s as int].slot_version() });
                            },
                            None => {},
                        }
                        assert(ph.version.wrapping_add(1) != ph.version);
                        assert(b.open_head() is Some);
                        assert(has_room(old(self).batch_slots()[slot as int]));
                        assert(first_with_room(old(self).batch_slots(), slot + 1) == Some(slot as int));
                        lemma_first_with_room_stays(old(self).batch_slots(), slot + 1, n as int);

                        assert forall|o: EntityPieceHandle| o != h implies #[trigger] self.piece(o)
                            == renderer_before.piece(o) by {
                            if o.batch_handle().slot != slot && o.batch_handle().slot < after.len() {
                                assert(after[o.batch_handle().slot as int] == before[o.batch_handle().slot as int]);
                            }
                        }
                    }
                    return h;
                },
                Some(Err(p)) => {
                    pending = Some(p);
                    proof {
                        assert forall|o: EntityPieceHandle| #[trigger] self.piece(o) == renderer_before.piece(o) by {
                            if o.batch_handle().slot != slot && o.batch_handle().slot < after.len() {
                                assert(after[o.batch_handle().slot as int] == before[o.batch_handle().slot as int]);
                            }
                        }
                    }
                },
                None => {
                    proof {
                        assert(after == before);
                        assert forall|o: EntityPieceHandle| #[trigger] self.piece(o) == renderer_before.piece(o) by {}
                    }
                },
            }
            proof {
                assert forall|o: EntityPieceHandle| #[trigger] self.piece(o) == old(self).piece(o) by {
                    assert(renderer_before.piece(o) == old(self).piece(o));
                }
                assert forall|i: int| 0 <= i < n && i != slot implies #[trigger] self.batch_slots()[i] == before[i] by {}
            }
            slot = slot + 1;
        }
        let piece = match pending {
            Some(item) => item,
            None => {
                proof {
                    assert(false);
                }
                return EntityPieceHandle { batch: ArenaHandle { slot: 0, version: 0 }, piece: ArenaHandle { slot: 0, version: 0 } };
            },
        };
        let mut batch: BoundedArena<P> = BoundedArena::new(PIECES_PER_BATCH);
        proof {
            batch.law_insert_then_lookup(piece);
            batch.law_capacity_is_fixed(piece, ArenaHandle { slot: 0, version: 0 });
        }
        let ghost fresh = batch;
        let ph = match batch.try_insert(piece) {
            Ok(ph) => ph,
            Err(_) => {
                proof {
                    assert(false);
                }
                ArenaHandle { slot: 0, version: 0 }
            },
        };
        let ghost before = self.batch_slots();
        let ghost renderer_before = *self;
        let ghost filled = batch;
        proof {
            assert(filled.wf() && filled.capacity() == PIECES_PER_BATCH);
            self.batches.law_insert_then_lookup(batch);
            self.batches.lemma_open_head_is_open();
        }
        let bh = self.batches.insert(batch);
        let h = EntityPieceHandle { batch: bh, piece: ph };
        proof {
            let after = self.batch_slots();
            match renderer_before.batches.open_head() {
                Some(s) => {
                    assert(after == before.update(
                        s as int,
                        ArenaSlot::Filled { value: filled, version: before[s as int].slot_version() },
                    ));
                    assert(bh.slot == s);
                    assert forall|i: int| 0 <= i < after.len() implies match #[trigger] after[i] {
                        ArenaSlot::Filled { value, .. } => value.wf() && value.capacity() == PIECES_PER_BATCH,
                        ArenaSlot::Open { .. } => true,
                    } by {
                        if i != s {
                            assert(after[i] == before[i]);
                        }
                    }
                },
                None => {
                    assert(after == before.push(ArenaSlot::Filled { value: filled, version: 0 }));
                    assert forall|i: int| 0 <= i < after.len() implies match #[trigger] after[i] {
                        ArenaSlot::Filled { value, .. } => value.wf() && value.capacity() == PIECES_PER_BATCH,
                        ArenaSlot::Open { .. } => true,
                    } by {
                        if i < before.len() {
                            assert(after[i] == before[i]);
                        }
                    }
                },
            }
            assert(renderer_before.piece(h) is None);
            assert(old(self).piece(h) == renderer_before.piece(h));
            assert(bh.version.wrapping_add(1) != bh.version);
            match renderer_before.batches.open_head() {
                Some(s) => {
                    assert(before[s as int] is Open);
                    assert(old(self).batch_slots()[s as int] is Open);
                    assert(old(self).batch_slots()[s as int] == before[s as int]);
                },
                None => {
                    assert(bh.slot == before.len());
                },
            }
            assert forall|o: EntityPieceHandle| o != h implies #[trigger] self.piece(o) == renderer_before.piece(o) by {
                if o.batch_handle() == bh {
                    assert(fresh.lookup(o.piece_handle()) is None);
                }
            }
        }
        h
    }
    pub fn get_piece_mut(&mut self, handle: &EntityPieceHandle) -> (r: Option<&mut P>)
        requires
            old(self).wf(),
        ensures
            final(self).wf(),
            final(self).batch_slots().len() == old(self).batch_slots().len(),
            match r {
                Some(v) => {
                    &&& old(self).piece(*handle) == Some(*v)
                    &&& final(self).piece(*handle) == Some(*final(v))
                    &&& forall|o: EntityPieceHandle| o != *handle ==> #[trigger] final(self).piece(o) == old(self).piece(o)
                },
                None => {
                    &&& old(self).piece(*handle) is None
                    &&& forall|o: EntityPieceHandle| #[trigger] final(self).piece(o) == old(self).piece(o)
                },
            },
    {
        let ghost before = self.batch_slots();
        match self.batches.get_mut(handle.batch) {
            Some(batch) => {
                let ghost b = *batch;
                proof {
                    assert(before[handle.batch.slot as int] is Filled);
                    assert(b.wf() && b.capacity() == PIECES_PER_BATCH);
                }
                let r = batch.get_mut(handle.piece);
                r
            },
            None => None,
        }
    }
    /// Removes a piece; a batch left without pieces is dropped.
    pub fn remove_piece(&mut self, handle: EntityPieceHandle) -> (r: Option<P>)
        requires
            old(self).wf(),
        ensures
            final(self).wf(),
            final(self).batch_slots().len() == old(self).batch_slots().len(),
            r == old(self).piece(handle),
            final(self).piece(handle) is None,
            forall|o: EntityPieceHandle| o != handle ==> #[trigger] final(self).piece(o) == old(self).piece(o),
            old(self).piece(handle) is Some ==> retired(final(self).batch_slots(), handle),
    {
        let ghost before = self.batch_slots();
        let ghost renderer_before = *self;
        let result = match self.batches.get_mut(handle.batch) {
            Some(batch) => {
                proof {
                    let b = *batch;
                    assert(before[handle.batch.slot as int] is Filled);
                    assert(b.wf() && b.capacity() == PIECES_PER_BATCH);
                    b.law_remove_then_lookup(handle.piece);
                    b.law_capacity_is_fixed(vstd::pervasive::arbitrary(), handle.piece);
                }
                batch.remove(handle.piece)
            },
            None => {
                return None;
            },
        };
        let ghost mid = self.batch_slots();
        let ghost renderer_mid = *self;
        proof {
            assert forall|o: EntityPieceHandle| o != handle implies #[trigger] renderer_mid.piece(o)
                == renderer_before.piece(o) by {
                if o.batch_handle().slot != handle.batch.slot && o.batch_handle().slot < mid.len() {
                    assert(mid[o.batch_handle().slot as int] == before[o.batch_handle().slot as int]);
                }
            }
        }
        let empty = match self.batches.get(handle.batch) {
            Some(batch) => is_empty_batch(batch),
            None => false,
        };
        if empty {
            proof {
                self.batches.law_remove_then_lookup(handle.batch);
            }
            self.batches.remove(handle.batch);
            proof {
                let after = self.batch_slots();
                assert forall|i: int| 0 <= i < after.len() implies match #[trigger] after[i] {
                    ArenaSlot::Filled { value, .. } => value.wf() && value.capacity() == PIECES_PER_BATCH,
                    ArenaSlot::Open { .. } => true,
                } by {
                    if i != handle.batch.slot {
                        assert(after[i] == mid[i]);
                    }
                }
                let emptied = mid[handle.batch.slot as int]->Filled_value;
                assert forall|o: EntityPieceHandle| #[trigger] self.piece(o) == renderer_mid.piece(o) by {
                    if o.batch_handle() == handle.batch {
                        if o.piece_handle().slot < emptied.slots_view().len() {
                            assert(emptied.slots_view()[o.piece_handle().slot as int] is Open);
                        }
                    }
                }
            }
        }
        result
    }
    /// The handles of all the pieces, batch by batch and slot by slot.
    pub fn piece_handles(&self) -> (r: Vec<EntityPieceHandle>)
        ensures
            forall|k: int| 0 <= k < r@.len() ==> self.piece(#[trigger] r@[k]) is Some,
            forall|h: EntityPieceHandle| #[trigger] self.piece(h) is Some ==> r@.contains(h),
            forall|k: int, l: int| 0 <= k < l < r@.len() ==> handle_before(#[trigger] r@[k], #[trigger] r@[l]),
    {
        let slots = self.batches.slots();
        let mut out: Vec<EntityPieceHandle> = Vec::new();
        let mut i: usize = 0;
        while i < slots.len()
            invariant
                i <= slots@.len(),
                slots@ == self.batch_slots(),
                forall|k: int| 0 <= k < out@.len() ==> self.piece(#[trigger] out@[k]) is Some,
                forall|h: EntityPieceHandle|
                    #[trigger] self.piece(h) is Some && h.batch_handle().slot < i ==> out@.contains(h),
                forall|k: int| 0 <= k < out@.len() ==> (#[trigger] out@[k]).batch_handle().slot < i,
                forall|k: int, l: int| 0 <= k < l < out@.len() ==> handle_before(#[trigger] out@[k], #[trigger] out@[l]),
            decreases slots@.len() - i,
        {
            match &slots[i] {
                ArenaSlot::Filled { value: batch, version } => {
                    let inner = batch.slots();
                    let mut j: usize = 0;
                    while j < inner.len()
                        invariant
                            i < slots@.len(),
                            j <= inner@.len(),
                            slots@ == self.batch_slots(),
                            slots@[i as int] == (ArenaSlot::Filled { value: *batch, version: *version }),
                            inner@ == batch.slots_view(),
                            forall|k: int| 0 <= k < out@.len() ==> self.piece(#[trigger] out@[k]) is Some,
                            forall|h: EntityPieceHandle|
                                #[trigger] self.piece(h) is Some && (h.batch_handle().slot < i || (
                                h.batch_handle().slot == i && h.piece_handle().slot < j)) ==> out@.contains(h),
                            forall|k: int|
                                0 <= k < out@.len() ==> (#[trigger] out@[k]).batch_handle().slot < i || (
                                out@[k].batch_handle().slot == i && out@[k].piece_handle().slot < j),
                            forall|k: int, l: int|
                                0 <= k < l < out@.len() ==> handle_before(#[trigger] out@[k], #[trigger] out@[l]),
                        decreases inner@.len() - j,
                    {
                        match &inner[j] {
                            ArenaSlot::Filled { version: piece_version, .. } => {
                                let h = EntityPieceHandle {
                                    batch: ArenaHandle { slot: i, version: *version },
                                    piece: ArenaHandle { slot: j, version: *piece_version },
                                };
                                let ghost before = out@;
                                out.push(h);
                                proof {
                                    assert(out@[before.len() as int] == h);
                                    assert forall|k: int| 0 <= k < out@.len() implies self.piece(#[trigger] out@[k]) is Some by {
                                        if k < before.len() {
                                            assert(out@[k] == before[k]);
                                        }
                                    }
                                    assert forall|k: int, l: int| 0 <= k < l < out@.len() implies handle_before(
                                        #[trigger] out@[k],
                                        #[trigger] out@[l],
                                    ) by {
                                        if l < before.len() {
                                            assert(out@[k] == before[k] && out@[l] == before[l]);
                                        } else {
                                            assert(out@[k] == before[k]);
                                        }
                                    }
                                    assert forall|g: EntityPieceHandle|
                                        #[trigger] self.piece(g) is Some && (g.batch_handle().slot < i || (
                                        g.batch_handle().slot == i && g.piece_handle().slot < j + 1)) implies out@.contains(g) by {
                                        if g == h {
                                            assert(out@[before.len() as int] == g);
                                        } else if g.batch_handle().slot < i || g.piece_handle().slot < j {
                                            let k = choose|k: int| 0 <= k < before.len() && before[k] == g;
                                            assert(out@[k] == g);
                                        }
                                    }
                                }
                            },
                            ArenaSlot::Open { .. } => {},
                        }
                        j = j + 1;
                    }
                },
                ArenaSlot::Open { .. } => {},
            }
            i = i + 1;
        }
        out
    }
}

/// Where an entity piece is in its image's animation: the frame it shows
/// and how many ticks are left before the next one.
#[derive(Copy, Clone, Debug, PartialEq, Eq, Structural)]
pub struct PieceFrames {
    pub frame: u32,
    pub frame_timer: u32,
}

/// The frames after one tick: the timer counts down (stopping at zero), and
/// when it reaches zero the next frame comes, wrapping around, and the timer
/// starts over from the frame time. A still image does not change.
pub open spec fn ticked(frames: PieceFrames, animation: Option<ImageAnimation>) -> PieceFrames {
    match animation {
        Some(a) => {
            let timer = if frames.frame_timer > 0 {
                (frames.frame_timer - 1) as u32
            } else {
                0u32
            };
            if timer == 0 {
                PieceFrames { frame: ((frames.frame + 1) % (a.frame_count as int)) as u32, frame_timer: a.frame_time }
            } else {
                PieceFrames { frame: frames.frame, frame_timer: timer }
            }
        },
        None => frames,
    }
}

impl PieceFrames {
    /// The first frame of an image, with its full frame time.
    pub fn start(animation: Option<ImageAnimation>) -> (r: Self)
        ensures
            r.frame == 0,
            r.frame_timer == match animation {
                Some(a) => a.frame_time,
                None => 0u32,
            },
    {
        let frame_timer = match animation {
            Some(a) => a.frame_time,
            None => 0,
        };
        PieceFrames { frame: 0, frame_timer }
    }

    /// Shows another frame; says whether it differs from the one shown.
    pub fn set_frame(&mut self, frame: u32) -> (changed: bool)
        ensures
            final(self).frame == frame,
            final(self).frame_timer == old(self).frame_timer,
            changed == (frame != old(self).frame),
    {
        let changed = frame != self.frame;
        self.frame = frame;
        changed
    }

    /// Advances the animation by one tick; says whether the frame changed
    /// over to the next one.
    pub fn tick(&mut self, animation: Option<ImageAnimation>) -> (advanced: bool)
        requires
            animation matches Some(a) ==> a.frame_count > 0 && old(self).frame < u32::MAX,
        ensures
            *final(self) == ticked(*old(self), animation),
            advanced == (animation is Some && old(self).frame_timer <= 1),
    {
        match animation {
            Some(a) => {
                self.frame_timer = self.frame_timer.saturating_sub(1);
                if self.frame_timer == 0 {
                    self.frame = (self.frame + 1) % a.frame_count;
                    self.frame_timer = a.frame_time;
                    true
                } else {
                    false
                }
            },
            None => false,
        }
    }
}

/// An animated piece keeps showing one of its image's frames: from a frame
/// of the animation, a tick leads to a frame of the animation again.
pub proof fn law_tick_stays_in_animation(frames: PieceFrames, a: ImageAnimation)
    requires
        a.frame_count > 0,
        frames.frame < a.frame_count,
    ensures
        ticked(frames, Some(a)).frame < a.frame_count,
{
}

/// A removed piece's handle stays dead through the next addition: with
/// `before` a renderer in which `removed` was just removed, the addition
/// that leads to `after` hands out another handle, so `removed` still reads
/// nothing.
pub proof fn law_removed_piece_stays_dead<P>(
    before: EntityRenderer<P>,
    after: EntityRenderer<P>,
    removed: EntityPieceHandle,
    added: EntityPieceHandle,
)
    requires
        retired(before.batch_slots(), removed),
        !retired(before.batch_slots(), added),
        forall|o: EntityPieceHandle| o != added ==> #[trigger] after.piece(o) == before.piece(o),
    ensures
        added != removed,
        before.piece(removed) is None,
        after.piece(removed) is None,
{
    assert(after.piece(removed) == before.piece(removed));
}

} // verus!
