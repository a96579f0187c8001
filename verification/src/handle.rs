//! Handles and the table that owns the objects they name.
//!
//! The table is an arena of slots. A handle is a slot's number together with
//! the generation of the object that the slot held when the handle was given
//! out. A slot's generation grows each time the slot is filled again, so a
//! handle is given out once only: after its object is destroyed it names
//! nothing, for good.

use vstd::prelude::*;
use crate::error::BridgeError;

verus! {

/// The raw value that names no object.
pub const NULL_HANDLE: i64 = 0;

/// The largest generation that a slot can reach. It keeps a handle's raw
/// value within the positive range of `i64`.
pub const MAX_GENERATION: u32 = 0x7fff_ffff;

/// The largest number of slots of a table.
pub const MAX_SLOTS: usize = 0xffff_ffff;

/// The name of one object of a [`HandleTable`].
#[derive(Clone, Copy, Debug, PartialEq, Eq, Structural)]
pub struct Handle {
    /// The number of the slot that holds the object.
    pub slot: u32,
    /// The generation of the object within its slot.
    pub generation: u32,
}

impl Handle {
    /// Only a handle with a generation from 1 to [`MAX_GENERATION`] is ever
    /// given out.
    pub open spec fn valid(self) -> bool {
        1 <= self.generation <= MAX_GENERATION
    }

    /// The integer that stands for the handle outside the bridge: the
    /// generation in the upper 32 bits, the slot in the lower.
    pub open spec fn raw(self) -> int {
        self.generation * 0x1_0000_0000 + self.slot
    }

    /// The integer that stands for the handle outside the bridge. It is
    /// positive, so it is never [`NULL_HANDLE`].
    pub fn to_raw(self) -> (r: i64)
        requires
            self.valid(),
        ensures
            r == self.raw(),
            r > 0,
    {
        let upper: i64 = self.generation as i64;
        let lower: i64 = self.slot as i64;
        upper * 0x1_0000_0000 + lower
    }

    /// The handle that the integer `raw` stands for, if it stands for one:
    /// the integers below 2^32, [`NULL_HANDLE`] among them, stand for none.
    pub open spec fn decoded(raw: int) -> Option<Handle> {
        if 0x1_0000_0000 <= raw <= i64::MAX {
            Some(
                Handle {
                    slot: (raw % 0x1_0000_0000) as u32,
                    generation: (raw / 0x1_0000_0000) as u32,
                },
            )
        } else {
            None
        }
    }

    /// The handle that the integer `raw` stands for, if it stands for one.
    pub fn from_raw(raw: i64) -> (r: Option<Handle>)
        ensures
            r == Handle::decoded(raw as int),
    {
        if raw < 0x1_0000_0000 {
            return None;
        }
        let bits: u64 = raw as u64;
        let generation: u64 = bits / 0x1_0000_0000;
        let slot: u64 = bits % 0x1_0000_0000;
        Some(Handle { slot: slot as u32, generation: generation as u32 })
    }
}

/// The integer of a valid handle stands for that handle, and an integer
/// stands for valid handles only.
pub proof fn lemma_decoded(h: Handle, raw: int)
    ensures
        h.valid() ==> Handle::decoded(h.raw()) == Some(h),
        Handle::decoded(raw) == Some(h) ==> h.valid() && h.raw() == raw,
{
}

/// One slot of the arena.
struct Slot<T> {
    /// The generation of the object that the slot holds or held last; 0 for
    /// a slot that was never filled.
    generation: u32,
    /// The object, while it is alive.
    value: Option<T>,
}

/// The table that owns every object that a handle names.
pub struct HandleTable<T> {
    slots: Vec<Slot<T>>,
    /// The numbers of the empty slots that can be filled again.
    free: Vec<u32>,
}

impl<T> View for HandleTable<T> {
    type V = Map<Handle, T>;

    /// The live handles, each with the object that it names.
    closed spec fn view(&self) -> Map<Handle, T> {
        Map::new(
            |h: Handle|
                h.slot < self.slots@.len() && h.generation == self.slots@[h.slot as int].generation
                    && self.slots@[h.slot as int].value is Some,
            |h: Handle| self.slots@[h.slot as int].value->Some_0,
        )
    }
}

impl<T> HandleTable<T> {
    /// The handle was given out at some time, whether its object is still
    /// alive or not.
    pub closed spec fn issued(&self, h: Handle) -> bool {
        h.slot < self.slots@.len() && 1 <= h.generation <= self.slots@[h.slot as int].generation
    }

    /// The handle names a live object.
    pub open spec fn live(&self, h: Handle) -> bool {
        self@.contains_key(h)
    }

    /// The number of slots that the table has made so far.
    pub closed spec fn slot_count(&self) -> nat {
        self.slots@.len()
    }

    /// The number of empty slots that can be filled again.
    pub closed spec fn reusable(&self) -> nat {
        self.free@.len()
    }

    /// No further handle can be given out: no empty slot can be filled
    /// again, and no slot can be added.
    pub open spec fn is_full(&self) -> bool {
        self.reusable() == 0 && self.slot_count() >= MAX_SLOTS
    }

    /// The invariant of the table.
    pub closed spec fn wf(&self) -> bool {
        &&& self.slots@.len() <= MAX_SLOTS
        &&& forall|i: int|
            0 <= i < self.slots@.len() ==> (#[trigger] self.slots@[i]).generation <= MAX_GENERATION
        &&& forall|i: int|
            0 <= i < self.slots@.len() && (#[trigger] self.slots@[i]).value is Some
                ==> self.slots@[i].generation >= 1
        &&& forall|k: int|
            0 <= k < self.free@.len() ==> {
                &&& (#[trigger] self.free@[k]) < self.slots@.len()
                &&& self.slots@[self.free@[k] as int].value is None
                &&& self.slots@[self.free@[k] as int].generation < MAX_GENERATION
            }
        &&& forall|k: int, l: int|
            0 <= k < l < self.free@.len() ==> #[trigger] self.free@[k] != #[trigger] self.free@[l]
    }

    /// Every live handle was given out, and every handle given out is valid.
    pub proof fn lemma_live_issued(&self, h: Handle)
        requires
            self.wf(),
        ensures
            self.live(h) ==> self.issued(h),
            self.issued(h) ==> h.valid(),
    {
    }

    /// A table without objects.
    pub fn new() -> (r: HandleTable<T>)
        ensures
            r.wf(),
            r@ == Map::<Handle, T>::empty(),
            forall|h: Handle| !r.issued(h),
            r.slot_count() == 0,
            r.reusable() == 0,
    {
        let r = HandleTable { slots: Vec::new(), free: Vec::new() };
        assert(r@ =~= Map::<Handle, T>::empty());
        r
    }

    /// Takes ownership of `value` and gives out the handle that names it
    /// from now on. The handle was never given out before. The call fails
    /// with [`BridgeError::NativeFault`], and changes nothing, exactly when
    /// the table is full.
    pub fn create(&mut self, value: T) -> (r: Result<Handle, BridgeError>)
        requires
            old(self).wf(),
        ensures
            final(self).wf(),
            match r {
                Ok(h) => {
                    &&& !old(self).is_full()
                    &&& h.valid()
                    &&& !old(self).issued(h)
                    &&& final(self)@ == old(self)@.insert(h, value)
                    &&& forall|g: Handle|
                        final(self).issued(g) <==> old(self).issued(g) || g == h
                },
                Err(e) => {
                    &&& old(self).is_full()
                    &&& e == BridgeError::NativeFault
                    &&& final(self)@ == old(self)@
                    &&& forall|g: Handle| final(self).issued(g) <==> old(self).issued(g)
                },
            },
            r is Ok && old(self).reusable() > 0 ==> final(self).reusable() == old(self).reusable()
                - 1 && final(self).slot_count() == old(self).slot_count(),
            r is Ok && old(self).reusable() == 0 ==> final(self).reusable() == 0
                && final(self).slot_count() == old(self).slot_count() + 1,
            r is Err ==> final(self).reusable() == old(self).reusable()
                && final(self).slot_count() == old(self).slot_count(),
    {
        match self.free.pop() {
            Some(slot) => {
                let i: usize = slot as usize;
                assert(old(self).free@[old(self).free@.len() - 1] == slot);
                let generation: u32 = self.slots[i].generation + 1;
                self.slots[i].generation = generation;
                self.slots[i].value = Some(value);
                let h = Handle { slot, generation };
                proof {
                    assert forall|k: int| 0 <= k < self.free@.len() implies (#[trigger] self.free@[k])
                        != slot by {
                        assert(old(self).free@[k] == self.free@[k]);
                    }
                    assert(self@ =~= old(self)@.insert(h, value));
                }
                Ok(h)
            },
            None => {
                if self.slots.len() >= MAX_SLOTS {
                    return Err(BridgeError::NativeFault);
                }
                let slot: u32 = self.slots.len() as u32;
                self.slots.push(Slot { generation: 1, value: Some(value) });
                let h = Handle { slot, generation: 1 };
                proof {
                    assert(self@ =~= old(self)@.insert(h, value));
                }
                Ok(h)
            },
        }
    }

    /// The object that `h` names. The call fails with
    /// [`BridgeError::UseAfterFree`] exactly when `h` names no live object.
    pub fn resolve(&self, h: Handle) -> (r: Result<&T, BridgeError>)
        requires
            self.wf(),
        ensures
            match r {
                Ok(v) => self.live(h) && *v == self@[h],
                Err(e) => !self.live(h) && e == BridgeError::UseAfterFree,
            },
    {
        let i: usize = h.slot as usize;
        if i >= self.slots.len() || self.slots[i].generation != h.generation {
            return Err(BridgeError::UseAfterFree);
        }
        match &self.slots[i].value {
            Some(v) => Ok(v),
            None => Err(BridgeError::UseAfterFree),
        }
    }

    /// Removes the object that `h` names from the table and hands it back.
    /// From then on `h` names nothing. The call fails with
    /// [`BridgeError::UseAfterFree`], and changes nothing, exactly when `h`
    /// names no live object.
    pub fn destroy(&mut self, h: Handle) -> (r: Result<T, BridgeError>)
        requires
            old(self).wf(),
        ensures
            final(self).wf(),
            forall|g: Handle| final(self).issued(g) <==> old(self).issued(g),
            final(self).slot_count() == old(self).slot_count(),
            match r {
                Ok(v) => {
                    &&& old(self).live(h)
                    &&& v == old(self)@[h]
                    &&& final(self)@ == old(self)@.remove(h)
                    &&& final(self).reusable() == old(self).reusable() + if h.generation
                        < MAX_GENERATION {
                        1nat
                    } else {
                        0nat
                    }
                },
                Err(e) => {
                    &&& !old(self).live(h)
                    &&& e == BridgeError::UseAfterFree
                    &&& final(self)@ == old(self)@
                    &&& final(self).reusable() == old(self).reusable()
                },
            },
    {
        let i: usize = h.slot as usize;
        if i >= self.slots.len() || self.slots[i].generation != h.generation {
            return Err(BridgeError::UseAfterFree);
        }
        match self.slots[i].value.take() {
            Some(v) => {
                if h.generation < MAX_GENERATION {
                    self.free.push(h.slot);
                }
                proof {
                    assert(self@ =~= old(self)@.remove(h));
                }
                Ok(v)
            },
            None => {
                proof {
                    assert(self.slots@ =~= old(self).slots@);
                    assert(self@ =~= old(self)@);
                }
                Err(BridgeError::UseAfterFree)
            },
        }
    }
    /// The object that `h` names, for changing it in place. Whatever the
    /// caller makes of the object, `h` goes on naming it, and nothing else in
    /// the table changes. The call fails with [`BridgeError::UseAfterFree`],
    /// and changes nothing, exactly when `h` names no live object.
    pub fn resolve_mut(&mut self, h: Handle) -> (r: Result<&mut T, BridgeError>)
        requires
            old(self).wf(),
        ensures
            final(self).wf(),
            forall|g: Handle| final(self).issued(g) <==> old(self).issued(g),
            final(self).slot_count() == old(self).slot_count(),
            final(self).reusable() == old(self).reusable(),
            match r {
                Ok(v) => {
                    &&& old(self).live(h)
                    &&& *v == old(self)@[h]
                    &&& final(self)@ == old(self)@.insert(h, *final(v))
                },
                Err(e) => {
                    &&& !old(self).live(h)
                    &&& e == BridgeError::UseAfterFree
                    &&& final(self)@ == old(self)@
                },
            },
    {
        let i: usize = h.slot as usize;
        if i >= self.slots.len() || self.slots[i].generation != h.generation {
            return Err(BridgeError::UseAfterFree);
        }
        match &mut self.slots[i].value {
            Some(v) => Ok(v),
            None => Err(BridgeError::UseAfterFree),
        }
    }
}

} // verus!
