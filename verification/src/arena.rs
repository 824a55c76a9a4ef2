//! The variable arena: the growable store of variable and constant slots.

use vstd::prelude::*;
use crate::error::CsError;
use crate::field::FieldValue;
use crate::place::Place;

verus! {

/// What a slot carries.
#[derive(Clone, Copy, Debug, PartialEq, Eq, Structural)]
pub enum SlotKind {
    /// A witness value, given at allocation or resolved by a gate.
    Variable,
    /// A fixed value, held once per arena.
    Constant,
}

/// One slot of an arena as the contracts see it.
pub ghost struct SlotModel {
    pub kind: SlotKind,
    pub value: Option<int>,
}

#[derive(Clone, Copy, Debug)]
struct Slot {
    kind: SlotKind,
    value: Option<FieldValue>,
}

impl View for Slot {
    type V = SlotModel;

    closed spec fn view(&self) -> SlotModel {
        SlotModel {
            kind: self.kind,
            value: match self.value {
                Some(v) => Some(v@),
                None => None,
            },
        }
    }
}

/// The slot is the constant of value `v`.
pub open spec fn is_constant(slot: SlotModel, v: int) -> bool {
    slot.kind == SlotKind::Constant && slot.value == Some(v)
}

/// Every constant has its value, and no value is held by two constants.
pub open spec fn slots_wf(slots: Seq<SlotModel>) -> bool {
    &&& forall|i: int|
        0 <= i < slots.len() && (#[trigger] slots[i]).kind == SlotKind::Constant
            ==> slots[i].value is Some
    &&& forall|i: int, j: int|
        0 <= i < j < slots.len() && (#[trigger] slots[i]).kind == SlotKind::Constant && (
        #[trigger] slots[j]).kind == SlotKind::Constant ==> slots[i].value != slots[j].value
}

/// Some slot is the constant of value `v`.
pub open spec fn has_constant(slots: Seq<SlotModel>, v: int) -> bool {
    exists|i: int| 0 <= i < slots.len() && is_constant(#[trigger] slots[i], v)
}

/// The position of the constant of value `v`, where there is one.
pub open spec fn constant_position(slots: Seq<SlotModel>, v: int) -> Option<nat> {
    if has_constant(slots, v) {
        Some((choose|i: int| 0 <= i < slots.len() && is_constant(#[trigger] slots[i], v)) as nat)
    } else {
        None
    }
}

/// The slots after a constant of value `v` was asked for, and the position
/// that was handed out: the position of the constant that is already there, or
/// the next free one while the arena has room.
pub open spec fn constant_allocated(slots: Seq<SlotModel>, capacity: nat, v: int) -> (
    Seq<SlotModel>,
    Result<nat, CsError>,
) {
    match constant_position(slots, v) {
        Some(i) => (slots, Ok(i)),
        None => if slots.len() < capacity {
            (slots.push(SlotModel { kind: SlotKind::Constant, value: Some(v) }), Ok(slots.len()))
        } else {
            (slots, Err(CsError::CapacityExceeded))
        },
    }
}

/// In well-formed slots a constant's position is the only one that holds it.
pub proof fn lemma_constant_position_unique(slots: Seq<SlotModel>, v: int, i: int)
    requires
        slots_wf(slots),
        0 <= i < slots.len(),
        is_constant(slots[i], v),
    ensures
        constant_position(slots, v) == Some(i as nat),
{
    let j = choose|j: int| 0 <= j < slots.len() && is_constant(#[trigger] slots[j], v);
    if j < i {
        assert(slots[j].value != slots[i].value);
    } else if i < j {
        assert(slots[i].value != slots[j].value);
    }
}

/// Asking twice for a constant of one value hands out one place, and the
/// second request leaves the arena as the first left it.
pub proof fn lemma_constant_allocation_idempotent(slots: Seq<SlotModel>, capacity: nat, v: int)
    requires
        slots_wf(slots),
    ensures
        ({
            let first = constant_allocated(slots, capacity, v);
            let second = constant_allocated(first.0, capacity, v);
            &&& slots_wf(first.0)
            &&& first.1 is Ok ==> second == first
        }),
{
    let first = constant_allocated(slots, capacity, v);
    if first.1 is Ok {
        let i = first.1->Ok_0 as int;
        lemma_constant_allocated_holds(slots, capacity, v);
        lemma_constant_position_unique(first.0, v, i);
    } else {
        assert(first.0 == slots);
    }
    lemma_constant_allocated_holds(slots, capacity, v);
}

/// What a request for a constant leaves behind: well-formed slots that extend
/// the old ones, with the constant at the position handed out.
pub proof fn lemma_constant_allocated_holds(slots: Seq<SlotModel>, capacity: nat, v: int)
    requires
        slots_wf(slots),
    ensures
        ({
            let after = constant_allocated(slots, capacity, v);
            &&& slots_wf(after.0)
            &&& slots.len() <= after.0.len() <= slots.len() + 1
            &&& after.0.subrange(0, slots.len() as int) == slots
            &&& after.1 matches Ok(i) ==> i < after.0.len() && is_constant(after.0[i as int], v)
            &&& after.1 is Err ==> after.0 == slots
        }),
{
    let after = constant_allocated(slots, capacity, v);
    match constant_position(slots, v) {
        Some(i) => {
            assert(after.0.subrange(0, slots.len() as int) == slots);
        },
        None => {
            if slots.len() < capacity {
                let added = SlotModel { kind: SlotKind::Constant, value: Some(v) };
                assert(after.0 == slots.push(added));
                assert(after.0.subrange(0, slots.len() as int) == slots);
                assert forall|i: int, j: int|
                    0 <= i < j < after.0.len() && (#[trigger] after.0[i]).kind
                        == SlotKind::Constant && (#[trigger] after.0[j]).kind
                        == SlotKind::Constant implies after.0[i].value != after.0[j].value by {
                    if j == slots.len() {
                        assert(after.0[i] == slots[i]);
                        assert(!is_constant(slots[i], v));
                    } else {
                        assert(after.0[i] == slots[i]);
                        assert(after.0[j] == slots[j]);
                    }
                }
                assert forall|i: int|
                    0 <= i < after.0.len() && (#[trigger] after.0[i]).kind
                        == SlotKind::Constant implies after.0[i].value is Some by {
                    if i < slots.len() {
                        assert(after.0[i] == slots[i]);
                    }
                }
            } else {
                assert(after.0.subrange(0, slots.len() as int) == slots);
            }
        },
    }
}

/// Constants of different values are handed different places.
pub proof fn lemma_distinct_constants_distinct_places(
    slots: Seq<SlotModel>,
    capacity: nat,
    v: int,
    w: int,
)
    requires
        slots_wf(slots),
        v != w,
    ensures
        ({
            let first = constant_allocated(slots, capacity, v);
            let second = constant_allocated(first.0, capacity, w);
            first.1 is Ok && second.1 is Ok ==> first.1 != second.1
        }),
{
    let first = constant_allocated(slots, capacity, v);
    let second = constant_allocated(first.0, capacity, w);
    lemma_constant_allocated_holds(slots, capacity, v);
    lemma_constant_allocated_holds(first.0, capacity, w);
    if first.1 is Ok && second.1 is Ok {
        let i = first.1->Ok_0 as int;
        let j = second.1->Ok_0 as int;
        if i == j {
            if j < first.0.len() {
                assert(second.0.subrange(0, first.0.len() as int)[j] == second.0[j]);
                assert(is_constant(first.0[i], v));
                assert(is_constant(first.0[j], w));
            } else {
                assert(false);
            }
        }
    }
}

/// Slots stay well-formed under a change that leaves every constant where
/// and as it was and makes no new one.
pub proof fn lemma_constants_kept(before: Seq<SlotModel>, after: Seq<SlotModel>)
    requires
        slots_wf(before),
        forall|i: int|
            0 <= i < after.len() && (#[trigger] after[i]).kind == SlotKind::Constant ==> i
                < before.len() && after[i] == before[i],
    ensures
        slots_wf(after),
{
    assert forall|i: int, j: int|
        0 <= i < j < after.len() && (#[trigger] after[i]).kind == SlotKind::Constant && (
        #[trigger] after[j]).kind == SlotKind::Constant implies after[i].value
        != after[j].value by {
        assert(after[i] == before[i]);
        assert(after[j] == before[j]);
    }
}

/// The store of a circuit's slots. Slots are only ever added, so a place, once
/// issued, names the same slot for as long as the arena lives.
#[derive(Debug)]
pub struct Arena {
    slots: Vec<Slot>,
    capacity: usize,
}

impl View for Arena {
    type V = Seq<SlotModel>;

    /// The slots in the order of their allocation.
    closed spec fn view(&self) -> Seq<SlotModel> {
        Seq::new(self.slots@.len(), |i: int| self.slots@[i]@)
    }
}

impl Arena {
    /// The number of slots the arena was made for.
    pub closed spec fn spec_capacity(&self) -> nat {
        self.capacity as nat
    }

    /// The arena is within its capacity and its slots are well-formed.
    pub closed spec fn wf(&self) -> bool {
        &&& self.slots@.len() <= self.capacity
        &&& slots_wf(self@)
    }

    /// A well-formed arena is within its capacity, which fits the machine.
    pub proof fn lemma_wf(&self)
        requires
            self.wf(),
        ensures
            self@.len() <= self.spec_capacity() <= usize::MAX,
            slots_wf(self@),
    {
    }

    /// An empty arena with room for `capacity` slots.
    pub fn new(capacity: usize) -> (arena: Arena)
        ensures
            arena.wf(),
            arena@ == Seq::<SlotModel>::empty(),
            arena.spec_capacity() == capacity,
    {
        Arena { slots: Vec::new(), capacity }
    }

    /// A copy of the arena, slot for slot.
    pub fn duplicate(&self) -> (copy: Arena)
        ensures
            copy@ == self@,
            copy.spec_capacity() == self.spec_capacity(),
            self.wf() ==> copy.wf(),
    {
        let mut slots: Vec<Slot> = Vec::new();
        let mut i: usize = 0;
        while i < self.slots.len()
            invariant
                i <= self.slots@.len(),
                slots@ == self.slots@.subrange(0, i as int),
            decreases self.slots@.len() - i,
        {
            slots.push(self.slots[i]);
            assert(slots@ == self.slots@.subrange(0, i + 1));
            i += 1;
        }
        assert(slots@ == self.slots@);
        Arena { slots, capacity: self.capacity }
    }

    /// The number of slots allocated so far.
    pub fn len(&self) -> (n: usize)
        ensures
            n == self@.len(),
    {
        self.slots.len()
    }

    /// The number of slots the arena was made for.
    pub fn capacity(&self) -> (n: usize)
        ensures
            n == self.spec_capacity(),
    {
        self.capacity
    }

    /// Whether the arena has issued `place`.
    pub fn contains(&self, place: Place) -> (b: bool)
        ensures
            b == (place@ < self@.len()),
    {
        place.index() < self.slots.len()
    }

    /// What the slot at `place` carries; `None` for a place that the arena
    /// has not issued.
    pub fn kind(&self, place: Place) -> (k: Option<SlotKind>)
        ensures
            k == if place@ < self@.len() {
                Some(self@[place@ as int].kind)
            } else {
                None
            },
    {
        if place.index() < self.slots.len() {
            Some(self.slots[place.index()].kind)
        } else {
            None
        }
    }

    /// Adds a variable slot, resolved where a witness is given, and issues
    /// its place. Fails with `CapacityExceeded`, changing nothing, when the
    /// arena is full.
    pub fn allocate_variable(&mut self, witness: Option<FieldValue>) -> (r: Result<Place, CsError>)
        requires
            old(self).wf(),
        ensures
            final(self).wf(),
            final(self).spec_capacity() == old(self).spec_capacity(),
            match r {
                Ok(p) => {
                    &&& old(self)@.len() < old(self).spec_capacity()
                    &&& p@ == old(self)@.len()
                    &&& final(self)@ == old(self)@.push(
                        SlotModel {
                            kind: SlotKind::Variable,
                            value: match witness {
                                Some(w) => Some(w@),
                                None => None,
                            },
                        },
                    )
                },
                Err(e) => {
                    &&& e == CsError::CapacityExceeded
                    &&& old(self)@.len() >= old(self).spec_capacity()
                    &&& final(self)@ == old(self)@
                },
            },
    {
        if self.slots.len() >= self.capacity {
            return Err(CsError::CapacityExceeded);
        }
        let place = Place::new(self.slots.len());
        let slot = Slot { kind: SlotKind::Variable, value: witness };
        self.slots.push(slot);
        proof {
            assert(self@ == old(self)@.push(slot@));
            lemma_constants_kept(old(self)@, self@);
        }
        Ok(place)
    }

    /// The place of the constant of value `value`, where the arena holds one.
    pub fn find_constant(&self, value: FieldValue) -> (r: Option<Place>)
        requires
            self.wf(),
        ensures
            match r {
                Some(p) => constant_position(self@, value@) == Some(p@),
                None => constant_position(self@, value@) is None,
            },
    {
        broadcast use FieldValue::lemma_view_injective;

        let mut i: usize = 0;
        while i < self.slots.len()
            invariant
                i <= self.slots@.len(),
                self.wf(),
                forall|j: int| 0 <= j < i ==> !is_constant(#[trigger] self@[j], value@),
            decreases self.slots@.len() - i,
        {
            let slot = self.slots[i];
            assert(self@[i as int] == slot@);
            let hit = match (slot.kind, slot.value) {
                (SlotKind::Constant, Some(v)) => {
                    proof {
                        FieldValue::lemma_view_injective(v, value);
                    }
                    v == value
                },
                _ => false,
            };
            assert(hit == is_constant(self@[i as int], value@));
            if hit {
                proof {
                    lemma_constant_position_unique(self@, value@, i as int);
                }
                return Some(Place::new(i));
            }
            i += 1;
        }
        None
    }

    /// Issues the place of the constant of value `value`: the place issued
    /// for that value before, or that of a new slot. Fails with
    /// `CapacityExceeded`, changing nothing, when a new slot is needed and
    /// the arena is full.
    pub fn allocate_constant(&mut self, value: FieldValue) -> (r: Result<Place, CsError>)
        requires
            old(self).wf(),
        ensures
            final(self).wf(),
            final(self).spec_capacity() == old(self).spec_capacity(),
            ({
                let after = constant_allocated(old(self)@, old(self).spec_capacity(), value@);
                &&& final(self)@ == after.0
                &&& match r {
                    Ok(p) => after.1 == Ok::<nat, CsError>(p@),
                    Err(e) => after.1 == Err::<nat, CsError>(e),
                }
            }),
    {
        proof {
            lemma_constant_allocated_holds(self@, self.spec_capacity(), value@);
        }
        if let Some(place) = self.find_constant(value) {
            return Ok(place);
        }
        if self.slots.len() >= self.capacity {
            return Err(CsError::CapacityExceeded);
        }
        let place = Place::new(self.slots.len());
        let slot = Slot { kind: SlotKind::Constant, value: Some(value) };
        self.slots.push(slot);
        proof {
            assert(self@ == old(self)@.push(slot@));
        }
        Ok(place)
    }

    /// The value of the slot at `place`. Fails with `UnknownPlace` for a
    /// place that the arena has not issued, and with `UnresolvedValue` for a
    /// variable that has no value yet.
    pub fn resolve(&self, place: Place) -> (r: Result<FieldValue, CsError>)
        ensures
            match r {
                Ok(v) => place@ < self@.len() && self@[place@ as int].value == Some(v@),
                Err(e) => if place@ < self@.len() {
                    e == CsError::UnresolvedValue && self@[place@ as int].value is None
                } else {
                    e == CsError::UnknownPlace
                },
            },
    {
        if place.index() >= self.slots.len() {
            return Err(CsError::UnknownPlace);
        }
        match self.slots[place.index()].value {
            Some(v) => Ok(v),
            None => Err(CsError::UnresolvedValue),
        }
    }

    /// Gives the unresolved variable at `place` its value.
    pub(crate) fn bind(&mut self, place: Place, value: FieldValue)
        requires
            old(self).wf(),
            place@ < old(self)@.len(),
            old(self)@[place@ as int].value is None,
        ensures
            final(self).wf(),
            final(self).spec_capacity() == old(self).spec_capacity(),
            final(self)@ == old(self)@.update(
                place@ as int,
                SlotModel { kind: SlotKind::Variable, value: Some(value@) },
            ),
    {
        let slot = Slot { kind: SlotKind::Variable, value: Some(value) };
        let ghost before = self@;
        assert(before[place@ as int].kind == SlotKind::Variable);
        self.slots.set(place.index(), slot);
        proof {
            assert(self@ == before.update(place@ as int, slot@));
            lemma_constants_kept(before, self@);
        }
    }
}

} // verus!
