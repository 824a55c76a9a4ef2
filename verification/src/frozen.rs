//! The frozen form of a constraint system: the padded trace together with
//! the fully resolved witness, as the proving backend consumes them.

use vstd::prelude::*;
use vstd::arithmetic::power2::is_pow2;
use crate::arena::{Arena, SlotKind, SlotModel};
use crate::builder::{Geometry, GateConfiguration, configuration_checked};
use crate::error::CsError;
use crate::field::{FieldValue, values_of};
use crate::gate::{Gate, Placement};
use crate::place::Place;
use crate::witness::{fully_resolved, gate_holds, trace_within};

verus! {

/// The places that the trace makes public, in the order of their binding.
pub open spec fn public_places(trace: Seq<Placement>) -> Seq<Place>
    decreases trace.len(),
{
    if trace.len() == 0 {
        Seq::empty()
    } else {
        let before = public_places(trace.drop_last());
        match trace.last().gate {
            Gate::PublicInput { place } => before.push(place),
            _ => before,
        }
    }
}

/// The values of the places that the trace makes public, in the order of
/// their binding.
pub open spec fn public_values(table: Seq<SlotModel>, trace: Seq<Placement>) -> Seq<int> {
    let places = public_places(trace);
    Seq::new(places.len(), |i: int| table[places[i]@ as int].value.unwrap())
}

/// A place made public by a trace is touched by a row of the trace.
pub proof fn lemma_public_places_within(trace: Seq<Placement>, len: nat)
    requires
        trace_within(trace, len),
    ensures
        forall|i: int|
            0 <= i < public_places(trace).len() ==> (#[trigger] public_places(trace)[i])@ < len,
    decreases trace.len(),
{
    if trace.len() > 0 {
        let front = trace.drop_last();
        assert forall|i: int| 0 <= i < front.len() implies (#[trigger] front[i]).gate.within(
            len,
        ) by {
            assert(front[i] == trace[i]);
        }
        lemma_public_places_within(front, len);
        assert(trace[trace.len() - 1].gate.within(len));
        let places = public_places(trace);
        assert forall|i: int| 0 <= i < places.len() implies (#[trigger] places[i])@ < len by {
            if i < public_places(front).len() {
                assert(places[i] == public_places(front)[i]);
            }
        }
    }
}

/// The values of `places` in a table that has resolved each of them.
pub fn values_at(table: &Arena, places: &Vec<Place>) -> (values: Vec<FieldValue>)
    requires
        forall|j: int|
            0 <= j < places@.len() ==> (#[trigger] places@[j])@ < table@.len()
                && table@[places@[j]@ as int].value is Some,
    ensures
        values_of(values@) == Seq::new(
            places@.len(),
            |i: int| table@[places@[i]@ as int].value.unwrap(),
        ),
{
    let mut values: Vec<FieldValue> = Vec::new();
    let mut k: usize = 0;
    while k < places.len()
        invariant
            k <= places@.len(),
            forall|j: int|
                0 <= j < places@.len() ==> (#[trigger] places@[j])@ < table@.len()
                    && table@[places@[j]@ as int].value is Some,
            values@.len() == k,
            forall|j: int|
                0 <= j < k ==> (#[trigger] values@[j])@ == table@[places@[j]@ as int].value.unwrap(),
        decreases places@.len() - k,
    {
        let place = places[k];
        assert(table@[places@[k as int]@ as int].value is Some);
        match table.resolve(place) {
            Ok(v) => {
                values.push(v);
            },
            Err(_) => {},
        }
        k += 1;
    }
    assert(values_of(values@) =~= Seq::new(
        places@.len(),
        |i: int| table@[places@[i]@ as int].value.unwrap(),
    ));
    values
}

/// A frozen system as the contracts see it.
pub ghost struct FrozenModel {
    pub geometry: Geometry,
    pub configuration: Seq<GateConfiguration>,
    pub trace: Seq<Placement>,
    pub slots: Seq<SlotModel>,
    pub public_inputs: Seq<int>,
}

/// The trace has a power of two of rows, every place has its value, the
/// relation of every row holds, and the public inputs are the values of the
/// places that the trace makes public.
pub open spec fn frozen_wf(f: FrozenModel) -> bool {
    &&& configuration_checked(f.geometry, f.configuration) is Ok
    &&& is_pow2(f.trace.len() as int)
    &&& trace_within(f.trace, f.slots.len())
    &&& fully_resolved(f.slots)
    &&& forall|i: int| 0 <= i < f.trace.len() ==> gate_holds(f.slots, (#[trigger] f.trace[i]).gate)
    &&& f.public_inputs == public_values(f.slots, f.trace)
}

/// A constraint system after its one-way transition out of construction:
/// nothing in it can change any more.
#[derive(Debug)]
pub struct FrozenSystem {
    geometry: Geometry,
    configuration: Vec<GateConfiguration>,
    trace: Vec<Placement>,
    table: Arena,
    public_inputs: Vec<FieldValue>,
}

impl View for FrozenSystem {
    type V = FrozenModel;

    closed spec fn view(&self) -> FrozenModel {
        FrozenModel {
            geometry: self.geometry,
            configuration: self.configuration@,
            trace: self.trace@,
            slots: self.table@,
            public_inputs: values_of(self.public_inputs@),
        }
    }
}

impl FrozenSystem {
    /// The system's parts are consistent with each other: `frozen_wf`.
    pub closed spec fn wf(&self) -> bool {
        &&& self.table.wf()
        &&& frozen_wf(self@)
    }

    /// What `wf` says of the model.
    pub proof fn lemma_wf(&self)
        requires
            self.wf(),
        ensures
            frozen_wf(self@),
    {
    }

    pub(crate) fn new(
        geometry: Geometry,
        configuration: Vec<GateConfiguration>,
        trace: Vec<Placement>,
        table: Arena,
        public_inputs: Vec<FieldValue>,
    ) -> (f: FrozenSystem)
        requires
            table.wf(),
            frozen_wf(
                FrozenModel {
                    geometry,
                    configuration: configuration@,
                    trace: trace@,
                    slots: table@,
                    public_inputs: values_of(public_inputs@),
                },
            ),
        ensures
            f.wf(),
            f@ == (FrozenModel {
                geometry,
                configuration: configuration@,
                trace: trace@,
                slots: table@,
                public_inputs: values_of(public_inputs@),
            }),
    {
        FrozenSystem { geometry, configuration, trace, table, public_inputs }
    }

    /// The geometry the system was built under.
    pub fn geometry(&self) -> (g: Geometry)
        ensures
            g == self@.geometry,
    {
        self.geometry
    }

    /// The circuit configuration the system was built under.
    pub fn configuration(&self) -> (c: &Vec<GateConfiguration>)
        ensures
            c@ == self@.configuration,
    {
        &self.configuration
    }

    /// The padded trace.
    pub fn trace(&self) -> (t: &Vec<Placement>)
        ensures
            t@ == self@.trace,
    {
        &self.trace
    }

    /// The number of places.
    pub fn num_places(&self) -> (n: usize)
        ensures
            n == self@.slots.len(),
    {
        self.table.len()
    }

    /// What the slot at `place` carries; `None` for a place that the
    /// system does not have.
    pub fn kind(&self, place: Place) -> (k: Option<SlotKind>)
        ensures
            k == if place@ < self@.slots.len() {
                Some(self@.slots[place@ as int].kind)
            } else {
                None
            },
    {
        self.table.kind(place)
    }

    /// The public inputs, in the order of their binding.
    pub fn public_inputs(&self) -> (p: &Vec<FieldValue>)
        ensures
            values_of(p@) == self@.public_inputs,
    {
        &self.public_inputs
    }

    /// The value of `place`; `UnknownPlace` for a place that the system
    /// does not have.
    pub fn value(&self, place: Place) -> (r: Result<FieldValue, CsError>)
        requires
            self.wf(),
        ensures
            match r {
                Ok(v) => place@ < self@.slots.len() && self@.slots[place@ as int].value == Some(
                    v@,
                ),
                Err(e) => e == CsError::UnknownPlace && place@ >= self@.slots.len(),
            },
    {
        let r = self.table.resolve(place);
        proof {
            if place@ < self@.slots.len() {
                assert(self@.slots[place@ as int].value is Some);
            }
        }
        r
    }
}

} // verus!
