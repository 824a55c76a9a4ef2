//! The constraint system: the live circuit, from its first allocation to
//! its freezing.

use vstd::prelude::*;
use vstd::arithmetic::power2::is_pow2;
use crate::arena::{Arena, SlotKind, SlotModel, constant_position, slots_wf, lemma_constant_allocated_holds};
use crate::builder::{
    BuilderModel, CsBuilder, GateConfiguration, Geometry, ResolverOptions, build_checked,
    configuration_checked, configured_strategy, lookup_strategy,
};
use crate::error::CsError;
use crate::field::{FieldValue, values_of};
use crate::frozen::{
    FrozenModel, FrozenSystem, lemma_public_places_within, public_places, public_values,
    values_at,
};
use crate::gate::{Gate, GateKind, Placement, PlacementStrategy};
use crate::padding::{lemma_padded_len, next_power_of_two, padded_len};
use crate::place::Place;
use crate::values::{
    evaluates, lemma_constant_placed, lemma_variable_allocated, preserves_values,
};
use crate::witness::{
    evaluate, evaluated, fully_resolved, gate_applied, gate_holds, is_fully_resolved,
    lemma_evaluated_satisfies, trace_within,
};

verus! {

/// A constraint system as the contracts see it.
pub ghost struct CsModel {
    pub geometry: Geometry,
    pub configuration: Seq<GateConfiguration>,
    pub max_trace_len: nat,
    pub capacity: nat,
    pub slots: Seq<SlotModel>,
    pub trace: Seq<Placement>,
    pub frozen: bool,
}

/// The configuration can be built on; arena and trace are within their
/// limits; every row touches places that exist and is laid out by the
/// strategy configured for its kind; a frozen system is padded.
pub open spec fn model_wf(m: CsModel) -> bool {
    &&& configuration_checked(m.geometry, m.configuration) is Ok
    &&& is_pow2(m.max_trace_len as int)
    &&& m.trace.len() <= m.max_trace_len <= usize::MAX
    &&& m.slots.len() <= m.capacity <= usize::MAX
    &&& slots_wf(m.slots)
    &&& trace_within(m.trace, m.slots.len())
    &&& forall|i: int|
        0 <= i < m.trace.len() ==> configured_strategy(
            m.configuration,
            (#[trigger] m.trace[i]).gate.spec_kind(),
        ) == Some(m.trace[i].strategy)
    &&& m.frozen ==> m.trace.len() == m.max_trace_len
}

/// The system that a builder makes: nothing allocated, nothing placed.
pub open spec fn fresh_system(b: BuilderModel, max_variables: nat) -> CsModel {
    CsModel {
        geometry: b.geometry,
        configuration: b.gates,
        max_trace_len: b.max_trace_len,
        capacity: max_variables,
        slots: Seq::empty(),
        trace: Seq::empty(),
        frozen: false,
    }
}

/// The integer that an optional witness stands for.
pub open spec fn witness_of(witness: Option<FieldValue>) -> Option<int> {
    match witness {
        Some(w) => Some(w@),
        None => None,
    }
}

/// The position of the place that an operation issued, or its failure.
pub open spec fn issued(r: Result<Place, CsError>) -> Result<nat, CsError> {
    match r {
        Ok(p) => Ok(p@),
        Err(e) => Err(e),
    }
}

/// The integer that an operation read, or its failure.
pub open spec fn read(r: Result<FieldValue, CsError>) -> Result<int, CsError> {
    match r {
        Ok(v) => Ok(v@),
        Err(e) => Err(e),
    }
}

/// The system after a variable was asked for, and the position issued.
/// A frozen system refuses with `SystemFrozen`, a full arena with
/// `CapacityExceeded`.
pub open spec fn variable_allocated(m: CsModel, witness: Option<int>) -> (
    CsModel,
    Result<nat, CsError>,
) {
    if m.frozen {
        (m, Err(CsError::SystemFrozen))
    } else if m.slots.len() >= m.capacity {
        (m, Err(CsError::CapacityExceeded))
    } else {
        (
            CsModel {
                slots: m.slots.push(SlotModel { kind: SlotKind::Variable, value: witness }),
                ..m
            },
            Ok(m.slots.len()),
        )
    }
}

/// The system after a constant was asked for, and the position issued: that
/// of the constant of this value if there is one, else that of a new slot,
/// which a constant-allocation row binds to the value.
/// A frozen system refuses with `SystemFrozen`; one that does not enable the
/// constant-allocation gate with `GateNotConfigured`; one whose arena or
/// trace has no room for a new constant with `CapacityExceeded`.
pub open spec fn constant_placed(m: CsModel, value: FieldValue) -> (CsModel, Result<nat, CsError>) {
    if m.frozen {
        (m, Err(CsError::SystemFrozen))
    } else {
        match configured_strategy(m.configuration, GateKind::ConstantAllocation) {
            None => (m, Err(CsError::GateNotConfigured)),
            Some(strategy) => match constant_position(m.slots, value@) {
                Some(i) => (m, Ok(i)),
                None => if m.slots.len() >= m.capacity || m.trace.len() >= m.max_trace_len {
                    (m, Err(CsError::CapacityExceeded))
                } else {
                    (
                        CsModel {
                            slots: m.slots.push(
                                SlotModel { kind: SlotKind::Constant, value: Some(value@) },
                            ),
                            trace: m.trace.push(
                                Placement {
                                    gate: Gate::ConstantAllocation {
                                        place: Place::at(m.slots.len()),
                                        value,
                                    },
                                    strategy,
                                },
                            ),
                            ..m
                        },
                        Ok(m.slots.len()),
                    )
                },
            },
        }
    }
}

/// The system after a gate was applied: it is the next row of the
/// trace. A frozen system refuses with `SystemFrozen`; a kind that the
/// configuration does not enable is `GateNotConfigured`; a place that the
/// arena has not issued is `UnknownPlace`; a full trace is
/// `CapacityExceeded`.
pub open spec fn gate_placed(m: CsModel, gate: Gate) -> (CsModel, Result<(), CsError>) {
    if m.frozen {
        (m, Err(CsError::SystemFrozen))
    } else {
        match configured_strategy(m.configuration, gate.spec_kind()) {
            None => (m, Err(CsError::GateNotConfigured)),
            Some(strategy) => if !gate.within(m.slots.len()) {
                (m, Err(CsError::UnknownPlace))
            } else if m.trace.len() >= m.max_trace_len {
                (m, Err(CsError::CapacityExceeded))
            } else {
                (CsModel { trace: m.trace.push(Placement { gate, strategy }), ..m }, Ok(()))
            },
        }
    }
}

/// `n` rows that enforce nothing.
pub open spec fn nop_rows(n: nat, strategy: PlacementStrategy) -> Seq<Placement> {
    Seq::new(n, |i: int| Placement { gate: Gate::Nop, strategy })
}

/// The system after padding: no-op rows fill the trace up to the least
/// power of two that holds it, and the trace's limit shrinks to that length.
/// A frozen system refuses with `SystemFrozen`; rows to add without the
/// no-op gate enabled are `GateNotConfigured`.
pub open spec fn padded(m: CsModel) -> (CsModel, Result<(), CsError>) {
    let target = padded_len(m.trace.len());
    if m.frozen {
        (m, Err(CsError::SystemFrozen))
    } else if target == m.trace.len() {
        (CsModel { max_trace_len: target, ..m }, Ok(()))
    } else {
        match configured_strategy(m.configuration, GateKind::Nop) {
            None => (m, Err(CsError::GateNotConfigured)),
            Some(strategy) => (
                CsModel {
                    trace: m.trace + nop_rows((target - m.trace.len()) as nat, strategy),
                    max_trace_len: target,
                    ..m
                },
                Ok(()),
            ),
        }
    }
}

/// The value of a place once the trace has run: `UnknownPlace` for a place
/// that the arena has not issued, the evaluator's failure if the trace
/// fails, `UnresolvedValue` for a place that is left without a value.
pub open spec fn value_at(m: CsModel, place: Place) -> Result<int, CsError> {
    if place@ >= m.slots.len() {
        Err(CsError::UnknownPlace)
    } else {
        match evaluated(m.slots, m.trace) {
            Err(e) => Err(e),
            Ok(table) => match table[place@ as int].value {
                Some(v) => Ok(v),
                None => Err(CsError::UnresolvedValue),
            },
        }
    }
}

/// The system after freezing, and its frozen form: the padded trace with
/// the table that the trace evaluates to. A frozen system refuses with
/// `SystemFrozen`; padding may fail as in `padded`; the evaluator may fail;
/// a place left without a value is `UnresolvedValue`. A failure leaves the
/// system as it was.
pub open spec fn frozen(m: CsModel) -> (CsModel, Result<FrozenModel, CsError>) {
    let p = padded(m);
    if p.1 is Err {
        (m, Err(p.1->Err_0))
    } else {
        match evaluated(m.slots, m.trace) {
            Err(e) => (m, Err(e)),
            Ok(table) => if !fully_resolved(table) {
                (m, Err(CsError::UnresolvedValue))
            } else {
                (
                    CsModel { frozen: true, ..p.0 },
                    Ok(
                        FrozenModel {
                            geometry: m.geometry,
                            configuration: m.configuration,
                            trace: p.0.trace,
                            slots: table,
                            public_inputs: public_values(table, p.0.trace),
                        },
                    ),
                )
            },
        }
    }
}

/// Rows that enforce nothing make nothing public.
pub proof fn lemma_public_places_nops(trace: Seq<Placement>, n: nat, strategy: PlacementStrategy)
    ensures
        public_places(trace + nop_rows(n, strategy)) == public_places(trace),
    decreases n,
{
    let all = trace + nop_rows(n, strategy);
    if n == 0 {
        assert(all == trace);
    } else {
        assert(all.drop_last() == trace + nop_rows((n - 1) as nat, strategy));
        assert(all.last().gate == Gate::Nop);
        lemma_public_places_nops(trace, (n - 1) as nat, strategy);
    }
}

/// Rows that enforce nothing do not change what a trace evaluates to.
pub proof fn lemma_evaluated_nops(
    table: Seq<SlotModel>,
    trace: Seq<Placement>,
    n: nat,
    strategy: PlacementStrategy,
)
    ensures
        evaluated(table, trace + nop_rows(n, strategy)) == evaluated(table, trace),
    decreases n,
{
    let all = trace + nop_rows(n, strategy);
    if n == 0 {
        assert(all == trace);
    } else {
        assert(all.drop_last() == trace + nop_rows((n - 1) as nat, strategy));
        assert(all.last().gate == Gate::Nop);
        lemma_evaluated_nops(table, trace, (n - 1) as nat, strategy);
    }
}

/// Padding is idempotent: a second padding changes nothing.
pub proof fn lemma_pad_idempotent(m: CsModel)
    requires
        padded(m).1 is Ok,
    ensures
        padded(padded(m).0) == (padded(m).0, Ok::<(), CsError>(())),
{
    lemma_padded_len(m.trace.len());
    let once = padded(m).0;
    assert(once.trace.len() == padded_len(m.trace.len()));
    lemma_padded_len(once.trace.len());
}

/// Padding keeps a well-formed system well-formed, and leaves its values
/// and its public places as they were.
pub proof fn lemma_padded(m: CsModel)
    requires
        model_wf(m),
        padded(m).1 is Ok,
    ensures
        model_wf(padded(m).0),
        evaluated(padded(m).0.slots, padded(m).0.trace) == evaluated(m.slots, m.trace),
        public_places(padded(m).0.trace) == public_places(m.trace),
        padded(m).0.trace.len() == padded(m).0.max_trace_len,
        is_pow2(padded(m).0.trace.len() as int),
{
    let target = padded_len(m.trace.len());
    lemma_padded_len(m.trace.len());
    let after = padded(m).0;
    if target != m.trace.len() {
        let strategy = configured_strategy(m.configuration, GateKind::Nop)->Some_0;
        let n = (target - m.trace.len()) as nat;
        lemma_public_places_nops(m.trace, n, strategy);
        lemma_evaluated_nops(m.slots, m.trace, n, strategy);
        assert forall|i: int| 0 <= i < after.trace.len() implies (#[trigger] after.trace[i]).gate.within(
            after.slots.len(),
        ) && configured_strategy(after.configuration, after.trace[i].gate.spec_kind()) == Some(
            after.trace[i].strategy,
        ) by {
            if i < m.trace.len() {
                assert(after.trace[i] == m.trace[i]);
            }
        }
    }
}

/// The live circuit: an arena, the rows of gates applied so far, and the
/// places made public. It is built on until it is frozen; from then on it
/// can only be read.
#[derive(Debug)]
pub struct ConstraintSystem {
    geometry: Geometry,
    configuration: Vec<GateConfiguration>,
    max_trace_len: usize,
    arena: Arena,
    trace: Vec<Placement>,
    public_inputs: Vec<Place>,
    frozen: bool,
}

impl View for ConstraintSystem {
    type V = CsModel;

    closed spec fn view(&self) -> CsModel {
        CsModel {
            geometry: self.geometry,
            configuration: self.configuration@,
            max_trace_len: self.max_trace_len as nat,
            capacity: self.arena.spec_capacity(),
            slots: self.arena@,
            trace: self.trace@,
            frozen: self.frozen,
        }
    }
}

/// A copy of the elements, in their order.
pub fn copy_of<T: Copy>(elements: &Vec<T>) -> (copy: Vec<T>)
    ensures
        copy@ == elements@,
{
    let mut copy: Vec<T> = Vec::new();
    let mut i: usize = 0;
    while i < elements.len()
        invariant
            i <= elements@.len(),
            copy@ == elements@.subrange(0, i as int),
        decreases elements@.len() - i,
    {
        copy.push(elements[i]);
        assert(copy@ == elements@.subrange(0, i + 1));
        i += 1;
    }
    assert(copy@ == elements@);
    copy
}

impl CsBuilder {
    /// Makes the builder into a constraint system with room for
    /// `options.max_variables` places. Fails, before anything is allocated,
    /// with `DuplicateGateConfiguration` or `InvalidGeometry` as
    /// `build_checked` says.
    pub fn build(self, options: ResolverOptions) -> (r: Result<ConstraintSystem, CsError>)
        ensures
            match r {
                Ok(cs) => {
                    &&& build_checked(self@) is Ok
                    &&& cs.wf()
                    &&& cs@ == fresh_system(self@, options.max_variables as nat)
                },
                Err(e) => build_checked(self@) == Err::<(), CsError>(e),
            },
    {
        match self.check() {
            Err(e) => {
                return Err(e);
            },
            Ok(()) => {},
        }
        let ghost model = self@;
        let (geometry, max_trace_len, configuration) = self.into_parts();
        let cs = ConstraintSystem {
            geometry,
            configuration,
            max_trace_len,
            arena: Arena::new(options.max_variables),
            trace: Vec::new(),
            public_inputs: Vec::new(),
            frozen: false,
        };
        assert(cs@ == fresh_system(model, options.max_variables as nat));
        Ok(cs)
    }
}

impl ConstraintSystem {
    /// The system's parts are consistent with each other: `model_wf`, and
    /// the public places are those that the trace makes public.
    pub closed spec fn wf(&self) -> bool {
        &&& self.arena.wf()
        &&& model_wf(self@)
        &&& self.public_inputs@ == public_places(self.trace@)
    }

    /// What `wf` says of the model.
    pub proof fn lemma_wf(&self)
        requires
            self.wf(),
        ensures
            model_wf(self@),
    {
    }

    /// The geometry the system was built under.
    pub fn geometry(&self) -> (g: Geometry)
        ensures
            g == self@.geometry,
    {
        self.geometry
    }

    /// Whether the system has been frozen.
    pub fn is_frozen(&self) -> (b: bool)
        ensures
            b == self@.frozen,
    {
        self.frozen
    }

    /// The number of places allocated so far.
    pub fn num_places(&self) -> (n: usize)
        ensures
            n == self@.slots.len(),
    {
        self.arena.len()
    }

    /// The number of rows placed so far.
    pub fn trace_len(&self) -> (n: usize)
        ensures
            n == self@.trace.len(),
    {
        self.trace.len()
    }

    /// The most rows the trace can hold.
    pub fn max_trace_len(&self) -> (n: usize)
        ensures
            n == self@.max_trace_len,
    {
        self.max_trace_len
    }

    /// The most places the arena can hold.
    pub fn capacity(&self) -> (n: usize)
        ensures
            n == self@.capacity,
    {
        self.arena.capacity()
    }

    /// The strategy that the configuration lays `kind` out by, where it
    /// enables the kind.
    pub fn strategy_of(&self, kind: GateKind) -> (r: Option<PlacementStrategy>)
        requires
            self.wf(),
        ensures
            r == configured_strategy(self@.configuration, kind),
    {
        lookup_strategy(&self.configuration, kind)
    }

    /// The place of the constant of value `value`, where the system holds
    /// one.
    pub fn find_constant(&self, value: FieldValue) -> (r: Option<Place>)
        requires
            self.wf(),
        ensures
            match r {
                Some(p) => constant_position(self@.slots, value@) == Some(p@),
                None => constant_position(self@.slots, value@) is None,
            },
    {
        self.arena.find_constant(value)
    }

    /// The places made public so far, in the order of their binding.
    pub fn public_inputs(&self) -> (places: &Vec<Place>)
        requires
            self.wf(),
        ensures
            places@ == public_places(self@.trace),
    {
        &self.public_inputs
    }

    fn allocate(&mut self, witness: Option<FieldValue>) -> (r: Result<Place, CsError>)
        requires
            old(self).wf(),
        ensures
            final(self).wf(),
            final(self)@ == variable_allocated(old(self)@, witness_of(witness)).0,
            issued(r) == variable_allocated(old(self)@, witness_of(witness)).1,
    {
        if self.frozen {
            return Err(CsError::SystemFrozen);
        }
        let r = self.arena.allocate_variable(witness);
        proof {
            if r is Ok {
                assert forall|i: int| 0 <= i < self.trace@.len() implies (
                #[trigger] self.trace@[i]).gate.within(self@.slots.len()) by {
                    assert(old(self)@.trace[i].gate.within(old(self)@.slots.len()));
                }
            }
            assert(self@ == variable_allocated(old(self)@, witness_of(witness)).0);
        }
        r
    }

    /// Allocates a variable that carries `value` and issues its place.
    /// Where the trace evaluates, the new place has the value `value` and
    /// every other place keeps its own.
    pub fn alloc_variable_from_witness(&mut self, value: FieldValue) -> (r: Result<Place, CsError>)
        requires
            old(self).wf(),
        ensures
            final(self).wf(),
            final(self)@ == variable_allocated(old(self)@, Some(value@)).0,
            issued(r) == variable_allocated(old(self)@, Some(value@)).1,
            r matches Ok(p) ==> evaluates(old(self)@) ==> {
                &&& preserves_values(old(self)@, final(self)@)
                &&& value_at(final(self)@, p) == Ok::<int, CsError>(value@)
            },
    {
        broadcast use Place::lemma_view_at;

        proof {
            if variable_allocated(self@, Some(value@)).1 is Ok {
                lemma_variable_allocated(self@, Some(value@));
            }
        }
        self.allocate(Some(value))
    }

    /// Allocates a variable whose value a gate is to resolve and issues its
    /// place.
    pub fn alloc_variable_without_value(&mut self) -> (r: Result<Place, CsError>)
        requires
            old(self).wf(),
        ensures
            final(self).wf(),
            final(self)@ == variable_allocated(old(self)@, None).0,
            issued(r) == variable_allocated(old(self)@, None).1,
    {
        self.allocate(None)
    }

    /// Issues the place of the constant of value `value`, the same place
    /// for the same value. Where the trace evaluates, the place has the
    /// value `value` and every other place keeps its own.
    pub fn allocate_constant(&mut self, value: FieldValue) -> (r: Result<Place, CsError>)
        requires
            old(self).wf(),
        ensures
            final(self).wf(),
            final(self)@ == constant_placed(old(self)@, value).0,
            issued(r) == constant_placed(old(self)@, value).1,
            r matches Ok(p) ==> evaluates(old(self)@) ==> {
                &&& preserves_values(old(self)@, final(self)@)
                &&& value_at(final(self)@, p) == Ok::<int, CsError>(value@)
            },
    {
        broadcast use Place::lemma_view_at;

        proof {
            if constant_placed(self@, value).1 is Ok {
                lemma_constant_placed(self@, value);
            }
        }

        if self.frozen {
            return Err(CsError::SystemFrozen);
        }
        let strategy = match lookup_strategy(&self.configuration, GateKind::ConstantAllocation) {
            None => {
                return Err(CsError::GateNotConfigured);
            },
            Some(strategy) => strategy,
        };
        if let Some(place) = self.arena.find_constant(value) {
            return Ok(place);
        }
        if self.arena.len() >= self.arena.capacity() || self.trace.len() >= self.max_trace_len {
            return Err(CsError::CapacityExceeded);
        }
        proof {
            self.arena.lemma_wf();
            lemma_constant_allocated_holds(self.arena@, self.arena.spec_capacity(), value@);
        }
        match self.arena.allocate_constant(value) {
            Ok(place) => {
                let row = Placement { gate: Gate::ConstantAllocation { place, value }, strategy };
                self.trace.push(row);
                proof {
                    assert(self.trace@.drop_last() == old(self).trace@);
                    assert forall|i: int| 0 <= i < self.trace@.len() implies (
                    #[trigger] self.trace@[i]).gate.within(self@.slots.len())
                        && configured_strategy(
                        self@.configuration,
                        self.trace@[i].gate.spec_kind(),
                    ) == Some(self.trace@[i].strategy) by {
                        if i < old(self).trace@.len() {
                            assert(self.trace@[i] == old(self)@.trace[i]);
                            assert(old(self)@.trace[i].gate.within(old(self)@.slots.len()));
                        }
                    }
                    assert(self@ == constant_placed(old(self)@, value).0);
                }
                Ok(place)
            },
            Err(e) => Err(e),
        }
    }

    /// Applies a gate: it becomes the next row of the trace, and a
    /// public-input gate makes its place the next public input. The trace
    /// then evaluates to what this gate makes of the table that the trace
    /// evaluated to before.
    pub fn apply_gate(&mut self, gate: Gate) -> (r: Result<(), CsError>)
        requires
            old(self).wf(),
        ensures
            final(self).wf(),
            final(self)@ == gate_placed(old(self)@, gate).0,
            r == gate_placed(old(self)@, gate).1,
            r is Ok ==> evaluated(final(self)@.slots, final(self)@.trace) == match evaluated(
                old(self)@.slots,
                old(self)@.trace,
            ) {
                Ok(table) => gate_applied(table, gate),
                Err(e) => Err(e),
            },
    {
        if self.frozen {
            return Err(CsError::SystemFrozen);
        }
        let strategy = match lookup_strategy(&self.configuration, gate.kind()) {
            None => {
                return Err(CsError::GateNotConfigured);
            },
            Some(strategy) => strategy,
        };
        if !gate.fits(self.arena.len()) {
            return Err(CsError::UnknownPlace);
        }
        if self.trace.len() >= self.max_trace_len {
            return Err(CsError::CapacityExceeded);
        }
        self.place_row(Placement { gate, strategy });
        assert(self@.trace.drop_last() == old(self)@.trace);
        Ok(())
    }

    fn place_row(&mut self, row: Placement)
        requires
            old(self).wf(),
            !old(self)@.frozen,
            old(self)@.trace.len() < old(self)@.max_trace_len,
            row.gate.within(old(self)@.slots.len()),
            configured_strategy(old(self)@.configuration, row.gate.spec_kind()) == Some(
                row.strategy,
            ),
        ensures
            final(self).wf(),
            final(self)@ == (CsModel { trace: old(self)@.trace.push(row), ..old(self)@ }),
    {
        self.trace.push(row);
        if let Gate::PublicInput { place } = row.gate {
            self.public_inputs.push(place);
        }
        proof {
            assert(self.trace@.drop_last() == old(self).trace@);
            assert forall|i: int| 0 <= i < self.trace@.len() implies (
            #[trigger] self.trace@[i]).gate.within(self@.slots.len()) && configured_strategy(
                self@.configuration,
                self.trace@[i].gate.spec_kind(),
            ) == Some(self.trace@[i].strategy) by {
                if i < old(self).trace@.len() {
                    assert(self.trace@[i] == old(self)@.trace[i]);
                }
            }
        }
    }

    /// Runs the witness evaluator on the system: the table in which every
    /// place that a witness or a gate gives a value is resolved, or the
    /// failure of the first row that fails.
    pub fn evaluate(&self) -> (r: Result<Arena, CsError>)
        requires
            self.wf(),
        ensures
            match r {
                Ok(table) => table.wf() && evaluated(self@.slots, self@.trace) == Ok::<
                    Seq<SlotModel>,
                    CsError,
                >(table@),
                Err(e) => evaluated(self@.slots, self@.trace) == Err::<Seq<SlotModel>, CsError>(
                    e,
                ),
            },
    {
        evaluate(&self.arena, &self.trace)
    }

    /// The value of `place` once the trace has run.
    pub fn get_value(&self, place: Place) -> (r: Result<FieldValue, CsError>)
        requires
            self.wf(),
        ensures
            read(r) == value_at(self@, place),
    {
        if !self.arena.contains(place) {
            return Err(CsError::UnknownPlace);
        }
        match evaluate(&self.arena, &self.trace) {
            Err(e) => Err(e),
            Ok(table) => {
                proof {
                    lemma_evaluated_satisfies(self@.slots, self@.trace);
                }
                match table.resolve(place) {
                    Ok(v) => Ok(v),
                    Err(_) => Err(CsError::UnresolvedValue),
                }
            },
        }
    }

    /// Pads the trace with no-op rows up to the least power of two that
    /// holds it and shrinks the trace's limit to that length. A second call
    /// changes nothing. The values of the places and the public places
    /// stay as they were.
    pub fn pad_and_shrink(&mut self) -> (r: Result<(), CsError>)
        requires
            old(self).wf(),
        ensures
            final(self).wf(),
            final(self)@ == padded(old(self)@).0,
            r == padded(old(self)@).1,
            r is Ok ==> {
                &&& final(self)@.trace.len() == padded_len(old(self)@.trace.len())
                &&& evaluated(final(self)@.slots, final(self)@.trace) == evaluated(
                    old(self)@.slots,
                    old(self)@.trace,
                )
                &&& public_places(final(self)@.trace) == public_places(old(self)@.trace)
            },
    {
        proof {
            if padded(self@).1 is Ok {
                lemma_padded(self@);
            }
        }
        if self.frozen {
            return Err(CsError::SystemFrozen);
        }
        proof {
            lemma_padded_len(self.trace@.len());
        }
        let target = next_power_of_two(self.trace.len());
        if target == self.trace.len() {
            self.max_trace_len = target;
            assert(self@ == padded(old(self)@).0);
            return Ok(());
        }
        let strategy = match lookup_strategy(&self.configuration, GateKind::Nop) {
            None => {
                return Err(CsError::GateNotConfigured);
            },
            Some(strategy) => strategy,
        };
        let ghost before = self@;
        while self.trace.len() < target
            invariant
                self.wf(),
                !self@.frozen,
                before.trace.len() <= self.trace@.len() <= target <= self@.max_trace_len,
                configured_strategy(self@.configuration, GateKind::Nop) == Some(strategy),
                self@ == (CsModel {
                    trace: before.trace + nop_rows(
                        (self.trace@.len() - before.trace.len()) as nat,
                        strategy,
                    ),
                    ..before
                }),
            decreases target - self.trace@.len(),
        {
            let ghost n = (self.trace@.len() - before.trace.len()) as nat;
            self.place_row(Placement { gate: Gate::Nop, strategy });
            assert(self@.trace == before.trace + nop_rows(n + 1, strategy));
        }
        self.max_trace_len = target;
        proof {
            assert(self@ == padded(old(self)@).0);
            lemma_padded(old(self)@);
            lemma_public_places_nops(
                old(self)@.trace,
                (target - old(self)@.trace.len()) as nat,
                strategy,
            );
        }
        Ok(())
    }

    /// Freezes the system: pads it, runs the witness evaluator, and hands
    /// out the frozen form. From then on the system refuses every change
    /// with `SystemFrozen`. A failure leaves the system as it was.
    pub fn into_frozen_form(&mut self) -> (r: Result<FrozenSystem, CsError>)
        requires
            old(self).wf(),
        ensures
            final(self).wf(),
            final(self)@ == frozen(old(self)@).0,
            match r {
                Ok(f) => f.wf() && frozen(old(self)@).1 == Ok::<FrozenModel, CsError>(f@),
                Err(e) => frozen(old(self)@).1 == Err::<FrozenModel, CsError>(e),
            },
    {
        if self.frozen {
            return Err(CsError::SystemFrozen);
        }
        proof {
            lemma_padded_len(self.trace@.len());
        }
        let target = next_power_of_two(self.trace.len());
        if target != self.trace.len() {
            if lookup_strategy(&self.configuration, GateKind::Nop).is_none() {
                return Err(CsError::GateNotConfigured);
            }
        }
        let table = match evaluate(&self.arena, &self.trace) {
            Err(e) => {
                return Err(e);
            },
            Ok(table) => table,
        };
        proof {
            lemma_evaluated_satisfies(self@.slots, self@.trace);
        }
        if !is_fully_resolved(&table) {
            return Err(CsError::UnresolvedValue);
        }
        let padding = self.pad_and_shrink();
        assert(padding is Ok);
        proof {
            lemma_padded(old(self)@);
            lemma_public_places_within(self.trace@, table@.len());
        }
        let public_inputs = values_at(&table, &self.public_inputs);
        self.frozen = true;
        let configuration = copy_of(&self.configuration);
        let trace = copy_of(&self.trace);
        proof {
            assert(values_of(public_inputs@) == public_values(table@, self.trace@));
            assert forall|j: int| 0 <= j < trace@.len() implies gate_holds(
                table@,
                (#[trigger] trace@[j]).gate,
            ) by {
                if j < old(self)@.trace.len() {
                    assert(trace@[j] == old(self)@.trace[j]);
                } else {
                    assert(trace@[j].gate == Gate::Nop);
                }
            }
            assert forall|j: int| 0 <= j < trace@.len() implies (#[trigger] trace@[j]).gate.within(
                table@.len(),
            ) by {
                assert(self@.trace[j].gate.within(self@.slots.len()));
            }
        }
        Ok(FrozenSystem::new(self.geometry, configuration, trace, table, public_inputs))
    }
}

} // verus!
