//! What the operations of a constraint system do to the values of its
//! places.

use vstd::prelude::*;
use crate::arena::{
    SlotKind, SlotModel, constant_position, is_constant, lemma_constant_position_unique,
    lemma_constants_kept,
};
use crate::builder::configured_strategy;
use crate::error::CsError;
use crate::field::FieldValue;
use crate::frozen::{frozen_wf, public_places, public_values};
use crate::gate::{Gate, GateKind, Placement};
use crate::place::Place;
use crate::system::{
    CsModel, constant_placed, frozen, gate_placed, lemma_pad_idempotent, lemma_padded,
    model_wf, padded, value_at, variable_allocated,
};
use crate::witness::{
    evaluated, fully_resolved, gate_applied, gate_holds, lemma_evaluated_push,
    lemma_evaluated_satisfies, trace_within,
};

verus! {

/// The trace of the system evaluates.
pub open spec fn evaluates(m: CsModel) -> bool {
    evaluated(m.slots, m.trace) is Ok
}

/// Every place that has a value in `before` has the same value in `after`.
pub open spec fn preserves_values(before: CsModel, after: CsModel) -> bool {
    forall|p: Place| (#[trigger] value_at(before, p)) is Ok ==> value_at(after, p) == value_at(
        before,
        p,
    )
}

/// The trace of the system evaluates and leaves every place with its
/// value.
pub open spec fn fully_valued(m: CsModel) -> bool {
    evaluates(m) && fully_resolved(evaluated(m.slots, m.trace)->Ok_0)
}

/// The table that the trace of the system evaluates to has the system's
/// slots, each resolved at least as far.
pub proof fn lemma_table(m: CsModel)
    requires
        model_wf(m),
        evaluates(m),
    ensures
        evaluated(m.slots, m.trace)->Ok_0.len() == m.slots.len(),
        crate::witness::resolves_further(m.slots, evaluated(m.slots, m.trace)->Ok_0),
{
    lemma_evaluated_satisfies(m.slots, m.trace);
}

/// The rows of a trace lie within any arena that is at least as long.
pub proof fn lemma_trace_within_longer(trace: Seq<Placement>, len: nat, longer: nat)
    requires
        trace_within(trace, len),
        len <= longer,
    ensures
        trace_within(trace, longer),
{
    assert forall|i: int| 0 <= i < trace.len() implies (#[trigger] trace[i]).gate.within(
        longer,
    ) by {
        assert(trace[i].gate.within(len));
    }
}

/// A system in which every place has its value stays so under an
/// operation that keeps the values and adds at most one place, with its
/// value.
pub proof fn lemma_fully_valued_step(m: CsModel, after: CsModel)
    requires
        model_wf(m),
        model_wf(after),
        fully_valued(m),
        evaluates(after),
        preserves_values(m, after),
        m.slots.len() <= after.slots.len() <= m.slots.len() + 1,
        after.slots.len() == m.slots.len() + 1 ==> value_at(after, Place::at(m.slots.len())) is Ok,
    ensures
        fully_valued(after),
{
    lemma_table(m);
    lemma_table(after);
    let t = evaluated(m.slots, m.trace)->Ok_0;
    let u = evaluated(after.slots, after.trace)->Ok_0;
    assert forall|i: int| 0 <= i < u.len() implies (#[trigger] u[i]).value is Some by {
        Place::lemma_at_view(i as nat);
        let p = Place::at(i as nat);
        if i < t.len() {
            assert(t[i].value is Some);
            assert(value_at(m, p) is Ok);
            assert(value_at(after, p) == value_at(m, p));
        }
    }
}

/// A system in which every place has its value can be frozen once it can
/// be padded, and its public inputs are then the values of its public
/// places.
pub proof fn lemma_fully_valued_freezes(m: CsModel)
    requires
        model_wf(m),
        fully_valued(m),
        padded(m).1 is Ok,
    ensures
        frozen(m).1 is Ok,
        frozen(m).1->Ok_0.public_inputs == public_values(
            evaluated(m.slots, m.trace)->Ok_0,
            m.trace,
        ),
{
    lemma_padded(m);
}

/// What the allocation of a variable leaves behind: a well-formed system
/// with one more slot, in which every place keeps its value and the new
/// place has the witness it was given.
pub proof fn lemma_variable_allocated(m: CsModel, w: Option<int>)
    requires
        model_wf(m),
        variable_allocated(m, w).1 is Ok,
    ensures
        ({
            let after = variable_allocated(m, w).0;
            let place = Place::at(m.slots.len());
            &&& model_wf(after)
            &&& variable_allocated(m, w).1 == Ok::<nat, CsError>(place@)
            &&& after.slots.len() == m.slots.len() + 1
            &&& after.trace == m.trace
            &&& evaluates(m) ==> {
                &&& evaluates(after)
                &&& preserves_values(m, after)
                &&& w matches Some(v) ==> value_at(after, place) == Ok::<int, CsError>(v)
            }
            &&& fully_valued(m) && w is Some ==> fully_valued(after)
        }),
{
    let after = variable_allocated(m, w).0;
    let slot = SlotModel { kind: SlotKind::Variable, value: w };
    Place::lemma_at_view(m.slots.len());
    lemma_trace_within_longer(m.trace, m.slots.len(), after.slots.len());
    lemma_constants_kept(m.slots, after.slots);
    if evaluates(m) {
        lemma_table(m);
        lemma_evaluated_push(m.slots, m.trace, slot);
        let t = evaluated(m.slots, m.trace)->Ok_0;
        assert(evaluated(after.slots, after.trace) == Ok::<Seq<SlotModel>, CsError>(t.push(slot)));
        assert forall|p: Place| (#[trigger] value_at(m, p)) is Ok implies value_at(after, p)
            == value_at(m, p) by {
            assert(t.push(slot)[p@ as int] == t[p@ as int]);
        }
        if fully_valued(m) && w is Some {
            lemma_fully_valued_step(m, after);
        }
    }
}

/// What the allocation of a constant leaves behind: a well-formed system
/// with at most one more slot and one more row, the same public places,
/// in which every place keeps its value and the place handed out has the
/// constant's value.
pub proof fn lemma_constant_placed(m: CsModel, value: FieldValue)
    requires
        model_wf(m),
        constant_placed(m, value).1 is Ok,
    ensures
        ({
            let after = constant_placed(m, value).0;
            let k = constant_placed(m, value).1->Ok_0;
            &&& model_wf(after)
            &&& k < after.slots.len()
            &&& Place::at(k)@ == k
            &&& is_constant(after.slots[k as int], value@)
            &&& after.slots.subrange(0, m.slots.len() as int) == m.slots
            &&& m.slots.len() <= after.slots.len() <= m.slots.len() + 1
            &&& m.trace.len() <= after.trace.len() <= m.trace.len() + 1
            &&& public_places(after.trace) == public_places(m.trace)
            &&& evaluates(m) ==> {
                &&& evaluates(after)
                &&& preserves_values(m, after)
                &&& value_at(after, Place::at(k)) == Ok::<int, CsError>(value@)
            }
            &&& fully_valued(m) ==> fully_valued(after)
        }),
{
    lemma_constant_placed_values(m, value);
    if fully_valued(m) {
        lemma_fully_valued_step(m, constant_placed(m, value).0);
    }
}

/// `lemma_constant_placed` without its last clause.
proof fn lemma_constant_placed_values(m: CsModel, value: FieldValue)
    requires
        model_wf(m),
        constant_placed(m, value).1 is Ok,
    ensures
        ({
            let after = constant_placed(m, value).0;
            let k = constant_placed(m, value).1->Ok_0;
            &&& model_wf(after)
            &&& k < after.slots.len()
            &&& Place::at(k)@ == k
            &&& is_constant(after.slots[k as int], value@)
            &&& after.slots.subrange(0, m.slots.len() as int) == m.slots
            &&& m.slots.len() <= after.slots.len() <= m.slots.len() + 1
            &&& after.slots.len() == m.slots.len() + 1 ==> k == m.slots.len()
            &&& m.trace.len() <= after.trace.len() <= m.trace.len() + 1
            &&& public_places(after.trace) == public_places(m.trace)
            &&& evaluates(m) ==> {
                &&& evaluates(after)
                &&& preserves_values(m, after)
                &&& value_at(after, Place::at(k)) == Ok::<int, CsError>(value@)
            }
        }),
{
    let after = constant_placed(m, value).0;
    let k = constant_placed(m, value).1->Ok_0;
    Place::lemma_at_view(m.slots.len());
    match constant_position(m.slots, value@) {
        Some(i) => {
            Place::lemma_at_view(i);
            assert(after.slots.subrange(0, m.slots.len() as int) == m.slots);
            if evaluates(m) {
                lemma_table(m);
            }
        },
        None => {
            let strategy = configured_strategy(m.configuration, GateKind::ConstantAllocation)->Some_0;
            let slot = SlotModel { kind: SlotKind::Constant, value: Some(value@) };
            let row = Placement {
                gate: Gate::ConstantAllocation { place: Place::at(m.slots.len()), value },
                strategy,
            };
            assert(after.trace.drop_last() == m.trace);
            assert(after.trace.last() == row);
            assert(after.slots.subrange(0, m.slots.len() as int) == m.slots);
            crate::arena::lemma_constant_allocated_holds(m.slots, m.capacity, value@);
            assert(crate::arena::constant_allocated(m.slots, m.capacity, value@).0 == after.slots);
            assert forall|i: int| 0 <= i < after.trace.len() implies (
            #[trigger] after.trace[i]).gate.within(after.slots.len()) && configured_strategy(
                after.configuration,
                after.trace[i].gate.spec_kind(),
            ) == Some(after.trace[i].strategy) by {
                if i < m.trace.len() {
                    assert(after.trace[i] == m.trace[i]);
                    assert(m.trace[i].gate.within(m.slots.len()));
                }
            }
            if evaluates(m) {
                lemma_table(m);
                lemma_evaluated_push(m.slots, m.trace, slot);
                let t = evaluated(m.slots, m.trace)->Ok_0;
                let wide = t.push(slot);
                assert(evaluated(after.slots, m.trace) == Ok::<Seq<SlotModel>, CsError>(wide));
                assert(gate_applied(wide, row.gate) == Ok::<Seq<SlotModel>, CsError>(wide));
                assert forall|p: Place| (#[trigger] value_at(m, p)) is Ok implies value_at(
                    after,
                    p,
                ) == value_at(m, p) by {
                    assert(wide[p@ as int] == t[p@ as int]);
                }
            }
        },
    }
}

/// What a public-input gate on a place that has its value leaves behind:
/// a well-formed system with one more row, in which every place keeps its
/// value and the place is the last of the public places.
pub proof fn lemma_public_input_placed(m: CsModel, place: Place)
    requires
        model_wf(m),
        gate_placed(m, Gate::PublicInput { place }).1 is Ok,
    ensures
        ({
            let after = gate_placed(m, Gate::PublicInput { place }).0;
            &&& model_wf(after)
            &&& after.slots == m.slots
            &&& after.trace.len() == m.trace.len() + 1
            &&& public_places(after.trace) == public_places(m.trace).push(place)
            &&& value_at(m, place) is Ok ==> evaluates(after) && preserves_values(m, after)
            &&& fully_valued(m) ==> fully_valued(after)
        }),
{
    let after = gate_placed(m, Gate::PublicInput { place }).0;
    assert(after.trace.drop_last() == m.trace);
    assert forall|i: int| 0 <= i < after.trace.len() implies (#[trigger] after.trace[i]).gate.within(
        after.slots.len(),
    ) && configured_strategy(after.configuration, after.trace[i].gate.spec_kind()) == Some(
        after.trace[i].strategy,
    ) by {
        if i < m.trace.len() {
            assert(after.trace[i] == m.trace[i]);
        }
    }
    if fully_valued(m) {
        lemma_table(m);
        assert(evaluated(m.slots, m.trace)->Ok_0[place@ as int].value is Some);
    }
    if value_at(m, place) is Ok {
        lemma_table(m);
        if fully_valued(m) {
            lemma_fully_valued_step(m, after);
        }
    }
}

/// Asking twice for a constant of one value hands out one place, and the
/// second request leaves the system as the first left it.
pub proof fn lemma_same_constant_same_place(m: CsModel, value: FieldValue)
    requires
        model_wf(m),
        constant_placed(m, value).1 is Ok,
    ensures
        constant_placed(constant_placed(m, value).0, value) == constant_placed(m, value),
{
    let first = constant_placed(m, value);
    lemma_constant_placed(m, value);
    lemma_constant_position_unique(first.0.slots, value@, first.1->Ok_0 as int);
}

/// Constants of different values are handed different places.
pub proof fn lemma_other_constant_other_place(m: CsModel, v: FieldValue, w: FieldValue)
    requires
        model_wf(m),
        v@ != w@,
        constant_placed(m, v).1 is Ok,
        constant_placed(constant_placed(m, v).0, w).1 is Ok,
    ensures
        constant_placed(m, v).1 != constant_placed(constant_placed(m, v).0, w).1,
{
    let first = constant_placed(m, v);
    let second = constant_placed(first.0, w);
    lemma_constant_placed(m, v);
    lemma_constant_placed(first.0, w);
    let i = first.1->Ok_0 as int;
    let j = second.1->Ok_0 as int;
    if i == j {
        assert(second.0.slots.subrange(0, first.0.slots.len() as int)[i] == second.0.slots[i]);
    }
}

/// Freezing pads by itself: a system that was padded first freezes into
/// the same frozen form, of the same trace, as one that was not, or fails
/// as that one does.
pub proof fn lemma_pad_before_freezing(m: CsModel)
    requires
        model_wf(m),
        padded(m).1 is Ok,
    ensures
        frozen(padded(m).0).1 == frozen(m).1,
        frozen(m).1 is Ok ==> frozen(padded(m).0).0 == frozen(m).0,
{
    lemma_pad_idempotent(m);
    lemma_padded(m);
    let once = padded(m).0;
    assert(padded(once).0 == once);
    assert(evaluated(once.slots, once.trace) == evaluated(m.slots, m.trace));
}

/// What freezing hands out is consistent: in the frozen form the trace
/// has a power of two of rows, every place has its value, the relation of
/// every row holds, and the public inputs are the values of the places
/// made public. The system it leaves behind is well-formed and frozen.
pub proof fn lemma_frozen_satisfies(m: CsModel)
    requires
        model_wf(m),
        frozen(m).1 is Ok,
    ensures
        frozen_wf(frozen(m).1->Ok_0),
        model_wf(frozen(m).0),
        frozen(m).0.frozen,
{
    let p = padded(m).0;
    let f = frozen(m).1->Ok_0;
    lemma_padded(m);
    lemma_evaluated_satisfies(m.slots, m.trace);
    assert forall|j: int| 0 <= j < f.trace.len() implies gate_holds(
        f.slots,
        (#[trigger] f.trace[j]).gate,
    ) && f.trace[j].gate.within(f.slots.len()) by {
        assert(p.trace[j].gate.within(p.slots.len()));
        if j < m.trace.len() {
            assert(f.trace[j] == m.trace[j]);
        } else {
            assert(f.trace[j].gate == Gate::Nop);
        }
    }
}

/// Freezing is final: a frozen system refuses every change with
/// `SystemFrozen` and stays as it is.
pub proof fn lemma_frozen_is_final(
    m: CsModel,
    witness: Option<int>,
    value: FieldValue,
    gate: Gate,
)
    requires
        m.frozen,
    ensures
        variable_allocated(m, witness) == (m, Err::<nat, CsError>(CsError::SystemFrozen)),
        constant_placed(m, value) == (m, Err::<nat, CsError>(CsError::SystemFrozen)),
        gate_placed(m, gate) == (m, Err::<(), CsError>(CsError::SystemFrozen)),
        padded(m) == (m, Err::<(), CsError>(CsError::SystemFrozen)),
        frozen(m).0 == m,
        frozen(m).1 is Err,
        frozen(m).1->Err_0 == CsError::SystemFrozen,
{
}

} // verus!
