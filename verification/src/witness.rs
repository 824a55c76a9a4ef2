//! The witness evaluator: resolves the value of every place by running the
//! gates in the order of their application.

use vstd::prelude::*;
use crate::arena::{Arena, SlotKind, SlotModel, slots_wf};
use crate::error::CsError;
use crate::field::{FieldValue, reduce};
use crate::gate::{Gate, Placement};

verus! {

/// The value that a fused multiply-add gate gives its output.
pub open spec fn fma_value(a: int, b: int, c: int) -> int {
    reduce(a * b + c)
}

/// The slots once the slot at `i` is bound to `v`: an unresolved slot takes
/// the value, a resolved one must hold it already.
pub open spec fn bound(table: Seq<SlotModel>, i: int, v: int) -> Result<Seq<SlotModel>, CsError> {
    match table[i].value {
        None => Ok(table.update(i, SlotModel { kind: table[i].kind, value: Some(v) })),
        Some(w) => if w == v {
            Ok(table)
        } else {
            Err(CsError::WitnessMismatch)
        },
    }
}

/// The slots after one gate was run on them.
///
/// A public-input gate needs its place resolved. A constant-allocation gate
/// binds its place to its value. A fused multiply-add gate needs its three
/// inputs resolved and binds its output to `in1 * in2 + in3`. Reading an
/// unresolved place is `UnresolvedValue`; binding a place that holds another
/// value is `WitnessMismatch`.
pub open spec fn gate_applied(table: Seq<SlotModel>, gate: Gate) -> Result<
    Seq<SlotModel>,
    CsError,
>
    recommends
        gate.within(table.len()),
{
    match gate {
        Gate::Nop => Ok(table),
        Gate::PublicInput { place } => if table[place@ as int].value is Some {
            Ok(table)
        } else {
            Err(CsError::UnresolvedValue)
        },
        Gate::ConstantAllocation { place, value } => bound(table, place@ as int, value@),
        Gate::FusedMultiplyAdd { in1, in2, in3, out } => match (
            table[in1@ as int].value,
            table[in2@ as int].value,
            table[in3@ as int].value,
        ) {
            (Some(a), Some(b), Some(c)) => bound(table, out@ as int, fma_value(a, b, c)),
            _ => Err(CsError::UnresolvedValue),
        },
    }
}

/// The slots after the whole trace was run on them, first row first, or the
/// failure of the first row that fails.
pub open spec fn evaluated(table: Seq<SlotModel>, trace: Seq<Placement>) -> Result<
    Seq<SlotModel>,
    CsError,
>
    decreases trace.len(),
{
    if trace.len() == 0 {
        Ok(table)
    } else {
        match evaluated(table, trace.drop_last()) {
            Ok(t) => gate_applied(t, trace.last().gate),
            Err(e) => Err(e),
        }
    }
}

/// Every row of the trace touches only places among the first `len`.
pub open spec fn trace_within(trace: Seq<Placement>, len: nat) -> bool {
    forall|i: int| 0 <= i < trace.len() ==> (#[trigger] trace[i]).gate.within(len)
}

/// The relation of a gate holds of the values in the table.
pub open spec fn gate_holds(table: Seq<SlotModel>, gate: Gate) -> bool
    recommends
        gate.within(table.len()),
{
    match gate {
        Gate::Nop => true,
        Gate::PublicInput { place } => table[place@ as int].value is Some,
        Gate::ConstantAllocation { place, value } => table[place@ as int].value == Some(value@),
        Gate::FusedMultiplyAdd { in1, in2, in3, out } => {
            &&& table[in1@ as int].value matches Some(a)
            &&& table[in2@ as int].value matches Some(b)
            &&& table[in3@ as int].value matches Some(c)
            &&& table[out@ as int].value == Some(fma_value(a, b, c))
        },
    }
}

/// `later` has the slots of `earlier`, each of the same kind, and keeps every
/// value that `earlier` had resolved.
pub open spec fn resolves_further(earlier: Seq<SlotModel>, later: Seq<SlotModel>) -> bool {
    &&& later.len() == earlier.len()
    &&& forall|i: int|
        0 <= i < earlier.len() ==> (#[trigger] later[i]).kind == earlier[i].kind && (
        earlier[i].value is Some ==> later[i].value == earlier[i].value)
}

/// Every slot has its value.
pub open spec fn fully_resolved(table: Seq<SlotModel>) -> bool {
    forall|i: int| 0 <= i < table.len() ==> (#[trigger] table[i]).value is Some
}

/// Running one gate only resolves further, keeps well-formed slots
/// well-formed, and leaves its relation holding.
pub proof fn lemma_gate_applied(table: Seq<SlotModel>, gate: Gate)
    requires
        gate.within(table.len()),
        gate_applied(table, gate) is Ok,
    ensures
        resolves_further(table, gate_applied(table, gate)->Ok_0),
        gate_holds(gate_applied(table, gate)->Ok_0, gate),
        slots_wf(table) ==> slots_wf(gate_applied(table, gate)->Ok_0),
{
    let after = gate_applied(table, gate)->Ok_0;
    if slots_wf(table) {
        assert forall|i: int|
            0 <= i < after.len() && (#[trigger] after[i]).kind
                == SlotKind::Constant implies after[i].value is Some && after[i]
            == table[i] by {
            assert(table[i].kind == SlotKind::Constant);
        }
    }
}

/// A relation that holds keeps holding when the table resolves further.
pub proof fn lemma_gate_holds_later(earlier: Seq<SlotModel>, later: Seq<SlotModel>, gate: Gate)
    requires
        gate.within(earlier.len()),
        gate_holds(earlier, gate),
        resolves_further(earlier, later),
    ensures
        gate_holds(later, gate),
{
}

/// A trace that evaluates leaves a table which resolves the starting one
/// further and of which the relation of every row holds.
pub proof fn lemma_evaluated_satisfies(table: Seq<SlotModel>, trace: Seq<Placement>)
    requires
        trace_within(trace, table.len()),
        evaluated(table, trace) is Ok,
    ensures
        resolves_further(table, evaluated(table, trace)->Ok_0),
        slots_wf(table) ==> slots_wf(evaluated(table, trace)->Ok_0),
        forall|i: int|
            0 <= i < trace.len() ==> gate_holds(
                evaluated(table, trace)->Ok_0,
                (#[trigger] trace[i]).gate,
            ),
    decreases trace.len(),
{
    if trace.len() > 0 {
        let front = trace.drop_last();
        assert(trace_within(front, table.len())) by {
            assert forall|i: int| 0 <= i < front.len() implies (#[trigger] front[i]).gate.within(
                table.len(),
            ) by {
                assert(front[i] == trace[i]);
            }
        }
        lemma_evaluated_satisfies(table, front);
        let middle = evaluated(table, front)->Ok_0;
        let last = trace.last().gate;
        assert(trace[trace.len() - 1].gate.within(table.len()));
        lemma_gate_applied(middle, last);
        let end = evaluated(table, trace)->Ok_0;
        assert forall|i: int| 0 <= i < trace.len() implies gate_holds(
            end,
            (#[trigger] trace[i]).gate,
        ) by {
            if i < front.len() {
                assert(front[i] == trace[i]);
                lemma_gate_holds_later(middle, end, trace[i].gate);
            }
        }
    }
}

/// Binding a slot does not look at a slot added behind it.
proof fn lemma_bound_push(table: Seq<SlotModel>, i: int, v: int, slot: SlotModel)
    requires
        0 <= i < table.len(),
    ensures
        bound(table.push(slot), i, v) == match bound(table, i, v) {
            Ok(t) => Ok::<Seq<SlotModel>, CsError>(t.push(slot)),
            Err(e) => Err(e),
        },
{
    let wide = table.push(slot);
    assert(wide[i] == table[i]);
    let taken = SlotModel { kind: table[i].kind, value: Some(v) };
    assert(wide.update(i, taken) =~= table.update(i, taken).push(slot));
}

/// A gate does not look at a slot added behind the places it touches.
pub proof fn lemma_gate_applied_push(table: Seq<SlotModel>, gate: Gate, slot: SlotModel)
    requires
        gate.within(table.len()),
    ensures
        gate_applied(table.push(slot), gate) == match gate_applied(table, gate) {
            Ok(t) => Ok::<Seq<SlotModel>, CsError>(t.push(slot)),
            Err(e) => Err(e),
        },
{
    let wide = table.push(slot);
    match gate {
        Gate::Nop => {},
        Gate::PublicInput { place } => {
            assert(wide[place@ as int] == table[place@ as int]);
        },
        Gate::ConstantAllocation { place, value } => {
            lemma_bound_push(table, place@ as int, value@, slot);
        },
        Gate::FusedMultiplyAdd { in1, in2, in3, out } => {
            assert(wide[in1@ as int] == table[in1@ as int]);
            assert(wide[in2@ as int] == table[in2@ as int]);
            assert(wide[in3@ as int] == table[in3@ as int]);
            match (table[in1@ as int].value, table[in2@ as int].value, table[in3@ as int].value) {
                (Some(a), Some(b), Some(c)) => {
                    lemma_bound_push(table, out@ as int, fma_value(a, b, c), slot);
                },
                _ => {},
            }
        },
    }
}

/// A trace does not look at a slot added behind the places it touches:
/// it evaluates as before, with the new slot behind the others.
pub proof fn lemma_evaluated_push(table: Seq<SlotModel>, trace: Seq<Placement>, slot: SlotModel)
    requires
        trace_within(trace, table.len()),
    ensures
        evaluated(table.push(slot), trace) == match evaluated(table, trace) {
            Ok(t) => Ok::<Seq<SlotModel>, CsError>(t.push(slot)),
            Err(e) => Err(e),
        },
    decreases trace.len(),
{
    if trace.len() > 0 {
        let front = trace.drop_last();
        assert(trace_within(front, table.len())) by {
            assert forall|i: int| 0 <= i < front.len() implies (#[trigger] front[i]).gate.within(
                table.len(),
            ) by {
                assert(front[i] == trace[i]);
            }
        }
        lemma_evaluated_push(table, front, slot);
        if evaluated(table, front) is Ok {
            lemma_evaluated_satisfies(table, front);
            let middle = evaluated(table, front)->Ok_0;
            assert(trace[trace.len() - 1].gate.within(table.len()));
            lemma_gate_applied_push(middle, trace.last().gate, slot);
        }
    }
}

/// Whether every slot of the table has its value.
pub fn is_fully_resolved(table: &Arena) -> (b: bool)
    ensures
        b == fully_resolved(table@),
{
    let mut i: usize = 0;
    while i < table.len()
        invariant
            i <= table@.len(),
            forall|j: int| 0 <= j < i ==> (#[trigger] table@[j]).value is Some,
        decreases table@.len() - i,
    {
        if table.resolve(crate::place::Place::new(i)).is_err() {
            assert(table@[i as int].value is None);
            return false;
        }
        i += 1;
    }
    true
}

/// Runs one gate on the table. On failure the table is left as it was.
pub fn apply_gate_to(table: &mut Arena, gate: &Gate) -> (r: Result<(), CsError>)
    requires
        old(table).wf(),
        gate.within(old(table)@.len()),
    ensures
        final(table).wf(),
        final(table).spec_capacity() == old(table).spec_capacity(),
        match r {
            Ok(()) => gate_applied(old(table)@, *gate) == Ok::<Seq<SlotModel>, CsError>(
                final(table)@,
            ),
            Err(e) => gate_applied(old(table)@, *gate) == Err::<Seq<SlotModel>, CsError>(e)
                && final(table)@ == old(table)@,
        },
{
    match gate {
        Gate::Nop => Ok(()),
        Gate::PublicInput { place } => match table.resolve(*place) {
            Ok(_) => Ok(()),
            Err(_) => Err(CsError::UnresolvedValue),
        },
        Gate::ConstantAllocation { place, value } => bind_or_check(table, *place, *value),
        Gate::FusedMultiplyAdd { in1, in2, in3, out } => {
            let a = match table.resolve(*in1) {
                Ok(a) => a,
                Err(_) => {
                    return Err(CsError::UnresolvedValue);
                },
            };
            let b = match table.resolve(*in2) {
                Ok(b) => b,
                Err(_) => {
                    return Err(CsError::UnresolvedValue);
                },
            };
            let c = match table.resolve(*in3) {
                Ok(c) => c,
                Err(_) => {
                    return Err(CsError::UnresolvedValue);
                },
            };
            let v = a.mul_add(&b, &c);
            bind_or_check(table, *out, v)
        },
    }
}

/// Binds the slot at `place` to `value`, or checks that it holds `value`
/// already.
fn bind_or_check(table: &mut Arena, place: crate::place::Place, value: FieldValue) -> (r: Result<
    (),
    CsError,
>)
    requires
        old(table).wf(),
        place@ < old(table)@.len(),
    ensures
        final(table).wf(),
        final(table).spec_capacity() == old(table).spec_capacity(),
        match r {
            Ok(()) => bound(old(table)@, place@ as int, value@) == Ok::<Seq<SlotModel>, CsError>(
                final(table)@,
            ),
            Err(e) => bound(old(table)@, place@ as int, value@) == Err::<Seq<SlotModel>, CsError>(
                e,
            ) && final(table)@ == old(table)@,
        },
{
    proof {
        table.lemma_wf();
    }
    match table.resolve(place) {
        Ok(held) => {
            proof {
                FieldValue::lemma_view_injective(held, value);
            }
            if held == value {
                Ok(())
            } else {
                Err(CsError::WitnessMismatch)
            }
        },
        Err(_) => {
            table.bind(place, value);
            Ok(())
        },
    }
}

/// Runs the trace on a copy of the arena and returns the copy, in which
/// every place that a witness or a gate gives a value is resolved.
pub fn evaluate(arena: &Arena, trace: &Vec<Placement>) -> (r: Result<Arena, CsError>)
    requires
        arena.wf(),
        trace_within(trace@, arena@.len()),
    ensures
        match r {
            Ok(table) => {
                &&& table.wf()
                &&& table.spec_capacity() == arena.spec_capacity()
                &&& evaluated(arena@, trace@) == Ok::<Seq<SlotModel>, CsError>(table@)
            },
            Err(e) => evaluated(arena@, trace@) == Err::<Seq<SlotModel>, CsError>(e),
        },
{
    let mut table = arena.duplicate();
    let mut i: usize = 0;
    while i < trace.len()
        invariant
            i <= trace@.len(),
            table.wf(),
            table.spec_capacity() == arena.spec_capacity(),
            table@.len() == arena@.len(),
            trace_within(trace@, arena@.len()),
            evaluated(arena@, trace@.take(i as int)) == Ok::<Seq<SlotModel>, CsError>(table@),
        decreases trace@.len() - i,
    {
        let ghost before = table@;
        let placement = trace[i];
        assert(trace@[i as int].gate.within(arena@.len()));
        let step = apply_gate_to(&mut table, &placement.gate);
        proof {
            let prefix = trace@.take(i + 1);
            assert(prefix.drop_last() == trace@.take(i as int));
            assert(prefix.last() == trace@[i as int]);
            assert(evaluated(arena@, prefix) == gate_applied(before, placement.gate));
        }
        match step {
            Ok(()) => {
                proof {
                    lemma_gate_applied(before, placement.gate);
                }
            },
            Err(e) => {
                proof {
                    lemma_evaluated_prefix_fails(arena@, trace@, i + 1);
                }
                return Err(e);
            },
        }
        i += 1;
    }
    assert(trace@.take(i as int) == trace@);
    Ok(table)
}

/// A trace fails as its first failing prefix does.
pub proof fn lemma_evaluated_prefix_fails(table: Seq<SlotModel>, trace: Seq<Placement>, n: int)
    requires
        0 <= n <= trace.len(),
        evaluated(table, trace.take(n)) is Err,
    ensures
        evaluated(table, trace) == evaluated(table, trace.take(n)),
    decreases trace.len() - n,
{
    if n < trace.len() {
        let longer = trace.take(n + 1);
        assert(longer.drop_last() == trace.take(n));
        lemma_evaluated_prefix_fails(table, trace, n + 1);
    } else {
        assert(trace.take(n) == trace);
    }
}

} // verus!
