//! Arithmetic on places: each operation allocates the place of its result
//! and constrains it by one fused multiply-add gate.

use vstd::prelude::*;
use vstd::arithmetic::div_mod::lemma_mod_multiples_vanish;
use crate::arena::{SlotKind, SlotModel, lemma_constants_kept};
use crate::builder::configured_strategy;
use crate::error::CsError;
use crate::field::{FieldValue, modulus, reduce};
use crate::frozen::public_places;
use crate::gate::{Gate, GateKind, Placement};
use crate::place::Place;
use crate::system::{ConstraintSystem, CsModel, constant_placed, issued, model_wf, value_at};
use crate::values::{
    evaluates, fully_valued, lemma_constant_placed, lemma_fully_valued_step, lemma_table,
    preserves_values,
};
use crate::witness::{evaluated, fma_value, gate_applied, lemma_evaluated_push};

verus! {

/// The system after a fused multiply-add was placed, and the position of
/// its output: a new variable, which a gate binds to `a * b + c`.
/// A frozen system refuses with `SystemFrozen`; one that does not enable
/// this kind of gate with `GateNotConfigured`; an input that the arena has not
/// issued is `UnknownPlace`; an arena or a trace without room is
/// `CapacityExceeded`. A failure leaves the system as it was.
pub open spec fn fma_placed(m: CsModel, a: Place, b: Place, c: Place) -> (
    CsModel,
    Result<nat, CsError>,
) {
    if m.frozen {
        (m, Err(CsError::SystemFrozen))
    } else {
        match configured_strategy(m.configuration, GateKind::FusedMultiplyAdd) {
            None => (m, Err(CsError::GateNotConfigured)),
            Some(strategy) => if !(a@ < m.slots.len() && b@ < m.slots.len() && c@
                < m.slots.len()) {
                (m, Err(CsError::UnknownPlace))
            } else if m.slots.len() >= m.capacity || m.trace.len() >= m.max_trace_len {
                (m, Err(CsError::CapacityExceeded))
            } else {
                (
                    CsModel {
                        slots: m.slots.push(SlotModel { kind: SlotKind::Variable, value: None }),
                        trace: m.trace.push(
                            Placement {
                                gate: Gate::FusedMultiplyAdd {
                                    in1: a,
                                    in2: b,
                                    in3: c,
                                    out: Place::at(m.slots.len()),
                                },
                                strategy,
                            },
                        ),
                        ..m
                    },
                    Ok(m.slots.len()),
                )
            },
        }
    }
}

/// The ways of combining two places by one gate and one constant.
#[derive(Clone, Copy, Debug, PartialEq, Eq, Structural)]
pub enum Combination {
    /// `a * b`, as `a * b + 0`.
    Product,
    /// `a + b`, as `a * 1 + b`.
    Sum,
    /// `a - b`, as `-1 * b + a`.
    Difference,
}

impl Combination {
    /// The constant that the combination needs.
    pub open spec fn constant(self) -> int {
        match self {
            Combination::Product => 0,
            Combination::Sum => 1,
            Combination::Difference => modulus() - 1,
        }
    }

    /// The inputs of the fused multiply-add, in its order, for the operands `a` and `b`
    /// and the place `k` of the constant.
    pub open spec fn inputs(self, a: Place, b: Place, k: Place) -> (Place, Place, Place) {
        match self {
            Combination::Product => (a, b, k),
            Combination::Sum => (a, k, b),
            Combination::Difference => (k, b, a),
        }
    }

    /// The value of the combination of `a` and `b`.
    pub open spec fn value(self, a: int, b: int) -> int {
        match self {
            Combination::Product => reduce(a * b),
            Combination::Sum => reduce(a + b),
            Combination::Difference => reduce(a - b),
        }
    }
}

/// The system after two places were combined, and the position of the
/// result: the constant of the combination is allocated, then a fused
/// multiply-add is placed on the operands and the constant.
/// A frozen system refuses with `SystemFrozen`; one that does not enable
/// both gates with `GateNotConfigured`; an operand that the arena has not
/// issued is `UnknownPlace`; an arena or a trace without room for all that
/// is new is `CapacityExceeded`. A failure leaves the system as it was.
pub open spec fn combined(m: CsModel, how: Combination, a: Place, b: Place) -> (
    CsModel,
    Result<nat, CsError>,
) {
    if m.frozen {
        (m, Err(CsError::SystemFrozen))
    } else if configured_strategy(m.configuration, GateKind::ConstantAllocation) is None
        || configured_strategy(m.configuration, GateKind::FusedMultiplyAdd) is None {
        (m, Err(CsError::GateNotConfigured))
    } else if !(a@ < m.slots.len() && b@ < m.slots.len()) {
        (m, Err(CsError::UnknownPlace))
    } else {
        let first = constant_placed(m, FieldValue::of(how.constant()));
        match first.1 {
            Err(e) => (m, Err(e)),
            Ok(k) => {
                let inputs = how.inputs(a, b, Place::at(k));
                let second = fma_placed(first.0, inputs.0, inputs.1, inputs.2);
                match second.1 {
                    Err(e) => (m, Err(e)),
                    Ok(_) => second,
                }
            },
        }
    }
}

/// What a fused multiply-add leaves behind: a well-formed system with one
/// more slot and one more row, the same public places, in which every
/// place keeps its value and the output has the value `a * b + c`.
pub proof fn lemma_fma_placed(m: CsModel, a: Place, b: Place, c: Place)
    requires
        model_wf(m),
        fma_placed(m, a, b, c).1 is Ok,
    ensures
        ({
            let after = fma_placed(m, a, b, c).0;
            let out = Place::at(m.slots.len());
            &&& model_wf(after)
            &&& fma_placed(m, a, b, c).1 == Ok::<nat, CsError>(out@)
            &&& after.slots.len() == m.slots.len() + 1
            &&& after.trace.len() == m.trace.len() + 1
            &&& public_places(after.trace) == public_places(m.trace)
            &&& (value_at(m, a) is Ok && value_at(m, b) is Ok && value_at(m, c) is Ok) ==> {
                &&& evaluates(after)
                &&& preserves_values(m, after)
                &&& value_at(after, out) == Ok::<int, CsError>(
                    fma_value(
                        value_at(m, a)->Ok_0,
                        value_at(m, b)->Ok_0,
                        value_at(m, c)->Ok_0,
                    ),
                )
            }
            &&& fully_valued(m) ==> fully_valued(after)
        }),
{
    let after = fma_placed(m, a, b, c).0;
    let out = Place::at(m.slots.len());
    let slot = SlotModel { kind: SlotKind::Variable, value: None };
    Place::lemma_at_view(m.slots.len());
    let row = after.trace.last();
    assert(after.trace.drop_last() == m.trace);
    lemma_constants_kept(m.slots, after.slots);
    assert forall|i: int| 0 <= i < after.trace.len() implies (#[trigger] after.trace[i]).gate.within(
        after.slots.len(),
    ) && configured_strategy(after.configuration, after.trace[i].gate.spec_kind()) == Some(
        after.trace[i].strategy,
    ) by {
        if i < m.trace.len() {
            assert(after.trace[i] == m.trace[i]);
            assert(m.trace[i].gate.within(m.slots.len()));
        }
    }
    if fully_valued(m) {
        lemma_table(m);
        let t = evaluated(m.slots, m.trace)->Ok_0;
        assert(t[a@ as int].value is Some);
        assert(t[b@ as int].value is Some);
        assert(t[c@ as int].value is Some);
    }
    if value_at(m, a) is Ok && value_at(m, b) is Ok && value_at(m, c) is Ok {
        lemma_table(m);
        lemma_evaluated_push(m.slots, m.trace, slot);
        let t = evaluated(m.slots, m.trace)->Ok_0;
        let wide = t.push(slot);
        let v = fma_value(value_at(m, a)->Ok_0, value_at(m, b)->Ok_0, value_at(m, c)->Ok_0);
        let end = t.push(SlotModel { kind: SlotKind::Variable, value: Some(v) });
        assert(evaluated(after.slots, m.trace) == Ok::<Seq<SlotModel>, CsError>(wide));
        assert(wide[a@ as int] == t[a@ as int]);
        assert(wide[b@ as int] == t[b@ as int]);
        assert(wide[c@ as int] == t[c@ as int]);
        assert(wide.update(m.slots.len() as int, SlotModel { kind: SlotKind::Variable, value: Some(v) })
            =~= end);
        assert(gate_applied(wide, row.gate) == Ok::<Seq<SlotModel>, CsError>(end));
        assert forall|p: Place| (#[trigger] value_at(m, p)) is Ok implies value_at(after, p)
            == value_at(m, p) by {
            assert(end[p@ as int] == t[p@ as int]);
        }
        if fully_valued(m) {
            lemma_fully_valued_step(m, after);
        }
    }
}

/// The fused multiply-add of a combination computes the combination's value.
pub proof fn lemma_combination_value(how: Combination, a: int, b: int)
    ensures
        ({
            let k = how.constant();
            how.value(a, b) == match how {
                Combination::Product => fma_value(a, b, k),
                Combination::Sum => fma_value(a, k, b),
                Combination::Difference => fma_value(k, b, a),
            }
        }),
{
    match how {
        Combination::Product => {},
        Combination::Sum => {
            assert(a * 1 == a);
        },
        Combination::Difference => {
            let p = modulus();
            assert((p - 1) * b + a == p * b + (a - b)) by (nonlinear_arith);
            lemma_mod_multiples_vanish(b, a - b, p);
        },
    }
}

/// What a combination leaves behind: a well-formed system with at most
/// two more slots and two more rows, the same public places, in which
/// every place keeps its value and the result has the combination's
/// value.
pub proof fn lemma_combined(m: CsModel, how: Combination, a: Place, b: Place)
    requires
        model_wf(m),
        combined(m, how, a, b).1 is Ok,
    ensures
        ({
            let after = combined(m, how, a, b).0;
            let out = combined(m, how, a, b).1->Ok_0;
            &&& model_wf(after)
            &&& out < after.slots.len()
            &&& Place::at(out)@ == out
            &&& m.slots.len() < after.slots.len() <= m.slots.len() + 2
            &&& m.trace.len() < after.trace.len() <= m.trace.len() + 2
            &&& public_places(after.trace) == public_places(m.trace)
            &&& (value_at(m, a) is Ok && value_at(m, b) is Ok) ==> {
                &&& evaluates(after)
                &&& preserves_values(m, after)
                &&& value_at(after, Place::at(out)) == Ok::<int, CsError>(
                    how.value(value_at(m, a)->Ok_0, value_at(m, b)->Ok_0),
                )
            }
            &&& fully_valued(m) ==> fully_valued(after)
        }),
{
    let constant = FieldValue::of(how.constant());
    FieldValue::lemma_of_view(how.constant());
    let first = constant_placed(m, constant);
    let k = first.1->Ok_0;
    let kp = Place::at(k);
    lemma_constant_placed(m, constant);
    let inputs = how.inputs(a, b, kp);
    let second = fma_placed(first.0, inputs.0, inputs.1, inputs.2);
    lemma_fma_placed(first.0, inputs.0, inputs.1, inputs.2);
    Place::lemma_at_view(first.0.slots.len());
    if value_at(m, a) is Ok && value_at(m, b) is Ok {
        let va = value_at(m, a)->Ok_0;
        let vb = value_at(m, b)->Ok_0;
        assert(value_at(first.0, a) == value_at(m, a));
        assert(value_at(first.0, b) == value_at(m, b));
        assert(value_at(first.0, kp) == Ok::<int, CsError>(how.constant()));
        lemma_combination_value(how, va, vb);
        assert forall|p: Place| (#[trigger] value_at(m, p)) is Ok implies value_at(second.0, p)
            == value_at(m, p) by {
            assert(value_at(first.0, p) == value_at(m, p));
        }
    }
}

/// A combination succeeds on a building system that enables both gates,
/// has issued both operands and has room for two slots and two rows.
pub proof fn lemma_combined_succeeds(m: CsModel, how: Combination, a: Place, b: Place)
    requires
        model_wf(m),
        !m.frozen,
        configured_strategy(m.configuration, GateKind::ConstantAllocation) is Some,
        configured_strategy(m.configuration, GateKind::FusedMultiplyAdd) is Some,
        a@ < m.slots.len(),
        b@ < m.slots.len(),
        m.slots.len() + 2 <= m.capacity,
        m.trace.len() + 2 <= m.max_trace_len,
    ensures
        combined(m, how, a, b).1 is Ok,
{
    let constant = FieldValue::of(how.constant());
    let first = constant_placed(m, constant);
    assert(first.1 is Ok);
    lemma_constant_placed(m, constant);
}

impl ConstraintSystem {
    /// Places a fused multiply-add on `a`, `b` and `c` and issues the
    /// place of its output. Where the three inputs have their values, the
    /// output has the value `a * b + c` and every other place keeps its
    /// own.
    pub fn fma(&mut self, a: Place, b: Place, c: Place) -> (r: Result<Place, CsError>)
        requires
            old(self).wf(),
        ensures
            final(self).wf(),
            final(self)@ == fma_placed(old(self)@, a, b, c).0,
            issued(r) == fma_placed(old(self)@, a, b, c).1,
            r matches Ok(out) ==> value_at(old(self)@, a) matches Ok(va) ==> value_at(
                old(self)@,
                b,
            ) matches Ok(vb) ==> value_at(old(self)@, c) matches Ok(vc) ==> {
                &&& preserves_values(old(self)@, final(self)@)
                &&& value_at(final(self)@, out) == Ok::<int, CsError>(fma_value(va, vb, vc))
            },
    {
        broadcast use Place::lemma_view_at;

        proof {
            self.lemma_wf();
            if fma_placed(self@, a, b, c).1 is Ok {
                lemma_fma_placed(self@, a, b, c);
            }
        }

        if self.is_frozen() {
            return Err(CsError::SystemFrozen);
        }
        if self.strategy_of(GateKind::FusedMultiplyAdd).is_none() {
            return Err(CsError::GateNotConfigured);
        }
        let len = self.num_places();
        if a.index() >= len || b.index() >= len || c.index() >= len {
            return Err(CsError::UnknownPlace);
        }
        if len >= self.capacity() || self.trace_len() >= self.max_trace_len() {
            return Err(CsError::CapacityExceeded);
        }
        let out = match self.alloc_variable_without_value() {
            Ok(out) => out,
            Err(e) => {
                return Err(e);
            },
        };
        match self.apply_gate(Gate::FusedMultiplyAdd { in1: a, in2: b, in3: c, out }) {
            Ok(()) => Ok(out),
            Err(e) => Err(e),
        }
    }

    /// Combines `a` and `b` as `how` says and issues the place of the
    /// result. Where both operands have their values, the result has the
    /// value of the combination and every other place keeps its own.
    pub fn combine(&mut self, how: Combination, a: Place, b: Place) -> (r: Result<Place, CsError>)
        requires
            old(self).wf(),
        ensures
            final(self).wf(),
            final(self)@ == combined(old(self)@, how, a, b).0,
            issued(r) == combined(old(self)@, how, a, b).1,
            r matches Ok(out) ==> value_at(old(self)@, a) matches Ok(va) ==> value_at(
                old(self)@,
                b,
            ) matches Ok(vb) ==> {
                &&& preserves_values(old(self)@, final(self)@)
                &&& value_at(final(self)@, out) == Ok::<int, CsError>(how.value(va, vb))
            },
    {
        broadcast use Place::lemma_view_at;

        proof {
            self.lemma_wf();
            if combined(self@, how, a, b).1 is Ok {
                lemma_combined(self@, how, a, b);
            }
        }

        if self.is_frozen() {
            return Err(CsError::SystemFrozen);
        }
        if self.strategy_of(GateKind::ConstantAllocation).is_none() || self.strategy_of(
            GateKind::FusedMultiplyAdd,
        ).is_none() {
            return Err(CsError::GateNotConfigured);
        }
        let len = self.num_places();
        if a.index() >= len || b.index() >= len {
            return Err(CsError::UnknownPlace);
        }
        let constant = match how {
            Combination::Product => FieldValue::zero(),
            Combination::Sum => FieldValue::one(),
            Combination::Difference => FieldValue::minus_one(),
        };
        assert(constant == FieldValue::of(how.constant()));
        let needed: usize = if self.find_constant(constant).is_some() {
            1
        } else {
            2
        };
        proof {
            self.lemma_wf();
            if constant_placed(self@, constant).1 is Ok {
                lemma_constant_placed(self@, constant);
            }
        }
        if self.capacity() - len < needed || self.max_trace_len() - self.trace_len() < needed {
            return Err(CsError::CapacityExceeded);
        }
        let k = match self.allocate_constant(constant) {
            Ok(k) => k,
            Err(e) => {
                return Err(e);
            },
        };
        let inputs = match how {
            Combination::Product => (a, b, k),
            Combination::Sum => (a, k, b),
            Combination::Difference => (k, b, a),
        };
        self.fma(inputs.0, inputs.1, inputs.2)
    }

    /// Issues the place of `a * b`.
    pub fn mul(&mut self, a: Place, b: Place) -> (r: Result<Place, CsError>)
        requires
            old(self).wf(),
        ensures
            final(self).wf(),
            final(self)@ == combined(old(self)@, Combination::Product, a, b).0,
            issued(r) == combined(old(self)@, Combination::Product, a, b).1,
            r matches Ok(out) ==> value_at(old(self)@, a) matches Ok(va) ==> value_at(
                old(self)@,
                b,
            ) matches Ok(vb) ==> {
                &&& preserves_values(old(self)@, final(self)@)
                &&& value_at(final(self)@, out) == Ok::<int, CsError>(reduce(va * vb))
            },
    {
        self.combine(Combination::Product, a, b)
    }

    /// Issues the place of `a + b`.
    pub fn add(&mut self, a: Place, b: Place) -> (r: Result<Place, CsError>)
        requires
            old(self).wf(),
        ensures
            final(self).wf(),
            final(self)@ == combined(old(self)@, Combination::Sum, a, b).0,
            issued(r) == combined(old(self)@, Combination::Sum, a, b).1,
            r matches Ok(out) ==> value_at(old(self)@, a) matches Ok(va) ==> value_at(
                old(self)@,
                b,
            ) matches Ok(vb) ==> {
                &&& preserves_values(old(self)@, final(self)@)
                &&& value_at(final(self)@, out) == Ok::<int, CsError>(reduce(va + vb))
            },
    {
        self.combine(Combination::Sum, a, b)
    }

    /// Issues the place of `a - b`.
    pub fn sub(&mut self, a: Place, b: Place) -> (r: Result<Place, CsError>)
        requires
            old(self).wf(),
        ensures
            final(self).wf(),
            final(self)@ == combined(old(self)@, Combination::Difference, a, b).0,
            issued(r) == combined(old(self)@, Combination::Difference, a, b).1,
            r matches Ok(out) ==> value_at(old(self)@, a) matches Ok(va) ==> value_at(
                old(self)@,
                b,
            ) matches Ok(vb) ==> {
                &&& preserves_values(old(self)@, final(self)@)
                &&& value_at(final(self)@, out) == Ok::<int, CsError>(reduce(va - vb))
            },
    {
        self.combine(Combination::Difference, a, b)
    }
}

} // verus!
