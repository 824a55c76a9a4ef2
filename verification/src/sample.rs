//! The sample circuit: for inputs `x` and `y` it proves knowledge of
//! `x * x - x * y + (y + 1)`, with `x`, `y` and the result made public.

use vstd::prelude::*;
use vstd::arithmetic::div_mod::{lemma_add_mod_noop, lemma_mul_mod_noop, lemma_sub_mod_noop};
use vstd::arithmetic::power2::is_pow2;
use crate::builder::{
    BuilderModel, CsBuilder, GateConfiguration, Geometry, ResolverOptions,
    configuration_checked, configured, configured_strategy, has_conflict,
    lemma_configured_strategy,
};
use crate::error::CsError;
use crate::field::{FieldValue, modulus, reduce};
use crate::frozen::public_places;
use crate::gadgets::{Combination, lemma_combined, lemma_combined_succeeds};
use crate::values::{
    fully_valued, lemma_constant_placed, lemma_fully_valued_freezes,
    lemma_public_input_placed, lemma_variable_allocated, preserves_values,
};
use crate::gate::{Gate, GateKind, PlacementStrategy};
use crate::place::Place;
use crate::proving::ProofConfig;
use crate::system::{
    ConstraintSystem, CsModel, constant_placed, frozen, gate_placed, model_wf, padded, value_at,
};
use crate::witness::evaluated;
use crate::verification::{VerifierAdapter, VerifierModel};

verus! {

/// The most places the sample circuit's arena holds.
pub const MAX_VARIABLES: usize = 512;

/// The most rows the sample circuit's trace holds.
pub const MAX_TRACE_LEN: usize = 128;

/// The geometry of the sample circuit.
pub open spec fn sample_geometry() -> Geometry {
    Geometry {
        num_columns_under_copy_permutation: 8,
        num_witness_columns: 1,
        num_constant_columns: 2,
        max_allowed_constraint_degree: 8,
    }
}

/// The gates of the sample circuit, all in general-purpose columns.
pub open spec fn sample_gates() -> Seq<GateConfiguration> {
    seq![
        GateConfiguration {
            kind: GateKind::ConstantAllocation,
            strategy: PlacementStrategy::UseGeneralPurposeColumns,
        },
        GateConfiguration {
            kind: GateKind::FusedMultiplyAdd,
            strategy: PlacementStrategy::UseGeneralPurposeColumns,
        },
        GateConfiguration {
            kind: GateKind::Nop,
            strategy: PlacementStrategy::UseGeneralPurposeColumns,
        },
        GateConfiguration {
            kind: GateKind::PublicInput,
            strategy: PlacementStrategy::UseGeneralPurposeColumns,
        },
    ]
}

/// The sample configuration applied to the gates enabled so far.
pub open spec fn sample_configured(gates: Seq<GateConfiguration>) -> Seq<GateConfiguration> {
    configured(
        configured(
            configured(
                configured(
                    gates,
                    GateKind::ConstantAllocation,
                    PlacementStrategy::UseGeneralPurposeColumns,
                ),
                GateKind::FusedMultiplyAdd,
                PlacementStrategy::UseGeneralPurposeColumns,
            ),
            GateKind::Nop,
            PlacementStrategy::UseGeneralPurposeColumns,
        ),
        GateKind::PublicInput,
        PlacementStrategy::UseGeneralPurposeColumns,
    )
}

/// The constant of the circuit: `y + 1`, wrapping at 64 bits.
pub open spec fn shifted(y: u64) -> int {
    if y == u64::MAX {
        0
    } else {
        y + 1
    }
}

/// The value of the circuit's result: `x * x - x * y + (y + 1)` in the
/// field.
pub open spec fn circuit_value(x: u64, y: u64) -> int {
    reduce(x * x - x * y + shifted(y))
}

/// The result as the circuit's gates compute it, step by step, is the
/// circuit's value.
pub proof fn lemma_circuit_value(x: u64, y: u64)
    ensures
        ({
            let xv = reduce(x as int);
            let yv = reduce(y as int);
            let z = reduce(shifted(y));
            let a = reduce(xv * xv);
            let b = reduce(xv * yv);
            let c = reduce(a - b);
            reduce(c + z) == circuit_value(x, y)
        }),
{
    let p = modulus();
    lemma_mul_mod_noop(x as int, x as int, p);
    lemma_mul_mod_noop(x as int, y as int, p);
    lemma_sub_mod_noop(x * x, x * y, p);
    lemma_add_mod_noop(x * x - x * y, shifted(y), p);
}

/// On a builder without gates the sample configuration enables the sample
/// gates, which a constraint system and a verifier can be built on.
pub proof fn lemma_sample_configuration()
    ensures
        sample_configured(Seq::empty()) == sample_gates(),
        configuration_checked(sample_geometry(), sample_gates()) is Ok,
        is_pow2(MAX_TRACE_LEN as int),
        configured_strategy(sample_gates(), GateKind::ConstantAllocation) == Some(
            PlacementStrategy::UseGeneralPurposeColumns,
        ),
        configured_strategy(sample_gates(), GateKind::FusedMultiplyAdd) == Some(
            PlacementStrategy::UseGeneralPurposeColumns,
        ),
        configured_strategy(sample_gates(), GateKind::Nop) == Some(
            PlacementStrategy::UseGeneralPurposeColumns,
        ),
        configured_strategy(sample_gates(), GateKind::PublicInput) == Some(
            PlacementStrategy::UseGeneralPurposeColumns,
        ),
{
    let general = PlacementStrategy::UseGeneralPurposeColumns;
    let g0 = Seq::<GateConfiguration>::empty();
    let g1 = configured(g0, GateKind::ConstantAllocation, general);
    assert(g1 =~= seq![sample_gates()[0]]);
    let g2 = configured(g1, GateKind::FusedMultiplyAdd, general);
    assert(g2 =~= seq![sample_gates()[0], sample_gates()[1]]);
    let g3 = configured(g2, GateKind::Nop, general);
    assert(g3 =~= seq![sample_gates()[0], sample_gates()[1], sample_gates()[2]]);
    let g4 = configured(g3, GateKind::PublicInput, general);
    assert(g4 =~= sample_gates());
    assert(!has_conflict(sample_gates()));
    lemma_configured_strategy(sample_gates(), 0);
    lemma_configured_strategy(sample_gates(), 1);
    lemma_configured_strategy(sample_gates(), 2);
    lemma_configured_strategy(sample_gates(), 3);
    assert(is_pow2(128)) by {
        reveal_with_fuel(is_pow2, 9);
    }
}

/// The geometry of the sample circuit.
pub fn geometry() -> (g: Geometry)
    ensures
        g == sample_geometry(),
{
    Geometry {
        num_columns_under_copy_permutation: 8,
        num_witness_columns: 1,
        num_constant_columns: 2,
        max_allowed_constraint_degree: 8,
    }
}

/// The backend parameters of the sample circuit.
pub fn proof_config() -> (config: ProofConfig)
    ensures
        config == (ProofConfig { fri_lde_factor: 32, pow_bits: 0 }),
{
    ProofConfig { fri_lde_factor: 32, pow_bits: 0 }
}

/// Enables the gates of the sample circuit. The prover's builder and the
/// verifier's go through this one function, so that both are configured
/// alike.
pub fn configure(builder: CsBuilder) -> (configured: CsBuilder)
    ensures
        configured@ == (BuilderModel { gates: sample_configured(builder@.gates), ..builder@ }),
{
    let builder = builder.configure(
        GateKind::ConstantAllocation,
        PlacementStrategy::UseGeneralPurposeColumns,
    );
    let builder = builder.configure(
        GateKind::FusedMultiplyAdd,
        PlacementStrategy::UseGeneralPurposeColumns,
    );
    let builder = builder.configure(GateKind::Nop, PlacementStrategy::UseGeneralPurposeColumns);
    let builder = builder.configure(
        GateKind::PublicInput,
        PlacementStrategy::UseGeneralPurposeColumns,
    );
    builder
}

/// The constant of the circuit for the input `y`.
pub fn derive_constant(y: u64) -> (z: u64)
    ensures
        z == shifted(y),
{
    y.wrapping_add(1)
}

/// The verifier of the sample circuit, from its own replay of the
/// configuration.
pub fn build_verifier() -> (r: Result<VerifierAdapter, CsError>)
    ensures
        r matches Ok(verifier) && verifier@ == (VerifierModel {
            geometry: sample_geometry(),
            configuration: sample_gates(),
        }),
{
    proof {
        lemma_sample_configuration();
    }
    configure(CsBuilder::new(geometry(), MAX_TRACE_LEN)).build_verifier()
}

/// The sample circuit, built and not yet frozen, with the places of its
/// inputs and of its result.
#[derive(Debug)]
pub struct Circuit {
    pub system: ConstraintSystem,
    pub x: Place,
    pub y: Place,
    pub result: Place,
}

/// What holds of the sample circuit for the inputs `x` and `y`: its
/// inputs and its result have their values, they are the public places in
/// this order, and the circuit can be padded and frozen, with those values
/// as its public inputs.
pub open spec fn is_sample_circuit(c: Circuit, x: u64, y: u64) -> bool {
    &&& c.system.wf()
    &&& !c.system@.frozen
    &&& c.system@.geometry == sample_geometry()
    &&& c.system@.configuration == sample_gates()
    &&& value_at(c.system@, c.x) == Ok::<int, CsError>(reduce(x as int))
    &&& value_at(c.system@, c.y) == Ok::<int, CsError>(reduce(y as int))
    &&& value_at(c.system@, c.result) == Ok::<int, CsError>(circuit_value(x, y))
    &&& public_places(c.system@.trace) == seq![c.x, c.y, c.result]
    &&& padded(c.system@).1 is Ok
    &&& frozen(c.system@).1 matches Ok(f) && f.public_inputs == seq![
        reduce(x as int),
        reduce(y as int),
        circuit_value(x, y),
    ]
}

/// A system of the sample circuit under construction: well-formed, not
/// frozen, with the sample circuit's geometry, gates and limits, and a
/// trace that evaluates and leaves every place with its value.
pub open spec fn sample_stage(m: CsModel) -> bool {
    &&& model_wf(m)
    &&& !m.frozen
    &&& m.geometry == sample_geometry()
    &&& m.configuration == sample_gates()
    &&& m.capacity == MAX_VARIABLES
    &&& m.max_trace_len == MAX_TRACE_LEN
    &&& fully_valued(m)
}

fn known_variable(cs: &mut ConstraintSystem, value: FieldValue) -> (r: Result<Place, CsError>)
    requires
        old(cs).wf(),
        sample_stage(old(cs)@),
        old(cs)@.slots.len() < MAX_VARIABLES,
    ensures
        final(cs).wf(),
        sample_stage(final(cs)@),
        final(cs)@.slots.len() == old(cs)@.slots.len() + 1,
        final(cs)@.trace == old(cs)@.trace,
        preserves_values(old(cs)@, final(cs)@),
        r matches Ok(p) && value_at(final(cs)@, p) == Ok::<int, CsError>(value@),
{
    broadcast use Place::lemma_view_at;

    proof {
        lemma_variable_allocated(cs@, Some(value@));
    }
    cs.alloc_variable_from_witness(value)
}

fn known_constant(cs: &mut ConstraintSystem, value: FieldValue) -> (r: Result<Place, CsError>)
    requires
        old(cs).wf(),
        sample_stage(old(cs)@),
        old(cs)@.slots.len() < MAX_VARIABLES,
        old(cs)@.trace.len() < MAX_TRACE_LEN,
    ensures
        final(cs).wf(),
        sample_stage(final(cs)@),
        final(cs)@.slots.len() <= old(cs)@.slots.len() + 1,
        final(cs)@.trace.len() <= old(cs)@.trace.len() + 1,
        public_places(final(cs)@.trace) == public_places(old(cs)@.trace),
        preserves_values(old(cs)@, final(cs)@),
        r matches Ok(p) && value_at(final(cs)@, p) == Ok::<int, CsError>(value@),
{
    broadcast use Place::lemma_view_at;

    proof {
        lemma_sample_configuration();
        assert(constant_placed(cs@, value).1 is Ok);
        lemma_constant_placed(cs@, value);
    }
    cs.allocate_constant(value)
}

fn known_public_input(cs: &mut ConstraintSystem, place: Place) -> (r: Result<(), CsError>)
    requires
        old(cs).wf(),
        sample_stage(old(cs)@),
        old(cs)@.trace.len() < MAX_TRACE_LEN,
        value_at(old(cs)@, place) is Ok,
    ensures
        final(cs).wf(),
        sample_stage(final(cs)@),
        final(cs)@.slots.len() == old(cs)@.slots.len(),
        final(cs)@.trace.len() == old(cs)@.trace.len() + 1,
        public_places(final(cs)@.trace) == public_places(old(cs)@.trace).push(place),
        preserves_values(old(cs)@, final(cs)@),
        r is Ok,
{
    proof {
        lemma_sample_configuration();
        assert(gate_placed(cs@, Gate::PublicInput { place }).1 is Ok);
        lemma_public_input_placed(cs@, place);
    }
    cs.apply_gate(Gate::PublicInput { place })
}

fn known_combination(cs: &mut ConstraintSystem, how: Combination, a: Place, b: Place) -> (r:
    Result<Place, CsError>)
    requires
        old(cs).wf(),
        sample_stage(old(cs)@),
        old(cs)@.slots.len() + 2 <= MAX_VARIABLES,
        old(cs)@.trace.len() + 2 <= MAX_TRACE_LEN,
        value_at(old(cs)@, a) is Ok,
        value_at(old(cs)@, b) is Ok,
    ensures
        final(cs).wf(),
        sample_stage(final(cs)@),
        final(cs)@.slots.len() <= old(cs)@.slots.len() + 2,
        final(cs)@.trace.len() <= old(cs)@.trace.len() + 2,
        public_places(final(cs)@.trace) == public_places(old(cs)@.trace),
        preserves_values(old(cs)@, final(cs)@),
        r matches Ok(p) && value_at(final(cs)@, p) == Ok::<int, CsError>(
            how.value(value_at(old(cs)@, a)->Ok_0, value_at(old(cs)@, b)->Ok_0),
        ),
{
    broadcast use Place::lemma_view_at;

    proof {
        lemma_sample_configuration();
        lemma_combined_succeeds(cs@, how, a, b);
        lemma_combined(cs@, how, a, b);
    }
    cs.combine(how, a, b)
}

/// Builds the sample circuit for the inputs `x` and `y`: the inputs are
/// variables and public, the constant is `y + 1`, and the result
/// `x * x - x * y + (y + 1)` is public behind them. The limits of the
/// sample circuit leave room for all of it, so the construction succeeds
/// for every pair of inputs.
pub fn build_circuit(x_value: u64, y_value: u64) -> (r: Result<Circuit, CsError>)
    ensures
        r matches Ok(c) && is_sample_circuit(c, x_value, y_value),
{
    proof {
        lemma_sample_configuration();
    }
    let builder = configure(CsBuilder::new(geometry(), MAX_TRACE_LEN));
    let mut cs = match builder.build(ResolverOptions { max_variables: MAX_VARIABLES }) {
        Ok(cs) => cs,
        Err(e) => {
            return Err(e);
        },
    };
    proof {
        cs.lemma_wf();
        assert(cs@.trace.len() == 0);
        assert(fully_valued(cs@));
        assert(public_places(cs@.trace) == Seq::<Place>::empty());
    }
    let x = known_variable(&mut cs, FieldValue::from_u64(x_value))?;
    let ghost m1 = cs@;
    let y = known_variable(&mut cs, FieldValue::from_u64(y_value))?;
    let ghost m2 = cs@;
    assert(value_at(m2, x) == value_at(m1, x));
    known_public_input(&mut cs, x)?;
    let ghost m3 = cs@;
    assert(value_at(m3, x) == value_at(m2, x));
    assert(value_at(m3, y) == value_at(m2, y));
    known_public_input(&mut cs, y)?;
    let ghost m4 = cs@;
    assert(value_at(m4, x) == value_at(m3, x));
    assert(value_at(m4, y) == value_at(m3, y));
    assert(public_places(m4.trace) =~= seq![x, y]);
    let z = known_constant(&mut cs, FieldValue::from_u64(derive_constant(y_value)))?;
    let ghost m5 = cs@;
    assert(value_at(m5, x) == value_at(m4, x));
    assert(value_at(m5, y) == value_at(m4, y));
    let a = known_combination(&mut cs, Combination::Product, x, x)?;
    let ghost m6 = cs@;
    assert(value_at(m6, x) == value_at(m5, x));
    assert(value_at(m6, y) == value_at(m5, y));
    assert(value_at(m6, z) == value_at(m5, z));
    let b = known_combination(&mut cs, Combination::Product, x, y)?;
    let ghost m7 = cs@;
    assert(value_at(m7, x) == value_at(m6, x));
    assert(value_at(m7, y) == value_at(m6, y));
    assert(value_at(m7, z) == value_at(m6, z));
    assert(value_at(m7, a) == value_at(m6, a));
    let c = known_combination(&mut cs, Combination::Difference, a, b)?;
    let ghost m8 = cs@;
    assert(value_at(m8, x) == value_at(m7, x));
    assert(value_at(m8, y) == value_at(m7, y));
    assert(value_at(m8, z) == value_at(m7, z));
    let result = known_combination(&mut cs, Combination::Sum, c, z)?;
    let ghost m9 = cs@;
    assert(value_at(m9, x) == value_at(m8, x));
    assert(value_at(m9, y) == value_at(m8, y));
    proof {
        lemma_circuit_value(x_value, y_value);
    }
    assert(value_at(m9, result) == Ok::<int, CsError>(circuit_value(x_value, y_value)));
    known_public_input(&mut cs, result)?;
    let ghost m10 = cs@;
    assert(value_at(m10, x) == value_at(m9, x));
    assert(value_at(m10, y) == value_at(m9, y));
    assert(value_at(m10, result) == value_at(m9, result));
    assert(public_places(m10.trace) =~= seq![x, y, result]);
    proof {
        assert(padded(m10).1 is Ok);
        lemma_fully_valued_freezes(m10);
        let table = evaluated(m10.slots, m10.trace)->Ok_0;
        assert(table[x@ as int].value == Some(reduce(x_value as int)));
        assert(table[y@ as int].value == Some(reduce(y_value as int)));
        assert(table[result@ as int].value == Some(circuit_value(x_value, y_value)));
        assert(frozen(m10).1->Ok_0.public_inputs =~= seq![
            reduce(x_value as int),
            reduce(y_value as int),
            circuit_value(x_value, y_value),
        ]);
    }
    Ok(Circuit { system: cs, x, y, result })
}

} // verus!
