//! The circuit builder: a geometry and an ordered selection of gates, made
//! into a constraint system or into a verifier.

use vstd::prelude::*;
use vstd::arithmetic::power2::is_pow2;
use crate::error::CsError;
use crate::gate::{GateKind, PlacementStrategy};
use crate::padding::is_power_of_two;

verus! {

/// The column and degree budgets of a circuit, fixed before the first
/// allocation.
#[derive(Clone, Copy, Debug, PartialEq, Eq, Structural)]
pub struct Geometry {
    pub num_columns_under_copy_permutation: usize,
    pub num_witness_columns: usize,
    pub num_constant_columns: usize,
    pub max_allowed_constraint_degree: usize,
}

/// One entry of a circuit configuration: an enabled gate kind and the
/// strategy its instances are laid out by.
#[derive(Clone, Copy, Debug, PartialEq, Eq, Structural)]
pub struct GateConfiguration {
    pub kind: GateKind,
    pub strategy: PlacementStrategy,
}

/// The limits of the arena of a constraint system.
#[derive(Clone, Copy, Debug, PartialEq, Eq, Structural)]
pub struct ResolverOptions {
    pub max_variables: usize,
}

/// Some entry of the configuration enables `kind`.
pub open spec fn is_enabled(config: Seq<GateConfiguration>, kind: GateKind) -> bool {
    exists|i: int| 0 <= i < config.len() && (#[trigger] config[i]).kind == kind
}

/// The strategy that the configuration lays `kind` out by, where it enables
/// the kind.
pub open spec fn configured_strategy(config: Seq<GateConfiguration>, kind: GateKind) -> Option<
    PlacementStrategy,
> {
    if is_enabled(config, kind) {
        Some(
            config[choose|i: int| 0 <= i < config.len() && (#[trigger] config[i]).kind
                == kind].strategy,
        )
    } else {
        None
    }
}

/// Two entries enable one kind with different strategies.
pub open spec fn has_conflict(config: Seq<GateConfiguration>) -> bool {
    exists|i: int, j: int|
        0 <= i < j < config.len() && (#[trigger] config[i]).kind == (#[trigger] config[j]).kind
            && config[i].strategy != config[j].strategy
}

/// The geometry has the degree and the columns that the entry's gate needs.
pub open spec fn gate_fits(geometry: Geometry, entry: GateConfiguration) -> bool {
    &&& entry.strategy.spec_is_valid()
    &&& entry.kind.spec_required_degree() <= geometry.max_allowed_constraint_degree
    &&& entry.kind.spec_arity() <= geometry.num_columns_under_copy_permutation
    &&& entry.kind.spec_needs_constants() ==> geometry.num_constant_columns >= 1
}

/// The geometry has a column under the copy permutation and carries every
/// configured gate.
pub open spec fn geometry_carries(geometry: Geometry, config: Seq<GateConfiguration>) -> bool {
    &&& geometry.num_columns_under_copy_permutation >= 1
    &&& forall|i: int| 0 <= i < config.len() ==> gate_fits(geometry, #[trigger] config[i])
}

/// The configuration with `kind` enabled under `strategy`: the entry is
/// appended unless the very same entry is there already.
pub open spec fn configured(
    config: Seq<GateConfiguration>,
    kind: GateKind,
    strategy: PlacementStrategy,
) -> Seq<GateConfiguration> {
    let entry = GateConfiguration { kind, strategy };
    if config.contains(entry) {
        config
    } else {
        config.push(entry)
    }
}

/// Whether a geometry and a configuration can be built on: a conflict of
/// strategies is `DuplicateGateConfiguration`, budgets that do not carry the
/// gates are `InvalidGeometry`.
pub open spec fn configuration_checked(
    geometry: Geometry,
    config: Seq<GateConfiguration>,
) -> Result<(), CsError> {
    if has_conflict(config) {
        Err(CsError::DuplicateGateConfiguration)
    } else if !geometry_carries(geometry, config) {
        Err(CsError::InvalidGeometry)
    } else {
        Ok(())
    }
}

/// Whether a constraint system can be built: as `configuration_checked`,
/// and a trace length that is no power of two is `InvalidGeometry` too.
pub open spec fn build_checked(b: BuilderModel) -> Result<(), CsError> {
    match configuration_checked(b.geometry, b.gates) {
        Err(e) => Err(e),
        Ok(()) => if is_pow2(b.max_trace_len as int) {
            Ok(())
        } else {
            Err(CsError::InvalidGeometry)
        },
    }
}

/// Without a conflict, every entry of a kind carries the configured
/// strategy of that kind.
pub proof fn lemma_configured_strategy(config: Seq<GateConfiguration>, i: int)
    requires
        !has_conflict(config),
        0 <= i < config.len(),
    ensures
        configured_strategy(config, config[i].kind) == Some(config[i].strategy),
{
    let kind = config[i].kind;
    let j = choose|j: int| 0 <= j < config.len() && (#[trigger] config[j]).kind == kind;
    if j < i {
        assert(config[j].kind == config[i].kind);
    } else if i < j {
        assert(config[i].kind == config[j].kind);
    }
}

/// A kind that was enabled under a strategy is laid out by that strategy,
/// unless the configuration has a conflict.
pub proof fn lemma_configure_enables(
    config: Seq<GateConfiguration>,
    kind: GateKind,
    strategy: PlacementStrategy,
)
    requires
        !has_conflict(configured(config, kind, strategy)),
    ensures
        configured_strategy(configured(config, kind, strategy), kind) == Some(strategy),
{
    let entry = GateConfiguration { kind, strategy };
    let after = configured(config, kind, strategy);
    if !config.contains(entry) {
        assert(after[config.len() as int] == entry);
    }
    assert(after.contains(entry));
    let i = choose|i: int| 0 <= i < after.len() && after[i] == entry;
    lemma_configured_strategy(after, i);
}

/// Enabling a kind twice under one strategy is the same as enabling it
/// once.
pub proof fn lemma_configure_idempotent(
    config: Seq<GateConfiguration>,
    kind: GateKind,
    strategy: PlacementStrategy,
)
    ensures
        configured(configured(config, kind, strategy), kind, strategy) == configured(
            config,
            kind,
            strategy,
        ),
{
    let entry = GateConfiguration { kind, strategy };
    let once = configured(config, kind, strategy);
    if !config.contains(entry) {
        assert(once[config.len() as int] == entry);
    }
    assert(once.contains(entry));
}

/// Enabling a kind under a second strategy makes the configuration one
/// that cannot be built on.
pub proof fn lemma_conflicting_configuration(
    config: Seq<GateConfiguration>,
    kind: GateKind,
    first: PlacementStrategy,
    second: PlacementStrategy,
)
    requires
        first != second,
    ensures
        has_conflict(configured(configured(config, kind, first), kind, second)),
{
    let a = GateConfiguration { kind, strategy: first };
    let b = GateConfiguration { kind, strategy: second };
    let once = configured(config, kind, first);
    let twice = configured(once, kind, second);
    assert(once.contains(a)) by {
        if !config.contains(a) {
            assert(once[config.len() as int] == a);
        }
    }
    let i = choose|i: int| 0 <= i < once.len() && once[i] == a;
    assert(twice.contains(b)) by {
        if !once.contains(b) {
            assert(twice[once.len() as int] == b);
        }
    }
    let j = choose|j: int| 0 <= j < twice.len() && twice[j] == b;
    assert(twice[i] == a);
    if i < j {
        assert(twice[i].kind == twice[j].kind);
    } else {
        assert(twice[j].kind == twice[i].kind);
    }
}

/// The strategy that the configuration lays `kind` out by, where it enables
/// the kind.
pub fn lookup_strategy(config: &Vec<GateConfiguration>, kind: GateKind) -> (r: Option<
    PlacementStrategy,
>)
    requires
        !has_conflict(config@),
    ensures
        r == configured_strategy(config@, kind),
{
    let mut i: usize = 0;
    while i < config.len()
        invariant
            i <= config@.len(),
            !has_conflict(config@),
            forall|j: int| 0 <= j < i ==> (#[trigger] config@[j]).kind != kind,
        decreases config@.len() - i,
    {
        if config[i].kind == kind {
            proof {
                lemma_configured_strategy(config@, i as int);
            }
            return Some(config[i].strategy);
        }
        i += 1;
    }
    None
}

/// Whether two entries enable one kind with different strategies.
pub fn find_conflict(config: &Vec<GateConfiguration>) -> (b: bool)
    ensures
        b == has_conflict(config@),
{
    let mut j: usize = 0;
    while j < config.len()
        invariant
            j <= config@.len(),
            forall|a: int, b: int|
                0 <= a < b < j ==> !((#[trigger] config@[a]).kind == (#[trigger] config@[b]).kind
                    && config@[a].strategy != config@[b].strategy),
        decreases config@.len() - j,
    {
        let mut i: usize = 0;
        while i < j
            invariant
                i <= j < config@.len(),
                forall|a: int|
                    0 <= a < i ==> !((#[trigger] config@[a]).kind == config@[j as int].kind
                        && config@[a].strategy != config@[j as int].strategy),
            decreases j - i,
        {
            if config[i].kind == config[j].kind && config[i].strategy != config[j].strategy {
                assert(config@[i as int].kind == config@[j as int].kind);
                return true;
            }
            i += 1;
        }
        j += 1;
    }
    false
}

/// Whether the geometry has a column under the copy permutation and
/// carries every configured gate.
pub fn check_geometry(geometry: &Geometry, config: &Vec<GateConfiguration>) -> (b: bool)
    ensures
        b == geometry_carries(*geometry, config@),
{
    if geometry.num_columns_under_copy_permutation < 1 {
        return false;
    }
    let mut i: usize = 0;
    while i < config.len()
        invariant
            i <= config@.len(),
            geometry.num_columns_under_copy_permutation >= 1,
            forall|j: int| 0 <= j < i ==> gate_fits(*geometry, #[trigger] config@[j]),
        decreases config@.len() - i,
    {
        let entry = config[i];
        let fits = entry.strategy.is_valid() && entry.kind.required_degree()
            <= geometry.max_allowed_constraint_degree && entry.kind.arity()
            <= geometry.num_columns_under_copy_permutation && (!entry.kind.needs_constants()
            || geometry.num_constant_columns >= 1);
        if !fits {
            assert(!gate_fits(*geometry, config@[i as int]));
            return false;
        }
        i += 1;
    }
    true
}

/// Whether a geometry and a configuration can be built on.
pub fn check_configuration(geometry: &Geometry, config: &Vec<GateConfiguration>) -> (r: Result<
    (),
    CsError,
>)
    ensures
        r == configuration_checked(*geometry, config@),
{
    if find_conflict(config) {
        Err(CsError::DuplicateGateConfiguration)
    } else if !check_geometry(geometry, config) {
        Err(CsError::InvalidGeometry)
    } else {
        Ok(())
    }
}

/// A builder as the contracts see it.
pub ghost struct BuilderModel {
    pub geometry: Geometry,
    pub max_trace_len: nat,
    pub gates: Seq<GateConfiguration>,
}

/// A geometry, a trace length and the gates enabled so far. Each
/// configuration step returns a new builder, so one sequence of steps can be
/// replayed for the prover and for the verifier.
#[derive(Debug)]
pub struct CsBuilder {
    geometry: Geometry,
    max_trace_len: usize,
    gates: Vec<GateConfiguration>,
}

impl View for CsBuilder {
    type V = BuilderModel;

    closed spec fn view(&self) -> BuilderModel {
        BuilderModel {
            geometry: self.geometry,
            max_trace_len: self.max_trace_len as nat,
            gates: self.gates@,
        }
    }
}

impl CsBuilder {
    /// A builder with no gate enabled.
    pub fn new(geometry: Geometry, max_trace_len: usize) -> (builder: CsBuilder)
        ensures
            builder@ == (BuilderModel {
                geometry,
                max_trace_len: max_trace_len as nat,
                gates: Seq::empty(),
            }),
    {
        CsBuilder { geometry, max_trace_len, gates: Vec::new() }
    }

    /// The builder with `kind` enabled under `strategy`.
    pub fn configure(self, kind: GateKind, strategy: PlacementStrategy) -> (builder: CsBuilder)
        ensures
            builder@ == (BuilderModel {
                gates: configured(self@.gates, kind, strategy),
                ..self@
            }),
    {
        let entry = GateConfiguration { kind, strategy };
        let mut i: usize = 0;
        while i < self.gates.len()
            invariant
                i <= self.gates@.len(),
                entry == (GateConfiguration { kind, strategy }),
                forall|j: int| 0 <= j < i ==> self.gates@[j] != entry,
            decreases self.gates@.len() - i,
        {
            if self.gates[i] == entry {
                assert(self.gates@.contains(entry));
                return self;
            }
            i += 1;
        }
        let mut gates = self.gates;
        gates.push(entry);
        CsBuilder { geometry: self.geometry, max_trace_len: self.max_trace_len, gates }
    }

    /// The geometry the builder was made with.
    pub fn geometry(&self) -> (g: Geometry)
        ensures
            g == self@.geometry,
    {
        self.geometry
    }

    /// The trace length the builder was made with.
    pub fn max_trace_len(&self) -> (n: usize)
        ensures
            n == self@.max_trace_len,
    {
        self.max_trace_len
    }

    /// Whether a constraint system can be built from the builder.
    pub fn check(&self) -> (r: Result<(), CsError>)
        ensures
            r == build_checked(self@),
    {
        match check_configuration(&self.geometry, &self.gates) {
            Err(e) => Err(e),
            Ok(()) => if is_power_of_two(self.max_trace_len) {
                Ok(())
            } else {
                Err(CsError::InvalidGeometry)
            },
        }
    }

    /// The builder's parts: geometry, trace length and enabled gates.
    pub(crate) fn into_parts(self) -> (parts: (Geometry, usize, Vec<GateConfiguration>))
        ensures
            parts.0 == self@.geometry,
            parts.1 == self@.max_trace_len,
            parts.2@ == self@.gates,
    {
        (self.geometry, self.max_trace_len, self.gates)
    }
}

} // verus!
