//! A catalog of gates: the constraint templates a circuit is made of.

use vstd::prelude::*;
use crate::field::FieldValue;
use crate::place::Place;

verus! {

/// The kinds of gate that a circuit configuration can enable.
#[derive(Clone, Copy, Debug, PartialEq, Eq, Structural)]
pub enum GateKind {
    /// Binds a place to a fixed value.
    ConstantAllocation,
    /// Enforces `out = in1 * in2 + in3`, with no constant term.
    FusedMultiplyAdd,
    /// Enforces nothing; fills the trace up to its final length.
    Nop,
    /// Makes the value of a place a public input; enforces nothing more.
    PublicInput,
}

impl GateKind {
    /// The number of places an instance of the kind touches.
    pub open spec fn spec_arity(self) -> nat {
        match self {
            GateKind::ConstantAllocation => 1,
            GateKind::FusedMultiplyAdd => 4,
            GateKind::Nop => 0,
            GateKind::PublicInput => 1,
        }
    }

    /// The degree of the kind's relation as a polynomial in its places.
    pub open spec fn spec_required_degree(self) -> nat {
        match self {
            GateKind::ConstantAllocation => 1,
            GateKind::FusedMultiplyAdd => 2,
            GateKind::Nop => 0,
            GateKind::PublicInput => 0,
        }
    }

    /// Whether the kind's relation reads a constant column.
    pub open spec fn spec_needs_constants(self) -> bool {
        self == GateKind::ConstantAllocation
    }

    /// The number of places an instance of the kind touches: those it
    /// consumes and those it produces.
    pub fn arity(self) -> (n: usize)
        ensures
            n == self.spec_arity(),
    {
        match self {
            GateKind::ConstantAllocation => 1,
            GateKind::FusedMultiplyAdd => 4,
            GateKind::Nop => 0,
            GateKind::PublicInput => 1,
        }
    }

    /// The least constraint degree a geometry must allow for the kind.
    pub fn required_degree(self) -> (n: usize)
        ensures
            n == self.spec_required_degree(),
    {
        match self {
            GateKind::ConstantAllocation => 1,
            GateKind::FusedMultiplyAdd => 2,
            GateKind::Nop => 0,
            GateKind::PublicInput => 0,
        }
    }

    /// Whether the kind needs a geometry with at least one constant column.
    #[verifier::when_used_as_spec(spec_needs_constants)]
    pub fn needs_constants(self) -> (b: bool)
        ensures
            b == self.spec_needs_constants(),
    {
        match self {
            GateKind::ConstantAllocation => true,
            _ => false,
        }
    }
}

/// Where the instances of a gate kind are laid out in the trace.
#[derive(Clone, Copy, Debug, PartialEq, Eq, Structural)]
pub enum PlacementStrategy {
    /// In the columns that all general-purpose gates share.
    UseGeneralPurposeColumns,
    /// In columns set aside for the kind, `num_repetitions` instances a row.
    UseSpecializedColumns { num_repetitions: usize, share_constants: bool },
}

impl PlacementStrategy {
    /// A strategy with specialized columns lays out at least one instance a
    /// row.
    pub open spec fn spec_is_valid(self) -> bool {
        match self {
            PlacementStrategy::UseGeneralPurposeColumns => true,
            PlacementStrategy::UseSpecializedColumns { num_repetitions, .. } => num_repetitions
                >= 1,
        }
    }

    /// Whether the strategy can lay out any instance at all.
    #[verifier::when_used_as_spec(spec_is_valid)]
    pub fn is_valid(self) -> (b: bool)
        ensures
            b == self.spec_is_valid(),
    {
        match self {
            PlacementStrategy::UseGeneralPurposeColumns => true,
            PlacementStrategy::UseSpecializedColumns { num_repetitions, .. } => num_repetitions
                >= 1,
        }
    }
}

/// One instance of a gate: its kind together with the places it touches.
#[derive(Clone, Copy, Debug, PartialEq, Eq, Structural)]
pub enum Gate {
    ConstantAllocation { place: Place, value: FieldValue },
    FusedMultiplyAdd { in1: Place, in2: Place, in3: Place, out: Place },
    Nop,
    PublicInput { place: Place },
}

impl Gate {
    /// The kind this gate is an instance of.
    pub open spec fn spec_kind(self) -> GateKind {
        match self {
            Gate::ConstantAllocation { .. } => GateKind::ConstantAllocation,
            Gate::FusedMultiplyAdd { .. } => GateKind::FusedMultiplyAdd,
            Gate::Nop => GateKind::Nop,
            Gate::PublicInput { .. } => GateKind::PublicInput,
        }
    }

    /// The places this gate touches: what it consumes, then what it produces.
    pub open spec fn spec_places(self) -> Seq<Place> {
        match self {
            Gate::ConstantAllocation { place, .. } => seq![place],
            Gate::FusedMultiplyAdd { in1, in2, in3, out } => seq![in1, in2, in3, out],
            Gate::Nop => seq![],
            Gate::PublicInput { place } => seq![place],
        }
    }

    /// Every place this gate touches lies among the first `len` of an arena.
    pub open spec fn within(self, len: nat) -> bool {
        match self {
            Gate::ConstantAllocation { place, .. } => place@ < len,
            Gate::FusedMultiplyAdd { in1, in2, in3, out } => in1@ < len && in2@ < len && in3@
                < len && out@ < len,
            Gate::Nop => true,
            Gate::PublicInput { place } => place@ < len,
        }
    }

    /// A gate lies within `len` exactly when each of its places does.
    pub proof fn lemma_within_places(self, len: nat)
        ensures
            self.spec_places().len() == self.spec_kind().spec_arity(),
            self.within(len) <==> forall|i: int|
                0 <= i < self.spec_places().len() ==> (#[trigger] self.spec_places()[i])@ < len,
    {
        let places = self.spec_places();
        if forall|i: int| 0 <= i < places.len() ==> (#[trigger] places[i])@ < len {
            match self {
                Gate::ConstantAllocation { place, .. } => {
                    assert(places[0] == place);
                },
                Gate::FusedMultiplyAdd { in1, in2, in3, out } => {
                    assert(places[0] == in1);
                    assert(places[1] == in2);
                    assert(places[2] == in3);
                    assert(places[3] == out);
                },
                Gate::Nop => {},
                Gate::PublicInput { place } => {
                    assert(places[0] == place);
                },
            }
        }
    }

    /// A gate of kind `kind` on `places`, in the order of the kind; a
    /// constant-allocation gate binds to `value`. There is none where the
    /// number of places is not the arity of the kind, or where a
    /// constant-allocation gate is given no value.
    pub open spec fn spec_from_places(
        kind: GateKind,
        places: Seq<Place>,
        value: Option<FieldValue>,
    ) -> Option<Gate> {
        if places.len() != kind.spec_arity() {
            None
        } else {
            match kind {
                GateKind::ConstantAllocation => match value {
                    Some(v) => Some(Gate::ConstantAllocation { place: places[0], value: v }),
                    None => None,
                },
                GateKind::FusedMultiplyAdd => Some(
                    Gate::FusedMultiplyAdd {
                        in1: places[0],
                        in2: places[1],
                        in3: places[2],
                        out: places[3],
                    },
                ),
                GateKind::Nop => Some(Gate::Nop),
                GateKind::PublicInput => Some(Gate::PublicInput { place: places[0] }),
            }
        }
    }

    /// The value that a constant-allocation gate binds to.
    pub open spec fn spec_value(self) -> Option<FieldValue> {
        match self {
            Gate::ConstantAllocation { value, .. } => Some(value),
            _ => None,
        }
    }

    /// A gate is the one of its kind on its places.
    pub proof fn lemma_from_places(self)
        ensures
            Gate::spec_from_places(self.spec_kind(), self.spec_places(), self.spec_value())
                == Some(self),
    {
    }

    /// A gate of kind `kind` on `places`, in the order of the kind: what
    /// it consumes, then what it produces.
    pub fn from_places(kind: GateKind, places: &Vec<Place>, value: Option<FieldValue>) -> (g:
        Option<Gate>)
        ensures
            g == Gate::spec_from_places(kind, places@, value),
    {
        if places.len() != kind.arity() {
            return None;
        }
        match kind {
            GateKind::ConstantAllocation => match value {
                Some(v) => Some(Gate::ConstantAllocation { place: places[0], value: v }),
                None => None,
            },
            GateKind::FusedMultiplyAdd => Some(
                Gate::FusedMultiplyAdd {
                    in1: places[0],
                    in2: places[1],
                    in3: places[2],
                    out: places[3],
                },
            ),
            GateKind::Nop => Some(Gate::Nop),
            GateKind::PublicInput => Some(Gate::PublicInput { place: places[0] }),
        }
    }

    /// The kind this gate is an instance of.
    pub fn kind(&self) -> (k: GateKind)
        ensures
            k == self.spec_kind(),
    {
        match self {
            Gate::ConstantAllocation { .. } => GateKind::ConstantAllocation,
            Gate::FusedMultiplyAdd { .. } => GateKind::FusedMultiplyAdd,
            Gate::Nop => GateKind::Nop,
            Gate::PublicInput { .. } => GateKind::PublicInput,
        }
    }

    /// The places this gate touches: what it consumes, then what it produces.
    pub fn places(&self) -> (places: Vec<Place>)
        ensures
            places@ == self.spec_places(),
    {
        let mut places: Vec<Place> = Vec::new();
        match self {
            Gate::ConstantAllocation { place, .. } => {
                places.push(*place);
            },
            Gate::FusedMultiplyAdd { in1, in2, in3, out } => {
                places.push(*in1);
                places.push(*in2);
                places.push(*in3);
                places.push(*out);
            },
            Gate::Nop => {},
            Gate::PublicInput { place } => {
                places.push(*place);
            },
        }
        assert(places@ =~= self.spec_places());
        places
    }

    /// Whether every place this gate touches lies among the first `len` of an
    /// arena.
    pub fn fits(&self, len: usize) -> (b: bool)
        ensures
            b == self.within(len as nat),
    {
        match self {
            Gate::ConstantAllocation { place, .. } => place.index() < len,
            Gate::FusedMultiplyAdd { in1, in2, in3, out } => in1.index() < len && in2.index()
                < len && in3.index() < len && out.index() < len,
            Gate::Nop => true,
            Gate::PublicInput { place } => place.index() < len,
        }
    }
}

/// One row of the trace: a gate and the strategy its kind is laid out by.
#[derive(Clone, Copy, Debug, PartialEq, Eq, Structural)]
pub struct Placement {
    pub gate: Gate,
    pub strategy: PlacementStrategy,
}

} // verus!
