//! The verifier adapter: built from its own replay of the configuration,
//! it decides what is put to the verification backend and what the
//! backend's answer means.

use vstd::prelude::*;
use crate::builder::{CsBuilder, Geometry, GateConfiguration, configuration_checked, check_configuration};
use crate::error::CsError;
use crate::field::{FieldValue, values_of};
use crate::frozen::FrozenModel;
use crate::proving::{KeyModel, Proof, ProofModel, VerificationKey, proved};

verus! {

/// A verifier as the contracts see it.
pub ghost struct VerifierModel {
    pub geometry: Geometry,
    pub configuration: Seq<GateConfiguration>,
}

/// What the verifier decides before the backend is asked: a key made under
/// another geometry or configuration is `ConfigurationMismatch`; otherwise
/// whether the public inputs supplied are those that the proof carries, in
/// value and in order. Only then is the backend asked.
pub open spec fn prechecked(
    v: VerifierModel,
    key: KeyModel,
    proof: ProofModel,
    public_inputs: Seq<int>,
) -> Result<bool, CsError> {
    if v.geometry != key.geometry || v.configuration != key.configuration {
        Err(CsError::ConfigurationMismatch)
    } else {
        Ok(public_inputs == proof.public_inputs)
    }
}

/// The outcome: what `prechecked` refuses stays refused, and what it lets
/// through is accepted exactly when the backend accepts it.
pub open spec fn verified(
    v: VerifierModel,
    key: KeyModel,
    proof: ProofModel,
    public_inputs: Seq<int>,
    backend_accepts: bool,
) -> Result<bool, CsError> {
    match prechecked(v, key, proof, public_inputs) {
        Err(e) => Err(e),
        Ok(same) => Ok(same && backend_accepts),
    }
}

/// Public inputs that differ, in a value or in the order, from those the
/// proof carries are never accepted, whatever the backend says.
pub proof fn lemma_other_public_inputs_rejected(
    v: VerifierModel,
    key: KeyModel,
    proof: ProofModel,
    public_inputs: Seq<int>,
    backend_accepts: bool,
)
    requires
        public_inputs != proof.public_inputs,
    ensures
        verified(v, key, proof, public_inputs, backend_accepts) != Ok::<bool, CsError>(true),
{
}

/// What the backend rejects is never accepted: the adapter does not
/// overrule the backend.
pub proof fn lemma_backend_rejection_stands(
    v: VerifierModel,
    key: KeyModel,
    proof: ProofModel,
    public_inputs: Seq<int>,
)
    ensures
        verified(v, key, proof, public_inputs, false) != Ok::<bool, CsError>(true),
{
}

/// For a proof and a key made from a frozen system, a verifier of the
/// system's geometry and configuration that is given the proof's own public
/// inputs returns the backend's answer: the adapter itself rejects
/// nothing.
pub proof fn lemma_matching_verification(
    f: FrozenModel,
    proof: Seq<u8>,
    key: Seq<u8>,
    v: VerifierModel,
    backend_accepts: bool,
)
    requires
        v.geometry == f.geometry,
        v.configuration == f.configuration,
    ensures
        verified(
            v,
            proved(f, proof, key).1,
            proved(f, proof, key).0,
            f.public_inputs,
            backend_accepts,
        ) == Ok::<bool, CsError>(backend_accepts),
{
}

/// Checks proofs of one circuit configuration against the backend.
#[derive(Debug)]
pub struct VerifierAdapter {
    geometry: Geometry,
    configuration: Vec<GateConfiguration>,
}

impl View for VerifierAdapter {
    type V = VerifierModel;

    closed spec fn view(&self) -> VerifierModel {
        VerifierModel { geometry: self.geometry, configuration: self.configuration@ }
    }
}

impl CsBuilder {
    /// Makes the builder into a verifier. Fails with
    /// `DuplicateGateConfiguration` or `InvalidGeometry` as
    /// `configuration_checked` says.
    pub fn build_verifier(self) -> (r: Result<VerifierAdapter, CsError>)
        ensures
            match r {
                Ok(verifier) => {
                    &&& configuration_checked(self@.geometry, self@.gates) is Ok
                    &&& verifier@ == (VerifierModel {
                        geometry: self@.geometry,
                        configuration: self@.gates,
                    })
                },
                Err(e) => configuration_checked(self@.geometry, self@.gates) == Err::<
                    (),
                    CsError,
                >(e),
            },
    {
        let (geometry, _, configuration) = self.into_parts();
        match check_configuration(&geometry, &configuration) {
            Err(e) => Err(e),
            Ok(()) => Ok(VerifierAdapter { geometry, configuration }),
        }
    }
}

/// Whether two configurations enable the same gates, under the same
/// strategies, in the same order.
pub fn same_configuration(a: &Vec<GateConfiguration>, b: &Vec<GateConfiguration>) -> (same: bool)
    ensures
        same == (a@ == b@),
{
    if a.len() != b.len() {
        return false;
    }
    let mut i: usize = 0;
    while i < a.len()
        invariant
            i <= a@.len(),
            a@.len() == b@.len(),
            forall|j: int| 0 <= j < i ==> a@[j] == b@[j],
        decreases a@.len() - i,
    {
        if a[i] != b[i] {
            return false;
        }
        i += 1;
    }
    assert(a@ =~= b@);
    true
}

/// Whether two sequences hold the same field elements in the same order.
pub fn same_values(a: &Vec<FieldValue>, b: &Vec<FieldValue>) -> (same: bool)
    ensures
        same == (values_of(a@) == values_of(b@)),
{
    if a.len() != b.len() {
        assert(values_of(a@).len() != values_of(b@).len());
        return false;
    }
    let mut i: usize = 0;
    while i < a.len()
        invariant
            i <= a@.len(),
            a@.len() == b@.len(),
            forall|j: int| 0 <= j < i ==> a@[j]@ == b@[j]@,
        decreases a@.len() - i,
    {
        proof {
            FieldValue::lemma_view_injective(a@[i as int], b@[i as int]);
        }
        if a[i] != b[i] {
            assert(values_of(a@)[i as int] != values_of(b@)[i as int]);
            return false;
        }
        i += 1;
    }
    assert(values_of(a@) =~= values_of(b@));
    true
}

impl VerifierAdapter {
    /// What is decided before the backend is asked. `Ok(true)` says: put
    /// the key and the proof to the backend; `Ok(false)` says: rejected,
    /// the backend need not be asked.
    pub fn precheck(
        &self,
        key: &VerificationKey,
        proof: &Proof,
        public_inputs: &Vec<FieldValue>,
    ) -> (r: Result<bool, CsError>)
        ensures
            r == prechecked(self@, key@, proof@, values_of(public_inputs@)),
    {
        if self.geometry != key.geometry || !same_configuration(
            &self.configuration,
            &key.configuration,
        ) {
            return Err(CsError::ConfigurationMismatch);
        }
        Ok(same_values(public_inputs, &proof.public_inputs))
    }

    /// The outcome for a proof, given the backend's answer on the key and
    /// the proof.
    pub fn verify(
        &self,
        key: &VerificationKey,
        proof: &Proof,
        public_inputs: &Vec<FieldValue>,
        backend_accepts: bool,
    ) -> (r: Result<bool, CsError>)
        ensures
            r == verified(self@, key@, proof@, values_of(public_inputs@), backend_accepts),
    {
        match self.precheck(key, proof, public_inputs) {
            Err(e) => Err(e),
            Ok(same) => Ok(same && backend_accepts),
        }
    }
}

} // verus!
