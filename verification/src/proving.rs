//! The prover adapter: hands a frozen system to the proving backend and
//! makes what the backend returns into a proof and a verification key.

use vstd::prelude::*;
use crate::builder::{Geometry, GateConfiguration};
use crate::field::{FieldValue, values_of};
use crate::frozen::{FrozenModel, FrozenSystem};
use crate::system::copy_of;

verus! {

/// The backend's tunable parameters. They trade proof size against
/// soundness and do not change what the circuit states.
#[derive(Clone, Copy, Debug, PartialEq, Eq, Structural)]
pub struct ProofConfig {
    /// The blow-up factor of the low-degree extension.
    pub fri_lde_factor: usize,
    /// The difficulty of the proof of work, in bits.
    pub pow_bits: u32,
}

/// A failure of the backend, passed on as the backend reported it.
#[derive(Debug)]
pub struct BackendError {
    pub message: String,
}

/// What the backend returns for a proving request, as the bytes it chose.
#[derive(Debug)]
pub struct BackendArtifacts {
    pub proof: Vec<u8>,
    pub verification_key: Vec<u8>,
}

/// A proof: the backend's bytes together with the public inputs that were
/// bound while the circuit was built.
#[derive(Debug)]
pub struct Proof {
    pub public_inputs: Vec<FieldValue>,
    pub payload: Vec<u8>,
}

/// A verification key: the backend's bytes together with the geometry, the
/// configuration and the trace length of the circuit they were made for.
#[derive(Debug)]
pub struct VerificationKey {
    pub geometry: Geometry,
    pub configuration: Vec<GateConfiguration>,
    pub trace_len: usize,
    pub payload: Vec<u8>,
}

/// A proof as the contracts see it.
pub ghost struct ProofModel {
    pub public_inputs: Seq<int>,
    pub payload: Seq<u8>,
}

/// A verification key as the contracts see it.
pub ghost struct KeyModel {
    pub geometry: Geometry,
    pub configuration: Seq<GateConfiguration>,
    pub trace_len: nat,
    pub payload: Seq<u8>,
}

impl View for Proof {
    type V = ProofModel;

    open spec fn view(&self) -> ProofModel {
        ProofModel { public_inputs: values_of(self.public_inputs@), payload: self.payload@ }
    }
}

impl View for VerificationKey {
    type V = KeyModel;

    open spec fn view(&self) -> KeyModel {
        KeyModel {
            geometry: self.geometry,
            configuration: self.configuration@,
            trace_len: self.trace_len as nat,
            payload: self.payload@,
        }
    }
}

/// The proof and the key that the backend's bytes make for a frozen system:
/// the proof carries the system's public inputs in the order of their
/// binding, the key the system's geometry, configuration and trace length.
pub open spec fn proved(f: FrozenModel, proof: Seq<u8>, key: Seq<u8>) -> (ProofModel, KeyModel) {
    (
        ProofModel { public_inputs: f.public_inputs, payload: proof },
        KeyModel {
            geometry: f.geometry,
            configuration: f.configuration,
            trace_len: f.trace.len(),
            payload: key,
        },
    )
}

/// A frozen system on its way through the backend.
#[derive(Debug)]
pub struct ProverAdapter {
    system: FrozenSystem,
    config: ProofConfig,
    num_workers: usize,
}

impl ProverAdapter {
    /// The system that is being proved.
    pub closed spec fn spec_system(&self) -> FrozenSystem {
        self.system
    }

    /// The backend parameters of the request.
    pub closed spec fn spec_config(&self) -> ProofConfig {
        self.config
    }

    /// The number of worker threads of the request.
    pub closed spec fn spec_num_workers(&self) -> nat {
        self.num_workers as nat
    }

    /// Takes the frozen system into proving, with the parameters and the
    /// number of worker threads that the backend is to use.
    pub fn new(system: FrozenSystem, config: ProofConfig, num_workers: usize) -> (adapter:
        ProverAdapter)
        ensures
            adapter.spec_system() == system,
            adapter.spec_config() == config,
            adapter.spec_num_workers() == num_workers,
    {
        ProverAdapter { system, config, num_workers }
    }

    /// The system to hand to the backend.
    pub fn system(&self) -> (system: &FrozenSystem)
        ensures
            *system == self.spec_system(),
    {
        &self.system
    }

    /// The parameters to hand to the backend.
    pub fn config(&self) -> (config: ProofConfig)
        ensures
            config == self.spec_config(),
    {
        self.config
    }

    /// The number of worker threads to hand to the backend.
    pub fn num_workers(&self) -> (n: usize)
        ensures
            n == self.spec_num_workers(),
    {
        self.num_workers
    }

    /// Ends the proving with what the backend returned: its bytes become a
    /// proof and a verification key as `proved` says; its failure is passed
    /// on unchanged.
    pub fn complete(self, outcome: Result<BackendArtifacts, BackendError>) -> (r: Result<
        (Proof, VerificationKey),
        BackendError,
    >)
        ensures
            match outcome {
                Ok(artifacts) => r is Ok && (r->Ok_0.0@, r->Ok_0.1@) == proved(
                    self.spec_system()@,
                    artifacts.proof@,
                    artifacts.verification_key@,
                ),
                Err(e) => r == Err::<(Proof, VerificationKey), BackendError>(e),
            },
    {
        match outcome {
            Err(e) => Err(e),
            Ok(artifacts) => {
                let public_inputs = copy_of(self.system.public_inputs());
                let configuration = copy_of(self.system.configuration());
                let proof = Proof { public_inputs, payload: artifacts.proof };
                let key = VerificationKey {
                    geometry: self.system.geometry(),
                    configuration,
                    trace_len: self.system.trace().len(),
                    payload: artifacts.verification_key,
                };
                Ok((proof, key))
            },
        }
    }
}

} // verus!
