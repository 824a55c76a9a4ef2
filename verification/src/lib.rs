//! Arithmetic circuits over the Goldilocks field: construction, witness
//! evaluation and the proof lifecycle around an external proving backend.
//!
//! A circuit is configured by a [`builder::CsBuilder`], built into a
//! [`system::ConstraintSystem`], filled with variables, constants and gates,
//! and frozen into a [`frozen::FrozenSystem`]. A
//! [`proving::ProverAdapter`] takes the frozen system through the backend; a
//! [`verification::VerifierAdapter`], built from its own replay of the
//! configuration, decides on the proofs. The backend itself is not part of
//! the library: the caller runs it and hands its answers back.

pub mod arena;
pub mod builder;
pub mod error;
pub mod field;
pub mod frozen;
pub mod gadgets;
pub mod gate;
pub mod input;
pub mod naming;
pub mod padding;
pub mod place;
pub mod proving;
pub mod receipt;
pub mod sample;
pub mod system;
pub mod text;
pub mod values;
pub mod verification;
pub mod witness;
