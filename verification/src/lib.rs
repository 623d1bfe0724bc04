//! Pickles recursive proof composition: the field arithmetic, statement
//! layouts, codecs, verifier formulas and circuit decisions, with their
//! contracts.

pub mod all_evals;
pub mod api;
mod arkworks;
pub mod bench;
pub mod bulletproof;
pub mod capacity;
pub mod challenge;
pub mod codec;
pub mod commitments;
pub mod common;
pub mod composition_types;
pub mod curve;
pub mod domain;
pub mod dummy;
pub mod endo;
pub mod expr_eval;
pub mod fft;
pub mod field;
pub mod finalize;
pub mod fr_sponge;
pub mod ft_eval_circuit;
pub mod gates;
pub mod hash_messages;
pub mod host;
pub mod incrementally_verify;
pub mod ipa;
pub mod lazy29;
pub mod live_trace;
pub mod montgomery;
pub mod ring;
pub mod sequences;
pub mod snarky_constraint_system;
pub mod sponge;
pub mod wrap_circuit;
