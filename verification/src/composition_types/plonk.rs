//! The PLONK challenges and derived scalars of a statement.

use vstd::prelude::*;

use crate::composition_types::Features;

verus! {

/// The challenges that a verifier re-derives from the transcript.
#[derive(Clone, Debug, PartialEq, Eq)]
pub struct Minimal<Challenge, ScalarChallenge, Bool> {
    pub alpha: ScalarChallenge,
    pub beta: Challenge,
    pub gamma: Challenge,
    pub zeta: ScalarChallenge,
    pub joint_combiner: Option<ScalarChallenge>,
    pub feature_flags: Features<Bool>,
}

/// The challenges with the scalars derived from them.
#[derive(Clone, Debug, PartialEq, Eq)]
pub struct InCircuit<Fp, ScalarChallenge, Bool> {
    pub alpha: ScalarChallenge,
    pub beta: Fp,
    pub gamma: Fp,
    pub zeta: ScalarChallenge,
    pub zeta_to_srs_length: Fp,
    pub zeta_to_domain_size: Fp,
    pub perm: Fp,
    pub feature_flags: Features<Bool>,
    pub joint_combiner: Option<ScalarChallenge>,
}

} // verus!
