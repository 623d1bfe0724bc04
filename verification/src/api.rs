//! The base-case interface: keys, statements and witnesses of a wrap proof
//! without predecessors, its envelope for JavaScript hosts, and what proving and
//! verifying decide around the proof system.

use vstd::prelude::*;
use vstd::utf8::*;

use crate::arkworks::{
    ark_fq_parse, base64_bytes, base64_decode, base64_encode, base64_text, fq_of_text,
};
use crate::codec::{
    decimal_chars, decimal_value, field_to_decimal, is_plain_decimal, lemma_decimal_is_plain,
};
use crate::commitments::embed;
use crate::common::{wrap_domain_log2, PolyComm, TICK_ROUNDS, TOCK_ROUNDS};
use crate::composition_types::wrap::{network_residues, wrap_statement_to_field_elements_ocaml};
use crate::composition_types::{
    challenge_residues, flag_residues, plonk, BranchData, BulletproofChallenge, Features,
    PlonkVerificationKeyEvals, ProofsVerified, ScalarChallenge,
};
use crate::challenge::{challenged, lowest_128_bits};
use crate::curve::{element, is_on_curve, on_curve, point_residues, Curve, Pallas, Point};
use crate::dummy::{drawn, ipa_challenges, is_padded, pad_wrap_challenges, DummyIpa};
use crate::field::{equal, from_u64, residues, zero, Fp, Fq, PrimeField};
use crate::fr_sponge::{flatten_points, squeeze_transcript, AbsorbEvalsVar, FrSpongeInputs};
use crate::hash_messages::{
    accumulators, hash_messages_for_next_step_proof_ref, hash_messages_for_next_wrap_proof,
    wrap_message,
};
use crate::sequences::{copied, copied_rows, same_rows};
use crate::sponge::{
    absorbing, coordinates, points_give_their_coordinates, replied, SpongeOp,
};
use crate::wrap_circuit::{
    branch_count, expanded_len, pair_view, pair_views, selected_domain, selected_width, witness_wf,
    WrapBranchData, WrapStepStatementSlot, WrapWitnessData, COLUMNS, PERMUTS, SCALAR_BITS,
    STATEMENT_HEAD, STATEMENT_TAIL,
};

verus! {

/// The commitments in a verification key.
pub const KEY_POINTS: usize = 28;

/// The number of a rule.
#[derive(Clone, Copy, Debug, PartialEq, Eq, Structural)]
pub struct RuleId(pub u32);

/// A rule of a program: its number, its width and its domain.
#[derive(Clone, Copy, Debug, PartialEq, Eq, Structural)]
pub struct InductiveRule {
    pub id: RuleId,
    pub proofs_verified: ProofsVerified,
    pub step_domain_log2: u8,
}

/// An application hosted by a step proof.
pub trait StepApp {
    /// The private witness of one execution.
    type Witness;

    /// The state that an execution exposes.
    fn state(&self, witness: &Self::Witness) -> Vec<Fp>;
}

/// A verification key: its commitments, by chunks, and the `log2` of its domain
/// size.
pub struct KeyIndex<F: PrimeField> {
    pub sigma_comm: Vec<PolyComm<F>>,
    pub coefficients_comm: Vec<PolyComm<F>>,
    pub generic_comm: PolyComm<F>,
    pub psm_comm: PolyComm<F>,
    pub complete_add_comm: PolyComm<F>,
    pub mul_comm: PolyComm<F>,
    pub emul_comm: PolyComm<F>,
    pub endomul_scalar_comm: PolyComm<F>,
    pub domain_log2: u32,
}

/// The coordinates of a group element; those of the identity are zero.
pub open spec fn affine(p: Option<(int, int)>) -> (int, int) {
    match p {
        None => (0, 0),
        Some(q) => q,
    }
}

/// The coordinates of the first chunk.
pub open spec fn first_point<F: PrimeField>(comm: PolyComm<F>) -> (int, int) {
    affine(element(comm.chunks@[0]))
}

/// The coordinates of the first chunks.
pub open spec fn first_points<F: PrimeField>(comms: Seq<PolyComm<F>>) -> Seq<(int, int)> {
    Seq::new(comms.len(), |i: int| first_point(comms[i]))
}

/// Every commitment has a chunk.
pub open spec fn all_chunked<F: PrimeField>(comms: Seq<PolyComm<F>>) -> bool {
    forall|i: int| 0 <= i < comms.len() ==> (#[trigger] comms[i]).chunks@.len() > 0
}

impl<F: PrimeField> KeyIndex<F> {
    /// The full number of commitments, each with a chunk.
    pub open spec fn wf(self) -> bool {
        &&& self.sigma_comm@.len() == PERMUTS
        &&& self.coefficients_comm@.len() == COLUMNS
        &&& all_chunked(self.sigma_comm@)
        &&& all_chunked(self.coefficients_comm@)
        &&& self.generic_comm.chunks@.len() > 0
        &&& self.psm_comm.chunks@.len() > 0
        &&& self.complete_add_comm.chunks@.len() > 0
        &&& self.mul_comm.chunks@.len() > 0
        &&& self.emul_comm.chunks@.len() > 0
        &&& self.endomul_scalar_comm.chunks@.len() > 0
    }

    /// The points in canonical order: permutation, coefficients, selectors.
    pub open spec fn points(self) -> Seq<(int, int)> {
        first_points(self.sigma_comm@) + first_points(self.coefficients_comm@) + seq![
            first_point(self.generic_comm),
            first_point(self.psm_comm),
            first_point(self.complete_add_comm),
            first_point(self.mul_comm),
            first_point(self.emul_comm),
            first_point(self.endomul_scalar_comm),
        ]
    }
}

fn first_of<F: PrimeField>(comm: &PolyComm<F>) -> (r: Point<F>)
    requires
        comm.chunks@.len() > 0,
    ensures
        r.view() == first_point(*comm),
{
    match comm.chunks[0] {
        None => Point { x: zero(), y: zero() },
        Some(p) => p,
    }
}

fn push_first<F: PrimeField>(out: &mut Vec<Point<F>>, comm: &PolyComm<F>)
    requires
        comm.chunks@.len() > 0,
    ensures
        point_residues(final(out)@) == point_residues(old(out)@).push(first_point(*comm)),
{
    out.push(first_of(comm));
    assert(point_residues(out@) =~= point_residues(old(out)@).push(first_point(*comm)));
}

fn push_firsts<F: PrimeField>(out: &mut Vec<Point<F>>, comms: &[PolyComm<F>])
    requires
        all_chunked(comms@),
    ensures
        point_residues(final(out)@) == point_residues(old(out)@) + first_points(comms@),
{
    let ghost before = point_residues(out@);
    let ghost all = first_points(comms@);
    let mut i: usize = 0;
    while i < comms.len()
        invariant
            i <= comms@.len(),
            all_chunked(comms@),
            all == first_points(comms@),
            point_residues(out@) =~= before + all.take(i as int),
        decreases comms.len() - i,
    {
        push_first(out, &comms[i]);
        assert(all.take(i + 1) =~= all.take(i as int).push(all[i as int]));
        i = i + 1;
    }
    assert(all.take(i as int) =~= all);
}

/// The points of a wrap verification key in canonical order.
pub fn wrap_verification_key_points(index: &KeyIndex<Fp>) -> (r: Vec<Point<Fp>>)
    requires
        index.wf(),
    ensures
        point_residues(r@) == index.points(),
        r@.len() == KEY_POINTS,
{
    let mut points: Vec<Point<Fp>> = Vec::new();
    push_firsts(&mut points, index.sigma_comm.as_slice());
    push_firsts(&mut points, index.coefficients_comm.as_slice());
    push_first(&mut points, &index.generic_comm);
    push_first(&mut points, &index.psm_comm);
    push_first(&mut points, &index.complete_add_comm);
    push_first(&mut points, &index.mul_comm);
    push_first(&mut points, &index.emul_comm);
    push_first(&mut points, &index.endomul_scalar_comm);
    assert(point_residues(points@) =~= index.points());
    assert(points@.len() == point_residues(points@).len());
    points
}

fn first_pair(comm: &PolyComm<Fq>) -> (r: (Fq, Fq))
    requires
        comm.chunks@.len() > 0,
    ensures
        pair_view(r) == first_point(*comm),
{
    let p = first_of(comm);
    (p.x, p.y)
}

fn first_pairs(comms: &Vec<PolyComm<Fq>>, n: usize) -> (r: Vec<(Fq, Fq)>)
    requires
        all_chunked(comms@),
        n <= comms@.len(),
    ensures
        pair_views(r@) == first_points(comms@).take(n as int),
{
    let mut out: Vec<(Fq, Fq)> = Vec::new();
    while out.len() < n
        invariant
            out@.len() <= n,
            n <= comms@.len(),
            all_chunked(comms@),
            forall|k: int|
                0 <= k < out@.len() ==> pair_view(#[trigger] out@[k])
                    == first_point(comms@[k]),
        decreases n - out.len(),
    {
        let pair = first_pair(&comms[out.len()]);
        out.push(pair);
    }
    assert(pair_views(out@) =~= first_points(comms@).take(n as int));
    out
}

/// The branch's points are those of a step key.
pub open spec fn is_branch_of(index: KeyIndex<Fq>, branch: WrapBranchData) -> bool {
    &&& pair_view(branch.generic) == first_point(index.generic_comm)
    &&& pair_view(branch.psm) == first_point(index.psm_comm)
    &&& pair_view(branch.complete_add) == first_point(index.complete_add_comm)
    &&& pair_view(branch.mul) == first_point(index.mul_comm)
    &&& pair_view(branch.emul) == first_point(index.emul_comm)
    &&& pair_view(branch.endomul_scalar) == first_point(
        index.endomul_scalar_comm,
    )
    &&& pair_views(branch.coefficients@) == first_points(
        index.coefficients_comm@,
    )
    &&& pair_views(branch.sigma_init@) == first_points(index.sigma_comm@).take(
        PERMUTS - 1,
    )
    &&& pair_views(branch.sigma_last@) == seq![
        first_point(index.sigma_comm@[PERMUTS - 1]),
    ]
}

impl WrapBranchData {
    /// The branch of a step verification key, with the given width.
    pub fn from_step_verifier(index: &KeyIndex<Fq>, proofs_verified: usize) -> (r: Self)
        requires
            index.wf(),
            index.domain_log2 <= u8::MAX,
        ensures
            r.proofs_verified == proofs_verified,
            r.step_domain_log2 == index.domain_log2,
            is_branch_of(*index, r),
    {
        let coefficients = first_pairs(&index.coefficients_comm, index.coefficients_comm.len());
        let sigma_init = first_pairs(&index.sigma_comm, PERMUTS - 1);
        let mut sigma_last: Vec<(Fq, Fq)> = Vec::new();
        sigma_last.push(first_pair(&index.sigma_comm[PERMUTS - 1]));
        proof {
            assert(first_points(index.coefficients_comm@).take(
                index.coefficients_comm@.len() as int,
            ) =~= first_points(index.coefficients_comm@));
            assert(pair_views(sigma_last@) =~= seq![
                first_point(index.sigma_comm@[PERMUTS - 1]),
            ]);
        }
        WrapBranchData {
            proofs_verified,
            step_domain_log2: index.domain_log2 as u8,
            generic: first_pair(&index.generic_comm),
            psm: first_pair(&index.psm_comm),
            complete_add: first_pair(&index.complete_add_comm),
            mul: first_pair(&index.mul_comm),
            emul: first_pair(&index.emul_comm),
            endomul_scalar: first_pair(&index.endomul_scalar_comm),
            coefficients,
            sigma_init,
            sigma_last,
        }
    }
}

/// An element of the smaller field as one of the larger.
pub fn fp_to_fq(x: &Fp) -> (r: Fq)
    ensures
        r.view() == x.view(),
{
    proof {
        Fp::lemma_canonical(*x);
        vstd::arithmetic::div_mod::lemma_small_mod(x.view() as nat, Fq::modulus() as nat);
    }
    embed(x)
}

/// Distinct multiples of a generator, to stand for a key that is not known yet.
pub fn bootstrap_points(generator: &Point<Fp>) -> (r: Vec<Option<Point<Fp>>>)
    ensures
        r@.len() == KEY_POINTS,
        forall|i: int|
            0 <= i < KEY_POINTS ==> element(#[trigger] r@[i]) == Pallas::multiple(
                generator.view(),
                i + 1,
            ),
        on_curve::<Fp>(generator.view()) ==> forall|i: int|
            0 <= i < KEY_POINTS ==> element(#[trigger] r@[i]) == crate::curve::ec_multiple::<Fp>(
                Some(generator.view()),
                (i + 1) as nat,
            ),
{
    let mut out: Vec<Option<Point<Fp>>> = Vec::new();
    while out.len() < KEY_POINTS
        invariant
            out@.len() <= KEY_POINTS,
            forall|i: int|
                0 <= i < out@.len() ==> element(#[trigger] out@[i]) == Pallas::multiple(
                    generator.view(),
                    i + 1,
                ),
            on_curve::<Fp>(generator.view()) ==> forall|i: int|
                0 <= i < out@.len() ==> element(#[trigger] out@[i])
                    == crate::curve::ec_multiple::<Fp>(
                    Some(generator.view()),
                    (i + 1) as nat,
                ),
        decreases KEY_POINTS - out.len(),
    {
        let k: Fq = from_u64((out.len() + 1) as u64);
        let p = Pallas::scale(generator, &k);
        out.push(p);
    }
    out
}

/// All points are on the curve.
pub open spec fn points_on_curve(points: Seq<Point<Fp>>) -> bool {
    forall|i: int| 0 <= i < points.len() ==> on_curve::<Fp>((#[trigger] points[i]).view())
}

fn check_on_curve(points: &[Point<Fp>]) -> (r: bool)
    ensures
        r == points_on_curve(points@),
{
    let mut i: usize = 0;
    while i < points.len()
        invariant
            i <= points@.len(),
            forall|k: int| 0 <= k < i ==> on_curve::<Fp>((#[trigger] points@[k]).view()),
        decreases points.len() - i,
    {
        if !is_on_curve(&points[i]) {
            assert(!on_curve::<Fp>(points@[i as int].view()));
            return false;
        }
        i = i + 1;
    }
    true
}

/// What the step digest of a base case absorbs: the key's points, then the
/// state.
pub open spec fn base_message(vk: Seq<Point<Fp>>, app_state: Seq<Fp>) -> Seq<Option<int>> {
    absorbing(coordinates(vk) + residues(app_state)).push(None)
}

/// The digest of a wrap key and an application state, with no previous proof.
pub fn base_case_digest<H: Fn(&Vec<SpongeOp<Fp>>) -> Fp>(
    sponge: &H,
    vk: &[Point<Fp>],
    app_state: &[Fp],
) -> (r: Fp)
    requires
        forall|v: &Vec<SpongeOp<Fp>>| call_requires(*sponge, (v,)),
    ensures
        replied(*sponge, base_message(vk@, app_state@), r),
{
    let no_points: Vec<Point<Fp>> = Vec::new();
    let no_chals: Vec<Vec<Fp>> = Vec::new();
    let r = hash_messages_for_next_step_proof_ref(
        sponge,
        vk,
        app_state,
        no_points.as_slice(),
        no_chals.as_slice(),
    );
    proof {
        assert(accumulators(no_points@, no_chals@) =~= Seq::empty());
        assert((absorbing(coordinates(vk@)) + absorbing(
            residues(app_state@) + accumulators(no_points@, no_chals@),
        )).push(None) =~= base_message(vk@, app_state@));
    }
    r
}

/// The step circuit of a base case.
pub struct StepCircuit;

impl StepCircuit {
    /// What the circuit asserts: the key's points are on the curve, and the
    /// public digest is that of the key and the application's state. The key is
    /// known only when proving, so its points are witnessed: the first of those
    /// given. Whether the assertions hold.
    pub fn circuit<H: Fn(&Vec<SpongeOp<Fp>>) -> Fp>(
        sponge: &H,
        app_state: &[Fp],
        vk: &[Point<Fp>],
        digest: &Fp,
    ) -> (r: bool)
        requires
            vk@.len() >= KEY_POINTS,
            forall|v: &Vec<SpongeOp<Fp>>| call_requires(*sponge, (v,)),
        ensures
            exists|computed: Fp| #[trigger]
                replied(
                    *sponge,
                    base_message(vk@.take(KEY_POINTS as int), app_state@),
                    computed,
                ) && r == (points_on_curve(vk@.take(KEY_POINTS as int)) && computed.view()
                    == digest.view()),
    {
        let vk = vstd::slice::slice_subrange(vk, 0, KEY_POINTS);
        let on = check_on_curve(vk);
        let computed = base_case_digest(sponge, vk, app_state);
        on && equal(&computed, digest)
    }
}

/// What a prover says of a key that is loaded when proving.
pub struct SideLoadedKeyWitness {
    pub step_domain_log2: u8,
    pub proofs_verified: u8,
    pub wrap_domain_log2: u8,
    pub commitments: Vec<Point<Fp>>,
}

/// The step circuit whose wrap key is loaded when proving.
pub struct SideLoadedStepCircuit {
    pub rule: InductiveRule,
}

impl SideLoadedStepCircuit {
    /// The witness says of the key what the rule says.
    pub open spec fn matches_rule(self, key: SideLoadedKeyWitness) -> bool {
        &&& key.step_domain_log2 == self.rule.step_domain_log2
        &&& key.proofs_verified == self.rule.proofs_verified.count()
        &&& key.wrap_domain_log2 == 13 + self.rule.proofs_verified.count()
    }

    /// What the circuit asserts: the key's domains and width are those of the
    /// rule, its points are on the curve, and the public digest is that of the
    /// key and the application's state. Whether the assertions hold.
    pub fn circuit<H: Fn(&Vec<SpongeOp<Fp>>) -> Fp>(
        &self,
        sponge: &H,
        app_state: &[Fp],
        key: &SideLoadedKeyWitness,
        digest: &Fp,
    ) -> (r: bool)
        requires
            key.commitments@.len() >= KEY_POINTS,
            forall|v: &Vec<SpongeOp<Fp>>| call_requires(*sponge, (v,)),
        ensures
            exists|computed: Fp| #[trigger]
                replied(
                    *sponge,
                    base_message(key.commitments@.take(KEY_POINTS as int), app_state@),
                    computed,
                ) && r == (self.matches_rule(*key) && points_on_curve(
                    key.commitments@.take(KEY_POINTS as int),
                ) && computed.view() == digest.view()),
    {
        let width = self.rule.proofs_verified.to_usize();
        let wrap_domain = wrap_domain_log2(width);
        let matches = key.step_domain_log2 == self.rule.step_domain_log2
            && key.proofs_verified as usize == width && key.wrap_domain_log2 as u32 == wrap_domain;
        let inner = StepCircuit::circuit(
            sponge,
            app_state,
            key.commitments.as_slice(),
            digest,
        );
        matches && inner
    }
}

/// The network encoding of a wrap proof.
pub struct MinaWrapProof {
    pub statement: Vec<Fq>,
    pub wrap_wire_proof: Vec<u8>,
    pub side_loaded_verification_key: String,
}

/// The JSON-safe envelope of a wrap proof: field elements as decimals, bytes as
/// base64.
#[derive(Clone, Debug, PartialEq, Eq)]
pub struct O1jsWrapProofJson {
    pub version: u8,
    pub statement: Vec<String>,
    pub wrap_wire_proof_base64: String,
    pub side_loaded_verification_key_base58: String,
}

/// Why the base-case interface refuses.
#[derive(Clone, Copy, Debug, PartialEq, Eq, Structural)]
pub enum BaseCaseBackendError {
    ExpectedBaseRule(RuleId),
    PublicStateMismatch,
    WrapKeyMismatch,
    InvalidStatementLength(usize),
    InvalidWrapProof,
    MinaProofEncoding,
    MinaVerificationKeyEncoding,
    MinaEncodingMismatch,
    O1jsJsonSerialization,
    O1jsJsonVersion(u8),
    O1jsJsonField,
    O1jsJsonProofBytes,
}

/// The version of the envelope.
pub const O1JS_JSON_VERSION: u8 = 1;

/// `json` is the envelope of a proof.
pub open spec fn is_envelope(proof: MinaWrapProof, json: O1jsWrapProofJson) -> bool {
    &&& json.version == O1JS_JSON_VERSION
    &&& json.statement@.len() == proof.statement@.len()
    &&& forall|i: int|
        0 <= i < proof.statement@.len() ==> (#[trigger] json.statement@[i])@ == decimal_chars(
            proof.statement@[i].view() as nat,
        )
    &&& json.wrap_wire_proof_base64@ == base64_text(proof.wrap_wire_proof@)
    &&& base64_bytes(json.wrap_wire_proof_base64@) == Some(proof.wrap_wire_proof@)
    &&& json.side_loaded_verification_key_base58@ == proof.side_loaded_verification_key@
}

/// What reading an envelope gives: the version is looked at first, then the
/// fields, then the bytes.
pub open spec fn is_read(
    json: O1jsWrapProofJson,
    r: Result<MinaWrapProof, BaseCaseBackendError>,
) -> bool {
    let fields_read = forall|i: int|
        0 <= i < json.statement@.len() ==> fq_of_text((#[trigger] json.statement@[i])@) is Some;
    if json.version != O1JS_JSON_VERSION {
        r == Err::<MinaWrapProof, BaseCaseBackendError>(
            BaseCaseBackendError::O1jsJsonVersion(json.version),
        )
    } else if !fields_read {
        &&& r == Err::<MinaWrapProof, BaseCaseBackendError>(BaseCaseBackendError::O1jsJsonField)
        &&& exists|i: int|
            0 <= i < json.statement@.len() && !is_plain_decimal((#[trigger] json.statement@[i])@)
    } else if base64_bytes(json.wrap_wire_proof_base64@) is None {
        r == Err::<MinaWrapProof, BaseCaseBackendError>(BaseCaseBackendError::O1jsJsonProofBytes)
    } else {
        &&& r is Ok
        &&& r->Ok_0.statement@.len() == json.statement@.len()
        &&& forall|i: int|
            0 <= i < json.statement@.len() ==> {
                let text = json.statement@[i]@;
                &&& fq_of_text(text) == Some((#[trigger] r->Ok_0.statement@[i]).view())
                &&& is_plain_decimal(text) ==> r->Ok_0.statement@[i].view() == decimal_value(
                    encode_utf8(text),
                ) as int % Fq::modulus()
            }
        &&& base64_bytes(json.wrap_wire_proof_base64@) == Some(r->Ok_0.wrap_wire_proof@)
        &&& r->Ok_0.side_loaded_verification_key@ == json.side_loaded_verification_key_base58@
    }
}

/// Two encodings hold the same.
pub open spec fn same_proof(a: MinaWrapProof, b: MinaWrapProof) -> bool {
    &&& residues(a.statement@) == residues(b.statement@)
    &&& a.wrap_wire_proof@ == b.wrap_wire_proof@
    &&& a.side_loaded_verification_key@ == b.side_loaded_verification_key@
}

/// Reading the envelope of a proof gives the proof back.
pub proof fn envelopes_round_trip(
    proof: MinaWrapProof,
    json: O1jsWrapProofJson,
    r: Result<MinaWrapProof, BaseCaseBackendError>,
)
    requires
        is_envelope(proof, json),
        is_read(json, r),
    ensures
        r is Ok,
        same_proof(proof, r->Ok_0),
{
    assert forall|i: int| 0 <= i < json.statement@.len() implies is_plain_decimal(
        (#[trigger] json.statement@[i])@,
    ) by {
        lemma_decimal_is_plain(proof.statement@[i].view() as nat);
    }
    let back = r->Ok_0;
    assert forall|i: int| 0 <= i < back.statement@.len() implies (#[trigger] back.statement@[i]).view()
        == proof.statement@[i].view() by {
        let x = proof.statement@[i];
        assert(json.statement@[i]@ == decimal_chars(x.view() as nat));
        Fq::lemma_canonical(x);
        lemma_decimal_is_plain(x.view() as nat);
        vstd::arithmetic::div_mod::lemma_small_mod(x.view() as nat, Fq::modulus() as nat);
    }
    assert(residues(proof.statement@) =~= residues(back.statement@));
}

impl MinaWrapProof {
    /// The envelope.
    pub fn to_o1js_json_value(&self) -> (r: O1jsWrapProofJson)
        ensures
            is_envelope(*self, r),
    {
        let mut statement: Vec<String> = Vec::new();
        let mut i: usize = 0;
        while i < self.statement.len()
            invariant
                i <= self.statement@.len(),
                statement@.len() == i,
                forall|k: int|
                    0 <= k < i ==> (#[trigger] statement@[k])@ == decimal_chars(
                        self.statement@[k].view() as nat,
                    ),
            decreases self.statement.len() - i,
        {
            statement.push(field_to_decimal(&self.statement[i]));
            i = i + 1;
        }
        O1jsWrapProofJson {
            version: O1JS_JSON_VERSION,
            statement,
            wrap_wire_proof_base64: base64_encode(self.wrap_wire_proof.as_slice()),
            side_loaded_verification_key_base58: self.side_loaded_verification_key.clone(),
        }
    }

    /// Reads an envelope.
    pub fn from_o1js_json_value(value: O1jsWrapProofJson) -> (r: Result<
        Self,
        BaseCaseBackendError,
    >)
        ensures
            is_read(value, r),
    {
        if value.version != O1JS_JSON_VERSION {
            return Err(BaseCaseBackendError::O1jsJsonVersion(value.version));
        }
        let mut statement: Vec<Fq> = Vec::new();
        let mut i: usize = 0;
        while i < value.statement.len()
            invariant
                i <= value.statement@.len(),
                value.version == O1JS_JSON_VERSION,
                statement@.len() == i,
                forall|k: int|
                    0 <= k < i ==> {
                        let text = value.statement@[k]@;
                        &&& fq_of_text(text) == Some((#[trigger] statement@[k]).view())
                        &&& is_plain_decimal(text) ==> statement@[k].view() == decimal_value(
                            encode_utf8(text),
                        ) as int % Fq::modulus()
                    },
            decreases value.statement.len() - i,
        {
            match ark_fq_parse(value.statement[i].as_str()) {
                None => {
                    assert(fq_of_text(value.statement@[i as int]@) is None);
                    assert(!is_plain_decimal(value.statement@[i as int]@));
                    return Err(BaseCaseBackendError::O1jsJsonField);
                },
                Some(limbs) => {
                    let x = Fq::from_limbs(limbs).unwrap();
                    statement.push(x);
                },
            }
            i = i + 1;
        }
        assert forall|k: int| 0 <= k < value.statement@.len() implies fq_of_text(
            (#[trigger] value.statement@[k])@,
        ) is Some by {
            assert(fq_of_text(value.statement@[k]@) == Some(statement@[k].view()));
        }
        match base64_decode(value.wrap_wire_proof_base64.as_str()) {
            None => Err(BaseCaseBackendError::O1jsJsonProofBytes),
            Some(wrap_wire_proof) => Ok(
                MinaWrapProof {
                    statement,
                    wrap_wire_proof,
                    side_loaded_verification_key: value.side_loaded_verification_key_base58,
                },
            ),
        }
    }
}

/// What the wrap side knows of the step side's setup: the key, its digest, the
/// blinding point, and the first Lagrange point with its correction.
pub struct StepSetup {
    pub index: KeyIndex<Fq>,
    pub vk_digest: Fq,
    pub srs_h: (Fq, Fq),
    pub l0: (Fq, Fq),
    pub correction: (Fq, Fq),
}

/// The commitments and the opening of a step proof.
pub struct StepProofParts {
    pub w_comm: Vec<PolyComm<Fq>>,
    pub z_comm: PolyComm<Fq>,
    pub t_comm: PolyComm<Fq>,
    pub lr: Vec<(Option<Point<Fq>>, Option<Point<Fq>>)>,
    pub delta: Option<Point<Fq>>,
    pub sg: Option<Point<Fq>>,
    /// The commitments of the accumulators that the proof folds.
    pub prev_challenges: Vec<PolyComm<Fq>>,
}

/// What the transcript of a step proof gives: raw challenges, shifted
/// representatives, the digest.
pub struct WrapTranscript {
    pub alpha_raw: Fq,
    pub beta_raw: Fq,
    pub gamma_raw: Fq,
    pub zeta_raw: Fq,
    pub zeta_to_srs_length_repr: Fp,
    pub zeta_to_domain_size_repr: Fp,
    pub perm_repr: Fp,
    pub cip_repr: Fp,
    pub b_repr: Fp,
    pub z1_repr: Fp,
    pub z2_repr: Fp,
    pub sponge_digest: Fp,
    pub bulletproof_prechallenges: Vec<Fq>,
}

/// What a base case is built into.
pub enum BaseCaseBuild {
    /// The witness to compile the wrap circuit with.
    Compiled { witness: WrapWitnessData },
    /// The wrap statement, the witness to prove it with, the raw challenges that
    /// its message for the next proof carries, and the key that it was built for.
    Proof {
        statement: Vec<Fq>,
        witness: WrapWitnessData,
        old_bulletproof_challenges: Vec<Vec<Fq>>,
        wrap_vk_pts: Vec<Point<Fp>>,
    },
}

/// A step proof with what its transcript gave, and with what the second
/// transcript takes in: the first one's digest and the evaluations.
pub struct ProvedStep {
    pub parts: StepProofParts,
    pub transcript: WrapTranscript,
    pub oracle_digest: Fp,
    pub ft_eval1: Fp,
    pub public_evals: (Vec<Fp>, Vec<Fp>),
    pub evals: AbsorbEvalsVar<Fp>,
}

impl ProvedStep {
    /// There is a chunk wherever one is read, and there are no more challenges
    /// than rounds.
    pub open spec fn wf(self) -> bool {
        &&& self.transcript.bulletproof_prechallenges@.len() <= TICK_ROUNDS
        &&& all_chunked(self.parts.w_comm@)
        &&& self.parts.z_comm.chunks@.len() > 0
        &&& all_chunked(self.parts.prev_challenges@)
    }

    /// What the second transcript absorbs, given the digest of no previous
    /// challenges.
    pub open spec fn absorbed(self, no_challenges: Fp) -> Seq<Fp> {
        seq![self.oracle_digest, no_challenges, self.ft_eval1] + self.public_evals.0@
            + self.public_evals.1@ + flatten_points(self.evals.ordered_points())
    }
}

/// `xi` is the 128-bit challenge that the second transcript of a step proof
/// without previous challenges gives.
pub open spec fn xi_squeezed<H: Fn(&Vec<SpongeOp<Fp>>) -> Fp>(
    sponge: H,
    proved: ProvedStep,
    xi: Fp,
) -> bool {
    exists|no_challenges: Fp| #[trigger]
        replied(sponge, seq![None], no_challenges) && challenged(
            sponge,
            absorbing(residues(proved.absorbed(no_challenges))).push(None),
            xi,
        )
}

/// The 128-bit challenge that combines the polynomials of a step proof.
pub fn claimed_xi<H: Fn(&Vec<SpongeOp<Fp>>) -> Fp>(sponge: &H, proved: &ProvedStep) -> (xi: Fp)
    requires
        forall|v: &Vec<SpongeOp<Fp>>| call_requires(*sponge, (v,)),
    ensures
        xi_squeezed(*sponge, *proved, xi),
{
    let prev_challenges: Vec<Vec<Fp>> = Vec::new();
    let prev_challenge_mask: Option<Vec<bool>> = None;
    let inputs = FrSpongeInputs {
        digest: proved.oracle_digest,
        prev_challenges: &prev_challenges,
        prev_challenge_mask: &prev_challenge_mask,
        ft_eval1: proved.ft_eval1,
        public_evals: &proved.public_evals,
        evals: &proved.evals,
        xi_constrain_low_bits: true,
    };
    let (first, second) = squeeze_transcript(&inputs, sponge);
    let xi = lowest_128_bits(&first, true).lo;
    proof {
        let none = inputs.prev_challenges_spec();
        let digest = choose|digest: Fp|
            {
                let ops = absorbing(residues(inputs.transcript_spec(digest))).push(None);
                &&& #[trigger] replied(*sponge, absorbing(residues(none)).push(None), digest)
                &&& replied(*sponge, ops, first)
                &&& replied(*sponge, ops.push(None), second)
            };
        assert(absorbing(residues(none)).push(None) =~= seq![None]);
        assert(inputs.transcript_spec(digest) =~= proved.absorbed(digest));
        assert(replied(*sponge, seq![None], digest));
    }
    xi
}

/// The witness describes the step key, and has neither branches nor previous
/// proofs.
pub open spec fn is_setup_witness(setup: StepSetup, w: WrapWitnessData) -> bool {
    &&& w.which_branch == 0
    &&& w.branches@.len() == 0
    &&& w.step_domain_log2 == setup.index.domain_log2
    &&& w.step_vk_digest == setup.vk_digest
    &&& pair_view(w.generic) == first_point(setup.index.generic_comm)
    &&& pair_view(w.psm) == first_point(setup.index.psm_comm)
    &&& pair_view(w.complete_add) == first_point(setup.index.complete_add_comm)
    &&& pair_view(w.mul) == first_point(setup.index.mul_comm)
    &&& pair_view(w.emul) == first_point(setup.index.emul_comm)
    &&& pair_view(w.endomul_scalar) == first_point(setup.index.endomul_scalar_comm)
    &&& pair_views(w.coefficients@) == first_points(
        setup.index.coefficients_comm@,
    )
    &&& pair_views(w.sigma_init@) == first_points(
        setup.index.sigma_comm@,
    ).take(PERMUTS - 1)
    &&& pair_views(w.sigma_last@) == seq![
        first_point(setup.index.sigma_comm@[PERMUTS - 1]),
    ]
    &&& w.unfinalized@.len() == 0
    &&& w.step_statement_lagranges@ == seq![(setup.l0, setup.correction)]
    &&& w.h == setup.srs_h
}

/// Every pair of a list is the given one.
pub open spec fn all_are(ps: Seq<(Fq, Fq)>, n: int, p: (Fq, Fq)) -> bool {
    &&& ps.len() == n
    &&& forall|i: int| 0 <= i < n ==> #[trigger] ps[i] == p
}

/// The witness that only gives the circuit its shape: every point of the proof
/// is the generator.
pub open spec fn is_shape_witness(
    setup: StepSetup,
    generator: (Fq, Fq),
    dummies: Seq<Vec<Fq>>,
    w: WrapWitnessData,
) -> bool {
    &&& is_setup_witness(setup, w)
    &&& all_are(w.w_comm@, COLUMNS as int, generator)
    &&& w.z_comm == generator
    &&& all_are(w.t_comm@, 7, generator)
    &&& w.lr@.len() == TICK_ROUNDS
    &&& forall|i: int| 0 <= i < TICK_ROUNDS ==> #[trigger] w.lr@[i] == (generator, generator)
    &&& w.delta == generator
    &&& w.sg == generator
    &&& w.z1_repr.view() == 0
    &&& w.z2_repr.view() == 0
    &&& w.sg_olds@.len() == 0
    &&& w.step_statement@.len() == 1
    &&& w.step_statement@[0] matches WrapStepStatementSlot::Packed { value, num_bits }
        && value.view() == 0 && num_bits == SCALAR_BITS
    &&& same_rows(w.new_acc_dummies@, dummies)
}

/// The coordinates of both points of each round.
pub open spec fn rounds_are(
    lr: Seq<(Option<Point<Fq>>, Option<Point<Fq>>)>,
    r: Seq<((Fq, Fq), (Fq, Fq))>,
) -> bool {
    &&& r.len() == lr.len()
    &&& forall|i: int|
        0 <= i < lr.len() ==> pair_view((#[trigger] r[i]).0) == affine(
            element(lr[i].0),
        ) && pair_view(r[i].1) == affine(element(lr[i].1))
}

/// The coordinates of every chunk.
pub open spec fn chunks_are(comm: PolyComm<Fq>, r: Seq<(Fq, Fq)>) -> bool {
    &&& r.len() == comm.chunks@.len()
    &&& forall|i: int|
        0 <= i < r.len() ==> pair_view(#[trigger] r[i]) == affine(
            element(comm.chunks@[i]),
        )
}

/// The witness of a step proof.
pub open spec fn is_proof_witness(
    setup: StepSetup,
    proved: ProvedStep,
    digest: Fp,
    dummies: Seq<Vec<Fq>>,
    w: WrapWitnessData,
) -> bool {
    &&& is_setup_witness(setup, w)
    &&& pair_views(w.w_comm@) == first_points(proved.parts.w_comm@)
    &&& pair_view(w.z_comm) == first_point(proved.parts.z_comm)
    &&& chunks_are(proved.parts.t_comm, w.t_comm@)
    &&& rounds_are(proved.parts.lr@, w.lr@)
    &&& pair_view(w.delta) == affine(element(proved.parts.delta))
    &&& pair_view(w.sg) == affine(element(proved.parts.sg))
    &&& w.z1_repr.view() == proved.transcript.z1_repr.view()
    &&& w.z2_repr.view() == proved.transcript.z2_repr.view()
    &&& pair_views(w.sg_olds@) == first_points(proved.parts.prev_challenges@)
    &&& w.step_statement@.len() == 1
    &&& w.step_statement@[0] matches WrapStepStatementSlot::Packed { value, num_bits }
        && value.view() == digest.view() && num_bits == SCALAR_BITS
    &&& same_rows(w.new_acc_dummies@, dummies)
}

/// The statement of a base case: the transcript's values, the digests, the
/// challenges padded in front with zeros, the domain with width zero, and no
/// feature.
pub open spec fn base_statement(
    t: WrapTranscript,
    xi: int,
    digest: int,
    wrap_digest: int,
    domain_log2: int,
) -> Seq<int> {
    seq![
        t.cip_repr.view(),
        t.b_repr.view(),
        t.zeta_to_srs_length_repr.view(),
        t.zeta_to_domain_size_repr.view(),
        t.perm_repr.view(),
        t.beta_raw.view(),
        t.gamma_raw.view(),
        t.alpha_raw.view(),
        t.zeta_raw.view(),
        xi,
        t.sponge_digest.view(),
        wrap_digest,
        digest,
    ] + Seq::new(
        (TICK_ROUNDS - t.bulletproof_prechallenges@.len()) as nat,
        |i: int| 0int,
    ) + residues(t.bulletproof_prechallenges@) + seq![4 * domain_log2] + Seq::new(
        10,
        |i: int| 0int,
    )
}

fn affine_pair(p: &Option<Point<Fq>>) -> (r: (Fq, Fq))
    ensures
        pair_view(r) == affine(element(*p)),
{
    match p {
        None => (zero(), zero()),
        Some(q) => (q.x, q.y),
    }
}

fn affine_pairs(points: &Vec<Option<Point<Fq>>>) -> (r: Vec<(Fq, Fq)>)
    ensures
        r@.len() == points@.len(),
        forall|i: int|
            0 <= i < r@.len() ==> pair_view(#[trigger] r@[i]) == affine(
                element(points@[i]),
            ),
{
    let mut out: Vec<(Fq, Fq)> = Vec::new();
    let mut i: usize = 0;
    while i < points.len()
        invariant
            i <= points@.len(),
            out@.len() == i,
            forall|k: int|
                0 <= k < i ==> pair_view(#[trigger] out@[k]) == affine(
                    element(points@[k]),
                ),
        decreases points.len() - i,
    {
        out.push(affine_pair(&points[i]));
        i = i + 1;
    }
    out
}

fn repeated(p: (Fq, Fq), n: usize) -> (r: Vec<(Fq, Fq)>)
    ensures
        all_are(r@, n as int, p),
{
    let mut out: Vec<(Fq, Fq)> = Vec::new();
    while out.len() < n
        invariant
            out@.len() <= n,
            forall|i: int| 0 <= i < out@.len() ==> #[trigger] out@[i] == p,
        decreases n - out.len(),
    {
        out.push(p);
    }
    out
}

fn repeated_rounds(p: (Fq, Fq), n: usize) -> (r: Vec<((Fq, Fq), (Fq, Fq))>)
    ensures
        r@.len() == n,
        forall|i: int| 0 <= i < n ==> #[trigger] r@[i] == (p, p),
{
    let mut out: Vec<((Fq, Fq), (Fq, Fq))> = Vec::new();
    while out.len() < n
        invariant
            out@.len() <= n,
            forall|i: int| 0 <= i < out@.len() ==> #[trigger] out@[i] == (p, p),
        decreases n - out.len(),
    {
        out.push((p, p));
    }
    out
}

fn one_pair(a: (Fq, Fq), b: (Fq, Fq)) -> (r: Vec<((Fq, Fq), (Fq, Fq))>)
    ensures
        r@ == seq![(a, b)],
{
    let mut out: Vec<((Fq, Fq), (Fq, Fq))> = Vec::new();
    out.push((a, b));
    assert(out@ =~= seq![(a, b)]);
    out
}

fn packed_slot(value: Fq) -> (r: Vec<WrapStepStatementSlot>)
    ensures
        r@ == seq![WrapStepStatementSlot::Packed { value, num_bits: SCALAR_BITS }],
{
    let mut out: Vec<WrapStepStatementSlot> = Vec::new();
    out.push(WrapStepStatementSlot::Packed { value, num_bits: SCALAR_BITS });
    assert(out@ =~= seq![WrapStepStatementSlot::Packed { value, num_bits: SCALAR_BITS }]);
    out
}

/// The part of a witness that comes from the proof.
struct ProofSide {
    w_comm: Vec<(Fq, Fq)>,
    z_comm: (Fq, Fq),
    t_comm: Vec<(Fq, Fq)>,
    lr: Vec<((Fq, Fq), (Fq, Fq))>,
    delta: (Fq, Fq),
    sg: (Fq, Fq),
    z1_repr: Fq,
    z2_repr: Fq,
    sg_olds: Vec<(Fq, Fq)>,
    step_statement: Vec<WrapStepStatementSlot>,
    new_acc_dummies: Vec<Vec<Fq>>,
}

fn setup_witness(setup: &StepSetup, side: ProofSide) -> (w: WrapWitnessData)
    requires
        setup.index.wf(),
        setup.index.domain_log2 <= u8::MAX,
    ensures
        is_setup_witness(*setup, w),
        w.w_comm == side.w_comm,
        w.z_comm == side.z_comm,
        w.t_comm == side.t_comm,
        w.lr == side.lr,
        w.delta == side.delta,
        w.sg == side.sg,
        w.z1_repr == side.z1_repr,
        w.z2_repr == side.z2_repr,
        w.sg_olds == side.sg_olds,
        w.step_statement == side.step_statement,
        w.new_acc_dummies == side.new_acc_dummies,
{
    let branch = WrapBranchData::from_step_verifier(&setup.index, 0);
    WrapWitnessData {
        which_branch: 0,
        branches: Vec::new(),
        step_domain_log2: branch.step_domain_log2,
        step_vk_digest: setup.vk_digest,
        generic: branch.generic,
        psm: branch.psm,
        complete_add: branch.complete_add,
        mul: branch.mul,
        emul: branch.emul,
        endomul_scalar: branch.endomul_scalar,
        coefficients: branch.coefficients,
        sigma_init: branch.sigma_init,
        sigma_last: branch.sigma_last,
        w_comm: side.w_comm,
        z_comm: side.z_comm,
        t_comm: side.t_comm,
        lr: side.lr,
        delta: side.delta,
        sg: side.sg,
        z1_repr: side.z1_repr,
        z2_repr: side.z2_repr,
        sg_olds: side.sg_olds,
        unfinalized: Vec::new(),
        step_statement: side.step_statement,
        step_statement_lagranges: one_pair(setup.l0, setup.correction),
        h: setup.srs_h,
        new_acc_dummies: side.new_acc_dummies,
    }
}

/// The witness that gives the wrap circuit its shape. No application witness is
/// needed: the shape depends on the key and on fixed dimensions alone.
pub fn shape_witness(setup: &StepSetup, generator: (Fq, Fq), dummies: &Vec<Vec<Fq>>) -> (w:
    WrapWitnessData)
    requires
        setup.index.wf(),
        setup.index.domain_log2 <= u8::MAX,
    ensures
        is_shape_witness(*setup, generator, dummies@, w),
{
    let nothing: Fq = zero();
    let side = ProofSide {
        w_comm: repeated(generator, COLUMNS),
        z_comm: generator,
        t_comm: repeated(generator, 7),
        lr: repeated_rounds(generator, TICK_ROUNDS),
        delta: generator,
        sg: generator,
        z1_repr: nothing,
        z2_repr: nothing,
        sg_olds: Vec::new(),
        step_statement: packed_slot(nothing),
        new_acc_dummies: copied_rows(dummies),
    };
    setup_witness(setup, side)
}

/// The witness of a step proof for the given digest.
pub fn proof_witness(
    setup: &StepSetup,
    proved: &ProvedStep,
    digest: &Fp,
    dummies: &Vec<Vec<Fq>>,
) -> (w: WrapWitnessData)
    requires
        setup.index.wf(),
        setup.index.domain_log2 <= u8::MAX,
        proved.wf(),
    ensures
        is_proof_witness(*setup, *proved, *digest, dummies@, w),
{
    let parts = &proved.parts;
    let w_comm = first_pairs(&parts.w_comm, parts.w_comm.len());
    let sg_olds = first_pairs(&parts.prev_challenges, parts.prev_challenges.len());
    proof {
        let w_points = first_points(parts.w_comm@);
        let old_points = first_points(parts.prev_challenges@);
        assert(w_points.take(parts.w_comm@.len() as int) =~= w_points);
        assert(old_points.take(parts.prev_challenges@.len() as int) =~= old_points);
    }
    let mut lr: Vec<((Fq, Fq), (Fq, Fq))> = Vec::new();
    let mut i: usize = 0;
    while i < parts.lr.len()
        invariant
            i <= parts.lr@.len(),
            lr@.len() == i,
            forall|k: int|
                0 <= k < i ==> pair_view((#[trigger] lr@[k]).0) == affine(
                    element(parts.lr@[k].0),
                ) && pair_view(lr@[k].1) == affine(element(parts.lr@[k].1)),
        decreases parts.lr.len() - i,
    {
        lr.push((affine_pair(&parts.lr[i].0), affine_pair(&parts.lr[i].1)));
        i = i + 1;
    }
    let side = ProofSide {
        w_comm,
        z_comm: first_pair(&parts.z_comm),
        t_comm: affine_pairs(&parts.t_comm.chunks),
        lr,
        delta: affine_pair(&parts.delta),
        sg: affine_pair(&parts.sg),
        z1_repr: fp_to_fq(&proved.transcript.z1_repr),
        z2_repr: fp_to_fq(&proved.transcript.z2_repr),
        sg_olds,
        step_statement: packed_slot(fp_to_fq(digest)),
        new_acc_dummies: copied_rows(dummies),
    };
    setup_witness(setup, side)
}

/// The wrap statement of a base case, in the network layout.
pub fn base_case_statement(
    t: &WrapTranscript,
    claimed_xi_raw: &Fp,
    digest: &Fp,
    wrap_digest: &Fq,
    domain_log2: u8,
) -> (r: Vec<Fq>)
    requires
        t.bulletproof_prechallenges@.len() <= TICK_ROUNDS,
    ensures
        residues(r@) == base_statement(
            *t,
            claimed_xi_raw.view(),
            digest.view(),
            wrap_digest.view(),
            domain_log2 as int,
        ),
        r@.len() == 40,
{
    let plonk = plonk::InCircuit {
        alpha: ScalarChallenge(t.alpha_raw),
        beta: t.beta_raw,
        gamma: t.gamma_raw,
        zeta: ScalarChallenge(t.zeta_raw),
        zeta_to_srs_length: fp_to_fq(&t.zeta_to_srs_length_repr),
        zeta_to_domain_size: fp_to_fq(&t.zeta_to_domain_size_repr),
        perm: fp_to_fq(&t.perm_repr),
        feature_flags: Features::none(),
        joint_combiner: None,
    };
    let mut chals: Vec<BulletproofChallenge<ScalarChallenge<Fq>>> = Vec::new();
    let mut i: usize = 0;
    while i < t.bulletproof_prechallenges.len()
        invariant
            i <= t.bulletproof_prechallenges@.len(),
            chals@.len() == i,
            forall|k: int|
                0 <= k < i ==> (#[trigger] chals@[k]).prechallenge.0
                    == t.bulletproof_prechallenges@[k],
        decreases t.bulletproof_prechallenges.len() - i,
    {
        chals.push(
            BulletproofChallenge { prechallenge: ScalarChallenge(t.bulletproof_prechallenges[i]) },
        );
        i = i + 1;
    }
    assert(challenge_residues(chals@) =~= residues(t.bulletproof_prechallenges@));
    let branch = BranchData { proofs_verified: ProofsVerified::N0, domain_log2 };
    let r = wrap_statement_to_field_elements_ocaml(
        &plonk,
        fp_to_fq(&t.cip_repr),
        fp_to_fq(&t.b_repr),
        &ScalarChallenge(fp_to_fq(claimed_xi_raw)),
        chals.as_slice(),
        &ScalarChallenge(zero()),
        &branch,
        fp_to_fq(&t.sponge_digest),
        *wrap_digest,
        fp_to_fq(digest),
    );
    assert(flag_residues(plonk.feature_flags) =~= Seq::new(8, |i: int| 0int));
    assert(residues(r@) =~= base_statement(
        *t,
        claimed_xi_raw.view(),
        digest.view(),
        wrap_digest.view(),
        domain_log2 as int,
    ));
    r
}

/// The dummies in place of two absent proofs, in field form.
pub open spec fn dummies_drawn<R: Fn(usize) -> u128, E: Fn(Fq) -> Fq>(
    stream: R,
    to_field: E,
    dummies: Seq<Vec<Fq>>,
) -> bool {
    exists|ipa: DummyIpa<Fq>| #[trigger]
        drawn(stream, to_field, 0, TOCK_ROUNDS as int, ipa) && is_padded(
            Seq::empty(),
            ipa.challenges_computed@,
            dummies,
        )
}

/// The dummies in place of two absent proofs, as drawn.
pub open spec fn raw_dummies_drawn<R: Fn(usize) -> u128, E: Fn(Fq) -> Fq>(
    stream: R,
    to_field: E,
    dummies: Seq<Vec<Fq>>,
) -> bool {
    exists|ipa: DummyIpa<Fq>| #[trigger]
        drawn(stream, to_field, 0, TOCK_ROUNDS as int, ipa) && is_padded(
            Seq::empty(),
            ipa.prechallenges@,
            dummies,
        )
}

/// The digest of the message for the next wrap proof: the dummies and a
/// commitment.
pub open spec fn wrap_digested<H: Fn(&Vec<SpongeOp<Fq>>) -> Fq>(
    sponge: H,
    dummies: Seq<Vec<Fq>>,
    commitment: (int, int),
    digest: Fq,
) -> bool {
    exists|sg: Point<Fq>|
        sg.view() == commitment && replied(
            sponge,
            absorbing(#[trigger] wrap_message(dummies, Seq::<Vec<Fq>>::empty(), sg)).push(None),
            digest,
        )
}

/// What a base case is built into for a step proof of the given digest.
pub open spec fn proof_built<
    HP: Fn(&Vec<SpongeOp<Fp>>) -> Fp,
    H: Fn(&Vec<SpongeOp<Fq>>) -> Fq,
    R: Fn(usize) -> u128,
    E: Fn(Fq) -> Fq,
>(
    setup: StepSetup,
    proved: ProvedStep,
    digest: Fp,
    vk: Seq<Point<Fp>>,
    sponge_fp: HP,
    sponge: H,
    stream: R,
    to_field: E,
    r: BaseCaseBuild,
) -> bool {
    match r {
        BaseCaseBuild::Compiled { .. } => false,
        BaseCaseBuild::Proof { statement, witness, old_bulletproof_challenges, wrap_vk_pts } => {
            &&& wrap_vk_pts@ == vk
            &&& raw_dummies_drawn(stream, to_field, old_bulletproof_challenges@)
            &&& statement@.len() == 40
            &&& statement@[DIGEST_SLOT as int].view() == digest.view()
            &&& exists|dummies: Seq<Vec<Fq>>, wrap_digest: Fq, xi: Fp|
                {
                    &&& #[trigger] dummies_drawn(stream, to_field, dummies)
                    &&& #[trigger] wrap_digested(
                        sponge,
                        dummies,
                        affine(element(proved.parts.sg)),
                        wrap_digest,
                    )
                    &&& #[trigger] xi_squeezed(sponge_fp, proved, xi)
                    &&& is_proof_witness(setup, proved, digest, dummies, witness)
                    &&& residues(statement@) == base_statement(
                        proved.transcript,
                        xi.view(),
                        digest.view(),
                        wrap_digest.view(),
                        setup.index.domain_log2 as int,
                    )
                }
        },
    }
}

fn drawn_dummies<R: Fn(usize) -> u128, E: Fn(Fq) -> Fq>(stream: &R, to_field: &E) -> (r: Vec<
    Vec<Fq>,
>)
    requires
        forall|i: usize| call_requires(*stream, (i,)),
        forall|x: Fq| call_requires(*to_field, (x,)),
    ensures
        dummies_drawn(*stream, *to_field, r@),
{
    let none: Vec<Vec<Fq>> = Vec::new();
    let dummies = pad_wrap_challenges(none.as_slice(), stream, to_field);
    assert(none@ =~= Seq::empty());
    dummies
}

/// Builds a base case from a step proof of the given digest: the statement and
/// the witness of the wrap proof.
pub fn build_from_step_proof<
    HP: Fn(&Vec<SpongeOp<Fp>>) -> Fp,
    H: Fn(&Vec<SpongeOp<Fq>>) -> Fq,
    R: Fn(usize) -> u128,
    E: Fn(Fq) -> Fq,
>(
    setup: &StepSetup,
    proved: &ProvedStep,
    digest: &Fp,
    wrap_vk_pts: Vec<Point<Fp>>,
    sponge_fp: &HP,
    sponge: &H,
    stream: &R,
    to_field: &E,
) -> (r: BaseCaseBuild)
    requires
        setup.index.wf(),
        setup.index.domain_log2 <= u8::MAX,
        proved.wf(),
        forall|v: &Vec<SpongeOp<Fp>>| call_requires(*sponge_fp, (v,)),
        forall|v: &Vec<SpongeOp<Fq>>| call_requires(*sponge, (v,)),
        forall|i: usize| call_requires(*stream, (i,)),
        forall|x: Fq| call_requires(*to_field, (x,)),
    ensures
        proof_built(
            *setup,
            *proved,
            *digest,
            wrap_vk_pts@,
            *sponge_fp,
            *sponge,
            *stream,
            *to_field,
            r,
        ),
{
    let none: Vec<Vec<Fq>> = Vec::new();
    assert(none@ =~= Seq::empty());
    let dummies = drawn_dummies(stream, to_field);
    let raw = ipa_challenges(stream, 0, TOCK_ROUNDS, to_field);
    let mut old_bulletproof_challenges: Vec<Vec<Fq>> = Vec::new();
    old_bulletproof_challenges.push(copied(&raw.prechallenges));
    old_bulletproof_challenges.push(copied(&raw.prechallenges));
    assert(is_padded(Seq::empty(), raw.prechallenges@, old_bulletproof_challenges@));
    let xi = claimed_xi(sponge_fp, proved);
    let (x, y) = affine_pair(&proved.parts.sg);
    let sg = Point { x, y };
    let wrap_digest = hash_messages_for_next_wrap_proof(
        sponge,
        dummies.as_slice(),
        none.as_slice(),
        &sg,
    );
    assert(wrap_digested(
        *sponge,
        dummies@,
        affine(element(proved.parts.sg)),
        wrap_digest,
    )) by {
        assert(replied(
            *sponge,
            absorbing(wrap_message(dummies@, Seq::<Vec<Fq>>::empty(), sg)).push(None),
            wrap_digest,
        ));
    }
    let statement = base_case_statement(
        &proved.transcript,
        &xi,
        digest,
        &wrap_digest,
        setup.index.domain_log2 as u8,
    );
    assert(residues(statement@)[DIGEST_SLOT as int] == statement@[DIGEST_SLOT as int].view());
    let witness = proof_witness(setup, proved, digest, &dummies);
    BaseCaseBuild::Proof { statement, witness, old_bulletproof_challenges, wrap_vk_pts }
}

/// Builds a base case. Without `prove_wrap` it is only the witness for the
/// circuit's shape, whatever the application's witness. Else `prove_step` proves
/// the execution for the digest of the key and of the application's state, and
/// the statement and the witness of the wrap proof are built from that proof.
/// `sponge_fp` and `sponge` hash on the step and on the wrap side, and `stream`
/// and `to_field` give the dummy challenges.
pub fn build_base_case<
    A: StepApp,
    P: Fn(&A, A::Witness, &Vec<Point<Fp>>, &Fp) -> ProvedStep,
    HP: Fn(&Vec<SpongeOp<Fp>>) -> Fp,
    H: Fn(&Vec<SpongeOp<Fq>>) -> Fq,
    R: Fn(usize) -> u128,
    E: Fn(Fq) -> Fq,
    const ROUNDS: usize,
    const STMT_LEN: usize,
>(
    app: &A,
    witness: A::Witness,
    wrap_vk_pts: Vec<Point<Fp>>,
    prove_wrap: bool,
    setup: &StepSetup,
    generator: (Fq, Fq),
    prove_step: &P,
    sponge_fp: &HP,
    sponge: &H,
    stream: &R,
    to_field: &E,
) -> (r: BaseCaseBuild)
    requires
        STMT_LEN == STATEMENT_HEAD + ROUNDS + STATEMENT_TAIL,
        prove_wrap ==> STMT_LEN == 40,
        setup.index.wf(),
        setup.index.domain_log2 <= u8::MAX,
        forall|d: &Fp| call_requires(*prove_step, (app, witness, &wrap_vk_pts, d)),
        forall|d: &Fp, p: ProvedStep| #[trigger]
            call_ensures(*prove_step, (app, witness, &wrap_vk_pts, d), p) ==> p.wf(),
        forall|v: &Vec<SpongeOp<Fp>>| call_requires(*sponge_fp, (v,)),
        forall|v: &Vec<SpongeOp<Fq>>| call_requires(*sponge, (v,)),
        forall|i: usize| call_requires(*stream, (i,)),
        forall|x: Fq| call_requires(*to_field, (x,)),
    ensures
        !prove_wrap ==> r is Compiled,
        r matches BaseCaseBuild::Compiled { witness: w } ==> !prove_wrap && exists|
            dummies: Seq<Vec<Fq>>,
        | #[trigger]
            dummies_drawn(*stream, *to_field, dummies) && is_shape_witness(
                *setup,
                generator,
                dummies,
                w,
            ),
        r matches BaseCaseBuild::Proof { statement, .. } ==> statement@.len() == STMT_LEN && exists|
            state: Vec<Fp>,
            digest: Fp,
            proved: ProvedStep,
        |
            {
                &&& #[trigger] call_ensures(A::state, (app, &witness), state)
                &&& #[trigger] replied(
                    *sponge_fp,
                    base_message(wrap_vk_pts@, state@),
                    digest,
                )
                &&& #[trigger] call_ensures(
                    *prove_step,
                    (app, witness, &wrap_vk_pts, &digest),
                    proved,
                )
                &&& statement@[DIGEST_SLOT as int].view() == digest.view()
                &&& proof_built(
                    *setup,
                    proved,
                    digest,
                    wrap_vk_pts@,
                    *sponge_fp,
                    *sponge,
                    *stream,
                    *to_field,
                    r,
                )
            },
{
    let state = app.state(&witness);
    if !prove_wrap {
        let dummies = drawn_dummies(stream, to_field);
        let shape = shape_witness(setup, generator, &dummies);
        return BaseCaseBuild::Compiled { witness: shape };
    }
    let digest = base_case_digest(sponge_fp, wrap_vk_pts.as_slice(), state.as_slice());
    let proved = prove_step(app, witness, &wrap_vk_pts, &digest);
    build_from_step_proof(
        setup,
        &proved,
        &digest,
        wrap_vk_pts,
        sponge_fp,
        sponge,
        stream,
        to_field,
    )
}

/// Where the wrap indexes come from.
#[derive(Clone, Copy, Debug, PartialEq, Eq, Structural)]
pub enum IndexSource {
    /// Given with the request.
    Given,
    /// Restored from a cached index.
    Cached,
    /// Compiled from the circuit.
    Compiled,
}

/// Where the wrap indexes come from: given ones first, then a cached index that
/// loads, else a compile.
pub fn wrap_index_source(given: bool, cached: bool, cache_loads: bool) -> (r: IndexSource)
    ensures
        r == if given {
            IndexSource::Given
        } else if cached && cache_loads {
            IndexSource::Cached
        } else {
            IndexSource::Compiled
        },
{
    if given {
        IndexSource::Given
    } else if cached && cache_loads {
        IndexSource::Cached
    } else {
        IndexSource::Compiled
    }
}

fn same_elements(a: &[Fp], b: &[Fp]) -> (r: bool)
    ensures
        r == (residues(a@) == residues(b@)),
{
    if a.len() != b.len() {
        assert(residues(a@).len() != residues(b@).len());
        return false;
    }
    let mut i: usize = 0;
    while i < a.len()
        invariant
            i <= a@.len(),
            a@.len() == b@.len(),
            forall|k: int| 0 <= k < i ==> (#[trigger] a@[k]).view() == b@[k].view(),
        decreases a.len() - i,
    {
        if !equal(&a[i], &b[i]) {
            assert(residues(a@)[i as int] != residues(b@)[i as int]);
            return false;
        }
        i = i + 1;
    }
    assert(residues(a@) =~= residues(b@));
    true
}

fn same_points(a: &[Point<Fp>], b: &[Point<Fp>]) -> (r: bool)
    ensures
        r == (point_residues(a@) == point_residues(b@)),
{
    if a.len() != b.len() {
        assert(point_residues(a@).len() != point_residues(b@).len());
        return false;
    }
    let mut i: usize = 0;
    while i < a.len()
        invariant
            i <= a@.len(),
            a@.len() == b@.len(),
            forall|k: int| 0 <= k < i ==> (#[trigger] a@[k]).view() == b@[k].view(),
        decreases a.len() - i,
    {
        if !equal(&a[i].x, &b[i].x) || !equal(&a[i].y, &b[i].y) {
            assert(point_residues(a@)[i as int] != point_residues(b@)[i as int]);
            return false;
        }
        i = i + 1;
    }
    assert(point_residues(a@) =~= point_residues(b@));
    true
}

/// The backend of a rule without predecessors.
pub struct BaseCaseRuleBackend<A: StepApp> {
    pub rule_id: RuleId,
    pub app: A,
}

/// What verifying looks at: the statement, the wrap key that was hashed, and the
/// wrap verifier's key.
pub struct BaseCaseProof {
    pub statement: Vec<Fq>,
    pub wrap_vk_pts: Vec<Point<Fp>>,
    pub wrap_index: KeyIndex<Fp>,
}

/// The place of the step digest in a statement.
pub const DIGEST_SLOT: usize = 12;

/// What verifying answers, given the digest of the key and the state, and
/// whether the proof system accepts: the key is looked at first, then the
/// statement's length, then its digest, then the proof.
pub open spec fn verify_answer(
    proof: BaseCaseProof,
    stmt_len: int,
    digest: int,
    accepted: bool,
) -> Result<(), BaseCaseBackendError> {
    if proof.wrap_index.points() != point_residues(proof.wrap_vk_pts@) {
        Err(BaseCaseBackendError::WrapKeyMismatch)
    } else if proof.statement@.len() != stmt_len {
        Err(BaseCaseBackendError::InvalidStatementLength(proof.statement@.len() as usize))
    } else if proof.statement@[DIGEST_SLOT as int].view() != digest {
        Err(BaseCaseBackendError::PublicStateMismatch)
    } else if !accepted {
        Err(BaseCaseBackendError::InvalidWrapProof)
    } else {
        Ok(())
    }
}

/// What verifying a proof gives, with the digest that the sponge replies and the
/// decision of `accepts`, which is asked only when nothing before it fails.
pub open spec fn verify_outcome<H: Fn(&Vec<SpongeOp<Fp>>) -> Fp, V: Fn(&Vec<Fq>) -> bool>(
    proof: BaseCaseProof,
    public_input: Seq<Fp>,
    stmt_len: int,
    sponge: H,
    accepts: V,
    r: Result<(), BaseCaseBackendError>,
) -> bool {
    exists|vk: Seq<Point<Fp>>, digest: Fp, accepted: bool|
        {
            &&& point_residues(vk) == proof.wrap_index.points()
            &&& #[trigger] replied(sponge, #[trigger] base_message(vk, public_input), digest)
            &&& r == #[trigger] verify_answer(
                proof,
                stmt_len,
                digest.view(),
                accepted,
            )
            &&& r != Err::<(), BaseCaseBackendError>(BaseCaseBackendError::WrapKeyMismatch)
                && r != Err::<(), BaseCaseBackendError>(
                BaseCaseBackendError::InvalidStatementLength(
                    proof.statement@.len() as usize,
                ),
            ) && r != Err::<(), BaseCaseBackendError>(
                BaseCaseBackendError::PublicStateMismatch,
            ) ==> call_ensures(accepts, (&proof.statement,), accepted)
        }
}

/// A built statement binds the state: against the digest that it was built with,
/// only the proof system can refuse it, and against any other it is refused.
pub proof fn built_statements_bind_their_digest(
    t: WrapTranscript,
    xi: int,
    digest: int,
    wrap_digest: int,
    domain_log2: int,
    proof: BaseCaseProof,
    other: int,
    accepted: bool,
)
    requires
        t.bulletproof_prechallenges@.len() <= TICK_ROUNDS,
        residues(proof.statement@) == base_statement(t, xi, digest, wrap_digest, domain_log2),
        proof.wrap_index.points() == point_residues(proof.wrap_vk_pts@),
    ensures
        verify_answer(proof, 40, digest, accepted) == if accepted {
            Ok::<(), BaseCaseBackendError>(())
        } else {
            Err(BaseCaseBackendError::InvalidWrapProof)
        },
        other != digest ==> verify_answer(proof, 40, other, accepted) == Err::<
            (),
            BaseCaseBackendError,
        >(BaseCaseBackendError::PublicStateMismatch),
{
    let stated = base_statement(t, xi, digest, wrap_digest, domain_log2);
    assert(stated.len() == 40);
    assert(stated[DIGEST_SLOT as int] == digest);
    assert(residues(proof.statement@)[DIGEST_SLOT as int]
        == proof.statement@[DIGEST_SLOT as int].view());
}

/// The wrap circuit takes what a base case is built into: its witness is
/// complete, and the statement names the branch that the circuit selects.
pub proof fn built_statements_name_their_branch(
    setup: StepSetup,
    t: WrapTranscript,
    xi: int,
    digest: int,
    wrap_digest: int,
    statement: Seq<Fq>,
    w: WrapWitnessData,
)
    requires
        t.bulletproof_prechallenges@.len() <= TICK_ROUNDS,
        setup.index.domain_log2 <= u8::MAX,
        is_setup_witness(setup, w),
        w.step_statement@.len() == 1,
        w.step_statement@[0] is Packed,
        residues(statement) == base_statement(
            t,
            xi,
            digest,
            wrap_digest,
            setup.index.domain_log2 as int,
        ),
    ensures
        witness_wf(w),
        w.which_branch < branch_count(w),
        statement[STATEMENT_HEAD + TICK_ROUNDS].view() == 4 * selected_domain(
            w,
        ) + selected_width(w),
{
    reveal_with_fuel(expanded_len, 2);
    assert(w.step_statement@.drop_last() =~= Seq::empty());
    let stated = base_statement(t, xi, digest, wrap_digest, setup.index.domain_log2 as int);
    let slot = (STATEMENT_HEAD + TICK_ROUNDS) as int;
    assert(stated[slot] == 4 * setup.index.domain_log2);
    assert(stated.len() == 40 && residues(statement).len() == statement.len());
    assert(residues(statement)[slot] == statement[slot].view());
}

impl<A: StepApp> BaseCaseRuleBackend<A> {
    /// The backend of a rule; refused unless the rule has no predecessors.
    pub fn compile(rule: &InductiveRule, app: A) -> (r: Result<Self, BaseCaseBackendError>)
        ensures
            match r {
                Ok(backend) => rule.proofs_verified == ProofsVerified::N0 && backend.rule_id
                    == rule.id && backend.app == app,
                Err(e) => rule.proofs_verified != ProofsVerified::N0 && e
                    == BaseCaseBackendError::ExpectedBaseRule(rule.id),
            },
    {
        if rule.proofs_verified != ProofsVerified::N0 {
            return Err(BaseCaseBackendError::ExpectedBaseRule(rule.id));
        }
        Ok(BaseCaseRuleBackend { rule_id: rule.id, app })
    }

    /// The number of the rule.
    pub fn rule_id(&self) -> (r: RuleId)
        ensures
            r == self.rule_id,
    {
        self.rule_id
    }

    /// Proves an execution with `prover`; refused, without proving, when its
    /// state is not the public input.
    pub fn prove<P, B: Fn(&A, A::Witness) -> P>(
        &self,
        public_input: &Vec<Fp>,
        witness: A::Witness,
        prover: &B,
    ) -> (r: Result<P, BaseCaseBackendError>)
        requires
            forall|w: A::Witness| call_requires(*prover, (&self.app, w)),
        ensures
            exists|state: Vec<Fp>| #[trigger]
                call_ensures(A::state, (&self.app, &witness), state) && match r {
                    Ok(proof) => residues(state@) == residues(public_input@) && call_ensures(
                        *prover,
                        (&self.app, witness),
                        proof,
                    ),
                    Err(e) => residues(state@) != residues(public_input@) && e
                        == BaseCaseBackendError::PublicStateMismatch,
                },
    {
        let state = self.app.state(&witness);
        if !same_elements(state.as_slice(), public_input.as_slice()) {
            return Err(BaseCaseBackendError::PublicStateMismatch);
        }
        Ok(prover(&self.app, witness))
    }

    /// Proves an execution with `prover` and encodes the proof with `encode`.
    pub fn prove_with_mina_encoding<
        P,
        B: Fn(&A, A::Witness) -> P,
        X: Fn(&P) -> Result<MinaWrapProof, BaseCaseBackendError>,
    >(
        &self,
        public_input: &Vec<Fp>,
        witness: A::Witness,
        prover: &B,
        encode: &X,
    ) -> (r: Result<(P, MinaWrapProof), BaseCaseBackendError>)
        requires
            forall|w: A::Witness| call_requires(*prover, (&self.app, w)),
            forall|p: P| call_requires(*encode, (&p,)),
        ensures
            exists|state: Vec<Fp>| #[trigger]
                call_ensures(A::state, (&self.app, &witness), state) && if residues(state@)
                    != residues(public_input@) {
                    r == Err::<(P, MinaWrapProof), BaseCaseBackendError>(
                        BaseCaseBackendError::PublicStateMismatch,
                    )
                } else {
                    exists|p: P, e: Result<MinaWrapProof, BaseCaseBackendError>|
                        {
                            &&& #[trigger] call_ensures(*prover, (&self.app, witness), p)
                            &&& #[trigger] call_ensures(*encode, (&p,), e)
                            &&& r == match e {
                                Ok(encoded) => Ok::<(P, MinaWrapProof), BaseCaseBackendError>(
                                    (p, encoded),
                                ),
                                Err(error) => Err(error),
                            }
                        }
                },
    {
        match self.prove(public_input, witness, prover) {
            Err(e) => Err(e),
            Ok(p) => match encode(&p) {
                Err(e) => {
                    assert(call_ensures(
                        *encode,
                        (&p,),
                        Err::<MinaWrapProof, BaseCaseBackendError>(e),
                    ));
                    Err(e)
                },
                Ok(encoded) => {
                    assert(call_ensures(
                        *encode,
                        (&p,),
                        Ok::<MinaWrapProof, BaseCaseBackendError>(encoded),
                    ));
                    Ok((p, encoded))
                },
            },
        }
    }

    /// Verifies a proof: the wrap key, the statement's length, the digest of the
    /// key and the public input, and the proof itself, which `accepts` decides.
    pub fn verify<H: Fn(&Vec<SpongeOp<Fp>>) -> Fp, V: Fn(&Vec<Fq>) -> bool>(
        &self,
        public_input: &Vec<Fp>,
        proof: &BaseCaseProof,
        stmt_len: usize,
        sponge: &H,
        accepts: &V,
    ) -> (r: Result<(), BaseCaseBackendError>)
        requires
            proof.wrap_index.wf(),
            stmt_len > DIGEST_SLOT,
            forall|v: &Vec<SpongeOp<Fp>>| call_requires(*sponge, (v,)),
            call_requires(*accepts, (&proof.statement,)),
        ensures
            verify_outcome(*proof, public_input@, stmt_len as int, *sponge, *accepts, r),
    {
        let actual_vk = wrap_verification_key_points(&proof.wrap_index);
        let digest = base_case_digest(sponge, actual_vk.as_slice(), public_input.as_slice());
        let r = if !same_points(actual_vk.as_slice(), proof.wrap_vk_pts.as_slice()) {
            assert(verify_answer(*proof, stmt_len as int, digest.view(), true) is Err);
            Err(BaseCaseBackendError::WrapKeyMismatch)
        } else if proof.statement.len() != stmt_len {
            assert(verify_answer(*proof, stmt_len as int, digest.view(), true) is Err);
            Err(BaseCaseBackendError::InvalidStatementLength(proof.statement.len()))
        } else if !equal(&proof.statement[DIGEST_SLOT], &fp_to_fq(&digest)) {
            assert(verify_answer(*proof, stmt_len as int, digest.view(), true) is Err);
            Err(BaseCaseBackendError::PublicStateMismatch)
        } else {
            let accepted = accepts(&proof.statement);
            let ghost answer = verify_answer(*proof, stmt_len as int, digest.view(), accepted);
            if accepted {
                assert(answer is Ok);
                Ok(())
            } else {
                assert(answer is Err);
                Err(BaseCaseBackendError::InvalidWrapProof)
            }
        };
        assert(replied(*sponge, base_message(actual_vk@, public_input@), digest));
        r
    }

    /// Verifies a proof, then checks an encoding against the proof's own.
    pub fn verify_with_mina_encoding<H: Fn(&Vec<SpongeOp<Fp>>) -> Fp, V: Fn(&Vec<Fq>) -> bool>(
        &self,
        public_input: &Vec<Fp>,
        proof: &BaseCaseProof,
        stmt_len: usize,
        sponge: &H,
        accepts: &V,
        wire: Option<Vec<u8>>,
        key: Option<String>,
        encoded: &MinaWrapProof,
        proof_decodes: bool,
        key_decodes: bool,
    ) -> (r: Result<(), BaseCaseBackendError>)
        requires
            proof.wrap_index.wf(),
            stmt_len > DIGEST_SLOT,
            forall|v: &Vec<SpongeOp<Fp>>| call_requires(*sponge, (v,)),
            call_requires(*accepts, (&proof.statement,)),
        ensures
            exists|verified: Result<(), BaseCaseBackendError>|
                {
                    &&& #[trigger] verify_outcome(
                        *proof,
                        public_input@,
                        stmt_len as int,
                        *sponge,
                        *accepts,
                        verified,
                    )
                    &&& match verified {
                        Err(e) => r == verified,
                        Ok(_) => exists|own: Result<MinaWrapProof, BaseCaseBackendError>|
                            #[trigger] is_network_proof(proof.statement@, wire, key, own) && r
                                == encoding_answer(own, *encoded, proof_decodes, key_decodes),
                    }
                },
    {
        match self.verify(public_input, proof, stmt_len, sponge, accepts) {
            Err(e) => {
                assert(verify_outcome(
                    *proof,
                    public_input@,
                    stmt_len as int,
                    *sponge,
                    *accepts,
                    Err::<(), BaseCaseBackendError>(e),
                ));
                Err(e)
            },
            Ok(_) => {
                assert(verify_outcome(
                    *proof,
                    public_input@,
                    stmt_len as int,
                    *sponge,
                    *accepts,
                    Ok::<(), BaseCaseBackendError>(()),
                ));
                proof.ensure_mina_network_proof_matches(
                    wire,
                    key,
                    encoded,
                    proof_decodes,
                    key_decodes,
                )
            },
        }
    }
}

fn same_bytes(a: &Vec<u8>, b: &Vec<u8>) -> (r: bool)
    ensures
        r == (a@ == b@),
{
    if a.len() != b.len() {
        return false;
    }
    let mut i: usize = 0;
    while i < a.len()
        invariant
            i <= a@.len(),
            a@.len() == b@.len(),
            forall|k: int| 0 <= k < i ==> #[trigger] a@[k] == b@[k],
        decreases a.len() - i,
    {
        if a[i] != b[i] {
            return false;
        }
        i = i + 1;
    }
    assert(a@ =~= b@);
    true
}

/// Whether two encodings hold the same.
pub fn encodings_equal(a: &MinaWrapProof, b: &MinaWrapProof) -> (r: bool)
    ensures
        r == same_proof(*a, *b),
{
    if a.statement.len() != b.statement.len() {
        assert(residues(a.statement@).len() != residues(b.statement@).len());
        return false;
    }
    let mut i: usize = 0;
    while i < a.statement.len()
        invariant
            i <= a.statement@.len(),
            a.statement@.len() == b.statement@.len(),
            forall|k: int|
                0 <= k < i ==> (#[trigger] a.statement@[k]).view() == b.statement@[k].view(),
        decreases a.statement.len() - i,
    {
        if !equal(&a.statement[i], &b.statement[i]) {
            assert(residues(a.statement@)[i as int] != residues(b.statement@)[i as int]);
            return false;
        }
        i = i + 1;
    }
    assert(residues(a.statement@) =~= residues(b.statement@));
    same_bytes(&a.wrap_wire_proof, &b.wrap_wire_proof) && a.side_loaded_verification_key.eq(
        &b.side_loaded_verification_key,
    )
}

/// What encoding a statement with its proof and key gives: none of the parts may
/// be missing, the proof first.
pub open spec fn is_network_proof(
    statement: Seq<Fq>,
    wire: Option<Vec<u8>>,
    key: Option<String>,
    r: Result<MinaWrapProof, BaseCaseBackendError>,
) -> bool {
    match (wire, key) {
        (None, _) => r == Err::<MinaWrapProof, BaseCaseBackendError>(
            BaseCaseBackendError::MinaProofEncoding,
        ),
        (Some(_), None) => r == Err::<MinaWrapProof, BaseCaseBackendError>(
            BaseCaseBackendError::MinaVerificationKeyEncoding,
        ),
        (Some(w), Some(k)) => r is Ok && r->Ok_0.statement@ == statement
            && r->Ok_0.wrap_wire_proof == w && r->Ok_0.side_loaded_verification_key == k,
    }
}

/// What checking an encoding answers: it must be the proof's own, and both its
/// parts must decode, the proof first.
pub open spec fn encoding_answer(
    own: Result<MinaWrapProof, BaseCaseBackendError>,
    encoded: MinaWrapProof,
    proof_decodes: bool,
    key_decodes: bool,
) -> Result<(), BaseCaseBackendError> {
    match own {
        Err(e) => Err(e),
        Ok(mine) => if !same_proof(encoded, mine) {
            Err(BaseCaseBackendError::MinaEncodingMismatch)
        } else if !proof_decodes {
            Err(BaseCaseBackendError::MinaProofEncoding)
        } else if !key_decodes {
            Err(BaseCaseBackendError::MinaVerificationKeyEncoding)
        } else {
            Ok(())
        },
    }
}

impl BaseCaseProof {
    /// The network encoding of the proof, from the encodings of the wire proof
    /// and of the side-loaded key, none where one does not encode.
    pub fn to_mina_network_proof(&self, wire: Option<Vec<u8>>, key: Option<String>) -> (r: Result<
        MinaWrapProof,
        BaseCaseBackendError,
    >)
        ensures
            is_network_proof(self.statement@, wire, key, r),
    {
        match (wire, key) {
            (None, _) => Err(BaseCaseBackendError::MinaProofEncoding),
            (Some(_), None) => Err(BaseCaseBackendError::MinaVerificationKeyEncoding),
            (Some(wrap_wire_proof), Some(side_loaded_verification_key)) => Ok(
                MinaWrapProof {
                    statement: copied(&self.statement),
                    wrap_wire_proof,
                    side_loaded_verification_key,
                },
            ),
        }
    }

    /// Checks an encoding against the proof's own.
    pub fn ensure_mina_network_proof_matches(
        &self,
        wire: Option<Vec<u8>>,
        key: Option<String>,
        encoded: &MinaWrapProof,
        proof_decodes: bool,
        key_decodes: bool,
    ) -> (r: Result<(), BaseCaseBackendError>)
        ensures
            exists|own: Result<MinaWrapProof, BaseCaseBackendError>|
                #[trigger] is_network_proof(self.statement@, wire, key, own) && r
                    == encoding_answer(own, *encoded, proof_decodes, key_decodes),
    {
        let own = self.to_mina_network_proof(wire, key);
        assert(is_network_proof(self.statement@, wire, key, own));
        match &own {
            Err(e) => Err(*e),
            Ok(mine) => if !encodings_equal(encoded, mine) {
                Err(BaseCaseBackendError::MinaEncodingMismatch)
            } else if !proof_decodes {
                Err(BaseCaseBackendError::MinaProofEncoding)
            } else if !key_decodes {
                Err(BaseCaseBackendError::MinaVerificationKeyEncoding)
            } else {
                Ok(())
            },
        }
    }
}

/// Compiled indexes of a base case, to be used for one proof after another.
pub struct CompiledBaseCase<A, S, W> {
    pub app: A,
    pub wrap_vk_pts: Vec<Point<Fp>>,
    pub step_indexes: Option<S>,
    pub wrap_indexes: Option<W>,
}

impl<A, S, W> CompiledBaseCase<A, S, W> {
    /// Compiles with placeholder points, of which the indexes do not depend, and
    /// keeps the points of the key that comes out.
    pub fn compile<B: Fn(&A, &Vec<Option<Point<Fp>>>) -> (S, W, KeyIndex<Fp>)>(
        app: A,
        generator: &Point<Fp>,
        build: &B,
    ) -> (r: Self)
        requires
            forall|points: &Vec<Option<Point<Fp>>>| call_requires(*build, (&app, points)),
            forall|points: &Vec<Option<Point<Fp>>>, out: (S, W, KeyIndex<Fp>)| #[trigger]
                call_ensures(*build, (&app, points), out) ==> out.2.wf(),
        ensures
            r.app == app,
            r.step_indexes is Some,
            r.wrap_indexes is Some,
            exists|points: &Vec<Option<Point<Fp>>>, out: (S, W, KeyIndex<Fp>)|
                {
                    &&& #[trigger] call_ensures(*build, (&app, points), out)
                    &&& points@.len() == KEY_POINTS
                    &&& forall|i: int|
                        0 <= i < KEY_POINTS ==> element(#[trigger] points@[i]) == Pallas::multiple(
                            generator.view(),
                            i + 1,
                        )
                    &&& r.step_indexes == Some(out.0)
                    &&& r.wrap_indexes == Some(out.1)
                    &&& point_residues(r.wrap_vk_pts@) == out.2.points()
                },
    {
        let points = bootstrap_points(generator);
        let out = build(&app, &points);
        let ghost all = out;
        assert(call_ensures(*build, (&app, &points), all));
        let (step, wrap, index) = out;
        let wrap_vk_pts = wrap_verification_key_points(&index);
        CompiledBaseCase {
            app,
            wrap_vk_pts,
            step_indexes: Some(step),
            wrap_indexes: Some(wrap),
        }
    }

    /// Proves with the compiled indexes, which are there again afterwards.
    pub fn prove<T, P, B: Fn(&A, T, &Vec<Point<Fp>>, S, W) -> (P, S, W)>(
        &mut self,
        witness: T,
        build: &B,
    ) -> (r: P)
        requires
            old(self).step_indexes is Some,
            old(self).wrap_indexes is Some,
            forall|w: T, step: S, wrap: W|
                #[trigger] call_requires(
                    *build,
                    (&old(self).app, w, &old(self).wrap_vk_pts, step, wrap),
                ),
        ensures
            final(self).app == old(self).app,
            final(self).wrap_vk_pts == old(self).wrap_vk_pts,
            final(self).step_indexes is Some,
            final(self).wrap_indexes is Some,
            call_ensures(
                *build,
                (
                    &old(self).app,
                    witness,
                    &old(self).wrap_vk_pts,
                    old(self).step_indexes->0,
                    old(self).wrap_indexes->0,
                ),
                (r, final(self).step_indexes->0, final(self).wrap_indexes->0),
            ),
    {
        let step = self.step_indexes.take().unwrap();
        let wrap = self.wrap_indexes.take().unwrap();
        let (proof, step_back, wrap_back) = build(
            &self.app,
            witness,
            &self.wrap_vk_pts,
            step,
            wrap,
        );
        self.step_indexes = Some(step_back);
        self.wrap_indexes = Some(wrap_back);
        proof
    }
}

/// Proves in two passes: the first finds the wrap key with placeholder points,
/// the second proves with the key's own. None when the key of the second pass is
/// another.
pub fn prove_base_case_two_pass<
    P,
    S,
    D: Fn(&Vec<Option<Point<Fp>>>) -> (S, KeyIndex<Fp>),
    B: Fn(&Vec<Point<Fp>>, S) -> (P, KeyIndex<Fp>),
>(generator: &Point<Fp>, discover: &D, build: &B) -> (r: Option<P>)
    requires
        forall|points: &Vec<Option<Point<Fp>>>| call_requires(*discover, (points,)),
        forall|points: &Vec<Option<Point<Fp>>>, out: (S, KeyIndex<Fp>)| #[trigger]
            call_ensures(*discover, (points,), out) ==> out.1.wf(),
        forall|points: &Vec<Point<Fp>>, s: S| #[trigger] call_requires(*build, (points, s)),
        forall|points: &Vec<Point<Fp>>, s: S, out: (P, KeyIndex<Fp>)| #[trigger]
            call_ensures(*build, (points, s), out) ==> out.1.wf(),
    ensures
        exists|
            placeholders: &Vec<Option<Point<Fp>>>,
            found: (S, KeyIndex<Fp>),
            points: &Vec<Point<Fp>>,
            proved: (P, KeyIndex<Fp>),
        |
            {
                &&& #[trigger] call_ensures(*discover, (placeholders,), found)
                &&& placeholders@.len() == KEY_POINTS
                &&& forall|i: int|
                    0 <= i < KEY_POINTS ==> element(#[trigger] placeholders@[i])
                        == Pallas::multiple(generator.view(), i + 1)
                &&& point_residues(points@) == found.1.points()
                &&& #[trigger] call_ensures(*build, (points, found.0), proved)
                &&& r == if proved.1.points() == found.1.points() {
                    Some(proved.0)
                } else {
                    None
                }
            },
{
    let placeholders = bootstrap_points(generator);
    let found = discover(&placeholders);
    let ghost found_all = found;
    assert(call_ensures(*discover, (&placeholders,), found_all));
    let (shared, index) = found;
    let points = wrap_verification_key_points(&index);
    let proved = build(&points, shared);
    let ghost proved_all = proved;
    assert(call_ensures(*build, (&points, found_all.0), proved_all));
    let (proof, final_index) = proved;
    let final_points = wrap_verification_key_points(&final_index);
    if same_points(final_points.as_slice(), points.as_slice()) {
        Some(proof)
    } else {
        None
    }
}

/// The base case's statement is a wrap statement in the network layout: its
/// values are the transcript's under their own names, its branch has no previous
/// proof, no feature is on, and there is no joint combiner.
pub proof fn the_base_statement_is_a_wrap_statement(
    t: WrapTranscript,
    xi: ScalarChallenge<Fq>,
    digest: Fq,
    wrap_digest: Fq,
    branch: BranchData,
    plonk: plonk::InCircuit<Fq, ScalarChallenge<Fq>, bool>,
    cip: Fq,
    b: Fq,
    sponge_digest: Fq,
    chals: Seq<BulletproofChallenge<ScalarChallenge<Fq>>>,
    dummy: ScalarChallenge<Fq>,
)
    requires
        t.bulletproof_prechallenges@.len() <= 16,
        cip.view() == t.cip_repr.view(),
        b.view() == t.b_repr.view(),
        plonk.zeta_to_srs_length.view() == t.zeta_to_srs_length_repr.view(),
        plonk.zeta_to_domain_size.view() == t.zeta_to_domain_size_repr.view(),
        plonk.perm.view() == t.perm_repr.view(),
        plonk.beta == t.beta_raw,
        plonk.gamma == t.gamma_raw,
        plonk.alpha.0 == t.alpha_raw,
        plonk.zeta.0 == t.zeta_raw,
        sponge_digest.view() == t.sponge_digest.view(),
        chals.len() == t.bulletproof_prechallenges@.len(),
        forall|i: int|
            0 <= i < chals.len() ==> (#[trigger] chals[i]).prechallenge.0
                == t.bulletproof_prechallenges@[i],
        dummy.0.view() == 0,
        branch.proofs_verified == ProofsVerified::N0,
        plonk.joint_combiner is None,
        forall|i: int| 0 <= i < 8 ==> !#[trigger] plonk.feature_flags.data()[i],
    ensures
        base_statement(
            t,
            xi.0.view(),
            digest.view(),
            wrap_digest.view(),
            branch.domain_log2 as int,
        ) == network_residues(
            plonk,
            cip,
            b,
            xi,
            chals,
            dummy,
            branch,
            sponge_digest,
            wrap_digest,
            digest,
        ),
{
    let flags = flag_residues(plonk.feature_flags);
    assert forall|i: int| 0 <= i < 8 implies #[trigger] flags[i] == 0 by {
        assert(!plonk.feature_flags.data()[i]);
    }
    assert(challenge_residues(chals) =~= residues(t.bulletproof_prechallenges@));
    let left = base_statement(
        t,
        xi.0.view(),
        digest.view(),
        wrap_digest.view(),
        branch.domain_log2 as int,
    );
    let right = network_residues(
        plonk,
        cip,
        b,
        xi,
        chals,
        dummy,
        branch,
        sponge_digest,
        wrap_digest,
        digest,
    );
    let n = TICK_ROUNDS - chals.len();
    assert(left.len() == 40 && right.len() == 40);
    assert forall|i: int| 0 <= i < 40 implies left[i] == right[i] by {
        if i < 13 {
        } else if i < 13 + n {
        } else if i < 29 {
            assert(left[i] == residues(t.bulletproof_prechallenges@)[i - 13 - n]);
            assert(right[i] == challenge_residues(chals)[i - 13 - n]);
        } else if i == 29 {
        } else if i < 38 {
            assert(right[i] == flags[i - 30]);
        } else {
        }
    }
    assert(left =~= right);
}

/// Every slot of the base case's statement: the thirteen of the head by name,
/// the challenges behind zeros, the domain's size in the branch's slot, zeros.
pub proof fn base_statement_slots(
    t: WrapTranscript,
    xi: int,
    digest: int,
    wrap_digest: int,
    domain_log2: int,
    i: int,
)
    requires
        t.bulletproof_prechallenges@.len() <= 16,
    ensures
        ({
            let all = base_statement(t, xi, digest, wrap_digest, domain_log2);
            let n = t.bulletproof_prechallenges@.len();
            &&& all.len() == 40
            &&& all[0] == t.cip_repr.view()
            &&& all[1] == t.b_repr.view()
            &&& all[2] == t.zeta_to_srs_length_repr.view()
            &&& all[3] == t.zeta_to_domain_size_repr.view()
            &&& all[4] == t.perm_repr.view()
            &&& all[5] == t.beta_raw.view()
            &&& all[6] == t.gamma_raw.view()
            &&& all[7] == t.alpha_raw.view()
            &&& all[8] == t.zeta_raw.view()
            &&& all[9] == xi
            &&& all[10] == t.sponge_digest.view()
            &&& all[11] == wrap_digest
            &&& all[12] == digest
            &&& 13 <= i < 29 - n ==> all[i] == 0
            &&& 0 <= i < n ==> all[29 - n + i] == t.bulletproof_prechallenges@[i].view()
            &&& all[29] == 4 * domain_log2
            &&& 30 <= i < 40 ==> all[i] == 0
        }),
{
    let n = t.bulletproof_prechallenges@.len();
    if 0 <= i < n {
        assert(base_statement(t, xi, digest, wrap_digest, domain_log2)[29 - n + i] == residues(
            t.bulletproof_prechallenges@,
        )[i]);
    }
}

/// The base case's digest is the step digest of a proof without previous proofs:
/// the key, the application state, and no accumulator.
pub proof fn the_base_digest_has_no_accumulators(vk: Seq<Point<Fp>>, app_state: Seq<Fp>)
    ensures
        base_message(vk, app_state) == (absorbing(coordinates(vk)) + absorbing(
            residues(app_state) + accumulators(
                Seq::<Point<Fp>>::empty(),
                Seq::<Vec<Fp>>::empty(),
            ),
        )).push(None),
        base_message(vk, app_state).len() == 2 * vk.len() + app_state.len() + 1,
{
    points_give_their_coordinates(vk);
    assert(base_message(vk, app_state) =~= (absorbing(coordinates(vk)) + absorbing(
        residues(app_state) + accumulators(Seq::<Point<Fp>>::empty(), Seq::<Vec<Fp>>::empty()),
    )).push(None));
}

/// An index's points in order: the permutation's, the coefficients', the six
/// selectors by name, each the first chunk, the identity as two zeros.
pub proof fn key_points_have_their_order<F: PrimeField>(index: KeyIndex<F>, i: int)
    requires
        index.wf(),
    ensures
        index.points().len() == 28,
        0 <= i < 7 ==> index.points()[i] == (match index.sigma_comm@[i].chunks@[0] {
            None => (0, 0),
            Some(p) => (p.x.view(), p.y.view()),
        }),
        0 <= i < 15 ==> index.points()[7 + i] == (match index.coefficients_comm@[i].chunks@[0] {
            None => (0, 0),
            Some(p) => (p.x.view(), p.y.view()),
        }),
        index.generic_comm.chunks@[0] matches Some(p) ==> index.points()[22] == (
            p.x.view(),
            p.y.view(),
        ),
        index.psm_comm.chunks@[0] matches Some(p) ==> index.points()[23] == (
            p.x.view(),
            p.y.view(),
        ),
        index.complete_add_comm.chunks@[0] matches Some(p) ==> index.points()[24] == (
            p.x.view(),
            p.y.view(),
        ),
        index.mul_comm.chunks@[0] matches Some(p) ==> index.points()[25] == (
            p.x.view(),
            p.y.view(),
        ),
        index.emul_comm.chunks@[0] matches Some(p) ==> index.points()[26] == (
            p.x.view(),
            p.y.view(),
        ),
        index.endomul_scalar_comm.chunks@[0] matches Some(p) ==> index.points()[27] == (
            p.x.view(),
            p.y.view(),
        ),
        index.mul_comm.chunks@[0] is None ==> index.points()[25] == (0int, 0int),
{
    if 0 <= i < 7 {
        assert(index.points()[i] == first_points(index.sigma_comm@)[i]);
    }
    if 0 <= i < 15 {
        assert(index.points()[7 + i] == first_points(index.coefficients_comm@)[i]);
    }
}

/// A key's points are those of its commitments in canonical order, whichever of
/// the two forms of the key they are taken from.
pub proof fn both_keys_list_alike(index: KeyIndex<Fp>, vk: PlonkVerificationKeyEvals<Point<Fp>>)
    requires
        point_residues(vk.sigma_comm@) == first_points(index.sigma_comm@),
        point_residues(vk.coefficients_comm@) == first_points(index.coefficients_comm@),
        vk.generic_comm.view() == first_point(index.generic_comm),
        vk.psm_comm.view() == first_point(index.psm_comm),
        vk.complete_add_comm.view() == first_point(index.complete_add_comm),
        vk.mul_comm.view() == first_point(index.mul_comm),
        vk.emul_comm.view() == first_point(index.emul_comm),
        vk.endomul_scalar_comm.view() == first_point(index.endomul_scalar_comm),
    ensures
        point_residues(vk.list()) == index.points(),
{
    let a = point_residues(vk.list());
    let s = point_residues(vk.sigma_comm@);
    let c = point_residues(vk.coefficients_comm@);
    assert(a =~= s + c + seq![
        vk.generic_comm.view(),
        vk.psm_comm.view(),
        vk.complete_add_comm.view(),
        vk.mul_comm.view(),
        vk.emul_comm.view(),
        vk.endomul_scalar_comm.view(),
    ]);
}

/// A branch takes each of its commitments from the index under the same name; of
/// the seven permutation columns the first six are kept apart from the last.
pub proof fn branches_take_their_key_by_name(
    index: KeyIndex<Fq>,
    branch: WrapBranchData,
    i: int,
)
    requires
        index.wf(),
        is_branch_of(index, branch),
    ensures
        (branch.generic.0.view(), branch.generic.1.view()) == first_point(index.generic_comm),
        (branch.psm.0.view(), branch.psm.1.view()) == first_point(index.psm_comm),
        (branch.complete_add.0.view(), branch.complete_add.1.view()) == first_point(
            index.complete_add_comm,
        ),
        (branch.mul.0.view(), branch.mul.1.view()) == first_point(index.mul_comm),
        (branch.emul.0.view(), branch.emul.1.view()) == first_point(index.emul_comm),
        (branch.endomul_scalar.0.view(), branch.endomul_scalar.1.view()) == first_point(
            index.endomul_scalar_comm,
        ),
        branch.coefficients@.len() == 15,
        0 <= i < 15 ==> (
            branch.coefficients@[i].0.view(),
            branch.coefficients@[i].1.view(),
        ) == first_point(index.coefficients_comm@[i]),
        branch.sigma_init@.len() == 6,
        0 <= i < 6 ==> (branch.sigma_init@[i].0.view(), branch.sigma_init@[i].1.view())
            == first_point(index.sigma_comm@[i]),
        branch.sigma_last@.len() == 1,
        (branch.sigma_last@[0].0.view(), branch.sigma_last@[0].1.view()) == first_point(
            index.sigma_comm@[6],
        ),
{
    lemma_key_lists(
        index,
        branch.coefficients@,
        branch.sigma_init@,
        branch.sigma_last@,
        i,
    );
}

proof fn lemma_key_lists(
    index: KeyIndex<Fq>,
    coefficients: Seq<(Fq, Fq)>,
    sigma_init: Seq<(Fq, Fq)>,
    sigma_last: Seq<(Fq, Fq)>,
    i: int,
)
    requires
        index.wf(),
        pair_views(coefficients) == first_points(index.coefficients_comm@),
        pair_views(sigma_init) == first_points(index.sigma_comm@).take(PERMUTS - 1),
        pair_views(sigma_last) == seq![first_point(index.sigma_comm@[PERMUTS - 1])],
    ensures
        coefficients.len() == 15,
        0 <= i < 15 ==> pair_view(coefficients[i]) == first_point(index.coefficients_comm@[i]),
        sigma_init.len() == 6,
        0 <= i < 6 ==> pair_view(sigma_init[i]) == first_point(index.sigma_comm@[i]),
        sigma_last.len() == 1,
        pair_view(sigma_last[0]) == first_point(index.sigma_comm@[6]),
{
    assert(first_points(index.coefficients_comm@).len() == COLUMNS);
    assert(pair_views(coefficients).len() == coefficients.len());
    assert(pair_views(sigma_init).len() == 6);
    assert(pair_views(sigma_last).len() == 1);
    assert(pair_views(sigma_last)[0] == first_point(index.sigma_comm@[PERMUTS - 1]));
    if 0 <= i < 15 {
        assert(pair_views(coefficients)[i] == first_points(index.coefficients_comm@)[i]);
    }
    if 0 <= i < 6 {
        assert(pair_views(sigma_init)[i] == first_points(index.sigma_comm@)[i]);
    }
}

/// A witness takes the step proof's key, bases and digest from the setup by name,
/// and has the one branch that these describe.
pub proof fn witnesses_take_the_setup_by_name(setup: StepSetup, w: WrapWitnessData, i: int)
    requires
        setup.index.wf(),
        is_setup_witness(setup, w),
    ensures
        w.which_branch == 0,
        w.branches@.len() == 0,
        w.unfinalized@.len() == 0,
        w.step_domain_log2 == setup.index.domain_log2,
        w.step_vk_digest == setup.vk_digest,
        w.h == setup.srs_h,
        w.step_statement_lagranges@.len() == 1,
        w.step_statement_lagranges@[0].0 == setup.l0,
        w.step_statement_lagranges@[0].1 == setup.correction,
        (w.generic.0.view(), w.generic.1.view()) == first_point(setup.index.generic_comm),
        (w.psm.0.view(), w.psm.1.view()) == first_point(setup.index.psm_comm),
        (w.complete_add.0.view(), w.complete_add.1.view()) == first_point(
            setup.index.complete_add_comm,
        ),
        (w.mul.0.view(), w.mul.1.view()) == first_point(setup.index.mul_comm),
        (w.emul.0.view(), w.emul.1.view()) == first_point(setup.index.emul_comm),
        (w.endomul_scalar.0.view(), w.endomul_scalar.1.view()) == first_point(
            setup.index.endomul_scalar_comm,
        ),
        w.coefficients@.len() == 15,
        0 <= i < 15 ==> (w.coefficients@[i].0.view(), w.coefficients@[i].1.view())
            == first_point(setup.index.coefficients_comm@[i]),
        w.sigma_init@.len() == 6,
        0 <= i < 6 ==> (w.sigma_init@[i].0.view(), w.sigma_init@[i].1.view()) == first_point(
            setup.index.sigma_comm@[i],
        ),
        w.sigma_last@.len() == 1,
        (w.sigma_last@[0].0.view(), w.sigma_last@[0].1.view()) == first_point(
            setup.index.sigma_comm@[6],
        ),
{
    lemma_key_lists(setup.index, w.coefficients@, w.sigma_init@, w.sigma_last@, i);
}

/// A proof's witness takes each of the proof's parts by name: the commitments,
/// the rounds with left before right, the opening values, the old accumulators,
/// and the digest as the step statement's one element.
pub proof fn witnesses_take_the_proof_by_name(
    setup: StepSetup,
    proved: ProvedStep,
    digest: Fp,
    dummies: Seq<Vec<Fq>>,
    w: WrapWitnessData,
    i: int,
)
    requires
        is_proof_witness(setup, proved, digest, dummies, w),
    ensures
        w.w_comm@.len() == proved.parts.w_comm@.len(),
        0 <= i < w.w_comm@.len() ==> (w.w_comm@[i].0.view(), w.w_comm@[i].1.view()) == first_point(
            proved.parts.w_comm@[i],
        ),
        (w.z_comm.0.view(), w.z_comm.1.view()) == first_point(proved.parts.z_comm),
        w.t_comm@.len() == proved.parts.t_comm.chunks@.len(),
        0 <= i < w.t_comm@.len() ==> (w.t_comm@[i].0.view(), w.t_comm@[i].1.view()) == affine(
            element(proved.parts.t_comm.chunks@[i]),
        ),
        w.lr@.len() == proved.parts.lr@.len(),
        0 <= i < w.lr@.len() ==> pair_view(w.lr@[i].0) == affine(element(proved.parts.lr@[i].0))
            && pair_view(w.lr@[i].1) == affine(element(proved.parts.lr@[i].1)),
        (w.delta.0.view(), w.delta.1.view()) == affine(element(proved.parts.delta)),
        (w.sg.0.view(), w.sg.1.view()) == affine(element(proved.parts.sg)),
        w.z1_repr.view() == proved.transcript.z1_repr.view(),
        w.z2_repr.view() == proved.transcript.z2_repr.view(),
        w.sg_olds@.len() == proved.parts.prev_challenges@.len(),
        0 <= i < w.sg_olds@.len() ==> (w.sg_olds@[i].0.view(), w.sg_olds@[i].1.view())
            == first_point(proved.parts.prev_challenges@[i]),
        w.step_statement@.len() == 1,
        w.step_statement@[0] matches WrapStepStatementSlot::Packed { value, num_bits }
            && value.view() == digest.view() && num_bits == 255,
        w.new_acc_dummies@.len() == dummies.len(),
        0 <= i < dummies.len() ==> w.new_acc_dummies@[i]@ == dummies[i]@,
{
    assert(pair_views(w.w_comm@).len() == first_points(proved.parts.w_comm@).len());
    assert(pair_views(w.sg_olds@).len() == first_points(proved.parts.prev_challenges@).len());
    if 0 <= i < w.w_comm@.len() {
        assert(pair_views(w.w_comm@)[i] == first_points(proved.parts.w_comm@)[i]);
    }
    if 0 <= i < w.sg_olds@.len() {
        assert(pair_views(w.sg_olds@)[i] == first_points(proved.parts.prev_challenges@)[i]);
    }
    if 0 <= i < w.t_comm@.len() {
        assert(pair_view(w.t_comm@[i]) == affine(element(proved.parts.t_comm.chunks@[i])));
    }
}

/// The point of an affine pair: two zeros for the identity, else its coordinates.
pub proof fn the_identity_shows_as_zeros<F: PrimeField>(p: Point<F>)
    ensures
        affine(element(None::<Point<F>>)) == (0int, 0int),
        affine(element(Some(p))) == (p.x.view(), p.y.view()),
{
}

/// The proof's claimed `xi` is drawn from what finalizing the proof absorbs: the
/// base case's list is the transcript with the digest of no challenges.
pub proof fn xi_is_drawn_from_the_finalizing_transcript<'a>(
    proved: ProvedStep,
    inputs: FrSpongeInputs<'a, Fp>,
    no_challenges: Fp,
)
    requires
        inputs.digest == proved.oracle_digest,
        inputs.ft_eval1 == proved.ft_eval1,
        inputs.public_evals.0@ == proved.public_evals.0@,
        inputs.public_evals.1@ == proved.public_evals.1@,
        *inputs.evals == proved.evals,
    ensures
        proved.absorbed(no_challenges) == inputs.transcript_spec(no_challenges),
        proved.absorbed(no_challenges)[0] == proved.oracle_digest,
        proved.absorbed(no_challenges)[1] == no_challenges,
        proved.absorbed(no_challenges)[2] == proved.ft_eval1,
{
}

/// A proof is accepted if and only if its key is the verifier's, its statement
/// has the right length and binds the public state, and the wrap proof verifies;
/// the first of these that fails is the answer.
pub proof fn answers_name_the_first_failure(
    proof: BaseCaseProof,
    stmt_len: int,
    digest: int,
    accepted: bool,
)
    ensures
        ({
            let answer = verify_answer(proof, stmt_len, digest, accepted);
            let same_key = proof.wrap_index.points() == point_residues(proof.wrap_vk_pts@);
            let right_length = proof.statement@.len() == stmt_len;
            let same_state = proof.statement@[12].view() == digest;
            &&& answer is Ok <==> same_key && right_length && same_state && accepted
            &&& !same_key <==> answer == Err::<(), BaseCaseBackendError>(
                BaseCaseBackendError::WrapKeyMismatch,
            )
            &&& same_key && !right_length <==> answer == Err::<(), BaseCaseBackendError>(
                BaseCaseBackendError::InvalidStatementLength(proof.statement@.len() as usize),
            )
            &&& same_key && right_length && !same_state <==> answer == Err::<
                (),
                BaseCaseBackendError,
            >(BaseCaseBackendError::PublicStateMismatch)
            &&& same_key && right_length && same_state && !accepted <==> answer == Err::<
                (),
                BaseCaseBackendError,
            >(BaseCaseBackendError::InvalidWrapProof)
        }),
{
}

/// An encoding is accepted if and only if it is the proof's own and both of its
/// parts decode; the first of these that fails is the answer.
pub proof fn encodings_name_the_first_failure(
    own: Result<MinaWrapProof, BaseCaseBackendError>,
    encoded: MinaWrapProof,
    proof_decodes: bool,
    key_decodes: bool,
)
    ensures
        ({
            let answer = encoding_answer(own, encoded, proof_decodes, key_decodes);
            &&& own matches Err(e) ==> answer == Err::<(), BaseCaseBackendError>(e)
            &&& own matches Ok(mine) ==> {
                let same = residues(encoded.statement@) == residues(mine.statement@)
                    && encoded.wrap_wire_proof@ == mine.wrap_wire_proof@
                    && encoded.side_loaded_verification_key@
                    == mine.side_loaded_verification_key@;
                &&& answer is Ok <==> same && proof_decodes && key_decodes
                &&& !same <==> answer == Err::<(), BaseCaseBackendError>(
                    BaseCaseBackendError::MinaEncodingMismatch,
                )
                &&& same && !proof_decodes <==> answer == Err::<(), BaseCaseBackendError>(
                    BaseCaseBackendError::MinaProofEncoding,
                )
                &&& same && proof_decodes && !key_decodes <==> answer == Err::<
                    (),
                    BaseCaseBackendError,
                >(BaseCaseBackendError::MinaVerificationKeyEncoding)
            }
        }),
{
}

/// A side-loaded key fits a rule if and only if the sizes of both domains and the
/// number of proofs are the rule's, the wrap domain being two to the thirteen and
/// that number.
pub proof fn side_loaded_keys_fit_their_rule(
    circuit: SideLoadedStepCircuit,
    key: SideLoadedKeyWitness,
)
    ensures
        circuit.matches_rule(key) <==> {
            &&& key.step_domain_log2 == circuit.rule.step_domain_log2
            &&& key.proofs_verified == (match circuit.rule.proofs_verified {
                ProofsVerified::N0 => 0int,
                ProofsVerified::N1 => 1,
                ProofsVerified::N2 => 2,
            })
            &&& key.wrap_domain_log2 == 13 + key.proofs_verified
        },
{
}

/// The sizes fit together: a statement has its head, the rounds and its tail, a
/// key its permutation, its coefficients and six selectors.
pub proof fn sizes_fit_together()
    ensures
        STATEMENT_HEAD + TICK_ROUNDS + STATEMENT_TAIL == 40,
        KEY_POINTS == PERMUTS + COLUMNS + 6,
        STATEMENT_HEAD == 13,
        STATEMENT_TAIL == 11,
        KEY_POINTS == 28,
        DIGEST_SLOT == 12,
        SCALAR_BITS == 255,
        O1JS_JSON_VERSION == 1,
{
}

/// An envelope is of the first version and no other version reads; a statement's
/// element is its decimal, and what does not read is refused by its own name.
pub proof fn envelopes_are_of_the_first_version(
    proof: MinaWrapProof,
    json: O1jsWrapProofJson,
    other: O1jsWrapProofJson,
    r: Result<MinaWrapProof, BaseCaseBackendError>,
    i: int,
)
    requires
        is_envelope(proof, json),
        is_read(other, r),
    ensures
        json.version == 1,
        json.statement@.len() == proof.statement@.len(),
        0 <= i < proof.statement@.len() ==> json.statement@[i]@ == decimal_chars(
            proof.statement@[i].view() as nat,
        ),
        json.wrap_wire_proof_base64@ == base64_text(proof.wrap_wire_proof@),
        json.side_loaded_verification_key_base58@ == proof.side_loaded_verification_key@,
        other.version != 1 ==> r == Err::<MinaWrapProof, BaseCaseBackendError>(
            BaseCaseBackendError::O1jsJsonVersion(other.version),
        ),
        r matches Ok(read) ==> other.version == 1 && read.statement@.len() == other.statement@.len()
            && read.side_loaded_verification_key@ == other.side_loaded_verification_key_base58@
            && base64_bytes(other.wrap_wire_proof_base64@) == Some(read.wrap_wire_proof@),
{
}

/// A built proof's statement: forty elements, the digest in its slot, the domain
/// in the branch's; it is for the key that was given, and carries two rows of
/// fifteen raw dummy challenges.
pub proof fn built_proofs_carry_their_inputs<
    HP: Fn(&Vec<SpongeOp<Fp>>) -> Fp,
    H: Fn(&Vec<SpongeOp<Fq>>) -> Fq,
    R: Fn(usize) -> u128,
    E: Fn(Fq) -> Fq,
>(
    setup: StepSetup,
    proved: ProvedStep,
    digest: Fp,
    vk: Seq<Point<Fp>>,
    sponge_fp: HP,
    sponge: H,
    stream: R,
    to_field: E,
    statement: Vec<Fq>,
    witness: WrapWitnessData,
    old_bulletproof_challenges: Vec<Vec<Fq>>,
    wrap_vk_pts: Vec<Point<Fp>>,
)
    requires
        proved.wf(),
        proof_built(
            setup,
            proved,
            digest,
            vk,
            sponge_fp,
            sponge,
            stream,
            to_field,
            (BaseCaseBuild::Proof {
                statement,
                witness,
                old_bulletproof_challenges,
                wrap_vk_pts,
            }),
        ),
    ensures
        wrap_vk_pts@ == vk,
        statement@.len() == 40,
        statement@[12].view() == digest.view(),
        statement@[0].view() == proved.transcript.cip_repr.view(),
        statement@[1].view() == proved.transcript.b_repr.view(),
        statement@[4].view() == proved.transcript.perm_repr.view(),
        statement@[5].view() == proved.transcript.beta_raw.view(),
        statement@[6].view() == proved.transcript.gamma_raw.view(),
        statement@[7].view() == proved.transcript.alpha_raw.view(),
        statement@[8].view() == proved.transcript.zeta_raw.view(),
        statement@[29].view() == 4 * setup.index.domain_log2,
        old_bulletproof_challenges@.len() == 2,
        old_bulletproof_challenges@[0]@.len() == 15,
        old_bulletproof_challenges@[1]@ == old_bulletproof_challenges@[0]@,
        witness.z1_repr.view() == proved.transcript.z1_repr.view(),
        witness.z2_repr.view() == proved.transcript.z2_repr.view(),
{
    let (dummies, wrap_digest, xi): (Seq<Vec<Fq>>, Fq, Fp) = choose|
        dummies: Seq<Vec<Fq>>,
        wrap_digest: Fq,
        xi: Fp,
    |
        {
            &&& #[trigger] dummies_drawn(stream, to_field, dummies)
            &&& #[trigger] wrap_digested(
                sponge,
                dummies,
                affine(element(proved.parts.sg)),
                wrap_digest,
            )
            &&& #[trigger] xi_squeezed(sponge_fp, proved, xi)
            &&& is_proof_witness(setup, proved, digest, dummies, witness)
            &&& residues(statement@) == base_statement(
                proved.transcript,
                xi.view(),
                digest.view(),
                wrap_digest.view(),
                setup.index.domain_log2 as int,
            )
        };
    let log2 = setup.index.domain_log2 as int;
    base_statement_slots(
        proved.transcript,
        xi.view(),
        digest.view(),
        wrap_digest.view(),
        log2,
        0,
    );
    let all = residues(statement@);
    assert(all[0] == statement@[0].view() && all[1] == statement@[1].view());
    assert(all[4] == statement@[4].view() && all[5] == statement@[5].view());
    assert(all[6] == statement@[6].view() && all[7] == statement@[7].view());
    assert(all[8] == statement@[8].view() && all[29] == statement@[29].view());
    let rows = old_bulletproof_challenges@;
    let ipa = choose|ipa: DummyIpa<Fq>| #[trigger]
        drawn(stream, to_field, 0, TOCK_ROUNDS as int, ipa) && is_padded(
            Seq::empty(),
            ipa.prechallenges@,
            rows,
        );
    assert(rows[0]@ == ipa.prechallenges@);
    assert(rows[1]@ == ipa.prechallenges@);
}

/// The base case's dummies fill both rows with the same fifteen challenges in
/// field form, drawn from the start of the stream.
pub proof fn base_dummies_fill_both_rows<R: Fn(usize) -> u128, E: Fn(Fq) -> Fq>(
    stream: R,
    to_field: E,
    dummies: Seq<Vec<Fq>>,
    raw: Seq<Vec<Fq>>,
)
    requires
        dummies_drawn(stream, to_field, dummies),
        raw_dummies_drawn(stream, to_field, raw),
    ensures
        dummies.len() == 2,
        raw.len() == 2,
        exists|ipa: DummyIpa<Fq>| #[trigger]
            drawn(stream, to_field, 0, 15, ipa) && dummies[0]@ == ipa.challenges_computed@
                && dummies[1]@ == ipa.challenges_computed@,
        exists|ipa: DummyIpa<Fq>| #[trigger]
            drawn(stream, to_field, 0, 15, ipa) && raw[0]@ == ipa.prechallenges@ && raw[1]@
                == ipa.prechallenges@,
{
    let a = choose|ipa: DummyIpa<Fq>| #[trigger]
        drawn(stream, to_field, 0, TOCK_ROUNDS as int, ipa) && is_padded(
            Seq::empty(),
            ipa.challenges_computed@,
            dummies,
        );
    assert(drawn(stream, to_field, 0, 15, a));
    let b = choose|ipa: DummyIpa<Fq>| #[trigger]
        drawn(stream, to_field, 0, TOCK_ROUNDS as int, ipa) && is_padded(
            Seq::empty(),
            ipa.prechallenges@,
            raw,
        );
    assert(drawn(stream, to_field, 0, 15, b));
}

/// What the base case's digests and `xi` answer to: the wrap digest to the dummy
/// rows and the step proof's commitment, `xi` to the finalizing transcript with
/// the digest that an empty sponge squeezes.
pub proof fn base_values_answer_to_their_transcripts<
    HP: Fn(&Vec<SpongeOp<Fp>>) -> Fp,
    H: Fn(&Vec<SpongeOp<Fq>>) -> Fq,
>(
    sponge_fp: HP,
    sponge: H,
    proved: ProvedStep,
    xi: Fp,
    dummies: Seq<Vec<Fq>>,
    commitment: (int, int),
    digest: Fq,
)
    requires
        xi_squeezed(sponge_fp, proved, xi),
        wrap_digested(sponge, dummies, commitment, digest),
    ensures
        0 <= xi.view() < 0x1_0000_0000_0000_0000_0000_0000_0000_0000int,
        ({
            let start: Seq<Option<int>> = seq![None];
            exists|no_challenges: Fp| #[trigger]
                replied(sponge_fp, start, no_challenges) && challenged(
                    sponge_fp,
                    absorbing(residues(proved.absorbed(no_challenges))).push(None),
                    xi,
                )
        }),
        exists|sg: Point<Fq>|
            sg.view() == commitment && replied(
                sponge,
                absorbing(
                    residues(crate::sequences::concat_rows(dummies)) + #[trigger] coordinates(
                        seq![sg],
                    ),
                ).push(None),
                digest,
            ),
{
    let no_challenges = choose|no_challenges: Fp| #[trigger]
        replied(sponge_fp, seq![None], no_challenges) && challenged(
            sponge_fp,
            absorbing(residues(proved.absorbed(no_challenges))).push(None),
            xi,
        );
    crate::challenge::challenges_are_low_bits(
        sponge_fp,
        absorbing(residues(proved.absorbed(no_challenges))).push(None),
        xi,
    );
    let sg = choose|sg: Point<Fq>|
        sg.view() == commitment && replied(
            sponge,
            absorbing(#[trigger] wrap_message(dummies, Seq::<Vec<Fq>>::empty(), sg)).push(None),
            digest,
        );
    crate::hash_messages::the_commitment_ends_the_wrap_message(
        dummies,
        Seq::<Vec<Fq>>::empty(),
        sg,
    );
    points_give_their_coordinates(seq![sg]);
    assert(seq![sg][0] == sg);
    assert(coordinates(seq![sg]) =~= seq![sg.x.view(), sg.y.view()]);
    assert(crate::sequences::concat_rows(Seq::<Vec<Fq>>::empty()) =~= Seq::<Fq>::empty());
    assert(wrap_message(dummies, Seq::<Vec<Fq>>::empty(), sg) =~= residues(
        crate::sequences::concat_rows(dummies),
    ) + coordinates(seq![sg]));
}

/// An accepted proof binds its public input: its statement's digest is an answer
/// to the verifier's key and that input, and the wrap proof was accepted for that
/// statement.
pub proof fn accepted_proofs_bind_their_input<
    H: Fn(&Vec<SpongeOp<Fp>>) -> Fp,
    V: Fn(&Vec<Fq>) -> bool,
>(
    proof: BaseCaseProof,
    public_input: Seq<Fp>,
    stmt_len: int,
    sponge: H,
    accepts: V,
    r: Result<(), BaseCaseBackendError>,
)
    requires
        verify_outcome(proof, public_input, stmt_len, sponge, accepts, r),
        r is Ok,
    ensures
        proof.wrap_index.points() == point_residues(proof.wrap_vk_pts@),
        proof.statement@.len() == stmt_len,
        call_ensures(accepts, (&proof.statement,), true),
        exists|vk: Seq<Point<Fp>>, digest: Fp|
            {
                &&& point_residues(vk) == proof.wrap_index.points()
                &&& #[trigger] replied(sponge, #[trigger] base_message(vk, public_input), digest)
                &&& proof.statement@[12].view() == digest.view()
            },
{
    let (vk, digest, accepted): (Seq<Point<Fp>>, Fp, bool) = choose|
        vk: Seq<Point<Fp>>,
        digest: Fp,
        accepted: bool,
    |
        {
            &&& point_residues(vk) == proof.wrap_index.points()
            &&& #[trigger] replied(sponge, #[trigger] base_message(vk, public_input), digest)
            &&& r == #[trigger] verify_answer(proof, stmt_len, digest.view(), accepted)
            &&& r != Err::<(), BaseCaseBackendError>(BaseCaseBackendError::WrapKeyMismatch) && r
                != Err::<(), BaseCaseBackendError>(
                BaseCaseBackendError::InvalidStatementLength(proof.statement@.len() as usize),
            ) && r != Err::<(), BaseCaseBackendError>(BaseCaseBackendError::PublicStateMismatch)
                ==> call_ensures(accepts, (&proof.statement,), accepted)
        };
    answers_name_the_first_failure(proof, stmt_len, digest.view(), accepted);
}

/// An honest proof is accepted: with the verifier's key, the right length, the
/// digest of the input and a verifier that accepts, the answer is no error.
pub proof fn honest_proofs_are_accepted<
    H: Fn(&Vec<SpongeOp<Fp>>) -> Fp,
    V: Fn(&Vec<Fq>) -> bool,
>(
    proof: BaseCaseProof,
    public_input: Seq<Fp>,
    sponge: H,
    accepts: V,
    r: Result<(), BaseCaseBackendError>,
)
    requires
        verify_outcome(
            proof,
            public_input,
            proof.statement@.len() as int,
            sponge,
            accepts,
            r,
        ),
        proof.wrap_index.points() == point_residues(proof.wrap_vk_pts@),
        forall|vk: Seq<Point<Fp>>, digest: Fp|
            point_residues(vk) == proof.wrap_index.points() && #[trigger] replied(
                sponge,
                #[trigger] base_message(vk, public_input),
                digest,
            ) ==> digest.view() == proof.statement@[12].view(),
        forall|a: bool| #[trigger] call_ensures(accepts, (&proof.statement,), a) ==> a,
    ensures
        r is Ok,
{
    let stmt_len = proof.statement@.len() as int;
    let (vk, digest, accepted): (Seq<Point<Fp>>, Fp, bool) = choose|
        vk: Seq<Point<Fp>>,
        digest: Fp,
        accepted: bool,
    |
        {
            &&& point_residues(vk) == proof.wrap_index.points()
            &&& #[trigger] replied(sponge, #[trigger] base_message(vk, public_input), digest)
            &&& r == #[trigger] verify_answer(proof, stmt_len, digest.view(), accepted)
            &&& r != Err::<(), BaseCaseBackendError>(BaseCaseBackendError::WrapKeyMismatch) && r
                != Err::<(), BaseCaseBackendError>(
                BaseCaseBackendError::InvalidStatementLength(proof.statement@.len() as usize),
            ) && r != Err::<(), BaseCaseBackendError>(BaseCaseBackendError::PublicStateMismatch)
                ==> call_ensures(accepts, (&proof.statement,), accepted)
        };
    answers_name_the_first_failure(proof, stmt_len, digest.view(), accepted);
}

/// A shape has the generator for every point, zero for every number, and one
/// element in its step statement.
pub proof fn shapes_hold_the_generator(
    setup: StepSetup,
    generator: (Fq, Fq),
    dummies: Seq<Vec<Fq>>,
    w: WrapWitnessData,
    i: int,
)
    requires
        is_shape_witness(setup, generator, dummies, w),
    ensures
        w.w_comm@.len() == 15,
        0 <= i < 15 ==> w.w_comm@[i] == generator,
        w.z_comm == generator,
        w.t_comm@.len() == 7,
        0 <= i < 7 ==> w.t_comm@[i] == generator,
        w.lr@.len() == 16,
        0 <= i < 16 ==> w.lr@[i].0 == generator && w.lr@[i].1 == generator,
        w.delta == generator,
        w.sg == generator,
        w.z1_repr.view() == 0,
        w.z2_repr.view() == 0,
        w.sg_olds@.len() == 0,
        w.step_statement@.len() == 1,
        w.step_statement@[0] matches WrapStepStatementSlot::Packed { value, num_bits }
            && value.view() == 0 && num_bits == 255,
        w.new_acc_dummies@.len() == dummies.len(),
        0 <= i < dummies.len() ==> w.new_acc_dummies@[i]@ == dummies[i]@,
{
    if 0 <= i < 16 {
        assert(w.lr@[i] == (generator, generator));
    }
}

/// A network proof is the statement, the wire bytes and the key as they are; a
/// missing part is named, the bytes first.
pub proof fn network_proofs_hold_their_parts(
    statement: Seq<Fq>,
    wire: Option<Vec<u8>>,
    key: Option<String>,
    r: Result<MinaWrapProof, BaseCaseBackendError>,
)
    requires
        is_network_proof(statement, wire, key, r),
    ensures
        wire is None ==> r == Err::<MinaWrapProof, BaseCaseBackendError>(
            BaseCaseBackendError::MinaProofEncoding,
        ),
        wire is Some && key is None ==> r == Err::<MinaWrapProof, BaseCaseBackendError>(
            BaseCaseBackendError::MinaVerificationKeyEncoding,
        ),
        wire is Some && key is Some ==> (r matches Ok(p) && p.statement@ == statement
            && p.wrap_wire_proof == wire->0 && p.side_loaded_verification_key == key->0),
{
}

/// What an envelope that does not read is refused for: its version first, then a
/// statement's element, then the proof's bytes; anything else reads.
pub proof fn envelopes_name_the_first_fault(
    json: O1jsWrapProofJson,
    r: Result<MinaWrapProof, BaseCaseBackendError>,
    i: int,
)
    requires
        is_read(json, r),
    ensures
        ({
            let fields_read = forall|k: int|
                0 <= k < json.statement@.len() ==> fq_of_text((#[trigger] json.statement@[k])@)
                    is Some;
            let bytes_read = base64_bytes(json.wrap_wire_proof_base64@) is Some;
            &&& r is Ok <==> json.version == 1 && fields_read && bytes_read
            &&& json.version == 1 && !fields_read <==> r == Err::<
                MinaWrapProof,
                BaseCaseBackendError,
            >(BaseCaseBackendError::O1jsJsonField)
            &&& json.version == 1 && fields_read && !bytes_read <==> r == Err::<
                MinaWrapProof,
                BaseCaseBackendError,
            >(BaseCaseBackendError::O1jsJsonProofBytes)
            &&& r is Ok && 0 <= i < json.statement@.len() ==> fq_of_text(json.statement@[i]@)
                == Some(r->Ok_0.statement@[i].view())
        }),
{
}

} // verus!
