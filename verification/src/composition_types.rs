//! The statement types threaded through the recursion.
//!
//! Every type is generic over the representations of its leaves (field element,
//! challenge, boolean, ..).

pub mod plonk;
pub mod step;
pub mod wrap;

use vstd::prelude::*;

use crate::common::MAX_PROOFS_VERIFIED;
use crate::field::{from_u64, residues, PrimeField};
use crate::sequences::{append_clones, are_clones, concat_rows};

verus! {

/// A challenge that stands for its image under the scalar endomorphism.
#[derive(Clone, Copy, Debug, PartialEq, Eq)]
pub struct ScalarChallenge<F>(pub F);

/// The per-circuit optional-gate flags.
#[derive(Clone, Copy, Debug, PartialEq, Eq)]
pub struct Features<Bool> {
    pub range_check0: Bool,
    pub range_check1: Bool,
    pub foreign_field_add: Bool,
    pub foreign_field_mul: Bool,
    pub xor: Bool,
    pub rot: Bool,
    pub lookup: Bool,
    pub runtime_tables: Bool,
}

impl<Bool> Features<Bool> {
    /// The flags in their fixed order.
    pub open spec fn data(self) -> Seq<Bool> {
        seq![
            self.range_check0,
            self.range_check1,
            self.foreign_field_add,
            self.foreign_field_mul,
            self.xor,
            self.rot,
            self.lookup,
            self.runtime_tables,
        ]
    }
}

impl<Bool: Clone> Features<Bool> {
    /// Every flag the same.
    pub fn of_bool(b: Bool) -> (r: Self)
        ensures
            forall|i: int| 0 <= i < 7 ==> cloned(b, #[trigger] r.data()[i]),
            r.runtime_tables == b,
    {
        let r = Features {
            range_check0: b.clone(),
            range_check1: b.clone(),
            foreign_field_add: b.clone(),
            foreign_field_mul: b.clone(),
            xor: b.clone(),
            rot: b.clone(),
            lookup: b.clone(),
            runtime_tables: b,
        };
        r
    }

    /// Each flag through `f`.
    pub fn map<B2, M: FnMut(&Bool) -> B2>(&self, f: M) -> (r: Features<B2>)
        requires
            forall|b: &Bool| call_requires(f, (b,)),
        ensures
            forall|i: int|
                0 <= i < 8 ==> call_ensures(f, (&self.data()[i],), #[trigger] r.data()[i]),
    {
        let mut f = f;
        let r = Features {
            range_check0: f(&self.range_check0),
            range_check1: f(&self.range_check1),
            foreign_field_add: f(&self.foreign_field_add),
            foreign_field_mul: f(&self.foreign_field_mul),
            xor: f(&self.xor),
            rot: f(&self.rot),
            lookup: f(&self.lookup),
            runtime_tables: f(&self.runtime_tables),
        };
        r
    }

    /// The flags in their fixed order.
    pub fn to_data(&self) -> (r: [Bool; 8])
        ensures
            forall|i: int| 0 <= i < 8 ==> cloned(self.data()[i], #[trigger] r@[i]),
    {
        let r = [
            self.range_check0.clone(),
            self.range_check1.clone(),
            self.foreign_field_add.clone(),
            self.foreign_field_mul.clone(),
            self.xor.clone(),
            self.rot.clone(),
            self.lookup.clone(),
            self.runtime_tables.clone(),
        ];
        r
    }

    /// The flags from their fixed order: the inverse of [`Features::to_data`].
    pub fn from_data(data: [Bool; 8]) -> (r: Self)
        ensures
            forall|i: int| 0 <= i < 8 ==> cloned(data@[i], #[trigger] r.data()[i]),
    {
        let r = Features {
            range_check0: data[0].clone(),
            range_check1: data[1].clone(),
            foreign_field_add: data[2].clone(),
            foreign_field_mul: data[3].clone(),
            xor: data[4].clone(),
            rot: data[5].clone(),
            lookup: data[6].clone(),
            runtime_tables: data[7].clone(),
        };
        r
    }
}

impl Features<bool> {
    /// No optional gate.
    pub fn none() -> (r: Self)
        ensures
            r.data() == seq![false, false, false, false, false, false, false, false],
    {
        let r = Features::of_bool(false);
        assert(forall|i: int| 0 <= i < 7 ==> cloned(false, #[trigger] r.data()[i]));
        assert(r.data() =~= seq![false, false, false, false, false, false, false, false]);
        r
    }
}

/// Flags are determined by their data, and data of the right length are those
/// of some flags: the two orders are inverse to each other.
pub proof fn features_and_data_correspond<Bool>(a: Features<Bool>, b: Features<Bool>, data: Seq<Bool>)
    requires
        data.len() == 8,
    ensures
        a.data() == b.data() ==> a == b,
        (Features {
            range_check0: data[0],
            range_check1: data[1],
            foreign_field_add: data[2],
            foreign_field_mul: data[3],
            xor: data[4],
            rot: data[5],
            lookup: data[6],
            runtime_tables: data[7],
        }).data() == data,
{
    if a.data() == b.data() {
        assert(a.data()[0] == b.data()[0]);
        assert(a.data()[1] == b.data()[1]);
        assert(a.data()[2] == b.data()[2]);
        assert(a.data()[3] == b.data()[3]);
        assert(a.data()[4] == b.data()[4]);
        assert(a.data()[5] == b.data()[5]);
        assert(a.data()[6] == b.data()[6]);
        assert(a.data()[7] == b.data()[7]);
    }
}

/// A challenge from the inner-product argument.
#[derive(Clone, Copy, Debug, PartialEq, Eq)]
pub struct BulletproofChallenge<Chal> {
    pub prechallenge: Chal,
}

/// How many previous proofs a branch verifies.
#[derive(Clone, Copy, Debug, PartialEq, Eq, Structural)]
pub enum ProofsVerified {
    N0,
    N1,
    N2,
}

impl ProofsVerified {
    /// The number.
    pub open spec fn count(self) -> int {
        match self {
            ProofsVerified::N0 => 0,
            ProofsVerified::N1 => 1,
            ProofsVerified::N2 => 2,
        }
    }

    /// The number.
    pub fn to_usize(self) -> (n: usize)
        ensures
            n == self.count(),
    {
        match self {
            ProofsVerified::N0 => 0,
            ProofsVerified::N1 => 1,
            ProofsVerified::N2 => 2,
        }
    }

    /// The case of a number up to two.
    pub fn from_usize(n: usize) -> (r: Self)
        requires
            n <= 2,
        ensures
            r.count() == n,
    {
        match n {
            0 => ProofsVerified::N0,
            1 => ProofsVerified::N1,
            _ => ProofsVerified::N2,
        }
    }

    /// The fixed-width mask of the proofs that are there, padded in front.
    pub fn prefix_mask(self) -> (r: [bool; 2])
        ensures
            forall|i: int|
                0 <= i < MAX_PROOFS_VERIFIED ==> #[trigger] r@[i] == (i >= MAX_PROOFS_VERIFIED
                    - self.count()),
    {
        match self {
            ProofsVerified::N0 => [false, false],
            ProofsVerified::N1 => [false, true],
            ProofsVerified::N2 => [true, true],
        }
    }
}

/// A place for a previous proof.
#[derive(Clone, Debug, PartialEq, Eq)]
pub enum ProofSlot<T> {
    Dummy,
    Proof(T),
}

/// The proofs in their slots, dummies in front.
pub open spec fn front_padded<T>(proofs: Seq<T>) -> Seq<ProofSlot<T>> {
    Seq::new(
        MAX_PROOFS_VERIFIED as nat,
        |i: int|
            if i < MAX_PROOFS_VERIFIED - proofs.len() {
                ProofSlot::Dummy
            } else {
                ProofSlot::Proof(proofs[i - (MAX_PROOFS_VERIFIED - proofs.len())])
            },
    )
}

/// Up to two proofs in two slots, dummies in front.
pub fn front_pad_proof_slots<T>(proofs: Vec<T>) -> (r: [ProofSlot<T>; 2])
    requires
        proofs@.len() <= MAX_PROOFS_VERIFIED,
    ensures
        r@ == front_padded(proofs@),
{
    let ghost all = proofs@;
    let mut proofs = proofs;
    let last = match proofs.pop() {
        None => ProofSlot::Dummy,
        Some(p) => ProofSlot::Proof(p),
    };
    let first = match proofs.pop() {
        None => ProofSlot::Dummy,
        Some(p) => ProofSlot::Proof(p),
    };
    let r = [first, last];
    assert(r@ =~= front_padded(all));
    r
}

/// Which branch was verified: its number of previous proofs and the `log2` of
/// its domain size.
#[derive(Clone, Copy, Debug, PartialEq, Eq, Structural)]
pub struct BranchData {
    pub proofs_verified: ProofsVerified,
    pub domain_log2: u8,
}

impl BranchData {
    /// The packed branch: the low two bits are the number of proofs, the next
    /// eight the `log2` of the domain size.
    pub open spec fn packed(self) -> int {
        self.domain_log2 * 4 + self.proofs_verified.count()
    }

    /// Packs into a single field element.
    pub fn pack<F: PrimeField>(&self) -> (r: F)
        ensures
            r.view() == self.packed(),
    {
        from_u64(self.domain_log2 as u64 * 4 + self.proofs_verified.to_usize() as u64)
    }

    /// Unpacks the low ten bits of a field element. The two lowest bits must
    /// not both be set.
    pub fn unpack<F: PrimeField>(x: F) -> (r: Self)
        requires
            x.view() % 4 != 3,
        ensures
            r.proofs_verified.count() == x.view() % 4,
            r.domain_log2 == (x.view() / 4) % 256,
    {
        let l = x.to_limbs();
        let low = l[0];
        proof {
            crate::montgomery::lemma_low_limb(l);
        }
        BranchData {
            proofs_verified: ProofsVerified::from_usize((low % 4) as usize),
            domain_log2: ((low / 4) % 256) as u8,
        }
    }
}

/// Unpacking undoes packing: what [`BranchData::unpack`] owes of a packed branch
/// is that branch.
pub proof fn unpack_inverts_pack(branch: BranchData, other: BranchData)
    requires
        other.proofs_verified.count() == branch.packed() % 4,
        other.domain_log2 == (branch.packed() / 4) % 256,
    ensures
        branch.packed() % 4 != 3,
        other == branch,
{
}

/// The values whose verification is deferred to the other side of the cycle.
#[derive(Clone, Debug, PartialEq, Eq)]
pub struct DeferredValues<Plonk, Fp, ScalarChallenge, BpChals, BranchData> {
    pub plonk: Plonk,
    /// The combined inner product.
    pub combined_inner_product: Fp,
    /// `h(zeta) + r h(omega zeta)`, with `h` the challenge polynomial.
    pub b: Fp,
    /// The challenge that combines polynomials.
    pub xi: ScalarChallenge,
    /// The challenges of the partially verified inner-product argument.
    pub bulletproof_challenges: BpChals,
    /// Which branch was verified, on the step side.
    pub branch_data: BranchData,
}

/// A proof whose deferred values are yet to be finalized, and whether it is
/// expected to verify.
#[derive(Clone, Debug, PartialEq, Eq)]
pub struct Unfinalized<Plonk, Fp, ScalarChallenge, BpChals, Digest, Bool> {
    pub deferred_values: DeferredValues<Plonk, Fp, ScalarChallenge, BpChals, ()>,
    pub should_finalize: Bool,
    pub sponge_digest_before_evaluations: Digest,
}

/// The verification-key commitments threaded through the recursion.
#[derive(Clone, Debug, PartialEq, Eq)]
pub struct PlonkVerificationKeyEvals<Comm> {
    /// The permutation commitments.
    pub sigma_comm: Vec<Comm>,
    /// The coefficient commitments.
    pub coefficients_comm: Vec<Comm>,
    pub generic_comm: Comm,
    pub psm_comm: Comm,
    pub complete_add_comm: Comm,
    pub mul_comm: Comm,
    pub emul_comm: Comm,
    pub endomul_scalar_comm: Comm,
}

impl<Comm> PlonkVerificationKeyEvals<Comm> {
    /// The commitments in canonical order: sigma, coefficients, then the six
    /// named selectors.
    pub open spec fn list(self) -> Seq<Comm> {
        self.sigma_comm@ + self.coefficients_comm@ + seq![
            self.generic_comm,
            self.psm_comm,
            self.complete_add_comm,
            self.mul_comm,
            self.emul_comm,
            self.endomul_scalar_comm,
        ]
    }

    /// The commitments in canonical order.
    pub fn to_list(&self) -> (r: Vec<&Comm>)
        ensures
            r@.len() == self.list().len(),
            forall|i: int| 0 <= i < r@.len() ==> *(#[trigger] r@[i]) == self.list()[i],
    {
        let mut v: Vec<&Comm> = Vec::new();
        let mut i: usize = 0;
        while i < self.sigma_comm.len()
            invariant
                i <= self.sigma_comm@.len(),
                v@.len() == i,
                forall|k: int| 0 <= k < i ==> *(#[trigger] v@[k]) == self.sigma_comm@[k],
            decreases self.sigma_comm.len() - i,
        {
            v.push(&self.sigma_comm[i]);
            i = i + 1;
        }
        let mut j: usize = 0;
        let ghost n = self.sigma_comm@.len() as int;
        while j < self.coefficients_comm.len()
            invariant
                j <= self.coefficients_comm@.len(),
                n == self.sigma_comm@.len(),
                v@.len() == n + j,
                forall|k: int| 0 <= k < n + j ==> *(#[trigger] v@[k]) == self.list()[k],
            decreases self.coefficients_comm.len() - j,
        {
            v.push(&self.coefficients_comm[j]);
            j = j + 1;
        }
        v.push(&self.generic_comm);
        v.push(&self.psm_comm);
        v.push(&self.complete_add_comm);
        v.push(&self.mul_comm);
        v.push(&self.emul_comm);
        v.push(&self.endomul_scalar_comm);
        v
    }
}

/// The accumulator threaded to the next step proof.
#[derive(Clone, Debug, PartialEq, Eq)]
pub struct MessagesForNextStepProof<Comm, S, Comms, BpChals> {
    /// The application state.
    pub app_state: S,
    /// The wrap circuit's verification key.
    pub dlog_plonk_index: PlonkVerificationKeyEvals<Comm>,
    /// The previous challenge-polynomial commitments.
    pub challenge_polynomial_commitments: Comms,
    /// The previous bulletproof challenges.
    pub old_bulletproof_challenges: BpChals,
}

/// Each commitment's elements followed by its challenges.
pub open spec fn interleaved<F>(comms: Seq<Vec<F>>, chals: Seq<Seq<F>>) -> Seq<F>
    decreases comms.len(),
{
    if comms.len() == 0 {
        Seq::empty()
    } else {
        interleaved(comms.drop_last(), chals.drop_last()) + comms.last()@ + chals.last()
    }
}

/// `copies` holds clones of the items of each row, in order.
pub open spec fn are_row_clones<F: Clone>(rows: Seq<Vec<F>>, copies: Seq<Seq<F>>) -> bool {
    &&& copies.len() == rows.len()
    &&& forall|i: int| 0 <= i < rows.len() ==> are_clones(rows[i]@, #[trigger] copies[i])
}

impl<Comm, S, F: Clone> MessagesForNextStepProof<Comm, S, Vec<Comm>, Vec<Vec<F>>> {
    /// `out` is the application state's elements, then each commitment's
    /// followed by its challenges.
    pub open spec fn is_without_index<A: Fn(&S) -> Vec<F>, C: Fn(&Comm) -> Vec<F>>(
        self,
        app: A,
        comm: C,
        out: Seq<F>,
    ) -> bool {
        exists|state: Vec<F>, comms: Seq<Vec<F>>, chals: Seq<Seq<F>>| #[trigger]
            self.is_laid_out(app, comm, state, comms, chals, out)
    }

    /// `out` is `state`, then the items of `comms`, each followed by those of
    /// `chals`: what the closures give, and clones of the challenges.
    pub open spec fn is_laid_out<A: Fn(&S) -> Vec<F>, C: Fn(&Comm) -> Vec<F>>(
        self,
        app: A,
        comm: C,
        state: Vec<F>,
        comms: Seq<Vec<F>>,
        chals: Seq<Seq<F>>,
        out: Seq<F>,
    ) -> bool {
        &&& call_ensures(app, (&self.app_state,), state)
        &&& comms.len() == self.challenge_polynomial_commitments@.len()
        &&& forall|i: int|
            0 <= i < comms.len() ==> call_ensures(
                comm,
                (&self.challenge_polynomial_commitments@[i],),
                #[trigger] comms[i],
            )
        &&& are_row_clones(self.old_bulletproof_challenges@, chals)
        &&& out == state@ + interleaved(comms, chals)
    }

    /// `index` is the elements of each commitment of the verification key, in
    /// canonical order.
    pub open spec fn is_index<I: Fn(&Comm) -> Vec<F>>(
        self,
        index_comm: I,
        index: Seq<Vec<F>>,
    ) -> bool {
        &&& index.len() == self.dlog_plonk_index.list().len()
        &&& forall|i: int|
            0 <= i < index.len() ==> call_ensures(
                index_comm,
                (&self.dlog_plonk_index.list()[i],),
                #[trigger] index[i],
            )
    }

    /// `out` is the verification key's elements, then the accumulator without it.
    pub open spec fn is_with_index<
        A: Fn(&S) -> Vec<F>,
        I: Fn(&Comm) -> Vec<F>,
        C: Fn(&Comm) -> Vec<F>,
    >(self, app: A, index_comm: I, comm: C, out: Seq<F>) -> bool {
        exists|index: Seq<Vec<F>>, rest: Seq<F>|
            {
                &&& #[trigger] self.is_index(index_comm, index)
                &&& #[trigger] self.is_without_index(app, comm, rest)
                &&& out == concat_rows(index) + rest
            }
    }

    /// The accumulator without its verification key: application state, then
    /// each challenge-polynomial commitment followed by its challenges.
    pub fn to_field_elements_without_index<A: Fn(&S) -> Vec<F>, C: Fn(&Comm) -> Vec<F>>(
        &self,
        app_state_to_field_elements: A,
        comm_to_field_elements: C,
    ) -> (r: Vec<F>)
        requires
            self.challenge_polynomial_commitments@.len() == self.old_bulletproof_challenges@.len(),
            forall|s: &S| call_requires(app_state_to_field_elements, (s,)),
            forall|c: &Comm| call_requires(comm_to_field_elements, (c,)),
        ensures
            self.is_without_index(app_state_to_field_elements, comm_to_field_elements, r@),
    {
        let mut out = app_state_to_field_elements(&self.app_state);
        let ghost state = out;
        let ghost mut comms: Seq<Vec<F>> = Seq::empty();
        let ghost rows = self.old_bulletproof_challenges@;
        let ghost mut chals: Seq<Seq<F>> = Seq::empty();
        let mut i: usize = 0;
        while i < self.challenge_polynomial_commitments.len()
            invariant
                i <= self.challenge_polynomial_commitments@.len(),
                rows == self.old_bulletproof_challenges@,
                self.challenge_polynomial_commitments@.len() == rows.len(),
                chals.len() == i,
                forall|k: int| 0 <= k < i ==> are_clones(rows[k]@, #[trigger] chals[k]),
                forall|c: &Comm| call_requires(comm_to_field_elements, (c,)),
                comms.len() == i,
                forall|k: int|
                    0 <= k < i ==> call_ensures(
                        comm_to_field_elements,
                        (&self.challenge_polynomial_commitments@[k],),
                        #[trigger] comms[k],
                    ),
                out@ == state@ + interleaved(comms, chals),
            decreases self.challenge_polynomial_commitments.len() - i,
        {
            let mut elements = comm_to_field_elements(&self.challenge_polynomial_commitments[i]);
            let ghost added = elements;
            out.append(&mut elements);
            let ghost so_far = out@;
            append_clones(&mut out, self.old_bulletproof_challenges[i].as_slice());
            proof {
                let n = so_far.len() as int;
                let before = comms;
                let before_chals = chals;
                comms = comms.push(added);
                chals = chals.push(out@.skip(n));
                assert(comms.drop_last() == before);
                assert(chals.drop_last() == before_chals);
                assert(out@ =~= out@.take(n) + out@.skip(n));
            }
            i = i + 1;
        }
        assert(self.is_laid_out(
            app_state_to_field_elements,
            comm_to_field_elements,
            state,
            comms,
            chals,
            out@,
        ));
        out
    }

    /// The whole accumulator: verification-key commitments first, then what
    /// [`MessagesForNextStepProof::to_field_elements_without_index`] gives.
    pub fn to_field_elements<
        A: Fn(&S) -> Vec<F>,
        I: Fn(&Comm) -> Vec<F>,
        C: Fn(&Comm) -> Vec<F>,
    >(
        &self,
        app_state_to_field_elements: A,
        index_comm_to_field_elements: I,
        comm_to_field_elements: C,
    ) -> (r: Vec<F>)
        requires
            self.challenge_polynomial_commitments@.len() == self.old_bulletproof_challenges@.len(),
            forall|s: &S| call_requires(app_state_to_field_elements, (s,)),
            forall|c: &Comm| call_requires(index_comm_to_field_elements, (c,)),
            forall|c: &Comm| call_requires(comm_to_field_elements, (c,)),
        ensures
            self.is_with_index(
                app_state_to_field_elements,
                index_comm_to_field_elements,
                comm_to_field_elements,
                r@,
            ),
    {
        let mut out: Vec<F> = Vec::new();
        let list = self.dlog_plonk_index.to_list();
        let ghost mut index: Seq<Vec<F>> = Seq::empty();
        let mut i: usize = 0;
        while i < list.len()
            invariant
                i <= list@.len(),
                list@.len() == self.dlog_plonk_index.list().len(),
                forall|i: int|
                    0 <= i < list@.len() ==> *(#[trigger] list@[i])
                        == self.dlog_plonk_index.list()[i],
                forall|c: &Comm| call_requires(index_comm_to_field_elements, (c,)),
                index.len() == i,
                forall|k: int|
                    0 <= k < i ==> call_ensures(
                        index_comm_to_field_elements,
                        (&self.dlog_plonk_index.list()[k],),
                        #[trigger] index[k],
                    ),
                out@ == concat_rows(index),
            decreases list.len() - i,
        {
            let mut elements = index_comm_to_field_elements(list[i]);
            let ghost added = elements;
            out.append(&mut elements);
            proof {
                let before = index;
                index = index.push(added);
                assert(index.drop_last() == before);
            }
            i = i + 1;
        }
        let mut rest = self.to_field_elements_without_index(
            app_state_to_field_elements,
            comm_to_field_elements,
        );
        let ghost last = rest@;
        out.append(&mut rest);
        assert(self.is_index(index_comm_to_field_elements, index));
        assert(out@ == concat_rows(index) + last);
        out
    }

    /// Where the closures give one answer to each argument, and clones are equal,
    /// there is one accumulator without its key.
    pub proof fn without_index_is_one_list<A: Fn(&S) -> Vec<F>, C: Fn(&Comm) -> Vec<F>>(
        self,
        app: A,
        comm: C,
        first: Seq<F>,
        second: Seq<F>,
    )
        requires
            answers_once(app),
            answers_once(comm),
            clones_faithfully::<F>(),
            self.challenge_polynomial_commitments@.len() == self.old_bulletproof_challenges@.len(),
            self.is_without_index(app, comm, first),
            self.is_without_index(app, comm, second),
        ensures
            first == second,
    {
        let (state1, comms1, chals1) = choose|
            state: Vec<F>,
            comms: Seq<Vec<F>>,
            chals: Seq<Seq<F>>,
        | #[trigger]
            self.is_laid_out(app, comm, state, comms, chals, first);
        let (state2, comms2, chals2) = choose|
            state: Vec<F>,
            comms: Seq<Vec<F>>,
            chals: Seq<Seq<F>>,
        | #[trigger]
            self.is_laid_out(app, comm, state, comms, chals, second);
        assert forall|i: int| 0 <= i < comms1.len() implies (#[trigger] comms1[i])@
            == comms2[i]@ by {
            assert(call_ensures(comm, (&self.challenge_polynomial_commitments@[i],), comms1[i]));
            assert(call_ensures(comm, (&self.challenge_polynomial_commitments@[i],), comms2[i]));
        }
        let rows = self.old_bulletproof_challenges@;
        assert forall|i: int| 0 <= i < chals1.len() implies #[trigger] chals1[i] == chals2[i] by {
            assert(are_clones(rows[i]@, chals1[i]));
            assert(are_clones(rows[i]@, chals2[i]));
            assert(chals1[i] =~= rows[i]@);
            assert(chals2[i] =~= rows[i]@);
        }
        lemma_interleaved_alike(comms1, chals1, comms2, chals2);
    }

    /// The accumulator with its key is the key's elements followed by the
    /// accumulator without it: the key goes through one closure alone, the
    /// challenge-polynomial commitments through the other.
    pub proof fn the_key_comes_first<
        A: Fn(&S) -> Vec<F>,
        I: Fn(&Comm) -> Vec<F>,
        C: Fn(&Comm) -> Vec<F>,
    >(self, app: A, index_comm: I, comm: C, index: Seq<Vec<F>>, whole: Seq<F>, rest: Seq<F>)
        requires
            answers_once(app),
            answers_once(index_comm),
            answers_once(comm),
            clones_faithfully::<F>(),
            self.challenge_polynomial_commitments@.len() == self.old_bulletproof_challenges@.len(),
            self.is_with_index(app, index_comm, comm, whole),
            self.is_index(index_comm, index),
            self.is_without_index(app, comm, rest),
        ensures
            whole == concat_rows(index) + rest,
    {
        let (index1, rest1) = choose|index: Seq<Vec<F>>, rest: Seq<F>|
            {
                &&& #[trigger] self.is_index(index_comm, index)
                &&& #[trigger] self.is_without_index(app, comm, rest)
                &&& whole == concat_rows(index) + rest
            };
        self.without_index_is_one_list(app, comm, rest1, rest);
        assert forall|i: int| 0 <= i < index.len() implies (#[trigger] index[i])@ == index1[i]@ by {
            assert(call_ensures(index_comm, (&self.dlog_plonk_index.list()[i],), index[i]));
            assert(call_ensures(index_comm, (&self.dlog_plonk_index.list()[i],), index1[i]));
        }
        lemma_rows_alike(index, index1);
    }
}

/// A function gives one answer to each argument.
pub open spec fn answers_once<T, F, G: Fn(&T) -> Vec<F>>(f: G) -> bool {
    forall|x: &T, a: Vec<F>, b: Vec<F>| #[trigger]
        call_ensures(f, (x,), a) && #[trigger] call_ensures(f, (x,), b) ==> a@ == b@
}

/// A clone equals what it is a clone of.
pub open spec fn clones_faithfully<F: Clone>() -> bool {
    forall|a: F, b: F| #[trigger] cloned(a, b) ==> a == b
}

proof fn lemma_rows_alike<F>(a: Seq<Vec<F>>, b: Seq<Vec<F>>)
    requires
        a.len() == b.len(),
        forall|i: int| 0 <= i < a.len() ==> (#[trigger] a[i])@ == b[i]@,
    ensures
        concat_rows(a) == concat_rows(b),
    decreases a.len(),
{
    if a.len() > 0 {
        lemma_rows_alike(a.drop_last(), b.drop_last());
        assert(a[a.len() - 1]@ == b[a.len() - 1]@);
    }
}

proof fn lemma_interleaved_alike<F>(
    comms1: Seq<Vec<F>>,
    chals1: Seq<Seq<F>>,
    comms2: Seq<Vec<F>>,
    chals2: Seq<Seq<F>>,
)
    requires
        comms1.len() == comms2.len() == chals1.len() == chals2.len(),
        forall|i: int| 0 <= i < comms1.len() ==> (#[trigger] comms1[i])@ == comms2[i]@,
        forall|i: int| 0 <= i < chals1.len() ==> #[trigger] chals1[i] == chals2[i],
    ensures
        interleaved(comms1, chals1) == interleaved(comms2, chals2),
    decreases comms1.len(),
{
    if comms1.len() > 0 {
        let n = comms1.len() - 1;
        lemma_interleaved_alike(
            comms1.drop_last(),
            chals1.drop_last(),
            comms2.drop_last(),
            chals2.drop_last(),
        );
        assert(comms1[n]@ == comms2[n]@);
        assert(chals1[n] == chals2[n]);
    }
}

/// The residues of a list of scalar challenges.
pub open spec fn challenge_residues<F: PrimeField>(
    chals: Seq<BulletproofChallenge<ScalarChallenge<F>>>,
) -> Seq<int> {
    Seq::new(chals.len(), |i: int| chals[i].prechallenge.0.view())
}

/// The residues of flags.
pub open spec fn flag_residues(flags: Features<bool>) -> Seq<int> {
    Seq::new(
        8,
        |i: int|
            if flags.data()[i] {
                1int
            } else {
                0
            },
    )
}

/// Appends an element, seen as a residue.
pub(crate) fn push_residue<F: PrimeField>(out: &mut Vec<F>, x: F)
    ensures
        residues(final(out)@) == residues(old(out)@).push(x.view()),
{
    out.push(x);
    assert(residues(out@) =~= residues(old(out)@).push(x.view()));
}

/// Appends the challenges, seen as residues.
pub(crate) fn push_challenges<F: PrimeField>(
    out: &mut Vec<F>,
    chals: &[BulletproofChallenge<ScalarChallenge<F>>],
)
    ensures
        residues(final(out)@) == residues(old(out)@) + challenge_residues(chals@),
{
    let ghost before = residues(out@);
    let mut i: usize = 0;
    assert(before + challenge_residues(chals@).take(0) =~= before);
    while i < chals.len()
        invariant
            i <= chals@.len(),
            residues(out@) == before + challenge_residues(chals@).take(i as int),
        decreases chals.len() - i,
    {
        push_residue(out, chals[i].prechallenge.0);
        i = i + 1;
        assert(before + challenge_residues(chals@).take(i as int) =~= (before + challenge_residues(
            chals@,
        ).take(i - 1)).push(challenge_residues(chals@)[i - 1]));
    }
    assert(challenge_residues(chals@).take(i as int) =~= challenge_residues(chals@));
}

/// Appends the flags, as ones and zeros.
pub(crate) fn push_flags<F: PrimeField>(out: &mut Vec<F>, flags: &Features<bool>)
    ensures
        residues(final(out)@) == residues(old(out)@) + flag_residues(*flags),
{
    let ghost before = residues(out@);
    push_residue(out, crate::field::from_bool(flags.range_check0));
    push_residue(out, crate::field::from_bool(flags.range_check1));
    push_residue(out, crate::field::from_bool(flags.foreign_field_add));
    push_residue(out, crate::field::from_bool(flags.foreign_field_mul));
    push_residue(out, crate::field::from_bool(flags.xor));
    push_residue(out, crate::field::from_bool(flags.rot));
    push_residue(out, crate::field::from_bool(flags.lookup));
    push_residue(out, crate::field::from_bool(flags.runtime_tables));
    assert(residues(out@) =~= before + flag_residues(*flags));
}

/// Each flag has its own slot, one where it is set and zero where it is not, in
/// the order of the fields.
pub proof fn flags_show_in_the_order_of_the_fields(flags: Features<bool>)
    ensures
        flag_residues(flags).len() == 8,
        flag_residues(flags)[0] == if flags.range_check0 {
            1int
        } else {
            0
        },
        flag_residues(flags)[1] == if flags.range_check1 {
            1int
        } else {
            0
        },
        flag_residues(flags)[2] == if flags.foreign_field_add {
            1int
        } else {
            0
        },
        flag_residues(flags)[3] == if flags.foreign_field_mul {
            1int
        } else {
            0
        },
        flag_residues(flags)[4] == if flags.xor {
            1int
        } else {
            0
        },
        flag_residues(flags)[5] == if flags.rot {
            1int
        } else {
            0
        },
        flag_residues(flags)[6] == if flags.lookup {
            1int
        } else {
            0
        },
        flag_residues(flags)[7] == if flags.runtime_tables {
            1int
        } else {
            0
        },
{
}

/// The key's commitments in order: the permutation's, the coefficients', and the
/// six selectors by name.
pub proof fn key_commitments_have_their_order<Comm>(
    vk: PlonkVerificationKeyEvals<Comm>,
    i: int,
)
    ensures
        ({
            let all = vk.list();
            let c = vk.sigma_comm@.len() as int;
            let n = c + vk.coefficients_comm@.len();
            &&& all.len() == n + 6
            &&& 0 <= i < c ==> all[i] == vk.sigma_comm@[i]
            &&& 0 <= i < vk.coefficients_comm@.len() ==> all[c + i] == vk.coefficients_comm@[i]
            &&& all[n] == vk.generic_comm
            &&& all[n + 1] == vk.psm_comm
            &&& all[n + 2] == vk.complete_add_comm
            &&& all[n + 3] == vk.mul_comm
            &&& all[n + 4] == vk.emul_comm
            &&& all[n + 5] == vk.endomul_scalar_comm
        }),
{
}

/// The old proofs are laid out one after the other, each with its commitment's
/// elements before its challenges.
pub proof fn commitments_come_before_their_challenges<F>(
    comms: Seq<Vec<F>>,
    chals: Seq<Seq<F>>,
    more_comms: Seq<Vec<F>>,
    more_chals: Seq<Seq<F>>,
    comm: Vec<F>,
    row: Seq<F>,
)
    requires
        comms.len() == chals.len(),
        more_comms.len() == more_chals.len(),
    ensures
        interleaved(comms + more_comms, chals + more_chals) == interleaved(comms, chals)
            + interleaved(more_comms, more_chals),
        interleaved(seq![comm], seq![row]) == comm@ + row,
    decreases more_comms.len(),
{
    reveal_with_fuel(interleaved, 2);
    assert(seq![comm].drop_last() =~= Seq::<Vec<F>>::empty());
    assert(interleaved(seq![comm], seq![row]) =~= comm@ + row);
    if more_comms.len() == 0 {
        assert(comms + more_comms =~= comms);
        assert(chals + more_chals =~= chals);
        assert(interleaved(comms, chals) + interleaved(more_comms, more_chals) =~= interleaved(
            comms,
            chals,
        ));
    } else {
        commitments_come_before_their_challenges(
            comms,
            chals,
            more_comms.drop_last(),
            more_chals.drop_last(),
            comm,
            row,
        );
        assert((comms + more_comms).drop_last() =~= comms + more_comms.drop_last());
        assert((chals + more_chals).drop_last() =~= chals + more_chals.drop_last());
        assert(interleaved(comms + more_comms, chals + more_chals) =~= interleaved(comms, chals)
            + interleaved(more_comms, more_chals));
    }
}

/// Real proofs take the last slots in order, dummies the first ones.
pub proof fn real_proofs_take_the_last_slots<T>(proofs: Seq<T>, i: int)
    requires
        proofs.len() <= 2,
    ensures
        front_padded(proofs).len() == 2,
        0 <= i < proofs.len() ==> front_padded(proofs)[2 - proofs.len() + i] == ProofSlot::Proof(
            proofs[i],
        ),
        0 <= i < 2 - proofs.len() ==> front_padded(proofs)[i] == ProofSlot::<T>::Dummy,
{
}

/// The packed branch holds both numbers: the number of proofs in its two lowest
/// bits, the domain's size above them, and two branches never pack alike.
pub proof fn branches_pack_apart(a: BranchData, b: BranchData)
    ensures
        a.packed() == 4 * a.domain_log2 + (match a.proofs_verified {
            ProofsVerified::N0 => 0int,
            ProofsVerified::N1 => 1,
            ProofsVerified::N2 => 2,
        }),
        a.packed() == b.packed() ==> a == b,
{
}

/// The list without the key is the state and then the old proofs, whatever the
/// state and the commitments become.
pub proof fn the_state_comes_first<Comm, S, F: Clone, A: Fn(&S) -> Vec<F>, C: Fn(&Comm) -> Vec<F>>(
    messages: MessagesForNextStepProof<Comm, S, Vec<Comm>, Vec<Vec<F>>>,
    app: A,
    comm: C,
    state: Vec<F>,
    comms: Seq<Vec<F>>,
    out: Seq<F>,
)
    requires
        answers_once(app),
        answers_once(comm),
        clones_faithfully::<F>(),
        call_ensures(app, (&messages.app_state,), state),
        comms.len() == messages.challenge_polynomial_commitments@.len(),
        messages.challenge_polynomial_commitments@.len()
            == messages.old_bulletproof_challenges@.len(),
        forall|i: int|
            0 <= i < comms.len() ==> call_ensures(
                comm,
                (&messages.challenge_polynomial_commitments@[i],),
                #[trigger] comms[i],
            ),
        messages.is_without_index(app, comm, out),
    ensures
        out == state@ + interleaved(
            comms,
            Seq::new(
                messages.old_bulletproof_challenges@.len(),
                |i: int| messages.old_bulletproof_challenges@[i]@,
            ),
        ),
{
    let chals = Seq::new(
        messages.old_bulletproof_challenges@.len(),
        |i: int| messages.old_bulletproof_challenges@[i]@,
    );
    let (s2, c2, h2): (Vec<F>, Seq<Vec<F>>, Seq<Seq<F>>) = choose|
        s2: Vec<F>,
        c2: Seq<Vec<F>>,
        h2: Seq<Seq<F>>,
    | #[trigger] messages.is_laid_out(app, comm, s2, c2, h2, out);
    assert(s2@ == state@);
    assert forall|i: int| 0 <= i < h2.len() implies h2[i] == chals[i] by {
        assert(are_clones(messages.old_bulletproof_challenges@[i]@, h2[i]));
        assert forall|k: int| 0 <= k < h2[i].len() implies h2[i][k] == chals[i][k] by {
            assert(cloned(messages.old_bulletproof_challenges@[i]@[k], h2[i][k]));
        }
        assert(h2[i] =~= chals[i]);
    }
    assert(h2 =~= chals);
    assert forall|i: int| 0 <= i < comms.len() implies c2[i]@ == comms[i]@ by {
        assert(call_ensures(
            comm,
            (&messages.challenge_polynomial_commitments@[i],),
            c2[i],
        ));
        assert(call_ensures(
            comm,
            (&messages.challenge_polynomial_commitments@[i],),
            comms[i],
        ));
    }
    lemma_interleaved_views(c2, comms, chals);
}

proof fn lemma_interleaved_views<F>(a: Seq<Vec<F>>, b: Seq<Vec<F>>, chals: Seq<Seq<F>>)
    requires
        a.len() == b.len(),
        forall|i: int| 0 <= i < a.len() ==> #[trigger] a[i]@ == b[i]@,
    ensures
        interleaved(a, chals) == interleaved(b, chals),
    decreases a.len(),
{
    if a.len() > 0 {
        assert forall|i: int| 0 <= i < a.len() - 1 implies #[trigger] a.drop_last()[i]@
            == b.drop_last()[i]@ by {
            assert(a[i]@ == b[i]@);
        }
        lemma_interleaved_views(a.drop_last(), b.drop_last(), chals.drop_last());
        assert(a[a.len() - 1]@ == b[b.len() - 1]@);
    }
}

/// The key's rows are its commitments' elements, in canonical order.
pub proof fn key_rows_follow_the_list<Comm, S, F: Clone, I: Fn(&Comm) -> Vec<F>>(
    messages: MessagesForNextStepProof<Comm, S, Vec<Comm>, Vec<Vec<F>>>,
    index_comm: I,
    index: Seq<Vec<F>>,
    i: int,
)
    requires
        messages.is_index(index_comm, index),
    ensures
        index.len() == messages.dlog_plonk_index.sigma_comm@.len()
            + messages.dlog_plonk_index.coefficients_comm@.len() + 6,
        0 <= i < messages.dlog_plonk_index.sigma_comm@.len() ==> call_ensures(
            index_comm,
            (&messages.dlog_plonk_index.sigma_comm@[i],),
            index[i],
        ),
        call_ensures(
            index_comm,
            (&messages.dlog_plonk_index.endomul_scalar_comm,),
            index.last(),
        ),
{
    let vk = messages.dlog_plonk_index;
    key_commitments_have_their_order(vk, i);
    assert(call_ensures(
        index_comm,
        (&vk.list()[index.len() - 1],),
        index[index.len() - 1],
    ));
    if 0 <= i < vk.sigma_comm@.len() {
        assert(call_ensures(index_comm, (&vk.list()[i],), index[i]));
    }
}

/// Challenges show as their prechallenges, in order.
pub proof fn challenges_show_in_order<F: PrimeField>(
    chals: Seq<BulletproofChallenge<ScalarChallenge<F>>>,
    i: int,
)
    ensures
        challenge_residues(chals).len() == chals.len(),
        0 <= i < chals.len() ==> challenge_residues(chals)[i] == chals[i].prechallenge.0.view(),
{
}

} // verus!
