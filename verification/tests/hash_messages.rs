use pickles::composition_types::PlonkVerificationKeyEvals;
use pickles::curve::Point;
use pickles::field::{from_u64, Fp, PrimeField};
use pickles::hash_messages::{
    hash_messages_for_next_step_proof, hash_messages_for_next_step_proof_opt,
    hash_messages_for_next_step_proof_ref, hash_messages_for_next_wrap_proof,
    hash_messages_for_next_wrap_proof_ref, sponge_after_index,
};
use pickles::common::{TICK_ROUNDS, TOCK_ROUNDS};
use pickles::sponge::SpongeOp;
use rand_chacha::rand_core::{RngCore, SeedableRng};

const PERMUTS: usize = 7;
const COLUMNS: usize = 15;

/// A stand-in for the sponge: a fold of the transcript that depends on every
/// operation and on their order.
fn toy_sponge(ops: &Vec<SpongeOp<Fp>>) -> Fp {
    let base: Fp = from_u64(1_000_003);
    let mut state: Fp = from_u64(17);
    for op in ops {
        let step = match op {
            SpongeOp::Absorb(x) => x.add(&from_u64(5)),
            SpongeOp::Squeeze => from_u64(3),
        };
        state = state.mul(&base).add(&step);
        state = state.mul(&state).add(&step);
    }
    state
}

/// The stand-in, driven one call at a time.
struct Mirror {
    ops: Vec<SpongeOp<Fp>>,
}

impl Mirror {
    fn new() -> Self {
        Mirror { ops: Vec::new() }
    }

    fn absorb(&mut self, x: Fp) {
        self.ops.push(SpongeOp::Absorb(x));
    }

    fn squeeze(&mut self) -> Fp {
        self.ops.push(SpongeOp::Squeeze);
        toy_sponge(&self.ops)
    }
}


fn rng() -> rand_chacha::ChaCha20Rng {
    rand_chacha::ChaCha20Rng::seed_from_u64(23)
}

fn random(rng: &mut rand_chacha::ChaCha20Rng) -> Fp {
    let limbs = [rng.next_u64(), rng.next_u64(), rng.next_u64(), rng.next_u64() >> 2];
    Fp::from_limbs(limbs).unwrap()
}

fn random_point(rng: &mut rand_chacha::ChaCha20Rng) -> Point<Fp> {
    Point { x: random(rng), y: random(rng) }
}

fn key(comms: &[Point<Fp>]) -> PlonkVerificationKeyEvals<Point<Fp>> {
    let mut it = comms.iter().copied();
    PlonkVerificationKeyEvals {
        sigma_comm: (0..PERMUTS).map(|_| it.next().unwrap()).collect(),
        coefficients_comm: (0..COLUMNS).map(|_| it.next().unwrap()).collect(),
        generic_comm: it.next().unwrap(),
        psm_comm: it.next().unwrap(),
        complete_add_comm: it.next().unwrap(),
        mul_comm: it.next().unwrap(),
        emul_comm: it.next().unwrap(),
        endomul_scalar_comm: it.next().unwrap(),
    }
}

#[test]
fn hash_messages_matches_reference() {
    let mut rng = rng();
    let vk: Vec<Point<Fp>> = (0..PERMUTS + COLUMNS + 6).map(|_| random_point(&mut rng)).collect();
    let app_state: Vec<Fp> = (0..3).map(|_| random(&mut rng)).collect();
    let cpcs: Vec<Point<Fp>> = (0..2).map(|_| random_point(&mut rng)).collect();
    let old_chals: Vec<Vec<Fp>> =
        (0..2).map(|_| (0..TICK_ROUNDS).map(|_| random(&mut rng)).collect()).collect();

    let mut s = Mirror::new();
    for p in &vk {
        s.absorb(p.x);
        s.absorb(p.y);
    }
    for x in &app_state {
        s.absorb(*x);
    }
    for (p, chals) in cpcs.iter().zip(&old_chals) {
        s.absorb(p.x);
        s.absorb(p.y);
        for c in chals {
            s.absorb(*c);
        }
    }
    let expected = s.squeeze();

    assert_eq!(
        hash_messages_for_next_step_proof_ref(&toy_sponge, &vk, &app_state, &cpcs, &old_chals),
        expected
    );
    let after_index = sponge_after_index(&key(&vk));
    assert_eq!(
        hash_messages_for_next_step_proof(&toy_sponge, &after_index, &app_state, &cpcs, &old_chals),
        expected
    );
}

#[test]
fn optional_step_hash_matches_filtered_reference() {
    let mut rng = rng();
    let vk: Vec<Point<Fp>> = (0..PERMUTS + COLUMNS + 6).map(|_| random_point(&mut rng)).collect();
    let app_state = vec![random(&mut rng)];
    let cpcs: Vec<Point<Fp>> = (0..2).map(|_| random_point(&mut rng)).collect();
    let old_chals: Vec<Vec<Fp>> =
        (0..2).map(|_| (0..TICK_ROUNDS).map(|_| random(&mut rng)).collect()).collect();
    let after_index = sponge_after_index(&key(&vk));

    for mask in [vec![false, false], vec![false, true], vec![true, true]] {
        let filtered_cpcs: Vec<_> = cpcs
            .iter()
            .zip(&mask)
            .filter_map(|(&value, &keep)| keep.then_some(value))
            .collect();
        let filtered_chals: Vec<_> = old_chals
            .iter()
            .zip(&mask)
            .filter_map(|(value, &keep)| keep.then_some(value.clone()))
            .collect();
        let expected = hash_messages_for_next_step_proof_ref(
            &toy_sponge,
            &vk,
            &app_state,
            &filtered_cpcs,
            &filtered_chals,
        );
        let got = hash_messages_for_next_step_proof_opt(
            &toy_sponge,
            &after_index,
            &app_state,
            &cpcs,
            &old_chals,
            &mask,
        );
        assert_eq!(got, expected, "mask = {mask:?}");
    }
}

#[test]
fn a_full_mask_hashes_everything() {
    let mut rng = rng();
    let cpcs: Vec<Point<Fp>> = (0..2).map(|_| random_point(&mut rng)).collect();
    let chals: Vec<Vec<Fp>> = (0..2).map(|_| vec![random(&mut rng); 3]).collect();
    assert_eq!(
        hash_messages_for_next_step_proof_opt(&toy_sponge, &[], &[], &cpcs, &chals, &[true, true]),
        hash_messages_for_next_step_proof(&toy_sponge, &[], &[], &cpcs, &chals)
    );
}

#[test]
fn wrap_hash_matches_reference() {
    let mut rng = rng();
    let dummy: Vec<Vec<Fp>> = vec![(0..TOCK_ROUNDS).map(|_| random(&mut rng)).collect()];
    let old: Vec<Vec<Fp>> = vec![(0..TOCK_ROUNDS).map(|_| random(&mut rng)).collect()];
    let cpc = random_point(&mut rng);

    let mut s = Mirror::new();
    for v in dummy.iter().chain(&old) {
        for c in v {
            s.absorb(*c);
        }
    }
    s.absorb(cpc.x);
    s.absorb(cpc.y);
    let expected = s.squeeze();

    assert_eq!(
        hash_messages_for_next_wrap_proof_ref(&toy_sponge, &dummy, &old, (cpc.x, cpc.y)),
        expected
    );
    assert_eq!(hash_messages_for_next_wrap_proof(&toy_sponge, &dummy, &old, &cpc), expected);
    // padding in front is the same as rows that are there
    let rows: Vec<Vec<Fp>> = dummy.iter().chain(&old).cloned().collect();
    assert_eq!(hash_messages_for_next_wrap_proof(&toy_sponge, &[], &rows, &cpc), expected);
}
