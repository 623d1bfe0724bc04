//! Common constants, the reference strings and their cache payloads.
//!
//! A reference string (SRS) is a list of curve points and a blinding point. The
//! two of a process are kept in an [`SrsStore`]; each comes from a cache payload,
//! raw or as decimal points, or is created once on demand, and so do the
//! Lagrange bases.

use std::collections::HashMap;

use vstd::prelude::*;
use vstd::string::*;
use vstd::utf8::*;

use crate::codec::{
    decimal_chars, decimal_value, decimal_value_inverts_decimal_digits, decoded_point,
    decoding_inverts_encoding, field_from_decimal, field_to_decimal, is_decimal_below, le_bytes,
    lemma_decimal_chars, le_value, le_value_inverts_le_bytes, point_bytes, push_u64_le, u64_from_le,
    u64_to_decimal, PointField, POINT_SIZE,
};
use crate::composition_types::ProofsVerified;
use crate::curve::{element, elements, Point};
use crate::domain::power_of_two;
use crate::field::{Fp, Fq, PrimeField};
use crate::sequences::append;
use vstd::arithmetic::power2::pow2;

verus! {

broadcast use vstd::std_specs::hash::group_hash_axioms;

/// The most previous proofs that a step circuit verifies.
pub const MAX_PROOFS_VERIFIED: usize = 2;

/// The bit length of a scalar challenge.
pub const SCALAR_CHALLENGE_BITS: usize = 128;

/// The rounds of the inner-product argument on the step side.
pub const TICK_ROUNDS: usize = 16;

/// The rounds of the inner-product argument on the wrap side.
pub const TOCK_ROUNDS: usize = 15;

/// The points of the step side's reference string.
pub const TICK_SRS_SIZE: usize = 0x1_0000;

/// The points of the wrap side's reference string.
pub const TOCK_SRS_SIZE: usize = 0x8000;

/// The full rounds of the hash function.
pub const FULL_ROUNDS: usize = 55;

/// The commitment chunks of a column, unless said otherwise.
pub const NUM_CHUNKS_BY_DEFAULT: usize = 1;

/// The `log2` of the wrap circuit's domain size, by the number of proofs that it
/// verifies.
pub fn wrap_domain_log2(proofs_verified: usize) -> (r: u32)
    requires
        proofs_verified <= 2,
    ensures
        r == 13 + proofs_verified,
{
    match proofs_verified {
        0 => 13,
        1 => 14,
        _ => 15,
    }
}

/// The number of proofs verified by a wrap circuit of the given domain.
pub fn actual_wrap_domain_size(log2_domain_size: u32) -> (r: ProofsVerified)
    requires
        13 <= log2_domain_size <= 15,
    ensures
        13 + r.count() == log2_domain_size,
{
    match log2_domain_size {
        13 => ProofsVerified::N0,
        14 => ProofsVerified::N1,
        _ => ProofsVerified::N2,
    }
}

/// The domain of a width gives the width back, and the width of a domain the
/// domain, whatever [`wrap_domain_log2`] and [`actual_wrap_domain_size`] return
/// under their contracts.
pub proof fn wrap_domains_are_inverse(width: ProofsVerified, log2: int)
    ensures
        13 <= 13 + width.count() <= 15,
        13 <= log2 <= 15 ==> exists|w: ProofsVerified| 13 + #[trigger] w.count() == log2,
        forall|w: ProofsVerified| 13 + #[trigger] w.count() == 13 + width.count() ==> w == width,
{
    if 13 <= log2 <= 15 {
        let w = if log2 == 13 {
            ProofsVerified::N0
        } else if log2 == 14 {
            ProofsVerified::N1
        } else {
            ProofsVerified::N2
        };
        assert(13 + w.count() == log2);
    }
}

/// A commitment: one point per chunk, none for the identity.
#[derive(Clone, Debug, PartialEq, Eq)]
pub struct PolyComm<F: PrimeField> {
    pub chunks: Vec<Option<Point<F>>>,
}

/// The residues of a list of commitments.
pub open spec fn comm_elements<F: PrimeField>(comms: Seq<PolyComm<F>>) -> Seq<
    Seq<Option<(int, int)>>,
> {
    Seq::new(comms.len(), |i: int| elements(comms[i].chunks@))
}

/// The bytes `SRS2`, which start a raw reference string.
pub const SRS_RAW_MAGIC: [u8; 4] = [83, 82, 83, 50];

/// The bytes `LGB2`, which start a raw Lagrange basis.
pub const LAGRANGE_RAW_MAGIC: [u8; 4] = [76, 71, 66, 50];

/// The bytes of a list of points, one after the other.
pub open spec fn points_bytes(modulus: int, points: Seq<Option<(int, int)>>) -> Seq<u8>
    decreases points.len(),
{
    if points.len() == 0 {
        Seq::empty()
    } else {
        points_bytes(modulus, points.drop_last()) + point_bytes(modulus, points.last())
    }
}

/// The raw form of a reference string: magic, point count, the blinding point,
/// then the points.
pub open spec fn srs_payload(
    modulus: int,
    g: Seq<Option<(int, int)>>,
    h: Option<(int, int)>,
) -> Seq<u8> {
    seq![83u8, 82, 83, 50] + le_bytes(g.len(), 8) + point_bytes(modulus, h) + points_bytes(
        modulus,
        g,
    )
}

/// The raw form of a Lagrange basis: magic, count, then the points.
pub open spec fn lagrange_payload(modulus: int, points: Seq<Option<(int, int)>>) -> Seq<u8> {
    seq![76u8, 71, 66, 50] + le_bytes(points.len(), 8) + points_bytes(modulus, points)
}

/// The bytes of the piece at a place, one point long.
pub open spec fn piece(bytes: Seq<u8>, i: int) -> Seq<u8> {
    bytes.subrange(i * POINT_SIZE, i * POINT_SIZE + POINT_SIZE)
}

/// Whether every one of `count` pieces decodes to a point.
pub open spec fn all_decode(modulus: int, bytes: Seq<u8>, count: int) -> bool {
    forall|i: int| 0 <= i < count ==> #[trigger] decoded_point(modulus, piece(bytes, i)) is Some
}

/// The points of `count` pieces.
pub open spec fn all_decoded(modulus: int, bytes: Seq<u8>, count: int) -> Seq<
    Option<(int, int)>,
> {
    Seq::new(count as nat, |i: int| decoded_point(modulus, piece(bytes, i))->0)
}

/// The count that a payload declares.
pub open spec fn declared_count(bytes: Seq<u8>) -> int {
    le_value(bytes.subrange(4, 12)) as int
}

/// A raw reference string: none unless the magic is there, the count is
/// positive, the rest is as long as one point more than the count, and all of
/// these decode.
pub open spec fn parsed_srs(modulus: int, bytes: Seq<u8>) -> Option<
    (Seq<Option<(int, int)>>, Option<(int, int)>),
> {
    let count = declared_count(bytes);
    let body = bytes.skip(12);
    if bytes.len() < 12 || bytes.take(4) != seq![83u8, 82, 83, 50] || count == 0 || body.len()
        != POINT_SIZE * (count + 1) || !all_decode(modulus, body, count + 1) {
        None
    } else {
        let points = all_decoded(modulus, body, count + 1);
        Some((points.skip(1), points[0]))
    }
}

/// A raw Lagrange basis: none unless the magic is there, the count is positive
/// and the expected one, the rest is as long as that many points, and all of
/// these decode.
pub open spec fn parsed_lagrange(modulus: int, bytes: Seq<u8>, expected_len: int) -> Option<
    Seq<Option<(int, int)>>,
> {
    let count = declared_count(bytes);
    let body = bytes.skip(12);
    if bytes.len() < 12 || bytes.take(4) != seq![76u8, 71, 66, 50] || count != expected_len || count
        == 0 || body.len() != POINT_SIZE * count || !all_decode(modulus, body, count) {
        None
    } else {
        Some(all_decoded(modulus, body, count))
    }
}

fn push_points<F: PointField>(out: &mut Vec<u8>, points: &[Option<Point<F>>])
    ensures
        final(out)@ == old(out)@ + points_bytes(F::modulus(), elements(points@)),
{
    let ghost before = out@;
    let mut i: usize = 0;
    assert(elements(points@.take(0)) =~= Seq::empty());
    while i < points.len()
        invariant
            i <= points@.len(),
            out@ =~= before + points_bytes(F::modulus(), elements(points@.take(i as int))),
        decreases points.len() - i,
    {
        let bytes = F::point_to_bytes(&points[i]);
        append(out, bytes.as_slice());
        assert(elements(points@.take(i + 1)).drop_last() =~= elements(points@.take(i as int)));
        i = i + 1;
    }
    assert(points@.take(i as int) =~= points@);
}

/// The raw form of a reference string.
pub fn encode_srs_raw<F: PointField>(g: &[Option<Point<F>>], h: &Option<Point<F>>) -> (r: Vec<u8>)
    ensures
        r@ == srs_payload(F::modulus(), elements(g@), element(*h)),
{
    let mut out: Vec<u8> = Vec::new();
    append(&mut out, SRS_RAW_MAGIC.as_slice());
    assert(out@ =~= seq![83u8, 82, 83, 50]);
    push_u64_le(&mut out, g.len() as u64);
    let bytes = F::point_to_bytes(h);
    append(&mut out, bytes.as_slice());
    push_points(&mut out, g);
    out
}

fn decode_points<F: PointField>(body: &[u8], count: usize) -> (r: Option<Vec<Option<Point<F>>>>)
    requires
        body@.len() == POINT_SIZE * count,
    ensures
        r is Some <==> all_decode(F::modulus(), body@, count as int),
        r is Some ==> elements(r->0@) == all_decoded(F::modulus(), body@, count as int),
{
    let mut out: Vec<Option<Point<F>>> = Vec::new();
    let len = body.len();
    let mut i: usize = 0;
    let mut start: usize = 0;
    while i < count
        invariant
            i <= count,
            len == body@.len(),
            len == POINT_SIZE * count,
            start == i * POINT_SIZE,
            out@.len() == i,
            forall|k: int|
                0 <= k < i ==> decoded_point(F::modulus(), piece(body@, k)) == Some(
                    element(#[trigger] out@[k]),
                ),
        decreases count - i,
    {
        match F::point_from_bytes(vstd::slice::slice_subrange(body, start, start + POINT_SIZE)) {
            None => {
                assert(decoded_point(F::modulus(), piece(body@, i as int)) is None);
                return None;
            },
            Some(p) => out.push(p),
        }
        start = start + POINT_SIZE;
        i = i + 1;
    }
    proof {
        assert forall|k: int| 0 <= k < count implies #[trigger] decoded_point(
            F::modulus(),
            piece(body@, k),
        ) is Some by {
            assert(element(out@[k]) == element(out@[k]));
        }
        assert(elements(out@) =~= all_decoded(F::modulus(), body@, count as int));
    }
    Some(out)
}

fn starts_with(bytes: &[u8], magic: [u8; 4]) -> (r: bool)
    requires
        bytes@.len() >= 4,
    ensures
        r == (bytes@.take(4) == magic@),
{
    let r = bytes[0] == magic[0] && bytes[1] == magic[1] && bytes[2] == magic[2] && bytes[3]
        == magic[3];
    let ghost head = bytes@.take(4);
    assert(head[0] == bytes@[0] && head[1] == bytes@[1] && head[2] == bytes@[2] && head[3]
        == bytes@[3]);
    if r {
        assert(head =~= magic@);
    }
    r
}

/// Reads a raw reference string.
pub fn decode_srs_raw<F: PointField>(bytes: &[u8]) -> (r: Option<
    (Vec<Option<Point<F>>>, Option<Point<F>>),
>)
    ensures
        match r {
            None => parsed_srs(F::modulus(), bytes@) is None,
            Some((g, h)) => parsed_srs(F::modulus(), bytes@) == Some((elements(g@), element(h))),
        },
{
    if bytes.len() < 12 {
        return None;
    }
    if !starts_with(bytes, SRS_RAW_MAGIC) {
        assert(SRS_RAW_MAGIC@ =~= seq![83u8, 82, 83, 50]);
        return None;
    }
    assert(SRS_RAW_MAGIC@ =~= seq![83u8, 82, 83, 50]);
    let count: u64 = u64_from_le(vstd::slice::slice_subrange(bytes, 4, 12));
    let body = vstd::slice::slice_subrange(bytes, 12, bytes.len());
    assert(body@ == bytes@.skip(12));
    let pieces: usize = body.len() / POINT_SIZE;
    if count == 0 || body.len() % POINT_SIZE != 0 || pieces == 0 || (pieces - 1) as u64 != count {
        return None;
    }
    match decode_points::<F>(body, pieces) {
        None => None,
        Some(points) => {
            let mut points = points;
            let ghost all = points@;
            let h = points.remove(0);
            assert(elements(points@) =~= elements(all).skip(1));
            Some((points, h))
        },
    }
}

/// Encodes a Lagrange basis: one point per commitment. None when there is no
/// commitment, or one that does not have exactly one chunk.
pub fn encode_lagrange_basis_raw<F: PointField>(basis: &[PolyComm<F>]) -> (r: Option<Vec<u8>>)
    ensures
        r is Some <==> is_single_chunk_basis(basis@),
        r is Some ==> r->0@ == lagrange_payload(F::modulus(), first_chunks(basis@)),
        r is Some ==> forall|expected_len: int| #[trigger]
            parsed_lagrange(F::modulus(), r->0@, expected_len) == (if expected_len == basis@.len() {
                Some(first_chunks(basis@))
            } else {
                None
            }),
{
    if basis.len() == 0 {
        return None;
    }
    let mut out: Vec<u8> = Vec::new();
    append(&mut out, LAGRANGE_RAW_MAGIC.as_slice());
    assert(out@ =~= seq![76u8, 71, 66, 50]);
    push_u64_le(&mut out, basis.len() as u64);
    let ghost head = out@;
    let mut i: usize = 0;
    assert(first_chunks(basis@.take(0)) =~= Seq::empty());
    while i < basis.len()
        invariant
            i <= basis@.len(),
            forall|k: int| 0 <= k < i ==> (#[trigger] basis@[k]).chunks@.len() == 1,
            out@ =~= head + points_bytes(F::modulus(), first_chunks(basis@.take(i as int))),
        decreases basis.len() - i,
    {
        if basis[i].chunks.len() != 1 {
            assert(basis@[i as int].chunks@.len() != 1);
            return None;
        }
        let bytes = F::point_to_bytes(&basis[i].chunks[0]);
        append(&mut out, bytes.as_slice());
        assert(first_chunks(basis@.take(i + 1)).drop_last() =~= first_chunks(
            basis@.take(i as int),
        ));
        i = i + 1;
    }
    assert(basis@.take(i as int) =~= basis@);
    proof {
        let points = first_chunks(basis@);
        F::lemma_modulus();
        assert forall|k: int| 0 <= k < points.len() implies ((#[trigger] points[k]) matches Some(
            (x, y),
        ) ==> 0 <= x < F::modulus() && 0 <= y < F::modulus()) by {
            if let Some(p) = basis@[k].chunks@[0] {
                F::lemma_canonical(p.x);
                F::lemma_canonical(p.y);
            }
        }
        assert forall|expected_len: int| #[trigger]
            parsed_lagrange(F::modulus(), out@, expected_len) == (if expected_len == basis@.len() {
                Some(points)
            } else {
                None
            }) by {
            lagrange_raw_round_trips(F::modulus(), points, expected_len);
        }
    }
    Some(out)
}

/// At least one commitment, each of one chunk.
pub open spec fn is_single_chunk_basis<F: PrimeField>(basis: Seq<PolyComm<F>>) -> bool {
    &&& basis.len() > 0
    &&& forall|k: int| 0 <= k < basis.len() ==> (#[trigger] basis[k]).chunks@.len() == 1
}

/// The first chunk of each commitment.
pub open spec fn first_chunks<F: PrimeField>(basis: Seq<PolyComm<F>>) -> Seq<Option<(int, int)>> {
    Seq::new(basis.len(), |i: int| element(basis[i].chunks@[0]))
}

/// Reads a raw Lagrange basis of the expected length: one chunk per commitment.
pub fn decode_lagrange_basis_raw<F: PointField>(bytes: &[u8], expected_len: usize) -> (r: Option<
    Vec<PolyComm<F>>,
>)
    ensures
        match r {
            None => parsed_lagrange(F::modulus(), bytes@, expected_len as int) is None,
            Some(basis) => {
                &&& is_single_chunk_basis(basis@)
                &&& parsed_lagrange(F::modulus(), bytes@, expected_len as int) == Some(
                    first_chunks(basis@),
                )
            },
        },
{
    if bytes.len() < 12 {
        return None;
    }
    assert(LAGRANGE_RAW_MAGIC@ =~= seq![76u8, 71, 66, 50]);
    if !starts_with(bytes, LAGRANGE_RAW_MAGIC) {
        return None;
    }
    let count: u64 = u64_from_le(vstd::slice::slice_subrange(bytes, 4, 12));
    let body = vstd::slice::slice_subrange(bytes, 12, bytes.len());
    assert(body@ == bytes@.skip(12));
    if count != expected_len as u64 || count == 0 || body.len() % POINT_SIZE != 0 || body.len()
        / POINT_SIZE != expected_len {
        return None;
    }
    match decode_points::<F>(body, expected_len) {
        None => None,
        Some(points) => {
            let mut basis: Vec<PolyComm<F>> = Vec::new();
            let mut i: usize = 0;
            while i < points.len()
                invariant
                    i <= points@.len(),
                    basis@.len() == i,
                    forall|k: int|
                        0 <= k < i ==> (#[trigger] basis@[k]).chunks@.len() == 1
                            && basis@[k].chunks@[0] == points@[k],
                decreases points.len() - i,
            {
                let chunks = vec![points[i]];
                basis.push(PolyComm { chunks });
                i = i + 1;
            }
            assert(elements(points@).len() == expected_len);
            assert(first_chunks(basis@) =~= elements(points@));
            Some(basis)
        },
    }
}

proof fn lemma_points_bytes(modulus: int, points: Seq<Option<(int, int)>>)
    requires
        0 < modulus <= crate::montgomery::radix(),
        are_reduced(modulus, points),
    ensures
        points_bytes(modulus, points).len() == POINT_SIZE * points.len(),
        forall|i: int|
            0 <= i < points.len() ==> #[trigger] piece(points_bytes(modulus, points), i)
                == point_bytes(modulus, points[i]),
    decreases points.len(),
{
    if points.len() > 0 {
        let rest = points.drop_last();
        lemma_points_bytes(modulus, rest);
        assert(points.last() == points[points.len() - 1]);
        decoding_inverts_encoding(modulus, points.last());
        let whole = points_bytes(modulus, points);
        let part = points_bytes(modulus, rest);
        assert forall|i: int| 0 <= i < points.len() implies #[trigger] piece(whole, i)
            == point_bytes(modulus, points[i]) by {
            if i < rest.len() {
                assert(piece(whole, i) =~= piece(part, i));
            } else {
                assert(piece(whole, i) =~= point_bytes(modulus, points.last()));
            }
        }
    }
}

proof fn lemma_points_bytes_first(
    modulus: int,
    first: Option<(int, int)>,
    points: Seq<Option<(int, int)>>,
)
    ensures
        points_bytes(modulus, seq![first] + points) == point_bytes(modulus, first) + points_bytes(
            modulus,
            points,
        ),
    decreases points.len(),
{
    let all = seq![first] + points;
    if points.len() == 0 {
        assert(all.drop_last() =~= Seq::empty());
        assert(points_bytes(modulus, all.drop_last()) =~= Seq::empty());
        assert(points_bytes(modulus, all) =~= point_bytes(modulus, first) + points_bytes(
            modulus,
            points,
        ));
    } else {
        lemma_points_bytes_first(modulus, first, points.drop_last());
        assert(all.drop_last() =~= seq![first] + points.drop_last());
        assert(points_bytes(modulus, all) =~= point_bytes(modulus, first) + points_bytes(
            modulus,
            points,
        ));
    }
}

/// Every coordinate is reduced.
pub open spec fn are_reduced(modulus: int, points: Seq<Option<(int, int)>>) -> bool {
    forall|i: int|
        0 <= i < points.len() ==> ((#[trigger] points[i]) matches Some((x, y)) ==> 0 <= x < modulus
            && 0 <= y < modulus)
}

proof fn lemma_count_reads_back(magic: Seq<u8>, count: nat, body: Seq<u8>)
    requires
        magic.len() == 4,
        count <= u64::MAX,
    ensures
        (magic + le_bytes(count, 8) + body).len() == 12 + body.len(),
        (magic + le_bytes(count, 8) + body).take(4) == magic,
        (magic + le_bytes(count, 8) + body).skip(12) == body,
        declared_count(magic + le_bytes(count, 8) + body) == count,
{
    reveal_with_fuel(crate::codec::byte_power, 9);
    le_value_inverts_le_bytes(count, 8);
    let bytes = magic + le_bytes(count, 8) + body;
    assert(bytes.take(4) =~= magic);
    assert(bytes.skip(12) =~= body);
    assert(bytes.subrange(4, 12) =~= le_bytes(count, 8));
}

proof fn lemma_all_decode(modulus: int, points: Seq<Option<(int, int)>>)
    requires
        0 < modulus <= crate::montgomery::radix(),
        are_reduced(modulus, points),
        points.len() > 0,
    ensures
        points_bytes(modulus, points).len() == POINT_SIZE * points.len(),
        all_decode(modulus, points_bytes(modulus, points), points.len() as int),
        all_decoded(modulus, points_bytes(modulus, points), points.len() as int) == points,
{
    lemma_points_bytes(modulus, points);
    let n = points.len() as int;
    let bytes = points_bytes(modulus, points);
    assert forall|i: int| 0 <= i < n implies #[trigger] decoded_point(modulus, piece(bytes, i))
        == Some(points[i]) by {
        decoding_inverts_encoding(modulus, points[i]);
    }
    assert(all_decoded(modulus, bytes, n) =~= points);
}

/// A raw reference string reads back as it was written.
pub proof fn srs_raw_round_trips(
    modulus: int,
    g: Seq<Option<(int, int)>>,
    h: Option<(int, int)>,
)
    requires
        0 < modulus <= crate::montgomery::radix(),
        are_reduced(modulus, g.push(h)),
        0 < g.len() <= usize::MAX,
    ensures
        parsed_srs(modulus, srs_payload(modulus, g, h)) == Some((g, h)),
{
    let magic = seq![83u8, 82, 83, 50];
    let all = seq![h] + g;
    let body = points_bytes(modulus, all);
    lemma_points_bytes_first(modulus, h, g);
    assert(srs_payload(modulus, g, h) =~= magic + le_bytes(g.len(), 8) + body);
    lemma_count_reads_back(magic, g.len(), body);
    assert forall|i: int| 0 <= i < all.len() implies ((#[trigger] all[i]) matches Some((x, y))
        ==> 0 <= x < modulus && 0 <= y < modulus) by {
        if i == 0 {
            assert(all[i] == g.push(h)[g.len() as int]);
        } else {
            assert(all[i] == g.push(h)[i - 1]);
        }
    }
    lemma_all_decode(modulus, all);
    lemma_points_bytes(modulus, all);
    assert(all.skip(1) =~= g);
}

/// A raw Lagrange basis reads back as it was written, under its own length and
/// no other.
pub proof fn lagrange_raw_round_trips(
    modulus: int,
    points: Seq<Option<(int, int)>>,
    expected_len: int,
)
    requires
        0 < modulus <= crate::montgomery::radix(),
        are_reduced(modulus, points),
        0 < points.len() <= usize::MAX,
    ensures
        parsed_lagrange(modulus, lagrange_payload(modulus, points), expected_len) == (
        if expected_len == points.len() {
            Some(points)
        } else {
            None
        }),
{
    let magic = seq![76u8, 71, 66, 50];
    lemma_count_reads_back(magic, points.len(), points_bytes(modulus, points));
    lemma_all_decode(modulus, points);
}

/// A payload that starts with anything but its magic is refused.
pub proof fn another_magic_is_refused(modulus: int, bytes: Seq<u8>, expected_len: int)
    requires
        bytes.len() >= 4,
    ensures
        (exists|i: int| 0 <= i < 4 && bytes[i] != SRS_RAW_MAGIC@[i]) ==> parsed_srs(modulus, bytes)
            is None,
        (exists|i: int| 0 <= i < 4 && bytes[i] != LAGRANGE_RAW_MAGIC@[i]) ==> parsed_lagrange(
            modulus,
            bytes,
            expected_len,
        ) is None,
{
    let head = bytes.take(4);
    assert(SRS_RAW_MAGIC@ =~= seq![83u8, 82, 83, 50]);
    assert(LAGRANGE_RAW_MAGIC@ =~= seq![76u8, 71, 66, 50]);
    assert forall|i: int| 0 <= i < 4 implies head[i] == #[trigger] bytes[i] by {}
}

/// A point in the JSON caches that JavaScript hosts share: a tag for the
/// identity, or decimal coordinates.
#[derive(Clone, Debug, PartialEq, Eq)]
pub enum JsooPoint {
    Infinity(String),
    Point { x: String, y: String },
}

/// The characters of a cached point.
pub enum JsooView {
    Infinity(Seq<char>),
    Point(Seq<char>, Seq<char>),
}

impl JsooPoint {
    /// The characters.
    pub open spec fn view(&self) -> JsooView {
        match self {
            JsooPoint::Infinity(tag) => JsooView::Infinity(tag@),
            JsooPoint::Point { x, y } => JsooView::Point(x@, y@),
        }
    }
}

/// The characters of a list of cached points.
pub open spec fn jsoo_views(points: Seq<JsooPoint>) -> Seq<JsooView> {
    Seq::new(points.len(), |i: int| points[i].view())
}

/// The cached form of a point.
pub open spec fn jsoo_form(p: Option<(int, int)>) -> JsooView {
    match p {
        None => JsooView::Infinity("Infinity"@),
        Some((x, y)) => JsooView::Point(decimal_chars(x as nat), decimal_chars(y as nat)),
    }
}

/// The cached forms of a list of points.
pub open spec fn jsoo_forms(points: Seq<Option<(int, int)>>) -> Seq<JsooView> {
    Seq::new(points.len(), |i: int| jsoo_form(points[i]))
}

/// The point of a cached form, not checked to be on the curve: none when the tag
/// is another, or a coordinate is no reduced decimal.
pub open spec fn read_point(modulus: int, p: JsooView) -> Option<Option<(int, int)>> {
    match p {
        JsooView::Infinity(tag) => if tag == "Infinity"@ {
            Some(None)
        } else {
            None
        },
        JsooView::Point(x, y) => if is_decimal_below(encode_utf8(x), modulus) && is_decimal_below(
            encode_utf8(y),
            modulus,
        ) {
            Some(
                Some(
                    (
                        decimal_value(encode_utf8(x)) as int,
                        decimal_value(encode_utf8(y)) as int,
                    ),
                ),
            )
        } else {
            None
        },
    }
}

/// The points of a list, none when one of them is malformed.
pub open spec fn read_points(modulus: int, points: Seq<JsooView>) -> Option<
    Seq<Option<(int, int)>>,
> {
    if forall|i: int|
        0 <= i < points.len() ==> read_point(modulus, #[trigger] points[i]) is Some {
        Some(Seq::new(points.len(), |i: int| read_point(modulus, points[i])->0))
    } else {
        None
    }
}

/// Reading undoes writing, for reduced coordinates.
pub proof fn reading_inverts_writing(modulus: int, points: Seq<Option<(int, int)>>)
    requires
        are_reduced(modulus, points),
    ensures
        read_points(modulus, jsoo_forms(points)) == Some(points),
{
    let forms = jsoo_forms(points);
    assert forall|i: int| 0 <= i < points.len() implies #[trigger] read_point(modulus, forms[i])
        == Some(points[i]) by {
        match points[i] {
            None => {},
            Some((x, y)) => {
                lemma_decimal_chars(x as nat);
                lemma_decimal_chars(y as nat);
                decimal_value_inverts_decimal_digits(x as nat);
                decimal_value_inverts_decimal_digits(y as nat);
            },
        }
    }
    assert(read_points(modulus, forms)->0 =~= points);
}

/// Reads a cached point.
pub fn point_from_jsoo<F: PrimeField>(point: &JsooPoint) -> (r: Option<Option<Point<F>>>)
    ensures
        match r {
            None => read_point(F::modulus(), point.view()) is None,
            Some(p) => read_point(F::modulus(), point.view()) == Some(element(p)),
        },
{
    match point {
        JsooPoint::Infinity(tag) => if tag.eq(&"Infinity".to_owned()) {
            Some(None)
        } else {
            None
        },
        JsooPoint::Point { x, y } => match (
            field_from_decimal::<F>(x.as_str()),
            field_from_decimal::<F>(y.as_str()),
        ) {
            (Some(x), Some(y)) => Some(Some(Point { x, y })),
            _ => None,
        },
    }
}

/// The cached form of a point.
pub fn point_to_jsoo<F: PrimeField>(point: &Option<Point<F>>) -> (r: JsooPoint)
    ensures
        r.view() == jsoo_form(element(*point)),
{
    match point {
        None => JsooPoint::Infinity("Infinity".to_owned()),
        Some(p) => JsooPoint::Point { x: field_to_decimal(&p.x), y: field_to_decimal(&p.y) },
    }
}

fn points_from_jsoo<F: PrimeField>(points: &[JsooPoint]) -> (r: Option<Vec<Option<Point<F>>>>)
    ensures
        match r {
            None => read_points(F::modulus(), jsoo_views(points@)) is None,
            Some(out) => read_points(F::modulus(), jsoo_views(points@)) == Some(elements(out@)),
        },
{
    let mut out: Vec<Option<Point<F>>> = Vec::new();
    let ghost views = jsoo_views(points@);
    let mut i: usize = 0;
    while i < points.len()
        invariant
            i <= points@.len(),
            views == jsoo_views(points@),
            out@.len() == i,
            forall|k: int|
                0 <= k < i ==> read_point(F::modulus(), #[trigger] views[k]) == Some(
                    element(out@[k]),
                ),
        decreases points.len() - i,
    {
        match point_from_jsoo::<F>(&points[i]) {
            None => {
                assert(read_point(F::modulus(), views[i as int]) is None);
                return None;
            },
            Some(p) => out.push(p),
        }
        i = i + 1;
    }
    assert(read_points(F::modulus(), views)->0 =~= elements(out@));
    Some(out)
}

fn push_jsoo<F: PrimeField>(out: &mut Vec<JsooPoint>, points: &[Option<Point<F>>])
    ensures
        jsoo_views(final(out)@) == jsoo_views(old(out)@) + jsoo_forms(elements(points@)),
{
    let ghost before = jsoo_views(out@);
    let ghost forms = jsoo_forms(elements(points@));
    let mut i: usize = 0;
    while i < points.len()
        invariant
            i <= points@.len(),
            forms == jsoo_forms(elements(points@)),
            jsoo_views(out@) =~= before + forms.take(i as int),
        decreases points.len() - i,
    {
        let ghost seen = jsoo_views(out@);
        out.push(point_to_jsoo(&points[i]));
        assert(jsoo_views(out@) =~= seen.push(forms[i as int]));
        assert(forms.take(i + 1) =~= forms.take(i as int).push(forms[i as int]));
        i = i + 1;
    }
    assert(forms.take(i as int) =~= forms);
}

/// The blinding point is the first of the list, and there must be one.
pub open spec fn srs_of_points(points: Option<Seq<Option<(int, int)>>>) -> Option<
    (Seq<Option<(int, int)>>, Option<(int, int)>),
> {
    match points {
        None => None,
        Some(all) => if all.len() == 0 {
            None
        } else {
            Some((all.skip(1), all[0]))
        },
    }
}

/// Reads a reference string from decimal points, the blinding point first.
pub fn decode_srs_jsoo<F: PrimeField>(points: &[JsooPoint]) -> (r: Option<
    (Vec<Option<Point<F>>>, Option<Point<F>>),
>)
    ensures
        match r {
            None => srs_of_points(read_points(F::modulus(), jsoo_views(points@))) is None,
            Some((g, h)) => srs_of_points(read_points(F::modulus(), jsoo_views(points@))) == Some(
                (elements(g@), element(h)),
            ),
        },
{
    match points_from_jsoo::<F>(points) {
        None => None,
        Some(all) => {
            let mut all = all;
            if all.len() == 0 {
                return None;
            }
            let ghost before = all@;
            let h = all.remove(0);
            assert(elements(all@) =~= elements(before).skip(1));
            Some((all, h))
        },
    }
}

/// A reference string as decimal points, the blinding point first.
pub fn encode_srs_jsoo<F: PrimeField>(g: &[Option<Point<F>>], h: &Option<Point<F>>) -> (r: Vec<
    JsooPoint,
>)
    ensures
        jsoo_views(r@) == jsoo_forms(seq![element(*h)] + elements(g@)),
{
    let mut out: Vec<JsooPoint> = Vec::new();
    out.push(point_to_jsoo(h));
    push_jsoo(&mut out, g);
    assert(jsoo_views(out@) =~= jsoo_forms(seq![element(*h)] + elements(g@)));
    out
}

/// A commitment in the JSON caches; its chunks are under the key `shifted`.
#[derive(Clone, Debug, PartialEq, Eq)]
pub struct JsooComm {
    pub shifted: Vec<JsooPoint>,
}

/// Whether the cached basis has the expected length, and every point reads.
pub open spec fn jsoo_basis_reads(modulus: int, comms: Seq<JsooComm>, expected_len: int) -> bool {
    &&& comms.len() == expected_len
    &&& forall|i: int|
        0 <= i < comms.len() ==> read_points(
            modulus,
            jsoo_views((#[trigger] comms[i]).shifted@),
        ) is Some
}

/// The points of a cached basis.
pub open spec fn jsoo_basis(modulus: int, comms: Seq<JsooComm>) -> Seq<Seq<Option<(int, int)>>> {
    Seq::new(comms.len(), |i: int| read_points(modulus, jsoo_views(comms[i].shifted@))->0)
}

/// Reads a Lagrange basis of the expected length from the JSON caches.
pub fn decode_lagrange_basis_jsoo<F: PrimeField>(comms: &[JsooComm], expected_len: usize) -> (r:
    Option<Vec<PolyComm<F>>>)
    ensures
        r is Some <==> jsoo_basis_reads(F::modulus(), comms@, expected_len as int),
        r is Some ==> comm_elements(r->0@) == jsoo_basis(F::modulus(), comms@),
{
    if comms.len() != expected_len {
        return None;
    }
    let mut basis: Vec<PolyComm<F>> = Vec::new();
    let mut i: usize = 0;
    while i < comms.len()
        invariant
            i <= comms@.len(),
            basis@.len() == i,
            forall|k: int|
                0 <= k < i ==> read_points(
                    F::modulus(),
                    jsoo_views((#[trigger] comms@[k]).shifted@),
                ) == Some(elements(basis@[k].chunks@)),
        decreases comms.len() - i,
    {
        match points_from_jsoo::<F>(comms[i].shifted.as_slice()) {
            None => {
                assert(read_points(F::modulus(), jsoo_views(comms@[i as int].shifted@)) is None);
                return None;
            },
            Some(chunks) => basis.push(PolyComm { chunks }),
        }
        i = i + 1;
    }
    assert(comm_elements(basis@) =~= jsoo_basis(F::modulus(), comms@));
    Some(basis)
}

/// A Lagrange basis as the JSON caches hold it.
pub fn encode_lagrange_basis_jsoo<F: PrimeField>(basis: &[PolyComm<F>]) -> (r: Vec<JsooComm>)
    ensures
        r@.len() == basis@.len(),
        forall|i: int|
            0 <= i < basis@.len() ==> jsoo_views((#[trigger] r@[i]).shifted@) == jsoo_forms(
                elements(basis@[i].chunks@),
            ),
{
    let mut out: Vec<JsooComm> = Vec::new();
    let mut i: usize = 0;
    while i < basis.len()
        invariant
            i <= basis@.len(),
            out@.len() == i,
            forall|k: int|
                0 <= k < i ==> jsoo_views((#[trigger] out@[k]).shifted@) == jsoo_forms(
                    elements(basis@[k].chunks@),
                ),
        decreases basis.len() - i,
    {
        let mut shifted: Vec<JsooPoint> = Vec::new();
        push_jsoo(&mut shifted, basis[i].chunks.as_slice());
        assert(jsoo_views(shifted@) =~= jsoo_forms(elements(basis@[i as int].chunks@)));
        out.push(JsooComm { shifted });
        i = i + 1;
    }
    out
}

/// A reference string with the Lagrange bases computed or loaded so far, by
/// domain size.
pub struct Srs<F: PrimeField> {
    pub g: Vec<Option<Point<F>>>,
    pub h: Option<Point<F>>,
    pub lagrange_bases: HashMap<usize, Vec<PolyComm<F>>>,
}

/// The reference strings of a process, and whether it may use the disk.
pub struct SrsStore {
    /// The step side's, on the Vesta curve.
    pub tick: Option<Srs<Fq>>,
    /// The wrap side's, on the Pallas curve.
    pub tock: Option<Srs<Fp>>,
    pub disk_cache_enabled: bool,
}

/// A reference string that is there has a size.
pub open spec fn has_size<F: PrimeField>(srs: Option<Srs<F>>, size: nat) -> bool {
    srs matches Some(s) ==> s.g@.len() == size
}

impl SrsStore {
    /// Every reference string that is there has the full size of its side.
    pub open spec fn is_full_size(&self) -> bool {
        has_size(self.tick, TICK_SRS_SIZE as nat) && has_size(self.tock, TOCK_SRS_SIZE as nat)
    }
}

/// A store with nothing in it, free to use the disk.
pub fn new_store() -> (store: SrsStore)
    ensures
        store.is_full_size(),
        store.tick is None,
        store.tock is None,
        store.disk_cache_enabled,
{
    SrsStore { tick: None, tock: None, disk_cache_enabled: true }
}

impl<F: PrimeField> Srs<F> {
    /// A reference string with no Lagrange basis yet.
    pub fn new(g: Vec<Option<Point<F>>>, h: Option<Point<F>>) -> (r: Self)
        ensures
            r.g == g,
            r.h == h,
            r.lagrange_bases@ == Map::<usize, Vec<PolyComm<F>>>::empty(),
    {
        Srs { g, h, lagrange_bases: HashMap::new() }
    }

    /// Keeps a basis for a domain size, unless there is one.
    pub fn set_once(&mut self, domain_size: usize, basis: Vec<PolyComm<F>>)
        ensures
            final(self).g == old(self).g,
            final(self).h == old(self).h,
            final(self).lagrange_bases@ == with_basis(
                old(self).lagrange_bases@,
                domain_size,
                basis,
            ),
    {
        if !self.lagrange_bases.contains_key(&domain_size) {
            let _ = self.lagrange_bases.insert(domain_size, basis);
        }
    }
}

/// The bases with one more, unless there is one for that size.
pub open spec fn with_basis<F: PrimeField>(
    bases: Map<usize, Vec<PolyComm<F>>>,
    domain_size: usize,
    basis: Vec<PolyComm<F>>,
) -> Map<usize, Vec<PolyComm<F>>> {
    if bases.contains_key(domain_size) {
        bases
    } else {
        bases.insert(domain_size, basis)
    }
}

/// What seeding from a parsed payload does: one that is malformed or of another
/// size is refused, and changes nothing; else it is accepted, and takes its
/// place unless a reference string is there already, which stays.
pub open spec fn seeded<F: PrimeField>(
    before: Option<Srs<F>>,
    parsed: Option<(Seq<Option<(int, int)>>, Option<(int, int)>)>,
    size: nat,
    after: Option<Srs<F>>,
    r: bool,
) -> bool {
    &&& r <==> (parsed matches Some((g, _)) && g.len() == size)
    &&& before is Some ==> after == before
    &&& !r ==> after == before
    &&& parsed matches Some((g, h)) ==> r && before is None ==> {
        &&& after is Some
        &&& elements(after->0.g@) == g
        &&& element(after->0.h) == h
        &&& after->0.lagrange_bases@ == Map::<usize, Vec<PolyComm<F>>>::empty()
    }
}

fn seed_srs<F: PrimeField>(
    slot: &mut Option<Srs<F>>,
    decoded: Option<(Vec<Option<Point<F>>>, Option<Point<F>>)>,
    size: usize,
) -> (r: bool)
    ensures
        seeded(
            *old(slot),
            match decoded {
                None => None,
                Some((g, h)) => Some((elements(g@), element(h))),
            },
            size as nat,
            *final(slot),
            r,
        ),
{
    match decoded {
        Some((g, h)) => if g.len() == size {
            if slot.is_none() {
                *slot = Some(Srs::new(g, h));
            }
            true
        } else {
            false
        },
        None => false,
    }
}

/// Seeds the step side's reference string from a raw payload. False, with
/// nothing changed, when the payload is malformed or of another size; a
/// reference string that is there already stays.
pub fn seed_tick_srs_raw(store: &mut SrsStore, bytes: &[u8]) -> (r: bool)
    ensures
        seeded(
            old(store).tick,
            parsed_srs(Fq::modulus(), bytes@),
            TICK_SRS_SIZE as nat,
            final(store).tick,
            r,
        ),
        final(store).tock == old(store).tock,
        final(store).disk_cache_enabled == old(store).disk_cache_enabled,
{
    seed_srs(&mut store.tick, decode_srs_raw::<Fq>(bytes), TICK_SRS_SIZE)
}

/// Seeds the wrap side's reference string from a raw payload. False, with
/// nothing changed, when the payload is malformed or of another size; a
/// reference string that is there already stays.
pub fn seed_tock_srs_raw(store: &mut SrsStore, bytes: &[u8]) -> (r: bool)
    ensures
        seeded(
            old(store).tock,
            parsed_srs(Fp::modulus(), bytes@),
            TOCK_SRS_SIZE as nat,
            final(store).tock,
            r,
        ),
        final(store).tick == old(store).tick,
        final(store).disk_cache_enabled == old(store).disk_cache_enabled,
{
    seed_srs(&mut store.tock, decode_srs_raw::<Fp>(bytes), TOCK_SRS_SIZE)
}

/// The raw payload of the step side's reference string, where there is one.
pub fn export_tick_srs_raw(store: &SrsStore) -> (r: Option<Vec<u8>>)
    ensures
        r is Some <==> store.tick is Some,
        r is Some ==> r->0@ == srs_payload(
            Fq::modulus(),
            elements(store.tick->0.g@),
            element(store.tick->0.h),
        ),
        r is Some && store.tick->0.g@.len() > 0 ==> parsed_srs(Fq::modulus(), r->0@) == Some(
            (elements(store.tick->0.g@), element(store.tick->0.h)),
        ),
        r is Some && store.is_full_size() ==> r->0@.take(4) == SRS_RAW_MAGIC@ && r->0@.subrange(
            4,
            12,
        ) == le_bytes(TICK_SRS_SIZE as nat, 8),
{
    match &store.tick {
        None => None,
        Some(srs) => {
            proof {
                if srs.g.len() > 0 {
                    srs_reads_back(*srs);
                }
            }
            Some(encode_srs_raw(srs.g.as_slice(), &srs.h))
        },
    }
}

/// The raw payload of the wrap side's reference string, where there is one.
pub fn export_tock_srs_raw(store: &SrsStore) -> (r: Option<Vec<u8>>)
    ensures
        r is Some <==> store.tock is Some,
        r is Some ==> r->0@ == srs_payload(
            Fp::modulus(),
            elements(store.tock->0.g@),
            element(store.tock->0.h),
        ),
        r is Some && store.tock->0.g@.len() > 0 ==> parsed_srs(Fp::modulus(), r->0@) == Some(
            (elements(store.tock->0.g@), element(store.tock->0.h)),
        ),
        r is Some && store.is_full_size() ==> r->0@.take(4) == SRS_RAW_MAGIC@ && r->0@.subrange(
            4,
            12,
        ) == le_bytes(TOCK_SRS_SIZE as nat, 8),
{
    match &store.tock {
        None => None,
        Some(srs) => {
            proof {
                if srs.g.len() > 0 {
                    srs_reads_back(*srs);
                }
            }
            Some(encode_srs_raw(srs.g.as_slice(), &srs.h))
        },
    }
}

/// Seeds the step side's reference string from a list of decimal points, the
/// blinding point first. False, with nothing changed, when the payload is
/// malformed or of another size; a reference string that is there already stays.
pub fn seed_tick_srs_jsoo(store: &mut SrsStore, points: &[JsooPoint]) -> (r: bool)
    ensures
        seeded(
            old(store).tick,
            srs_of_points(read_points(Fq::modulus(), jsoo_views(points@))),
            TICK_SRS_SIZE as nat,
            final(store).tick,
            r,
        ),
        final(store).tock == old(store).tock,
        final(store).disk_cache_enabled == old(store).disk_cache_enabled,
{
    seed_srs(&mut store.tick, decode_srs_jsoo::<Fq>(points), TICK_SRS_SIZE)
}

/// Seeds the wrap side's reference string from a list of decimal points, the
/// blinding point first. False, with nothing changed, when the payload is
/// malformed or of another size; a reference string that is there already stays.
pub fn seed_tock_srs_jsoo(store: &mut SrsStore, points: &[JsooPoint]) -> (r: bool)
    ensures
        seeded(
            old(store).tock,
            srs_of_points(read_points(Fp::modulus(), jsoo_views(points@))),
            TOCK_SRS_SIZE as nat,
            final(store).tock,
            r,
        ),
        final(store).tick == old(store).tick,
        final(store).disk_cache_enabled == old(store).disk_cache_enabled,
{
    seed_srs(&mut store.tock, decode_srs_jsoo::<Fp>(points), TOCK_SRS_SIZE)
}

/// The step side's reference string as decimal points, the blinding point
/// first, where there is one.
pub fn export_tick_srs_jsoo(store: &SrsStore) -> (r: Option<Vec<JsooPoint>>)
    ensures
        r is Some <==> store.tick is Some,
        r is Some ==> jsoo_views(r->0@) == jsoo_forms(
            seq![element(store.tick->0.h)] + elements(store.tick->0.g@),
        ),
        r is Some && store.tick->0.g@.len() > 0 ==> srs_of_points(
            read_points(Fq::modulus(), jsoo_views(r->0@)),
        ) == Some((elements(store.tick->0.g@), element(store.tick->0.h))),
        r is Some && store.is_full_size() ==> r->0@.len() == TICK_SRS_SIZE + 1,
{
    match &store.tick {
        None => None,
        Some(srs) => {
            let points = encode_srs_jsoo(srs.g.as_slice(), &srs.h);
            proof {
                assert(jsoo_views(points@).len() == points@.len());
                if srs.g.len() > 0 {
                    srs_reads_back(*srs);
                }
            }
            Some(points)
        },
    }
}

/// The wrap side's reference string as decimal points, the blinding point
/// first, where there is one.
pub fn export_tock_srs_jsoo(store: &SrsStore) -> (r: Option<Vec<JsooPoint>>)
    ensures
        r is Some <==> store.tock is Some,
        r is Some ==> jsoo_views(r->0@) == jsoo_forms(
            seq![element(store.tock->0.h)] + elements(store.tock->0.g@),
        ),
        r is Some && store.tock->0.g@.len() > 0 ==> srs_of_points(
            read_points(Fp::modulus(), jsoo_views(r->0@)),
        ) == Some((elements(store.tock->0.g@), element(store.tock->0.h))),
        r is Some && store.is_full_size() ==> r->0@.len() == TOCK_SRS_SIZE + 1,
{
    match &store.tock {
        None => None,
        Some(srs) => {
            let points = encode_srs_jsoo(srs.g.as_slice(), &srs.h);
            proof {
                assert(jsoo_views(points@).len() == points@.len());
                if srs.g.len() > 0 {
                    srs_reads_back(*srs);
                }
            }
            Some(points)
        },
    }
}

/// Seeding keeps the size: where the string before has it, so has the one after.
pub proof fn seeding_keeps_the_size<F: PrimeField>(
    before: Option<Srs<F>>,
    parsed: Option<(Seq<Option<(int, int)>>, Option<(int, int)>)>,
    size: nat,
    after: Option<Srs<F>>,
    r: bool,
)
    requires
        seeded(before, parsed, size, after, r),
        has_size(before, size),
    ensures
        has_size(after, size),
{
    if before is None && r {
        assert(elements(after->0.g@).len() == after->0.g@.len());
    }
}

/// The raw payload of a reference string declares its size and parses to it.
pub open spec fn reads_back_raw<F: PrimeField>(srs: Srs<F>) -> bool {
    let payload = srs_payload(F::modulus(), elements(srs.g@), element(srs.h));
    &&& payload.take(4) == SRS_RAW_MAGIC@
    &&& payload.subrange(4, 12) == le_bytes(srs.g@.len(), 8)
    &&& declared_count(payload) == srs.g@.len()
    &&& payload.len() == 12 + POINT_SIZE * (srs.g@.len() + 1)
    &&& parsed_srs(F::modulus(), payload) == Some((elements(srs.g@), element(srs.h)))
}

/// The decimal points of a reference string are one more than its size, the
/// blinding point first, and read back to it.
pub open spec fn reads_back_jsoo<F: PrimeField>(srs: Srs<F>) -> bool {
    let forms = jsoo_forms(seq![element(srs.h)] + elements(srs.g@));
    &&& forms.len() == srs.g@.len() + 1
    &&& forms[0] == jsoo_form(element(srs.h))
    &&& srs_of_points(read_points(F::modulus(), forms)) == Some(
        (elements(srs.g@), element(srs.h)),
    )
}

/// A reference string with a point in it reads back from both of its forms.
pub proof fn srs_reads_back<F: PrimeField>(srs: Srs<F>)
    requires
        0 < srs.g@.len() <= usize::MAX,
    ensures
        reads_back_raw(srs),
        reads_back_jsoo(srs),
{
    let m = F::modulus();
    let g = elements(srs.g@);
    let h = element(srs.h);
    let all = seq![h] + g;
    let points = seq![srs.h] + srs.g@;
    F::lemma_modulus();
    assert forall|i: int| 0 <= i < all.len() implies ((#[trigger] all[i]) matches Some((x, y))
        ==> 0 <= x < m && 0 <= y < m) by {
        assert(all[i] == element(points[i]));
        if let Some(p) = points[i] {
            F::lemma_canonical(p.x);
            F::lemma_canonical(p.y);
        }
    }
    assert forall|i: int| 0 <= i < g.push(h).len() implies ((#[trigger] g.push(h)[i]) matches Some(
        (x, y),
    ) ==> 0 <= x < m && 0 <= y < m) by {
        if i < g.len() {
            assert(g.push(h)[i] == all[i + 1]);
        } else {
            assert(g.push(h)[i] == all[0]);
        }
    }
    let magic = seq![83u8, 82, 83, 50];
    let body = points_bytes(m, all);
    lemma_points_bytes_first(m, h, g);
    lemma_points_bytes(m, all);
    let payload = srs_payload(m, g, h);
    assert(payload =~= magic + le_bytes(g.len(), 8) + body);
    lemma_count_reads_back(magic, g.len(), body);
    assert(SRS_RAW_MAGIC@ =~= magic);
    assert(payload.subrange(4, 12) =~= le_bytes(g.len(), 8));
    srs_raw_round_trips(m, g, h);
    reading_inverts_writing(m, all);
    assert(all.skip(1) =~= g);
}

/// What a store of full size exports has the full size of its side, and reads
/// back to what is there: raw and as decimal points, on both sides.
pub proof fn exports_read_back(store: SrsStore)
    requires
        store.is_full_size(),
    ensures
        store.tick matches Some(srs) ==> srs.g@.len() == TICK_SRS_SIZE && reads_back_raw(srs)
            && reads_back_jsoo(srs),
        store.tock matches Some(srs) ==> srs.g@.len() == TOCK_SRS_SIZE && reads_back_raw(srs)
            && reads_back_jsoo(srs),
{
    if let Some(srs) = store.tick {
        srs_reads_back(srs);
    }
    if let Some(srs) = store.tock {
        srs_reads_back(srs);
    }
}

/// The step side's reference string, created by `create` at its full size, not
/// that of any circuit's domain, when there is none yet.
pub fn tick_srs<'a, C: Fn(usize) -> Srs<Fq>>(store: &'a mut SrsStore, create: &C) -> (r: &'a mut Srs<
    Fq,
>)
    requires
        call_requires(*create, (TICK_SRS_SIZE,)),
    ensures
        match old(store).tick {
            Some(srs) => *r == srs,
            None => call_ensures(*create, (TICK_SRS_SIZE,), *r),
        },
        final(store).tick == Some(*final(r)),
        final(store).tock == old(store).tock,
        final(store).disk_cache_enabled == old(store).disk_cache_enabled,
{
    if store.tick.is_none() {
        store.tick = Some(create(TICK_SRS_SIZE));
    }
    store.tick.as_mut().unwrap()
}

/// The wrap side's reference string, created by `create` at its full size when
/// there is none yet.
pub fn tock_srs<'a, C: Fn(usize) -> Srs<Fp>>(store: &'a mut SrsStore, create: &C) -> (r: &'a mut Srs<
    Fp,
>)
    requires
        call_requires(*create, (TOCK_SRS_SIZE,)),
    ensures
        match old(store).tock {
            Some(srs) => *r == srs,
            None => call_ensures(*create, (TOCK_SRS_SIZE,), *r),
        },
        final(store).tock == Some(*final(r)),
        final(store).tick == old(store).tick,
        final(store).disk_cache_enabled == old(store).disk_cache_enabled,
{
    if store.tock.is_none() {
        store.tock = Some(create(TOCK_SRS_SIZE));
    }
    store.tock.as_mut().unwrap()
}

/// Whether two strings are the same.
pub fn same_text(a: &str, b: &str) -> (r: bool)
    ensures
        r == (a@ == b@),
{
    a.to_owned().eq(&b.to_owned())
}

/// What seeding a Lagrange basis does to a reference string that was `before`
/// (created by `create` where there was none): the basis is kept under its
/// domain size, unless there is one.
pub open spec fn basis_seeded<F: PrimeField, C: Fn(usize) -> Srs<F>>(
    before: Option<Srs<F>>,
    create: C,
    srs_size: usize,
    domain_size: usize,
    basis: Seq<Seq<Option<(int, int)>>>,
    after: Option<Srs<F>>,
) -> bool {
    exists|base: Srs<F>, comms: Vec<PolyComm<F>>|
        {
            &&& match before {
                Some(srs) => base == srs,
                None => call_ensures(create, (srs_size,), base),
            }
            &&& comm_elements(comms@) == basis
            &&& after is Some
            &&& after->0.g == base.g
            &&& after->0.h == base.h
            &&& after->0.lagrange_bases@ == #[trigger] with_basis(
                base.lagrange_bases@,
                domain_size,
                comms,
            )
        }
}

/// Seeds the Lagrange basis of size `2^domain_log2` on the curve named `vesta`
/// or `pallas`. False, with nothing changed, when the curve is another or the
/// payload does not read.
pub fn seed_lagrange_basis_jsoo<A: Fn(usize) -> Srs<Fq>, B: Fn(usize) -> Srs<Fp>>(
    store: &mut SrsStore,
    curve: &str,
    domain_log2: u32,
    comms: &[JsooComm],
    create_tick: &A,
    create_tock: &B,
) -> (r: bool)
    requires
        pow2(domain_log2 as nat) <= usize::MAX,
        call_requires(*create_tick, (TICK_SRS_SIZE,)),
        call_requires(*create_tock, (TOCK_SRS_SIZE,)),
    ensures
        final(store).disk_cache_enabled == old(store).disk_cache_enabled,
        r <==> {
            ||| curve@ == "vesta"@ && jsoo_basis_reads(
                Fq::modulus(),
                comms@,
                pow2(domain_log2 as nat) as int,
            )
            ||| curve@ == "pallas"@ && jsoo_basis_reads(
                Fp::modulus(),
                comms@,
                pow2(domain_log2 as nat) as int,
            )
        },
        r && curve@ == "vesta"@ ==> final(store).tock == old(store).tock && basis_seeded(
            old(store).tick,
            *create_tick,
            TICK_SRS_SIZE,
            pow2(domain_log2 as nat) as usize,
            jsoo_basis(Fq::modulus(), comms@),
            final(store).tick,
        ),
        r && curve@ != "vesta"@ ==> final(store).tick == old(store).tick && basis_seeded(
            old(store).tock,
            *create_tock,
            TOCK_SRS_SIZE,
            pow2(domain_log2 as nat) as usize,
            jsoo_basis(Fp::modulus(), comms@),
            final(store).tock,
        ),
        !r ==> *final(store) == *old(store),
{
    proof {
        reveal_strlit("vesta");
        reveal_strlit("pallas");
    }
    let domain_size = power_of_two(domain_log2);
    if same_text(curve, "vesta") {
        assert("vesta"@.len() != "pallas"@.len());
        match decode_lagrange_basis_jsoo::<Fq>(comms, domain_size) {
            None => false,
            Some(basis) => {
                let srs = tick_srs(store, create_tick);
                srs.set_once(domain_size, basis);
                true
            },
        }
    } else if same_text(curve, "pallas") {
        match decode_lagrange_basis_jsoo::<Fp>(comms, domain_size) {
            None => false,
            Some(basis) => {
                let srs = tock_srs(store, create_tock);
                srs.set_once(domain_size, basis);
                true
            },
        }
    } else {
        false
    }
}

/// What exporting a basis of a reference string that was `before` gives: its
/// cached form where the string has one of that size.
pub open spec fn basis_exported<F: PrimeField, C: Fn(usize) -> Srs<F>>(
    before: Option<Srs<F>>,
    create: C,
    srs_size: usize,
    domain_size: usize,
    after: Option<Srs<F>>,
    r: Option<Vec<JsooComm>>,
) -> bool {
    &&& after is Some
    &&& match before {
        Some(srs) => after == before,
        None => call_ensures(create, (srs_size,), after->0),
    }
    &&& r is Some <==> after->0.lagrange_bases@.contains_key(domain_size)
    &&& r is Some ==> {
        let basis = after->0.lagrange_bases@[domain_size]@;
        &&& r->0@.len() == basis.len()
        &&& forall|i: int|
            0 <= i < basis.len() ==> jsoo_views((#[trigger] r->0@[i]).shifted@) == jsoo_forms(
                elements(basis[i].chunks@),
            )
    }
}

fn export_basis<F: PrimeField>(srs: &Srs<F>, domain_size: usize) -> (r: Option<Vec<JsooComm>>)
    ensures
        r is Some <==> srs.lagrange_bases@.contains_key(domain_size),
        r is Some ==> {
            let basis = srs.lagrange_bases@[domain_size]@;
            &&& r->0@.len() == basis.len()
            &&& forall|i: int|
                0 <= i < basis.len() ==> jsoo_views((#[trigger] r->0@[i]).shifted@) == jsoo_forms(
                    elements(basis[i].chunks@),
                )
        },
{
    match srs.lagrange_bases.get(&domain_size) {
        None => None,
        Some(basis) => Some(encode_lagrange_basis_jsoo(basis.as_slice())),
    }
}

/// The Lagrange basis of size `2^domain_log2` on the curve named `vesta` or
/// `pallas`, as the JSON caches hold it: none when it is not there yet, or the
/// curve is another.
pub fn export_lagrange_basis_jsoo<A: Fn(usize) -> Srs<Fq>, B: Fn(usize) -> Srs<Fp>>(
    store: &mut SrsStore,
    curve: &str,
    domain_log2: u32,
    create_tick: &A,
    create_tock: &B,
) -> (r: Option<Vec<JsooComm>>)
    requires
        pow2(domain_log2 as nat) <= usize::MAX,
        call_requires(*create_tick, (TICK_SRS_SIZE,)),
        call_requires(*create_tock, (TOCK_SRS_SIZE,)),
    ensures
        final(store).disk_cache_enabled == old(store).disk_cache_enabled,
        curve@ == "vesta"@ ==> final(store).tock == old(store).tock && basis_exported(
            old(store).tick,
            *create_tick,
            TICK_SRS_SIZE,
            pow2(domain_log2 as nat) as usize,
            final(store).tick,
            r,
        ),
        curve@ == "pallas"@ ==> final(store).tick == old(store).tick && basis_exported(
            old(store).tock,
            *create_tock,
            TOCK_SRS_SIZE,
            pow2(domain_log2 as nat) as usize,
            final(store).tock,
            r,
        ),
        curve@ != "vesta"@ && curve@ != "pallas"@ ==> r is None && *final(store) == *old(store),
{
    proof {
        reveal_strlit("vesta");
        reveal_strlit("pallas");
        assert("vesta"@.len() != "pallas"@.len());
    }
    let domain_size = power_of_two(domain_log2);
    if same_text(curve, "vesta") {
        let srs = tick_srs(store, create_tick);
        export_basis(srs, domain_size)
    } else if same_text(curve, "pallas") {
        let srs = tock_srs(store, create_tock);
        export_basis(srs, domain_size)
    } else {
        None
    }
}

/// A reference string that hands out its cached Lagrange bases as raw bytes.
pub trait LagrangeBasisExport {
    /// The raw bytes of the basis of a size.
    spec fn basis_bytes(&self, domain_size: usize) -> Seq<u8>;

    /// The raw bytes of the basis of a size, none where it is not cached.
    fn cached_lagrange_basis_bytes(&self, domain_size: usize) -> (r: Vec<u8>)
        ensures
            r@ == self.basis_bytes(domain_size),
    ;
}

impl<F: PointField> LagrangeBasisExport for Srs<F> {
    open spec fn basis_bytes(&self, domain_size: usize) -> Seq<u8> {
        let basis = self.lagrange_bases@[domain_size]@;
        if self.lagrange_bases@.contains_key(domain_size) && is_single_chunk_basis(basis) {
            lagrange_payload(F::modulus(), first_chunks(basis))
        } else {
            Seq::empty()
        }
    }

    fn cached_lagrange_basis_bytes(&self, domain_size: usize) -> (r: Vec<u8>) {
        match self.lagrange_bases.get(&domain_size) {
            None => Vec::new(),
            Some(basis) => match encode_lagrange_basis_raw(basis.as_slice()) {
                None => Vec::new(),
                Some(bytes) => bytes,
            },
        }
    }
}

/// Lets the library use the disk for its caches, or forbids it.
pub fn set_disk_cache_enabled(store: &mut SrsStore, enabled: bool)
    ensures
        final(store).disk_cache_enabled == enabled,
        final(store).tick == old(store).tick,
        final(store).tock == old(store).tock,
{
    store.disk_cache_enabled = enabled;
}

/// A directory: a base from the environment, and the components below it.
#[derive(Clone, Debug, PartialEq, Eq)]
pub struct CacheDir {
    pub base: String,
    pub below: Vec<String>,
}

/// The components' characters.
pub open spec fn texts(parts: Seq<String>) -> Seq<Seq<char>> {
    Seq::new(parts.len(), |i: int| parts[i]@)
}

/// The cache directory, none when the disk is not to be used: an explicit one as
/// it is, else `pickles-rs` below the user's cache directory, else
/// `.cache/pickles-rs` below the home directory.
pub fn cache_dir(
    store: &SrsStore,
    explicit: Option<String>,
    user_cache: Option<String>,
    home: Option<String>,
) -> (r: Option<CacheDir>)
    ensures
        r is None <==> !store.disk_cache_enabled || (explicit is None && user_cache is None
            && home is None),
        r is Some && explicit is Some ==> r->0.base@ == explicit->0@ && texts(r->0.below@)
            == Seq::<Seq<char>>::empty(),
        r is Some && explicit is None && user_cache is Some ==> r->0.base@ == user_cache->0@
            && texts(r->0.below@) == seq!["pickles-rs"@],
        r is Some && explicit is None && user_cache is None ==> r->0.base@ == home->0@ && texts(
            r->0.below@,
        ) == seq![".cache"@, "pickles-rs"@],
{
    if !store.disk_cache_enabled {
        return None;
    }
    let mut below: Vec<String> = Vec::new();
    assert(texts(below@) =~= Seq::<Seq<char>>::empty());
    if let Some(base) = explicit {
        return Some(CacheDir { base, below });
    }
    if let Some(base) = user_cache {
        below.push("pickles-rs".to_owned());
        assert(texts(below@) =~= seq!["pickles-rs"@]);
        return Some(CacheDir { base, below });
    }
    match home {
        None => None,
        Some(base) => {
            below.push(".cache".to_owned());
            below.push("pickles-rs".to_owned());
            assert(texts(below@) =~= seq![".cache"@, "pickles-rs"@]);
            Some(CacheDir { base, below })
        },
    }
}

/// The file name under which a Lagrange basis is kept.
pub fn lagrange_cache_file(curve: &str, srs_size: usize, domain_log2: u32) -> (r: String)
    ensures
        r@ == "lagrange-"@ + curve@ + "-srs"@ + decimal_chars(srs_size as nat) + "-d"@
            + decimal_chars(domain_log2 as nat) + ".v2.bin"@,
{
    let mut name = "lagrange-".to_owned();
    name.append(curve);
    name.append("-srs");
    name.append(u64_to_decimal(srs_size as u64).as_str());
    name.append("-d");
    name.append(u64_to_decimal(domain_log2 as u64).as_str());
    name.append(".v2.bin");
    name
}

/// Loads the Lagrange basis of size `2^domain_log2` from a cache file's bytes
/// into the reference string; where there is no file, or it is not such a basis,
/// computes it, unless the string has it. Returns what to write to the cache
/// file, nothing when the file was good.
pub fn lagrange_from_cache_or_compute<F: PointField, C: Fn(usize) -> Vec<PolyComm<F>>>(
    srs: &mut Srs<F>,
    domain_log2: u32,
    file: Option<&[u8]>,
    compute: &C,
) -> (r: Option<Vec<u8>>)
    requires
        pow2(domain_log2 as nat) <= usize::MAX,
        forall|n: usize| call_requires(*compute, (n,)),
    ensures
        final(srs).g == old(srs).g,
        final(srs).h == old(srs).h,
        cached_points::<F>(file, pow2(domain_log2 as nat) as int) matches Some(points) ==> {
            &&& r is None
            &&& exists|basis: Vec<PolyComm<F>>|
                {
                    &&& is_single_chunk_basis(basis@)
                    &&& first_chunks(basis@) == points
                    &&& final(srs).lagrange_bases@ == #[trigger] with_basis(
                        old(srs).lagrange_bases@,
                        pow2(domain_log2 as nat) as usize,
                        basis,
                    )
                }
        },
        cached_points::<F>(file, pow2(domain_log2 as nat) as int) is None ==> {
            let size = pow2(domain_log2 as nat) as usize;
            let basis = final(srs).lagrange_bases@[size];
            &&& !old(srs).lagrange_bases@.contains_key(size) ==> call_ensures(
                *compute,
                (size,),
                basis,
            )
            &&& final(srs).lagrange_bases@ == with_basis(old(srs).lagrange_bases@, size, basis)
            &&& final(srs).lagrange_bases@.contains_key(size)
            &&& r is Some <==> is_single_chunk_basis(basis@)
            &&& r is Some ==> r->0@ == lagrange_payload(F::modulus(), first_chunks(basis@))
        },
{
    let domain_size = power_of_two(domain_log2);
    if let Some(bytes) = file {
        if let Some(basis) = decode_lagrange_basis_raw::<F>(bytes, domain_size) {
            let ghost kept = basis;
            srs.set_once(domain_size, basis);
            assert(srs.lagrange_bases@ == with_basis(
                old(srs).lagrange_bases@,
                pow2(domain_log2 as nat) as usize,
                kept,
            ));
            assert(is_single_chunk_basis(kept@));
            return None;
        }
    }
    if !srs.lagrange_bases.contains_key(&domain_size) {
        let basis = compute(domain_size);
        srs.set_once(domain_size, basis);
    }
    let basis = srs.lagrange_bases.get(&domain_size).unwrap();
    let r = encode_lagrange_basis_raw(basis.as_slice());
    assert(srs.lagrange_bases@ =~= with_basis(
        old(srs).lagrange_bases@,
        domain_size,
        srs.lagrange_bases@[domain_size],
    ));
    r
}

/// The points of a cache file, none where there is no file or it is not a basis
/// of that size.
pub open spec fn cached_points<F: PrimeField>(file: Option<&[u8]>, domain_size: int) -> Option<
    Seq<Option<(int, int)>>,
> {
    match file {
        None => None,
        Some(bytes) => parsed_lagrange(F::modulus(), bytes@, domain_size),
    }
}

/// The step side's domains to warm before a compile, as `log2`.
pub fn tick_warm_domains(recursive: bool) -> (r: Vec<u32>)
    ensures
        r@ == if recursive {
            seq![14u32, 15, 16]
        } else {
            Seq::empty()
        },
{
    if recursive {
        vec![14, 15, 16]
    } else {
        Vec::new()
    }
}

/// The wrap side's domains to warm before a compile, as `log2`.
pub fn tock_warm_domains(recursive: bool) -> (r: Vec<u32>)
    ensures
        r@ == if recursive {
            seq![13u32, 15]
        } else {
            seq![13u32]
        },
{
    if recursive {
        vec![13, 15]
    } else {
        vec![13]
    }
}

/// The raw reference string, byte by byte: the four letters of its format, the
/// number of points, the blinding point, and the points in order.
pub proof fn raw_srs_bytes_in_place(
    modulus: int,
    g: Seq<Option<(int, int)>>,
    h: Option<(int, int)>,
    i: int,
)
    requires
        0 < modulus <= crate::montgomery::radix(),
        are_reduced(modulus, g.push(h)),
        g.len() <= usize::MAX,
    ensures
        ({
            let all = srs_payload(modulus, g, h);
            &&& all.len() == 77 + 65 * g.len()
            &&& all[0] == 83 && all[1] == 82 && all[2] == 83 && all[3] == 50
            &&& le_value(all.subrange(4, 12)) == g.len()
            &&& all.subrange(12, 77) == point_bytes(modulus, h)
            &&& 0 <= i < g.len() ==> all.subrange(77 + 65 * i, 77 + 65 * i + 65) == point_bytes(
                modulus,
                g[i],
            )
        }),
{
    let all = srs_payload(modulus, g, h);
    assert(g.push(h)[g.len() as int] == h);
    crate::codec::decoding_inverts_encoding(modulus, h);
    assert forall|k: int| 0 <= k < g.len() implies (#[trigger] g[k] matches Some((x, y)) ==> 0 <= x
        < modulus && 0 <= y < modulus) by {
        assert(g.push(h)[k] == g[k]);
    }
    lemma_points_in_place(modulus, g, i);
    lemma_eight_bytes(g.len());
    assert(all.subrange(4, 12) =~= le_bytes(g.len(), 8));
    assert(all.subrange(12, 77) =~= point_bytes(modulus, h));
    if 0 <= i < g.len() {
        assert(all.subrange(77 + 65 * i, 77 + 65 * i + 65) =~= points_bytes(modulus, g).subrange(
            65 * i,
            65 * i + 65,
        ));
    }
}

/// The raw Lagrange basis, byte by byte: the four letters of its format, the
/// number of points, and the points in order.
pub proof fn raw_lagrange_bytes_in_place(modulus: int, points: Seq<Option<(int, int)>>, i: int)
    requires
        0 < modulus <= crate::montgomery::radix(),
        are_reduced(modulus, points),
        points.len() <= usize::MAX,
    ensures
        ({
            let all = lagrange_payload(modulus, points);
            &&& all.len() == 12 + 65 * points.len()
            &&& all[0] == 76 && all[1] == 71 && all[2] == 66 && all[3] == 50
            &&& le_value(all.subrange(4, 12)) == points.len()
            &&& 0 <= i < points.len() ==> all.subrange(12 + 65 * i, 12 + 65 * i + 65)
                == point_bytes(modulus, points[i])
        }),
{
    let all = lagrange_payload(modulus, points);
    lemma_points_in_place(modulus, points, i);
    lemma_eight_bytes(points.len());
    assert(all.subrange(4, 12) =~= le_bytes(points.len(), 8));
    if 0 <= i < points.len() {
        assert(all.subrange(12 + 65 * i, 12 + 65 * i + 65) =~= points_bytes(
            modulus,
            points,
        ).subrange(65 * i, 65 * i + 65));
    }
}

proof fn lemma_eight_bytes(n: nat)
    requires
        n <= usize::MAX,
    ensures
        le_bytes(n, 8).len() == 8,
        le_value(le_bytes(n, 8)) == n,
{
    assert(crate::codec::byte_power(8) == 0x1_0000_0000_0000_0000) by {
        reveal_with_fuel(crate::codec::byte_power, 9);
    }
    crate::codec::le_value_inverts_le_bytes(n, 8);
}

proof fn lemma_points_in_place(modulus: int, points: Seq<Option<(int, int)>>, i: int)
    requires
        0 < modulus <= crate::montgomery::radix(),
        are_reduced(modulus, points),
    ensures
        points_bytes(modulus, points).len() == 65 * points.len(),
        0 <= i < points.len() ==> points_bytes(modulus, points).subrange(65 * i, 65 * i + 65)
            == point_bytes(modulus, points[i]),
    decreases points.len(),
{
    if points.len() > 0 {
        let rest = points.drop_last();
        assert forall|k: int| 0 <= k < rest.len() implies (#[trigger] rest[k] matches Some((x, y))
            ==> 0 <= x < modulus && 0 <= y < modulus) by {
            assert(points[k] == rest[k]);
        }
        lemma_points_in_place(modulus, rest, i);
        assert(points[points.len() - 1] == points.last());
        crate::codec::decoding_inverts_encoding(modulus, points.last());
        let all = points_bytes(modulus, points);
        let before = points_bytes(modulus, rest);
        if 0 <= i < rest.len() {
            assert(all.subrange(65 * i, 65 * i + 65) =~= before.subrange(65 * i, 65 * i + 65));
            assert(rest[i] == points[i]);
        } else if i == points.len() - 1 {
            assert(all.subrange(65 * i, 65 * i + 65) =~= point_bytes(modulus, points[i]));
        }
    }
}

/// The text form of a point: the word for the identity, else both coordinates in
/// decimal, abscissa first; no other word and no number out of range reads.
pub proof fn text_points_name_the_identity(modulus: int, x: nat, y: nat, tag: Seq<char>)
    ensures
        jsoo_form(None) == JsooView::Infinity("Infinity"@),
        jsoo_form(Some((x as int, y as int))) == JsooView::Point(
            decimal_chars(x),
            decimal_chars(y),
        ),
        tag != "Infinity"@ ==> read_point(modulus, JsooView::Infinity(tag)) is None,
        read_point(modulus, JsooView::Point(decimal_chars(x), decimal_chars(y))) == if x < modulus
            && y < modulus {
            Some(Some((x as int, y as int)))
        } else {
            None
        },
{
    crate::codec::lemma_decimal_chars(x);
    crate::codec::lemma_decimal_chars(y);
    crate::codec::decimal_value_inverts_decimal_digits(x);
    crate::codec::decimal_value_inverts_decimal_digits(y);
}

/// A reference string in text form is the blinding point and then the points.
pub proof fn the_blinding_point_comes_first(
    h: Option<(int, int)>,
    g: Seq<Option<(int, int)>>,
)
    ensures
        srs_of_points(Some(seq![h] + g)) == Some((g, h)),
        srs_of_points(Some(Seq::<Option<(int, int)>>::empty())) is None,
        srs_of_points(None) is None,
{
    assert((seq![h] + g).skip(1) =~= g);
}

/// Seeding happens at most once and only with the right size: what is there
/// stays, what does not fit changes nothing, and the first that fits is taken.
pub proof fn the_first_fitting_seed_is_taken<F: PrimeField>(
    before: Option<Srs<F>>,
    g: Seq<Option<(int, int)>>,
    h: Option<(int, int)>,
    size: nat,
    after: Option<Srs<F>>,
    r: bool,
)
    requires
        seeded(before, Some((g, h)), size, after, r),
    ensures
        r == (g.len() == size),
        before is Some ==> after == before,
        g.len() != size ==> after == before,
        before is None && g.len() == size ==> {
            &&& after matches Some(srs)
            &&& elements(after->0.g@) == g
            &&& element(after->0.h) == h
            &&& after->0.lagrange_bases@.dom() == Set::<usize>::empty()
        },
{
    assert(Map::<usize, Vec<PolyComm<F>>>::empty().dom() =~= Set::<usize>::empty());
}

/// A basis is set once: a second one for the same size changes nothing, one for
/// another size leaves the first alone.
pub proof fn bases_are_set_once<F: PrimeField>(
    bases: Map<usize, Vec<PolyComm<F>>>,
    size: usize,
    basis: Vec<PolyComm<F>>,
    other: usize,
)
    ensures
        with_basis(bases, size, basis).contains_key(size),
        bases.contains_key(size) ==> with_basis(bases, size, basis)[size] == bases[size],
        !bases.contains_key(size) ==> with_basis(bases, size, basis)[size] == basis,
        other != size ==> with_basis(bases, size, basis).contains_key(other) == bases.contains_key(
            other,
        ),
        other != size && bases.contains_key(other) ==> with_basis(bases, size, basis)[other]
            == bases[other],
{
}

/// The sizes fit the rounds: a reference string has two to the rounds points, a
/// challenge has half a field's bits, and the wrap domains start at two to the
/// thirteen.
pub proof fn sizes_fit_the_rounds()
    ensures
        TICK_SRS_SIZE == pow2(TICK_ROUNDS as nat),
        TOCK_SRS_SIZE == pow2(TOCK_ROUNDS as nat),
        TICK_ROUNDS == 16,
        TOCK_ROUNDS == 15,
        SCALAR_CHALLENGE_BITS == 128,
        MAX_PROOFS_VERIFIED == 2,
        NUM_CHUNKS_BY_DEFAULT == 1,
{
    vstd::arithmetic::power2::lemma2_to64();
}

/// A seeded basis is there afterwards and everything else is as before: the
/// reference string, and every basis that there was.
pub proof fn seeded_bases_are_there<F: PrimeField, C: Fn(usize) -> Srs<F>>(
    before: Option<Srs<F>>,
    create: C,
    srs_size: usize,
    domain_size: usize,
    basis: Seq<Seq<Option<(int, int)>>>,
    after: Option<Srs<F>>,
    other: usize,
)
    requires
        basis_seeded(before, create, srs_size, domain_size, basis, after),
    ensures
        after is Some,
        after->0.lagrange_bases@.contains_key(domain_size),
        before matches Some(srs) ==> {
            &&& after->0.g == srs.g
            &&& after->0.h == srs.h
            &&& srs.lagrange_bases@.contains_key(other) ==> after->0.lagrange_bases@.contains_key(
                other,
            ) && after->0.lagrange_bases@[other] == srs.lagrange_bases@[other]
            &&& other != domain_size && !srs.lagrange_bases@.contains_key(other)
                ==> !after->0.lagrange_bases@.contains_key(other)
            &&& !srs.lagrange_bases@.contains_key(domain_size) ==> comm_elements(
                after->0.lagrange_bases@[domain_size]@,
            ) == basis
        },
{
    let (base, comms): (Srs<F>, Vec<PolyComm<F>>) = choose|
        base: Srs<F>,
        comms: Vec<PolyComm<F>>,
    |
        {
            &&& match before {
                Some(srs) => base == srs,
                None => call_ensures(create, (srs_size,), base),
            }
            &&& comm_elements(comms@) == basis
            &&& after is Some
            &&& after->0.g == base.g
            &&& after->0.h == base.h
            &&& after->0.lagrange_bases@ == #[trigger] with_basis(
                base.lagrange_bases@,
                domain_size,
                comms,
            )
        };
    bases_are_set_once(base.lagrange_bases@, domain_size, comms, other);
}

/// An exported basis is the one of the size that was asked for, point by point;
/// exporting changes nothing that is there.
pub proof fn exported_bases_are_those_asked_for<F: PrimeField, C: Fn(usize) -> Srs<F>>(
    before: Option<Srs<F>>,
    create: C,
    srs_size: usize,
    domain_size: usize,
    after: Option<Srs<F>>,
    r: Option<Vec<JsooComm>>,
    i: int,
)
    requires
        basis_exported(before, create, srs_size, domain_size, after, r),
    ensures
        after is Some,
        before is Some ==> after == before,
        r is Some <==> after->0.lagrange_bases@.contains_key(domain_size),
        r matches Some(comms) ==> {
            let basis = after->0.lagrange_bases@[domain_size]@;
            &&& comms@.len() == basis.len()
            &&& 0 <= i < basis.len() ==> jsoo_views(comms@[i].shifted@) == jsoo_forms(
                elements(basis[i].chunks@),
            )
        },
{
    if r is Some {
        let basis = after->0.lagrange_bases@[domain_size]@;
        if 0 <= i < basis.len() {
            assert(jsoo_views(r->0@[i].shifted@) == jsoo_forms(elements(basis[i].chunks@)));
        }
    }
}

/// A cached file counts if and only if its bytes are a basis of the right size.
pub proof fn cached_files_must_fit<F: PrimeField>(
    points: Seq<Option<(int, int)>>,
    bytes: &[u8],
    domain_size: int,
)
    requires
        are_reduced(F::modulus(), points),
        0 < points.len() <= usize::MAX,
        bytes@ == lagrange_payload(F::modulus(), points),
    ensures
        cached_points::<F>(None, domain_size) is None,
        cached_points::<F>(Some(bytes), domain_size) == if domain_size == points.len() {
            Some(points)
        } else {
            None
        },
{
    F::lemma_modulus();
    lagrange_raw_round_trips(F::modulus(), points, domain_size);
}

/// A raw reference string that is cut or carries more than it declares does not
/// read, nor does one without points.
pub proof fn raw_lengths_must_fit(modulus: int, bytes: Seq<u8>, expected_len: int)
    ensures
        bytes.len() < 12 ==> parsed_srs(modulus, bytes) is None,
        bytes.len() != 12 + 65 * (declared_count(bytes) + 1) ==> parsed_srs(modulus, bytes)
            is None,
        declared_count(bytes) == 0 ==> parsed_srs(modulus, bytes) is None,
        bytes.len() < 12 ==> parsed_lagrange(modulus, bytes, expected_len) is None,
        declared_count(bytes) != expected_len ==> parsed_lagrange(modulus, bytes, expected_len)
            is None,
        bytes.len() != 12 + 65 * declared_count(bytes) ==> parsed_lagrange(
            modulus,
            bytes,
            expected_len,
        ) is None,
{
}

/// One point that does not stand for one refuses the whole payload.
pub proof fn one_bad_point_refuses_the_payload(
    modulus: int,
    bytes: Seq<u8>,
    expected_len: int,
    i: int,
)
    requires
        bytes.len() >= 12,
        0 <= i,
        decoded_point(modulus, bytes.skip(12).subrange(65 * i, 65 * i + 65)) is None,
    ensures
        i <= declared_count(bytes) ==> parsed_srs(modulus, bytes) is None,
        i < declared_count(bytes) ==> parsed_lagrange(modulus, bytes, expected_len) is None,
{
    assert(piece(bytes.skip(12), i) == bytes.skip(12).subrange(65 * i, 65 * i + 65));
}

/// One point that does not read refuses the whole list; where all read, each is
/// in its place.
pub proof fn one_unread_point_refuses_the_list(modulus: int, points: Seq<JsooView>, i: int)
    requires
        0 <= i < points.len(),
    ensures
        read_point(modulus, points[i]) is None ==> read_points(modulus, points) is None,
        read_points(modulus, points) matches Some(all) ==> all.len() == points.len()
            && read_point(modulus, points[i]) == Some(all[i]),
        (forall|k: int| 0 <= k < points.len() ==> read_point(modulus, #[trigger] points[k])
            is Some) ==> read_points(modulus, points) is Some,
{
}

/// A basis in text form reads if and only if it has the right length and every
/// commitment reads, and then commitment by commitment.
pub proof fn bases_read_commitment_by_commitment(
    modulus: int,
    comms: Seq<JsooComm>,
    expected_len: int,
    i: int,
)
    requires
        0 <= i < comms.len(),
    ensures
        comms.len() != expected_len ==> !jsoo_basis_reads(modulus, comms, expected_len),
        read_points(modulus, jsoo_views(comms[i].shifted@)) is None ==> !jsoo_basis_reads(
            modulus,
            comms,
            expected_len,
        ),
        jsoo_basis_reads(modulus, comms, expected_len) ==> read_points(
            modulus,
            jsoo_views(comms[i].shifted@),
        ) == Some(jsoo_basis(modulus, comms)[i]),
        jsoo_basis(modulus, comms).len() == comms.len(),
{
}

/// A cached basis of single chunks is exported as its points in order; without a
/// cached one, or with more chunks, nothing is.
pub proof fn cached_bases_export_their_points<F: PointField>(srs: Srs<F>, domain_size: usize, i: int)
    ensures
        !srs.lagrange_bases@.contains_key(domain_size) ==> srs.basis_bytes(domain_size)
            == Seq::<u8>::empty(),
        srs.lagrange_bases@.contains_key(domain_size) ==> {
            let basis = srs.lagrange_bases@[domain_size]@;
            &&& basis.len() == 0 ==> srs.basis_bytes(domain_size) == Seq::<u8>::empty()
            &&& 0 <= i < basis.len() && basis[i].chunks@.len() != 1 ==> srs.basis_bytes(domain_size)
                == Seq::<u8>::empty()
            &&& basis.len() > 0 && (forall|k: int|
                0 <= k < basis.len() ==> (#[trigger] basis[k]).chunks@.len() == 1)
                ==> srs.basis_bytes(domain_size) == lagrange_payload(
                F::modulus(),
                Seq::new(basis.len(), |k: int| element(basis[k].chunks@[0])),
            )
        },
{
    let basis = srs.lagrange_bases@[domain_size]@;
    assert(first_chunks(basis) =~= Seq::new(
        basis.len(),
        |k: int| element(basis[k].chunks@[0]),
    ));
}

} // verus!
