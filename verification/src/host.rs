//! What host bindings do around the prover and the verifier: reading their
//! arguments, filling proof envelopes, and turning outcomes into answers.

use vstd::arithmetic::power2::pow2;
use vstd::prelude::*;
use vstd::utf8::*;

use crate::api::{
    is_envelope, is_read, BaseCaseBackendError, MinaWrapProof, O1jsWrapProofJson, StepApp,
};
use crate::arkworks::{
    ark_fp_from_bytes, ark_fp_parse, base64_bytes, base64_decode, base64_encode, base64_text,
    fp_of_text,
};
use crate::codec::{
    decimal_chars, decimal_value, field_to_decimal, is_plain_decimal, le_value,
    lemma_decimal_is_plain, u64_to_decimal,
};
use crate::common::{
    basis_seeded, export_tick_srs_jsoo, export_tock_srs_jsoo, jsoo_basis,
    jsoo_basis_reads, jsoo_forms, jsoo_views, read_points, same_text, seed_lagrange_basis_jsoo,
    seed_tick_srs_jsoo, seed_tock_srs_jsoo, seeded, srs_of_points, JsooComm, JsooPoint, Srs,
    SrsStore, TICK_SRS_SIZE, TOCK_SRS_SIZE,
};
use crate::composition_types::ProofsVerified;
use crate::curve::{element, elements};
use crate::field::{fmul, fp_modulus, Fp, Fq, PrimeField};

verus! {

/// The bytes of one field element.
pub const FIELD_BYTES: usize = 32;

/// The argument that a refusal is about.
#[derive(Clone, Copy, Debug, PartialEq, Eq, Structural)]
pub enum Argument {
    Witness,
    FirstWitness,
    SecondWitness,
    AppState,
    DlogPlonkIndex,
    CommitmentX,
    CommitmentY,
    ChallengePolynomialCommitments,
    OldBulletproofChallenges,
}

/// Why a call is refused.
#[derive(Clone, Copy, Debug, PartialEq, Eq, Structural)]
pub enum HostError {
    /// Text that is no field element.
    Decimal(Argument),
    /// A row of texts that is no pair.
    NotAPair(Argument),
    /// A number of bytes that is no multiple of an element's.
    ByteLength(Argument),
    /// Bytes of a number that is not reduced.
    ByteEncoding(Argument),
    /// Text that is not the JSON of the argument.
    Json(Argument),
    /// A proof envelope that does not read.
    Proof(BaseCaseBackendError),
    /// A side-loaded key that does not decode.
    VerificationKey,
    /// A wire proof that does not decode.
    WireProof,
    /// The proof is not one of a program.
    NotAProgramProof,
    /// The program proof has no accumulator.
    NoAccumulator,
    /// The program proof has no challenges.
    NoChallenges,
    /// The program proof has not exactly two accumulators and two challenge
    /// vectors.
    NotTwoAccumulators,
    /// The proof verifies no other proof.
    NotRecursive,
    /// As many payloads as entries were expected.
    EntriesMismatch,
}

impl Argument {
    /// The name of the argument in messages.
    pub open spec fn text(self) -> Seq<char> {
        match self {
            Argument::Witness => "witness"@,
            Argument::FirstWitness => "first_witness"@,
            Argument::SecondWitness => "second_witness"@,
            Argument::AppState => "app_state"@,
            Argument::DlogPlonkIndex => "dlog_plonk_index"@,
            Argument::CommitmentX => "commitment x"@,
            Argument::CommitmentY => "commitment y"@,
            Argument::ChallengePolynomialCommitments => "challenge_polynomial_commitments"@,
            Argument::OldBulletproofChallenges => "old_bulletproof_challenges"@,
        }
    }

    /// The name of the argument in messages.
    pub fn name(&self) -> (r: &'static str)
        ensures
            r@ == self.text(),
    {
        match self {
            Argument::Witness => "witness",
            Argument::FirstWitness => "first_witness",
            Argument::SecondWitness => "second_witness",
            Argument::AppState => "app_state",
            Argument::DlogPlonkIndex => "dlog_plonk_index",
            Argument::CommitmentX => "commitment x",
            Argument::CommitmentY => "commitment y",
            Argument::ChallengePolynomialCommitments => "challenge_polynomial_commitments",
            Argument::OldBulletproofChallenges => "old_bulletproof_challenges",
        }
    }
}

impl HostError {
    /// What a caller is told. Where a decoder or a parser has more to say, its
    /// words follow.
    pub open spec fn text(self) -> Seq<char> {
        match self {
            HostError::Decimal(name) => name.text() + ": expected decimal Pasta Fp field"@,
            HostError::NotAPair(name) => name.text() + ": expected [x, y] decimal pairs"@,
            HostError::ByteLength(name) => name.text()
                + ": expected a multiple of 32 canonical Fp bytes"@,
            HostError::ByteEncoding(name) => name.text() + ": non-canonical Pasta Fp encoding"@,
            HostError::Json(name) => "invalid "@ + name.text(),
            HostError::Proof(_) => "invalid proof JSON"@,
            HostError::VerificationKey => "invalid side-loaded verification key"@,
            HostError::WireProof => "invalid wrap wire proof"@,
            HostError::NotAProgramProof => "proof handle is not a program proof"@,
            HostError::NoAccumulator => "program proof carries no accumulator"@,
            HostError::NoChallenges => "program proof carries no challenges"@,
            HostError::NotTwoAccumulators => "program proof does not carry two accumulators"@,
            HostError::NotRecursive => "proof handle is not recursive"@,
            HostError::EntriesMismatch => "seed entries/payloads length mismatch"@,
        }
    }

    /// What a caller is told. Where a decoder or a parser has more to say, its
    /// words follow.
    pub fn message(&self) -> (r: String)
        ensures
            r@ == self.text(),
    {
        match self {
            HostError::Decimal(name) => text_of(name.name(), ": expected decimal Pasta Fp field"),
            HostError::NotAPair(name) => text_of(name.name(), ": expected [x, y] decimal pairs"),
            HostError::ByteLength(name) => text_of(
                name.name(),
                ": expected a multiple of 32 canonical Fp bytes",
            ),
            HostError::ByteEncoding(name) => text_of(
                name.name(),
                ": non-canonical Pasta Fp encoding",
            ),
            HostError::Json(name) => text_of("invalid ", name.name()),
            HostError::Proof(_) => "invalid proof JSON".to_owned(),
            HostError::VerificationKey => "invalid side-loaded verification key".to_owned(),
            HostError::WireProof => "invalid wrap wire proof".to_owned(),
            HostError::NotAProgramProof => "proof handle is not a program proof".to_owned(),
            HostError::NoAccumulator => "program proof carries no accumulator".to_owned(),
            HostError::NoChallenges => "program proof carries no challenges".to_owned(),
            HostError::NotTwoAccumulators => "program proof does not carry two accumulators".to_owned(),
            HostError::NotRecursive => "proof handle is not recursive".to_owned(),
            HostError::EntriesMismatch => "seed entries/payloads length mismatch".to_owned(),
        }
    }
}

/// One text after another.
fn text_of(first: &str, second: &str) -> (r: String)
    ensures
        r@ == first@ + second@,
{
    let mut out = first.to_owned();
    out.append(second);
    out
}

/// The field element of a text, with optional sign and in any length.
pub fn parse_fp_decimal(value: &str, name: Argument) -> (r: Result<Fp, HostError>)
    ensures
        r is Ok <==> fp_of_text(value@) is Some,
        r matches Ok(x) ==> fp_of_text(value@) == Some(x.view()),
        r matches Ok(x) ==> is_plain_decimal(value@) ==> x.view() == decimal_number(value@)
            % fp_modulus(),
        r matches Err(e) ==> e == HostError::Decimal(name) && !is_plain_decimal(value@),
{
    match ark_fp_parse(value) {
        None => Err(HostError::Decimal(name)),
        Some(limbs) => Ok(Fp::from_limbs(limbs).unwrap()),
    }
}

/// Every text is a field element's.
pub open spec fn all_read(values: Seq<String>) -> bool {
    forall|i: int| 0 <= i < values.len() ==> fp_of_text((#[trigger] values[i])@) is Some
}

/// The number that a decimal text stands for.
pub open spec fn decimal_number(text: Seq<char>) -> int {
    decimal_value(encode_utf8(text)) as int
}

/// The texts are those of the elements, one by one; text of digits alone is that
/// of its number, reduced.
pub open spec fn are_read(values: Seq<String>, r: Seq<Fp>) -> bool {
    &&& r.len() == values.len()
    &&& forall|i: int|
        0 <= i < values.len() ==> fp_of_text((#[trigger] values[i])@) == Some(r[i].view()) && (
        is_plain_decimal(values[i]@) ==> r[i].view() == decimal_number(values[i]@) % fp_modulus())
}

/// Some text is not of digits alone.
pub open spec fn some_not_plain(values: Seq<String>) -> bool {
    exists|i: int| 0 <= i < values.len() && !is_plain_decimal((#[trigger] values[i])@)
}

/// The field elements of a list of texts; refused when one of them is none.
pub fn parse_fp_decimals(values: &Vec<String>, name: Argument) -> (r: Result<Vec<Fp>, HostError>)
    ensures
        r is Ok <==> all_read(values@),
        r matches Ok(v) ==> are_read(values@, v@),
        r matches Err(e) ==> e == HostError::Decimal(name) && some_not_plain(values@),
{
    let mut out: Vec<Fp> = Vec::new();
    let mut i: usize = 0;
    while i < values.len()
        invariant
            i <= values@.len(),
            out@.len() == i,
            forall|k: int|
                0 <= k < i ==> fp_of_text((#[trigger] values@[k])@) == Some(out@[k].view()) && (
                is_plain_decimal(values@[k]@) ==> out@[k].view() == decimal_number(values@[k]@)
                    % fp_modulus()),
        decreases values.len() - i,
    {
        match parse_fp_decimal(values[i].as_str(), name) {
            Err(e) => {
                return Err(e);
            },
            Ok(x) => {
                out.push(x);
            },
        }
        i = i + 1;
    }
    Ok(out)
}

/// Every row of texts reads.
pub open spec fn all_rows_read(rows: Seq<Vec<String>>) -> bool {
    forall|i: int| 0 <= i < rows.len() ==> all_read((#[trigger] rows[i])@)
}

/// The rows of texts are those of the elements, one by one.
pub open spec fn are_rows_read(rows: Seq<Vec<String>>, r: Seq<Vec<Fp>>) -> bool {
    &&& r.len() == rows.len()
    &&& forall|i: int| 0 <= i < rows.len() ==> are_read((#[trigger] rows[i])@, r[i]@)
}

/// The field elements of rows of texts, such as the witnesses of a program's
/// branches; refused when one of them is none.
pub fn parse_fp_rows(rows: &Vec<Vec<String>>, name: Argument) -> (r: Result<
    Vec<Vec<Fp>>,
    HostError,
>)
    ensures
        r is Ok <==> all_rows_read(rows@),
        r matches Ok(v) ==> are_rows_read(rows@, v@),
        r matches Err(e) ==> e == HostError::Decimal(name),
{
    let mut out: Vec<Vec<Fp>> = Vec::new();
    let mut i: usize = 0;
    while i < rows.len()
        invariant
            i <= rows@.len(),
            out@.len() == i,
            forall|k: int| 0 <= k < i ==> all_read((#[trigger] rows@[k])@),
            forall|k: int| 0 <= k < i ==> are_read((#[trigger] rows@[k])@, out@[k]@),
        decreases rows.len() - i,
    {
        match parse_fp_decimals(&rows[i], name) {
            Err(e) => {
                return Err(e);
            },
            Ok(row) => {
                out.push(row);
            },
        }
        i = i + 1;
    }
    Ok(out)
}

/// Every pair of texts reads.
pub open spec fn all_pairs_read(pairs: Seq<(String, String)>) -> bool {
    forall|i: int|
        0 <= i < pairs.len() ==> fp_of_text((#[trigger] pairs[i]).0@) is Some && fp_of_text(
            pairs[i].1@,
        ) is Some
}

/// The pairs of texts are those of the pairs of elements, one by one.
pub open spec fn are_pairs_read(pairs: Seq<(String, String)>, r: Seq<(Fp, Fp)>) -> bool {
    &&& r.len() == pairs.len()
    &&& forall|i: int|
        0 <= i < pairs.len() ==> {
            &&& fp_of_text((#[trigger] pairs[i]).0@) == Some(r[i].0.view())
            &&& fp_of_text(pairs[i].1@) == Some(r[i].1.view())
            &&& is_plain_decimal(pairs[i].0@) ==> r[i].0.view() == decimal_number(pairs[i].0@)
                % fp_modulus()
            &&& is_plain_decimal(pairs[i].1@) ==> r[i].1.view() == decimal_number(pairs[i].1@)
                % fp_modulus()
        }
}

/// The first pair that does not read, and what is refused of it: the first text
/// before the second.
pub open spec fn pair_refused(
    pairs: Seq<(String, String)>,
    x_name: Argument,
    y_name: Argument,
    e: HostError,
) -> bool {
    exists|i: int|
        {
            &&& 0 <= i < pairs.len()
            &&& all_pairs_read(pairs.take(i))
            &&& if fp_of_text((#[trigger] pairs[i]).0@) is None {
                e == HostError::Decimal(x_name)
            } else {
                fp_of_text(pairs[i].1@) is None && e == HostError::Decimal(y_name)
            }
        }
}

/// The pairs of field elements of pairs of texts; refused when one of them is
/// none.
pub fn parse_points(pairs: &Vec<(String, String)>, x_name: Argument, y_name: Argument) -> (r: Result<
    Vec<(Fp, Fp)>,
    HostError,
>)
    ensures
        r is Ok <==> all_pairs_read(pairs@),
        r matches Ok(v) ==> are_pairs_read(pairs@, v@),
        r matches Err(e) ==> pair_refused(pairs@, x_name, y_name, e),
{
    let mut out: Vec<(Fp, Fp)> = Vec::new();
    let mut i: usize = 0;
    while i < pairs.len()
        invariant
            i <= pairs@.len(),
            out@.len() == i,
            forall|k: int|
                0 <= k < i ==> {
                    &&& fp_of_text((#[trigger] pairs@[k]).0@) == Some(out@[k].0.view())
                    &&& fp_of_text(pairs@[k].1@) == Some(out@[k].1.view())
                    &&& is_plain_decimal(pairs@[k].0@) ==> out@[k].0.view() == decimal_number(
                        pairs@[k].0@,
                    ) % fp_modulus()
                    &&& is_plain_decimal(pairs@[k].1@) ==> out@[k].1.view() == decimal_number(
                        pairs@[k].1@,
                    ) % fp_modulus()
                },
        decreases pairs.len() - i,
    {
        proof {
            assert(all_pairs_read(pairs@.take(i as int))) by {
                assert forall|k: int| 0 <= k < i implies fp_of_text(
                    (#[trigger] pairs@.take(i as int)[k]).0@,
                ) is Some && fp_of_text(pairs@.take(i as int)[k].1@) is Some by {
                    assert(pairs@.take(i as int)[k] == pairs@[k]);
                }
            }
        }
        let x = match parse_fp_decimal(pairs[i].0.as_str(), x_name) {
            Err(e) => {
                assert(fp_of_text(pairs@[i as int].0@) is None);
                return Err(e);
            },
            Ok(x) => x,
        };
        let y = match parse_fp_decimal(pairs[i].1.as_str(), y_name) {
            Err(e) => {
                assert(fp_of_text(pairs@[i as int].0@) is Some);
                return Err(e);
            },
            Ok(y) => y,
        };
        out.push((x, y));
        i = i + 1;
    }
    Ok(out)
}

/// The names under which a point is refused: a row that is no pair, and its two
/// coordinates.
#[derive(Clone, Copy, Debug, PartialEq, Eq, Structural)]
pub struct PointNames {
    pub pair: Argument,
    pub x: Argument,
    pub y: Argument,
}

/// A row is a pair of texts that read.
pub open spec fn is_pair_read(row: Seq<String>) -> bool {
    row.len() == 2 && fp_of_text(row[0]@) is Some && fp_of_text(row[1]@) is Some
}

/// Every row is a pair of texts that read.
pub open spec fn all_rows_are_pairs(rows: Seq<Vec<String>>) -> bool {
    forall|i: int| 0 <= i < rows.len() ==> is_pair_read((#[trigger] rows[i])@)
}

/// The row is the pair of texts of a pair of elements.
pub open spec fn pair_reads(row: Seq<String>, r: (Fp, Fp)) -> bool {
    row.len() == 2 && are_read(row, seq![r.0, r.1])
}

/// The rows are the pairs of texts of the pairs of elements, one by one.
pub open spec fn are_row_pairs_read(rows: Seq<Vec<String>>, r: Seq<(Fp, Fp)>) -> bool {
    &&& r.len() == rows.len()
    &&& forall|i: int| 0 <= i < rows.len() ==> pair_reads((#[trigger] rows[i])@, r[i])
}

/// What is refused of a row: that it is no pair, before its first text, before
/// its second.
pub open spec fn row_refusal(row: Seq<String>, names: PointNames) -> HostError {
    if row.len() != 2 {
        HostError::NotAPair(names.pair)
    } else if fp_of_text(row[0]@) is None {
        HostError::Decimal(names.x)
    } else {
        HostError::Decimal(names.y)
    }
}

/// The first row that is no pair of texts that read, and what is refused of it.
pub open spec fn row_refused(rows: Seq<Vec<String>>, names: PointNames, e: HostError) -> bool {
    exists|i: int|
        {
            &&& 0 <= i < rows.len()
            &&& all_rows_are_pairs(rows.take(i))
            &&& !is_pair_read((#[trigger] rows[i])@)
            &&& e == row_refusal(rows[i]@, names)
        }
}

/// The pairs of field elements of rows of texts; refused when a row is no pair, or
/// one of its texts is no element's.
pub fn parse_row_points(rows: &Vec<Vec<String>>, names: PointNames) -> (r: Result<
    Vec<(Fp, Fp)>,
    HostError,
>)
    ensures
        r is Ok <==> all_rows_are_pairs(rows@),
        r matches Ok(v) ==> are_row_pairs_read(rows@, v@),
        r matches Err(e) ==> row_refused(rows@, names, e),
{
    let mut out: Vec<(Fp, Fp)> = Vec::new();
    let mut i: usize = 0;
    while i < rows.len()
        invariant
            i <= rows@.len(),
            out@.len() == i,
            forall|k: int| 0 <= k < i ==> is_pair_read((#[trigger] rows@[k])@),
            forall|k: int| 0 <= k < i ==> pair_reads((#[trigger] rows@[k])@, out@[k]),
        decreases rows.len() - i,
    {
        let row = &rows[i];
        assert(all_rows_are_pairs(rows@.take(i as int))) by {
            assert forall|k: int| 0 <= k < i implies is_pair_read(
                (#[trigger] rows@.take(i as int)[k])@,
            ) by {
                assert(rows@.take(i as int)[k] == rows@[k]);
            }
        }
        if row.len() != 2 {
            assert(!is_pair_read(rows@[i as int]@));
            return Err(HostError::NotAPair(names.pair));
        }
        let x = match parse_fp_decimal(row[0].as_str(), names.x) {
            Err(e) => {
                assert(!is_pair_read(rows@[i as int]@));
                return Err(e);
            },
            Ok(x) => x,
        };
        let y = match parse_fp_decimal(row[1].as_str(), names.y) {
            Err(e) => {
                assert(!is_pair_read(rows@[i as int]@));
                return Err(e);
            },
            Ok(y) => y,
        };
        assert(pair_reads(row@, (x, y)));
        out.push((x, y));
        i = i + 1;
    }
    Ok(out)
}

/// The bytes of the `i`-th element.
pub open spec fn chunk(bytes: Seq<u8>, i: int) -> Seq<u8> {
    bytes.subrange(FIELD_BYTES * i, FIELD_BYTES * i + FIELD_BYTES)
}

/// Every element's number is reduced.
pub open spec fn all_canonical(bytes: Seq<u8>) -> bool {
    forall|i: int|
        0 <= i < bytes.len() / (FIELD_BYTES as nat) ==> le_value(#[trigger] chunk(bytes, i))
            < fp_modulus()
}

/// The field elements of their little-endian bytes; refused when bytes are left
/// over, or else when a number is not reduced.
pub fn parse_fp_bytes(bytes: &[u8], name: Argument) -> (r: Result<Vec<Fp>, HostError>)
    ensures
        r is Ok <==> bytes@.len() % (FIELD_BYTES as nat) == 0 && all_canonical(bytes@),
        r matches Err(e) ==> e == if bytes@.len() % (FIELD_BYTES as nat) != 0 {
            HostError::ByteLength(name)
        } else {
            HostError::ByteEncoding(name)
        },
        r matches Ok(v) ==> v@.len() == bytes@.len() / (FIELD_BYTES as nat) && forall|i: int|
            0 <= i < v@.len() ==> (#[trigger] v@[i]).view() == le_value(chunk(bytes@, i)),
{
    if bytes.len() % FIELD_BYTES != 0 {
        return Err(HostError::ByteLength(name));
    }
    let len: usize = bytes.len();
    let count: usize = len / FIELD_BYTES;
    let mut out: Vec<Fp> = Vec::new();
    let mut i: usize = 0;
    while i < count
        invariant
            i <= count,
            count * FIELD_BYTES == len,
            len == bytes@.len(),
            count == bytes@.len() / (FIELD_BYTES as nat),
            out@.len() == i,
            forall|k: int| 0 <= k < i ==> le_value(#[trigger] chunk(bytes@, k)) < fp_modulus(),
            forall|k: int|
                0 <= k < i ==> (#[trigger] out@[k]).view() == le_value(chunk(bytes@, k)),
        decreases count - i,
    {
        let part = vstd::slice::slice_subrange(bytes, i * FIELD_BYTES, i * FIELD_BYTES + FIELD_BYTES);
        assert(part@ =~= chunk(bytes@, i as int));
        match ark_fp_from_bytes(part) {
            None => {
                return Err(HostError::ByteEncoding(name));
            },
            Some(limbs) => {
                out.push(Fp::from_limbs(limbs).unwrap());
            },
        }
        i = i + 1;
    }
    Ok(out)
}

/// The texts are the decimals of the elements, one by one.
pub open spec fn are_decimals<F: PrimeField>(texts: Seq<String>, values: Seq<F>) -> bool {
    &&& texts.len() == values.len()
    &&& forall|i: int|
        0 <= i < values.len() ==> (#[trigger] texts[i])@ == decimal_chars(values[i].view() as nat)
}

/// The decimals of elements.
pub fn decimals<F: PrimeField>(values: &Vec<F>) -> (r: Vec<String>)
    ensures
        are_decimals(r@, values@),
{
    let mut out: Vec<String> = Vec::new();
    let mut i: usize = 0;
    while i < values.len()
        invariant
            i <= values@.len(),
            out@.len() == i,
            forall|k: int|
                0 <= k < i ==> (#[trigger] out@[k])@ == decimal_chars(values@[k].view() as nat),
        decreases values.len() - i,
    {
        out.push(field_to_decimal(&values[i]));
        i = i + 1;
    }
    out
}

/// The pairs of texts are the decimals of the pairs of elements, one by one.
pub open spec fn are_decimal_pairs(texts: Seq<(String, String)>, values: Seq<(Fp, Fp)>) -> bool {
    &&& texts.len() == values.len()
    &&& forall|i: int|
        0 <= i < values.len() ==> (#[trigger] texts[i]).0@ == decimal_chars(
            values[i].0.view() as nat,
        ) && texts[i].1@ == decimal_chars(values[i].1.view() as nat)
}

/// The decimals of pairs of elements.
pub fn decimal_pairs(values: &Vec<(Fp, Fp)>) -> (r: Vec<(String, String)>)
    ensures
        are_decimal_pairs(r@, values@),
{
    let mut out: Vec<(String, String)> = Vec::new();
    let mut i: usize = 0;
    while i < values.len()
        invariant
            i <= values@.len(),
            out@.len() == i,
            forall|k: int|
                0 <= k < i ==> (#[trigger] out@[k]).0@ == decimal_chars(
                    values@[k].0.view() as nat,
                ) && out@[k].1@ == decimal_chars(values@[k].1.view() as nat),
        decreases values.len() - i,
    {
        let (x, y) = values[i];
        out.push((field_to_decimal(&x), field_to_decimal(&y)));
        i = i + 1;
    }
    out
}

/// The rows of texts are the decimals of the rows of elements, one by one.
pub open spec fn are_decimal_rows(texts: Seq<Vec<String>>, values: Seq<Vec<Fp>>) -> bool {
    &&& texts.len() == values.len()
    &&& forall|i: int| 0 <= i < values.len() ==> are_decimals((#[trigger] texts[i])@, values[i]@)
}

/// The decimals of rows of elements.
pub fn decimal_rows(values: &Vec<Vec<Fp>>) -> (r: Vec<Vec<String>>)
    ensures
        are_decimal_rows(r@, values@),
{
    let mut out: Vec<Vec<String>> = Vec::new();
    let mut i: usize = 0;
    while i < values.len()
        invariant
            i <= values@.len(),
            out@.len() == i,
            forall|k: int| 0 <= k < i ==> are_decimals((#[trigger] out@[k])@, values@[k]@),
        decreases values.len() - i,
    {
        out.push(decimals(&values[i]));
        i = i + 1;
    }
    out
}

/// The decimals of elements are not refused, and read back as those elements.
pub proof fn decimals_read_back(texts: Seq<String>, values: Seq<Fp>, read: Seq<Fp>)
    requires
        are_decimals(texts, values),
    ensures
        !some_not_plain(texts),
        are_read(texts, read) ==> read.len() == values.len() && forall|i: int|
            0 <= i < values.len() ==> (#[trigger] read[i]).view() == values[i].view(),
{
    assert forall|i: int| 0 <= i < values.len() implies is_plain_decimal((#[trigger] texts[i])@)
        && (are_read(texts, read) ==> read[i].view() == values[i].view()) by {
        let n = values[i].view() as nat;
        Fp::lemma_canonical(values[i]);
        lemma_decimal_is_plain(n);
        assert(texts[i]@ == decimal_chars(n));
        vstd::arithmetic::div_mod::lemma_small_mod(n, fp_modulus() as nat);
    }
    if are_read(texts, read) {
        assert forall|i: int| 0 <= i < values.len() implies (#[trigger] read[i]).view()
            == values[i].view() by {
            assert(is_plain_decimal(texts[i]@));
        }
    }
}

/// The envelope of a proof that verifies no other.
pub struct BaseEnvelope {
    pub app_state: Vec<String>,
    pub proof: O1jsWrapProofJson,
}

/// The envelope of a proof that verifies one other: also what its verifier
/// needs of the other.
pub struct N1Envelope {
    pub app_state: Vec<String>,
    pub proof: O1jsWrapProofJson,
    pub challenge_polynomial_commitment: (String, String),
    pub old_bulletproof_challenges: Vec<String>,
    pub dlog_plonk_index: Vec<(String, String)>,
    pub stable_cycles: Option<usize>,
}

/// The envelope of a proof that verifies two others.
pub struct N2Envelope {
    pub app_state: Vec<String>,
    pub proof: O1jsWrapProofJson,
    pub challenge_polynomial_commitments: Vec<(String, String)>,
    pub old_bulletproof_challenges: Vec<Vec<String>>,
    pub dlog_plonk_index: Vec<(String, String)>,
}

/// The base envelope holds the state and the proof.
pub open spec fn is_base_envelope(e: BaseEnvelope, app_state: Seq<Fp>, proof: MinaWrapProof) -> bool {
    &&& are_decimals(e.app_state@, app_state)
    &&& is_envelope(proof, e.proof)
}

/// The envelope of a proof that verifies no other.
pub fn rust_pickles_recorded_base_envelope(app_state: &Vec<Fp>, proof: &MinaWrapProof) -> (r: BaseEnvelope)
    ensures
        is_base_envelope(r, app_state@, *proof),
{
    BaseEnvelope { app_state: decimals(app_state), proof: proof.to_o1js_json_value() }
}

/// The envelope holds the state, the proof and the messages.
pub open spec fn is_n1_envelope(
    e: N1Envelope,
    app_state: Seq<Fp>,
    proof: MinaWrapProof,
    commitment: (Fp, Fp),
    challenges: Seq<Fp>,
    index: Seq<(Fp, Fp)>,
    stable_cycles: Option<usize>,
) -> bool {
    &&& are_decimals(e.app_state@, app_state)
    &&& is_envelope(proof, e.proof)
    &&& e.challenge_polynomial_commitment.0@ == decimal_chars(commitment.0.view() as nat)
    &&& e.challenge_polynomial_commitment.1@ == decimal_chars(commitment.1.view() as nat)
    &&& are_decimals(e.old_bulletproof_challenges@, challenges)
    &&& are_decimal_pairs(e.dlog_plonk_index@, index)
    &&& e.stable_cycles == stable_cycles
}

/// The envelope of a proof that verifies one other; a stable loop also gives its
/// number of cycles.
pub fn recorded_n1_envelope(
    app_state: &Vec<Fp>,
    proof: &MinaWrapProof,
    challenge_polynomial_commitment: &(Fp, Fp),
    old_bulletproof_challenges: &Vec<Fp>,
    dlog_plonk_index: &Vec<(Fp, Fp)>,
    stable_cycles: Option<usize>,
) -> (r: N1Envelope)
    ensures
        is_n1_envelope(
            r,
            app_state@,
            *proof,
            *challenge_polynomial_commitment,
            old_bulletproof_challenges@,
            dlog_plonk_index@,
            stable_cycles,
        ),
{
    N1Envelope {
        app_state: decimals(app_state),
        proof: proof.to_o1js_json_value(),
        challenge_polynomial_commitment: (
            field_to_decimal(&challenge_polynomial_commitment.0),
            field_to_decimal(&challenge_polynomial_commitment.1),
        ),
        old_bulletproof_challenges: decimals(old_bulletproof_challenges),
        dlog_plonk_index: decimal_pairs(dlog_plonk_index),
        stable_cycles,
    }
}

/// The envelope holds the state, the proof and the messages.
pub open spec fn is_n2_envelope(
    e: N2Envelope,
    app_state: Seq<Fp>,
    proof: MinaWrapProof,
    commitments: Seq<(Fp, Fp)>,
    challenges: Seq<Vec<Fp>>,
    index: Seq<(Fp, Fp)>,
) -> bool {
    &&& are_decimals(e.app_state@, app_state)
    &&& is_envelope(proof, e.proof)
    &&& are_decimal_pairs(e.challenge_polynomial_commitments@, commitments)
    &&& are_decimal_rows(e.old_bulletproof_challenges@, challenges)
    &&& are_decimal_pairs(e.dlog_plonk_index@, index)
}

/// The envelope of a proof that verifies two others.
pub fn recorded_n2_envelope(
    app_state: &Vec<Fp>,
    proof: &MinaWrapProof,
    challenge_polynomial_commitments: &Vec<(Fp, Fp)>,
    old_bulletproof_challenges: &Vec<Vec<Fp>>,
    dlog_plonk_index: &Vec<(Fp, Fp)>,
) -> (r: N2Envelope)
    ensures
        is_n2_envelope(
            r,
            app_state@,
            *proof,
            challenge_polynomial_commitments@,
            old_bulletproof_challenges@,
            dlog_plonk_index@,
        ),
{
    N2Envelope {
        app_state: decimals(app_state),
        proof: proof.to_o1js_json_value(),
        challenge_polynomial_commitments: decimal_pairs(challenge_polynomial_commitments),
        old_bulletproof_challenges: decimal_rows(old_bulletproof_challenges),
        dlog_plonk_index: decimal_pairs(dlog_plonk_index),
    }
}

/// What a program's proof keeps of the proofs it verified.
pub struct ProgramMessages {
    pub accumulators: Vec<(Fp, Fp)>,
    pub challenges: Vec<Vec<Fp>>,
    pub dlog_plonk_index: Vec<(Fp, Fp)>,
}

/// The envelope of a program's proof over its first accumulator and challenges.
pub fn rust_pickles_recorded_program_n1_envelope(
    messages: &Option<ProgramMessages>,
    app_state: &Vec<Fp>,
    proof: &MinaWrapProof,
) -> (r: Result<N1Envelope, HostError>)
    ensures
        match *messages {
            None => r == Err::<N1Envelope, HostError>(HostError::NotAProgramProof),
            Some(m) => if m.accumulators@.len() == 0 {
                r == Err::<N1Envelope, HostError>(HostError::NoAccumulator)
            } else if m.challenges@.len() == 0 {
                r == Err::<N1Envelope, HostError>(HostError::NoChallenges)
            } else {
                r is Ok && is_n1_envelope(
                    r->Ok_0,
                    app_state@,
                    *proof,
                    m.accumulators@[0],
                    m.challenges@[0]@,
                    m.dlog_plonk_index@,
                    None,
                )
            },
        },
{
    match messages {
        None => Err(HostError::NotAProgramProof),
        Some(m) => {
            if m.accumulators.len() == 0 {
                return Err(HostError::NoAccumulator);
            }
            if m.challenges.len() == 0 {
                return Err(HostError::NoChallenges);
            }
            Ok(
                recorded_n1_envelope(
                    app_state,
                    proof,
                    &m.accumulators[0],
                    &m.challenges[0],
                    &m.dlog_plonk_index,
                    None,
                ),
            )
        },
    }
}

/// The envelope of a program's proof over exactly two accumulators and challenge
/// vectors.
pub fn rust_pickles_recorded_program_n2_envelope(
    messages: &Option<ProgramMessages>,
    app_state: &Vec<Fp>,
    proof: &MinaWrapProof,
) -> (r: Result<N2Envelope, HostError>)
    ensures
        match *messages {
            None => r == Err::<N2Envelope, HostError>(HostError::NotAProgramProof),
            Some(m) => if m.accumulators@.len() != 2 || m.challenges@.len() != 2 {
                r == Err::<N2Envelope, HostError>(HostError::NotTwoAccumulators)
            } else {
                r is Ok && is_n2_envelope(
                    r->Ok_0,
                    app_state@,
                    *proof,
                    m.accumulators@,
                    m.challenges@,
                    m.dlog_plonk_index@,
                )
            },
        },
{
    match messages {
        None => Err(HostError::NotAProgramProof),
        Some(m) => {
            if m.accumulators.len() != 2 || m.challenges.len() != 2 {
                return Err(HostError::NotTwoAccumulators);
            }
            Ok(
                recorded_n2_envelope(
                    app_state,
                    proof,
                    &m.accumulators,
                    &m.challenges,
                    &m.dlog_plonk_index,
                ),
            )
        },
    }
}

/// Why a side-loaded proof does not verify.
#[derive(Clone, Copy, Debug, PartialEq, Eq, Structural)]
pub enum StandaloneVerifyError {
    /// The key does not decode.
    VerificationKey,
    /// The wire proof does not decode.
    ProofDecoding,
    /// Any other check fails.
    Rejected,
}

/// The answer to a verification: what cannot be decoded is refused, what fails a
/// check is not verified.
pub open spec fn answer(outcome: Result<(), StandaloneVerifyError>) -> Result<bool, HostError> {
    match outcome {
        Ok(_) => Ok(true),
        Err(StandaloneVerifyError::VerificationKey) => Err(HostError::VerificationKey),
        Err(StandaloneVerifyError::ProofDecoding) => Err(HostError::WireProof),
        Err(StandaloneVerifyError::Rejected) => Ok(false),
    }
}

/// The answer to a verification.
pub fn verification_answer(outcome: Result<(), StandaloneVerifyError>) -> (r: Result<bool, HostError>)
    ensures
        r == answer(outcome),
{
    match outcome {
        Ok(_) => Ok(true),
        Err(StandaloneVerifyError::VerificationKey) => Err(HostError::VerificationKey),
        Err(StandaloneVerifyError::ProofDecoding) => Err(HostError::WireProof),
        Err(StandaloneVerifyError::Rejected) => Ok(false),
    }
}

/// The arguments of a side-loaded verification as texts. A list that is none was
/// not the JSON of one.
pub struct SideLoadedArguments {
    pub app_state: Vec<String>,
    /// The key's commitments, where they are given apart from the proof.
    pub dlog_plonk_index: Option<Option<Vec<(String, String)>>>,
    pub challenge_polynomial_commitments: Option<Vec<(String, String)>>,
    pub old_bulletproof_challenges: Option<Vec<Vec<String>>>,
    pub proof: Option<O1jsWrapProofJson>,
}

/// The arguments of a side-loaded verification.
pub struct SideLoadedInputs {
    pub app_state: Vec<Fp>,
    pub dlog_plonk_index: Option<Vec<(Fp, Fp)>>,
    pub challenge_polynomial_commitments: Vec<(Fp, Fp)>,
    pub old_bulletproof_challenges: Vec<Vec<Fp>>,
    pub proof: MinaWrapProof,
}

/// The names under which the coordinates of the commitments are refused.
pub open spec fn commitment_names(a: SideLoadedArguments) -> (Argument, Argument) {
    if a.dlog_plonk_index is Some {
        (Argument::ChallengePolynomialCommitments, Argument::ChallengePolynomialCommitments)
    } else {
        (Argument::CommitmentX, Argument::CommitmentY)
    }
}

/// What reading the arguments gives: they are looked at in order, and the first
/// that does not read is refused.
pub open spec fn arguments_read(
    a: SideLoadedArguments,
    r: Result<SideLoadedInputs, HostError>,
) -> bool {
    let index = a.dlog_plonk_index;
    let (x_name, y_name) = commitment_names(a);
    if !all_read(a.app_state@) {
        r == Err::<SideLoadedInputs, HostError>(HostError::Decimal(Argument::AppState))
    } else if index == Some(None::<Vec<(String, String)>>) {
        r == Err::<SideLoadedInputs, HostError>(HostError::Json(Argument::DlogPlonkIndex))
    } else if index is Some && !all_pairs_read(index->0->0@) {
        r == Err::<SideLoadedInputs, HostError>(HostError::Decimal(Argument::DlogPlonkIndex))
    } else if a.challenge_polynomial_commitments is None {
        r == Err::<SideLoadedInputs, HostError>(
            HostError::Json(Argument::ChallengePolynomialCommitments),
        )
    } else if !all_pairs_read(a.challenge_polynomial_commitments->0@) {
        r is Err && pair_refused(
            a.challenge_polynomial_commitments->0@,
            x_name,
            y_name,
            r->Err_0,
        )
    } else if a.old_bulletproof_challenges is None {
        r == Err::<SideLoadedInputs, HostError>(
            HostError::Json(Argument::OldBulletproofChallenges),
        )
    } else if !all_rows_read(a.old_bulletproof_challenges->0@) {
        r == Err::<SideLoadedInputs, HostError>(
            HostError::Decimal(Argument::OldBulletproofChallenges),
        )
    } else if a.proof is None {
        r == Err::<SideLoadedInputs, HostError>(
            HostError::Proof(BaseCaseBackendError::O1jsJsonSerialization),
        )
    } else {
        match r {
            Err(HostError::Proof(e)) => is_read(
                a.proof->0,
                Err::<MinaWrapProof, BaseCaseBackendError>(e),
            ),
            Err(_) => false,
            Ok(i) => {
                &&& are_read(a.app_state@, i.app_state@)
                &&& i.dlog_plonk_index is Some <==> index is Some
                &&& index is Some ==> are_pairs_read(index->0->0@, i.dlog_plonk_index->0@)
                &&& are_pairs_read(
                    a.challenge_polynomial_commitments->0@,
                    i.challenge_polynomial_commitments@,
                )
                &&& are_rows_read(
                    a.old_bulletproof_challenges->0@,
                    i.old_bulletproof_challenges@,
                )
                &&& is_read(
                    a.proof->0,
                    Ok::<MinaWrapProof, BaseCaseBackendError>(i.proof),
                )
            },
        }
    }
}

/// Reads the arguments of a side-loaded verification.
pub fn read_side_loaded(arguments: SideLoadedArguments) -> (r: Result<SideLoadedInputs, HostError>)
    ensures
        arguments_read(arguments, r),
{
    let app_state = match parse_fp_decimals(&arguments.app_state, Argument::AppState) {
        Err(e) => {
            return Err(e);
        },
        Ok(v) => v,
    };
    let name = Argument::DlogPlonkIndex;
    let dlog_plonk_index = match &arguments.dlog_plonk_index {
        None => None,
        Some(None) => {
            return Err(HostError::Json(name));
        },
        Some(Some(pairs)) => match parse_points(pairs, name, name) {
            Err(e) => {
                return Err(e);
            },
            Ok(v) => Some(v),
        },
    };
    let (x_name, y_name) = if arguments.dlog_plonk_index.is_some() {
        (Argument::ChallengePolynomialCommitments, Argument::ChallengePolynomialCommitments)
    } else {
        (Argument::CommitmentX, Argument::CommitmentY)
    };
    let challenge_polynomial_commitments = match &arguments.challenge_polynomial_commitments {
        None => {
            return Err(HostError::Json(Argument::ChallengePolynomialCommitments));
        },
        Some(pairs) => match parse_points(pairs, x_name, y_name) {
            Err(e) => {
                return Err(e);
            },
            Ok(v) => v,
        },
    };
    let old_bulletproof_challenges = match &arguments.old_bulletproof_challenges {
        None => {
            return Err(HostError::Json(Argument::OldBulletproofChallenges));
        },
        Some(rows) => match parse_fp_rows(rows, Argument::OldBulletproofChallenges) {
            Err(e) => {
                return Err(e);
            },
            Ok(v) => v,
        },
    };
    let envelope = arguments.proof;
    let wrap_proof = match envelope {
        None => {
            return Err(HostError::Proof(BaseCaseBackendError::O1jsJsonSerialization));
        },
        Some(json) => match MinaWrapProof::from_o1js_json_value(json) {
            Err(e) => {
                return Err(HostError::Proof(e));
            },
            Ok(read) => read,
        },
    };
    Ok(
        SideLoadedInputs {
            app_state,
            dlog_plonk_index,
            challenge_polynomial_commitments,
            old_bulletproof_challenges,
            proof: wrap_proof,
        },
    )
}

/// Verifies a side-loaded proof: reads the arguments, hands them to `verify` and
/// answers by its outcome. What does not read is refused before `verify` is
/// called.
pub fn rust_pickles_verify_side_loaded<V: Fn(&SideLoadedInputs) -> Result<(), StandaloneVerifyError>>(
    arguments: SideLoadedArguments,
    verify: &V,
) -> (r: Result<bool, HostError>)
    requires
        forall|i: SideLoadedInputs| call_requires(*verify, (&i,)),
    ensures
        exists|read: Result<SideLoadedInputs, HostError>|
            {
                &&& #[trigger] arguments_read(arguments, read)
                &&& match read {
                    Err(e) => r == Err::<bool, HostError>(e),
                    Ok(i) => exists|outcome: Result<(), StandaloneVerifyError>|
                        #[trigger] call_ensures(*verify, (&i,), outcome) && r == answer(outcome),
                }
            },
{
    let ghost read: Result<SideLoadedInputs, HostError>;
    match read_side_loaded(arguments) {
        Err(e) => {
            proof {
                read = Err(e);
                assert(arguments_read(arguments, read));
            }
            Err(e)
        },
        Ok(inputs) => {
            proof {
                read = Ok(inputs);
                assert(arguments_read(arguments, read));
            }
            let outcome = verify(&inputs);
            verification_answer(outcome)
        },
    }
}

/// The arguments of a side-loaded verification as rows of texts.
pub struct SideLoadedRows {
    pub app_state: Vec<String>,
    /// The key's commitments, where they are given apart from the proof.
    pub dlog_plonk_index: Option<Vec<Vec<String>>>,
    pub challenge_polynomial_commitments: Vec<Vec<String>>,
    pub old_bulletproof_challenges: Vec<Vec<String>>,
    /// None when the text was not the JSON of an envelope.
    pub proof: Option<O1jsWrapProofJson>,
}

/// The names under which the key's commitments are refused.
pub open spec fn index_row_names() -> PointNames {
    PointNames {
        pair: Argument::DlogPlonkIndex,
        x: Argument::DlogPlonkIndex,
        y: Argument::DlogPlonkIndex,
    }
}

/// The names under which the rows of the commitments are refused.
pub open spec fn commitment_row_names(a: SideLoadedRows) -> PointNames {
    PointNames {
        pair: Argument::ChallengePolynomialCommitments,
        x: if a.dlog_plonk_index is Some {
            Argument::ChallengePolynomialCommitments
        } else {
            Argument::CommitmentX
        },
        y: if a.dlog_plonk_index is Some {
            Argument::ChallengePolynomialCommitments
        } else {
            Argument::CommitmentY
        },
    }
}

/// What reading rows gives: they are looked at in order, and the first that does
/// not read is refused.
pub open spec fn rows_read(a: SideLoadedRows, r: Result<SideLoadedInputs, HostError>) -> bool {
    let index = a.dlog_plonk_index;
    let commitments = a.challenge_polynomial_commitments@;
    if !all_read(a.app_state@) {
        r == Err::<SideLoadedInputs, HostError>(HostError::Decimal(Argument::AppState))
    } else if index is Some && !all_rows_are_pairs(index->0@) {
        r is Err && row_refused(index->0@, index_row_names(), r->Err_0)
    } else if !all_rows_are_pairs(commitments) {
        r is Err && row_refused(commitments, commitment_row_names(a), r->Err_0)
    } else if !all_rows_read(a.old_bulletproof_challenges@) {
        r == Err::<SideLoadedInputs, HostError>(
            HostError::Decimal(Argument::OldBulletproofChallenges),
        )
    } else if a.proof is None {
        r == Err::<SideLoadedInputs, HostError>(
            HostError::Proof(BaseCaseBackendError::O1jsJsonSerialization),
        )
    } else {
        match r {
            Err(HostError::Proof(e)) => is_read(
                a.proof->0,
                Err::<MinaWrapProof, BaseCaseBackendError>(e),
            ),
            Err(_) => false,
            Ok(i) => {
                &&& are_read(a.app_state@, i.app_state@)
                &&& i.dlog_plonk_index is Some <==> index is Some
                &&& index is Some ==> are_row_pairs_read(index->0@, i.dlog_plonk_index->0@)
                &&& are_row_pairs_read(commitments, i.challenge_polynomial_commitments@)
                &&& are_rows_read(
                    a.old_bulletproof_challenges@,
                    i.old_bulletproof_challenges@,
                )
                &&& is_read(
                    a.proof->0,
                    Ok::<MinaWrapProof, BaseCaseBackendError>(i.proof),
                )
            },
        }
    }
}

/// Reads the arguments of a side-loaded verification from rows of texts.
pub fn read_side_loaded_rows(arguments: SideLoadedRows) -> (r: Result<SideLoadedInputs, HostError>)
    ensures
        rows_read(arguments, r),
{
    let app_state = match parse_fp_decimals(&arguments.app_state, Argument::AppState) {
        Err(e) => {
            return Err(e);
        },
        Ok(v) => v,
    };
    let name = Argument::DlogPlonkIndex;
    let dlog_plonk_index = match &arguments.dlog_plonk_index {
        None => None,
        Some(rows) => match parse_row_points(rows, PointNames { pair: name, x: name, y: name }) {
            Err(e) => {
                return Err(e);
            },
            Ok(v) => Some(v),
        },
    };
    let name = Argument::ChallengePolynomialCommitments;
    let names = if arguments.dlog_plonk_index.is_some() {
        PointNames { pair: name, x: name, y: name }
    } else {
        PointNames { pair: name, x: Argument::CommitmentX, y: Argument::CommitmentY }
    };
    let challenge_polynomial_commitments = match parse_row_points(
        &arguments.challenge_polynomial_commitments,
        names,
    ) {
        Err(e) => {
            return Err(e);
        },
        Ok(v) => v,
    };
    let old_bulletproof_challenges = match parse_fp_rows(
        &arguments.old_bulletproof_challenges,
        Argument::OldBulletproofChallenges,
    ) {
        Err(e) => {
            return Err(e);
        },
        Ok(v) => v,
    };
    let envelope = arguments.proof;
    let wrap_proof = match envelope {
        None => {
            return Err(HostError::Proof(BaseCaseBackendError::O1jsJsonSerialization));
        },
        Some(json) => match MinaWrapProof::from_o1js_json_value(json) {
            Err(e) => {
                return Err(HostError::Proof(e));
            },
            Ok(read) => read,
        },
    };
    Ok(
        SideLoadedInputs {
            app_state,
            dlog_plonk_index,
            challenge_polynomial_commitments,
            old_bulletproof_challenges,
            proof: wrap_proof,
        },
    )
}

/// Verifies a side-loaded proof whose points come as rows of texts: reads the
/// arguments, hands them to `verify` and answers by its outcome. What does not
/// read is refused before `verify` is called.
pub fn verify_side_loaded_rows<V: Fn(&SideLoadedInputs) -> Result<(), StandaloneVerifyError>>(
    arguments: SideLoadedRows,
    verify: &V,
) -> (r: Result<bool, HostError>)
    requires
        forall|i: SideLoadedInputs| call_requires(*verify, (&i,)),
    ensures
        exists|read: Result<SideLoadedInputs, HostError>|
            {
                &&& #[trigger] rows_read(arguments, read)
                &&& match read {
                    Err(e) => r == Err::<bool, HostError>(e),
                    Ok(i) => exists|outcome: Result<(), StandaloneVerifyError>|
                        #[trigger] call_ensures(*verify, (&i,), outcome) && r == answer(outcome),
                }
            },
{
    let ghost read: Result<SideLoadedInputs, HostError>;
    match read_side_loaded_rows(arguments) {
        Err(e) => {
            proof {
                read = Err(e);
                assert(rows_read(arguments, read));
            }
            Err(e)
        },
        Ok(inputs) => {
            proof {
                read = Ok(inputs);
                assert(rows_read(arguments, read));
            }
            let outcome = verify(&inputs);
            verification_answer(outcome)
        },
    }
}

/// A proof that verifies one other, with its messages.
pub struct RecordedN1Proof {
    pub app_state: Vec<Fp>,
    pub proof: MinaWrapProof,
    pub challenge_polynomial_commitment: (Fp, Fp),
    pub old_bulletproof_challenges: Vec<Fp>,
    pub dlog_plonk_index: Vec<(Fp, Fp)>,
}

/// The envelope of a kept proof; refused when the proof verifies no other.
pub fn rust_pickles_recorded_n1_envelope(kept: &Option<RecordedN1Proof>) -> (r: Result<N1Envelope, HostError>)
    ensures
        match *kept {
            None => r == Err::<N1Envelope, HostError>(HostError::NotRecursive),
            Some(p) => r is Ok && is_n1_envelope(
                r->Ok_0,
                p.app_state@,
                p.proof,
                p.challenge_polynomial_commitment,
                p.old_bulletproof_challenges@,
                p.dlog_plonk_index@,
                None,
            ),
        },
{
    match kept {
        None => Err(HostError::NotRecursive),
        Some(p) => Ok(
            recorded_n1_envelope(
                &p.app_state,
                &p.proof,
                &p.challenge_polynomial_commitment,
                &p.old_bulletproof_challenges,
                &p.dlog_plonk_index,
                None,
            ),
        ),
    }
}

/// The step at which compiling a branch fails.
#[derive(Clone, Copy, Debug, PartialEq, Eq, Structural)]
pub enum CompileStep {
    Base,
    DonorTemplate,
    N1,
    N2,
}

/// What compiling a branch gives: always the base; a donor template when the
/// branch verifies proofs, and over it the recursive circuit for one or for two
/// of them. The first step that fails is returned.
pub open spec fn branch_compiled<
    C,
    B,
    H,
    M,
    N,
    E,
    CB: Fn(&C, &Vec<Fp>) -> Result<B, E>,
    CH: Fn(&B, &Vec<Fp>) -> Result<H, E>,
    CM: Fn(&H, &C, &Vec<Fp>) -> Result<M, E>,
    CN: Fn(&H, &H, &C, &Vec<Fp>) -> Result<N, E>,
>(
    branch: RecordedProgramBranch<C>,
    base: CB,
    donor: CH,
    n1: CM,
    n2: CN,
    r: Result<(B, Option<M>, Option<N>), (CompileStep, E)>,
) -> bool {
    let c = &branch.circuit;
    let w = &branch.witness;
    let width = branch.proofs_verified;
    match r {
        Err((CompileStep::Base, e)) => call_ensures(base, (c, w), Err::<B, E>(e)),
        Err((CompileStep::DonorTemplate, e)) => width > 0 && exists|b: B|
            #[trigger] call_ensures(base, (c, w), Ok::<B, E>(b)) && call_ensures(
                donor,
                (&b, w),
                Err::<H, E>(e),
            ),
        Err((CompileStep::N1, e)) => width == 1 && exists|b: B, h: H|
            call_ensures(base, (c, w), Ok::<B, E>(b)) && #[trigger] call_ensures(
                donor,
                (&b, w),
                Ok::<H, E>(h),
            ) && call_ensures(n1, (&h, c, w), Err::<M, E>(e)),
        Err((CompileStep::N2, e)) => width == 2 && exists|b: B, h: H|
            call_ensures(base, (c, w), Ok::<B, E>(b)) && #[trigger] call_ensures(
                donor,
                (&b, w),
                Ok::<H, E>(h),
            ) && call_ensures(n2, (&h, &h, c, w), Err::<N, E>(e)),
        Ok((b, m, n)) => {
            &&& call_ensures(base, (c, w), Ok::<B, E>(b))
            &&& width > 0 ==> exists|h: H|
                {
                    &&& #[trigger] call_ensures(donor, (&b, w), Ok::<H, E>(h))
                    &&& width == 1 ==> m is Some && call_ensures(
                        n1,
                        (&h, c, w),
                        Ok::<M, E>(m->0),
                    )
                    &&& width == 2 ==> n is Some && call_ensures(
                        n2,
                        (&h, &h, c, w),
                        Ok::<N, E>(n->0),
                    )
                }
            &&& width != 1 ==> m is None
            &&& width != 2 ==> n is None
        },
    }
}

/// Compiles one branch of a program.
pub fn compile_branch<
    C,
    B,
    H,
    M,
    N,
    E,
    CB: Fn(&C, &Vec<Fp>) -> Result<B, E>,
    CH: Fn(&B, &Vec<Fp>) -> Result<H, E>,
    CM: Fn(&H, &C, &Vec<Fp>) -> Result<M, E>,
    CN: Fn(&H, &H, &C, &Vec<Fp>) -> Result<N, E>,
>(branch: &RecordedProgramBranch<C>, base: &CB, donor: &CH, n1: &CM, n2: &CN) -> (r: Result<
    (B, Option<M>, Option<N>),
    (CompileStep, E),
>)
    requires
        forall|c: C, w: Vec<Fp>| call_requires(*base, (&c, &w)),
        forall|b: B, w: Vec<Fp>| call_requires(*donor, (&b, &w)),
        forall|h: H, c: C, w: Vec<Fp>| call_requires(*n1, (&h, &c, &w)),
        forall|h: H, c: C, w: Vec<Fp>| call_requires(*n2, (&h, &h, &c, &w)),
    ensures
        branch_compiled(*branch, *base, *donor, *n1, *n2, r),
{
    let c = &branch.circuit;
    let w = &branch.witness;
    let b = match base(c, w) {
        Err(e) => {
            return Err((CompileStep::Base, e));
        },
        Ok(b) => b,
    };
    if branch.proofs_verified == 0 {
        return Ok((b, None, None));
    }
    let h = match donor(&b, w) {
        Err(e) => {
            return Err((CompileStep::DonorTemplate, e));
        },
        Ok(h) => h,
    };
    assert(call_ensures(*donor, (&b, w), Ok::<H, E>(h)));
    if branch.proofs_verified == 1 {
        match n1(&h, c, w) {
            Err(e) => {
                assert(call_ensures(*n1, (&h, c, w), Err::<M, E>(e)));
                Err((CompileStep::N1, e))
            },
            Ok(m) => {
                assert(call_ensures(*n1, (&h, c, w), Ok::<M, E>(m)));
                Ok((b, Some(m), None))
            },
        }
    } else if branch.proofs_verified == 2 {
        match n2(&h, &h, c, w) {
            Err(e) => {
                assert(call_ensures(*n2, (&h, &h, c, w), Err::<N, E>(e)));
                Err((CompileStep::N2, e))
            },
            Ok(n) => {
                assert(call_ensures(*n2, (&h, &h, c, w), Ok::<N, E>(n)));
                Ok((b, None, Some(n)))
            },
        }
    } else {
        Ok((b, None, None))
    }
}

/// The branch compiles.
pub open spec fn branch_succeeds<
    C,
    B,
    H,
    M,
    N,
    E,
    CB: Fn(&C, &Vec<Fp>) -> Result<B, E>,
    CH: Fn(&B, &Vec<Fp>) -> Result<H, E>,
    CM: Fn(&H, &C, &Vec<Fp>) -> Result<M, E>,
    CN: Fn(&H, &H, &C, &Vec<Fp>) -> Result<N, E>,
>(branch: RecordedProgramBranch<C>, base: CB, donor: CH, n1: CM, n2: CN) -> bool {
    exists|compiled: (B, Option<M>, Option<N>)|
        #[trigger] branch_compiled(
            branch,
            base,
            donor,
            n1,
            n2,
            Ok::<(B, Option<M>, Option<N>), (CompileStep, E)>(compiled),
        )
}

/// Compiles every branch of a program, in order. The first branch that fails is
/// returned.
pub fn compile_branches<
    C,
    B,
    H,
    M,
    N,
    E,
    CB: Fn(&C, &Vec<Fp>) -> Result<B, E>,
    CH: Fn(&B, &Vec<Fp>) -> Result<H, E>,
    CM: Fn(&H, &C, &Vec<Fp>) -> Result<M, E>,
    CN: Fn(&H, &H, &C, &Vec<Fp>) -> Result<N, E>,
>(branches: &Vec<RecordedProgramBranch<C>>, base: &CB, donor: &CH, n1: &CM, n2: &CN) -> (r: Result<
    Vec<(B, Option<M>, Option<N>)>,
    (usize, CompileStep, E),
>)
    requires
        forall|c: C, w: Vec<Fp>| call_requires(*base, (&c, &w)),
        forall|b: B, w: Vec<Fp>| call_requires(*donor, (&b, &w)),
        forall|h: H, c: C, w: Vec<Fp>| call_requires(*n1, (&h, &c, &w)),
        forall|h: H, c: C, w: Vec<Fp>| call_requires(*n2, (&h, &h, &c, &w)),
    ensures
        r matches Ok(out) ==> out@.len() == branches@.len() && forall|i: int|
            0 <= i < out@.len() ==> branch_compiled(
                branches@[i],
                *base,
                *donor,
                *n1,
                *n2,
                Ok::<(B, Option<M>, Option<N>), (CompileStep, E)>(#[trigger] out@[i]),
            ),
        r matches Err((i, step, e)) ==> i < branches@.len() && branch_compiled(
            branches@[i as int],
            *base,
            *donor,
            *n1,
            *n2,
            Err::<(B, Option<M>, Option<N>), (CompileStep, E)>((step, e)),
        ),
        r matches Err((i, step, e)) ==> forall|k: int|
            0 <= k < i ==> branch_succeeds(#[trigger] branches@[k], *base, *donor, *n1, *n2),
{
    let mut out: Vec<(B, Option<M>, Option<N>)> = Vec::new();
    let mut i: usize = 0;
    while i < branches.len()
        invariant
            i <= branches@.len(),
            out@.len() == i,
            forall|c: C, w: Vec<Fp>| call_requires(*base, (&c, &w)),
            forall|b: B, w: Vec<Fp>| call_requires(*donor, (&b, &w)),
            forall|h: H, c: C, w: Vec<Fp>| call_requires(*n1, (&h, &c, &w)),
            forall|h: H, c: C, w: Vec<Fp>| call_requires(*n2, (&h, &h, &c, &w)),
            forall|k: int|
                0 <= k < out@.len() ==> branch_compiled(
                    branches@[k],
                    *base,
                    *donor,
                    *n1,
                    *n2,
                    Ok::<(B, Option<M>, Option<N>), (CompileStep, E)>(#[trigger] out@[k]),
                ),
        decreases branches.len() - i,
    {
        match compile_branch(&branches[i], base, donor, n1, n2) {
            Err((step, e)) => {
                proof {
                    assert forall|k: int| 0 <= k < i implies branch_succeeds(
                        #[trigger] branches@[k],
                        *base,
                        *donor,
                        *n1,
                        *n2,
                    ) by {
                        let compiled = out@[k];
                        assert(branch_compiled(
                            branches@[k],
                            *base,
                            *donor,
                            *n1,
                            *n2,
                            Ok::<(B, Option<M>, Option<N>), (CompileStep, E)>(compiled),
                        ));
                    }
                }
                return Err((i, step, e));
            },
            Ok(compiled) => {
                out.push(compiled);
            },
        }
        i = i + 1;
    }
    Ok(out)
}

/// A branch of a program whose witness is given as texts.
pub struct ProgramBranchJson<C> {
    pub circuit: C,
    pub witness: Vec<String>,
    pub proofs_verified: u8,
}

/// A branch of a program.
pub struct RecordedProgramBranch<C> {
    pub circuit: C,
    pub witness: Vec<Fp>,
    pub proofs_verified: u8,
}

/// The branch with its witness read.
pub open spec fn is_branch_read<C>(json: ProgramBranchJson<C>, r: RecordedProgramBranch<C>) -> bool {
    &&& r.circuit == json.circuit
    &&& are_read(json.witness@, r.witness@)
    &&& r.proofs_verified == json.proofs_verified
}

/// Reads the witnesses of a program's branches; refused when a text of one of
/// them is no field element.
pub fn parse_program_branches<C>(branches: Vec<ProgramBranchJson<C>>) -> (r: Result<
    Vec<RecordedProgramBranch<C>>,
    HostError,
>)
    ensures
        r is Ok <==> forall|i: int|
            0 <= i < branches@.len() ==> all_read((#[trigger] branches@[i]).witness@),
        r matches Err(e) ==> e == HostError::Decimal(Argument::Witness),
        r matches Ok(out) ==> out@.len() == branches@.len() && forall|i: int|
            0 <= i < out@.len() ==> is_branch_read(branches@[i], #[trigger] out@[i]),
{
    let ghost all = branches@;
    let mut rest = branches;
    let mut backwards: Vec<RecordedProgramBranch<C>> = Vec::new();
    while rest.len() > 0
        invariant
            all == branches@,
            rest@.len() + backwards@.len() == all.len(),
            rest@ == all.take(rest@.len() as int),
            forall|k: int|
                0 <= k < backwards@.len() ==> is_branch_read(
                    all[all.len() - 1 - k],
                    #[trigger] backwards@[k],
                ) && all_read(all[all.len() - 1 - k].witness@),
        decreases rest@.len(),
    {
        let ghost last = rest@.len() - 1;
        let branch = rest.pop().unwrap();
        assert(branch == all[last]);
        assert(rest@ =~= all.take(last));
        match parse_fp_decimals(&branch.witness, Argument::Witness) {
            Err(e) => {
                assert(!all_read(all[last].witness@));
                return Err(e);
            },
            Ok(witness) => {
                backwards.push(
                    RecordedProgramBranch {
                        circuit: branch.circuit,
                        witness,
                        proofs_verified: branch.proofs_verified,
                    },
                );
            },
        }
    }
    let ghost read = backwards@;
    proof {
        assert forall|i: int| 0 <= i < all.len() implies all_read(
            (#[trigger] all[i]).witness@,
        ) by {
            assert(is_branch_read(all[all.len() - 1 - (all.len() - 1 - i)], read[all.len() - 1 - i]));
        }
    }
    let mut out: Vec<RecordedProgramBranch<C>> = Vec::new();
    while backwards.len() > 0
        invariant
            read.len() == all.len(),
            backwards@.len() + out@.len() == read.len(),
            backwards@ == read.take(backwards@.len() as int),
            forall|k: int|
                0 <= k < read.len() ==> is_branch_read(all[all.len() - 1 - k], #[trigger] read[k]),
            forall|k: int| 0 <= k < out@.len() ==> is_branch_read(all[k], #[trigger] out@[k]),
        decreases backwards@.len(),
    {
        let ghost last = backwards@.len() - 1;
        let branch = backwards.pop().unwrap();
        assert(branch == read[last]);
        assert(backwards@ =~= read.take(last));
        assert(is_branch_read(all[all.len() - 1 - last], read[last]));
        out.push(branch);
    }
    Ok(out)
}

/// Why compiling a program fails.
#[derive(Clone, Copy, Debug, PartialEq, Eq)]
pub enum ProgramError<E> {
    /// A witness does not read.
    Host(HostError),
    /// A branch does not compile, at the given step.
    Branch(usize, CompileStep, E),
}

/// What compiling a branch gives whose witness is given as texts.
pub open spec fn json_branch_compiled<
    C,
    B,
    H,
    M,
    N,
    E,
    CB: Fn(&C, &Vec<Fp>) -> Result<B, E>,
    CH: Fn(&B, &Vec<Fp>) -> Result<H, E>,
    CM: Fn(&H, &C, &Vec<Fp>) -> Result<M, E>,
    CN: Fn(&H, &H, &C, &Vec<Fp>) -> Result<N, E>,
>(
    json: ProgramBranchJson<C>,
    base: CB,
    donor: CH,
    n1: CM,
    n2: CN,
    r: Result<(B, Option<M>, Option<N>), (CompileStep, E)>,
) -> bool {
    exists|read: RecordedProgramBranch<C>|
        #[trigger] is_branch_read(json, read) && branch_compiled(read, base, donor, n1, n2, r)
}

/// The branch compiles, its witness given as texts.
pub open spec fn json_branch_succeeds<
    C,
    B,
    H,
    M,
    N,
    E,
    CB: Fn(&C, &Vec<Fp>) -> Result<B, E>,
    CH: Fn(&B, &Vec<Fp>) -> Result<H, E>,
    CM: Fn(&H, &C, &Vec<Fp>) -> Result<M, E>,
    CN: Fn(&H, &H, &C, &Vec<Fp>) -> Result<N, E>,
>(json: ProgramBranchJson<C>, base: CB, donor: CH, n1: CM, n2: CN) -> bool {
    exists|read: RecordedProgramBranch<C>|
        #[trigger] is_branch_read(json, read) && branch_succeeds(read, base, donor, n1, n2)
}

/// Compiles every branch of a program whose witnesses are given as texts. The
/// first branch that fails is returned.
pub fn rust_pickles_compile_recorded_program<
    C,
    B,
    H,
    M,
    N,
    E,
    CB: Fn(&C, &Vec<Fp>) -> Result<B, E>,
    CH: Fn(&B, &Vec<Fp>) -> Result<H, E>,
    CM: Fn(&H, &C, &Vec<Fp>) -> Result<M, E>,
    CN: Fn(&H, &H, &C, &Vec<Fp>) -> Result<N, E>,
>(branches: Vec<ProgramBranchJson<C>>, base: &CB, donor: &CH, n1: &CM, n2: &CN) -> (r: Result<
    Vec<(B, Option<M>, Option<N>)>,
    ProgramError<E>,
>)
    requires
        forall|c: C, w: Vec<Fp>| call_requires(*base, (&c, &w)),
        forall|b: B, w: Vec<Fp>| call_requires(*donor, (&b, &w)),
        forall|h: H, c: C, w: Vec<Fp>| call_requires(*n1, (&h, &c, &w)),
        forall|h: H, c: C, w: Vec<Fp>| call_requires(*n2, (&h, &h, &c, &w)),
    ensures
        r matches Err(ProgramError::Host(e)) <==> exists|i: int|
            0 <= i < branches@.len() && !all_read((#[trigger] branches@[i]).witness@),
        r matches Err(ProgramError::Host(e)) ==> e == HostError::Decimal(Argument::Witness),
        r matches Err(ProgramError::Branch(i, step, e)) ==> i < branches@.len()
            && json_branch_compiled(
            branches@[i as int],
            *base,
            *donor,
            *n1,
            *n2,
            Err::<(B, Option<M>, Option<N>), (CompileStep, E)>((step, e)),
        ),
        r matches Err(ProgramError::Branch(i, step, e)) ==> forall|k: int|
            0 <= k < i ==> json_branch_succeeds(#[trigger] branches@[k], *base, *donor, *n1, *n2),
        r matches Ok(out) ==> out@.len() == branches@.len() && forall|i: int|
            0 <= i < out@.len() ==> json_branch_compiled(
                branches@[i],
                *base,
                *donor,
                *n1,
                *n2,
                Ok::<(B, Option<M>, Option<N>), (CompileStep, E)>(#[trigger] out@[i]),
            ),
{
    let ghost all = branches@;
    let parsed = match parse_program_branches(branches) {
        Err(e) => {
            return Err(ProgramError::Host(e));
        },
        Ok(parsed) => parsed,
    };
    match compile_branches(&parsed, base, donor, n1, n2) {
        Err((i, step, e)) => {
            proof {
                assert(is_branch_read(all[i as int], parsed@[i as int]));
                assert forall|k: int| 0 <= k < i implies json_branch_succeeds(
                    #[trigger] all[k],
                    *base,
                    *donor,
                    *n1,
                    *n2,
                ) by {
                    assert(is_branch_read(all[k], parsed@[k]));
                    assert(branch_succeeds(parsed@[k], *base, *donor, *n1, *n2));
                }
            }
            Err(ProgramError::Branch(i, step, e))
        },
        Ok(out) => {
            proof {
                assert forall|i: int| 0 <= i < out@.len() implies json_branch_compiled(
                    all[i],
                    *base,
                    *donor,
                    *n1,
                    *n2,
                    Ok::<(B, Option<M>, Option<N>), (CompileStep, E)>(#[trigger] out@[i]),
                ) by {
                    assert(is_branch_read(all[i], parsed@[i]));
                }
            }
            Ok(out)
        },
    }
}

/// The lines, with a line break between any two.
pub open spec fn joined(lines: Seq<String>) -> Seq<char>
    decreases lines.len(),
{
    if lines.len() == 0 {
        Seq::empty()
    } else if lines.len() == 1 {
        lines[0]@
    } else {
        joined(lines.drop_last()) + "\n"@ + lines.last()@
    }
}

/// The lines, with a line break between any two.
pub fn join_lines(lines: &Vec<String>) -> (r: String)
    ensures
        r@ == joined(lines@),
{
    let mut out = "".to_owned();
    let mut i: usize = 0;
    proof {
        reveal_strlit("");
        assert(out@ =~= joined(lines@.take(0)));
    }
    while i < lines.len()
        invariant
            i <= lines@.len(),
            out@ == joined(lines@.take(i as int)),
        decreases lines.len() - i,
    {
        let ghost before = out@;
        if i > 0 {
            out.append("\n");
        }
        out.append(lines[i].as_str());
        proof {
            let next = lines@.take(i + 1);
            assert(next.drop_last() =~= lines@.take(i as int));
            assert(next.last() == lines@[i as int]);
            if i == 0 {
                assert(before =~= Seq::empty());
                assert(out@ =~= lines@[0]@);
            } else {
                assert(out@ =~= before + "\n"@ + lines@[i as int]@);
            }
        }
        i = i + 1;
    }
    assert(lines@.take(i as int) =~= lines@);
    out
}

/// How often the kernels ran.
#[derive(Clone, Copy, Debug, PartialEq, Eq, Structural)]
pub struct KernelCensus {
    pub poseidon_permutations: u64,
    pub msm_calls: u64,
    pub msm_points: u64,
    pub msm_calls_big: u64,
    pub msm_points_big: u64,
    pub fft_calls: u64,
    pub fft_elems: u64,
    pub fft_work: u64,
}

impl KernelCensus {
    /// No kernel ran.
    pub open spec fn zero() -> KernelCensus {
        KernelCensus {
            poseidon_permutations: 0,
            msm_calls: 0,
            msm_points: 0,
            msm_calls_big: 0,
            msm_points_big: 0,
            fft_calls: 0,
            fft_elems: 0,
            fft_work: 0,
        }
    }

    /// The counts as a JSON object.
    pub open spec fn text(self) -> Seq<char> {
        "{\"poseidon_permutations\":"@ + decimal_chars(self.poseidon_permutations as nat)
            + ",\"msm_calls\":"@ + decimal_chars(self.msm_calls as nat) + ",\"msm_points\":"@
            + decimal_chars(self.msm_points as nat) + ",\"msm_calls_big\":"@ + decimal_chars(
            self.msm_calls_big as nat,
        ) + ",\"msm_points_big\":"@ + decimal_chars(self.msm_points_big as nat)
            + ",\"fft_calls\":"@ + decimal_chars(self.fft_calls as nat) + ",\"fft_elems\":"@
            + decimal_chars(self.fft_elems as nat) + ",\"fft_work\":"@ + decimal_chars(
            self.fft_work as nat,
        ) + "}"@
    }

    /// The counts as a JSON object; `reset` sets them to zero after reading.
    pub fn report(&mut self, reset: bool) -> (r: String)
        ensures
            r@ == old(self).text(),
            *final(self) == if reset {
                KernelCensus::zero()
            } else {
                *old(self)
            },
    {
        let mut out = "{\"poseidon_permutations\":".to_owned();
        out.append(u64_to_decimal(self.poseidon_permutations).as_str());
        out.append(",\"msm_calls\":");
        out.append(u64_to_decimal(self.msm_calls).as_str());
        out.append(",\"msm_points\":");
        out.append(u64_to_decimal(self.msm_points).as_str());
        out.append(",\"msm_calls_big\":");
        out.append(u64_to_decimal(self.msm_calls_big).as_str());
        out.append(",\"msm_points_big\":");
        out.append(u64_to_decimal(self.msm_points_big).as_str());
        out.append(",\"fft_calls\":");
        out.append(u64_to_decimal(self.fft_calls).as_str());
        out.append(",\"fft_elems\":");
        out.append(u64_to_decimal(self.fft_elems).as_str());
        out.append(",\"fft_work\":");
        out.append(u64_to_decimal(self.fft_work).as_str());
        out.append("}");
        if reset {
            *self = KernelCensus {
                poseidon_permutations: 0,
                msm_calls: 0,
                msm_points: 0,
                msm_calls_big: 0,
                msm_points_big: 0,
                fft_calls: 0,
                fft_elems: 0,
                fft_work: 0,
            };
        }
        out
    }
}

/// Why an encoded side-loaded key is refused.
#[derive(Clone, Copy, Debug, PartialEq, Eq)]
pub enum KeyDecodingError<E> {
    /// The check of the base58 text fails.
    Base58(E),
    /// The text is not base64.
    Base64,
    /// The bytes are not those of a key.
    BinProt(E),
    /// The format has no name here.
    UnknownFormat,
}

/// What decoding a side-loaded key gives, by its format.
pub open spec fn key_decoded<
    K,
    E,
    A: Fn(&str) -> Result<K, E>,
    B: Fn(&Vec<u8>) -> Result<K, E>,
>(
    encoded: &str,
    format: Seq<char>,
    from_base58: A,
    from_bytes: B,
    r: Result<K, KeyDecodingError<E>>,
) -> bool {
    if format == "base58"@ {
        match r {
            Ok(k) => call_ensures(from_base58, (encoded,), Ok::<K, E>(k)),
            Err(KeyDecodingError::Base58(e)) => call_ensures(
                from_base58,
                (encoded,),
                Err::<K, E>(e),
            ),
            Err(_) => false,
        }
    } else if format == "base64"@ {
        match base64_bytes(encoded@) {
            None => r == Err::<K, KeyDecodingError<E>>(KeyDecodingError::Base64),
            Some(bytes) => exists|v: Vec<u8>|
                #[trigger] v@ == bytes && match r {
                    Ok(k) => call_ensures(from_bytes, (&v,), Ok::<K, E>(k)),
                    Err(KeyDecodingError::BinProt(e)) => call_ensures(
                        from_bytes,
                        (&v,),
                        Err::<K, E>(e),
                    ),
                    Err(_) => false,
                },
        }
    } else {
        r == Err::<K, KeyDecodingError<E>>(KeyDecodingError::UnknownFormat)
    }
}

/// Decodes a side-loaded key given as base58 text with a check, or as base64 of
/// its bytes.
pub fn rust_pickles_decode_side_loaded_vk<K, E, A: Fn(&str) -> Result<K, E>, B: Fn(&Vec<u8>) -> Result<K, E>>(
    encoded: &str,
    format: &str,
    from_base58: &A,
    from_bytes: &B,
) -> (r: Result<K, KeyDecodingError<E>>)
    requires
        call_requires(*from_base58, (encoded,)),
        forall|v: Vec<u8>| call_requires(*from_bytes, (&v,)),
    ensures
        key_decoded(encoded, format@, *from_base58, *from_bytes, r),
{
    proof {
        reveal_strlit("base58");
        reveal_strlit("base64");
        assert("base58"@[4] != "base64"@[4]);
    }
    if same_text(format, "base58") {
        match from_base58(encoded) {
            Ok(k) => Ok(k),
            Err(e) => Err(KeyDecodingError::Base58(e)),
        }
    } else if same_text(format, "base64") {
        match base64_decode(encoded) {
            None => Err(KeyDecodingError::Base64),
            Some(bytes) => match from_bytes(&bytes) {
                Ok(k) => Ok(k),
                Err(e) => Err(KeyDecodingError::BinProt(e)),
            },
        }
    } else {
        Err(KeyDecodingError::UnknownFormat)
    }
}

/// What a side-loaded key holds, with its own encodings.
pub struct DecodedKey {
    pub max_proofs_verified: ProofsVerified,
    pub actual_wrap_domain_size: ProofsVerified,
    pub mina_hash: Fp,
    pub bin_prot: Vec<u8>,
    pub base58: String,
    pub commitments: Vec<(Fp, Fp)>,
}

/// The envelope of a decoded key.
pub struct KeyEnvelope {
    pub max_proofs_verified: usize,
    pub actual_wrap_domain_size: usize,
    pub mina_hash: String,
    pub base64: String,
    pub base58: String,
    pub commitments: Vec<(String, String)>,
}

/// The envelope of a decoded key: its numbers, its hash and commitments in
/// decimal, and its bytes as base64 and base58.
pub fn key_envelope(key: DecodedKey) -> (r: KeyEnvelope)
    ensures
        r.max_proofs_verified == key.max_proofs_verified.count(),
        r.actual_wrap_domain_size == key.actual_wrap_domain_size.count(),
        r.mina_hash@ == decimal_chars(key.mina_hash.view() as nat),
        r.base64@ == base64_text(key.bin_prot@),
        r.base58 == key.base58,
        are_decimal_pairs(r.commitments@, key.commitments@),
{
    KeyEnvelope {
        max_proofs_verified: key.max_proofs_verified.to_usize(),
        actual_wrap_domain_size: key.actual_wrap_domain_size.to_usize(),
        mina_hash: field_to_decimal(&key.mina_hash),
        base64: base64_encode(key.bin_prot.as_slice()),
        base58: key.base58,
        commitments: decimal_pairs(&key.commitments),
    }
}

/// What a wire proof holds: its flat statement, the rounds of its opening, and
/// the messages of its statement, whose entries only count here.
pub struct DecodedProof<L, W, C, S> {
    pub statement: Vec<Fq>,
    pub bulletproof_lr: Vec<L>,
    pub wrap_old_bulletproof_challenges: Vec<Vec<W>>,
    pub step_challenge_polynomial_commitments: Vec<C>,
    pub step_old_bulletproof_challenges: Vec<Vec<S>>,
}

/// The envelope of a decoded proof.
pub struct ProofEnvelope {
    pub statement: Vec<String>,
    pub wrap_ipa_rounds: usize,
    pub wrap_old_bulletproof_challenges: Vec<usize>,
    pub step_challenge_polynomial_commitments: usize,
    pub step_old_bulletproof_challenges: Vec<usize>,
}

/// The lengths are those of the rows, one by one.
pub open spec fn are_lengths<T>(lengths: Seq<usize>, rows: Seq<Vec<T>>) -> bool {
    &&& lengths.len() == rows.len()
    &&& forall|i: int| 0 <= i < rows.len() ==> #[trigger] lengths[i] == rows[i]@.len()
}

fn lengths<T>(rows: &Vec<Vec<T>>) -> (r: Vec<usize>)
    ensures
        are_lengths(r@, rows@),
{
    let mut out: Vec<usize> = Vec::new();
    let mut i: usize = 0;
    while i < rows.len()
        invariant
            i <= rows@.len(),
            out@.len() == i,
            forall|k: int| 0 <= k < i ==> #[trigger] out@[k] == rows@[k]@.len(),
        decreases rows.len() - i,
    {
        out.push(rows[i].len());
        i = i + 1;
    }
    out
}

/// The envelope of a decoded proof: its statement in decimal, the number of
/// rounds, and the lengths of its messages.
pub fn proof_envelope<L, W, C, S>(decoded: &DecodedProof<L, W, C, S>) -> (r: ProofEnvelope)
    ensures
        are_decimals(r.statement@, decoded.statement@),
        r.wrap_ipa_rounds == decoded.bulletproof_lr@.len(),
        are_lengths(
            r.wrap_old_bulletproof_challenges@,
            decoded.wrap_old_bulletproof_challenges@,
        ),
        r.step_challenge_polynomial_commitments
            == decoded.step_challenge_polynomial_commitments@.len(),
        are_lengths(
            r.step_old_bulletproof_challenges@,
            decoded.step_old_bulletproof_challenges@,
        ),
{
    ProofEnvelope {
        statement: decimals(&decoded.statement),
        wrap_ipa_rounds: decoded.bulletproof_lr.len(),
        wrap_old_bulletproof_challenges: lengths(&decoded.wrap_old_bulletproof_challenges),
        step_challenge_polynomial_commitments: decoded.step_challenge_polynomial_commitments.len(),
        step_old_bulletproof_challenges: lengths(&decoded.step_old_bulletproof_challenges),
    }
}

/// Why an encoded wire proof is refused.
#[derive(Clone, Copy, Debug, PartialEq, Eq)]
pub enum ProofDecodingError<E> {
    /// The text is not base64.
    Base64,
    /// The bytes are not those of a proof, in neither form.
    BinProt(E),
}

/// Decodes a wire proof from base64: in the network's form, or else in the
/// normalized one, whose refusal is returned.
pub fn rust_pickles_decode_mina_proof_base64<
    P,
    E,
    A: Fn(&Vec<u8>) -> Result<P, E>,
    B: Fn(&Vec<u8>) -> Result<P, E>,
>(text: &str, from_mina: &A, from_normalized: &B) -> (r: Result<P, ProofDecodingError<E>>)
    requires
        forall|v: Vec<u8>| call_requires(*from_mina, (&v,)),
        forall|v: Vec<u8>| call_requires(*from_normalized, (&v,)),
    ensures
        match base64_bytes(text@) {
            None => r == Err::<P, ProofDecodingError<E>>(ProofDecodingError::Base64),
            Some(bytes) => exists|v: Vec<u8>, first: Result<P, E>|
                v@ == bytes && #[trigger] call_ensures(*from_mina, (&v,), first) && match first {
                    Ok(p) => r == Ok::<P, ProofDecodingError<E>>(p),
                    Err(_) => match r {
                        Ok(p) => call_ensures(*from_normalized, (&v,), Ok::<P, E>(p)),
                        Err(ProofDecodingError::BinProt(e)) => call_ensures(
                            *from_normalized,
                            (&v,),
                            Err::<P, E>(e),
                        ),
                        Err(_) => false,
                    },
                },
        },
{
    match base64_decode(text) {
        None => Err(ProofDecodingError::Base64),
        Some(bytes) => {
            let first = from_mina(&bytes);
            match first {
                Ok(p) => Ok(p),
                Err(_) => match from_normalized(&bytes) {
                    Ok(p) => Ok(p),
                    Err(e) => Err(ProofDecodingError::BinProt(e)),
                },
            }
        },
    }
}

/// The application that exposes the square of its witness.
#[derive(Clone, Copy, Debug, PartialEq, Eq, Structural)]
pub struct SquareApp;

impl StepApp for SquareApp {
    type Witness = Fp;

    fn state(&self, witness: &Fp) -> (r: Vec<Fp>)
        ensures
            r@.len() == 1,
            r@[0].view() == fmul::<Fp>(witness.view(), witness.view()),
    {
        let mut state: Vec<Fp> = Vec::new();
        state.push(witness.mul(witness));
        state
    }
}

/// An entry of a seeding batch: a curve, and the `log2` of a Lagrange basis's
/// size, or a negative number for the reference string itself.
pub struct SeedEntry {
    pub curve: String,
    pub domain_log2: i32,
}

/// The payload of an entry, read as points for a reference string or as
/// commitments for a basis.
pub enum SeedPayload {
    Points(Vec<JsooPoint>),
    Comms(Vec<JsooComm>),
    Malformed,
}

/// What one entry does to the store, and whether it is accepted.
pub open spec fn entry_seeded<A: Fn(usize) -> Srs<Fq>, B: Fn(usize) -> Srs<Fp>>(
    before: SrsStore,
    entry: SeedEntry,
    payload: SeedPayload,
    create_tick: A,
    create_tock: B,
    after: SrsStore,
    r: bool,
) -> bool {
    let size = pow2(entry.domain_log2 as nat);
    if entry.domain_log2 < 0 {
        &&& after.disk_cache_enabled == before.disk_cache_enabled
        &&& if entry.curve@ == "vesta"@ {
            &&& after.tock == before.tock
            &&& seeded(
                before.tick,
                srs_in_payload(Fq::modulus(), payload),
                TICK_SRS_SIZE as nat,
                after.tick,
                r,
            )
        } else if entry.curve@ == "pallas"@ {
            &&& after.tick == before.tick
            &&& seeded(
                before.tock,
                srs_in_payload(Fp::modulus(), payload),
                TOCK_SRS_SIZE as nat,
                after.tock,
                r,
            )
        } else {
            !r && after == before
        }
    } else if r {
        &&& after.disk_cache_enabled == before.disk_cache_enabled
        &&& payload matches SeedPayload::Comms(comms) && if entry.curve@ == "vesta"@ {
            &&& jsoo_basis_reads(Fq::modulus(), comms@, size as int)
            &&& after.tock == before.tock
            &&& basis_seeded(
                before.tick,
                create_tick,
                TICK_SRS_SIZE,
                size as usize,
                jsoo_basis(Fq::modulus(), comms@),
                after.tick,
            )
        } else {
            &&& entry.curve@ == "pallas"@
            &&& jsoo_basis_reads(Fp::modulus(), comms@, size as int)
            &&& after.tick == before.tick
            &&& basis_seeded(
                before.tock,
                create_tock,
                TOCK_SRS_SIZE,
                size as usize,
                jsoo_basis(Fp::modulus(), comms@),
                after.tock,
            )
        }
    } else {
        &&& after == before
        &&& payload matches SeedPayload::Comms(comms) ==> !(entry.curve@ == "vesta"@
            && jsoo_basis_reads(Fq::modulus(), comms@, size as int)) && !(entry.curve@ == "pallas"@
            && jsoo_basis_reads(Fp::modulus(), comms@, size as int))
    }
}

/// The reference string in a payload, where it holds one.
pub open spec fn srs_in_payload(p: int, payload: SeedPayload) -> Option<
    (Seq<Option<(int, int)>>, Option<(int, int)>),
> {
    match payload {
        SeedPayload::Points(points) => srs_of_points(read_points(p, jsoo_views(points@))),
        _ => None,
    }
}

fn seed_entry<A: Fn(usize) -> Srs<Fq>, B: Fn(usize) -> Srs<Fp>>(
    store: &mut SrsStore,
    entry: &SeedEntry,
    payload: &SeedPayload,
    create_tick: &A,
    create_tock: &B,
) -> (r: bool)
    requires
        entry.domain_log2 >= 0 ==> pow2(entry.domain_log2 as nat) <= usize::MAX,
        call_requires(*create_tick, (TICK_SRS_SIZE,)),
        call_requires(*create_tock, (TOCK_SRS_SIZE,)),
    ensures
        entry_seeded(*old(store), *entry, *payload, *create_tick, *create_tock, *final(store), r),
{
    proof {
        reveal_strlit("vesta");
        reveal_strlit("pallas");
        assert("vesta"@.len() != "pallas"@.len());
    }
    if entry.domain_log2 < 0 {
        if same_text(entry.curve.as_str(), "vesta") {
            match payload {
                SeedPayload::Points(points) => seed_tick_srs_jsoo(store, points.as_slice()),
                _ => false,
            }
        } else if same_text(entry.curve.as_str(), "pallas") {
            match payload {
                SeedPayload::Points(points) => seed_tock_srs_jsoo(store, points.as_slice()),
                _ => false,
            }
        } else {
            false
        }
    } else {
        match payload {
            SeedPayload::Comms(comms) => seed_lagrange_basis_jsoo(
                store,
                entry.curve.as_str(),
                entry.domain_log2 as u32,
                comms.as_slice(),
                create_tick,
                create_tock,
            ),
            _ => false,
        }
    }
}

/// How many are true.
pub open spec fn accepted(answers: Seq<bool>) -> nat
    decreases answers.len(),
{
    if answers.len() == 0 {
        0
    } else {
        accepted(answers.drop_last()) + if answers.last() {
            1nat
        } else {
            0
        }
    }
}

/// The entries, one after the other, lead from the first store to the last.
pub open spec fn batch_seeded<A: Fn(usize) -> Srs<Fq>, B: Fn(usize) -> Srs<Fp>>(
    stores: Seq<SrsStore>,
    entries: Seq<SeedEntry>,
    payloads: Seq<SeedPayload>,
    create_tick: A,
    create_tock: B,
    answers: Seq<bool>,
) -> bool {
    &&& stores.len() == answers.len() + 1
    &&& forall|i: int|
        0 <= i < answers.len() ==> entry_seeded(
            stores[i],
            entries[i],
            payloads[i],
            create_tick,
            create_tock,
            stores[i + 1],
            #[trigger] answers[i],
        )
}

/// Seeds the store by every entry of a batch, in order, and counts the accepted
/// ones. A malformed payload is not accepted and changes nothing; a batch with
/// more or fewer payloads than entries is refused.
pub fn rust_pickles_seed_srs_cache_batch<A: Fn(usize) -> Srs<Fq>, B: Fn(usize) -> Srs<Fp>>(
    store: &mut SrsStore,
    entries: &Vec<SeedEntry>,
    payloads: &Vec<SeedPayload>,
    create_tick: &A,
    create_tock: &B,
) -> (r: Result<u32, HostError>)
    requires
        entries@.len() == payloads@.len() ==> entries@.len() <= u32::MAX,
        entries@.len() == payloads@.len() ==> forall|i: int|
            0 <= i < entries@.len() && (#[trigger] entries@[i]).domain_log2 >= 0 ==> pow2(
                entries@[i].domain_log2 as nat,
            ) <= usize::MAX,
        call_requires(*create_tick, (TICK_SRS_SIZE,)),
        call_requires(*create_tock, (TOCK_SRS_SIZE,)),
    ensures
        r is Ok <==> entries@.len() == payloads@.len(),
        r matches Err(e) ==> e == HostError::EntriesMismatch && *final(store) == *old(store),
        r matches Ok(count) ==> exists|stores: Seq<SrsStore>, answers: Seq<bool>|
            {
                &&& answers.len() == entries@.len()
                &&& #[trigger] batch_seeded(
                    stores,
                    entries@,
                    payloads@,
                    *create_tick,
                    *create_tock,
                    answers,
                )
                &&& stores[0] == *old(store)
                &&& stores.last() == *final(store)
                &&& count == accepted(answers)
            },
{
    if entries.len() != payloads.len() {
        return Err(HostError::EntriesMismatch);
    }
    let mut count: u32 = 0;
    let mut i: usize = 0;
    let ghost mut stores: Seq<SrsStore> = seq![*store];
    let ghost mut answers: Seq<bool> = Seq::empty();
    while i < entries.len()
        invariant
            i <= entries@.len(),
            entries@.len() == payloads@.len(),
            entries@.len() <= u32::MAX,
            forall|i: int|
                0 <= i < entries@.len() && (#[trigger] entries@[i]).domain_log2 >= 0 ==> pow2(
                    entries@[i].domain_log2 as nat,
                ) <= usize::MAX,
            call_requires(*create_tick, (TICK_SRS_SIZE,)),
            call_requires(*create_tock, (TOCK_SRS_SIZE,)),
            answers.len() == i,
            batch_seeded(stores, entries@, payloads@, *create_tick, *create_tock, answers),
            stores[0] == *old(store),
            stores.last() == *store,
            count == accepted(answers),
            count <= i,
        decreases entries.len() - i,
    {
        let ok = seed_entry(store, &entries[i], &payloads[i], create_tick, create_tock);
        proof {
            let more = answers.push(ok);
            assert(more.drop_last() =~= answers);
            let all = stores.push(*store);
            assert forall|k: int| 0 <= k < more.len() implies entry_seeded(
                all[k],
                entries@[k],
                payloads@[k],
                *create_tick,
                *create_tock,
                all[k + 1],
                #[trigger] more[k],
            ) by {
                if k < answers.len() {
                    assert(more[k] == answers[k]);
                }
            }
            answers = more;
            stores = all;
        }
        if ok {
            count = count + 1;
        }
        i = i + 1;
    }
    Ok(count)
}

/// The reference string of the curve named `vesta` or `pallas` as decimal
/// points, the blinding point first; none when it is not there, or the curve is
/// another.
pub fn rust_pickles_export_srs(store: &SrsStore, curve: &str) -> (r: Option<Vec<JsooPoint>>)
    ensures
        r is Some <==> (curve@ == "vesta"@ && store.tick is Some) || (curve@ == "pallas"@
            && store.tock is Some),
        r is Some && curve@ == "vesta"@ ==> jsoo_views(r->0@) == jsoo_forms(
            seq![element(store.tick->0.h)] + elements(store.tick->0.g@),
        ),
        r is Some && curve@ == "pallas"@ ==> jsoo_views(r->0@) == jsoo_forms(
            seq![element(store.tock->0.h)] + elements(store.tock->0.g@),
        ),
{
    proof {
        reveal_strlit("vesta");
        reveal_strlit("pallas");
        assert("vesta"@.len() != "pallas"@.len());
    }
    if same_text(curve, "vesta") {
        export_tick_srs_jsoo(store)
    } else if same_text(curve, "pallas") {
        export_tock_srs_jsoo(store)
    } else {
        None
    }
}

/// Why a call into the prover fails.
#[derive(Clone, Copy, Debug, PartialEq, Eq)]
pub enum CallError<E> {
    /// The text is not the JSON of a recorded circuit.
    Circuit,
    /// An argument does not read.
    Host(HostError),
    /// The prover fails.
    Prover(E),
}

/// The outcome of the prover, as that of the call.
pub open spec fn call_outcome<T, E>(outcome: Result<T, E>) -> Result<T, CallError<E>> {
    match outcome {
        Ok(t) => Ok(t),
        Err(e) => Err(CallError::Prover(e)),
    }
}

/// What running the prover on a circuit and a witness given as texts gives: the
/// circuit is looked at first, then the witness.
pub open spec fn ran_on_texts<C, T, E, P: Fn(&C, &Vec<Fp>) -> Result<T, E>>(
    circuit: Option<C>,
    witness: Seq<String>,
    run: P,
    r: Result<T, CallError<E>>,
) -> bool {
    match circuit {
        None => r == Err::<T, CallError<E>>(CallError::Circuit),
        Some(c) => if !all_read(witness) {
            r == Err::<T, CallError<E>>(CallError::Host(HostError::Decimal(Argument::Witness)))
        } else {
            exists|w: Vec<Fp>, outcome: Result<T, E>|
                {
                    &&& are_read(witness, w@)
                    &&& #[trigger] call_ensures(run, (&c, &w), outcome)
                    &&& r == call_outcome(outcome)
                }
        },
    }
}

/// Runs the prover on a circuit and a witness given as texts.
pub fn run_on_texts<C, T, E, P: Fn(&C, &Vec<Fp>) -> Result<T, E>>(
    circuit: &Option<C>,
    witness: &Vec<String>,
    run: &P,
) -> (r: Result<T, CallError<E>>)
    requires
        forall|c: C, w: Vec<Fp>| call_requires(*run, (&c, &w)),
    ensures
        ran_on_texts(*circuit, witness@, *run, r),
{
    match circuit {
        None => Err(CallError::Circuit),
        Some(c) => match parse_fp_decimals(witness, Argument::Witness) {
            Err(e) => Err(CallError::Host(e)),
            Ok(w) => match run(c, &w) {
                Ok(t) => {
                    assert(call_ensures(*run, (c, &w), Ok::<T, E>(t)));
                    Ok(t)
                },
                Err(e) => {
                    assert(call_ensures(*run, (c, &w), Err::<T, E>(e)));
                    Err(CallError::Prover(e))
                },
            },
        },
    }
}

/// Runs the prover on a circuit and a witness given as bytes. The circuit is
/// looked at first, then the witness.
pub fn run_on_bytes<C, T, E, P: Fn(&C, &Vec<Fp>) -> Result<T, E>>(
    circuit: &Option<C>,
    witness: &[u8],
    run: &P,
) -> (r: Result<T, CallError<E>>)
    requires
        forall|c: C, w: Vec<Fp>| call_requires(*run, (&c, &w)),
    ensures
        match *circuit {
            None => r == Err::<T, CallError<E>>(CallError::Circuit),
            Some(c) => if witness@.len() % (FIELD_BYTES as nat) != 0 {
                r == Err::<T, CallError<E>>(
                    CallError::Host(HostError::ByteLength(Argument::Witness)),
                )
            } else if !all_canonical(witness@) {
                r == Err::<T, CallError<E>>(
                    CallError::Host(HostError::ByteEncoding(Argument::Witness)),
                )
            } else {
                exists|w: Vec<Fp>, outcome: Result<T, E>|
                    {
                        &&& w@.len() == witness@.len() / (FIELD_BYTES as nat)
                        &&& forall|i: int|
                            0 <= i < w@.len() ==> (#[trigger] w@[i]).view() == le_value(
                                chunk(witness@, i),
                            )
                        &&& #[trigger] call_ensures(*run, (&c, &w), outcome)
                        &&& r == call_outcome(outcome)
                    }
            },
        },
{
    match circuit {
        None => Err(CallError::Circuit),
        Some(c) => match parse_fp_bytes(witness, Argument::Witness) {
            Err(e) => Err(CallError::Host(e)),
            Ok(w) => match run(c, &w) {
                Ok(t) => {
                    assert(call_ensures(*run, (c, &w), Ok::<T, E>(t)));
                    Ok(t)
                },
                Err(e) => {
                    assert(call_ensures(*run, (c, &w), Err::<T, E>(e)));
                    Err(CallError::Prover(e))
                },
            },
        },
    }
}

/// A proof with the state it exposes.
pub struct RecordedProof {
    pub app_state: Vec<Fp>,
    pub proof: MinaWrapProof,
}

/// Proves a recorded circuit that verifies no proof: the envelope of what
/// `prove` gives for the circuit and the witness.
pub fn rust_pickles_prove_recorded_base<
    C,
    E,
    P: Fn(&C, &Vec<Fp>) -> Result<RecordedProof, E>,
>(circuit: &Option<C>, witness: &Vec<String>, prove: &P) -> (r: Result<
    BaseEnvelope,
    CallError<E>,
>)
    requires
        forall|c: C, w: Vec<Fp>| call_requires(*prove, (&c, &w)),
    ensures
        exists|run: Result<RecordedProof, CallError<E>>|
            {
                &&& #[trigger] ran_on_texts(*circuit, witness@, *prove, run)
                &&& match run {
                    Err(e) => r == Err::<BaseEnvelope, CallError<E>>(e),
                    Ok(p) => r is Ok && is_base_envelope(r->Ok_0, p.app_state@, p.proof),
                }
            },
{
    let run = run_on_texts(circuit, witness, prove);
    match run {
        Err(e) => Err(e),
        Ok(p) => {
            assert(ran_on_texts(*circuit, witness@, *prove, Ok::<RecordedProof, CallError<E>>(p)));
            Ok(rust_pickles_recorded_base_envelope(&p.app_state, &p.proof))
        },
    }
}

/// Proves a recorded circuit that verifies one proof: the envelope of what
/// `prove` gives, with the number of cycles for a stable loop.
pub fn rust_pickles_prove_recorded_n1<
    C,
    E,
    P: Fn(&C, &Vec<Fp>) -> Result<(RecordedN1Proof, Option<usize>), E>,
>(circuit: &Option<C>, witness: &Vec<String>, prove: &P) -> (r: Result<N1Envelope, CallError<E>>)
    requires
        forall|c: C, w: Vec<Fp>| call_requires(*prove, (&c, &w)),
    ensures
        exists|run: Result<(RecordedN1Proof, Option<usize>), CallError<E>>|
            {
                &&& #[trigger] ran_on_texts(*circuit, witness@, *prove, run)
                &&& match run {
                    Err(e) => r == Err::<N1Envelope, CallError<E>>(e),
                    Ok((p, cycles)) => r is Ok && is_n1_envelope(
                        r->Ok_0,
                        p.app_state@,
                        p.proof,
                        p.challenge_polynomial_commitment,
                        p.old_bulletproof_challenges@,
                        p.dlog_plonk_index@,
                        cycles,
                    ),
                }
            },
{
    let run = run_on_texts(circuit, witness, prove);
    match run {
        Err(e) => Err(e),
        Ok((p, cycles)) => {
            assert(ran_on_texts(
                *circuit,
                witness@,
                *prove,
                Ok::<(RecordedN1Proof, Option<usize>), CallError<E>>((p, cycles)),
            ));
            Ok(
                recorded_n1_envelope(
                    &p.app_state,
                    &p.proof,
                    &p.challenge_polynomial_commitment,
                    &p.old_bulletproof_challenges,
                    &p.dlog_plonk_index,
                    cycles,
                ),
            )
        },
    }
}

/// A proof that verifies two others, with its messages.
pub struct RecordedN2Proof {
    pub app_state: Vec<Fp>,
    pub proof: MinaWrapProof,
    pub challenge_polynomial_commitments: Vec<(Fp, Fp)>,
    pub old_bulletproof_challenges: Vec<Vec<Fp>>,
    pub dlog_plonk_index: Vec<(Fp, Fp)>,
}

/// What the arguments of a proof over two others are refused for, in order.
pub open spec fn n2_refusal<C>(
    circuit: Option<C>,
    first: Seq<String>,
    second: Seq<String>,
    app_state: Seq<String>,
) -> Option<Option<HostError>> {
    if circuit is None {
        Some(None)
    } else if !all_read(first) {
        Some(Some(HostError::Decimal(Argument::FirstWitness)))
    } else if !all_read(second) {
        Some(Some(HostError::Decimal(Argument::SecondWitness)))
    } else if !all_read(app_state) {
        Some(Some(HostError::Decimal(Argument::AppState)))
    } else {
        None
    }
}

/// Proves a recorded circuit that verifies two proofs of itself, over two
/// witnesses and a state: the envelope of what `prove` gives.
pub fn rust_pickles_prove_recorded_n2<
    C,
    E,
    P: Fn(&C, &Vec<Fp>, &Vec<Fp>, &Vec<Fp>) -> Result<RecordedN2Proof, E>,
>(
    circuit: &Option<C>,
    first_witness: &Vec<String>,
    second_witness: &Vec<String>,
    app_state: &Vec<String>,
    prove: &P,
) -> (r: Result<N2Envelope, CallError<E>>)
    requires
        forall|c: C, a: Vec<Fp>, b: Vec<Fp>, s: Vec<Fp>| call_requires(*prove, (&c, &a, &b, &s)),
    ensures
        match n2_refusal(*circuit, first_witness@, second_witness@, app_state@) {
            Some(None) => r == Err::<N2Envelope, CallError<E>>(CallError::Circuit),
            Some(Some(e)) => r == Err::<N2Envelope, CallError<E>>(CallError::Host(e)),
            None => exists|a: Vec<Fp>, b: Vec<Fp>, s: Vec<Fp>, outcome: Result<RecordedN2Proof, E>|
                {
                    &&& are_read(first_witness@, a@)
                    &&& are_read(second_witness@, b@)
                    &&& are_read(app_state@, s@)
                    &&& #[trigger] call_ensures(*prove, (&circuit->0, &a, &b, &s), outcome)
                    &&& match outcome {
                        Err(e) => r == Err::<N2Envelope, CallError<E>>(CallError::Prover(e)),
                        Ok(p) => r is Ok && is_n2_envelope(
                            r->Ok_0,
                            p.app_state@,
                            p.proof,
                            p.challenge_polynomial_commitments@,
                            p.old_bulletproof_challenges@,
                            p.dlog_plonk_index@,
                        ),
                    }
                },
        },
{
    let c = match circuit {
        None => {
            return Err(CallError::Circuit);
        },
        Some(c) => c,
    };
    let a = match parse_fp_decimals(first_witness, Argument::FirstWitness) {
        Err(e) => {
            return Err(CallError::Host(e));
        },
        Ok(v) => v,
    };
    let b = match parse_fp_decimals(second_witness, Argument::SecondWitness) {
        Err(e) => {
            return Err(CallError::Host(e));
        },
        Ok(v) => v,
    };
    let s = match parse_fp_decimals(app_state, Argument::AppState) {
        Err(e) => {
            return Err(CallError::Host(e));
        },
        Ok(v) => v,
    };
    match prove(c, &a, &b, &s) {
        Err(e) => {
            assert(call_ensures(*prove, (c, &a, &b, &s), Err::<RecordedN2Proof, E>(e)));
            Err(CallError::Prover(e))
        },
        Ok(p) => {
            assert(call_ensures(*prove, (c, &a, &b, &s), Ok::<RecordedN2Proof, E>(p)));
            Ok(
                recorded_n2_envelope(
                    &p.app_state,
                    &p.proof,
                    &p.challenge_polynomial_commitments,
                    &p.old_bulletproof_challenges,
                    &p.dlog_plonk_index,
                ),
            )
        },
    }
}

/// A message names its argument and its fault.
pub proof fn messages_name_their_argument(name: Argument, e: BaseCaseBackendError)
    ensures
        HostError::Decimal(name).text() == name.text() + ": expected decimal Pasta Fp field"@,
        HostError::NotAPair(name).text() == name.text() + ": expected [x, y] decimal pairs"@,
        HostError::ByteLength(name).text() == name.text()
            + ": expected a multiple of 32 canonical Fp bytes"@,
        HostError::ByteEncoding(name).text() == name.text() + ": non-canonical Pasta Fp encoding"@,
        HostError::Json(name).text() == "invalid "@ + name.text(),
        HostError::Proof(e).text() == "invalid proof JSON"@,
        HostError::VerificationKey.text() == "invalid side-loaded verification key"@,
        HostError::WireProof.text() == "invalid wrap wire proof"@,
        HostError::NotAProgramProof.text() == "proof handle is not a program proof"@,
        HostError::NoAccumulator.text() == "program proof carries no accumulator"@,
        HostError::NoChallenges.text() == "program proof carries no challenges"@,
        HostError::NotTwoAccumulators.text() == "program proof does not carry two accumulators"@,
        HostError::NotRecursive.text() == "proof handle is not recursive"@,
        HostError::EntriesMismatch.text() == "seed entries/payloads length mismatch"@,
        Argument::Witness.text() == "witness"@,
        Argument::FirstWitness.text() == "first_witness"@,
        Argument::SecondWitness.text() == "second_witness"@,
        Argument::AppState.text() == "app_state"@,
        Argument::DlogPlonkIndex.text() == "dlog_plonk_index"@,
        Argument::CommitmentX.text() == "commitment x"@,
        Argument::CommitmentY.text() == "commitment y"@,
        Argument::ChallengePolynomialCommitments.text() == "challenge_polynomial_commitments"@,
        Argument::OldBulletproofChallenges.text() == "old_bulletproof_challenges"@,
{
}

/// Decimal pairs read back as they were written, abscissa as abscissa and
/// ordinate as ordinate.
pub proof fn decimal_pairs_read_back(
    texts: Seq<(String, String)>,
    values: Seq<(Fp, Fp)>,
    read: Seq<(Fp, Fp)>,
    i: int,
)
    requires
        are_decimal_pairs(texts, values),
        are_pairs_read(texts, read),
        0 <= i < values.len(),
    ensures
        texts.len() == values.len(),
        read.len() == values.len(),
        read[i].0.view() == values[i].0.view(),
        read[i].1.view() == values[i].1.view(),
{
    let x = values[i].0.view() as nat;
    let y = values[i].1.view() as nat;
    Fp::lemma_canonical(values[i].0);
    Fp::lemma_canonical(values[i].1);
    lemma_decimal_is_plain(x);
    lemma_decimal_is_plain(y);
    assert(texts[i].0@ == decimal_chars(x));
    assert(texts[i].1@ == decimal_chars(y));
    assert(fp_of_text(texts[i].0@) == Some(read[i].0.view()));
    vstd::arithmetic::div_mod::lemma_small_mod(x, fp_modulus() as nat);
    vstd::arithmetic::div_mod::lemma_small_mod(y, fp_modulus() as nat);
}

/// Rows of decimals read back row by row.
pub proof fn decimal_rows_read_back(
    texts: Seq<Vec<String>>,
    values: Seq<Vec<Fp>>,
    read: Seq<Vec<Fp>>,
    i: int,
    k: int,
)
    requires
        are_decimal_rows(texts, values),
        are_rows_read(texts, read),
        0 <= i < values.len(),
        0 <= k < values[i]@.len(),
    ensures
        read.len() == values.len(),
        read[i]@.len() == values[i]@.len(),
        read[i]@[k].view() == values[i]@[k].view(),
{
    assert(are_decimals(texts[i]@, values[i]@));
    assert(are_read(texts[i]@, read[i]@));
    decimals_read_back(texts[i]@, values[i]@, read[i]@);
}

/// An envelope's parts read back as what was put in, each under its own name.
pub proof fn n1_envelopes_read_back(
    e: N1Envelope,
    app_state: Seq<Fp>,
    proof: MinaWrapProof,
    commitment: (Fp, Fp),
    challenges: Seq<Fp>,
    index: Seq<(Fp, Fp)>,
    stable_cycles: Option<usize>,
    state_read: Seq<Fp>,
    challenges_read: Seq<Fp>,
    index_read: Seq<(Fp, Fp)>,
    proof_read: Result<MinaWrapProof, BaseCaseBackendError>,
    i: int,
)
    requires
        is_n1_envelope(e, app_state, proof, commitment, challenges, index, stable_cycles),
        are_read(e.app_state@, state_read),
        are_read(e.old_bulletproof_challenges@, challenges_read),
        are_pairs_read(e.dlog_plonk_index@, index_read),
        is_read(e.proof, proof_read),
    ensures
        state_read.len() == app_state.len(),
        0 <= i < app_state.len() ==> state_read[i].view() == app_state[i].view(),
        challenges_read.len() == challenges.len(),
        0 <= i < challenges.len() ==> challenges_read[i].view() == challenges[i].view(),
        index_read.len() == index.len(),
        0 <= i < index.len() ==> index_read[i].0.view() == index[i].0.view()
            && index_read[i].1.view() == index[i].1.view(),
        proof_read is Ok,
        crate::api::same_proof(proof, proof_read->Ok_0),
        e.challenge_polynomial_commitment.0@ == decimal_chars(commitment.0.view() as nat),
        e.challenge_polynomial_commitment.1@ == decimal_chars(commitment.1.view() as nat),
        e.stable_cycles == stable_cycles,
{
    decimals_read_back(e.app_state@, app_state, state_read);
    decimals_read_back(e.old_bulletproof_challenges@, challenges, challenges_read);
    if 0 <= i < index.len() {
        decimal_pairs_read_back(e.dlog_plonk_index@, index, index_read, i);
    }
    crate::api::envelopes_round_trip(proof, e.proof, proof_read);
}

/// An envelope of two accumulators reads back as what was put in, each part under
/// its own name.
pub proof fn n2_envelopes_read_back(
    e: N2Envelope,
    app_state: Seq<Fp>,
    proof: MinaWrapProof,
    commitments: Seq<(Fp, Fp)>,
    challenges: Seq<Vec<Fp>>,
    index: Seq<(Fp, Fp)>,
    state_read: Seq<Fp>,
    commitments_read: Seq<(Fp, Fp)>,
    challenges_read: Seq<Vec<Fp>>,
    index_read: Seq<(Fp, Fp)>,
    proof_read: Result<MinaWrapProof, BaseCaseBackendError>,
    i: int,
    k: int,
)
    requires
        is_n2_envelope(e, app_state, proof, commitments, challenges, index),
        are_read(e.app_state@, state_read),
        are_pairs_read(e.challenge_polynomial_commitments@, commitments_read),
        are_rows_read(e.old_bulletproof_challenges@, challenges_read),
        are_pairs_read(e.dlog_plonk_index@, index_read),
        is_read(e.proof, proof_read),
    ensures
        state_read.len() == app_state.len(),
        0 <= i < app_state.len() ==> state_read[i].view() == app_state[i].view(),
        commitments_read.len() == commitments.len(),
        0 <= i < commitments.len() ==> commitments_read[i].0.view() == commitments[i].0.view()
            && commitments_read[i].1.view() == commitments[i].1.view(),
        challenges_read.len() == challenges.len(),
        0 <= i < challenges.len() ==> challenges_read[i]@.len() == challenges[i]@.len(),
        0 <= i < challenges.len() && 0 <= k < challenges[i]@.len()
            ==> challenges_read[i]@[k].view() == challenges[i]@[k].view(),
        index_read.len() == index.len(),
        0 <= i < index.len() ==> index_read[i].0.view() == index[i].0.view()
            && index_read[i].1.view() == index[i].1.view(),
        proof_read is Ok,
        crate::api::same_proof(proof, proof_read->Ok_0),
{
    decimals_read_back(e.app_state@, app_state, state_read);
    if 0 <= i < commitments.len() {
        decimal_pairs_read_back(
            e.challenge_polynomial_commitments@,
            commitments,
            commitments_read,
            i,
        );
    }
    if 0 <= i < challenges.len() {
        assert(are_decimals(e.old_bulletproof_challenges@[i]@, challenges[i]@));
        assert(are_read(e.old_bulletproof_challenges@[i]@, challenges_read[i]@));
        if 0 <= k < challenges[i]@.len() {
            decimal_rows_read_back(
                e.old_bulletproof_challenges@,
                challenges,
                challenges_read,
                i,
                k,
            );
        }
    }
    if 0 <= i < index.len() {
        decimal_pairs_read_back(e.dlog_plonk_index@, index, index_read, i);
    }
    crate::api::envelopes_round_trip(proof, e.proof, proof_read);
}

/// Only a proof that was checked and rejected answers no: what does not decode is
/// an error of its own name.
pub proof fn only_rejections_answer_no(outcome: Result<(), StandaloneVerifyError>)
    ensures
        answer(outcome) == Ok::<bool, HostError>(true) <==> outcome is Ok,
        answer(outcome) == Ok::<bool, HostError>(false) <==> outcome == Err::<
            (),
            StandaloneVerifyError,
        >(StandaloneVerifyError::Rejected),
        answer(outcome) == Err::<bool, HostError>(HostError::VerificationKey) <==> outcome == Err::<
            (),
            StandaloneVerifyError,
        >(StandaloneVerifyError::VerificationKey),
        answer(outcome) == Err::<bool, HostError>(HostError::WireProof) <==> outcome == Err::<
            (),
            StandaloneVerifyError,
        >(StandaloneVerifyError::ProofDecoding),
{
}

/// The arguments are read in order and the first that does not read is named:
/// the state, the key, the commitments, the challenges, the proof.
pub proof fn the_first_unread_argument_is_named(
    a: SideLoadedArguments,
    r: Result<SideLoadedInputs, HostError>,
)
    requires
        arguments_read(a, r),
    ensures
        !all_read(a.app_state@) ==> r == Err::<SideLoadedInputs, HostError>(
            HostError::Decimal(Argument::AppState),
        ),
        all_read(a.app_state@) && a.dlog_plonk_index is None
            && a.challenge_polynomial_commitments is None ==> r == Err::<
            SideLoadedInputs,
            HostError,
        >(HostError::Json(Argument::ChallengePolynomialCommitments)),
        r matches Ok(i) ==> {
            &&& all_read(a.app_state@)
            &&& a.challenge_polynomial_commitments is Some
            &&& a.old_bulletproof_challenges is Some
            &&& a.proof is Some
            &&& are_read(a.app_state@, i.app_state@)
            &&& are_pairs_read(
                a.challenge_polynomial_commitments->0@,
                i.challenge_polynomial_commitments@,
            )
            &&& are_rows_read(a.old_bulletproof_challenges->0@, i.old_bulletproof_challenges@)
            &&& i.dlog_plonk_index is Some <==> a.dlog_plonk_index is Some
            &&& is_read(a.proof->0, Ok::<MinaWrapProof, BaseCaseBackendError>(i.proof))
        },
{
}

/// The rows of texts give what the pairs give: the first text of a row is the
/// abscissa, the second the ordinate.
pub proof fn rows_and_pairs_read_alike(
    rows: Seq<Vec<String>>,
    pairs: Seq<(String, String)>,
    from_rows: Seq<(Fp, Fp)>,
    from_pairs: Seq<(Fp, Fp)>,
    i: int,
)
    requires
        rows.len() == pairs.len(),
        forall|k: int|
            #![trigger rows[k]]
            0 <= k < rows.len() ==> rows[k]@.len() == 2 && rows[k]@[0]@ == pairs[k].0@
                && rows[k]@[1]@ == pairs[k].1@,
        are_row_pairs_read(rows, from_rows),
        are_pairs_read(pairs, from_pairs),
        0 <= i < rows.len(),
    ensures
        from_rows[i].0.view() == from_pairs[i].0.view(),
        from_rows[i].1.view() == from_pairs[i].1.view(),
{
    assert(pair_reads(rows[i]@, from_rows[i]));
    let both = seq![from_rows[i].0, from_rows[i].1];
    assert(both[0] == from_rows[i].0 && both[1] == from_rows[i].1);
    assert(fp_of_text(rows[i]@[0]@) == Some(both[0].view()));
    assert(fp_of_text(rows[i]@[1]@) == Some(both[1].view()));
    assert(fp_of_text(pairs[i].0@) == Some(from_pairs[i].0.view()));
}

/// A branch compiles as its width says: one that verifies one proof has the
/// one-proof form alone, one that verifies two the two-proof form alone, one that
/// verifies none neither.
pub proof fn branches_compile_by_their_width<
    C,
    B,
    H,
    M,
    N,
    E,
    CB: Fn(&C, &Vec<Fp>) -> Result<B, E>,
    CH: Fn(&B, &Vec<Fp>) -> Result<H, E>,
    CM: Fn(&H, &C, &Vec<Fp>) -> Result<M, E>,
    CN: Fn(&H, &H, &C, &Vec<Fp>) -> Result<N, E>,
>(
    branch: RecordedProgramBranch<C>,
    base: CB,
    donor: CH,
    n1: CM,
    n2: CN,
    compiled: (B, Option<M>, Option<N>),
)
    requires
        branch_compiled(
            branch,
            base,
            donor,
            n1,
            n2,
            Ok::<(B, Option<M>, Option<N>), (CompileStep, E)>(compiled),
        ),
    ensures
        call_ensures(base, (&branch.circuit, &branch.witness), Ok::<B, E>(compiled.0)),
        compiled.1 is Some <==> branch.proofs_verified == 1,
        compiled.2 is Some <==> branch.proofs_verified == 2,
{
}

/// Lines are joined by single newlines, in order.
pub proof fn lines_are_joined_in_order(a: Seq<String>, b: Seq<String>, line: String)
    requires
        a.len() > 0,
        b.len() > 0,
    ensures
        joined(seq![line]) == line@,
        joined(a + b) == joined(a) + "\n"@ + joined(b),
        joined(Seq::<String>::empty()) == Seq::<char>::empty(),
    decreases b.len(),
{
    assert((a + b).drop_last() =~= a + b.drop_last());
    assert((a + b).last() == b.last());
    if b.len() == 1 {
        assert(a + b.drop_last() =~= a);
    } else {
        lines_are_joined_in_order(a, b.drop_last(), line);
        assert(joined(a + b) =~= joined(a) + "\n"@ + joined(b));
    }
}

/// The census is reported counter by counter under their names, and starts over
/// at zero everywhere.
pub proof fn counters_are_reported_by_name(c: KernelCensus)
    ensures
        c.text() == "{\"poseidon_permutations\":"@ + decimal_chars(
            c.poseidon_permutations as nat,
        ) + ",\"msm_calls\":"@ + decimal_chars(c.msm_calls as nat) + ",\"msm_points\":"@
            + decimal_chars(c.msm_points as nat) + ",\"msm_calls_big\":"@ + decimal_chars(
            c.msm_calls_big as nat,
        ) + ",\"msm_points_big\":"@ + decimal_chars(c.msm_points_big as nat)
            + ",\"fft_calls\":"@ + decimal_chars(c.fft_calls as nat) + ",\"fft_elems\":"@
            + decimal_chars(c.fft_elems as nat) + ",\"fft_work\":"@ + decimal_chars(
            c.fft_work as nat,
        ) + "}"@,
        KernelCensus::zero().poseidon_permutations == 0,
        KernelCensus::zero().msm_calls == 0,
        KernelCensus::zero().msm_points == 0,
        KernelCensus::zero().msm_calls_big == 0,
        KernelCensus::zero().msm_points_big == 0,
        KernelCensus::zero().fft_calls == 0,
        KernelCensus::zero().fft_elems == 0,
        KernelCensus::zero().fft_work == 0,
{
}

/// A key decodes by the format that is named, and by no other.
pub proof fn keys_decode_by_their_format<
    K,
    E,
    A: Fn(&str) -> Result<K, E>,
    B: Fn(&Vec<u8>) -> Result<K, E>,
>(encoded: &str, format: Seq<char>, from_base58: A, from_bytes: B, k: K)
    requires
        key_decoded(
            encoded,
            format,
            from_base58,
            from_bytes,
            Ok::<K, KeyDecodingError<E>>(k),
        ),
    ensures
        format == "base58"@ || format == "base64"@,
        format == "base58"@ ==> call_ensures(from_base58, (encoded,), Ok::<K, E>(k)),
        format == "base64"@ && format != "base58"@ ==> base64_bytes(encoded@) is Some,
{
}

/// Seeding an entry touches its own side alone: the Vesta curve's entry the step
/// side, the Pallas curve's the wrap side, any other curve's neither, and never
/// the switch of the disk cache.
pub proof fn entries_touch_their_own_side<A: Fn(usize) -> Srs<Fq>, B: Fn(usize) -> Srs<Fp>>(
    before: SrsStore,
    entry: SeedEntry,
    payload: SeedPayload,
    create_tick: A,
    create_tock: B,
    after: SrsStore,
    r: bool,
)
    requires
        entry_seeded(before, entry, payload, create_tick, create_tock, after, r),
    ensures
        after.disk_cache_enabled == before.disk_cache_enabled,
        entry.curve@ == "vesta"@ ==> after.tock == before.tock,
        entry.curve@ == "pallas"@ && entry.curve@ != "vesta"@ ==> after.tick == before.tick,
        entry.curve@ != "vesta"@ && entry.curve@ != "pallas"@ ==> !r && after.tick == before.tick
            && after.tock == before.tock,
        payload is Malformed ==> !r,
{
}

/// The number of accepted entries is that of the answers that are yes.
pub proof fn accepted_entries_are_counted(answers: Seq<bool>, more: Seq<bool>, yes: bool)
    ensures
        accepted(seq![yes]) == if yes {
            1nat
        } else {
            0
        },
        accepted(answers + more) == accepted(answers) + accepted(more),
        accepted(answers) <= answers.len(),
    decreases more.len(), answers.len(),
{
    reveal_with_fuel(accepted, 2);
    assert(seq![yes].drop_last() =~= Seq::<bool>::empty());
    if more.len() == 0 {
        assert(answers + more =~= answers);
        if answers.len() > 0 {
            accepted_entries_are_counted(answers.drop_last(), more, yes);
        }
    } else {
        accepted_entries_are_counted(answers, more.drop_last(), yes);
        assert((answers + more).drop_last() =~= answers + more.drop_last());
        assert((answers + more).last() == more.last());
    }
}

/// A two-proof call is refused for the first argument that does not read.
pub proof fn two_proof_calls_name_the_first_fault<C>(
    circuit: Option<C>,
    first: Seq<String>,
    second: Seq<String>,
    app_state: Seq<String>,
)
    ensures
        ({
            let refusal = n2_refusal(circuit, first, second, app_state);
            &&& refusal is None <==> circuit is Some && all_read(first) && all_read(second)
                && all_read(app_state)
            &&& refusal == Some(None::<HostError>) <==> circuit is None
            &&& refusal == Some(Some(HostError::Decimal(Argument::FirstWitness))) <==> circuit
                is Some && !all_read(first)
            &&& refusal == Some(Some(HostError::Decimal(Argument::SecondWitness))) <==> circuit
                is Some && all_read(first) && !all_read(second)
            &&& refusal == Some(Some(HostError::Decimal(Argument::AppState))) <==> circuit is Some
                && all_read(first) && all_read(second) && !all_read(app_state)
        }),
{
}

/// Bytes are cut into thirty-twos, and only numbers below the modulus count.
pub proof fn elements_take_thirty_two_bytes(bytes: Seq<u8>, i: int)
    requires
        0 <= i,
        32 * i + 32 <= bytes.len(),
    ensures
        chunk(bytes, i) == bytes.skip(32 * i).take(32),
        all_canonical(bytes) ==> le_value(bytes.skip(32 * i).take(32)) < fp_modulus(),
{
    assert(chunk(bytes, i) =~= bytes.skip(32 * i).take(32));
    if all_canonical(bytes) {
        assert(0 <= i < bytes.len() / 32);
        assert(le_value(chunk(bytes, i)) < fp_modulus());
    }
}

/// What a prover says is handed on: its result as it is, its failure as its own.
pub proof fn provers_answers_are_handed_on<T, E>(t: T, e: E)
    ensures
        call_outcome(Ok::<T, E>(t)) == Ok::<T, CallError<E>>(t),
        call_outcome(Err::<T, E>(e)) == Err::<T, CallError<E>>(CallError::Prover(e)),
{
}

/// Reading goes element by element, each from its own text.
pub proof fn elements_read_from_their_own_text(values: Seq<String>, r: Seq<Fp>, i: int)
    requires
        are_read(values, r),
        0 <= i < values.len(),
    ensures
        r.len() == values.len(),
        fp_of_text(values[i]@) == Some(r[i].view()),
        is_plain_decimal(values[i]@) ==> r[i].view() == decimal_value(encode_utf8(values[i]@))
            as int % fp_modulus(),
        all_read(values),
{
    assert forall|k: int| 0 <= k < values.len() implies fp_of_text((#[trigger] values[k])@)
        is Some by {}
}

/// A row that is no pair of readable texts is refused by its first fault.
pub proof fn rows_are_refused_by_their_first_fault(row: Seq<String>, names: PointNames)
    ensures
        row.len() != 2 ==> row_refusal(row, names) == HostError::NotAPair(names.pair),
        row.len() == 2 && fp_of_text(row[0]@) is None ==> row_refusal(row, names)
            == HostError::Decimal(names.x),
        row.len() == 2 && fp_of_text(row[0]@) is Some ==> row_refusal(row, names)
            == HostError::Decimal(names.y),
        is_pair_read(row) <==> row.len() == 2 && fp_of_text(row[0]@) is Some && fp_of_text(
            row[1]@,
        ) is Some,
{
}

/// A refused pair is named by the coordinate that does not read, and every pair
/// before it reads.
pub proof fn pairs_are_refused_by_their_coordinate(
    pairs: Seq<(String, String)>,
    x_name: Argument,
    y_name: Argument,
    e: HostError,
)
    requires
        pair_refused(pairs, x_name, y_name, e),
        x_name != y_name,
    ensures
        exists|i: int|
            {
                &&& 0 <= i < pairs.len()
                &&& e == HostError::Decimal(x_name) <==> fp_of_text((#[trigger] pairs[i]).0@)
                    is None
                &&& e == HostError::Decimal(y_name) <==> fp_of_text(pairs[i].0@) is Some
                    && fp_of_text(pairs[i].1@) is None
                &&& all_pairs_read(pairs.take(i))
            },
{
}

/// Every argument that does not read is refused under its own name, in the order
/// state, key, commitments, challenges, proof; and nothing else is refused.
pub proof fn unread_rows_are_named_in_order(
    a: SideLoadedRows,
    r: Result<SideLoadedInputs, HostError>,
)
    requires
        rows_read(a, r),
    ensures
        ({
            let state = all_read(a.app_state@);
            let index = a.dlog_plonk_index matches Some(rows) ==> all_rows_are_pairs(rows@);
            let commitments = all_rows_are_pairs(a.challenge_polynomial_commitments@);
            let challenges = all_rows_read(a.old_bulletproof_challenges@);
            &&& !state ==> r == Err::<SideLoadedInputs, HostError>(
                HostError::Decimal(Argument::AppState),
            )
            &&& state && !index ==> r is Err && row_refused(
                a.dlog_plonk_index->0@,
                (PointNames {
                    pair: Argument::DlogPlonkIndex,
                    x: Argument::DlogPlonkIndex,
                    y: Argument::DlogPlonkIndex,
                }),
                r->Err_0,
            )
            &&& state && index && !commitments ==> r is Err && row_refused(
                a.challenge_polynomial_commitments@,
                (PointNames {
                    pair: Argument::ChallengePolynomialCommitments,
                    x: if a.dlog_plonk_index is Some {
                        Argument::ChallengePolynomialCommitments
                    } else {
                        Argument::CommitmentX
                    },
                    y: if a.dlog_plonk_index is Some {
                        Argument::ChallengePolynomialCommitments
                    } else {
                        Argument::CommitmentY
                    },
                }),
                r->Err_0,
            )
            &&& state && index && commitments && !challenges ==> r == Err::<
                SideLoadedInputs,
                HostError,
            >(HostError::Decimal(Argument::OldBulletproofChallenges))
            &&& state && index && commitments && challenges && a.proof is None ==> r == Err::<
                SideLoadedInputs,
                HostError,
            >(HostError::Proof(BaseCaseBackendError::O1jsJsonSerialization))
            &&& r matches Ok(i) ==> {
                &&& state && index && commitments && challenges && a.proof is Some
                &&& are_read(a.app_state@, i.app_state@)
                &&& are_row_pairs_read(
                    a.challenge_polynomial_commitments@,
                    i.challenge_polynomial_commitments@,
                )
                &&& are_rows_read(a.old_bulletproof_challenges@, i.old_bulletproof_challenges@)
                &&& i.dlog_plonk_index is Some <==> a.dlog_plonk_index is Some
                &&& a.dlog_plonk_index is Some ==> are_row_pairs_read(
                    a.dlog_plonk_index->0@,
                    i.dlog_plonk_index->0@,
                )
            }
            &&& state && index && commitments && challenges && a.proof is Some ==> (r matches Err(
                e,
            ) ==> e is Proof)
        }),
{
}

/// Every argument that does not read is refused under its own name, in the order
/// state, key, commitments, challenges, proof; and nothing else is refused.
pub proof fn unread_arguments_are_named_in_order(
    a: SideLoadedArguments,
    r: Result<SideLoadedInputs, HostError>,
)
    requires
        arguments_read(a, r),
    ensures
        ({
            let state = all_read(a.app_state@);
            let json = a.dlog_plonk_index matches Some(given) ==> given is Some;
            let index = a.dlog_plonk_index matches Some(Some(pairs)) ==> all_pairs_read(pairs@);
            let given = a.challenge_polynomial_commitments is Some;
            let commitments = all_pairs_read(a.challenge_polynomial_commitments->0@);
            let challenges = a.old_bulletproof_challenges matches Some(rows) && all_rows_read(
                rows@,
            );
            &&& state && !json ==> r == Err::<SideLoadedInputs, HostError>(
                HostError::Json(Argument::DlogPlonkIndex),
            )
            &&& state && json && !index ==> r == Err::<SideLoadedInputs, HostError>(
                HostError::Decimal(Argument::DlogPlonkIndex),
            )
            &&& state && json && index && !given ==> r == Err::<SideLoadedInputs, HostError>(
                HostError::Json(Argument::ChallengePolynomialCommitments),
            )
            &&& state && json && index && given && !commitments ==> r is Err && pair_refused(
                a.challenge_polynomial_commitments->0@,
                if a.dlog_plonk_index is Some {
                    Argument::ChallengePolynomialCommitments
                } else {
                    Argument::CommitmentX
                },
                if a.dlog_plonk_index is Some {
                    Argument::ChallengePolynomialCommitments
                } else {
                    Argument::CommitmentY
                },
                r->Err_0,
            )
            &&& state && json && index && given && commitments
                && a.old_bulletproof_challenges is None ==> r == Err::<SideLoadedInputs, HostError>(
                HostError::Json(Argument::OldBulletproofChallenges),
            )
            &&& state && json && index && given && commitments
                && a.old_bulletproof_challenges is Some && !challenges ==> r == Err::<
                SideLoadedInputs,
                HostError,
            >(HostError::Decimal(Argument::OldBulletproofChallenges))
            &&& state && json && index && given && commitments && challenges && a.proof is None
                ==> r == Err::<SideLoadedInputs, HostError>(
                HostError::Proof(BaseCaseBackendError::O1jsJsonSerialization),
            )
            &&& state && json && index && given && commitments && challenges && a.proof is Some
                ==> (r matches Err(e) ==> e is Proof)
            &&& r matches Ok(i) ==> (a.dlog_plonk_index matches Some(Some(pairs))
                ==> are_pairs_read(pairs@, i.dlog_plonk_index->0@))
        }),
{
}

/// A basis that reads is taken and one that does not is refused, whichever the
/// curve: the answer is yes if and only if the payload is a basis of the size for
/// a curve with a name.
pub proof fn readable_bases_are_taken<A: Fn(usize) -> Srs<Fq>, B: Fn(usize) -> Srs<Fp>>(
    before: SrsStore,
    entry: SeedEntry,
    comms: Vec<JsooComm>,
    create_tick: A,
    create_tock: B,
    after: SrsStore,
    r: bool,
)
    requires
        entry.domain_log2 >= 0,
        entry_seeded(
            before,
            entry,
            SeedPayload::Comms(comms),
            create_tick,
            create_tock,
            after,
            r,
        ),
    ensures
        ({
            let size = pow2(entry.domain_log2 as nat);
            let on_vesta = entry.curve@ == "vesta"@;
            let on_pallas = entry.curve@ == "pallas"@ && !on_vesta;
            &&& on_vesta && jsoo_basis_reads(Fq::modulus(), comms@, size as int) ==> r
            &&& on_pallas && jsoo_basis_reads(Fp::modulus(), comms@, size as int) ==> r
            &&& r && on_vesta ==> basis_seeded(
                before.tick,
                create_tick,
                0x1_0000,
                size as usize,
                jsoo_basis(Fq::modulus(), comms@),
                after.tick,
            )
            &&& r && on_pallas ==> basis_seeded(
                before.tock,
                create_tock,
                0x8000,
                size as usize,
                jsoo_basis(Fp::modulus(), comms@),
                after.tock,
            )
            &&& r ==> on_vesta || on_pallas
            &&& !r ==> after == before
        }),
{
}

/// A reference string is taken by its own side, in its own size.
pub proof fn readable_strings_are_taken<A: Fn(usize) -> Srs<Fq>, B: Fn(usize) -> Srs<Fp>>(
    before: SrsStore,
    entry: SeedEntry,
    points: Vec<JsooPoint>,
    create_tick: A,
    create_tock: B,
    after: SrsStore,
    r: bool,
)
    requires
        entry.domain_log2 < 0,
        entry_seeded(
            before,
            entry,
            SeedPayload::Points(points),
            create_tick,
            create_tock,
            after,
            r,
        ),
    ensures
        entry.curve@ == "vesta"@ ==> seeded(
            before.tick,
            srs_of_points(read_points(Fq::modulus(), jsoo_views(points@))),
            0x1_0000,
            after.tick,
            r,
        ),
        entry.curve@ == "pallas"@ && entry.curve@ != "vesta"@ ==> seeded(
            before.tock,
            srs_of_points(read_points(Fp::modulus(), jsoo_views(points@))),
            0x8000,
            after.tock,
            r,
        ),
{
}

/// A batch runs its entries in order, each on what the one before left.
pub proof fn batches_run_in_order<A: Fn(usize) -> Srs<Fq>, B: Fn(usize) -> Srs<Fp>>(
    stores: Seq<SrsStore>,
    entries: Seq<SeedEntry>,
    payloads: Seq<SeedPayload>,
    create_tick: A,
    create_tock: B,
    answers: Seq<bool>,
    i: int,
)
    requires
        batch_seeded(stores, entries, payloads, create_tick, create_tock, answers),
        0 <= i < answers.len(),
    ensures
        stores.len() == answers.len() + 1,
        entry_seeded(
            stores[i],
            entries[i],
            payloads[i],
            create_tick,
            create_tock,
            stores[i + 1],
            answers[i],
        ),
{
}

/// What a key that does not decode is refused for: a text that is not base64, a
/// format without a name, or what the decoder of the named format says.
pub proof fn undecoded_keys_name_their_fault<
    K,
    E,
    A: Fn(&str) -> Result<K, E>,
    B: Fn(&Vec<u8>) -> Result<K, E>,
>(
    encoded: &str,
    format: Seq<char>,
    from_base58: A,
    from_bytes: B,
    r: Result<K, KeyDecodingError<E>>,
)
    requires
        key_decoded(encoded, format, from_base58, from_bytes, r),
    ensures
        format != "base58"@ && format != "base64"@ ==> r == Err::<K, KeyDecodingError<E>>(
            KeyDecodingError::UnknownFormat,
        ),
        format == "base64"@ && format != "base58"@ && base64_bytes(encoded@) is None ==> r == Err::<
            K,
            KeyDecodingError<E>,
        >(KeyDecodingError::Base64),
        r matches Err(KeyDecodingError::Base58(e)) ==> format == "base58"@ && call_ensures(
            from_base58,
            (encoded,),
            Err::<K, E>(e),
        ),
{
}

/// A branch that does not compile failed at a step that its width has.
pub proof fn failed_branches_name_their_step<
    C,
    B,
    H,
    M,
    N,
    E,
    CB: Fn(&C, &Vec<Fp>) -> Result<B, E>,
    CH: Fn(&B, &Vec<Fp>) -> Result<H, E>,
    CM: Fn(&H, &C, &Vec<Fp>) -> Result<M, E>,
    CN: Fn(&H, &H, &C, &Vec<Fp>) -> Result<N, E>,
>(
    branch: RecordedProgramBranch<C>,
    base: CB,
    donor: CH,
    n1: CM,
    n2: CN,
    step: CompileStep,
    e: E,
)
    requires
        branch_compiled(
            branch,
            base,
            donor,
            n1,
            n2,
            Err::<(B, Option<M>, Option<N>), (CompileStep, E)>((step, e)),
        ),
    ensures
        step is Base ==> call_ensures(base, (&branch.circuit, &branch.witness), Err::<B, E>(e)),
        step is DonorTemplate ==> branch.proofs_verified > 0,
        step is N1 ==> branch.proofs_verified == 1,
        step is N2 ==> branch.proofs_verified == 2,
{
}

/// A call on texts runs the prover on what they read as; without a circuit or
/// with a text that does not read it does not run.
pub proof fn calls_run_on_what_reads<C, T, E, P: Fn(&C, &Vec<Fp>) -> Result<T, E>>(
    circuit: Option<C>,
    witness: Seq<String>,
    run: P,
    r: Result<T, CallError<E>>,
)
    requires
        ran_on_texts(circuit, witness, run, r),
    ensures
        circuit is None <==> r == Err::<T, CallError<E>>(CallError::Circuit),
        circuit is Some && !all_read(witness) ==> r == Err::<T, CallError<E>>(
            CallError::Host(HostError::Decimal(Argument::Witness)),
        ),
        circuit is Some && all_read(witness) ==> exists|w: Vec<Fp>, outcome: Result<T, E>|
            {
                &&& are_read(witness, w@)
                &&& #[trigger] call_ensures(run, (&circuit->0, &w), outcome)
                &&& outcome matches Ok(t) ==> r == Ok::<T, CallError<E>>(t)
                &&& outcome matches Err(e) ==> r == Err::<T, CallError<E>>(CallError::Prover(e))
            },
{
}

/// A program's branch is read part by part, and row lengths are the rows' own.
pub proof fn branches_are_read_part_by_part<C, T>(
    json: ProgramBranchJson<C>,
    read: RecordedProgramBranch<C>,
    lengths: Seq<usize>,
    rows: Seq<Vec<T>>,
    i: int,
)
    requires
        is_branch_read(json, read),
        are_lengths(lengths, rows),
    ensures
        read.circuit == json.circuit,
        read.proofs_verified == json.proofs_verified,
        are_read(json.witness@, read.witness@),
        lengths.len() == rows.len(),
        0 <= i < rows.len() ==> lengths[i] == rows[i]@.len(),
{
}

/// A list reads if and only if every item of it does: texts, pairs of texts, rows
/// of texts, rows that are pairs, and pieces of bytes.
pub proof fn lists_read_if_every_item_does(
    values: Seq<String>,
    pairs: Seq<(String, String)>,
    rows: Seq<Vec<String>>,
    bytes: Seq<u8>,
)
    ensures
        all_read(values) <==> forall|i: int|
            0 <= i < values.len() ==> fp_of_text((#[trigger] values[i])@) is Some,
        all_pairs_read(pairs) <==> forall|i: int|
            #![trigger pairs[i]]
            0 <= i < pairs.len() ==> fp_of_text(pairs[i].0@) is Some && fp_of_text(pairs[i].1@)
                is Some,
        all_rows_read(rows) <==> forall|i: int, k: int|
            0 <= i < rows.len() && 0 <= k < rows[i]@.len() ==> fp_of_text(
                (#[trigger] rows[i]@[k])@,
            ) is Some,
        all_rows_are_pairs(rows) <==> forall|i: int|
            #![trigger rows[i]]
            0 <= i < rows.len() ==> rows[i]@.len() == 2 && fp_of_text(rows[i]@[0]@) is Some
                && fp_of_text(rows[i]@[1]@) is Some,
        all_canonical(bytes) <==> forall|i: int|
            0 <= i < bytes.len() / 32 ==> le_value(#[trigger] chunk(bytes, i)) < fp_modulus(),
        some_not_plain(values) <==> exists|i: int|
            0 <= i < values.len() && !is_plain_decimal((#[trigger] values[i])@),
{
    if all_rows_read(rows) {
        assert forall|i: int, k: int|
            0 <= i < rows.len() && 0 <= k < rows[i]@.len() implies fp_of_text(
            (#[trigger] rows[i]@[k])@,
        ) is Some by {
            assert(all_read(rows[i]@));
        }
    }
    if forall|i: int, k: int|
        0 <= i < rows.len() && 0 <= k < rows[i]@.len() ==> fp_of_text((#[trigger] rows[i]@[k])@)
            is Some {
        assert forall|i: int| 0 <= i < rows.len() implies all_read((#[trigger] rows[i])@) by {}
    }
    if all_rows_are_pairs(rows) {
        assert forall|i: int|
            #![trigger rows[i]]
            0 <= i < rows.len() implies rows[i]@.len() == 2 && fp_of_text(rows[i]@[0]@) is Some
            && fp_of_text(rows[i]@[1]@) is Some by {
            assert(is_pair_read(rows[i]@));
        }
    }
}

/// A row that reads as a pair has two texts, the abscissa's and the ordinate's.
pub proof fn pairs_read_abscissa_first(row: Seq<String>, r: (Fp, Fp))
    requires
        pair_reads(row, r),
    ensures
        row.len() == 2,
        fp_of_text(row[0]@) == Some(r.0.view()),
        fp_of_text(row[1]@) == Some(r.1.view()),
{
    let both = seq![r.0, r.1];
    assert(both[0] == r.0 && both[1] == r.1);
    assert(fp_of_text(row[0]@) == Some(both[0].view()));
    assert(fp_of_text(row[1]@) == Some(both[1].view()));
}

/// A base envelope reads back as the state and the proof that were put in.
pub proof fn base_envelopes_read_back(
    e: BaseEnvelope,
    app_state: Seq<Fp>,
    proof: MinaWrapProof,
    state_read: Seq<Fp>,
    proof_read: Result<MinaWrapProof, BaseCaseBackendError>,
    i: int,
)
    requires
        is_base_envelope(e, app_state, proof),
        are_read(e.app_state@, state_read),
        is_read(e.proof, proof_read),
    ensures
        state_read.len() == app_state.len(),
        0 <= i < app_state.len() ==> state_read[i].view() == app_state[i].view(),
        proof_read is Ok,
        crate::api::same_proof(proof, proof_read->Ok_0),
{
    decimals_read_back(e.app_state@, app_state, state_read);
    crate::api::envelopes_round_trip(proof, e.proof, proof_read);
}

} // verus!
