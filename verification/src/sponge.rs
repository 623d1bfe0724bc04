//! Transcripts of a sponge.
//!
//! What a sponge answers is a function of all that was absorbed and squeezed
//! before, so a sponge is given by its transcript and by a function that answers
//! the last squeeze of a transcript.

use vstd::prelude::*;

use crate::curve::Point;
use crate::field::PrimeField;

verus! {

/// One operation on a sponge.
#[derive(Clone, Copy, Debug, PartialEq, Eq)]
pub enum SpongeOp<F> {
    Absorb(F),
    Squeeze,
}

/// The residue of what is absorbed, none for a squeeze.
pub open spec fn op_residue<F: PrimeField>(op: SpongeOp<F>) -> Option<int> {
    match op {
        SpongeOp::Absorb(x) => Some(x.view()),
        SpongeOp::Squeeze => None,
    }
}

/// A transcript by residues.
pub open spec fn op_residues<F: PrimeField>(ops: Seq<SpongeOp<F>>) -> Seq<Option<int>> {
    Seq::new(ops.len(), |i: int| op_residue(ops[i]))
}

/// The absorption of residues.
pub open spec fn absorbing(xs: Seq<int>) -> Seq<Option<int>> {
    Seq::new(xs.len(), |i: int| Some(xs[i]))
}

/// The coordinates of points, one after the other.
pub open spec fn coordinates<F: PrimeField>(points: Seq<Point<F>>) -> Seq<int>
    decreases points.len(),
{
    if points.len() == 0 {
        Seq::empty()
    } else {
        coordinates(points.drop_last()) + seq![points.last().x.view(), points.last().y.view()]
    }
}

/// The coordinates of the points of every row.
pub open spec fn row_coordinates<F: PrimeField>(rows: Seq<Vec<Point<F>>>) -> Seq<int>
    decreases rows.len(),
{
    if rows.len() == 0 {
        Seq::empty()
    } else {
        row_coordinates(rows.drop_last()) + coordinates(rows.last()@)
    }
}

/// `reply` is an answer of the sponge to the last squeeze of a transcript.
pub open spec fn replied<F: PrimeField, H: Fn(&Vec<SpongeOp<F>>) -> F>(
    sponge: H,
    ops: Seq<Option<int>>,
    reply: F,
) -> bool {
    exists|v: Vec<SpongeOp<F>>|
        op_residues(v@) == ops && #[trigger] call_ensures(sponge, (&v,), reply)
}

/// Absorbs an element.
pub fn absorb<F: PrimeField>(ops: &mut Vec<SpongeOp<F>>, x: F)
    ensures
        op_residues(final(ops)@) == op_residues(old(ops)@) + absorbing(seq![x.view()]),
{
    ops.push(SpongeOp::Absorb(x));
    assert(op_residues(ops@) =~= op_residues(old(ops)@) + absorbing(seq![x.view()]));
}

/// Absorbs elements in order.
pub fn absorb_all<F: PrimeField>(ops: &mut Vec<SpongeOp<F>>, xs: &[F])
    ensures
        op_residues(final(ops)@) == op_residues(old(ops)@) + absorbing(
            crate::field::residues(xs@),
        ),
{
    let ghost before = op_residues(ops@);
    let ghost all = crate::field::residues(xs@);
    let mut i: usize = 0;
    while i < xs.len()
        invariant
            i <= xs@.len(),
            all == crate::field::residues(xs@),
            op_residues(ops@) =~= before + absorbing(all.take(i as int)),
        decreases xs.len() - i,
    {
        absorb(ops, xs[i]);
        i = i + 1;
    }
    assert(all.take(i as int) =~= all);
}

/// Absorbs a point, `x` before `y`.
pub fn absorb_point<F: PrimeField>(ops: &mut Vec<SpongeOp<F>>, p: &Point<F>)
    ensures
        op_residues(final(ops)@) == op_residues(old(ops)@) + absorbing(
            seq![p.x.view(), p.y.view()],
        ),
{
    absorb(ops, p.x);
    absorb(ops, p.y);
    assert(op_residues(ops@) =~= op_residues(old(ops)@) + absorbing(
        seq![p.x.view(), p.y.view()],
    ));
}

/// Absorbs the chunks of a commitment.
pub fn absorb_commitment<F: PrimeField>(ops: &mut Vec<SpongeOp<F>>, chunks: &[Point<F>])
    ensures
        op_residues(final(ops)@) == op_residues(old(ops)@) + absorbing(coordinates(chunks@)),
{
    let ghost before = op_residues(ops@);
    let mut i: usize = 0;
    assert(coordinates(chunks@.take(0)) =~= Seq::empty());
    while i < chunks.len()
        invariant
            i <= chunks@.len(),
            op_residues(ops@) =~= before + absorbing(coordinates(chunks@.take(i as int))),
        decreases chunks.len() - i,
    {
        absorb_point(ops, &chunks[i]);
        assert(chunks@.take(i + 1).drop_last() =~= chunks@.take(i as int));
        i = i + 1;
    }
    assert(chunks@.take(i as int) =~= chunks@);
}

/// Absorbs commitments, each by its chunks.
pub fn absorb_commitments<F: PrimeField>(ops: &mut Vec<SpongeOp<F>>, rows: &[Vec<Point<F>>])
    ensures
        op_residues(final(ops)@) == op_residues(old(ops)@) + absorbing(row_coordinates(rows@)),
{
    let ghost before = op_residues(ops@);
    let mut i: usize = 0;
    assert(row_coordinates(rows@.take(0)) =~= Seq::empty());
    while i < rows.len()
        invariant
            i <= rows@.len(),
            op_residues(ops@) =~= before + absorbing(row_coordinates(rows@.take(i as int))),
        decreases rows.len() - i,
    {
        absorb_commitment(ops, rows[i].as_slice());
        assert(rows@.take(i + 1).drop_last() =~= rows@.take(i as int));
        i = i + 1;
    }
    assert(rows@.take(i as int) =~= rows@);
}

/// Squeezes once: extends the transcript, and asks the sponge.
pub fn squeeze<F: PrimeField, H: Fn(&Vec<SpongeOp<F>>) -> F>(
    ops: &mut Vec<SpongeOp<F>>,
    sponge: &H,
) -> (r: F)
    requires
        forall|v: &Vec<SpongeOp<F>>| call_requires(*sponge, (v,)),
    ensures
        op_residues(final(ops)@) == op_residues(old(ops)@).push(None),
        replied(*sponge, op_residues(final(ops)@), r),
{
    ops.push(SpongeOp::Squeeze);
    assert(op_residues(ops@) =~= op_residues(old(ops)@).push(None));
    let r = sponge(ops);
    r
}

/// A list of points gives two coordinates each, in order, the abscissa first.
pub proof fn points_give_their_coordinates<F: PrimeField>(points: Seq<Point<F>>)
    ensures
        coordinates(points).len() == 2 * points.len(),
        forall|i: int|
            #![trigger points[i]]
            0 <= i < points.len() ==> coordinates(points)[2 * i] == points[i].x.view()
                && coordinates(points)[2 * i + 1] == points[i].y.view(),
    decreases points.len(),
{
    if points.len() > 0 {
        points_give_their_coordinates(points.drop_last());
        let n = points.len() - 1;
        assert forall|i: int| #![trigger points[i]] 0 <= i < points.len() implies coordinates(
            points,
        )[2 * i] == points[i].x.view() && coordinates(points)[2 * i + 1]
            == points[i].y.view() by {
            if i < n {
                assert(points.drop_last()[i] == points[i]);
            }
        }
    }
}

/// The coordinates of rows of points are those of the points laid end to end.
pub proof fn rows_give_the_coordinates_of_their_points<F: PrimeField>(
    rows: Seq<Vec<Point<F>>>,
)
    ensures
        row_coordinates(rows) == coordinates(crate::sequences::concat_rows(rows)),
    decreases rows.len(),
{
    if rows.len() > 0 {
        rows_give_the_coordinates_of_their_points(rows.drop_last());
        coordinates_of_two_lists(crate::sequences::concat_rows(rows.drop_last()), rows.last()@);
    }
}

/// The coordinates of two lists are those of the first, then those of the second.
pub proof fn coordinates_of_two_lists<F: PrimeField>(a: Seq<Point<F>>, b: Seq<Point<F>>)
    ensures
        coordinates(a + b) == coordinates(a) + coordinates(b),
    decreases b.len(),
{
    if b.len() == 0 {
        assert(a + b =~= a);
        assert(coordinates(a) + coordinates(b) =~= coordinates(a));
    } else {
        coordinates_of_two_lists(a, b.drop_last());
        assert((a + b).drop_last() =~= a + b.drop_last());
        assert((a + b).last() == b.last());
        assert(coordinates(a + b) =~= coordinates(a) + coordinates(b));
    }
}

/// A transcript tells its operations apart: an absorbed element shows as its
/// residue, a squeeze as nothing, in order.
pub proof fn operations_show_as_residues<F: PrimeField>(
    ops: Seq<SpongeOp<F>>,
    xs: Seq<int>,
    i: int,
    x: F,
)
    requires
        0 <= i < ops.len(),
    ensures
        op_residues(ops).len() == ops.len(),
        ops[i] == SpongeOp::Absorb(x) ==> op_residues(ops)[i] == Some(x.view()),
        ops[i] is Squeeze <==> op_residues(ops)[i] is None,
        absorbing(xs).len() == xs.len(),
        forall|k: int| 0 <= k < xs.len() ==> #[trigger] absorbing(xs)[k] == Some(xs[k]),
{
}

/// A reply is an answer to the whole transcript: what the sponge returns for its
/// operations, and nothing else.
pub proof fn replies_answer_the_whole_transcript<F: PrimeField, H: Fn(&Vec<SpongeOp<F>>) -> F>(
    sponge: H,
    v: Vec<SpongeOp<F>>,
    ops: Seq<Option<int>>,
    reply: F,
)
    ensures
        call_ensures(sponge, (&v,), reply) ==> replied(sponge, op_residues(v@), reply),
        replied(sponge, ops, reply) ==> exists|w: Vec<SpongeOp<F>>| #[trigger]
            call_ensures(sponge, (&w,), reply) && w@.len() == ops.len() && forall|i: int|
                0 <= i < ops.len() ==> op_residue(#[trigger] w@[i]) == ops[i],
{
    if replied(sponge, ops, reply) {
        let w = choose|w: Vec<SpongeOp<F>>|
            op_residues(w@) == ops && #[trigger] call_ensures(sponge, (&w,), reply);
        assert(op_residues(w@).len() == w@.len());
        assert forall|i: int| 0 <= i < ops.len() implies op_residue(#[trigger] w@[i]) == ops[i] by {
            assert(op_residues(w@)[i] == ops[i]);
        }
    }
}

} // verus!
