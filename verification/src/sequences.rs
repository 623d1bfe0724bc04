//! Building vectors by concatenation.

use vstd::prelude::*;

verus! {

/// The rows one after the other.
pub open spec fn concat_rows<T>(rows: Seq<Vec<T>>) -> Seq<T>
    decreases rows.len(),
{
    if rows.len() == 0 {
        Seq::empty()
    } else {
        concat_rows(rows.drop_last()) + rows.last()@
    }
}

/// The items whose bit is set, in order.
pub open spec fn kept<T>(keep: Seq<bool>, items: Seq<T>) -> Seq<T>
    decreases items.len(),
{
    if items.len() == 0 {
        Seq::empty()
    } else if keep.last() {
        kept(keep.drop_last(), items.drop_last()).push(items.last())
    } else {
        kept(keep.drop_last(), items.drop_last())
    }
}

/// Appends the elements of a slice.
pub fn append<T: Copy>(out: &mut Vec<T>, xs: &[T])
    ensures
        final(out)@ == old(out)@ + xs@,
{
    let mut i: usize = 0;
    while i < xs.len()
        invariant
            i <= xs.len(),
            out@ == old(out)@ + xs@.take(i as int),
        decreases xs.len() - i,
    {
        out.push(xs[i]);
        i = i + 1;
        assert(xs@.take(i as int) == xs@.take(i - 1).push(xs@[i - 1]));
    }
    assert(xs@.take(i as int) == xs@);
}

/// `copies` holds clones of the items, in order.
pub open spec fn are_clones<T: Clone>(items: Seq<T>, copies: Seq<T>) -> bool {
    &&& copies.len() == items.len()
    &&& forall|i: int| 0 <= i < items.len() ==> cloned(items[i], #[trigger] copies[i])
}

/// Appends clones of the elements of a slice.
pub fn append_clones<T: Clone>(out: &mut Vec<T>, xs: &[T])
    ensures
        final(out)@.len() == old(out)@.len() + xs@.len(),
        final(out)@.take(old(out)@.len() as int) == old(out)@,
        are_clones(xs@, final(out)@.skip(old(out)@.len() as int)),
{
    let ghost n = out@.len() as int;
    let mut i: usize = 0;
    while i < xs.len()
        invariant
            i <= xs.len(),
            n == old(out)@.len(),
            out@.len() == n + i,
            out@.take(n) == old(out)@,
            forall|k: int| 0 <= k < i ==> cloned(xs@[k], #[trigger] out@[n + k]),
        decreases xs.len() - i,
    {
        let ghost before = out@;
        out.push(xs[i].clone());
        i = i + 1;
        assert(out@.take(n) =~= before.take(n));
    }
    assert forall|k: int| 0 <= k < xs@.len() implies cloned(
        xs@[k],
        #[trigger] out@.skip(n)[k],
    ) by {
        assert(out@.skip(n)[k] == out@[n + k]);
    }
}

/// Appends every row.
pub fn append_rows<T: Copy>(out: &mut Vec<T>, rows: &[Vec<T>])
    ensures
        final(out)@ == old(out)@ + concat_rows(rows@),
{
    let mut i: usize = 0;
    while i < rows.len()
        invariant
            i <= rows.len(),
            out@ == old(out)@ + concat_rows(rows@.take(i as int)),
        decreases rows.len() - i,
    {
        append(out, rows[i].as_slice());
        i = i + 1;
        assert(rows@.take(i as int).drop_last() == rows@.take(i - 1));
        assert(rows@.take(i as int).last() == rows@[i - 1]);
    }
    assert(rows@.take(i as int) == rows@);
}

/// Appends the rows whose bit is set.
pub fn append_kept_rows<T: Copy>(out: &mut Vec<T>, keep: &[bool], rows: &[Vec<T>])
    requires
        keep@.len() == rows@.len(),
    ensures
        final(out)@ == old(out)@ + concat_rows(kept(keep@, rows@)),
{
    let mut i: usize = 0;
    while i < rows.len()
        invariant
            i <= rows.len(),
            keep@.len() == rows@.len(),
            out@ == old(out)@ + concat_rows(kept(keep@.take(i as int), rows@.take(i as int))),
        decreases rows.len() - i,
    {
        let ghost before = kept(keep@.take(i as int), rows@.take(i as int));
        if keep[i] {
            append(out, rows[i].as_slice());
        }
        i = i + 1;
        proof {
            lemma_kept_step(keep@, rows@, i - 1);
            assert(before.push(rows@[i - 1]).drop_last() == before);
        }
    }
    assert(rows@.take(i as int) == rows@);
    assert(keep@.take(i as int) == keep@);
}

/// One more item is kept exactly when its bit is set.
pub proof fn lemma_kept_step<T>(keep: Seq<bool>, items: Seq<T>, i: int)
    requires
        0 <= i < items.len(),
        keep.len() == items.len(),
    ensures
        kept(keep.take(i + 1), items.take(i + 1)) == if keep[i] {
            kept(keep.take(i), items.take(i)).push(items[i])
        } else {
            kept(keep.take(i), items.take(i))
        },
{
    assert(items.take(i + 1).drop_last() == items.take(i));
    assert(keep.take(i + 1).drop_last() == keep.take(i));
    assert(items.take(i + 1).last() == items[i]);
    assert(keep.take(i + 1).last() == keep[i]);
}

/// A mask of all ones keeps everything.
pub proof fn full_mask_keeps_everything<T>(keep: Seq<bool>, items: Seq<T>)
    requires
        keep.len() == items.len(),
        forall|i: int| 0 <= i < keep.len() ==> keep[i],
    ensures
        kept(keep, items) == items,
    decreases items.len(),
{
    if items.len() > 0 {
        full_mask_keeps_everything(keep.drop_last(), items.drop_last());
        assert(items.drop_last().push(items.last()) == items);
    }
}

/// A copy of a list.
pub fn copied<T: Copy>(v: &Vec<T>) -> (r: Vec<T>)
    ensures
        r@ == v@,
{
    let mut out: Vec<T> = Vec::new();
    append(&mut out, v.as_slice());
    assert(out@ =~= v@);
    out
}

/// Both have the same rows.
pub open spec fn same_rows<T>(a: Seq<Vec<T>>, b: Seq<Vec<T>>) -> bool {
    &&& a.len() == b.len()
    &&& forall|i: int| 0 <= i < a.len() ==> (#[trigger] a[i])@ == b[i]@
}

/// A copy of a list of lists.
pub fn copied_rows<T: Copy>(rows: &Vec<Vec<T>>) -> (r: Vec<Vec<T>>)
    ensures
        same_rows(r@, rows@),
{
    let mut out: Vec<Vec<T>> = Vec::new();
    let mut i: usize = 0;
    while i < rows.len()
        invariant
            i <= rows@.len(),
            out@.len() == i,
            forall|k: int| 0 <= k < i ==> (#[trigger] out@[k])@ == rows@[k]@,
        decreases rows.len() - i,
    {
        out.push(copied(&rows[i]));
        i = i + 1;
    }
    out
}

/// Rows are laid end to end: the rows of two lists give what each list gives,
/// one after the other, a single row gives itself, and no row nothing.
pub proof fn rows_are_laid_end_to_end<T>(a: Seq<Vec<T>>, b: Seq<Vec<T>>, row: Vec<T>)
    ensures
        concat_rows(a + b) == concat_rows(a) + concat_rows(b),
        concat_rows(seq![row]) == row@,
        concat_rows(Seq::<Vec<T>>::empty()) == Seq::<T>::empty(),
    decreases b.len(),
{
    reveal_with_fuel(concat_rows, 2);
    assert(seq![row].drop_last() =~= Seq::<Vec<T>>::empty());
    assert(concat_rows(seq![row]) =~= row@);
    if b.len() == 0 {
        assert(a + b =~= a);
    } else {
        rows_are_laid_end_to_end(a, b.drop_last(), row);
        assert((a + b).drop_last() =~= a + b.drop_last());
        assert((a + b).last() == b.last());
        assert(concat_rows(a + b) =~= concat_rows(a) + concat_rows(b));
    }
}

/// Keeping goes item by item: two masked lists keep what each keeps, one after
/// the other, and a single item is kept if and only if its own bit is set.
pub proof fn keeping_goes_item_by_item<T>(
    ka: Seq<bool>,
    a: Seq<T>,
    kb: Seq<bool>,
    b: Seq<T>,
    keep: bool,
    item: T,
)
    requires
        ka.len() == a.len(),
        kb.len() == b.len(),
    ensures
        kept(ka + kb, a + b) == kept(ka, a) + kept(kb, b),
        kept(seq![keep], seq![item]) == if keep {
            seq![item]
        } else {
            Seq::empty()
        },
        kept(Seq::<bool>::empty(), Seq::<T>::empty()) == Seq::<T>::empty(),
    decreases b.len(),
{
    reveal_with_fuel(kept, 2);
    assert(seq![item].drop_last() =~= Seq::<T>::empty());
    assert(kept(seq![keep], seq![item]) =~= if keep {
        seq![item]
    } else {
        Seq::empty()
    });
    if b.len() == 0 {
        assert(a + b =~= a);
        assert(ka + kb =~= ka);
        assert(kept(ka, a) + kept(kb, b) =~= kept(ka, a));
    } else {
        keeping_goes_item_by_item(ka, a, kb.drop_last(), b.drop_last(), keep, item);
        assert((a + b).drop_last() =~= a + b.drop_last());
        assert((ka + kb).drop_last() =~= ka + kb.drop_last());
        assert((a + b).last() == b.last());
        assert((ka + kb).last() == kb.last());
        assert(kept(ka + kb, a + b) =~= kept(ka, a) + kept(kb, b));
    }
}

} // verus!
