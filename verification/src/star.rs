//! Building blocks for star-shaped instance construction: strategies for
//! offer and travel-time generation, and the matrix combinators that stitch
//! per-path sub-instances into one table.
//!
//! The combinators expect valid inputs: rectangular matrices where a width
//! is read, and distinct in-range indices where values are scattered.

use vstd::prelude::*;

verus! {

/// How buy and sell offers of a generated path are laid out.
#[derive(Clone)]
pub enum OfferGenerationStrategy {
    /// One product per path: buy everything at the first stop, sell it all
    /// at the last.
    SingleProductBuyFirstSellLast,
}

/// How travel times of a generated path are laid out.
#[derive(Clone)]
pub enum TravelTimeGenerationStrategy {
    /// The path's travel expense is spread evenly over its legs.
    Even,
}

/// Block-diagonal composition: `m1` extended by `m2`, with `fill` in the two
/// off-diagonal blocks.  An empty operand leaves the other unchanged.
pub fn extend_matrix<T: Copy>(m1: Vec<Vec<T>>, m2: Vec<Vec<T>>, fill: &T) -> (r: Vec<Vec<T>>)
    requires
        forall|i: int| 0 <= i < m1@.len() ==> (#[trigger] m1@[i])@.len() == m1@[0]@.len(),
        forall|i: int| 0 <= i < m2@.len() ==> (#[trigger] m2@[i])@.len() == m2@[0]@.len(),
    ensures
        m1@.len() == 0 ==> r@ == m2@,
        m1@.len() > 0 && m2@.len() == 0 ==> r@ == m1@,
        m1@.len() > 0 && m2@.len() > 0 ==> {
            let h1 = m1@.len() as int;
            let w1 = m1@[0]@.len() as int;
            let w2 = m2@[0]@.len() as int;
            &&& r@.len() == h1 + m2@.len()
            &&& forall|i: int|
                0 <= i < h1 ==> (#[trigger] r@[i])@.len() == w1 + w2 && (forall|k: int|
                    0 <= k < w1 ==> #[trigger] r@[i]@[k] == m1@[i]@[k]) && (forall|k: int|
                    w1 <= k < w1 + w2 ==> #[trigger] r@[i]@[k] == fill)
            &&& forall|i: int|
                h1 <= i < r@.len() ==> (#[trigger] r@[i])@.len() == w1 + w2 && (forall|k: int|
                    0 <= k < w1 ==> #[trigger] r@[i]@[k] == fill) && (forall|k: int|
                    w1 <= k < w1 + w2 ==> #[trigger] r@[i]@[k] == m2@[i - h1]@[k - w1])
        },
{
    if m1.len() == 0 {
        return m2;
    }
    if m2.len() == 0 {
        return m1;
    }
    let w1 = m1[0].len();
    let w2 = m2[0].len();
    let mut r: Vec<Vec<T>> = Vec::new();
    for i in 0..m1.len()
        invariant
            forall|ii: int| 0 <= ii < m1@.len() ==> (#[trigger] m1@[ii])@.len() == m1@[0]@.len(),
            m1@.len() > 0,
            w1 == m1@[0]@.len(),
            r@.len() == i,
            forall|ii: int|
                0 <= ii < i ==> (#[trigger] r@[ii])@.len() == w1 + w2 && (forall|k: int|
                    0 <= k < w1 ==> #[trigger] r@[ii]@[k] == m1@[ii]@[k]) && (forall|k: int|
                    w1 <= k < w1 + w2 ==> #[trigger] r@[ii]@[k] == fill),
    {
        let mut row: Vec<T> = Vec::new();
        for k in 0..w1
            invariant
                forall|ii: int|
                    0 <= ii < m1@.len() ==> (#[trigger] m1@[ii])@.len() == m1@[0]@.len(),
                i < m1@.len(),
                w1 == m1@[0]@.len(),
                row@.len() == k,
                forall|kk: int| 0 <= kk < k ==> #[trigger] row@[kk] == m1@[i as int]@[kk],
        {
            row.push(m1[i][k]);
        }
        for k in 0..w2
            invariant
                row@.len() == w1 + k,
                forall|kk: int| 0 <= kk < w1 ==> #[trigger] row@[kk] == m1@[i as int]@[kk],
                forall|kk: int| w1 <= kk < w1 + k ==> #[trigger] row@[kk] == fill,
        {
            row.push(*fill);
        }
        r.push(row);
    }
    let h1 = m1.len();
    for i in 0..m2.len()
        invariant
            forall|ii: int| 0 <= ii < m2@.len() ==> (#[trigger] m2@[ii])@.len() == m2@[0]@.len(),
            m2@.len() > 0,
            w2 == m2@[0]@.len(),
            h1 == m1@.len(),
            r@.len() == h1 + i,
            forall|ii: int|
                0 <= ii < h1 ==> (#[trigger] r@[ii])@.len() == w1 + w2 && (forall|k: int|
                    0 <= k < w1 ==> #[trigger] r@[ii]@[k] == m1@[ii]@[k]) && (forall|k: int|
                    w1 <= k < w1 + w2 ==> #[trigger] r@[ii]@[k] == fill),
            forall|ii: int|
                h1 <= ii < h1 + i ==> (#[trigger] r@[ii])@.len() == w1 + w2 && (forall|k: int|
                    0 <= k < w1 ==> #[trigger] r@[ii]@[k] == fill) && (forall|k: int|
                    w1 <= k < w1 + w2 ==> #[trigger] r@[ii]@[k] == m2@[ii - h1]@[k - w1]),
            forall|ii: int|
                0 <= ii < m1@.len() ==> (#[trigger] m1@[ii])@.len() == m1@[0]@.len(),
            m1@.len() > 0,
            w1 == m1@[0]@.len(),
    {
        let mut row: Vec<T> = Vec::new();
        for k in 0..w1
            invariant
                row@.len() == k,
                forall|kk: int| 0 <= kk < k ==> #[trigger] row@[kk] == fill,
        {
            row.push(*fill);
        }
        for k in 0..w2
            invariant
                forall|ii: int|
                    0 <= ii < m2@.len() ==> (#[trigger] m2@[ii])@.len() == m2@[0]@.len(),
                i < m2@.len(),
                w2 == m2@[0]@.len(),
                row@.len() == w1 + k,
                forall|kk: int| 0 <= kk < w1 ==> #[trigger] row@[kk] == fill,
                forall|kk: int| w1 <= kk < w1 + k ==> #[trigger] row@[kk] == m2@[i as int]@[kk - w1],
        {
            row.push(m2[i][k]);
        }
        r.push(row);
    }
    r
}

/// Prepends a `fill` entry to every row, then a `fill` row on top.  An empty
/// matrix stays empty.
pub fn prepend_column_and_row<T: Copy>(m: Vec<Vec<T>>, fill: &T) -> (r: Vec<Vec<T>>)
    ensures
        m@.len() == 0 ==> r@.len() == 0,
        m@.len() > 0 ==> {
            &&& r@.len() == m@.len() + 1
            &&& (r@[0])@.len() == m@[0]@.len() + 1
            &&& forall|k: int| 0 <= k < r@[0]@.len() ==> #[trigger] r@[0]@[k] == fill
            &&& forall|i: int|
                1 <= i < r@.len() ==> (#[trigger] r@[i])@.len() == m@[i - 1]@.len() + 1 && r@[i]@[0]
                    == fill && (forall|k: int|
                    1 <= k < r@[i]@.len() ==> #[trigger] r@[i]@[k] == m@[i - 1]@[k - 1])
        },
{
    let mut widened: Vec<Vec<T>> = Vec::new();
    for i in 0..m.len()
        invariant
            widened@.len() == i,
            forall|ii: int|
                0 <= ii < i ==> (#[trigger] widened@[ii])@.len() == m@[ii]@.len() + 1
                    && widened@[ii]@[0] == fill && (forall|k: int|
                    1 <= k < widened@[ii]@.len() ==> #[trigger] widened@[ii]@[k] == m@[ii]@[k - 1]),
    {
        let mut row: Vec<T> = Vec::new();
        row.push(*fill);
        let row_len = m[i].len();
        for k in 0..row_len
            invariant
                i < m@.len(),
                row_len == m@[i as int]@.len(),
                row@.len() == k + 1,
                row@[0] == fill,
                forall|kk: int| 1 <= kk < k + 1 ==> #[trigger] row@[kk] == m@[i as int]@[kk - 1],
        {
            row.push(m[i][k]);
        }
        widened.push(row);
    }
    prepend_row(widened, fill)
}

/// Prepends a `fill` row with the width of the first row.  An empty matrix
/// stays empty.
pub fn prepend_row<T: Copy>(m: Vec<Vec<T>>, fill: &T) -> (r: Vec<Vec<T>>)
    ensures
        m@.len() == 0 ==> r@.len() == 0,
        m@.len() > 0 ==> {
            &&& r@.len() == m@.len() + 1
            &&& (r@[0])@.len() == m@[0]@.len()
            &&& forall|k: int| 0 <= k < r@[0]@.len() ==> #[trigger] r@[0]@[k] == fill
            &&& forall|i: int| 1 <= i < r@.len() ==> (#[trigger] r@[i])@ == m@[i - 1]@
        },
{
    if m.len() == 0 {
        return m;
    }
    let w = m[0].len();
    let mut r: Vec<Vec<T>> = Vec::new();
    let mut top: Vec<T> = Vec::new();
    for k in 0..w
        invariant
            top@.len() == k,
            forall|kk: int| 0 <= kk < k ==> #[trigger] top@[kk] == fill,
    {
        top.push(*fill);
    }
    r.push(top);
    for i in 0..m.len()
        invariant
            m@.len() > 0,
            w == m@[0]@.len(),
            r@.len() == i + 1,
            (r@[0])@.len() == w,
            forall|kk: int| 0 <= kk < w ==> #[trigger] r@[0]@[kk] == fill,
            forall|ii: int| 1 <= ii < i + 1 ==> (#[trigger] r@[ii])@ == m@[ii - 1]@,
    {
        let mut row: Vec<T> = Vec::new();
        let row_len = m[i].len();
        for k in 0..row_len
            invariant
                i < m@.len(),
                row_len == m@[i as int]@.len(),
                row@.len() == k,
                forall|kk: int| 0 <= kk < k ==> #[trigger] row@[kk] == m@[i as int]@[kk],
        {
            row.push(m[i][k]);
        }
        proof {
            assert(row@ =~= m@[i as int]@);
        }
        r.push(row);
    }
    r
}

/// Concatenation of row `i` across the matrices `0 .. m`.
pub open spec fn row_concat<T>(ms: Seq<Vec<Vec<T>>>, m: int, i: int) -> Seq<T>
    decreases m,
{
    if m <= 0 {
        Seq::empty()
    } else {
        row_concat(ms, m - 1, i) + ms[m - 1]@[i]@
    }
}

/// Joins equally tall matrices side by side: row `i` of the result is the
/// concatenation of row `i` of every input matrix.
pub fn append_rows<T: Copy>(ms: Vec<Vec<Vec<T>>>) -> (r: Vec<Vec<T>>)
    requires
        forall|m: int| 0 <= m < ms@.len() ==> (#[trigger] ms@[m])@.len() == ms@[0]@.len(),
    ensures
        ms@.len() == 0 ==> r@.len() == 0,
        ms@.len() > 0 ==> {
            &&& r@.len() == ms@[0]@.len()
            &&& forall|i: int|
                0 <= i < r@.len() ==> (#[trigger] r@[i])@ == row_concat(ms@, ms@.len() as int, i)
        },
{
    let mut r: Vec<Vec<T>> = Vec::new();
    if ms.len() == 0 {
        return r;
    }
    let rows = ms[0].len();
    for i in 0..rows
        invariant
            forall|m: int| 0 <= m < ms@.len() ==> (#[trigger] ms@[m])@.len() == ms@[0]@.len(),
            ms@.len() > 0,
            rows == ms@[0]@.len(),
            r@.len() == i,
            forall|ii: int|
                0 <= ii < i ==> (#[trigger] r@[ii])@ == row_concat(ms@, ms@.len() as int, ii),
    {
        let mut full_row: Vec<T> = Vec::new();
        for m in 0..ms.len()
            invariant
                forall|mm: int| 0 <= mm < ms@.len() ==> (#[trigger] ms@[mm])@.len() == ms@[0]@.len(),
                ms@.len() > 0,
                rows == ms@[0]@.len(),
                i < rows,
                full_row@ == row_concat(ms@, m as int, i as int),
        {
            let row = &ms[m][i];
            for k in 0..row.len()
                invariant
                    m < ms@.len(),
                    i < ms@[m as int]@.len(),
                    row == &ms@[m as int]@[i as int],
                    full_row@ == row_concat(ms@, m as int, i as int) + row@.take(k as int),
            {
                full_row.push(row[k]);
                proof {
                    assert(row@.take(k + 1) =~= row@.take(k as int).push(row@[k as int]));
                }
            }
            proof {
                assert(row@.take(row@.len() as int) =~= row@);
                assert(full_row@ =~= row_concat(ms@, m + 1, i as int));
            }
        }
        r.push(full_row);
    }
    r
}

/// Some index entry maps a source value onto position `i`.
pub open spec fn gap_occupied(indices: Seq<usize>, i: int) -> bool {
    exists|k: int| 0 <= k < indices.len() && indices[k] == i
}

/// Scatters the source values to the given positions of a `fill`-initialized
/// array: entry `indices[k]` receives `source[k]`, every other entry holds
/// `fill`.
pub fn gapped_array<T: Copy>(source: Vec<T>, indices: &Vec<usize>, fill: &T, length: usize) -> (r:
    Vec<T>)
    requires
        indices@.len() == source@.len(),
        forall|k: int| 0 <= k < indices@.len() ==> #[trigger] indices@[k] < length,
        forall|k1: int, k2: int|
            0 <= k1 < k2 < indices@.len() ==> indices@[k1] != indices@[k2],
    ensures
        r@.len() == length,
        forall|k: int|
            0 <= k < indices@.len() ==> #[trigger] r@[indices@[k] as int] == source@[k],
        forall|i: int| 0 <= i < length && !gap_occupied(indices@, i) ==> #[trigger] r@[i] == fill,
{
    let mut r: Vec<T> = Vec::new();
    for i in 0..length
        invariant
            r@.len() == i,
            forall|ii: int| 0 <= ii < i ==> #[trigger] r@[ii] == fill,
    {
        r.push(*fill);
    }
    for k in 0..indices.len()
        invariant
            indices@.len() == source@.len(),
            forall|kk: int| 0 <= kk < indices@.len() ==> #[trigger] indices@[kk] < length,
            forall|k1: int, k2: int|
                0 <= k1 < k2 < indices@.len() ==> indices@[k1] != indices@[k2],
            r@.len() == length,
            forall|kk: int|
                0 <= kk < k ==> #[trigger] r@[indices@[kk] as int] == source@[kk],
            forall|i: int|
                0 <= i < length && !gap_occupied(indices@.take(k as int), i) ==> #[trigger] r@[i]
                    == fill,
    {
        let idx = indices[k];
        r.set(idx, source[k]);
        proof {
            assert forall|i: int|
                0 <= i < length && !gap_occupied(indices@.take(k + 1), i) implies #[trigger] r@[i]
                == fill by {
                if i == idx {
                    assert(indices@.take(k + 1)[k as int] == i);
                    assert(gap_occupied(indices@.take(k + 1), i));
                } else {
                    assert(!gap_occupied(indices@.take(k as int), i)) by {
                        if gap_occupied(indices@.take(k as int), i) {
                            let kk = choose|kk: int|
                                0 <= kk < indices@.take(k as int).len() && indices@.take(
                                    k as int,
                                )[kk] == i;
                            assert(indices@.take(k + 1)[kk] == i);
                        }
                    }
                }
            }
            assert forall|kk: int|
                0 <= kk < k + 1 implies #[trigger] r@[indices@[kk] as int] == source@[kk] by {
                if kk < k {
                    assert(indices@[kk] != indices@[k as int]);
                }
            }
        }
    }
    proof {
        assert(indices@.take(indices@.len() as int) =~= indices@);
    }
    r
}

} // verus!
