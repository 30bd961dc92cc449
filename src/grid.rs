//! Splitting a sequence into rows and measuring the columns of the result.

use vstd::prelude::*;

verus! {

/// The rows of `s` when `cap` items go to a row; the last row holds the rest.
pub open spec fn chunk<T>(s: Seq<T>, cap: nat) -> Seq<Seq<T>>
    recommends
        cap > 0,
    decreases s.len(),
{
    if cap == 0 || s.len() == 0 {
        Seq::empty()
    } else if s.len() <= cap {
        seq![s]
    } else {
        seq![s.take(cap as int)] + chunk(s.skip(cap as int), cap)
    }
}

/// The views of a sequence of vectors.
pub open spec fn rows_view<T>(rows: Seq<Vec<T>>) -> Seq<Seq<T>> {
    rows.map_values(|r: Vec<T>| r@)
}

/// The length of the longest row.
pub open spec fn num_cols(rows: Seq<Seq<usize>>) -> nat
    decreases rows.len(),
{
    if rows.len() == 0 {
        0
    } else {
        let prev = num_cols(rows.drop_last());
        if rows.last().len() > prev {
            rows.last().len()
        } else {
            prev
        }
    }
}

/// The width of column `j`: the largest value at index `j` over all rows.
pub open spec fn col_width(rows: Seq<Seq<usize>>, j: int) -> nat
    decreases rows.len(),
{
    if rows.len() == 0 {
        0
    } else {
        let prev = col_width(rows.drop_last(), j);
        let r = rows.last();
        if 0 <= j < r.len() && r[j] > prev {
            r[j] as nat
        } else {
            prev
        }
    }
}

/// The widths of the first `k` columns added up.
pub open spec fn total_width(rows: Seq<Seq<usize>>, k: nat) -> nat
    decreases k,
{
    if k == 0 {
        0
    } else {
        total_width(rows, (k - 1) as nat) + col_width(rows, k - 1)
    }
}

/// The columns of `rows` together are narrower than `limit`.
pub open spec fn fits(rows: Seq<Seq<usize>>, limit: nat) -> bool {
    total_width(rows, num_cols(rows)) < limit
}

proof fn lemma_total_width_monotonic(rows: Seq<Seq<usize>>, k: nat, m: nat)
    requires
        k <= m,
    ensures
        total_width(rows, k) <= total_width(rows, m),
    decreases m - k,
{
    if k < m {
        lemma_total_width_monotonic(rows, k, (m - 1) as nat);
    }
}

/// Splits `names` into rows of `row_cap` items, in order; the last row holds
/// what remains.
pub fn as_rows<T>(names: Vec<T>, row_cap: usize) -> (rows: Vec<Vec<T>>)
    requires
        row_cap > 0,
    ensures
        rows_view(rows@) == chunk(names@, row_cap as nat),
{
    let mut rows: Vec<Vec<T>> = Vec::new();
    let mut rest = names;
    while rest.len() > 0
        invariant
            row_cap > 0,
            rows_view(rows@) + chunk(rest@, row_cap as nat) == chunk(names@, row_cap as nat),
        decreases rest@.len(),
    {
        let ghost before = rest@;
        let ghost done = rows@;
        let tail = if rest.len() > row_cap {
            rest.split_off(row_cap)
        } else {
            Vec::new()
        };
        proof {
            if before.len() > row_cap {
                assert(rest@ == before.take(row_cap as int));
                assert(tail@ == before.skip(row_cap as int));
            } else {
                assert(rest@ == before);
                assert(chunk(tail@, row_cap as nat) == Seq::<Seq<T>>::empty());
            }
            assert(chunk(before, row_cap as nat) == seq![rest@] + chunk(tail@, row_cap as nat));
        }
        let ghost head = rest@;
        rows.push(rest);
        rest = tail;
        proof {
            assert(rows_view(rows@) =~= rows_view(done).push(head));
            assert(rows_view(done) + (seq![rows@.last()@] + chunk(rest@, row_cap as nat))
                =~= rows_view(rows@) + chunk(rest@, row_cap as nat));
        }
    }
    proof {
        assert(chunk(rest@, row_cap as nat) == Seq::<Seq<T>>::empty());
        assert(rows_view(rows@) + Seq::<Seq<T>>::empty() =~= rows_view(rows@));
    }
    rows
}

/// The width of each column of `rows`, one entry per column.
pub fn column_widths(rows: &Vec<Vec<usize>>) -> (widths: Vec<usize>)
    ensures
        widths@.len() == num_cols(rows_view(rows@)),
        forall|j: int| 0 <= j < widths@.len() ==> widths@[j] == col_width(rows_view(rows@), j),
{
    let ghost all = rows_view(rows@);
    let mut ncols: usize = 0;
    let mut i: usize = 0;
    while i < rows.len()
        invariant
            i <= rows@.len(),
            all == rows_view(rows@),
            ncols == num_cols(all.take(i as int)),
        decreases rows@.len() - i,
    {
        proof {
            assert(all.take(i + 1).drop_last() =~= all.take(i as int));
        }
        if rows[i].len() > ncols {
            ncols = rows[i].len();
        }
        i = i + 1;
    }
    assert(all.take(i as int) =~= all);
    let mut widths: Vec<usize> = Vec::new();
    while widths.len() < ncols
        invariant
            widths@.len() <= ncols,
            forall|j: int| 0 <= j < widths@.len() ==> widths@[j] == 0,
        decreases ncols - widths@.len(),
    {
        widths.push(0);
    }
    assert(all.take(0) =~= Seq::<Seq<usize>>::empty());
    let mut i: usize = 0;
    while i < rows.len()
        invariant
            i <= rows@.len(),
            all == rows_view(rows@),
            ncols == num_cols(all),
            widths@.len() == ncols,
            forall|j: int| 0 <= j < ncols ==> widths@[j] == col_width(all.take(i as int), j),
        decreases rows@.len() - i,
    {
        let row = &rows[i];
        let ghost prev = all.take(i as int);
        let ghost next = all.take(i + 1);
        proof {
            assert(next.drop_last() =~= prev);
            assert(next.last() == row@);
            lemma_row_within(all, i as int);
        }
        let mut c: usize = 0;
        while c < row.len()
            invariant
                c <= row@.len(),
                row@.len() <= ncols,
                widths@.len() == ncols,
                next.len() == i + 1,
                next.drop_last() == prev,
                next.last() == row@,
                forall|j: int| 0 <= j < c ==> widths@[j] == col_width(next, j),
                forall|j: int| c <= j < ncols ==> widths@[j] == col_width(prev, j),
            decreases row@.len() - c,
        {
            assert(widths@[c as int] == col_width(prev, c as int));
            if row[c] > widths[c] {
                widths.set(c, row[c]);
            }
            assert(widths@[c as int] == col_width(next, c as int));
            c = c + 1;
        }
        assert forall|j: int| 0 <= j < ncols implies widths@[j] == col_width(next, j) by {
            if j >= c {
                assert(widths@[j] == col_width(prev, j));
            }
        }
        i = i + 1;
    }
    assert(all.take(i as int) =~= all);
    widths
}

/// No row is longer than the number of columns.
pub proof fn lemma_row_within(rows: Seq<Seq<usize>>, i: int)
    requires
        0 <= i < rows.len(),
    ensures
        rows[i].len() <= num_cols(rows),
    decreases rows.len(),
{
    if i < rows.len() - 1 {
        lemma_row_within(rows.drop_last(), i);
    }
}

/// Whether the columns of `out`, each as wide as its widest value, add up to
/// less than `max_width`.
pub fn is_valid(out: Vec<Vec<usize>>, max_width: usize) -> (r: bool)
    ensures
        r == fits(rows_view(out@), max_width as nat),
{
    let widths = column_widths(&out);
    let ghost all = rows_view(out@);
    if max_width == 0 {
        return false;
    }
    let mut width: usize = 0;
    let mut j: usize = 0;
    while j < widths.len()
        invariant
            j <= widths@.len(),
            all == rows_view(out@),
            widths@.len() == num_cols(all),
            forall|k: int| 0 <= k < widths@.len() ==> widths@[k] == col_width(all, k),
            width == total_width(all, j as nat),
            width < max_width,
        decreases widths@.len() - j,
    {
        if widths[j] >= max_width - width {
            proof {
                assert(total_width(all, (j + 1) as nat) == width + col_width(all, j as int));
                lemma_total_width_monotonic(all, (j + 1) as nat, num_cols(all));
            }
            return false;
        }
        width = width + widths[j];
        j = j + 1;
    }
    true
}

} // verus!
