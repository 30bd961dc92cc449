//! Properties that relate the parts of the library to one another.

use crate::attr::{file_attr_alias_of, file_attr_of, folder_attr_alias_of, folder_attr_of, lookup, Config};
use crate::entry::Entry;
use crate::grid::{chunk, col_width, fits, lemma_row_within, num_cols, total_width};
use vstd::arithmetic::div_mod::lemma_basic_div;
use crate::layout::{
    fallback_rows, layout_of, max_of, max_rows_bound, min_rows_bound, planned_rows, search_rows,
    widths_of, Formatter,
};
use crate::names::components;
use crate::order::{
    entry_le, lemma_components_le_antisymmetric, lemma_sort_by_path, sort_by_path, sorted_by_path,
};
use vstd::prelude::*;
use vstd::seq_lib::{to_multiset_contains, to_multiset_len, to_multiset_remove};

verus! {

/// A file key with an alias takes the attribute of the alias's target looked
/// up directly: one hop, whatever the aliases say of the target.
pub proof fn lemma_file_alias_one_hop(c: Config, key: Seq<char>, target: Seq<char>)
    requires
        lookup(c.file_aliases@, key) == Some(target),
    ensures
        file_attr_alias_of(c, key) == file_attr_of(c, target),
{
}

/// A folder name with an alias takes the attribute of the alias's target
/// looked up directly: one hop, whatever the aliases say of the target.
pub proof fn lemma_folder_alias_one_hop(c: Config, name: Seq<char>, target: Seq<char>)
    requires
        lookup(c.folder_aliases@, name) == Some(target),
    ensures
        folder_attr_alias_of(c, name) == folder_attr_of(c, target),
{
}

/// A file key that neither the aliases nor the file icons know gets the
/// `file` icon and the unrecognised class.
pub proof fn lemma_unknown_file_falls_back(c: Config, key: Seq<char>)
    requires
        lookup(c.file_aliases@, key) is None,
        lookup(c.files@, key) is None,
    ensures
        file_attr_alias_of(c, key) == (
            lookup(c.files@, "file"@).unwrap(),
            crate::attr::ColorType::UnrecognizedFile,
        ),
{
}

proof fn lemma_search_feasible(ws: Seq<usize>, tw: nat, cap: int, lo: nat)
    requires
        lo >= 1,
    ensures
        fits(chunk(ws, search_rows(ws, tw, cap, lo)), tw) || (search_rows(ws, tw, cap, lo) == lo
            && forall|k: int| lo < k <= cap ==> !fits(#[trigger] chunk(ws, k as nat), tw)),
    decreases cap - lo,
{
    if cap > lo && !fits(chunk(ws, cap as nat), tw) {
        lemma_search_feasible(ws, tw, cap - 1, lo);
    }
}

/// For a non-empty listing and a terminal wider than its widest entry, the
/// planned rows fit, or else no capacity between the two bounds fits and
/// the plan is the least bound.
pub proof fn lemma_planner_feasible(c: Config, names: Seq<Entry>)
    requires
        names.len() > 0,
        c.max_width > max_of(widths_of(c, names)),
    ensures
        ({
            let ws = widths_of(c, names);
            let tw = c.max_width as nat;
            let cap = planned_rows(ws, tw);
            fits(chunk(ws, cap), tw) || (cap == min_rows_bound(ws, tw) && forall|k: int|
                min_rows_bound(ws, tw) < k <= max_rows_bound(tw) ==> !fits(
                    #[trigger] chunk(ws, k as nat),
                    tw,
                ))
        }),
{
    let ws = widths_of(c, names);
    let tw = c.max_width as nat;
    let m = max_of(ws) + 1;
    assert(tw / m >= 1) by (nonlinear_arith)
        requires
            tw >= m,
            m >= 1,
    ;
    lemma_search_feasible(ws, tw, max_rows_bound(tw) as int, min_rows_bound(ws, tw));
}

proof fn lemma_max_attained(ws: Seq<usize>) -> (idx: int)
    requires
        ws.len() > 0,
    ensures
        0 <= idx < ws.len(),
        ws[idx] == max_of(ws),
    decreases ws.len(),
{
    if ws.len() == 1 {
        assert(ws.drop_last().len() == 0);
        assert(ws.last() == ws[0]);
        assert(max_of(ws.drop_last()) == 0);
        0
    } else {
        let prev = lemma_max_attained(ws.drop_last());
        assert(ws.drop_last()[prev] == ws[prev]);
        if ws.last() > max_of(ws.drop_last()) {
            ws.len() - 1
        } else {
            prev
        }
    }
}

proof fn lemma_chunk_position<T>(s: Seq<T>, cap: nat, idx: int) -> (rj: (int, int))
    requires
        cap > 0,
        0 <= idx < s.len(),
    ensures
        0 <= rj.0 < chunk(s, cap).len(),
        0 <= rj.1 < chunk(s, cap)[rj.0].len(),
        chunk(s, cap)[rj.0][rj.1] == s[idx],
    decreases s.len(),
{
    if s.len() <= cap {
        (0, idx)
    } else if idx < cap {
        (0, idx)
    } else {
        let inner = lemma_chunk_position(s.skip(cap as int), cap, idx - cap);
        assert(chunk(s, cap)[inner.0 + 1] == chunk(s.skip(cap as int), cap)[inner.0]);
        (inner.0 + 1, inner.1)
    }
}

proof fn lemma_col_width_at_least(rows: Seq<Seq<usize>>, r: int, j: int)
    requires
        0 <= r < rows.len(),
        0 <= j < rows[r].len(),
    ensures
        col_width(rows, j) >= rows[r][j],
    decreases rows.len(),
{
    if r < rows.len() - 1 {
        lemma_col_width_at_least(rows.drop_last(), r, j);
    }
}

proof fn lemma_total_at_least_col(rows: Seq<Seq<usize>>, k: nat, j: int)
    requires
        0 <= j < k,
    ensures
        total_width(rows, k) >= col_width(rows, j),
    decreases k,
{
    if j < k - 1 {
        lemma_total_at_least_col(rows, (k - 1) as nat, j);
    }
}

proof fn lemma_search_overwide(ws: Seq<usize>, tw: nat, cap: int)
    requires
        ws.len() > 0,
        max_of(ws) >= tw,
    ensures
        search_rows(ws, tw, cap, 0) == 1,
    decreases cap,
{
    if cap > 0 {
        let idx = lemma_max_attained(ws);
        let rows = chunk(ws, cap as nat);
        let rj = lemma_chunk_position(ws, cap as nat, idx);
        lemma_col_width_at_least(rows, rj.0, rj.1);
        lemma_row_within(rows, rj.0);
        lemma_total_at_least_col(rows, num_cols(rows), rj.1);
        lemma_search_overwide(ws, tw, cap - 1);
    }
}

/// Where some entry is at least as wide as the terminal, the planner puts
/// one entry to a row.
pub proof fn lemma_overwide_single_column(c: Config, names: Seq<Entry>)
    requires
        names.len() > 0,
        max_of(widths_of(c, names)) >= c.max_width,
    ensures
        planned_rows(widths_of(c, names), c.max_width as nat) == 1,
{
    let ws = widths_of(c, names);
    let tw = c.max_width as nat;
    lemma_basic_div(tw as int, (max_of(ws) + 1) as int);
    lemma_search_overwide(ws, tw, max_rows_bound(tw) as int);
}

/// No two entries have equal paths, component for component.
pub open spec fn distinct_paths(s: Seq<Entry>) -> bool {
    forall|i: int, j: int|
        0 <= i < j < s.len() ==> components(#[trigger] s[i].path@) != components(
            #[trigger] s[j].path@,
        )
}

/// Two orderings by path of the same entries, no two of which have equal
/// paths, are the same.
pub proof fn lemma_sorted_unique(a: Seq<Entry>, b: Seq<Entry>)
    requires
        sorted_by_path(a),
        sorted_by_path(b),
        a.to_multiset() == b.to_multiset(),
        distinct_paths(a),
    ensures
        a == b,
    decreases a.len(),
{
    broadcast use to_multiset_contains, to_multiset_len, to_multiset_remove;

    to_multiset_len(a);
    to_multiset_len(b);
    assert(a.len() == b.len());
    if a.len() == 0 {
        assert(a =~= b);
    } else {
        assert(a.contains(a[0]));
        assert(a.to_multiset().count(a[0]) > 0);
        assert(b.contains(a[0]));
        assert(b.contains(b[0]));
        assert(b.to_multiset().count(b[0]) > 0);
        let k = choose|k: int| 0 <= k < b.len() && b[k] == a[0];
        assert(a.contains(b[0]));
        let m = choose|m: int| 0 <= m < a.len() && a[m] == b[0];
        if k > 0 && m > 0 {
            assert(entry_le(b[0], b[k]));
            assert(entry_le(a[0], a[m]));
            lemma_components_le_antisymmetric(components(a[0].path@), components(b[0].path@));
            assert(components(a[0].path@) == components(a[m].path@));
        }
        assert(a[0] == b[0]);
        let a1 = a.remove(0);
        let b1 = b.remove(0);
        assert(a1.to_multiset() == b1.to_multiset());
        assert(sorted_by_path(a1)) by {
            assert forall|i: int, j: int| 0 <= i < j < a1.len() implies entry_le(
                #[trigger] a1[i],
                #[trigger] a1[j],
            ) by {
                assert(a1[i] == a[i + 1] && a1[j] == a[j + 1]);
            }
        }
        assert(sorted_by_path(b1)) by {
            assert forall|i: int, j: int| 0 <= i < j < b1.len() implies entry_le(
                #[trigger] b1[i],
                #[trigger] b1[j],
            ) by {
                assert(b1[i] == b[i + 1] && b1[j] == b[j + 1]);
            }
        }
        assert(distinct_paths(a1)) by {
            assert forall|i: int, j: int| 0 <= i < j < a1.len() implies components(
                #[trigger] a1[i].path@,
            ) != components(#[trigger] a1[j].path@) by {
                assert(a1[i] == a[i + 1] && a1[j] == a[j + 1]);
            }
        }
        lemma_sorted_unique(a1, b1);
        assert(a =~= seq![a[0]] + a1);
        assert(b =~= seq![b[0]] + b1);
    }
}

/// Laying out the same entries in two arrival orders gives the same grid,
/// where no two entries have equal paths.
pub proof fn lemma_layout_deterministic(
    f: Formatter,
    c: Config,
    first: Seq<Entry>,
    second: Seq<Entry>,
)
    requires
        first.to_multiset() == second.to_multiset(),
        distinct_paths(first),
    ensures
        layout_of(f, c, sort_by_path(first)) == layout_of(f, c, sort_by_path(second)),
{
    lemma_sort_by_path(first);
    lemma_sort_by_path(second);
    let sorted_first = sort_by_path(first);
    assert(distinct_paths(sorted_first)) by {
        assert forall|i: int, j: int| 0 <= i < j < sorted_first.len() implies components(
            #[trigger] sorted_first[i].path@,
        ) != components(#[trigger] sorted_first[j].path@) by {
            lemma_distinct_kept(first, sorted_first, i, j);
        }
    }
    lemma_sorted_unique(sorted_first, sort_by_path(second));
}

proof fn lemma_distinct_kept(s: Seq<Entry>, t: Seq<Entry>, i: int, j: int)
    requires
        distinct_paths(s),
        t.to_multiset() == s.to_multiset(),
        0 <= i < j < t.len(),
    ensures
        components(t[i].path@) != components(t[j].path@),
{
    broadcast use to_multiset_contains, to_multiset_len, to_multiset_remove;
    broadcast use vstd::multiset::group_multiset_axioms;

    if components(t[i].path@) == components(t[j].path@) {
        assert(t.contains(t[i]));
        assert(t.to_multiset().count(t[i]) > 0);
        assert(s.contains(t[i]));
        assert(t.contains(t[j]));
        assert(t.to_multiset().count(t[j]) > 0);
        let p = choose|p: int| 0 <= p < s.len() && s[p] == t[i];
        assert(s.contains(t[j]));
        let q = choose|q: int| 0 <= q < s.len() && s[q] == t[j];
        if p != q {
            assert(false);
        } else {
            // the same entry twice in t, once in s
            assert(t[i] == t[j]);
            let ti = t.remove(i);
            assert(ti[j - 1] == t[j]);
            assert(ti.contains(t[i]));
            assert(ti.to_multiset().count(t[i]) > 0);
            let sp = s.remove(p);
            assert(ti.to_multiset() == sp.to_multiset());
            assert(sp.to_multiset().count(t[i]) > 0);
            assert(sp.contains(t[i]));
            let r = choose|r: int| 0 <= r < sp.len() && sp[r] == t[i];
            if r < p {
                assert(s[r] == sp[r]);
            } else {
                assert(s[r + 1] == sp[r]);
            }
            assert(false);
        }
    }
}

} // verus!
