//! Choosing how many entries go to a row, and rendering the grid.

use crate::attr::{attr_of, Config};
use crate::entry::{cell_of, predicted, Entry, EntryPrinterConfig};
use crate::grid::{
    as_rows, chunk, col_width, column_widths, fits, is_valid, lemma_row_within, num_cols, rows_view,
};
use crate::order::{sort_by_path, sort_entries};
use crate::term::count_down;
use vstd::arithmetic::div_mod::lemma_basic_div;
use vstd::prelude::*;

verus! {

/// The narrowest cell that the planner considers.
pub const MIN_FORMAT_ENTRY_LENGTH: usize = 5;

/// A grid of rendered cells, row by row.
pub type Output = Vec<Vec<String>>;

/// The texts of a grid.
pub open spec fn grid_view(out: Seq<Vec<String>>) -> Seq<Seq<Seq<char>>> {
    out.map_values(|r: Vec<String>| r@.map_values(|s: String| s@))
}

/// The predicted width of each entry.
pub open spec fn widths_of(c: Config, names: Seq<Entry>) -> Seq<usize> {
    names.map_values(|e: Entry| predicted(c.printer, e.path@) as usize)
}

/// The largest value of `ws`, or zero where it is empty.
pub open spec fn max_of(ws: Seq<usize>) -> nat
    decreases ws.len(),
{
    if ws.len() == 0 {
        0
    } else {
        let prev = max_of(ws.drop_last());
        if ws.last() > prev {
            ws.last() as nat
        } else {
            prev
        }
    }
}

/// The grid of `names` with `cap` entries to a row, each cell padded to the
/// width of its column.
pub open spec fn grid_of(c: Config, names: Seq<Entry>, cap: nat) -> Seq<Seq<Seq<char>>> {
    let wrows = chunk(widths_of(c, names), cap);
    chunk(names, cap).map_values(
        |row: Seq<Entry>|
            row.map(|j: int, e: Entry| cell_of(c, c.printer, e, col_width(wrows, j))),
    )
}

/// The predicted width of each entry of `names`.
pub fn predicted_widths(config: &Config, names: &Vec<Entry>) -> (ws: Vec<usize>)
    ensures
        ws@ == widths_of(*config, names@),
{
    let mut ws: Vec<usize> = Vec::new();
    let mut i: usize = 0;
    while i < names.len()
        invariant
            i <= names@.len(),
            ws@ == widths_of(*config, names@.take(i as int)),
        decreases names@.len() - i,
    {
        ws.push(config.printer.predict(&names[i]));
        i = i + 1;
        assert(ws@ =~= widths_of(*config, names@.take(i as int)));
    }
    assert(names@.take(i as int) =~= names@);
    ws
}

/// The largest predicted width of the entries of `names`; zero where there are none.
pub fn max_width(config: &Config, names: &Vec<Entry>) -> (width: usize)
    ensures
        width == max_of(widths_of(*config, names@)),
{
    let ws = predicted_widths(config, names);
    let mut width: usize = 0;
    let mut i: usize = 0;
    while i < ws.len()
        invariant
            i <= ws@.len(),
            width == max_of(ws@.take(i as int)),
        decreases ws@.len() - i,
    {
        assert(ws@.take(i + 1).drop_last() =~= ws@.take(i as int));
        if ws[i] > width {
            width = ws[i];
        }
        i = i + 1;
    }
    assert(ws@.take(i as int) =~= ws@);
    width
}

/// Whether `names` with `row_cap` entries to a row fit in the terminal.
pub fn is_valid_as_rows(config: &Config, names: &Vec<Entry>, row_cap: usize) -> (r: bool)
    requires
        row_cap > 0,
    ensures
        r == fits(chunk(widths_of(*config, names@), row_cap as nat), config.max_width as nat),
{
    let ws = predicted_widths(config, names);
    is_valid(as_rows(ws, row_cap), config.max_width)
}

proof fn lemma_chunk_shape<A, B>(s: Seq<A>, t: Seq<B>, cap: nat)
    requires
        cap > 0,
        s.len() == t.len(),
    ensures
        chunk(s, cap).len() == chunk(t, cap).len(),
        forall|r: int|
            0 <= r < chunk(s, cap).len() ==> #[trigger] chunk(s, cap)[r].len() == chunk(
                t,
                cap,
            )[r].len(),
    decreases s.len(),
{
    if s.len() > cap {
        lemma_chunk_shape(s.skip(cap as int), t.skip(cap as int), cap);
        assert forall|r: int| 0 <= r < chunk(s, cap).len() implies #[trigger] chunk(s, cap)[r].len()
            == chunk(t, cap)[r].len() by {
            if r > 0 {
                assert(chunk(s, cap)[r] == chunk(s.skip(cap as int), cap)[r - 1]);
                assert(chunk(t, cap)[r] == chunk(t.skip(cap as int), cap)[r - 1]);
            }
        }
    }
}

/// Renders `names` with `row_cap` entries to a row, each cell padded to the
/// width of its column.
pub fn format_as_rows(config: &Config, names: Vec<Entry>, row_cap: usize) -> (out: Output)
    requires
        row_cap > 0,
    ensures
        grid_view(out@) == grid_of(*config, names@, row_cap as nat),
{
    let ghost all = names@;
    let ws = predicted_widths(config, &names);
    let wrows = as_rows(ws, row_cap);
    let widths = column_widths(&wrows);
    let rows = as_rows(names, row_cap);
    let ghost wr = chunk(widths_of(*config, all), row_cap as nat);
    let ghost er = chunk(all, row_cap as nat);
    proof {
        lemma_chunk_shape(all, widths_of(*config, all), row_cap as nat);
    }
    let mut out: Output = Vec::new();
    let mut r: usize = 0;
    while r < rows.len()
        invariant
            r <= rows@.len(),
            rows_view(rows@) == er,
            rows_view(wrows@) == wr,
            er == chunk(all, row_cap as nat),
            wr == chunk(widths_of(*config, all), row_cap as nat),
            er.len() == wr.len(),
            forall|k: int| 0 <= k < er.len() ==> #[trigger] er[k].len() == wr[k].len(),
            widths@.len() == num_cols(wr),
            forall|j: int| 0 <= j < widths@.len() ==> widths@[j] == col_width(wr, j),
            grid_view(out@) =~= grid_of(*config, all, row_cap as nat).take(r as int),
            grid_of(*config, all, row_cap as nat).len() == er.len(),
        decreases rows@.len() - r,
    {
        let row = &rows[r];
        proof {
            assert(row@ == er[r as int]);
            lemma_row_within(wr, r as int);
        }
        let mut cells: Vec<String> = Vec::new();
        let mut j: usize = 0;
        while j < row.len()
            invariant
                j <= row@.len(),
                row@.len() <= widths@.len(),
                forall|k: int| 0 <= k < widths@.len() ==> widths@[k] == col_width(wr, k),
                cells@.len() == j,
                forall|k: int|
                    0 <= k < j ==> #[trigger] cells@[k]@ == cell_of(
                        *config,
                        config.printer,
                        row@[k],
                        col_width(wr, k),
                    ),
            decreases row@.len() - j,
        {
            let ep = EntryPrinterConfig { width: widths[j] };
            let cell = config.printer.format(config, &ep, &row[j]);
            cells.push(cell);
            j = j + 1;
        }
        let ghost done = out@;
        out.push(cells);
        proof {
            let g = grid_of(*config, all, row_cap as nat);
            assert(g[r as int] =~= cells@.map_values(|s: String| s@));
            assert(grid_view(out@) =~= grid_view(done).push(g[r as int]));
            assert(g.take(r + 1) =~= g.take(r as int).push(g[r as int]));
        }
        r = r + 1;
    }
    proof {
        let g = grid_of(*config, all, row_cap as nat);
        assert(g.take(r as int) =~= g);
    }
    out
}

/// The least number of entries to a row that the planner considers: as many
/// as fit if every entry were as wide as the widest, plus one separator.
pub open spec fn min_rows_bound(ws: Seq<usize>, terminal_width: nat) -> nat {
    terminal_width / (max_of(ws) + 1)
}

/// The most entries to a row that the planner considers.
pub open spec fn max_rows_bound(terminal_width: nat) -> nat {
    terminal_width / (MIN_FORMAT_ENTRY_LENGTH as nat)
}

/// The capacity taken where no candidate fits: the least bound, and at least one.
pub open spec fn fallback_rows(lo: nat) -> nat {
    if lo >= 1 {
        lo
    } else {
        1
    }
}

/// The first capacity from `cap` down to just above `lo` whose rows fit,
/// or else the fallback.
pub open spec fn search_rows(ws: Seq<usize>, terminal_width: nat, cap: int, lo: nat) -> nat
    decreases cap - lo,
{
    if cap <= lo {
        fallback_rows(lo)
    } else if fits(chunk(ws, cap as nat), terminal_width) {
        cap as nat
    } else {
        search_rows(ws, terminal_width, cap - 1, lo)
    }
}

/// The number of entries to a row that the planner picks for widths `ws`.
pub open spec fn planned_rows(ws: Seq<usize>, terminal_width: nat) -> nat {
    search_rows(
        ws,
        terminal_width,
        max_rows_bound(terminal_width) as int,
        min_rows_bound(ws, terminal_width),
    )
}

/// The number of entries to a row for `names`: the most, between the two
/// bounds, whose columns fit in the terminal; else the least bound.
pub fn plan_row_cap(config: &Config, names: &Vec<Entry>) -> (cap: usize)
    ensures
        cap == planned_rows(widths_of(*config, names@), config.max_width as nat),
        cap >= 1,
{
    let ghost ws = widths_of(*config, names@);
    let tw = config.max_width;
    let width = max_width(config, names);
    let min_rows: usize = if width < usize::MAX {
        tw / (width + 1)
    } else {
        proof {
            lemma_basic_div(tw as int, usize::MAX + 1);
        }
        0
    };
    let max_rows: usize = tw / MIN_FORMAT_ENTRY_LENGTH;
    assert(max_rows <= i64::MAX);
    let candidates = if max_rows > min_rows {
        count_down(max_rows as i64, min_rows as i64)
    } else {
        Vec::new()
    };
    let mut i: usize = 0;
    while i < candidates.len()
        invariant
            i <= candidates@.len(),
            candidates@.len() == (if max_rows > min_rows { max_rows - min_rows } else { 0 }),
            forall|k: int| 0 <= k < candidates@.len() ==> candidates@[k] == max_rows - k,
            max_rows <= i64::MAX,
            min_rows == min_rows_bound(ws, tw as nat),
            max_rows == max_rows_bound(tw as nat),
            ws == widths_of(*config, names@),
            tw == config.max_width,
            planned_rows(ws, tw as nat) == search_rows(ws, tw as nat, max_rows - i, min_rows as nat),
        decreases candidates@.len() - i,
    {
        let row_cap = candidates[i] as usize;
        if is_valid_as_rows(config, names, row_cap) {
            return row_cap;
        }
        i = i + 1;
    }
    if min_rows >= 1 {
        min_rows
    } else {
        1
    }
}

/// The two ways of packing entries into rows.
#[derive(Clone, Copy, Debug, PartialEq, Eq, Structural)]
pub enum Formatter {
    /// Searches for the most entries to a row that fit.
    Planning,
    /// Gives every cell the widest entry's width and two more columns.
    Naive,
}

/// The number of entries to a row that the naive packing takes: cells all as
/// wide as the widest entry plus two, at least one to a row.
pub open spec fn naive_rows(ws: Seq<usize>, terminal_width: nat) -> nat {
    let n = terminal_width / (max_of(ws) + 2);
    if n >= 1 {
        n
    } else {
        1
    }
}

/// The number of entries to a row that `f` picks for widths `ws`.
pub open spec fn rows_for(f: Formatter, ws: Seq<usize>, terminal_width: nat) -> nat {
    match f {
        Formatter::Planning => planned_rows(ws, terminal_width),
        Formatter::Naive => naive_rows(ws, terminal_width),
    }
}

/// The grid that `f` renders for `names` once they are in order.
pub open spec fn layout_of(f: Formatter, c: Config, sorted: Seq<Entry>) -> Seq<Seq<Seq<char>>> {
    if sorted.len() == 0 {
        Seq::empty()
    } else {
        grid_of(c, sorted, rows_for(f, widths_of(c, sorted), c.max_width as nat))
    }
}

impl Formatter {
    /// Sorts `names` by path, picks the number of entries to a row, and
    /// renders the grid; no rows where there are no entries.
    pub fn format(&self, config: &Config, names: Vec<Entry>) -> (out: Output)
        ensures
            grid_view(out@) == layout_of(*self, *config, sort_by_path(names@)),
    {
        let sorted = sort_entries(names);
        if sorted.len() == 0 {
            let out: Output = Vec::new();
            assert(grid_view(out@) =~= layout_of(*self, *config, sorted@));
            return out;
        }
        let cap = match self {
            Formatter::Planning => plan_row_cap(config, &sorted),
            Formatter::Naive => naive_row_cap(config, &sorted),
        };
        let ghost s = sorted@;
        let out = format_as_rows(config, sorted, cap);
        assert(grid_view(out@) == layout_of(*self, *config, s));
        out
    }
}

/// The number of entries to a row for `names` in the naive packing.
pub fn naive_row_cap(config: &Config, names: &Vec<Entry>) -> (cap: usize)
    ensures
        cap == naive_rows(widths_of(*config, names@), config.max_width as nat),
        cap >= 1,
{
    let width = max_width(config, names);
    let rows: usize = if width < usize::MAX - 1 {
        config.max_width / (width + 2)
    } else {
        proof {
            lemma_basic_div(config.max_width as int, width + 2);
        }
        0
    };
    if rows >= 1 {
        rows
    } else {
        1
    }
}

/// The entries built from `items`, each a path and whether it is a folder.
pub open spec fn entries_for(c: Config, items: Seq<(String, bool)>, names: Seq<Entry>) -> bool {
    &&& names.len() == items.len()
    &&& forall|i: int|
        0 <= i < items.len() ==> (#[trigger] names[i]).path@ == items[i].0@
            && names[i].attr.view_pair() == attr_of(c, items[i].0@, items[i].1)
}

/// Lays out a listing: resolves the attribute of each item, a path and
/// whether it is a folder, then sorts and renders them with `formatter`.
pub fn list_entries(config: &Config, formatter: Formatter, items: &Vec<(String, bool)>) -> (out:
    Output)
    requires
        config.wf(),
    ensures
        exists|names: Seq<Entry>|
            entries_for(*config, items@, names) && grid_view(out@) == layout_of(
                formatter,
                *config,
                sort_by_path(names),
            ),
{
    let mut names: Vec<Entry> = Vec::new();
    let mut i: usize = 0;
    while i < items.len()
        invariant
            i <= items@.len(),
            config.wf(),
            entries_for(*config, items@.take(i as int), names@),
        decreases items@.len() - i,
    {
        let item = &items[i];
        let e = Entry::new(config, item.0.clone(), item.1);
        names.push(e);
        i = i + 1;
        assert(entries_for(*config, items@.take(i as int), names@)) by {
            assert forall|k: int| 0 <= k < i implies (#[trigger] items@.take(i as int)[k]) == items@[k] by {}
        }
    }
    assert(items@.take(i as int) =~= items@);
    formatter.format(config, names)
}

} // verus!
