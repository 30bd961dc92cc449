//! Entries of a listing, the two ways of presenting them, and how wide each
//! presented entry is.

use crate::attr::{attr_of, color_for, color_seq, get_attr, Attr, Config};
use crate::names::{components, file_name, file_name_of};
use crate::order::{lemma_components_le_antisymmetric, lemma_components_le_total, path_le};
use crate::term::{count_graphemes, fg_reset, fg_reset_seq, grapheme_count};
use vstd::prelude::*;
use vstd::string::StringExecFns;

verus! {

/// How each entry is presented: its path in full, or its file name only.
#[derive(Clone, Copy, Debug, PartialEq, Eq, Structural)]
pub enum Printer {
    Long,
    Short,
}

/// One entry of a listing: its path and its resolved attribute.
#[derive(Debug)]
pub struct Entry {
    pub path: String,
    pub attr: Attr,
}

/// The width of the column that an entry is rendered in.
#[derive(Clone, Copy, Debug)]
pub struct EntryPrinterConfig {
    pub width: usize,
}

/// Two entries are equal where their paths have the same components.
impl PartialEq for Entry {
    fn eq(&self, other: &Entry) -> (r: bool) {
        let before = path_le(self.path.as_str(), other.path.as_str());
        let after = path_le(other.path.as_str(), self.path.as_str());
        proof {
            let a = components(self.path@);
            let b = components(other.path@);
            lemma_components_le_total(a, b);
            if before && after {
                lemma_components_le_antisymmetric(a, b);
            }
        }
        before && after
    }
}

impl vstd::std_specs::cmp::PartialEqSpecImpl for Entry {
    open spec fn obeys_eq_spec() -> bool {
        true
    }

    open spec fn eq_spec(&self, other: &Entry) -> bool {
        components(self.path@) == components(other.path@)
    }
}

impl Entry {
    /// The entry at `path`, with the attribute that `config` gives it.
    pub fn new(config: &Config, path: String, is_dir: bool) -> (e: Entry)
        requires
            config.wf(),
        ensures
            e.path@ == path@,
            e.attr.view_pair() == attr_of(*config, path@, is_dir),
    {
        let attr = get_attr(config, &path, is_dir);
        Entry { path, attr }
    }
}

/// The file name of an entry: the last component of its path.
pub fn short_name(l: &Entry) -> (r: String)
    ensures
        r@ == file_name_of(l.path@),
{
    file_name(l.path.as_str())
}

/// The number of user-perceived characters of `s`.
pub fn strlen(s: &String) -> (n: usize)
    ensures
        n == grapheme_count(s@),
{
    count_graphemes(s.as_str())
}

/// The text that `p` shows for the entry at `path`.
pub open spec fn shown_text(p: Printer, path: Seq<char>) -> Seq<char> {
    match p {
        Printer::Long => path,
        Printer::Short => file_name_of(path),
    }
}

/// The columns that `p` adds to the text: the icon and the separators.
pub open spec fn overhead(p: Printer) -> nat {
    match p {
        Printer::Long => 2,
        Printer::Short => 3,
    }
}

/// The number of columns that `p` takes for the entry at `path`, capped at
/// the largest `usize`.
pub open spec fn predicted(p: Printer, path: Seq<char>) -> nat {
    let w = grapheme_count(shown_text(p, path)) + overhead(p);
    if w <= usize::MAX {
        w
    } else {
        usize::MAX as nat
    }
}

/// `n` spaces.
pub open spec fn spaces(n: nat) -> Seq<char> {
    Seq::new(n, |_i: int| ' ')
}

/// The spaces that pad `text` to `width - 2` user-perceived characters.
pub open spec fn padding(text: Seq<char>, width: nat) -> nat {
    if grapheme_count(text) + 2 < width {
        (width - 2 - grapheme_count(text)) as nat
    } else {
        0
    }
}

/// The cell of entry `e` in a column `width` wide: icon, colour, the text
/// padded, and the colour reset.
pub open spec fn cell_of(c: Config, p: Printer, e: Entry, width: nat) -> Seq<char> {
    let text = shown_text(p, e.path@);
    let sep = match p {
        Printer::Long => seq![' '],
        Printer::Short => Seq::<char>::empty(),
    };
    e.attr.icon@ + sep + color_seq(c, e.attr.color) + text + spaces(padding(text, width))
        + fg_reset_seq()
}

/// Appends `n` spaces to `s`.
fn push_spaces(s: &mut String, n: usize)
    ensures
        final(s)@ == old(s)@ + spaces(n as nat),
{
    proof {
        reveal_strlit(" ");
    }
    let ghost start = s@;
    let mut k: usize = 0;
    assert(start + spaces(0) =~= start);
    while k < n
        invariant
            k <= n,
            s@ == start + spaces(k as nat),
        decreases n - k,
    {
        s.append(" ");
        proof {
            reveal_strlit(" ");
            assert(" "@ =~= seq![' ']);
            assert(start + spaces((k + 1) as nat) =~= start + spaces(k as nat) + " "@);
        }
        k = k + 1;
    }
}

impl Printer {
    /// The text that this presentation shows for `entry`.
    pub fn text(&self, entry: &Entry) -> (r: String)
        ensures
            r@ == shown_text(*self, entry.path@),
    {
        match self {
            Printer::Long => entry.path.clone(),
            Printer::Short => short_name(entry),
        }
    }

    /// The number of columns that `entry` takes in this presentation.
    pub fn predict(&self, entry: &Entry) -> (w: usize)
        ensures
            w == predicted(*self, entry.path@),
            w >= 2,
    {
        let text = self.text(entry);
        let n = strlen(&text);
        let extra: usize = match self {
            Printer::Long => 2,
            Printer::Short => 3,
        };
        n.saturating_add(extra)
    }

    /// The cell of `entry` in a column `ep_config.width` wide.
    pub fn format(&self, config: &Config, ep_config: &EntryPrinterConfig, entry: &Entry) -> (r:
        String)
        ensures
            r@ == cell_of(*config, *self, *entry, ep_config.width as nat),
    {
        let text = self.text(entry);
        let n = strlen(&text);
        let mut cell = String::new();
        cell.append(entry.attr.icon.as_str());
        match self {
            Printer::Long => {
                proof {
                    reveal_strlit(" ");
                }
                cell.append(" ");
            },
            Printer::Short => {},
        }
        let escape = color_for(config, entry.attr.color);
        cell.append(escape.as_str());
        cell.append(text.as_str());
        let pad: usize = if ep_config.width >= 2 && n < ep_config.width - 2 {
            ep_config.width - 2 - n
        } else {
            0
        };
        push_spaces(&mut cell, pad);
        let reset = fg_reset();
        cell.append(reset.as_str());
        assert(cell@ =~= cell_of(*config, *self, *entry, ep_config.width as nat));
        cell
    }
}

} // verus!
