//! The order of entries: by the components of their paths.

use crate::entry::Entry;
use crate::names::{components, components_view, path_components};
use vstd::multiset::Multiset;
use vstd::prelude::*;
use vstd::multiset::lemma_multiset_empty_len;
use vstd::seq_lib::{to_multiset_build, to_multiset_insert, to_multiset_len};
use vstd::string::StrSliceExecFns;

verus! {

/// `a` comes no later than `b`: character by character, a proper prefix first.
pub open spec fn text_le(a: Seq<char>, b: Seq<char>) -> bool
    decreases a.len(),
{
    if a.len() == 0 {
        true
    } else if b.len() == 0 {
        false
    } else if a[0] != b[0] {
        a[0] < b[0]
    } else {
        text_le(a.skip(1), b.skip(1))
    }
}

/// Any two texts are ordered one way or the other.
pub proof fn lemma_text_le_total(a: Seq<char>, b: Seq<char>)
    ensures
        text_le(a, b) || text_le(b, a),
    decreases a.len(),
{
    if a.len() > 0 && b.len() > 0 && a[0] == b[0] {
        lemma_text_le_total(a.skip(1), b.skip(1));
    }
}

/// Two texts ordered both ways are equal.
pub proof fn lemma_text_le_antisymmetric(a: Seq<char>, b: Seq<char>)
    requires
        text_le(a, b),
        text_le(b, a),
    ensures
        a == b,
    decreases a.len(),
{
    if a.len() > 0 {
        lemma_text_le_antisymmetric(a.skip(1), b.skip(1));
        assert(a =~= seq![a[0]] + a.skip(1));
        assert(b =~= seq![b[0]] + b.skip(1));
    } else {
        assert(b.len() == 0);
        assert(a =~= b);
    }
}

/// The order is transitive.
pub proof fn lemma_text_le_transitive(a: Seq<char>, b: Seq<char>, c: Seq<char>)
    requires
        text_le(a, b),
        text_le(b, c),
    ensures
        text_le(a, c),
    decreases a.len(),
{
    if a.len() > 0 && b.len() > 0 && c.len() > 0 && a[0] == b[0] && b[0] == c[0] {
        lemma_text_le_transitive(a.skip(1), b.skip(1), c.skip(1));
    }
}

/// Whether the text `a` comes no later than the text `b`.
pub fn text_le_exec(a: &str, b: &str) -> (r: bool)
    ensures
        r == text_le(a@, b@),
{
    let na = a.unicode_len();
    let nb = b.unicode_len();
    let mut i: usize = 0;
    assert(a@.skip(0) =~= a@);
    assert(b@.skip(0) =~= b@);
    while i < na && i < nb
        invariant
            i <= na,
            i <= nb,
            na == a@.len(),
            nb == b@.len(),
            text_le(a@, b@) == text_le(a@.skip(i as int), b@.skip(i as int)),
        decreases na - i,
    {
        let ca = a.get_char(i);
        let cb = b.get_char(i);
        if ca != cb {
            return ca < cb;
        }
        assert(a@.skip(i as int).skip(1) =~= a@.skip(i + 1));
        assert(b@.skip(i as int).skip(1) =~= b@.skip(i + 1));
        i = i + 1;
    }
    i == na
}

/// Component `x` comes strictly before component `y`: by kind (root, `.`,
/// `..`, name), and names by their text.
pub open spec fn component_lt(x: (u8, Seq<char>), y: (u8, Seq<char>)) -> bool {
    x.0 < y.0 || (x.0 == y.0 && x.1 != y.1 && text_le(x.1, y.1))
}

/// The components `a` come no later than `b`: component by component, a
/// proper prefix first.
pub open spec fn components_le(a: Seq<(u8, Seq<char>)>, b: Seq<(u8, Seq<char>)>) -> bool
    decreases a.len(),
{
    if a.len() == 0 {
        true
    } else if b.len() == 0 {
        false
    } else if a[0] != b[0] {
        component_lt(a[0], b[0])
    } else {
        components_le(a.skip(1), b.skip(1))
    }
}

/// The path `a` comes no later than the path `b`, by their components.
pub open spec fn path_order_le(a: Seq<char>, b: Seq<char>) -> bool {
    components_le(components(a), components(b))
}

proof fn lemma_component_order(x: (u8, Seq<char>), y: (u8, Seq<char>), z: (u8, Seq<char>))
    ensures
        x != y ==> (component_lt(x, y) || component_lt(y, x)),
        !(component_lt(x, y) && component_lt(y, x)),
        component_lt(x, y) && component_lt(y, z) ==> component_lt(x, z),
{
    lemma_text_le_total(x.1, y.1);
    if text_le(x.1, y.1) && text_le(y.1, x.1) {
        lemma_text_le_antisymmetric(x.1, y.1);
    }
    if component_lt(x, y) && component_lt(y, z) && x.0 == y.0 && y.0 == z.0 {
        lemma_text_le_transitive(x.1, y.1, z.1);
        if x.1 == z.1 {
            lemma_text_le_antisymmetric(x.1, y.1);
        }
    }
    if x != y && x.0 == y.0 {
        assert(x.1 != y.1);
    }
}

/// Any two sequences of components are ordered one way or the other.
pub proof fn lemma_components_le_total(a: Seq<(u8, Seq<char>)>, b: Seq<(u8, Seq<char>)>)
    ensures
        components_le(a, b) || components_le(b, a),
    decreases a.len(),
{
    if a.len() > 0 && b.len() > 0 {
        lemma_component_order(a[0], b[0], b[0]);
        if a[0] == b[0] {
            lemma_components_le_total(a.skip(1), b.skip(1));
        }
    }
}

/// Sequences of components ordered both ways are equal.
pub proof fn lemma_components_le_antisymmetric(a: Seq<(u8, Seq<char>)>, b: Seq<(u8, Seq<char>)>)
    requires
        components_le(a, b),
        components_le(b, a),
    ensures
        a == b,
    decreases a.len(),
{
    if a.len() > 0 {
        lemma_component_order(a[0], b[0], b[0]);
        lemma_components_le_antisymmetric(a.skip(1), b.skip(1));
        assert(a =~= seq![a[0]] + a.skip(1));
        assert(b =~= seq![b[0]] + b.skip(1));
    } else {
        assert(a =~= b);
    }
}

/// The order of sequences of components is transitive.
pub proof fn lemma_components_le_transitive(
    a: Seq<(u8, Seq<char>)>,
    b: Seq<(u8, Seq<char>)>,
    c: Seq<(u8, Seq<char>)>,
)
    requires
        components_le(a, b),
        components_le(b, c),
    ensures
        components_le(a, c),
    decreases a.len(),
{
    if a.len() > 0 && b.len() > 0 && c.len() > 0 {
        lemma_component_order(a[0], b[0], c[0]);
        lemma_component_order(a[0], c[0], b[0]);
        if a[0] == b[0] && b[0] == c[0] {
            lemma_components_le_transitive(a.skip(1), b.skip(1), c.skip(1));
        }
    }
}

/// Whether the components `a` come no later than the components `b`.
fn components_le_exec(a: &Vec<(u8, String)>, b: &Vec<(u8, String)>) -> (r: bool)
    ensures
        r == components_le(components_view(a@), components_view(b@)),
{
    let ghost va = components_view(a@);
    let ghost vb = components_view(b@);
    let mut i: usize = 0;
    assert(va.skip(0) =~= va);
    assert(vb.skip(0) =~= vb);
    while i < a.len() && i < b.len()
        invariant
            i <= a@.len(),
            i <= b@.len(),
            va == components_view(a@),
            vb == components_view(b@),
            components_le(va, vb) == components_le(va.skip(i as int), vb.skip(i as int)),
        decreases a@.len() - i,
    {
        let x = &a[i];
        let y = &b[i];
        if x.0 != y.0 {
            return x.0 < y.0;
        }
        if x.1 != y.1 {
            return text_le_exec(x.1.as_str(), y.1.as_str());
        }
        assert(va.skip(i as int)[0] == vb.skip(i as int)[0]);
        assert(va.skip(i as int).skip(1) =~= va.skip(i + 1));
        assert(vb.skip(i as int).skip(1) =~= vb.skip(i + 1));
        i = i + 1;
    }
    i == a.len()
}

/// Whether the path `a` comes no later than the path `b`, by their components.
pub fn path_le(a: &str, b: &str) -> (r: bool)
    ensures
        r == path_order_le(a@, b@),
{
    let ca = path_components(a);
    let cb = path_components(b);
    components_le_exec(&ca, &cb)
}

/// The entry `x` comes no later than the entry `y`, by path.
pub open spec fn entry_le(x: Entry, y: Entry) -> bool {
    path_order_le(x.path@, y.path@)
}

/// The entries are in order of their paths.
pub open spec fn sorted_by_path(s: Seq<Entry>) -> bool {
    forall|i: int, j: int| 0 <= i < j < s.len() ==> entry_le(#[trigger] s[i], #[trigger] s[j])
}

/// Where `e` goes in `s`: after every entry that comes no later than it,
/// up to the first that comes later.
pub open spec fn insert_pos(s: Seq<Entry>, e: Entry) -> nat
    decreases s.len(),
{
    if s.len() == 0 {
        0
    } else if !entry_le(s[0], e) {
        0
    } else {
        1 + insert_pos(s.skip(1), e)
    }
}

/// `s` with `e` put in its place.
pub open spec fn insert_sorted(s: Seq<Entry>, e: Entry) -> Seq<Entry> {
    s.insert(insert_pos(s, e) as int, e)
}

/// The entries of `s` in order of their paths; entries whose paths are
/// equal keep the order they have in `s`.
pub open spec fn sort_by_path(s: Seq<Entry>) -> Seq<Entry>
    decreases s.len(),
{
    if s.len() == 0 {
        Seq::empty()
    } else {
        insert_sorted(sort_by_path(s.drop_last()), s.last())
    }
}

proof fn lemma_insert_pos(s: Seq<Entry>, e: Entry)
    ensures
        insert_pos(s, e) <= s.len(),
        forall|k: int| 0 <= k < insert_pos(s, e) ==> entry_le(#[trigger] s[k], e),
        insert_pos(s, e) < s.len() ==> !entry_le(s[insert_pos(s, e) as int], e),
    decreases s.len(),
{
    if s.len() > 0 && entry_le(s[0], e) {
        lemma_insert_pos(s.skip(1), e);
        assert forall|k: int| 0 <= k < insert_pos(s, e) implies entry_le(#[trigger] s[k], e) by {
            if k > 0 {
                assert(s[k] == s.skip(1)[k - 1]);
            }
        }
    }
}

proof fn lemma_insert_sorted(s: Seq<Entry>, e: Entry)
    requires
        sorted_by_path(s),
    ensures
        sorted_by_path(insert_sorted(s, e)),
        insert_sorted(s, e).to_multiset() == s.to_multiset().insert(e),
{
    broadcast use to_multiset_insert;

    lemma_insert_pos(s, e);
    let j = insert_pos(s, e) as int;
    let out = insert_sorted(s, e);
    if j < s.len() {
        lemma_components_le_total(components(s[j].path@), components(e.path@));
        assert forall|k: int| j <= k < s.len() implies entry_le(e, #[trigger] s[k]) by {
            if k > j {
                lemma_components_le_transitive(
                    components(e.path@),
                    components(s[j].path@),
                    components(s[k].path@),
                );
            }
        }
    }
    assert forall|a: int, b: int| 0 <= a < b < out.len() implies entry_le(
        #[trigger] out[a],
        #[trigger] out[b],
    ) by {
        if b < j {
        } else if a < j && b == j {
        } else if a < j && b > j {
            assert(out[b] == s[b - 1]);
            lemma_components_le_transitive(
                components(out[a].path@),
                components(e.path@),
                components(out[b].path@),
            );
        } else if a == j {
            assert(out[b] == s[b - 1]);
        } else {
            assert(out[a] == s[a - 1]);
            assert(out[b] == s[b - 1]);
        }
    }
}

/// `sort_by_path` orders the entries by path and keeps every entry.
pub proof fn lemma_sort_by_path(s: Seq<Entry>)
    ensures
        sorted_by_path(sort_by_path(s)),
        sort_by_path(s).to_multiset() == s.to_multiset(),
    decreases s.len(),
{
    broadcast use to_multiset_build, to_multiset_len, lemma_multiset_empty_len;

    if s.len() == 0 {
        assert(s.to_multiset().len() == 0);
        assert(sort_by_path(s).to_multiset().len() == 0);
    } else {
        lemma_sort_by_path(s.drop_last());
        lemma_insert_sorted(sort_by_path(s.drop_last()), s.last());
        assert(s =~= s.drop_last().push(s.last()));
        to_multiset_build(s.drop_last(), s.last());
    }
}

/// The same entries as `names`, in order of their paths; entries whose
/// paths are equal keep their order.
pub fn sort_entries(names: Vec<Entry>) -> (r: Vec<Entry>)
    ensures
        r@ == sort_by_path(names@),
        sorted_by_path(r@),
        r@.to_multiset() == names@.to_multiset(),
{
    let ghost all = names@;
    let mut rest = names;
    let mut out: Vec<Entry> = Vec::new();
    let mut i: usize = 0;
    let n = rest.len();
    assert(all.take(0) =~= Seq::<Entry>::empty());
    assert(all.skip(0) =~= all);
    while i < n
        invariant
            i <= n,
            n == all.len(),
            rest@ == all.skip(i as int),
            out@ == sort_by_path(all.take(i as int)),
        decreases n - i,
    {
        let e = rest.remove(0);
        assert(rest@ =~= all.skip(i + 1));
        assert(all.take(i + 1).drop_last() =~= all.take(i as int));
        assert(all.take(i + 1).last() == e);
        let mut j: usize = 0;
        assert(out@.skip(0) =~= out@);
        while j < out.len() && path_le(out[j].path.as_str(), e.path.as_str())
            invariant
                j <= out@.len(),
                insert_pos(out@, e) == j + insert_pos(out@.skip(j as int), e),
            decreases out@.len() - j,
        {
            assert(out@.skip(j as int).skip(1) =~= out@.skip(j + 1));
            j = j + 1;
        }
        out.insert(j, e);
        i = i + 1;
    }
    assert(all.take(n as int) =~= all);
    proof {
        lemma_sort_by_path(all);
    }
    out
}

} // verus!
