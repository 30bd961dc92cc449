//! File names as text: the last path component, the extension, and the key
//! under which a file's icon is looked up.

use vstd::prelude::*;
use vstd::string::StrSliceExecFns;
use vstd::string::StringExecFns;

verus! {

/// The index of the last `c` in `s`, or -1 where `s` holds none.
pub open spec fn last_index_of(s: Seq<char>, c: char) -> int
    decreases s.len(),
{
    if s.len() == 0 {
        -1
    } else if s.last() == c {
        s.len() - 1
    } else {
        last_index_of(s.drop_last(), c)
    }
}

proof fn lemma_last_index_bounds(s: Seq<char>, c: char)
    ensures
        -1 <= last_index_of(s, c) < s.len(),
        last_index_of(s, c) >= 0 ==> s[last_index_of(s, c)] == c,
    decreases s.len(),
{
    if s.len() > 0 && s.last() != c {
        lemma_last_index_bounds(s.drop_last(), c);
    }
}

/// The pieces of `p` between its `/` separators, empty pieces included.
pub open spec fn split_parts(p: Seq<char>) -> Seq<Seq<char>>
    decreases p.len(),
{
    if p.len() == 0 {
        seq![Seq::empty()]
    } else {
        let prev = split_parts(p.drop_last());
        if p.last() == '/' {
            prev.push(Seq::empty())
        } else {
            prev.update(prev.len() - 1, prev.last().push(p.last()))
        }
    }
}

/// The kind of a path component that is the root.
pub const ROOT: u8 = 0;

/// The kind of a path component that is a leading `.`.
pub const CUR_DIR: u8 = 1;

/// The kind of a path component that is `..`.
pub const PARENT_DIR: u8 = 2;

/// The kind of a path component that is a name.
pub const NORMAL: u8 = 3;

/// The component, if any, that the piece `part` of a path gives; `first`
/// tells whether it is the path's first piece.
pub open spec fn part_component(part: Seq<char>, first: bool) -> Seq<(u8, Seq<char>)> {
    if part.len() == 0 {
        Seq::empty()
    } else if part == seq!['.'] {
        if first {
            seq![(CUR_DIR, Seq::<char>::empty())]
        } else {
            Seq::empty()
        }
    } else if part == seq!['.', '.'] {
        seq![(PARENT_DIR, Seq::<char>::empty())]
    } else {
        seq![(NORMAL, part)]
    }
}

/// The components that the pieces `parts` give, in order.
pub open spec fn components_from(parts: Seq<Seq<char>>) -> Seq<(u8, Seq<char>)>
    decreases parts.len(),
{
    if parts.len() == 0 {
        Seq::empty()
    } else {
        components_from(parts.drop_last()) + part_component(parts.last(), parts.len() == 1)
    }
}

/// The components of a path, each a kind and, for a name, its text: the
/// root where the path starts with `/`, a `.` only at the start, and no
/// empty pieces, so that `a//b/` and `a/./b` have the components of `a/b`.
pub open spec fn components(p: Seq<char>) -> Seq<(u8, Seq<char>)> {
    let root = if p.len() > 0 && p[0] == '/' {
        seq![(ROOT, Seq::<char>::empty())]
    } else {
        Seq::empty()
    };
    root + components_from(split_parts(p))
}

/// The views of a sequence of strings.
pub open spec fn texts_view(v: Seq<String>) -> Seq<Seq<char>> {
    v.map_values(|s: String| s@)
}

/// The views of a sequence of components.
pub open spec fn components_view(v: Seq<(u8, String)>) -> Seq<(u8, Seq<char>)> {
    v.map_values(|c: (u8, String)| (c.0, c.1@))
}

/// The pieces of `p` between its `/` separators.
fn split_at_slashes(p: &str) -> (parts: Vec<String>)
    ensures
        texts_view(parts@) == split_parts(p@),
{
    let n = p.unicode_len();
    let mut parts: Vec<String> = Vec::new();
    let mut start: usize = 0;
    let mut i: usize = 0;
    assert(p@.take(0) =~= Seq::<char>::empty());
    assert(texts_view(parts@) =~= Seq::<Seq<char>>::empty());
    assert(split_parts(p@.take(0)) =~= texts_view(parts@).push(p@.subrange(0, 0)));
    while i < n
        invariant
            start <= i <= n,
            n == p@.len(),
            split_parts(p@.take(i as int)) == texts_view(parts@).push(p@.subrange(start as int, i as int)),
        decreases n - i,
    {
        assert(p@.take(i + 1).drop_last() =~= p@.take(i as int));
        assert(p@.take(i + 1).last() == p@[i as int]);
        let ghost done = texts_view(parts@);
        if p.get_char(i) == '/' {
            let old_start = start;
            parts.push(String::from_str(p.substring_char(start, i)));
            start = i + 1;
            assert(texts_view(parts@) =~= done.push(p@.subrange(old_start as int, i as int)));
            assert(p@.subrange(start as int, i + 1) =~= Seq::<char>::empty());
            assert(split_parts(p@.take(i + 1)) =~= texts_view(parts@).push(p@.subrange(start as int, i + 1)));
        } else {
            assert(p@.subrange(start as int, i + 1) =~= p@.subrange(start as int, i as int).push(p@[i as int]));
            assert(split_parts(p@.take(i + 1)) =~= texts_view(parts@).push(p@.subrange(start as int, i + 1)));
        }
        i = i + 1;
    }
    assert(p@.take(n as int) =~= p@);
    let ghost done = texts_view(parts@);
    parts.push(String::from_str(p.substring_char(start, n)));
    assert(texts_view(parts@) =~= done.push(p@.subrange(start as int, n as int)));
    parts
}

/// The components of the path `p`.
pub fn path_components(p: &str) -> (cs: Vec<(u8, String)>)
    ensures
        components_view(cs@) == components(p@),
{
    let parts = split_at_slashes(p);
    let ghost pv = split_parts(p@);
    let mut cs: Vec<(u8, String)> = Vec::new();
    if p.unicode_len() > 0 && p.get_char(0) == '/' {
        cs.push((ROOT, String::new()));
    }
    let ghost root = components_view(cs@);
    assert(components_view(cs@) =~= root + components_from(pv.take(0)));
    let mut k: usize = 0;
    while k < parts.len()
        invariant
            k <= parts@.len(),
            texts_view(parts@) == pv,
            components_view(cs@) == root + components_from(pv.take(k as int)),
        decreases parts@.len() - k,
    {
        let part = &parts[k];
        let len = part.as_str().unicode_len();
        let ghost before = components_view(cs@);
        assert(pv.take(k + 1).drop_last() =~= pv.take(k as int));
        assert(pv.take(k + 1).last() == part@);
        if len == 0 {
        } else if len == 1 && part.as_str().get_char(0) == '.' {
            assert(part@ =~= seq!['.']);
            if k == 0 {
                cs.push((CUR_DIR, String::new()));
            }
        } else if len == 2 && part.as_str().get_char(0) == '.' && part.as_str().get_char(1) == '.' {
            assert(part@ =~= seq!['.', '.']);
            cs.push((PARENT_DIR, String::new()));
        } else {
            assert(part@ != seq!['.']);
            assert(part@ != seq!['.', '.']);
            cs.push((NORMAL, part.clone()));
        }
        assert(components_view(cs@) =~= before + part_component(part@, k == 0));
        k = k + 1;
    }
    assert(pv.take(k as int) =~= pv);
    cs
}

/// The last component of a path where it is a name; the empty text where
/// the path has no components or ends in `..`. Separators at the end and
/// `.` pieces are passed over: `a/b/` and `a/b/.` both give `b`.
pub open spec fn file_name_of(path: Seq<char>) -> Seq<char> {
    let cs = components(path);
    if cs.len() > 0 && cs.last().0 == NORMAL {
        cs.last().1
    } else {
        Seq::empty()
    }
}

/// The extension of a file name: what follows its last `.`, where that dot
/// is not the name's first character and the name is not `..`.
pub open spec fn extension_of(name: Seq<char>) -> Option<Seq<char>> {
    let d = last_index_of(name, '.');
    if d <= 0 || name == seq!['.', '.'] {
        None
    } else {
        Some(name.skip(d + 1))
    }
}

/// A name with one leading `.` taken off, if it has one.
pub open spec fn without_leading_dot(name: Seq<char>) -> Seq<char> {
    if name.len() > 0 && name[0] == '.' {
        name.skip(1)
    } else {
        name
    }
}

/// The key under which a file's icon is looked up: its extension, or else
/// its name without a leading dot.
pub open spec fn file_key_of(name: Seq<char>) -> Seq<char> {
    match extension_of(name) {
        Some(e) => e,
        None => without_leading_dot(name),
    }
}

/// One past the index of the last `c` in `s`; zero where `s` holds none.
fn after_last(s: &str, c: char) -> (k: usize)
    ensures
        k == last_index_of(s@, c) + 1,
        k <= s@.len(),
{
    proof {
        lemma_last_index_bounds(s@, c);
    }
    let n = s.unicode_len();
    let mut i: usize = n;
    assert(s@.take(n as int) =~= s@);
    while i > 0
        invariant
            i <= n,
            n == s@.len(),
            last_index_of(s@, c) == last_index_of(s@.take(i as int), c),
        decreases i,
    {
        let ghost pre = s@.take(i as int);
        assert(pre.drop_last() =~= s@.take(i - 1));
        if s.get_char(i - 1) == c {
            return i;
        }
        i = i - 1;
    }
    i
}

/// The text of `s` from character `from` to its end.
fn tail_from(s: &str, from: usize) -> (r: String)
    requires
        from <= s@.len(),
    ensures
        r@ == s@.skip(from as int),
{
    let n = s.unicode_len();
    let t = s.substring_char(from, n);
    String::from_str(t)
}

/// The last component of `path` where it is a name; else the empty text.
pub fn file_name(path: &str) -> (r: String)
    ensures
        r@ == file_name_of(path@),
{
    let cs = path_components(path);
    let n = cs.len();
    if n > 0 && cs[n - 1].0 == NORMAL {
        cs[n - 1].1.clone()
    } else {
        String::new()
    }
}

/// The extension of a file name, if it has one.
pub fn extension(name: &str) -> (r: Option<String>)
    ensures
        match r {
            Some(e) => extension_of(name@) == Some(e@),
            None => extension_of(name@) is None,
        },
{
    let k = after_last(name, '.');
    proof {
        lemma_last_index_bounds(name@, '.');
    }
    if k <= 1 || (k == 2 && name.unicode_len() == 2 && name.get_char(0) == '.') {
        proof {
            lemma_last_index_bounds(name@, '.');
            if k == 2 && name@.len() == 2 && name@[0] == '.' {
                assert(name@ =~= seq!['.', '.']);
            }
        }
        None
    } else {
        Some(tail_from(name, k))
    }
}

/// `name` with one leading `.` taken off, if it has one.
pub fn filename_without_leading_dot(name: &str) -> (r: String)
    ensures
        r@ == without_leading_dot(name@),
{
    if name.unicode_len() > 0 && name.get_char(0) == '.' {
        tail_from(name, 1)
    } else {
        tail_from(name, 0)
    }
}

/// The key under which the icon of the file `name` is looked up.
pub fn file_key(name: &str) -> (r: String)
    ensures
        r@ == file_key_of(name@),
{
    match extension(name) {
        Some(e) => e,
        None => filename_without_leading_dot(name),
    }
}

} // verus!
