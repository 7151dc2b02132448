//! Path-string decomposition: root, parts, name, stem and suffixes.
//!
//! A leading separator makes a path absolute and becomes its root; the
//! remainder splits into non-empty components on either separator
//! style.  The final component's dots (a leading dot excepted) divide
//! it into a stem and a chain of suffixes.

use vstd::prelude::*;
use crate::errors::CollectError;
use crate::pattern::is_sep_char;
use crate::strutil::{chars_of, split_nonempty, split_nonempty_chars, string_of_chars, sub_chars};
use vstd::string::StringExecFns;

verus! {

/// The root of a path: its leading separator, if it has one.
pub open spec fn root_of(s: Seq<char>) -> Seq<char> {
    if s.len() > 0 && is_sep_char(s[0]) {
        seq![s[0]]
    } else {
        Seq::empty()
    }
}

/// A path without its root.
pub open spec fn rest_of(s: Seq<char>) -> Seq<char> {
    if s.len() > 0 && is_sep_char(s[0]) {
        s.drop_first()
    } else {
        s
    }
}

/// The non-empty components of a path, in order.
pub open spec fn parts_of(s: Seq<char>) -> Seq<Seq<char>> {
    split_nonempty(rest_of(s), seq!['/', '\\'])
}

/// The final component of a path, empty when it has none.
pub open spec fn name_of(s: Seq<char>) -> Seq<char> {
    if parts_of(s).len() == 0 {
        Seq::empty()
    } else {
        parts_of(s).last()
    }
}

/// Components joined with forward slashes.
pub open spec fn joined(parts: Seq<Seq<char>>) -> Seq<char>
    decreases parts.len(),
{
    if parts.len() == 0 {
        Seq::empty()
    } else if parts.len() == 1 {
        parts[0]
    } else {
        joined(parts.drop_last()) + seq!['/'] + parts.last()
    }
}

/// The parent of a path: its root and all components but the last,
/// rejoined; just the root when one component sits directly under it;
/// empty otherwise.
pub open spec fn parent_of(s: Seq<char>) -> Seq<char> {
    let anchor = root_of(s);
    let parts = parts_of(s);
    if parts.len() > 1 {
        anchor + joined(parts.drop_last())
    } else if anchor.len() > 0 && parts.len() > 0 {
        anchor
    } else {
        Seq::empty()
    }
}

/// Positions of the dots of `s` at index `i` or later, in order.
pub open spec fn dots_from(s: Seq<char>, i: int) -> Seq<int>
    decreases s.len() - i,
{
    if i < 0 || i >= s.len() {
        Seq::empty()
    } else if s[i] == '.' {
        seq![i] + dots_from(s, i + 1)
    } else {
        dots_from(s, i + 1)
    }
}

/// Positions of the dots of a name, the leading position excepted: a
/// leading dot marks a hidden name, not an extension.
pub open spec fn dot_positions(s: Seq<char>) -> Seq<int> {
    dots_from(s, 1)
}

/// The stem of a name: everything before the last dot, or the whole
/// name when it has no dot.
pub open spec fn stem_of(name: Seq<char>) -> Seq<char> {
    let d = dot_positions(name);
    if d.len() == 0 {
        name
    } else {
        name.subrange(0, d.last())
    }
}

/// The final suffix of a name: from its last dot to its end, empty when
/// it has no dot.
pub open spec fn suffix_of(name: Seq<char>) -> Seq<char> {
    let d = dot_positions(name);
    if d.len() == 0 {
        Seq::empty()
    } else {
        name.subrange(d.last(), name.len() as int)
    }
}

/// Every suffix of a name, each running from one dot to the next (the
/// last to the end).
pub open spec fn suffixes_of(name: Seq<char>) -> Seq<Seq<char>> {
    let d = dot_positions(name);
    Seq::new(
        d.len(),
        |i: int|
            name.subrange(
                d[i],
                if i + 1 < d.len() {
                    d[i + 1]
                } else {
                    name.len() as int
                },
            ),
    )
}

/// One parsed path.
#[derive(Debug, Clone)]
pub struct PathComponents {
    pub drive: String,
    pub root: String,
    pub anchor: String,
    pub parent: String,
    pub name: String,
    pub stem: String,
    pub suffix: String,
    pub suffixes: Vec<String>,
    pub parts: Vec<String>,
    pub is_absolute: bool,
}

proof fn lemma_dots_from_shape(s: Seq<char>, i: int)
    requires
        0 <= i <= s.len(),
    ensures
        forall|t: int|
            0 <= t < dots_from(s, i).len() ==> i <= #[trigger] dots_from(s, i)[t] < s.len()
                && s[dots_from(s, i)[t]] == '.',
        forall|t1: int, t2: int|
            0 <= t1 < t2 < dots_from(s, i).len() ==> #[trigger] dots_from(s, i)[t1]
                < #[trigger] dots_from(s, i)[t2],
    decreases s.len() - i,
{
    if i < s.len() {
        lemma_dots_from_shape(s, i + 1);
        let cur = dots_from(s, i);
        let rest = dots_from(s, i + 1);
        if s[i] == '.' {
            assert forall|t: int| 0 <= t < cur.len() implies i <= #[trigger] cur[t] < s.len()
                && s[cur[t]] == '.' by {
                if t > 0 {
                    assert(cur[t] == rest[t - 1]);
                }
            }
            assert forall|t1: int, t2: int| 0 <= t1 < t2 < cur.len() implies #[trigger] cur[t1]
                < #[trigger] cur[t2] by {
                assert(cur[t2] == rest[t2 - 1]);
                if t1 > 0 {
                    assert(cur[t1] == rest[t1 - 1]);
                }
            }
        } else {
            assert(cur =~= rest);
        }
    }
}

/// Dot positions of `v` after its first character, in order.
fn find_dots(v: &[char]) -> (r: Vec<usize>)
    ensures
        r@.map_values(|x: usize| x as int) == dot_positions(v@),
{
    let n = v.len();
    let mut r: Vec<usize> = Vec::new();
    let mut i: usize = 1;
    proof {
        if n == 0 {
            assert(dots_from(v@, 1) =~= Seq::<int>::empty());
        }
        assert(r@.map_values(|x: usize| x as int) =~= Seq::<int>::empty());
    }
    while i < n
        invariant
            n == v@.len(),
            1 <= i,
            i <= n || (n == 0 && i == 1),
            dot_positions(v@) =~= r@.map_values(|x: usize| x as int) + dots_from(v@, i as int),
        decreases n - i,
    {
        if v[i] == '.' {
            let ghost before = r@;
            r.push(i);
            proof {
                assert(r@.map_values(|x: usize| x as int) =~= before.map_values(
                    |x: usize| x as int,
                ).push(i as int));
                assert(dots_from(v@, i as int) =~= seq![i as int] + dots_from(v@, i + 1 as int));
            }
        }
        i = i + 1;
    }
    proof {
        if n > 0 {
            assert(dots_from(v@, n as int) =~= Seq::<int>::empty());
        }
        assert(dot_positions(v@) =~= r@.map_values(|x: usize| x as int));
    }
    r
}

/// Splits a name into its stem, its final suffix, and every suffix in
/// order.
pub fn parse_name_components(name: &str) -> (r: (String, String, Vec<String>))
    ensures
        r.0@ == stem_of(name@),
        r.1@ == suffix_of(name@),
        r.2.deep_view() == suffixes_of(name@),
{
    let v = chars_of(name);
    let n = v.len();
    let dots = find_dots(&v);
    let ghost d = dot_positions(name@);
    assert(d.len() == dots@.len());
    if dots.len() == 0 {
        let r: Vec<String> = Vec::new();
        assert(r.deep_view() =~= suffixes_of(name@));
        return (name.to_owned(), String::new(), r);
    }
    proof {
        lemma_dots_from_shape(name@, 1);
    }
    let last = dots[dots.len() - 1];
    assert(d[d.len() - 1] == last as int);
    let stem = string_of_chars(sub_chars(&v, 0, last).as_slice());
    let suffix = string_of_chars(sub_chars(&v, last, n).as_slice());
    let mut suffixes: Vec<String> = Vec::new();
    let mut t: usize = 0;
    while t < dots.len()
        invariant
            n == name@.len(),
            v@ == name@,
            d == dot_positions(name@),
            d.len() == dots@.len(),
            d =~= dots@.map_values(|x: usize| x as int),
            forall|u: int| 0 <= u < d.len() ==> 1 <= #[trigger] d[u] < n && d[u] == dots@[u],
            forall|u1: int, u2: int| 0 <= u1 < u2 < d.len() ==> #[trigger] d[u1] < #[trigger] d[u2],
            t <= dots@.len(),
            suffixes.deep_view().len() == t,
            forall|u: int| 0 <= u < t ==> suffixes.deep_view()[u] == suffixes_of(name@)[u],
        decreases dots@.len() - t,
    {
        assert(d[t as int] == dots@[t as int] && 1 <= d[t as int] < n);
        let end = if t + 1 < dots.len() {
            assert(d[t as int] < d[t + 1 as int]);
            dots[t + 1]
        } else {
            n
        };
        let piece = string_of_chars(sub_chars(&v, dots[t], end).as_slice());
        assert(piece@ == suffixes_of(name@)[t as int]);
        let ghost before = suffixes.deep_view();
        suffixes.push(piece);
        proof {
            assert(suffixes.deep_view() =~~= before.push(piece@));
        }
        t = t + 1;
    }
    proof {
        assert(suffixes.deep_view() =~~= suffixes_of(name@));
    }
    (stem, suffix, suffixes)
}

/// Splits a path into drive, root and remainder.  Drive prefixes are a
/// foreign-platform notion and stay empty here.
pub fn parse_drive_and_root(path: &str) -> (r: (String, String, String))
    ensures
        r.0@ == Seq::<char>::empty(),
        r.1@ == root_of(path@),
        r.2@ == rest_of(path@),
{
    let v = chars_of(path);
    let n = v.len();
    if n > 0 && (v[0] == '/' || v[0] == '\\') {
        let root = string_of_chars(sub_chars(&v, 0, 1).as_slice());
        let rest = string_of_chars(sub_chars(&v, 1, n).as_slice());
        assert(root@ =~= root_of(path@));
        assert(rest@ =~= rest_of(path@));
        (String::new(), root, rest)
    } else {
        (String::new(), String::new(), path.to_owned())
    }
}

/// Decomposes a path string into its components.  Every input parses;
/// an empty input yields all-empty fields and a relative path.
pub fn parse_path_components(path: &str) -> (r: Result<PathComponents, CollectError>)
    ensures
        r is Ok,
        r matches Result::Ok(c) ==> {
            &&& c.drive@ == Seq::<char>::empty()
            &&& c.root@ == root_of(path@)
            &&& c.anchor@ == root_of(path@)
            &&& c.parent@ == parent_of(path@)
            &&& c.name@ == name_of(path@)
            &&& c.stem@ == stem_of(name_of(path@))
            &&& c.suffix@ == suffix_of(name_of(path@))
            &&& c.suffixes.deep_view() == suffixes_of(name_of(path@))
            &&& c.parts.deep_view() == parts_of(path@)
            &&& c.is_absolute == (root_of(path@).len() > 0)
        },
{
    let (drive, root, rest) = parse_drive_and_root(path);
    let rv = chars_of(rest.as_str());
    let seps: Vec<char> = vec!['/', '\\'];
    assert(seps@ =~= seq!['/', '\\']);
    let parts_chars = split_nonempty_chars(&rv, &seps);
    let ghost pdv = parts_of(path@);
    proof {
        assert(parts_chars.deep_view() =~= pdv);
    }
    let mut parts: Vec<String> = Vec::new();
    let mut t: usize = 0;
    while t < parts_chars.len()
        invariant
            pdv == parts_of(path@),
            parts_chars.deep_view() =~= pdv,
            parts_chars.deep_view().len() == parts_chars@.len(),
            t <= parts_chars@.len(),
            parts.deep_view().len() == t,
            forall|u: int| 0 <= u < t ==> parts.deep_view()[u] == pdv[u],
        decreases parts_chars@.len() - t,
    {
        assert(parts_chars@[t as int]@ == pdv[t as int]);
        let piece = string_of_chars(parts_chars[t].as_slice());
        parts.push(piece);
        t = t + 1;
    }
    proof {
        assert(parts.deep_view() =~~= pdv);
    }
    let name = if parts.len() == 0 {
        String::new()
    } else {
        parts[parts.len() - 1].clone()
    };
    assert(name@ == name_of(path@));
    let parent = if parts.len() > 1 {
        let m = parts.len() - 1;
        let mut p = root.clone();
        let mut u: usize = 0;
        while u < m
            invariant
                pdv == parts_of(path@),
                parts.deep_view() =~= pdv,
                parts.deep_view().len() == parts@.len(),
                m < parts@.len(),
                u <= m,
                root@ == root_of(path@),
                p@ == root_of(path@) + joined(pdv.take(u as int)),
            decreases m - u,
        {
            proof {
                assert(pdv.take(u + 1 as int).drop_last() =~= pdv.take(u as int));
                assert(pdv.take(u + 1 as int).last() == pdv[u as int]);
                assert(parts@[u as int]@ == pdv[u as int]);
            }
            if u > 0 {
                p.append("/");
                proof {
                    reveal_strlit("/");
                }
            }
            p.append(parts[u].as_str());
            proof {
                if u == 0 {
                    assert(joined(pdv.take(1)) == pdv.take(1)[0]);
                    assert(p@ =~= root_of(path@) + joined(pdv.take(1)));
                } else {
                    assert(p@ =~= root_of(path@) + (joined(pdv.take(u as int)) + seq!['/']
                        + pdv[u as int]));
                    assert(joined(pdv.take(u + 1 as int)) =~= joined(pdv.take(u as int))
                        + seq!['/'] + pdv[u as int]);
                }
            }
            u = u + 1;
        }
        proof {
            assert(pdv.take(m as int) =~= pdv.drop_last());
        }
        p
    } else if !root.as_str().is_empty() && parts.len() > 0 {
        root.clone()
    } else {
        String::new()
    };
    assert(parent@ == parent_of(path@));
    let (stem, suffix, suffixes) = parse_name_components(name.as_str());
    let is_absolute = !root.as_str().is_empty();
    let anchor = root.clone();
    Result::Ok(
        PathComponents {
            drive,
            root,
            anchor,
            parent,
            name,
            stem,
            suffix,
            suffixes,
            parts,
            is_absolute,
        },
    )
}

} // verus!
