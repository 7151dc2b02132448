//! Glob-pattern normalization and decomposition.
//!
//! The traversal engine's recursive marker (`**`) matches only directories
//! when it ends a pattern, so a trailing marker gets an explicit wildcard
//! segment appended.  Walk-based discovery needs the deepest non-glob
//! ancestor directory of a pattern as its root.

use vstd::prelude::*;
use vstd::string::StrSliceExecFns;
use vstd::string::StringExecFns;
use crate::strutil::{
    chars_of, drop_leading, drop_trailing, find_char, find_sub, first_occurrence, is_prefix_of,
    is_suffix_of, lemma_first_occurrence_unique, occurs_at, rfind_char, slice_ends_with,
    slice_starts_with, str_ends_with, str_eq, string_of_chars, sub_chars, trim_end_char,
    trim_start_char,
};

verus! {

/// What pattern normalization yields: a pattern ending in a recursive
/// marker right after a separator gains an explicit wildcard suffix, for
/// both separator styles; every other pattern passes through unchanged.
pub open spec fn normalized_pattern(s: Seq<char>) -> Seq<char> {
    if is_suffix_of(seq!['/', '*', '*'], s) {
        s + seq!['/', '*']
    } else if is_suffix_of(seq!['\\', '*', '*'], s) {
        s + seq!['\\', '*']
    } else {
        s
    }
}

/// Rewrites a pattern into the traversal library's dialect.
pub fn normalize_glob_pattern(pattern: &str) -> (r: String)
    ensures
        r@ == normalized_pattern(pattern@),
{
    proof {
        reveal_strlit("/**");
        reveal_strlit("\\**");
        reveal_strlit("/*");
        reveal_strlit("\\*");
    }
    assert("/**"@ =~= seq!['/', '*', '*']);
    assert("\\**"@ =~= seq!['\\', '*', '*']);
    if str_ends_with(pattern, "/**") {
        let mut r = pattern.to_owned();
        r.append("/*");
        assert(r@ =~= pattern@ + seq!['/', '*']);
        r
    } else if str_ends_with(pattern, "\\**") {
        let mut r = pattern.to_owned();
        r.append("\\*");
        assert(r@ =~= pattern@ + seq!['\\', '*']);
        r
    } else {
        pattern.to_owned()
    }
}

/// A character that gives a pattern segment glob meaning.
pub open spec fn is_glob_char(c: char) -> bool {
    c == '*' || c == '?' || c == '[' || c == '{'
}

/// Runtime check for [`is_glob_char`].
fn is_glob_char_exec(c: char) -> (r: bool)
    ensures
        r == is_glob_char(c),
{
    c == '*' || c == '?' || c == '[' || c == '{'
}

/// Index of the first glob metacharacter in `v`, if any.
fn find_glob_char(v: &[char]) -> (r: Option<usize>)
    ensures
        match r {
            Some(i) => i < v@.len() && is_glob_char(v@[i as int]) && forall|k: int|
                0 <= k < i ==> !is_glob_char(v@[k]),
            None => forall|k: int| 0 <= k < v@.len() ==> !is_glob_char(v@[k]),
        },
{
    let mut i: usize = 0;
    while i < v.len()
        invariant
            i <= v@.len(),
            forall|k: int| 0 <= k < i ==> !is_glob_char(v@[k]),
        decreases v@.len() - i,
    {
        if is_glob_char_exec(v[i]) {
            return Some(i);
        }
        i = i + 1;
    }
    None
}

/// The base directory that [`extract_base_path`] returns: everything up
/// to the last separator before the first glob metacharacter; the root
/// for absolute patterns whose glob part starts right after it; the
/// current directory otherwise.  A pattern without glob characters is its
/// own base.
pub open spec fn base_path_of(s: Seq<char>) -> Seq<char> {
    if forall|k: int| 0 <= k < s.len() ==> !is_glob_char(s[k]) {
        s
    } else {
        let p = choose|p: int|
            0 <= p < s.len() && is_glob_char(s[p]) && forall|k: int|
                0 <= k < p ==> !is_glob_char(s[k]);
        if exists|j: int| 0 < j < p && s[j] == '/' {
            let e = choose|e: int|
                0 < e < p && s[e] == '/' && forall|j: int| e < j < p ==> s[j] != '/';
            s.subrange(0, e)
        } else if s.len() > 0 && s[0] == '/' {
            seq!['/']
        } else {
            seq!['.']
        }
    }
}

proof fn lemma_first_glob_choice(s: Seq<char>, p: int)
    requires
        0 <= p < s.len(),
        is_glob_char(s[p]),
        forall|k: int| 0 <= k < p ==> !is_glob_char(s[k]),
    ensures
        (choose|p0: int|
            0 <= p0 < s.len() && is_glob_char(s[p0]) && forall|k: int|
                0 <= k < p0 ==> !is_glob_char(s[k])) == p,
{
    let p0 = choose|p0: int|
        0 <= p0 < s.len() && is_glob_char(s[p0]) && forall|k: int|
            0 <= k < p0 ==> !is_glob_char(s[k]);
    if p0 < p {
        assert(!is_glob_char(s[p0]));
    } else if p0 > p {
        assert(!is_glob_char(s[p]));
    }
}

/// Deepest ancestor directory of a pattern that holds no glob
/// metacharacter.
#[verifier::rlimit(30)]
pub fn extract_base_path(pattern: &str) -> (r: String)
    ensures
        r@ == base_path_of(pattern@),
{
    let v = chars_of(pattern);
    match find_glob_char(&v) {
        None => pattern.to_owned(),
        Some(p) => {
            proof {
                lemma_first_glob_choice(pattern@, p as int);
            }
            let prefix = sub_chars(&v, 0, p);
            let sep = rfind_char(&prefix, '/');
            match sep {
                Some(e) if e > 0 => {
                    proof {
                        assert(pattern@[e as int] == '/');
                        assert forall|j: int| e < j < p implies pattern@[j] != '/' by {
                            assert(prefix@[j] == pattern@[j]);
                        }
                        let e0 = choose|e0: int|
                            0 < e0 < p && pattern@[e0] == '/' && forall|j: int|
                                e0 < j < p ==> pattern@[j] != '/';
                        if e0 < e as int {
                            assert(pattern@[e as int] != '/');
                        } else if e0 > e as int {
                            assert(pattern@[e0] != '/');
                        }
                        assert(e0 == e as int);
                    }
                    string_of_chars(sub_chars(&v, 0, e).as_slice())
                },
                _ => {
                    proof {
                        assert forall|j: int| 0 < j < p implies pattern@[j] != '/' by {
                            assert(prefix@[j] == pattern@[j]);
                        }
                        assert(!(exists|j: int| 0 < j < p && pattern@[j] == '/'));
                    }
                    if v.len() > 0 && v[0] == '/' {
                        proof {
                            reveal_strlit("/");
                        }
                        let r = "/".to_owned();
                        assert(r@ =~= seq!['/']);
                        r
                    } else {
                        proof {
                            reveal_strlit(".");
                        }
                        let r = ".".to_owned();
                        assert(r@ =~= seq!['.']);
                        r
                    }
                },
            }
        },
    }
}

/// The full match expression retained alongside a base directory: the
/// pattern itself.
pub fn extract_glob_pattern(pattern: &str) -> (r: String)
    ensures
        r@ == pattern@,
{
    pattern.to_owned()
}

/// A path separator of either style.
pub open spec fn is_sep_char(c: char) -> bool {
    c == '/' || c == '\\'
}

/// Index of the last separator character in `v`, if any.
fn find_last_sep(v: &[char]) -> (r: Option<usize>)
    ensures
        match r {
            Some(i) => i < v@.len() && is_sep_char(v@[i as int]) && forall|k: int|
                i < k < v@.len() ==> !is_sep_char(v@[k]),
            None => forall|k: int| 0 <= k < v@.len() ==> !is_sep_char(v@[k]),
        },
{
    let mut i: usize = v.len();
    while i > 0
        invariant
            i <= v@.len(),
            forall|k: int| i <= k < v@.len() ==> !is_sep_char(v@[k]),
        decreases i,
    {
        i = i - 1;
        if v[i] == '/' || v[i] == '\\' {
            return Some(i);
        }
    }
    None
}

proof fn lemma_least_glob_char(s: Seq<char>, k: int)
    requires
        0 <= k < s.len(),
        is_glob_char(s[k]),
    ensures
        exists|p: int|
            0 <= p < s.len() && is_glob_char(#[trigger] s[p]) && forall|t: int|
                0 <= t < p ==> !is_glob_char(s[t]),
    decreases k,
{
    if forall|t: int| 0 <= t < k ==> !is_glob_char(s[t]) {
        assert(0 <= k < s.len() && is_glob_char(s[k]) && forall|t: int|
            0 <= t < k ==> !is_glob_char(s[t]));
    } else {
        let t = choose|t: int| 0 <= t < k && is_glob_char(s[t]);
        lemma_least_glob_char(s, t);
    }
}

proof fn lemma_last_sep_before(s: Seq<char>, p: int, j: int)
    requires
        0 < j < p,
        p <= s.len(),
        s[j] == '/',
    ensures
        exists|e: int|
            0 < e < p && #[trigger] s[e] == '/' && forall|t: int| e < t < p ==> s[t] != '/',
    decreases p - j,
{
    if forall|t: int| j < t < p ==> s[t] != '/' {
        assert(0 < j < p && s[j] == '/' && forall|t: int| j < t < p ==> s[t] != '/');
    } else {
        let t = choose|t: int| j < t < p && s[t] == '/';
        lemma_last_sep_before(s, p, t);
    }
}

/// The directory where a recursive walk is rooted for a pattern: the
/// current directory for a pattern without separators, and otherwise
/// the deepest ancestor directory that holds no glob metacharacter —
/// the same base that [`extract_base_path`] yields.
pub open spec fn walk_base_of(s: Seq<char>) -> Seq<char> {
    if forall|k: int| 0 <= k < s.len() ==> !is_sep_char(s[k]) {
        seq!['.']
    } else {
        base_path_of(s)
    }
}

/// A walk base never holds a glob metacharacter: the walk is always
/// rooted at a literal directory name.
pub proof fn lemma_walk_base_glob_free(s: Seq<char>)
    ensures
        forall|k: int|
            0 <= k < walk_base_of(s).len() ==> !is_glob_char(#[trigger] walk_base_of(s)[k]),
{
    let b = walk_base_of(s);
    if forall|k: int| 0 <= k < s.len() ==> !is_sep_char(s[k]) {
        assert(!is_glob_char('.'));
    } else if forall|k: int| 0 <= k < s.len() ==> !is_glob_char(s[k]) {
        assert(b == s);
    } else {
        let k0 = choose|k0: int| 0 <= k0 < s.len() && is_glob_char(s[k0]);
        lemma_least_glob_char(s, k0);
        let p = choose|p: int|
            0 <= p < s.len() && is_glob_char(s[p]) && forall|t: int|
                0 <= t < p ==> !is_glob_char(s[t]);
        if exists|j: int| 0 < j < p && s[j] == '/' {
            let j0 = choose|j0: int| 0 < j0 < p && s[j0] == '/';
            lemma_last_sep_before(s, p, j0);
            let e = choose|e: int|
                0 < e < p && s[e] == '/' && forall|t: int| e < t < p ==> s[t] != '/';
            assert(b == s.subrange(0, e));
            assert forall|k: int| 0 <= k < b.len() implies !is_glob_char(b[k]) by {
                assert(b[k] == s[k]);
            }
        } else {
            assert(!is_glob_char('/'));
            assert(!is_glob_char('.'));
        }
    }
}

/// Splits a pattern into the base directory for a recursive walk and the
/// full match expression retained for post-walk filtering.
pub fn split_for_walk(pattern: &str) -> (r: (String, String))
    ensures
        r.0@ == walk_base_of(pattern@),
        r.1@ == pattern@,
{
    let v = chars_of(pattern);
    let full = pattern.to_owned();
    match find_last_sep(&v) {
        None => {
            proof {
                reveal_strlit(".");
            }
            let base = ".".to_owned();
            assert(base@ =~= seq!['.']);
            (base, full)
        },
        Some(k) => {
            assert(is_sep_char(pattern@[k as int]));
            assert(!(forall|t: int| 0 <= t < pattern@.len() ==> !is_sep_char(pattern@[t])));
            let base = extract_base_path(pattern);
            (base, full)
        },
    }
}

/// `s` holds an occurrence of `p` somewhere.
pub open spec fn has_occurrence(s: Seq<char>, p: Seq<char>) -> bool {
    exists|i: int| occurs_at(s, p, i)
}

/// The pattern splits on the recursive marker into exactly a prefix and
/// a suffix: one leftmost occurrence, none after it.
pub open spec fn single_dstar_split(pat: Seq<char>) -> bool {
    exists|i: int|
        first_occurrence(pat, seq!['*', '*'], i) && !has_occurrence(
            pat.subrange(i + 2, pat.len() as int),
            seq!['*', '*'],
        )
}

/// The pattern holds exactly one wildcard character.
pub open spec fn single_star(pat: Seq<char>) -> bool {
    exists|i: int|
        0 <= i < pat.len() && pat[i] == '*' && forall|j: int|
            0 <= j < pat.len() && j != i ==> pat[j] != '*'
}

/// The simplified match test applied to walked entries: a pattern with a
/// single recursive marker matches by prefix and suffix around it (with
/// adjacent separators shorn); a pattern with a single wildcard matches
/// by prefix and suffix around that; anything else must match exactly.
pub open spec fn matches_pattern_spec(path: Seq<char>, pat: Seq<char>) -> bool {
    if single_dstar_split(pat) {
        let i = choose|i: int| first_occurrence(pat, seq!['*', '*'], i);
        let prefix = drop_trailing(pat.subrange(0, i), '/');
        let suffix = drop_leading(pat.subrange(i + 2, pat.len() as int), '/');
        (prefix.len() == 0 || is_prefix_of(prefix, path)) && (suffix.len() == 0 || is_suffix_of(
            suffix,
            path,
        ))
    } else if single_star(pat) {
        let i = choose|i: int|
            0 <= i < pat.len() && pat[i] == '*' && forall|j: int|
                0 <= j < pat.len() && j != i ==> pat[j] != '*';
        is_prefix_of(pat.subrange(0, i), path) && is_suffix_of(
            pat.subrange(i + 1, pat.len() as int),
            path,
        )
    } else {
        path == pat
    }
}

/// Whether some `'*'` occurs in `v` strictly after position `i`.
fn star_after(v: &[char], i: usize) -> (r: bool)
    requires
        i < v@.len(),
    ensures
        r == exists|j: int| i < j < v@.len() && v@[j] == '*',
{
    let n = v.len();
    let mut k: usize = i + 1;
    while k < n
        invariant
            n == v@.len(),
            i < k <= v@.len(),
            forall|j: int| i < j < k ==> v@[j] != '*',
        decreases v@.len() - k,
    {
        if v[k] == '*' {
            return true;
        }
        k = k + 1;
    }
    false
}

/// Simplified wildcard match of a path string against a pattern.
pub fn matches_pattern(path: &str, pattern: &str) -> (r: bool)
    ensures
        r == matches_pattern_spec(path@, pattern@),
{
    let pv = chars_of(pattern);
    let path_v = chars_of(path);
    let ds: Vec<char> = vec!['*', '*'];
    assert(ds@ =~= seq!['*', '*']);
    let found = find_sub(&pv, &ds);
    if let Some(i) = found {
        let n = pv.len();
        assert(occurs_at(pv@, ds@, i as int));
        assert(i + 2 <= n);
        let rest = sub_chars(&pv, i + 2, n);
        let more = find_sub(&rest, &ds);
        if more.is_none() {
            assert(first_occurrence(pattern@, seq!['*', '*'], i as int));
            assert(single_dstar_split(pattern@));
            proof {
                let i0 = choose|i0: int| first_occurrence(pattern@, seq!['*', '*'], i0);
                lemma_first_occurrence_unique(pattern@, seq!['*', '*'], i0, i as int);
            }
            let prefix = trim_end_char(sub_chars(&pv, 0, i).as_slice(), '/');
            let suffix = trim_start_char(rest.as_slice(), '/');
            let pre_ok = prefix.len() == 0 || slice_starts_with(&path_v, &prefix);
            let suf_ok = suffix.len() == 0 || slice_ends_with(&path_v, &suffix);
            return pre_ok && suf_ok;
        }
        assert(!single_dstar_split(pattern@)) by {
            if single_dstar_split(pattern@) {
                let j = choose|j: int|
                    first_occurrence(pattern@, seq!['*', '*'], j) && !has_occurrence(
                        pattern@.subrange(j + 2, pattern@.len() as int),
                        seq!['*', '*'],
                    );
                lemma_first_occurrence_unique(pattern@, seq!['*', '*'], j, i as int);
            }
        }
    } else {
        assert(!single_dstar_split(pattern@)) by {
            if single_dstar_split(pattern@) {
                let j = choose|j: int| first_occurrence(pattern@, seq!['*', '*'], j);
                assert(occurs_at(pattern@, seq!['*', '*'], j));
            }
        }
    }
    let star = find_char(&pv, '*');
    if let Some(i) = star {
        if star_after(&pv, i) {
            assert(!single_star(pattern@)) by {
                let j = choose|j: int| i < j < pattern@.len() && pattern@[j] == '*';
                if single_star(pattern@) {
                    let t = choose|t: int|
                        0 <= t < pattern@.len() && pattern@[t] == '*' && forall|u: int|
                            0 <= u < pattern@.len() && u != t ==> pattern@[u] != '*';
                    assert(t != i as int || t != j);
                }
            }
            return str_eq(path, pattern);
        }
        assert(single_star(pattern@));
        proof {
            let i0 = choose|i0: int|
                0 <= i0 < pattern@.len() && pattern@[i0] == '*' && forall|j: int|
                    0 <= j < pattern@.len() && j != i0 ==> pattern@[j] != '*';
            assert(i0 == i as int);
        }
        let n = pv.len();
        assert(i < n);
        let prefix = sub_chars(&pv, 0, i);
        let suffix = sub_chars(&pv, i + 1, n);
        let pre_ok = slice_starts_with(&path_v, &prefix);
        let suf_ok = slice_ends_with(&path_v, &suffix);
        pre_ok && suf_ok
    } else {
        assert(!single_star(pattern@));
        str_eq(path, pattern)
    }
}

} // verus!
