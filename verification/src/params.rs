//! Parsing of the optional query inputs: boolean toggles and the
//! exclusion list.

use vstd::prelude::*;
use crate::strutil::{
    chars_of, drop_leading, drop_trailing, lower_of, lowercase, split_nonempty,
    split_nonempty_chars, str_eq, string_of_chars, sub_chars, trim_char, trim_ws, trimmed,
};

verus! {

/// A toggle is on exactly when its value reads "true", in any casing.
pub fn parse_bool_flag(s: &str) -> (r: bool)
    ensures
        r == (lower_of(s@) == "true"@),
{
    let lowered = lowercase(s);
    str_eq(lowered.as_str(), "true")
}

/// One raw exclusion field, cleaned: whitespace shorn, then any quote
/// characters of either style at the ends.
pub open spec fn cleaned_field(f: Seq<char>) -> Seq<char> {
    drop_trailing(
        drop_leading(drop_trailing(drop_leading(trimmed(f), '"'), '"'), '\''),
        '\'',
    )
}

/// The cleaned, non-empty fields of a comma-separated list.
pub open spec fn cleaned_fields(fields: Seq<Seq<char>>) -> Seq<Seq<char>>
    decreases fields.len(),
{
    if fields.len() == 0 {
        Seq::empty()
    } else {
        let rest = cleaned_fields(fields.drop_last());
        if cleaned_field(fields.last()).len() > 0 {
            rest.push(cleaned_field(fields.last()))
        } else {
            rest
        }
    }
}

/// What an exclusion input denotes: a bracketed value is a
/// comma-separated list whose fields are cleaned and kept when
/// non-empty; any other non-empty value but the null marker is a single
/// pattern; everything else is no exclusion at all.
pub open spec fn exclude_items(s: Seq<char>) -> Seq<Seq<char>> {
    if s.len() >= 2 && s[0] == '[' && s.last() == ']' {
        cleaned_fields(split_nonempty(s.subrange(1, s.len() - 1), seq![',']))
    } else if s.len() > 0 && s != "NULL"@ {
        seq![s]
    } else {
        Seq::empty()
    }
}

/// Parses the exclusion input into its list of patterns.
pub fn parse_exclude_patterns(s: &str) -> (r: Vec<String>)
    ensures
        r.deep_view() == exclude_items(s@),
{
    let v = chars_of(s);
    let n = v.len();
    if n >= 2 && v[0] == '[' && v[n - 1] == ']' {
        let inner = sub_chars(&v, 1, n - 1);
        let seps: Vec<char> = vec![','];
        assert(seps@ =~= seq![',']);
        let fields = split_nonempty_chars(inner.as_slice(), seps.as_slice());
        let ghost fdv = fields.deep_view();
        let mut r: Vec<String> = Vec::new();
        let mut i: usize = 0;
        while i < fields.len()
            invariant
                fdv == fields.deep_view(),
                fdv.len() == fields@.len(),
                i <= fields@.len(),
                r.deep_view() == cleaned_fields(fdv.take(i as int)),
            decreases fields@.len() - i,
        {
            proof {
                assert(fdv.take(i + 1 as int).drop_last() =~= fdv.take(i as int));
                assert(fdv.take(i + 1 as int).last() == fdv[i as int]);
                assert(fields@[i as int]@ == fdv[i as int]);
            }
            let t1 = trim_ws(fields[i].as_slice());
            let t2 = trim_char(t1.as_slice(), '"');
            let t3 = trim_char(t2.as_slice(), '\'');
            if t3.len() > 0 {
                let ghost before = r.deep_view();
                let piece = string_of_chars(t3.as_slice());
                r.push(piece);
                proof {
                    assert(r.deep_view() =~~= before.push(cleaned_field(fdv[i as int])));
                }
            }
            i = i + 1;
        }
        proof {
            assert(fdv.take(fields@.len() as int) =~= fdv);
        }
        r
    } else {
        proof {
            reveal_strlit("NULL");
        }
        if str_eq(s, "NULL") || n == 0 {
            let r: Vec<String> = Vec::new();
            assert(r.deep_view() =~= exclude_items(s@));
            r
        } else {
            let mut r: Vec<String> = Vec::new();
            r.push(s.to_owned());
            assert(r.deep_view() =~= seq![s@]);
            r
        }
    }
}

} // verus!
