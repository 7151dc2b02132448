//! Candidate discovery and record assembly.
//!
//! Two discovery strategies produce candidate path lists: driving the
//! pattern matcher's own expansion, or walking the pattern's base
//! directory in parallel and filtering the visited set.  Both apply the
//! same exclusion policy.  Status reads for the candidates happen at the
//! caller's edge; the functions here turn their outcomes into records
//! under one policy for symlinks, recoverable faults and hashes.

use vstd::prelude::*;
use crate::errors::{is_recoverable, is_recoverable_fault, CollectError, IoFault};
use crate::fsapi::{
    glob_accepts, glob_expand, glob_match, glob_match_str, pattern_compiles, pattern_ok,
    walk_entries, TraversalEntry,
};
use crate::pattern::{
    matches_pattern, matches_pattern_spec, normalize_glob_pattern, normalized_pattern,
    split_for_walk,
};
use crate::records::{
    build_record, record_matches, stat_times_fit, FileMetadata, StatInfo, StatOutcome,
};
use crate::strutil::{chars_of, lower_of, lowercase, rfind_char, string_of_chars, sub_chars};

verus! {

/// The final path component: everything after the last separator, or
/// the whole string when it has none.
pub open spec fn basename_of(s: Seq<char>) -> Seq<char> {
    if exists|k: int| 0 <= k < s.len() && s[k] == '/' {
        let k = choose|k: int|
            0 <= k < s.len() && s[k] == '/' && forall|j: int| k < j < s.len() ==> s[j] != '/';
        s.subrange(k + 1, s.len() as int)
    } else {
        s
    }
}

/// Extracts the final path component of `path`.
pub fn basename(path: &str) -> (r: String)
    ensures
        r@ == basename_of(path@),
{
    let v = chars_of(path);
    match rfind_char(&v, '/') {
        Some(k) => {
            proof {
                let k0 = choose|k0: int|
                    0 <= k0 < path@.len() && path@[k0] == '/' && forall|j: int|
                        k0 < j < path@.len() ==> path@[j] != '/';
                if k0 < k as int {
                    assert(path@[k as int] == '/');
                } else if k0 > k as int {
                    assert(path@[k0] != '/');
                }
                assert(k0 == k as int);
            }
            let n = v.len();
            string_of_chars(sub_chars(&v, k + 1, n).as_slice())
        },
        None => {
            assert(!(exists|k: int| 0 <= k < path@.len() && path@[k] == '/'));
            path.to_owned()
        },
    }
}

/// An entry is dropped when any exclude expression matches its raw path
/// or its final path component.
pub open spec fn excluded_by(path: Seq<char>, excludes: Seq<Seq<char>>) -> bool {
    exists|j: int|
        0 <= j < excludes.len() && (glob_match(excludes[j], path) || glob_match(
            excludes[j],
            basename_of(path),
        ))
}

/// Tests one path against every exclude expression.
pub fn is_excluded(path: &str, excludes: &Vec<String>) -> (r: bool)
    ensures
        r == excluded_by(path@, excludes.deep_view()),
{
    let ghost edv = excludes.deep_view();
    let base = basename(path);
    let mut j: usize = 0;
    while j < excludes.len()
        invariant
            edv == excludes.deep_view(),
            edv.len() == excludes@.len(),
            base@ == basename_of(path@),
            j <= excludes@.len(),
            forall|t: int|
                0 <= t < j ==> !glob_match(edv[t], path@) && !glob_match(
                    edv[t],
                    basename_of(path@),
                ),
        decreases excludes@.len() - j,
    {
        assert(edv[j as int] == excludes@[j as int]@);
        if glob_match_str(excludes[j].as_str(), path) {
            return true;
        }
        if glob_match_str(excludes[j].as_str(), base.as_str()) {
            return true;
        }
        j = j + 1;
    }
    false
}

/// A traversal entry that aborts the query: a fault that is neither
/// absence nor denied permission.
pub open spec fn entry_fatal(e: Result<Seq<char>, IoFault>) -> bool {
    match e {
        Result::Ok(_) => false,
        Result::Err(f) => !is_recoverable(f),
    }
}

/// The paths of the readable entries that no exclude expression drops,
/// in entry order.
pub open spec fn surviving_paths(
    entries: Seq<Result<Seq<char>, IoFault>>,
    excludes: Seq<Seq<char>>,
) -> Seq<Seq<char>>
    decreases entries.len(),
{
    if entries.len() == 0 {
        Seq::empty()
    } else {
        let rest = surviving_paths(entries.drop_last(), excludes);
        match entries.last() {
            Result::Ok(p) => if !excluded_by(p, excludes) {
                rest.push(p)
            } else {
                rest
            },
            Result::Err(_) => rest,
        }
    }
}

/// Applies exclusion and fault policy to expansion entries: recoverable
/// faults drop their entry, any other fault aborts.
pub fn sift_glob_entries(entries: &Vec<TraversalEntry>, excludes: &Vec<String>) -> (r:
    Result<Vec<String>, CollectError>)
    ensures
        match r {
            Result::Ok(paths) => {
                &&& paths.deep_view() == surviving_paths(entries.deep_view(), excludes.deep_view())
                &&& forall|j: int|
                    0 <= j < entries@.len() ==> !entry_fatal(entries.deep_view()[j])
            },
            Result::Err(e) => e == CollectError::TraversalIo && exists|j: int|
                0 <= j < entries@.len() && entry_fatal(entries.deep_view()[j]),
        },
{
    let ghost edv = entries.deep_view();
    let ghost xdv = excludes.deep_view();
    let mut acc: Vec<String> = Vec::new();
    let mut i: usize = 0;
    while i < entries.len()
        invariant
            edv == entries.deep_view(),
            xdv == excludes.deep_view(),
            edv.len() == entries@.len(),
            i <= entries@.len(),
            forall|j: int| 0 <= j < i ==> !entry_fatal(edv[j]),
            acc.deep_view() == surviving_paths(edv.take(i as int), xdv),
        decreases entries@.len() - i,
    {
        assert(edv[i as int] == entries@[i as int].deep_view());
        proof {
            assert(edv.take(i + 1 as int).drop_last() =~= edv.take(i as int));
            assert(edv.take(i + 1 as int).last() == edv[i as int]);
        }
        match &entries[i] {
            TraversalEntry::Path(p) => {
                if !is_excluded(p.as_str(), excludes) {
                    let ghost before = acc.deep_view();
                    acc.push(p.clone());
                    proof {
                        assert(acc.deep_view() =~~= before.push(p@));
                    }
                }
            },
            TraversalEntry::Fault(f) => {
                if !is_recoverable_fault(f) {
                    assert(entry_fatal(edv[i as int]));
                    return Result::Err(CollectError::TraversalIo);
                }
            },
        }
        i = i + 1;
    }
    proof {
        assert(edv.take(entries@.len() as int) =~= edv);
    }
    Result::Ok(acc)
}

/// How the walk strategy matches a visited path against the expression:
/// directly, or on the lowercase foldings of both when case is ignored.
pub open spec fn walk_match(pat: Seq<char>, path: Seq<char>, ignore_case: bool) -> bool {
    if ignore_case {
        glob_match(lower_of(pat), lower_of(path))
    } else {
        glob_match(pat, path)
    }
}

/// The readable visited paths that match the expression and that no
/// exclude expression drops, in entry order.
pub open spec fn surviving_walk_paths(
    entries: Seq<Result<Seq<char>, IoFault>>,
    pat: Seq<char>,
    ignore_case: bool,
    excludes: Seq<Seq<char>>,
) -> Seq<Seq<char>>
    decreases entries.len(),
{
    if entries.len() == 0 {
        Seq::empty()
    } else {
        let rest = surviving_walk_paths(entries.drop_last(), pat, ignore_case, excludes);
        match entries.last() {
            Result::Ok(p) => if walk_match(pat, p, ignore_case) && !excluded_by(p, excludes) {
                rest.push(p)
            } else {
                rest
            },
            Result::Err(_) => rest,
        }
    }
}

/// Filters walked entries against the match expression and the exclude
/// set, under the same fault policy as expansion entries.
pub fn sift_walk_entries(
    entries: &Vec<TraversalEntry>,
    pattern: &str,
    ignore_case: bool,
    excludes: &Vec<String>,
) -> (r: Result<Vec<String>, CollectError>)
    ensures
        match r {
            Result::Ok(paths) => {
                &&& paths.deep_view() == surviving_walk_paths(
                    entries.deep_view(),
                    pattern@,
                    ignore_case,
                    excludes.deep_view(),
                )
                &&& forall|j: int|
                    0 <= j < entries@.len() ==> !entry_fatal(entries.deep_view()[j])
            },
            Result::Err(e) => e == CollectError::TraversalIo && exists|j: int|
                0 <= j < entries@.len() && entry_fatal(entries.deep_view()[j]),
        },
{
    let ghost edv = entries.deep_view();
    let ghost xdv = excludes.deep_view();
    let lowered = lowercase(pattern);
    let mut acc: Vec<String> = Vec::new();
    let mut i: usize = 0;
    while i < entries.len()
        invariant
            edv == entries.deep_view(),
            xdv == excludes.deep_view(),
            edv.len() == entries@.len(),
            lowered@ == lower_of(pattern@),
            i <= entries@.len(),
            forall|j: int| 0 <= j < i ==> !entry_fatal(edv[j]),
            acc.deep_view() == surviving_walk_paths(edv.take(i as int), pattern@, ignore_case, xdv),
        decreases entries@.len() - i,
    {
        assert(edv[i as int] == entries@[i as int].deep_view());
        proof {
            assert(edv.take(i + 1 as int).drop_last() =~= edv.take(i as int));
            assert(edv.take(i + 1 as int).last() == edv[i as int]);
        }
        match &entries[i] {
            TraversalEntry::Path(p) => {
                let matched = if ignore_case {
                    let lp = lowercase(p.as_str());
                    glob_match_str(lowered.as_str(), lp.as_str())
                } else {
                    glob_match_str(pattern, p.as_str())
                };
                if matched && !is_excluded(p.as_str(), excludes) {
                    let ghost before = acc.deep_view();
                    acc.push(p.clone());
                    proof {
                        assert(acc.deep_view() =~~= before.push(p@));
                    }
                }
            },
            TraversalEntry::Fault(f) => {
                if !is_recoverable_fault(f) {
                    assert(entry_fatal(edv[i as int]));
                    return Result::Err(CollectError::TraversalIo);
                }
            },
        }
        i = i + 1;
    }
    proof {
        assert(edv.take(entries@.len() as int) =~= edv);
    }
    Result::Ok(acc)
}

/// Expands a pattern through the matcher's own traversal and applies
/// the exclusion and fault policy; the candidate list preserves the
/// expansion's enumeration order.
pub fn discover_by_glob(pattern: &str, ignore_case: bool, excludes: &Vec<String>) -> (r: Result<
    Vec<String>,
    CollectError,
>)
    ensures
        (r matches Result::Err(e) && e == CollectError::InvalidPattern) <==> !glob_accepts(
            normalized_pattern(pattern@),
        ),
        r is Err ==> (r == Result::<Vec<String>, CollectError>::Err(CollectError::InvalidPattern)
            || r == Result::<Vec<String>, CollectError>::Err(CollectError::TraversalIo)),
        r matches Result::Ok(paths) ==> forall|i: int|
            0 <= i < paths.deep_view().len() ==> !excluded_by(
                paths.deep_view()[i],
                excludes.deep_view(),
            ),
{
    let normalized = normalize_glob_pattern(pattern);
    match glob_expand(normalized.as_str(), !ignore_case) {
        Option::None => Result::Err(CollectError::InvalidPattern),
        Option::Some(entries) => {
            let sifted = sift_glob_entries(&entries, excludes);
            match sifted {
                Result::Ok(paths) => {
                    proof {
                        let pdv = paths.deep_view();
                        let edv = entries.deep_view();
                        let xdv = excludes.deep_view();
                        lemma_surviving_paths_not_excluded(edv, xdv);
                    }
                    Result::Ok(paths)
                },
                Result::Err(e) => Result::Err(e),
            }
        },
    }
}

proof fn lemma_surviving_paths_not_excluded(
    entries: Seq<Result<Seq<char>, IoFault>>,
    excludes: Seq<Seq<char>>,
)
    ensures
        forall|i: int|
            0 <= i < surviving_paths(entries, excludes).len() ==> !excluded_by(
                #[trigger] surviving_paths(entries, excludes)[i],
                excludes,
            ),
    decreases entries.len(),
{
    if entries.len() > 0 {
        lemma_surviving_paths_not_excluded(entries.drop_last(), excludes);
        let rest = surviving_paths(entries.drop_last(), excludes);
        let s = surviving_paths(entries, excludes);
        assert forall|i: int| 0 <= i < s.len() implies !excluded_by(#[trigger] s[i], excludes) by {
            match entries.last() {
                Result::Ok(p) => {
                    if !excluded_by(p, excludes) {
                        if i < rest.len() {
                            assert(s[i] == rest[i]);
                        } else {
                            assert(s[i] == p);
                        }
                    } else {
                        assert(s[i] == rest[i]);
                    }
                },
                Result::Err(_) => {
                    assert(s[i] == rest[i]);
                },
            }
        }
    }
}

/// Roots a parallel recursive walk at the pattern's base directory,
/// then filters the visited set against the full expression and the
/// exclude set.  The walk follows links only when asked; its entry
/// order carries no guarantee.
pub fn discover_by_walk(
    pattern: &str,
    ignore_case: bool,
    follow_symlinks: bool,
    excludes: &Vec<String>,
) -> (r: Result<Vec<String>, CollectError>)
    ensures
        (r matches Result::Err(e) && e == CollectError::InvalidPattern) <==> !pattern_ok(
            normalized_pattern(pattern@),
        ),
        r is Err ==> (r == Result::<Vec<String>, CollectError>::Err(CollectError::InvalidPattern)
            || r == Result::<Vec<String>, CollectError>::Err(CollectError::TraversalIo)),
        r matches Result::Ok(paths) ==> forall|i: int|
            0 <= i < paths.deep_view().len() ==> walk_match(
                normalized_pattern(pattern@),
                #[trigger] paths.deep_view()[i],
                ignore_case,
            ) && !excluded_by(paths.deep_view()[i], excludes.deep_view()),
{
    let normalized = normalize_glob_pattern(pattern);
    if !pattern_compiles(normalized.as_str()) {
        return Result::Err(CollectError::InvalidPattern);
    }
    let (base, _full) = split_for_walk(pattern);
    let entries = walk_entries(base.as_str(), follow_symlinks);
    let sifted = sift_walk_entries(&entries, normalized.as_str(), ignore_case, excludes);
    match sifted {
        Result::Ok(paths) => {
            proof {
                lemma_surviving_walk_kept(
                    entries.deep_view(),
                    normalized_pattern(pattern@),
                    ignore_case,
                    excludes.deep_view(),
                );
            }
            Result::Ok(paths)
        },
        Result::Err(e) => Result::Err(e),
    }
}

/// The readable visited paths that the simplified matcher keeps, in
/// entry order.
pub open spec fn surviving_matching_paths(
    entries: Seq<Result<Seq<char>, IoFault>>,
    pat: Seq<char>,
) -> Seq<Seq<char>>
    decreases entries.len(),
{
    if entries.len() == 0 {
        Seq::empty()
    } else {
        let rest = surviving_matching_paths(entries.drop_last(), pat);
        match entries.last() {
            Result::Ok(p) => if matches_pattern_spec(p, pat) {
                rest.push(p)
            } else {
                rest
            },
            Result::Err(_) => rest,
        }
    }
}

/// Filters walked entries through the simplified matcher, under the
/// same fault policy as the other strategies: absence and denied
/// permission drop their entry, any other fault aborts.
pub fn sift_matching_entries(entries: &Vec<TraversalEntry>, pattern: &str) -> (r: Result<
    Vec<String>,
    CollectError,
>)
    ensures
        match r {
            Result::Ok(paths) => {
                &&& paths.deep_view() == surviving_matching_paths(entries.deep_view(), pattern@)
                &&& forall|j: int|
                    0 <= j < entries@.len() ==> !entry_fatal(entries.deep_view()[j])
            },
            Result::Err(e) => e == CollectError::TraversalIo && exists|j: int|
                0 <= j < entries@.len() && entry_fatal(entries.deep_view()[j]),
        },
{
    let ghost edv = entries.deep_view();
    let mut acc: Vec<String> = Vec::new();
    let mut i: usize = 0;
    while i < entries.len()
        invariant
            edv == entries.deep_view(),
            edv.len() == entries@.len(),
            i <= entries@.len(),
            forall|j: int| 0 <= j < i ==> !entry_fatal(edv[j]),
            acc.deep_view() == surviving_matching_paths(edv.take(i as int), pattern@),
        decreases entries@.len() - i,
    {
        assert(edv[i as int] == entries@[i as int].deep_view());
        proof {
            assert(edv.take(i + 1 as int).drop_last() =~= edv.take(i as int));
            assert(edv.take(i + 1 as int).last() == edv[i as int]);
        }
        match &entries[i] {
            TraversalEntry::Path(p) => {
                if matches_pattern(p.as_str(), pattern) {
                    let ghost before = acc.deep_view();
                    acc.push(p.clone());
                    proof {
                        assert(acc.deep_view() =~~= before.push(p@));
                    }
                }
            },
            TraversalEntry::Fault(f) => {
                if !is_recoverable_fault(f) {
                    assert(entry_fatal(edv[i as int]));
                    return Result::Err(CollectError::TraversalIo);
                }
            },
        }
        i = i + 1;
    }
    proof {
        assert(edv.take(entries@.len() as int) =~= edv);
    }
    Result::Ok(acc)
}

/// The timestamps of a found entry fit the record representation.
pub open spec fn outcome_fits(o: StatOutcome) -> bool {
    match o {
        StatOutcome::Found(st) => stat_times_fit(st),
        _ => true,
    }
}

/// The timestamps of a read entry fit the record representation.
pub open spec fn stat_opt_fits(o: Option<StatInfo>) -> bool {
    match o {
        Option::Some(st) => stat_times_fit(st),
        _ => true,
    }
}

/// Whether a status outcome aborts the sequential collector.
pub open spec fn outcome_fatal(o: StatOutcome) -> bool {
    match o {
        StatOutcome::Failed => true,
        _ => false,
    }
}

/// A found entry is kept unless the no-follow policy is in force and
/// the entry is a symlink.
pub open spec fn policy_keeps(st: StatInfo, follow_symlinks: bool) -> bool {
    follow_symlinks || !st.is_symlink
}

/// The candidates that the sequential collector turns into records,
/// with the status each record is built from, in candidate order.
pub open spec fn kept_stats(
    paths: Seq<Seq<char>>,
    outcomes: Seq<StatOutcome>,
    follow_symlinks: bool,
) -> Seq<(Seq<char>, StatInfo)>
    decreases outcomes.len(),
{
    if outcomes.len() == 0 {
        Seq::empty()
    } else {
        let rest = kept_stats(paths.drop_last(), outcomes.drop_last(), follow_symlinks);
        match outcomes.last() {
            StatOutcome::Found(st) => if policy_keeps(st, follow_symlinks) {
                rest.push((paths.last(), st))
            } else {
                rest
            },
            _ => rest,
        }
    }
}

/// Turns the candidates' status reads into records, sequentially:
/// absence and denied permission skip their entry, any other failure
/// aborts the query, and under the no-follow policy a symlink entry is
/// dropped.  Records carry no hash and keep candidate order.
pub fn assemble_records(
    candidates: &Vec<String>,
    outcomes: &Vec<StatOutcome>,
    follow_symlinks: bool,
) -> (r: Result<Vec<FileMetadata>, CollectError>)
    requires
        candidates@.len() == outcomes@.len(),
        forall|j: int| 0 <= j < outcomes@.len() ==> outcome_fits(#[trigger] outcomes@[j]),
    ensures
        match r {
            Result::Ok(recs) => {
                &&& forall|j: int| 0 <= j < outcomes@.len() ==> !outcome_fatal(outcomes@[j])
                &&& recs@.len() == kept_stats(
                    candidates.deep_view(),
                    outcomes@,
                    follow_symlinks,
                ).len()
                &&& forall|i: int|
                    0 <= i < recs@.len() ==> record_matches(
                        #[trigger] recs@[i],
                        kept_stats(candidates.deep_view(), outcomes@, follow_symlinks)[i].0,
                        kept_stats(candidates.deep_view(), outcomes@, follow_symlinks)[i].1,
                        Option::None,
                    )
            },
            Result::Err(e) => e == CollectError::StatIo && exists|j: int|
                0 <= j < outcomes@.len() && outcome_fatal(outcomes@[j]),
        },
{
    let ghost cdv = candidates.deep_view();
    let ghost odv = outcomes@;
    let mut recs: Vec<FileMetadata> = Vec::new();
    let mut i: usize = 0;
    while i < outcomes.len()
        invariant
            cdv == candidates.deep_view(),
            odv == outcomes@,
            candidates@.len() == outcomes@.len(),
            cdv.len() == outcomes@.len(),
            i <= outcomes@.len(),
            forall|j: int| 0 <= j < outcomes@.len() ==> outcome_fits(#[trigger] outcomes@[j]),
            forall|j: int| 0 <= j < i ==> !outcome_fatal(odv[j]),
            recs@.len() == kept_stats(cdv.take(i as int), odv.take(i as int), follow_symlinks).len(),
            forall|t: int|
                0 <= t < recs@.len() ==> record_matches(
                    #[trigger] recs@[t],
                    kept_stats(cdv.take(i as int), odv.take(i as int), follow_symlinks)[t].0,
                    kept_stats(cdv.take(i as int), odv.take(i as int), follow_symlinks)[t].1,
                    Option::None,
                ),
        decreases outcomes@.len() - i,
    {
        proof {
            assert(cdv.take(i + 1 as int).drop_last() =~= cdv.take(i as int));
            assert(odv.take(i + 1 as int).drop_last() =~= odv.take(i as int));
            assert(odv.take(i + 1 as int).last() == odv[i as int]);
            assert(cdv.take(i + 1 as int).last() == cdv[i as int]);
            assert(cdv[i as int] == candidates@[i as int]@);
        }
        match &outcomes[i] {
            StatOutcome::Found(st) => {
                if follow_symlinks || !st.is_symlink {
                    let rec = build_record(candidates[i].clone(), st, Option::None);
                    recs.push(rec);
                }
            },
            StatOutcome::NotFound => {},
            StatOutcome::PermissionDenied => {},
            StatOutcome::Failed => {
                assert(outcome_fatal(odv[i as int]));
                return Result::Err(CollectError::StatIo);
            },
        }
        i = i + 1;
    }
    proof {
        assert(cdv.take(outcomes@.len() as int) =~= cdv);
        assert(odv.take(outcomes@.len() as int) =~= odv);
    }
    Result::Ok(recs)
}

/// The entries the parallel phase turns into records: per-entry
/// failures drop silently, the no-follow policy drops symlinks, and a
/// hash is carried only for regular files.
pub open spec fn kept_hashed(
    paths: Seq<Seq<char>>,
    stats: Seq<Option<StatInfo>>,
    hashes: Seq<Option<Seq<char>>>,
    follow_symlinks: bool,
) -> Seq<(Seq<char>, StatInfo, Option<Seq<char>>)>
    decreases stats.len(),
{
    if stats.len() == 0 {
        Seq::empty()
    } else {
        let rest = kept_hashed(
            paths.drop_last(),
            stats.drop_last(),
            hashes.drop_last(),
            follow_symlinks,
        );
        match stats.last() {
            Option::Some(st) => if policy_keeps(st, follow_symlinks) {
                rest.push(
                    (
                        paths.last(),
                        st,
                        if st.is_file {
                            hashes.last()
                        } else {
                            Option::None
                        },
                    ),
                )
            } else {
                rest
            },
            Option::None => rest,
        }
    }
}

/// Turns the parallel workers' per-candidate outcomes into records.  No
/// failure is fatal here: an unreadable entry is dropped, a symlink is
/// dropped under the no-follow policy, and a record's hash is present
/// exactly when the entry is a regular file and its content read
/// succeeded.
pub fn assemble_records_with_hash(
    candidates: &Vec<String>,
    stats: &Vec<Option<StatInfo>>,
    hashes: &Vec<Option<String>>,
    follow_symlinks: bool,
) -> (recs: Vec<FileMetadata>)
    requires
        candidates@.len() == stats@.len(),
        candidates@.len() == hashes@.len(),
        forall|j: int| 0 <= j < stats@.len() ==> stat_opt_fits(#[trigger] stats@[j]),
    ensures
        recs@.len() == kept_hashed(
            candidates.deep_view(),
            stats@,
            hashes.deep_view(),
            follow_symlinks,
        ).len(),
        forall|i: int|
            0 <= i < recs@.len() ==> record_matches(
                #[trigger] recs@[i],
                kept_hashed(candidates.deep_view(), stats@, hashes.deep_view(), follow_symlinks)[i].0,
                kept_hashed(candidates.deep_view(), stats@, hashes.deep_view(), follow_symlinks)[i].1,
                kept_hashed(candidates.deep_view(), stats@, hashes.deep_view(), follow_symlinks)[i].2,
            ),
{
    let ghost cdv = candidates.deep_view();
    let ghost sdv = stats@;
    let ghost hdv = hashes.deep_view();
    let mut recs: Vec<FileMetadata> = Vec::new();
    let mut i: usize = 0;
    while i < stats.len()
        invariant
            cdv == candidates.deep_view(),
            sdv == stats@,
            hdv == hashes.deep_view(),
            candidates@.len() == stats@.len(),
            candidates@.len() == hashes@.len(),
            cdv.len() == stats@.len(),
            hdv.len() == stats@.len(),
            i <= stats@.len(),
            forall|j: int| 0 <= j < stats@.len() ==> stat_opt_fits(#[trigger] stats@[j]),
            recs@.len() == kept_hashed(
                cdv.take(i as int),
                sdv.take(i as int),
                hdv.take(i as int),
                follow_symlinks,
            ).len(),
            forall|t: int|
                0 <= t < recs@.len() ==> record_matches(
                    #[trigger] recs@[t],
                    kept_hashed(
                        cdv.take(i as int),
                        sdv.take(i as int),
                        hdv.take(i as int),
                        follow_symlinks,
                    )[t].0,
                    kept_hashed(
                        cdv.take(i as int),
                        sdv.take(i as int),
                        hdv.take(i as int),
                        follow_symlinks,
                    )[t].1,
                    kept_hashed(
                        cdv.take(i as int),
                        sdv.take(i as int),
                        hdv.take(i as int),
                        follow_symlinks,
                    )[t].2,
                ),
        decreases stats@.len() - i,
    {
        proof {
            assert(cdv.take(i + 1 as int).drop_last() =~= cdv.take(i as int));
            assert(sdv.take(i + 1 as int).drop_last() =~= sdv.take(i as int));
            assert(hdv.take(i + 1 as int).drop_last() =~= hdv.take(i as int));
            assert(sdv.take(i + 1 as int).last() == sdv[i as int]);
            assert(cdv.take(i + 1 as int).last() == cdv[i as int]);
            assert(hdv.take(i + 1 as int).last() == hdv[i as int]);
            assert(cdv[i as int] == candidates@[i as int]@);
            assert(hdv[i as int] == hashes@[i as int].deep_view());
        }
        match &stats[i] {
            Option::Some(st) => {
                if follow_symlinks || !st.is_symlink {
                    let hash = if st.is_file {
                        match &hashes[i] {
                            Option::Some(h) => Option::Some(h.clone()),
                            Option::None => Option::None,
                        }
                    } else {
                        Option::None
                    };
                    let rec = build_record(candidates[i].clone(), st, hash);
                    recs.push(rec);
                }
            },
            Option::None => {},
        }
        i = i + 1;
    }
    proof {
        assert(cdv.take(stats@.len() as int) =~= cdv);
        assert(sdv.take(stats@.len() as int) =~= sdv);
        assert(hdv.take(stats@.len() as int) =~= hdv);
    }
    recs
}

proof fn lemma_surviving_walk_kept(
    entries: Seq<Result<Seq<char>, IoFault>>,
    pat: Seq<char>,
    ignore_case: bool,
    excludes: Seq<Seq<char>>,
)
    ensures
        forall|i: int|
            0 <= i < surviving_walk_paths(entries, pat, ignore_case, excludes).len() ==> walk_match(
                pat,
                #[trigger] surviving_walk_paths(entries, pat, ignore_case, excludes)[i],
                ignore_case,
            ) && !excluded_by(surviving_walk_paths(entries, pat, ignore_case, excludes)[i], excludes),
    decreases entries.len(),
{
    if entries.len() > 0 {
        lemma_surviving_walk_kept(entries.drop_last(), pat, ignore_case, excludes);
        let rest = surviving_walk_paths(entries.drop_last(), pat, ignore_case, excludes);
        let s = surviving_walk_paths(entries, pat, ignore_case, excludes);
        assert forall|i: int| 0 <= i < s.len() implies walk_match(pat, #[trigger] s[i], ignore_case)
            && !excluded_by(s[i], excludes) by {
            match entries.last() {
                Result::Ok(p) => {
                    if walk_match(pat, p, ignore_case) && !excluded_by(p, excludes) {
                        if i < rest.len() {
                            assert(s[i] == rest[i]);
                        } else {
                            assert(s[i] == p);
                        }
                    } else {
                        assert(s[i] == rest[i]);
                    }
                },
                Result::Err(_) => {
                    assert(s[i] == rest[i]);
                },
            }
        }
    }
}


/// Cursor over an assembled result vector, for hosts that poll one
/// record at a time.
pub struct EmitCursor {
    pub position: usize,
}

impl EmitCursor {
    /// A cursor at the first record.
    pub fn new() -> (r: EmitCursor)
        ensures
            r.position == 0,
    {
        EmitCursor { position: 0 }
    }

    /// The index of the next record to emit, advancing past it; nothing
    /// once every record of a vector of length `len` has been handed out.
    pub fn next_index(&mut self, len: usize) -> (r: Option<usize>)
        ensures
            match r {
                Option::Some(i) => old(self).position < len && i == old(self).position
                    && final(self).position == old(self).position + 1,
                Option::None => old(self).position >= len
                    && final(self).position == old(self).position,
            },
    {
        if self.position < len {
            let i = self.position;
            self.position = i + 1;
            Option::Some(i)
        } else {
            Option::None
        }
    }
}

/// Two records agree in every observable field.
pub open spec fn same_content(a: FileMetadata, b: FileMetadata) -> bool {
    &&& a.path@ == b.path@
    &&& a.size == b.size
    &&& a.modified_time == b.modified_time
    &&& a.accessed_time == b.accessed_time
    &&& a.created_time == b.created_time
    &&& a.permissions@ == b.permissions@
    &&& a.inode == b.inode
    &&& a.is_file == b.is_file
    &&& a.is_dir == b.is_dir
    &&& a.is_symlink == b.is_symlink
    &&& a.hash.deep_view() == b.hash.deep_view()
}

/// The sequential collector is a function of what it observes: two runs
/// that see the same candidate list and the same status outcomes (an
/// unchanged filesystem) yield records of identical content, entry for
/// entry.
pub proof fn lemma_sequential_collector_idempotent(
    paths: Seq<Seq<char>>,
    outcomes: Seq<StatOutcome>,
    follow_symlinks: bool,
    r1: Seq<FileMetadata>,
    r2: Seq<FileMetadata>,
)
    requires
        r1.len() == kept_stats(paths, outcomes, follow_symlinks).len(),
        forall|i: int|
            0 <= i < r1.len() ==> record_matches(
                #[trigger] r1[i],
                kept_stats(paths, outcomes, follow_symlinks)[i].0,
                kept_stats(paths, outcomes, follow_symlinks)[i].1,
                Option::None,
            ),
        r2.len() == kept_stats(paths, outcomes, follow_symlinks).len(),
        forall|i: int|
            0 <= i < r2.len() ==> record_matches(
                #[trigger] r2[i],
                kept_stats(paths, outcomes, follow_symlinks)[i].0,
                kept_stats(paths, outcomes, follow_symlinks)[i].1,
                Option::None,
            ),
    ensures
        r1.len() == r2.len(),
        forall|i: int| 0 <= i < r1.len() ==> same_content(#[trigger] r1[i], r2[i]),
{
    assert forall|i: int| 0 <= i < r1.len() implies same_content(#[trigger] r1[i], r2[i]) by {
        assert(record_matches(
            r1[i],
            kept_stats(paths, outcomes, follow_symlinks)[i].0,
            kept_stats(paths, outcomes, follow_symlinks)[i].1,
            Option::None,
        ));
        assert(record_matches(
            r2[i],
            kept_stats(paths, outcomes, follow_symlinks)[i].0,
            kept_stats(paths, outcomes, follow_symlinks)[i].1,
            Option::None,
        ));
    }
}

/// The two parallel strategies differ only in discovery: given the same
/// surviving candidate list and the same per-candidate status and hash
/// outcomes, their shared assembly phase produces records of identical
/// content, entry for entry.
pub proof fn lemma_parallel_strategies_converge(
    paths: Seq<Seq<char>>,
    stats: Seq<Option<StatInfo>>,
    hashes: Seq<Option<Seq<char>>>,
    follow_symlinks: bool,
    r1: Seq<FileMetadata>,
    r2: Seq<FileMetadata>,
)
    requires
        r1.len() == kept_hashed(paths, stats, hashes, follow_symlinks).len(),
        forall|i: int|
            0 <= i < r1.len() ==> record_matches(
                #[trigger] r1[i],
                kept_hashed(paths, stats, hashes, follow_symlinks)[i].0,
                kept_hashed(paths, stats, hashes, follow_symlinks)[i].1,
                kept_hashed(paths, stats, hashes, follow_symlinks)[i].2,
            ),
        r2.len() == kept_hashed(paths, stats, hashes, follow_symlinks).len(),
        forall|i: int|
            0 <= i < r2.len() ==> record_matches(
                #[trigger] r2[i],
                kept_hashed(paths, stats, hashes, follow_symlinks)[i].0,
                kept_hashed(paths, stats, hashes, follow_symlinks)[i].1,
                kept_hashed(paths, stats, hashes, follow_symlinks)[i].2,
            ),
    ensures
        r1.len() == r2.len(),
        forall|i: int| 0 <= i < r1.len() ==> same_content(#[trigger] r1[i], r2[i]),
{
    assert forall|i: int| 0 <= i < r1.len() implies same_content(#[trigger] r1[i], r2[i]) by {
        assert(record_matches(
            r1[i],
            kept_hashed(paths, stats, hashes, follow_symlinks)[i].0,
            kept_hashed(paths, stats, hashes, follow_symlinks)[i].1,
            kept_hashed(paths, stats, hashes, follow_symlinks)[i].2,
        ));
        assert(record_matches(
            r2[i],
            kept_hashed(paths, stats, hashes, follow_symlinks)[i].0,
            kept_hashed(paths, stats, hashes, follow_symlinks)[i].1,
            kept_hashed(paths, stats, hashes, follow_symlinks)[i].2,
        ));
    }
}

proof fn lemma_kept_stats_no_symlink(paths: Seq<Seq<char>>, outcomes: Seq<StatOutcome>)
    ensures
        forall|i: int|
            0 <= i < kept_stats(paths, outcomes, false).len() ==> !(#[trigger] kept_stats(
                paths,
                outcomes,
                false,
            )[i]).1.is_symlink,
    decreases outcomes.len(),
{
    if outcomes.len() > 0 {
        lemma_kept_stats_no_symlink(paths.drop_last(), outcomes.drop_last());
    }
}

proof fn lemma_kept_hashed_no_symlink(
    paths: Seq<Seq<char>>,
    stats: Seq<Option<StatInfo>>,
    hashes: Seq<Option<Seq<char>>>,
)
    ensures
        forall|i: int|
            0 <= i < kept_hashed(paths, stats, hashes, false).len() ==> !(#[trigger] kept_hashed(
                paths,
                stats,
                hashes,
                false,
            )[i]).1.is_symlink,
    decreases stats.len(),
{
    if stats.len() > 0 {
        lemma_kept_hashed_no_symlink(paths.drop_last(), stats.drop_last(), hashes.drop_last());
    }
}

/// Under the no-follow policy, no record of the sequential collector
/// reports a symlink.
pub proof fn lemma_no_follow_has_no_symlinks(
    paths: Seq<Seq<char>>,
    outcomes: Seq<StatOutcome>,
    recs: Seq<FileMetadata>,
)
    requires
        recs.len() == kept_stats(paths, outcomes, false).len(),
        forall|i: int|
            0 <= i < recs.len() ==> record_matches(
                #[trigger] recs[i],
                kept_stats(paths, outcomes, false)[i].0,
                kept_stats(paths, outcomes, false)[i].1,
                Option::None,
            ),
    ensures
        forall|i: int| 0 <= i < recs.len() ==> !(#[trigger] recs[i]).is_symlink,
{
    lemma_kept_stats_no_symlink(paths, outcomes);
}

/// Under the no-follow policy, no record of the parallel assembly phase
/// reports a symlink.
pub proof fn lemma_no_follow_has_no_symlinks_hashed(
    paths: Seq<Seq<char>>,
    stats: Seq<Option<StatInfo>>,
    hashes: Seq<Option<Seq<char>>>,
    recs: Seq<FileMetadata>,
)
    requires
        recs.len() == kept_hashed(paths, stats, hashes, false).len(),
        forall|i: int|
            0 <= i < recs.len() ==> record_matches(
                #[trigger] recs[i],
                kept_hashed(paths, stats, hashes, false)[i].0,
                kept_hashed(paths, stats, hashes, false)[i].1,
                kept_hashed(paths, stats, hashes, false)[i].2,
            ),
    ensures
        forall|i: int| 0 <= i < recs.len() ==> !(#[trigger] recs[i]).is_symlink,
{
    lemma_kept_hashed_no_symlink(paths, stats, hashes);
}

} // verus!
