//! Trusted boundary to the traversal libraries.
//!
//! The pattern matcher and the parallel directory walker do their own
//! filesystem reads; what they return depends on what is on disk, so the
//! contracts here state only what holds of every outcome.  Whether a
//! pattern is accepted, and whether a pattern matches a given string,
//! depend on the strings alone and carry names.

use vstd::prelude::*;
use crate::errors::IoFault;

verus! {

/// One entry of a traversal: a visited path, or the fault that kept one
/// from being read.
#[derive(Debug, Clone)]
pub enum TraversalEntry {
    Path(String),
    Fault(IoFault),
}

impl vstd::view::DeepView for TraversalEntry {
    type V = Result<Seq<char>, IoFault>;

    open spec fn deep_view(&self) -> Result<Seq<char>, IoFault> {
        match self {
            TraversalEntry::Path(p) => Result::Ok(p@),
            TraversalEntry::Fault(f) => Result::Err(*f),
        }
    }
}

/// Whether the match expression compiler accepts `pattern`.
pub uninterp spec fn pattern_ok(pattern: Seq<char>) -> bool;

/// Whether pattern expansion accepts `pattern` (the whole expression and
/// each of its path segments compile).
pub uninterp spec fn glob_accepts(pattern: Seq<char>) -> bool;

/// Whether `pattern` matches `text` under default match options; false
/// where the pattern does not compile.
pub uninterp spec fn glob_match(pattern: Seq<char>, text: Seq<char>) -> bool;

/// Relies on glob::Pattern::new: acceptance depends on the pattern
/// string alone.
#[verifier::external_body]
pub fn pattern_compiles(pattern: &str) -> (r: bool)
    ensures
        r == pattern_ok(pattern@),
{
    glob::Pattern::new(pattern).is_ok()
}

/// Relies on glob::Pattern::new and glob::Pattern::matches: the verdict
/// depends on the two strings alone; an uncompilable pattern matches
/// nothing.
#[verifier::external_body]
pub fn glob_match_str(pattern: &str, text: &str) -> (r: bool)
    ensures
        r == glob_match(pattern@, text@),
{
    match glob::Pattern::new(pattern) {
        Ok(p) => p.matches(text),
        Err(_) => false,
    }
}

/// Relies on glob::glob_with: acceptance depends on the pattern string
/// alone; the entries enumerate what is on disk, each one a matched path
/// or the fault that kept one from being read.
#[verifier::external_body]
pub fn glob_expand(pattern: &str, case_sensitive: bool) -> (r: Option<Vec<TraversalEntry>>)
    ensures
        (r is Some) == glob_accepts(pattern@),
{
    let options = glob::MatchOptions { case_sensitive, require_literal_separator: false, require_literal_leading_dot: false };
    match glob::glob_with(pattern, options) {
        Err(_) => None,
        Ok(paths) => Some(paths.map(|entry| match entry {
            Ok(p) => TraversalEntry::Path(p.to_string_lossy().to_string()),
            Err(g) => TraversalEntry::Fault(match g.error().kind() {
                std::io::ErrorKind::NotFound => IoFault::NotFound,
                std::io::ErrorKind::PermissionDenied => IoFault::PermissionDenied,
                _ => IoFault::Other,
            }),
        }).collect()),
    }
}

/// Relies on jwalk::WalkDir: a parallel recursive walk rooted at `base`,
/// following links during traversal only when asked to.  Each entry is a
/// visited path or the fault that kept one from being read; what comes
/// back, and in what order, depends on the disk and on scheduling.  (The
/// walker rebuilds even the root entry's path from its parent and file
/// name, so not every yielded path carries `base` as a textual prefix.)
#[verifier::external_body]
pub fn walk_entries(base: &str, follow_links: bool) -> Vec<TraversalEntry> {
    jwalk::WalkDir::new(base).follow_links(follow_links).into_iter().map(|entry| match entry {
        Ok(e) => TraversalEntry::Path(e.path().to_string_lossy().to_string()),
        Err(err) => TraversalEntry::Fault(match err.io_error().map(|io| io.kind()) {
            Some(std::io::ErrorKind::NotFound) => IoFault::NotFound,
            Some(std::io::ErrorKind::PermissionDenied) => IoFault::PermissionDenied,
            _ => IoFault::Other,
        }),
    }).collect()
}

} // verus!
