//! Glob patterns, compiled and matched by the `glob` crate.
//!
//! Nothing in this file is proved: it states what the rest of the library
//! takes on trust about that crate.

use glob::{Pattern, PatternError};
use vstd::prelude::*;

verus! {

/// A compiled glob pattern. Its inside is not visible to the verifier.
#[verifier::external_type_specification]
#[verifier::external_body]
pub struct ExPattern(glob::Pattern);

/// The error that a malformed glob pattern gives.
#[verifier::external_type_specification]
#[verifier::external_body]
pub struct ExPatternError(glob::PatternError);

/// Whether `Pattern::new` accepts `text` as a glob pattern.
pub uninterp spec fn glob_parses(text: Seq<char>) -> bool;

/// The text that a compiled pattern was made from, which `Pattern::as_str`
/// gives back.
pub uninterp spec fn glob_source(pattern: Pattern) -> Seq<char>;

/// Whether the pattern compiled from `pattern` matches the whole of `text`,
/// as `Pattern::matches` decides it under the default match options.
///
/// The `glob` crate asks the standard library which characters separate
/// path components, so this is the relation of the platform the library is
/// built for: a fixed relation in any one build, like the width of `usize`.
pub uninterp spec fn glob_matches(pattern: Seq<char>, text: Seq<char>) -> bool;

/// Calls `Pattern::new`. Trusted: it succeeds exactly on the texts that
/// `glob_parses` names, and the pattern it gives holds `text` as its source.
#[verifier::external_body]
pub(crate) fn compile_pattern(text: &str) -> (compiled: Result<Pattern, PatternError>)
    ensures
        compiled is Ok <==> glob_parses(text@),
        compiled matches Ok(p) ==> glob_source(p) == text@,
{
    Pattern::new(text)
}

/// Calls `Pattern::matches`. Trusted: the answer depends on the pattern's
/// source text and on `text` alone, and is what `glob_matches` names.
#[verifier::external_body]
pub(crate) fn pattern_matches(pattern: &Pattern, text: &str) -> (matched: bool)
    ensures
        matched == glob_matches(glob_source(*pattern), text@),
{
    pattern.matches(text)
}

/// Calls `Pattern::as_str`. Trusted: it gives the pattern's source text.
#[verifier::external_body]
pub(crate) fn pattern_source(pattern: &Pattern) -> (text: &str)
    ensures
        text@ == glob_source(*pattern),
{
    pattern.as_str()
}

} // verus!
