//! Lookup of language codes in the ISO 639 tables of the `isolang` crate.

use isolang::Language;
use vstd::prelude::*;

verus! {

/// The place in the ISO 639-3 table of the language that `code` names, as
/// a three-letter ISO 639-3 code or as a two-letter ISO 639-1 code; `None`
/// where it names no language.
pub uninterp spec fn iso639_language(code: Seq<char>) -> Option<usize>;

/// Calls `Language::from_str` of `isolang` through `str::parse`. Trusted:
/// the language found depends on `code` alone, and two codes give the same
/// number exactly when they name the same language; `None` stands for the
/// parse error.
#[verifier::external_body]
fn resolve_outside(code: &str) -> (language: Option<usize>)
    ensures
        language == iso639_language(code@),
{
    code.parse::<Language>().ok().map(|language| language as usize)
}

/// Looks `code` up as an ISO 639-3 or ISO 639-1 language code.
pub fn resolve_iso639(code: &str) -> (language: Option<usize>)
    ensures
        language == iso639_language(code@),
{
    resolve_outside(code)
}

} // verus!
