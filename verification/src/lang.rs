//! Resolving a raw language code from a container to a display name.
//!
//! Three-letter codes are looked up in the ISO 639-3 table first, the
//! ISO 639-2 terminology table second, and the bibliographic table third;
//! codes of any other length go to the ISO 639-1 table.  A code that no
//! table knows — including the empty code — is returned unchanged.

use crate::text::opt_str_view;
use vstd::prelude::*;
use vstd::string::StringExecFns;

verus! {

/// The display name that the ISO 639-3 table gives a code, if any; the
/// lookup ignores the code's case.
pub uninterp spec fn part3_name(code: Seq<char>) -> Option<Seq<char>>;

/// The display name that the ISO 639-2/T (terminology) table gives a code,
/// if any; the lookup ignores the code's case.
pub uninterp spec fn terminology_name(code: Seq<char>) -> Option<Seq<char>>;

/// The display name that the ISO 639-2/B (bibliographic) table gives a
/// code, if any; the lookup ignores the code's case.
pub uninterp spec fn bibliographic_name(code: Seq<char>) -> Option<Seq<char>>;

/// The display name that the ISO 639-1 (two-letter) table gives a code, if
/// any; the lookup ignores the code's case.
pub uninterp spec fn part1_name(code: Seq<char>) -> Option<Seq<char>>;

/// Relies on `rust_iso639::from_code_3`: a case-insensitive lookup in the
/// static ISO 639-3 table, so the result depends on the code alone.
#[verifier::external_body]
fn lookup_part3(code: &str) -> (r: Option<String>)
    ensures
        opt_str_view(r) == part3_name(code@),
{
    rust_iso639::from_code_3(code).map(|l| l.name.to_owned())
}

/// Relies on `rust_iso639::from_code_2t`: a case-insensitive lookup in the
/// static ISO 639-2/T table, so the result depends on the code alone.
#[verifier::external_body]
fn lookup_terminology(code: &str) -> (r: Option<String>)
    ensures
        opt_str_view(r) == terminology_name(code@),
{
    rust_iso639::from_code_2t(code).map(|l| l.name.to_owned())
}

/// Relies on `rust_iso639::from_code_2b`: a case-insensitive lookup in the
/// static ISO 639-2/B table, so the result depends on the code alone.
#[verifier::external_body]
fn lookup_bibliographic(code: &str) -> (r: Option<String>)
    ensures
        opt_str_view(r) == bibliographic_name(code@),
{
    rust_iso639::from_code_2b(code).map(|l| l.name.to_owned())
}

/// Relies on `rust_iso639::from_code_1`: a case-insensitive lookup in the
/// static ISO 639-1 table, so the result depends on the code alone.
#[verifier::external_body]
fn lookup_part1(code: &str) -> (r: Option<String>)
    ensures
        opt_str_view(r) == part1_name(code@),
{
    rust_iso639::from_code_1(code).map(|l| l.name.to_owned())
}

/// The display name of a language code: the first table that knows the
/// code names it, and an unknown code names itself.
pub open spec fn resolved_name(code: Seq<char>) -> Seq<char> {
    if code.len() == 3 {
        match part3_name(code) {
            Some(n) => n,
            None => match terminology_name(code) {
                Some(n) => n,
                None => match bibliographic_name(code) {
                    Some(n) => n,
                    None => code,
                },
            },
        }
    } else {
        match part1_name(code) {
            Some(n) => n,
            None => code,
        }
    }
}

/// Maps a language code to a display name; never fails, falling back to
/// the code itself.
pub fn lang_code_to_name(lang_code: &str) -> (r: String)
    ensures
        r@ == resolved_name(lang_code@),
{
    if lang_code.unicode_len() == 3 {
        match lookup_part3(lang_code) {
            Some(n) => n,
            None => match lookup_terminology(lang_code) {
                Some(n) => n,
                None => match lookup_bibliographic(lang_code) {
                    Some(n) => n,
                    None => lang_code.to_owned(),
                },
            },
        }
    } else {
        match lookup_part1(lang_code) {
            Some(n) => n,
            None => lang_code.to_owned(),
        }
    }
}

/// A three-letter code that the terminology table knows resolves before
/// the bibliographic table is ever consulted, whatever that table holds
/// for it.
pub proof fn lemma_terminology_wins(code: Seq<char>)
    requires
        code.len() == 3,
        part3_name(code) is None,
        terminology_name(code) is Some,
    ensures
        resolved_name(code) == terminology_name(code)->Some_0,
{
}

/// A code that no table of its length class knows resolves to itself.
pub proof fn lemma_unknown_code_is_itself(code: Seq<char>)
    requires
        code.len() == 3 ==> part3_name(code) is None && terminology_name(code) is None
            && bibliographic_name(code) is None,
        code.len() != 3 ==> part1_name(code) is None,
    ensures
        resolved_name(code) == code,
{
}

} // verus!
