//! Unicode tables that this library consults and does not restate: the
//! compatibility decomposition and the combining marks (from
//! `unicode-normalization`), and lower-casing and alphanumerics (from the
//! standard library). Each result is named; nothing more is claimed of it.

use unicode_normalization::UnicodeNormalization;
use vstd::prelude::*;

verus! {

/// The NFKD decomposition of a text.
pub uninterp spec fn nfkd_of(s: Seq<char>) -> Seq<char>;

/// Whether a character is a combining mark (`General_Category=Mark`).
pub uninterp spec fn combining_mark(c: char) -> bool;

/// What `char::to_lowercase` yields for a character.
pub uninterp spec fn lowercase_of(c: char) -> Seq<char>;

/// What `str::to_lowercase` gives for a text.
pub uninterp spec fn lowercase_text(s: Seq<char>) -> Seq<char>;

/// Whether `char::is_alphanumeric` holds of a character.
pub uninterp spec fn alphanumeric(c: char) -> bool;

/// `UnicodeNormalization::nfkd` from `unicode-normalization`, collected.
/// The result is named, and not described further.
#[verifier::external_body]
pub(crate) fn nfkd(s: &str) -> (out: Vec<char>)
    ensures
        out@ == nfkd_of(s@),
{
    s.nfkd().collect()
}

/// `unicode_normalization::char::is_combining_mark`. The result is named,
/// and not described further.
#[verifier::external_body]
pub(crate) fn is_combining_mark(c: char) -> (b: bool)
    ensures
        b == combining_mark(c),
{
    unicode_normalization::char::is_combining_mark(c)
}

/// `char::to_lowercase`, collected. The result is named, and not described
/// further.
#[verifier::external_body]
pub(crate) fn char_to_lowercase(c: char) -> (out: Vec<char>)
    ensures
        out@ == lowercase_of(c),
{
    c.to_lowercase().collect()
}

/// `str::to_lowercase`. The result is named, and not described further.
#[verifier::external_body]
pub(crate) fn to_lowercase(s: &str) -> (out: String)
    ensures
        out@ == lowercase_text(s@),
{
    s.to_lowercase()
}

/// `char::is_alphanumeric`. The result is named, and not described further.
#[verifier::external_body]
pub(crate) fn is_alphanumeric(c: char) -> (b: bool)
    ensures
        b == alphanumeric(c),
{
    c.is_alphanumeric()
}

} // verus!
