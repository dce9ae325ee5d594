//! Unicode case mapping and classification, from the standard library.
use crate::text::ascii_lower_seq;
use vstd::prelude::*;

verus! {

/// Unicode `Alphabetic` or `Numeric` (`char::is_alphanumeric`).
pub uninterp spec fn unicode_alphanumeric(c: char) -> bool;

/// The full uppercase mapping of a character (`char::to_uppercase`).
pub uninterp spec fn char_upper(c: char) -> Seq<char>;

/// The lowercase form of a text (`str::to_lowercase`).
pub uninterp spec fn str_lower(s: Seq<char>) -> Seq<char>;

/// The uppercase form of a text (`str::to_uppercase`).
pub uninterp spec fn str_upper(s: Seq<char>) -> Seq<char>;

pub open spec fn is_ascii_alnum(c: char) -> bool {
    ('a' <= c && c <= 'z') || ('A' <= c && c <= 'Z') || ('0' <= c && c <= '9')
}

pub open spec fn ascii_upper(c: char) -> char {
    if 'a' <= c && c <= 'z' {
        ((c as u32) - 32) as char
    } else {
        c
    }
}

pub open spec fn all_ascii(s: Seq<char>) -> bool {
    forall|i: int| 0 <= i < s.len() ==> (#[trigger] s[i] as u32) < 128
}

/// `char::is_alphanumeric`: the Unicode classification; on ASCII it holds for
/// letters and digits only.
#[verifier::external_body]
pub(crate) fn is_alphanumeric(c: char) -> (r: bool)
    ensures
        r == unicode_alphanumeric(c),
        (c as u32) < 128 ==> (r <==> is_ascii_alnum(c)),
{
    c.is_alphanumeric()
}

/// `char::to_uppercase`, collected: on ASCII it maps `a`..=`z` to
/// `A`..=`Z` and keeps the rest.
#[verifier::external_body]
pub(crate) fn char_to_uppercase(c: char) -> (r: Vec<char>)
    ensures
        r@ == char_upper(c),
        (c as u32) < 128 ==> r@ == seq![ascii_upper(c)],
{
    c.to_uppercase().collect()
}

/// `str::to_lowercase`: on ASCII text it lowercases `A`..=`Z` only.
#[verifier::external_body]
pub(crate) fn to_lowercase(s: &str) -> (r: String)
    ensures
        r@ == str_lower(s@),
        all_ascii(s@) ==> r@ == ascii_lower_seq(s@),
{
    s.to_lowercase()
}

/// `str::to_uppercase`: on ASCII text it uppercases `a`..=`z` only.
#[verifier::external_body]
pub(crate) fn to_uppercase(s: &str) -> (r: String)
    ensures
        r@ == str_upper(s@),
        all_ascii(s@) ==> r@ == s@.map_values(|c: char| ascii_upper(c)),
{
    s.to_uppercase()
}

} // verus!
