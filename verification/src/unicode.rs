//! Character classes and case mapping, as the standard library defines them.
//!
//! Outside ASCII these follow the Unicode tables that `std` carries; those
//! tables are not restated here, their results are named instead.
use vstd::prelude::*;

verus! {

/// Whether `c` is alphabetic or numeric in Unicode (`char::is_alphanumeric`).
pub uninterp spec fn unicode_alphanumeric(c: char) -> bool;

/// Whether `c` is uppercase in Unicode (`char::is_uppercase`).
pub uninterp spec fn unicode_uppercase(c: char) -> bool;

/// Whether `c` is white space in Unicode (`char::is_whitespace`).
pub uninterp spec fn unicode_whitespace(c: char) -> bool;

/// The lowercase form of a string (`str::to_lowercase`).
pub uninterp spec fn unicode_lowercase(s: Seq<char>) -> Seq<char>;

pub open spec fn is_ascii_char(c: char) -> bool {
    (c as u32) < 128
}

pub open spec fn ascii_upper(c: char) -> bool {
    'A' <= c && c <= 'Z'
}

pub open spec fn ascii_lower(c: char) -> bool {
    'a' <= c && c <= 'z'
}

pub open spec fn ascii_digit(c: char) -> bool {
    '0' <= c && c <= '9'
}

/// The ASCII lowercase form of `c`: uppercase ASCII letters become lowercase,
/// every other character stays as it is (`char::to_ascii_lowercase`).
pub open spec fn ascii_lowercase(c: char) -> char {
    if ascii_upper(c) {
        ((c as u32) + 32) as char
    } else {
        c
    }
}

/// `char::is_alphanumeric`.  Claimed: the result is the named Unicode class;
/// on ASCII it is exactly the letters and digits.
#[verifier::external_body]
pub fn is_alphanumeric(c: char) -> (r: bool)
    ensures
        r == unicode_alphanumeric(c),
        is_ascii_char(c) ==> (r <==> (ascii_upper(c) || ascii_lower(c) || ascii_digit(c))),
{
    c.is_alphanumeric()
}

/// `char::is_uppercase`.  Claimed: the result is the named Unicode class;
/// on ASCII it is exactly `A` to `Z`.
#[verifier::external_body]
pub fn is_uppercase(c: char) -> (r: bool)
    ensures
        r == unicode_uppercase(c),
        is_ascii_char(c) ==> (r <==> ascii_upper(c)),
{
    c.is_uppercase()
}

/// `char::is_whitespace`.  Claimed: the result is the named Unicode class;
/// on ASCII it is exactly tab, line feed, vertical tab, form feed, carriage
/// return and space.
#[verifier::external_body]
pub fn is_whitespace(c: char) -> (r: bool)
    ensures
        r == unicode_whitespace(c),
        is_ascii_char(c) ==> (r <==> (c == ' ' || ('\t' <= c && c <= '\r'))),
{
    c.is_whitespace()
}

/// `str::to_lowercase`.  Claimed: the result is the named Unicode mapping; on
/// an all-ASCII string it lowers each letter and keeps everything else.
#[verifier::external_body]
pub fn to_lowercase(s: &str) -> (r: String)
    ensures
        r@ == unicode_lowercase(s@),
        (forall|i: int| 0 <= i < s@.len() ==> is_ascii_char(#[trigger] s@[i])) ==> r@
            == s@.map_values(|c: char| ascii_lowercase(c)),
{
    s.to_lowercase()
}

/// `char::to_ascii_lowercase`.
pub fn to_ascii_lowercase(c: char) -> (r: char)
    ensures
        r == ascii_lowercase(c),
{
    if 'A' <= c && c <= 'Z' {
        let u = c as u32 + 32;
        assert(u < 128);
        u as u8 as char
    } else {
        c
    }
}

} // verus!
