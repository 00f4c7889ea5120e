//! Character classification and case folding, relied on from `std`.
use vstd::prelude::*;

verus! {

/// The Unicode `White_Space` property, which `char::is_whitespace` answers.
pub open spec fn is_space(c: char) -> bool {
    let u = c as u32;
    (0x09 <= u <= 0x0d) || u == 0x20 || u == 0x85 || u == 0xa0 || u == 0x1680 || (0x2000 <= u
        <= 0x200a) || u == 0x2028 || u == 0x2029 || u == 0x202f || u == 0x205f || u == 0x3000
}

/// Whether every character of `s` is ASCII.
pub open spec fn all_ascii(s: Seq<char>) -> bool {
    forall|i: int| 0 <= i < s.len() ==> (s[i] as u32) < 128
}

/// An ASCII character in lowercase: `A`..`Z` become `a`..`z`, others stay.
pub open spec fn ascii_lower_char(c: char) -> char {
    if 'A' <= c <= 'Z' {
        ((c as u32) + 32) as char
    } else {
        c
    }
}

/// ASCII text in lowercase, character by character.
pub open spec fn ascii_lower(s: Seq<char>) -> Seq<char> {
    s.map_values(|c: char| ascii_lower_char(c))
}

/// What `char::is_alphabetic` answers: the Unicode `Alphabetic` property.
pub uninterp spec fn is_letter(c: char) -> bool;

/// What `str::to_lowercase` returns for a string of the given characters.
pub uninterp spec fn lower_of(s: Seq<char>) -> Seq<char>;

/// The lowercase form that lexing compares: ASCII text by the ASCII rule,
/// other text as `str::to_lowercase` gives it.
pub open spec fn fold_case(s: Seq<char>) -> Seq<char> {
    if all_ascii(s) {
        ascii_lower(s)
    } else {
        lower_of(s)
    }
}

/// Whether `c` is alphabetic: among ASCII characters, exactly the letters.
pub open spec fn letter(c: char) -> bool {
    if (c as u32) < 128 {
        'a' <= c <= 'z' || 'A' <= c <= 'Z'
    } else {
        is_letter(c)
    }
}

/// Relies on `char::is_whitespace`, which depends on the character alone.
#[verifier::external_body]
pub(crate) fn whitespace(c: char) -> (r: bool)
    ensures
        r == is_space(c),
{
    c.is_whitespace()
}

/// Relies on `char::is_alphabetic`, which depends on the character alone;
/// among ASCII characters exactly the letters are alphabetic.
#[verifier::external_body]
pub(crate) fn alphabetic(c: char) -> (r: bool)
    ensures
        r == is_letter(c),
        (c as u32) < 128 ==> (r <==> ('a' <= c <= 'z' || 'A' <= c <= 'Z')),
{
    c.is_alphabetic()
}

/// Relies on `str::to_lowercase`: the lowercase form of the characters of `s`,
/// which on ASCII text maps `A`..`Z` to `a`..`z` and keeps every other character.
#[verifier::external_body]
pub(crate) fn lowercase(s: &Vec<char>) -> (r: Vec<char>)
    ensures
        r@ == lower_of(s@),
        all_ascii(s@) ==> r@ == ascii_lower(s@),
{
    let text: String = s.iter().collect();
    text.to_lowercase().chars().collect()
}

/// Relies on `str::chars` collected into a vector: the characters of `s` in order.
#[verifier::external_body]
pub(crate) fn chars_of(s: &str) -> (r: Vec<char>)
    ensures
        r@ == s@,
{
    s.chars().collect()
}

/// Relies on collecting characters into a `String`: the same characters in order.
#[verifier::external_body]
pub(crate) fn string_of(v: &Vec<char>) -> (r: String)
    ensures
        r@ == v@,
{
    v.iter().collect()
}

/// Whether the characters of `a` are exactly those of `b`.
pub fn same_chars(a: &Vec<char>, b: &str) -> (r: bool)
    ensures
        r == (a@ == b@),
{
    let n = b.unicode_len();
    if a.len() != n {
        return false;
    }
    let mut i: usize = 0;
    while i < n
        invariant
            n == b@.len(),
            a@.len() == n,
            i <= n,
            forall|j: int| 0 <= j < i ==> a@[j] == b@[j],
        decreases n - i,
    {
        if a[i] != b.get_char(i) {
            return false;
        }
        i += 1;
    }
    assert(a@ =~= b@);
    true
}

} // verus!
