//! Character classes and conversions between strings and character vectors.

use vstd::prelude::*;
use vstd::utf8::is_ascii_chars;

verus! {

/// The Unicode `White_Space` characters: the class matched by `\s` and
/// stripped by `str::trim`.
pub open spec fn is_space(c: char) -> bool {
    let n = c as u32;
    (0x9 <= n && n <= 0xd) || n == 0x20 || n == 0x85 || n == 0xa0 || n == 0x1680 || (0x2000 <= n
        && n <= 0x200a) || n == 0x2028 || n == 0x2029 || n == 0x202f || n == 0x205f || n == 0x3000
}

pub open spec fn is_upper(c: char) -> bool {
    'A' <= c && c <= 'Z'
}

pub open spec fn is_lower(c: char) -> bool {
    'a' <= c && c <= 'z'
}

pub open spec fn is_digit(c: char) -> bool {
    '0' <= c && c <= '9'
}

/// A lowercase ASCII letter or an ASCII digit.
pub open spec fn is_lower_or_digit(c: char) -> bool {
    is_lower(c) || is_digit(c)
}

/// The ASCII lowercase of `c`; every other character maps to itself.
pub open spec fn lower(c: char) -> char {
    if is_upper(c) {
        ((c as u8) + 32) as char
    } else {
        c
    }
}

/// The ASCII uppercase of `c`; every other character maps to itself.
pub open spec fn upper(c: char) -> char {
    if is_lower(c) {
        ((c as u8) - 32) as char
    } else {
        c
    }
}

pub fn space(c: char) -> (r: bool)
    ensures
        r == is_space(c),
{
    let n = c as u32;
    (0x9 <= n && n <= 0xd) || n == 0x20 || n == 0x85 || n == 0xa0 || n == 0x1680 || (0x2000 <= n
        && n <= 0x200a) || n == 0x2028 || n == 0x2029 || n == 0x202f || n == 0x205f || n == 0x3000
}

pub fn upper_ascii(c: char) -> (r: bool)
    ensures
        r == is_upper(c),
{
    'A' <= c && c <= 'Z'
}

pub fn lower_or_digit(c: char) -> (r: bool)
    ensures
        r == is_lower_or_digit(c),
{
    ('a' <= c && c <= 'z') || ('0' <= c && c <= '9')
}

/// The lowercase form of a string under Unicode's case rules (which may
/// depend on a letter's neighbours).
pub uninterp spec fn lower_of(s: Seq<char>) -> Seq<char>;

/// The uppercase form of a character under Unicode's case rules: one or
/// more characters.
pub uninterp spec fn upper_of(c: char) -> Seq<char>;

/// The lowercase form of `w`: ASCII text is lowered letter by letter.
pub open spec fn lowered(w: Seq<char>) -> Seq<char> {
    if is_ascii_chars(w) {
        w.map_values(|c: char| lower(c))
    } else {
        lower_of(w)
    }
}

/// The uppercase form of `c`: an ASCII character gives its ASCII uppercase.
pub open spec fn raised(c: char) -> Seq<char> {
    if c <= '\u{7f}' {
        seq![upper(c)]
    } else {
        upper_of(c)
    }
}

/// Relies on `str::to_lowercase`: the result depends on the characters
/// alone, and ASCII text has each letter `A`-`Z` lowered and every other
/// character kept.
#[verifier::external_body]
pub(crate) fn lowercase(s: &str) -> (r: String)
    ensures
        r@ == lower_of(s@),
        is_ascii_chars(s@) ==> r@ == s@.map_values(|c: char| lower(c)),
{
    s.to_lowercase()
}

/// Relies on `char::to_uppercase`, collected into a string: the result
/// depends on the character alone, and an ASCII character maps to its ASCII
/// uppercase.
#[verifier::external_body]
pub(crate) fn uppercase(c: char) -> (r: String)
    ensures
        r@ == upper_of(c),
        c <= '\u{7f}' ==> r@ == seq![upper(c)],
{
    c.to_uppercase().collect()
}

/// The character has Unicode's `Uppercase` property.
pub uninterp spec fn is_cased_upper(c: char) -> bool;

/// Relies on `char::is_uppercase`: whether `c` has Unicode's `Uppercase`
/// property, which among ASCII characters exactly `A`-`Z` have.
#[verifier::external_body]
pub(crate) fn unicode_upper(c: char) -> (r: bool)
    ensures
        r == is_cased_upper(c),
        c <= '\u{7f}' ==> r == is_upper(c),
{
    c.is_uppercase()
}

/// The characters of `s`, in order.
pub fn chars_of(s: &str) -> (r: Vec<char>)
    ensures
        r@ == s@,
{
    let n = s.unicode_len();
    let mut r: Vec<char> = Vec::new();
    let mut i: usize = 0;
    while i < n
        invariant
            n == s@.len(),
            i <= n,
            r@ == s@.subrange(0, i as int),
        decreases n - i,
    {
        let c = s.get_char(i);
        r.push(c);
        i = i + 1;
        assert(r@ =~= s@.subrange(0, i as int));
    }
    assert(r@ =~= s@);
    r
}

/// Whether two character vectors hold the same characters.
pub fn same_chars(a: &Vec<char>, b: &Vec<char>) -> (r: bool)
    ensures
        r == (a@ == b@),
{
    if a.len() != b.len() {
        return false;
    }
    let mut i: usize = 0;
    while i < a.len()
        invariant
            a@.len() == b@.len(),
            i <= a@.len(),
            forall|j: int| 0 <= j < i ==> a@[j] == b@[j],
        decreases a@.len() - i,
    {
        if a[i] != b[i] {
            return false;
        }
        i = i + 1;
    }
    assert(a@ =~= b@);
    true
}

/// Relies on `FromIterator<char>` for `String`: the string holds exactly
/// the given characters, in order.
#[verifier::external_body]
pub(crate) fn string_of(v: &Vec<char>) -> (r: String)
    ensures
        r@ == v@,
{
    v.iter().collect()
}

} // verus!
