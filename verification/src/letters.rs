//! Character classes and case mapping.
//!
//! The ASCII range is specified here in full. Beyond it the answers come
//! from the Unicode tables of the libraries named in `unicode`.

use crate::unicode::{
    match_char, regex_match_char, unicode_is_uppercase, unicode_lowercase, unicode_uppercase,
    uppercase_chars,
};
use crate::text::{chars_of, string_of};
use vstd::prelude::*;

verus! {

/// The character class whose members count as word characters.
pub const WORD_CLASS: &'static str = "\\w";

/// `c` is one of the 128 ASCII characters.
pub open spec fn ascii(c: char) -> bool {
    (c as u32) < 128
}

/// Every character of `s` is ASCII.
pub open spec fn all_ascii(s: Seq<char>) -> bool {
    forall|i: int| 0 <= i < s.len() ==> ascii(#[trigger] s[i])
}

/// `c` is one of a, e, i, o, u in either case.
pub open spec fn vowel(c: char) -> bool {
    c == 'a' || c == 'e' || c == 'i' || c == 'o' || c == 'u' || c == 'A' || c == 'E' || c == 'I'
        || c == 'O' || c == 'U'
}

/// The ASCII word characters: letters, digits and the underscore.
pub open spec fn ascii_word_char(c: char) -> bool {
    ('a' <= c && c <= 'z') || ('A' <= c && c <= 'Z') || ('0' <= c && c <= '9') || c == '_'
}

/// `c` is a word character: an ASCII letter, digit or underscore, or a
/// character beyond ASCII that the class `\w` accepts.
pub open spec fn word_char(c: char) -> bool {
    if ascii(c) {
        ascii_word_char(c)
    } else {
        regex_match_char(WORD_CLASS@, c) == Some(true)
    }
}

/// `c` is an uppercase letter.
pub open spec fn uppercase(c: char) -> bool {
    if ascii(c) {
        'A' <= c && c <= 'Z'
    } else {
        unicode_is_uppercase(c)
    }
}

/// The lowercase form of an ASCII letter; any other character as it is.
pub open spec fn ascii_lower(c: char) -> char {
    if 'A' <= c && c <= 'Z' {
        ((c as u8) + 32) as char
    } else {
        c
    }
}

/// The uppercase form of an ASCII letter; any other character as it is.
pub open spec fn ascii_upper(c: char) -> char {
    if 'a' <= c && c <= 'z' {
        ((c as u8) - 32) as char
    } else {
        c
    }
}

/// The uppercase form of `c`, which beyond ASCII may be several characters.
pub open spec fn upper(c: char) -> Seq<char> {
    if ascii(c) {
        seq![ascii_upper(c)]
    } else {
        unicode_uppercase(c)
    }
}

/// The lowercase form of `s`.
pub open spec fn lower(s: Seq<char>) -> Seq<char> {
    if all_ascii(s) {
        s.map_values(|c: char| ascii_lower(c))
    } else {
        unicode_lowercase(s)
    }
}

/// Tells whether `c` is a vowel.
pub fn is_vowel(c: char) -> (r: bool)
    ensures
        r == vowel(c),
{
    c == 'a' || c == 'e' || c == 'i' || c == 'o' || c == 'u' || c == 'A' || c == 'E' || c == 'I'
        || c == 'O' || c == 'U'
}

/// Tells whether `c` is a word character.
pub fn is_word_char(c: char) -> (r: bool)
    ensures
        r == word_char(c),
{
    if (c as u32) < 128 {
        ('a' <= c && c <= 'z') || ('A' <= c && c <= 'Z') || ('0' <= c && c <= '9') || c == '_'
    } else {
        match match_char(WORD_CLASS, c) {
            Some(found) => found,
            None => false,
        }
    }
}

/// Tells whether `c` is an uppercase letter.
pub fn is_upper(c: char) -> (r: bool)
    ensures
        r == uppercase(c),
{
    if (c as u32) < 128 {
        'A' <= c && c <= 'Z'
    } else {
        c.is_uppercase()
    }
}

/// The uppercase form of `c`.
pub fn to_upper(c: char) -> (r: Vec<char>)
    ensures
        r@ == upper(c),
{
    if (c as u32) < 128 {
        let mut r: Vec<char> = Vec::new();
        if 'a' <= c && c <= 'z' {
            r.push(((c as u8) - 32) as char);
        } else {
            r.push(c);
        }
        r
    } else {
        uppercase_chars(c)
    }
}

/// Tells whether every character of `s` is ASCII.
pub fn is_all_ascii(s: &[char]) -> (r: bool)
    ensures
        r == all_ascii(s@),
{
    let mut i: usize = 0;
    while i < s.len()
        invariant
            i <= s.len(),
            all_ascii(s@.take(i as int)),
        decreases s.len() - i,
    {
        if (s[i] as u32) >= 128 {
            return false;
        }
        i += 1;
    }
    assert(s@.take(i as int) == s@);
    true
}

/// The lowercase form of `s`.
pub fn to_lower(s: &[char]) -> (r: Vec<char>)
    ensures
        r@ == lower(s@),
{
    if is_all_ascii(s) {
        let mut r: Vec<char> = Vec::new();
        let mut i: usize = 0;
        while i < s.len()
            invariant
                i <= s.len(),
                r@ == s@.take(i as int).map_values(|c: char| ascii_lower(c)),
            decreases s.len() - i,
        {
            let c = s[i];
            if 'A' <= c && c <= 'Z' {
                r.push(((c as u8) + 32) as char);
            } else {
                r.push(c);
            }
            i += 1;
        }
        r
    } else {
        let text = string_of(s);
        let lowered = text.as_str().to_lowercase();
        chars_of(lowered.as_str())
    }
}

} // verus!
