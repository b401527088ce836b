//! What this crate takes on trust about characters beyond ASCII.
//!
//! Which characters are word characters, which are uppercase, and what the
//! other case of a character is, are questions that the Unicode tables
//! answer. The tables are not written out here. Each name below stands for
//! the answer of one library routine, and all that is assumed of it is that
//! the answer is fixed by the arguments. The ASCII range never gets here: its
//! rules are written out, and proved, in `letters`.

use regex::Regex;
use vstd::prelude::*;

verus! {

/// What `Regex::is_match` answers for the expression that `Regex::new`
/// compiles from `pattern`, on the text that holds the one character `c`.
/// `None` stands for a pattern that `Regex::new` turns down.
pub uninterp spec fn regex_match_char(pattern: Seq<char>, c: char) -> Option<bool>;

/// What `char::is_uppercase` answers for `c`: whether `c` has the Unicode
/// property `Uppercase`.
pub uninterp spec fn unicode_is_uppercase(c: char) -> bool;

/// The characters that `char::to_uppercase` yields for `c`, in order.
pub uninterp spec fn unicode_uppercase(c: char) -> Seq<char>;

/// The characters of the string that `str::to_lowercase` returns for the
/// text `s`.
pub uninterp spec fn unicode_lowercase(s: Seq<char>) -> Seq<char>;

/// Compiles `pattern` with `regex::Regex::new` and asks `Regex::is_match`
/// whether the expression matches the text that holds the one character `c`.
/// The expression is compiled anew on every call.
///
/// Not proved: that the answer depends on `pattern` and `c` alone. Nothing
/// is claimed about which patterns compile or which characters match.
#[verifier::external_body]
pub(crate) fn match_char(pattern: &str, c: char) -> (r: Option<bool>)
    ensures
        r == regex_match_char(pattern@, c),
{
    let mut buf = [0u8; 4];
    match Regex::new(pattern) {
        Ok(re) => Some(re.is_match(c.encode_utf8(&mut buf))),
        Err(_) => None,
    }
}

/// `char::is_uppercase`.
///
/// Not proved: that the answer depends on `c` alone.
pub assume_specification[ char::is_uppercase ](c: char) -> (r: bool)
    ensures
        r == unicode_is_uppercase(c),
;

/// Collects the characters that `char::to_uppercase` yields for `c`.
///
/// Not proved: that the characters depend on `c` alone.
#[verifier::external_body]
pub(crate) fn uppercase_chars(c: char) -> (r: Vec<char>)
    ensures
        r@ == unicode_uppercase(c),
{
    c.to_uppercase().collect()
}

/// `str::to_lowercase`.
///
/// Not proved: that the string returned depends on the characters of `s`
/// alone.
pub assume_specification[ str::to_lowercase ](s: &str) -> (r: String)
    ensures
        r@ == unicode_lowercase(s@),
;

/// `String::push`.
///
/// Not proved: that the string afterwards is the string before with `c`
/// behind its last character.
pub assume_specification[ String::push ](s: &mut String, c: char)
    ensures
        final(s)@ == old(s)@.push(c),
;

} // verus!
