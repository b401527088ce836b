//! One word into Pig Latin.
//!
//! A word is any text that is not empty. Its onset is the longest prefix
//! without a vowel, so a word that begins with a vowel has an empty onset
//! and a word without a vowel is all onset.

use crate::letters::{
    ascii_upper, is_upper, is_vowel, lower, to_lower, to_upper, upper, uppercase, vowel,
};
use crate::text::{append, chars_of, string_of};
use vstd::prelude::*;

verus! {

/// The first position at or after `i` that holds a vowel, or the length of
/// `w` if there is none.
pub open spec fn next_vowel(w: Seq<char>, i: int) -> int
    decreases w.len() - i,
{
    if i < 0 || i >= w.len() || vowel(w[i]) {
        i
    } else {
        next_vowel(w, i + 1)
    }
}

/// The length of the onset of `w`: its longest prefix without a vowel.
pub open spec fn onset_len(w: Seq<char>) -> int {
    next_vowel(w, 0)
}

/// The first `k` characters of `w` are its onset: none of them is a vowel,
/// and a vowel or the end of the word follows.
pub open spec fn onset_ends_at(w: Seq<char>, k: int) -> bool {
    &&& 0 <= k <= w.len()
    &&& forall|j: int| 0 <= j < k ==> !vowel(#[trigger] w[j])
    &&& k < w.len() ==> vowel(w[k])
}

/// `s` with its first character in upper case and the rest as it is.
pub open spec fn capitalized(s: Seq<char>) -> Seq<char> {
    if s.len() == 0 {
        s
    } else {
        upper(s[0]) + s.skip(1)
    }
}

/// The Pig Latin form of the word `w`, which is not empty.
pub open spec fn pig_latin(w: Seq<char>) -> Seq<char>
    recommends
        w.len() > 0,
{
    if vowel(w[0]) {
        w + seq!['y', 'a', 'y']
    } else {
        let onset = w.take(onset_len(w));
        let rest = w.skip(onset_len(w));
        let head = if uppercase(w[0]) {
            capitalized(rest)
        } else {
            rest
        };
        head + lower(onset) + seq!['a', 'y']
    }
}

/// What a word becomes: nothing if it is empty, else its Pig Latin form.
pub open spec fn converted(w: Seq<char>) -> Option<Seq<char>> {
    if w.len() == 0 {
        None
    } else {
        Some(pig_latin(w))
    }
}

proof fn lemma_next_vowel(w: Seq<char>, i: int)
    requires
        0 <= i <= w.len(),
    ensures
        i <= next_vowel(w, i) <= w.len(),
        forall|j: int| i <= j < next_vowel(w, i) ==> !vowel(#[trigger] w[j]),
        next_vowel(w, i) < w.len() ==> vowel(w[next_vowel(w, i)]),
    decreases w.len() - i,
{
    if i < w.len() && !vowel(w[i]) {
        lemma_next_vowel(w, i + 1);
    }
}

/// The onset is the longest prefix without a vowel, and no other prefix is:
/// `onset_len(w)` is the one length at which the onset ends.
pub proof fn lemma_onset(w: Seq<char>)
    ensures
        onset_ends_at(w, onset_len(w)),
        forall|k: int| onset_ends_at(w, k) ==> k == onset_len(w),
{
    lemma_next_vowel(w, 0);
    assert forall|k: int| onset_ends_at(w, k) implies k == onset_len(w) by {
        // The shorter of two such prefixes would end at a vowel inside the
        // longer one.
        let n = onset_len(w);
        if k < n {
            assert(!vowel(w[k]));
        } else if n < k {
            assert(!vowel(w[n]));
        }
    }
}

/// A word that begins with a vowel keeps every character as it is and gains
/// the suffix "yay".
pub proof fn lemma_vowel_word(w: Seq<char>)
    requires
        w.len() > 0,
        vowel(w[0]),
    ensures
        converted(w) == Some(w + seq!['y', 'a', 'y']),
{
}

/// A word that begins with a consonant and holds a vowel moves the
/// consonants in front of its first vowel, in lower case, behind the rest
/// and gains the suffix "ay". The rest begins with that vowel; it is put in
/// upper case if the word began with an uppercase letter, and not otherwise.
pub proof fn lemma_consonant_word(w: Seq<char>)
    requires
        w.len() > 0,
        !vowel(w[0]),
        exists|i: int| 0 <= i < w.len() && vowel(w[i]),
    ensures
        0 < onset_len(w) < w.len(),
        forall|j: int| 0 <= j < onset_len(w) ==> !vowel(#[trigger] w[j]),
        vowel(w[onset_len(w)]),
        uppercase(w[0]) ==> converted(w) == Some(
            seq![ascii_upper(w[onset_len(w)])] + w.skip(onset_len(w) + 1) + lower(
                w.take(onset_len(w)),
            ) + seq!['a', 'y'],
        ),
        !uppercase(w[0]) ==> converted(w) == Some(
            w.skip(onset_len(w)) + lower(w.take(onset_len(w))) + seq!['a', 'y'],
        ),
{
    lemma_onset(w);
    let rest = w.skip(onset_len(w));
    assert(rest[0] == w[onset_len(w)]);
    assert(rest.skip(1) == w.skip(onset_len(w) + 1));
}

/// A word without a vowel is all onset: it comes out in lower case with the
/// suffix "ay".
pub proof fn lemma_vowelless_word(w: Seq<char>)
    requires
        w.len() > 0,
        forall|i: int| 0 <= i < w.len() ==> !vowel(#[trigger] w[i]),
    ensures
        onset_len(w) == w.len(),
        converted(w) == Some(lower(w) + seq!['a', 'y']),
{
    lemma_onset(w);
    assert(w.take(w.len() as int) == w);
}

/// The length of the onset of `w`.
pub fn onset_end(w: &[char]) -> (k: usize)
    ensures
        k == onset_len(w@),
        k <= w.len(),
{
    let mut k: usize = 0;
    while k < w.len() && !is_vowel(w[k])
        invariant
            k <= w.len(),
            next_vowel(w@, 0) == next_vowel(w@, k as int),
        decreases w.len() - k,
    {
        k += 1;
    }
    k
}

/// `s` with its first character in upper case.
pub fn capitalize_chars(s: &[char]) -> (r: Vec<char>)
    ensures
        r@ == capitalized(s@),
{
    if s.len() == 0 {
        Vec::new()
    } else {
        let mut r = to_upper(s[0]);
        append(&mut r, &s[1..s.len()]);
        r
    }
}

/// The Pig Latin form of the word `w`, if it has one.
pub fn convert_chars(w: &[char]) -> (r: Option<Vec<char>>)
    ensures
        r is None <==> w@.len() == 0,
        r matches Some(pig) ==> pig@ == pig_latin(w@),
{
    if w.len() == 0 {
        return None;
    }
    let mut pig: Vec<char> = Vec::new();
    if is_vowel(w[0]) {
        append(&mut pig, w);
        pig.push('y');
    } else {
        let k = onset_end(w);
        if is_upper(w[0]) {
            pig = capitalize_chars(&w[k..w.len()]);
        } else {
            append(&mut pig, &w[k..w.len()]);
        }
        let onset = to_lower(&w[0..k]);
        append(&mut pig, onset.as_slice());
    }
    pig.push('a');
    pig.push('y');
    Some(pig)
}

/// Makes the first letter of `word` uppercase and leaves the rest as it is.
/// An empty word stays empty.
pub fn capitalize(word: &str) -> (r: String)
    ensures
        r@ == capitalized(word@),
{
    let chars = chars_of(word);
    let r = capitalize_chars(chars.as_slice());
    string_of(r.as_slice())
}

/// Puts a single word into Pig Latin. An empty word has no Pig Latin form.
pub fn word_to_pig_latin(word: &str) -> (r: Option<String>)
    ensures
        r is None <==> word@.len() == 0,
        r matches Some(pig) ==> pig@ == pig_latin(word@),
{
    let chars = chars_of(word);
    match convert_chars(chars.as_slice()) {
        Some(pig) => Some(string_of(pig.as_slice())),
        None => None,
    }
}

} // verus!
