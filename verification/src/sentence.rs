//! A sentence into Pig Latin, word by word.
//!
//! A word is a run of word characters that may go on, behind one
//! apostrophe, with a further run. The words are found first, from left to
//! right, each as long as it can be. One after the other they are put into
//! Pig Latin and written over the first place in the text, as it stands by
//! then, where the same characters stand as a whole word: between two word
//! boundaries. Everything else is kept.
//!
//! The place that is written over is mostly the place where the word was
//! found. It is another one where an earlier word, in Pig Latin, reads like
//! a later word, and a word that ends in an apostrophe is only written over
//! where a word character follows it.

use crate::letters::{is_word_char, word_char};
use crate::text::{append, chars_of, string_of};
use crate::word::{convert_chars, converted};
use vstd::prelude::*;

verus! {

/// Position `i` of `t` holds a word character.
pub open spec fn word_at(t: Seq<char>, i: int) -> bool {
    0 <= i < t.len() && word_char(t[i])
}

/// A word begins or ends between positions `i - 1` and `i` of `t`: exactly
/// one of the two holds a word character. The ends of the text count as
/// holding none.
pub open spec fn boundary(t: Seq<char>, i: int) -> bool {
    word_at(t, i - 1) != word_at(t, i)
}

/// The end of the longest run of word characters that starts at `i`.
pub open spec fn run_end(t: Seq<char>, i: int) -> int
    decreases t.len() - i,
{
    if word_at(t, i) {
        run_end(t, i + 1)
    } else {
        i
    }
}

/// The end of the word that starts at `i`: a run of word characters and,
/// if an apostrophe follows it, the apostrophe and the run behind it.
pub open spec fn word_end(t: Seq<char>, i: int) -> int {
    let e = run_end(t, i);
    if 0 <= e < t.len() && t[e] == '\'' {
        run_end(t, e + 1)
    } else {
        e
    }
}

/// The first `m` characters of `w` are word characters; if more follow, the
/// next one is an apostrophe and the ones behind it are word characters.
pub open spec fn word_form_at(w: Seq<char>, m: int) -> bool {
    &&& 0 < m <= w.len()
    &&& forall|j: int| 0 <= j < m ==> word_char(#[trigger] w[j])
    &&& m < w.len() ==> w[m] == '\'' && forall|j: int|
        m < j < w.len() ==> word_char(#[trigger] w[j])
}

/// `w` has the form of a word: one or more word characters and, possibly,
/// an apostrophe behind them with further word characters, or none, behind
/// it.
pub open spec fn word_form(w: Seq<char>) -> bool {
    exists|m: int| word_form_at(w, m)
}

/// The words of `t` from position `i` on, each as the pair of its first
/// position and the position behind its last, from left to right.
pub open spec fn spans_from(t: Seq<char>, i: int) -> Seq<(int, int)>
    decreases t.len() - i,
    via spans_from_decreases
{
    if i < 0 || i >= t.len() {
        Seq::empty()
    } else if !word_char(t[i]) {
        spans_from(t, i + 1)
    } else {
        seq![(i, word_end(t, i))] + spans_from(t, word_end(t, i))
    }
}

#[via_fn]
proof fn spans_from_decreases(t: Seq<char>, i: int) {
    if 0 <= i < t.len() && word_char(t[i]) {
        lemma_word_end(t, i);
    }
}

/// The spans in `v` as pairs of mathematical integers.
pub open spec fn spans_of(v: Seq<(usize, usize)>) -> Seq<(int, int)> {
    v.map_values(|s: (usize, usize)| (s.0 as int, s.1 as int))
}

/// The words of `t`, from left to right.
pub open spec fn words(t: Seq<char>) -> Seq<Seq<char>> {
    spans_from(t, 0).map_values(|s: (int, int)| t.subrange(s.0, s.1))
}

/// The characters of `w` stand at position `i` of `t` as a whole word.
pub open spec fn occurs_at(t: Seq<char>, w: Seq<char>, i: int) -> bool {
    &&& 0 <= i
    &&& i + w.len() <= t.len()
    &&& t.subrange(i, i + w.len()) == w
    &&& boundary(t, i)
    &&& boundary(t, i + w.len())
}

/// The first position at or after `i` where `w` stands as a whole word.
pub open spec fn occurrence_from(t: Seq<char>, w: Seq<char>, i: int) -> Option<int>
    decreases t.len() + 1 - i,
{
    if i < 0 || i + w.len() > t.len() {
        None
    } else if occurs_at(t, w, i) {
        Some(i)
    } else {
        occurrence_from(t, w, i + 1)
    }
}

/// The first position of `t` where `w` stands as a whole word.
pub open spec fn first_occurrence(t: Seq<char>, w: Seq<char>) -> Option<int> {
    occurrence_from(t, w, 0)
}

/// `t` with `r` in place of the first whole-word occurrence of `w`; `t`
/// itself if there is none.
pub open spec fn replace_first(t: Seq<char>, w: Seq<char>, r: Seq<char>) -> Seq<char> {
    match first_occurrence(t, w) {
        Some(i) => t.take(i) + r + t.skip(i + w.len()),
        None => t,
    }
}

/// `t` after the word `w` has been dealt with: its first whole-word
/// occurrence is in Pig Latin. A word without a Pig Latin form changes
/// nothing.
pub open spec fn rewrite_word(t: Seq<char>, w: Seq<char>) -> Seq<char> {
    match converted(w) {
        Some(pig) => replace_first(t, w, pig),
        None => t,
    }
}

/// `t` after the words `ws` have been dealt with, one after the other.
pub open spec fn rewrite_words(t: Seq<char>, ws: Seq<Seq<char>>) -> Seq<char>
    decreases ws.len(),
{
    if ws.len() == 0 {
        t
    } else {
        rewrite_word(rewrite_words(t, ws.drop_last()), ws.last())
    }
}

/// The Pig Latin form of the sentence `s`.
pub open spec fn pig_sentence(s: Seq<char>) -> Seq<char> {
    rewrite_words(s, words(s))
}

/// A run of word characters ends inside the text, holds word characters
/// only, and is not followed by one.
pub proof fn lemma_run_end(t: Seq<char>, i: int)
    requires
        0 <= i <= t.len(),
    ensures
        i <= run_end(t, i) <= t.len(),
        forall|j: int| i <= j < run_end(t, i) ==> word_char(#[trigger] t[j]),
        !word_at(t, run_end(t, i)),
    decreases t.len() - i,
{
    if word_at(t, i) {
        lemma_run_end(t, i + 1);
    }
}

/// A word that starts at a word character is not empty and ends inside the
/// text.
pub proof fn lemma_word_end(t: Seq<char>, i: int)
    requires
        0 <= i < t.len(),
        word_char(t[i]),
    ensures
        i < word_end(t, i) <= t.len(),
{
    lemma_run_end(t, i);
    lemma_run_end(t, i + 1);
    let e = run_end(t, i);
    if e < t.len() {
        lemma_run_end(t, e + 1);
    }
}

/// Every word found from `i` on starts at a word character at or after
/// `i`, is not empty, ends where `word_end` says, and lies inside the text.
pub proof fn lemma_spans(t: Seq<char>, i: int, k: int)
    requires
        0 <= i,
        0 <= k < spans_from(t, i).len(),
    ensures
        i <= spans_from(t, i)[k].0 < spans_from(t, i)[k].1 <= t.len(),
        word_char(t[spans_from(t, i)[k].0]),
        spans_from(t, i)[k].1 == word_end(t, spans_from(t, i)[k].0),
    decreases t.len() - i,
{
    if i < t.len() {
        if !word_char(t[i]) {
            lemma_spans(t, i + 1, k);
        } else {
            lemma_word_end(t, i);
            if k > 0 {
                lemma_spans(t, word_end(t, i), k - 1);
            }
        }
    }
}

/// Every word of a text has the form of a word.
pub proof fn lemma_word_form(t: Seq<char>, k: int)
    requires
        0 <= k < words(t).len(),
    ensures
        word_form(words(t)[k]),
{
    lemma_spans(t, 0, k);
    let a = spans_from(t, 0)[k].0;
    let w = t.subrange(a, word_end(t, a));
    assert(words(t)[k] == w);
    lemma_run_end(t, a);
    let e = run_end(t, a);
    if e < t.len() {
        lemma_run_end(t, e + 1);
    }
    assert(word_form_at(w, e - a));
}

/// `occurrence_from` finds the first whole-word occurrence at or after `i`,
/// and finds none only where there is none.
pub proof fn lemma_occurrence_from(t: Seq<char>, w: Seq<char>, i: int)
    requires
        0 <= i,
    ensures
        match occurrence_from(t, w, i) {
            Some(p) => i <= p && occurs_at(t, w, p) && forall|j: int|
                i <= j < p ==> !occurs_at(t, w, j),
            None => forall|j: int| i <= j ==> !occurs_at(t, w, j),
        },
    decreases t.len() + 1 - i,
{
    if i + w.len() <= t.len() && !occurs_at(t, w, i) {
        lemma_occurrence_from(t, w, i + 1);
    }
}

/// Tells whether a word begins or ends in front of position `i`.
pub(crate) fn is_boundary(t: &[char], i: usize) -> (r: bool)
    requires
        i <= t.len(),
    ensures
        r == boundary(t@, i as int),
{
    let before = i > 0 && is_word_char(t[i - 1]);
    let after = i < t.len() && is_word_char(t[i]);
    before != after
}

/// The end of the run of word characters that starts at `i`.
pub(crate) fn scan_run(t: &[char], i: usize) -> (e: usize)
    requires
        i <= t.len(),
    ensures
        e == run_end(t@, i as int),
        i <= e <= t.len(),
{
    let mut e: usize = i;
    while e < t.len() && is_word_char(t[e])
        invariant
            i <= e <= t.len(),
            run_end(t@, i as int) == run_end(t@, e as int),
        decreases t.len() - e,
    {
        e += 1;
    }
    e
}

/// The end of the word that starts at `i`.
pub(crate) fn scan_word(t: &[char], i: usize) -> (e: usize)
    requires
        i < t.len(),
        word_char(t@[i as int]),
    ensures
        e == word_end(t@, i as int),
        i < e <= t.len(),
{
    proof {
        lemma_word_end(t@, i as int);
    }
    let e = scan_run(t, i);
    if e < t.len() && t[e] == '\'' {
        scan_run(t, e + 1)
    } else {
        e
    }
}

/// Finds the words of `t`: for each, its first position and the position
/// behind its last, from left to right.
pub fn find_words(t: &[char]) -> (spans: Vec<(usize, usize)>)
    ensures
        spans_of(spans@) == spans_from(t@, 0),
{
    let mut spans: Vec<(usize, usize)> = Vec::new();
    let mut i: usize = 0;
    while i < t.len()
        invariant
            i <= t.len(),
            spans_from(t@, 0) == spans_of(spans@) + spans_from(t@, i as int),
        decreases t.len() - i,
    {
        if is_word_char(t[i]) {
            let e = scan_word(t, i);
            spans.push((i, e));
            i = e;
        } else {
            i += 1;
        }
    }
    spans
}

/// Tells whether the characters of `w` stand at position `i` of `t`.
pub(crate) fn stands_at(t: &[char], w: &[char], i: usize) -> (r: bool)
    requires
        i + w.len() <= t.len(),
    ensures
        r == (t@.subrange(i as int, i + w.len()) == w@),
{
    let mut k: usize = 0;
    while k < w.len()
        invariant
            k <= w.len(),
            i + w.len() <= t.len(),
            t@.subrange(i as int, i + k) == w@.take(k as int),
        decreases w.len() - k,
    {
        if t[i + k] != w[k] {
            return false;
        }
        assert(t@.subrange(i as int, i + k + 1) == t@.subrange(i as int, i + k).push(
            t@[i + k],
        ));
        k += 1;
    }
    assert(w@.take(k as int) == w@);
    true
}

/// Finds the first position of `t` where `w` stands as a whole word.
pub fn find_whole_word(t: &[char], w: &[char]) -> (r: Option<usize>)
    ensures
        match r {
            Some(i) => first_occurrence(t@, w@) == Some(i as int) && i + w.len() <= t.len(),
            None => first_occurrence(t@, w@) is None,
        },
{
    if w.len() > t.len() {
        return None;
    }
    let last: usize = t.len() - w.len();
    let mut i: usize = 0;
    loop
        invariant
            i <= last,
            last == t.len() - w.len(),
            first_occurrence(t@, w@) == occurrence_from(t@, w@, i as int),
        decreases last - i,
    {
        if stands_at(t, w, i) && is_boundary(t, i) && is_boundary(t, i + w.len()) {
            return Some(i);
        }
        if i == last {
            return None;
        }
        i += 1;
    }
}

/// Writes `r` over the first whole-word occurrence of `w` in `t`.
pub fn replace_word(t: &[char], w: &[char], r: &[char]) -> (out: Vec<char>)
    ensures
        out@ == replace_first(t@, w@, r@),
{
    let mut out: Vec<char> = Vec::new();
    match find_whole_word(t, w) {
        Some(i) => {
            append(&mut out, &t[0..i]);
            append(&mut out, r);
            append(&mut out, &t[i + w.len()..t.len()]);
        },
        None => {
            append(&mut out, t);
        },
    }
    out
}

/// Puts a sentence into Pig Latin: its words are put into Pig Latin one
/// after the other, and everything between the words is kept. An empty
/// sentence has no Pig Latin form.
pub fn sentence_to_pig_latin(sentence: &str) -> (r: Option<String>)
    ensures
        r is None <==> sentence@.len() == 0,
        r matches Some(pig) ==> pig@ == pig_sentence(sentence@),
{
    let text = chars_of(sentence);
    if text.len() == 0 {
        return None;
    }
    let spans = find_words(text.as_slice());
    let mut work: Vec<char> = Vec::new();
    append(&mut work, text.as_slice());
    let mut k: usize = 0;
    while k < spans.len()
        invariant
            k <= spans.len(),
            spans_of(spans@) == spans_from(text@, 0),
            work@ == rewrite_words(text@, words(text@).take(k as int)),
        decreases spans.len() - k,
    {
        let (a, b) = spans[k];
        proof {
            lemma_spans(text@, 0, k as int);
            let ws = words(text@);
            assert(ws.take(k + 1).drop_last() == ws.take(k as int));
        }
        let word = &text[a..b];
        match convert_chars(word) {
            Some(pig) => {
                work = replace_word(work.as_slice(), word, pig.as_slice());
            },
            None => {},
        }
        k += 1;
    }
    proof {
        assert(words(text@).take(k as int) == words(text@));
    }
    Some(string_of(work.as_slice()))
}

} // verus!
