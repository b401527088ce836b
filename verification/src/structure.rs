//! What a sentence keeps when it is put into Pig Latin.
//!
//! Only words change. The characters that are not word characters stay as
//! they are, in the same number and order, and they stay where they are
//! among the words: the outline of the sentence, in which every word counts
//! as one mark, is the same before and after.
//!
//! Both laws are proved for the sentences in which no word has a character
//! beyond ASCII in front of its first vowel. For the others the onset that
//! moves is lowered by the Unicode tables, and what those tables hold is not
//! stated in this crate.

use crate::letters::{
    all_ascii, ascii, ascii_lower, ascii_upper, lower, upper, uppercase, vowel, word_char,
};
use crate::sentence::{
    first_occurrence, lemma_occurrence_from, lemma_spans, lemma_word_form, pig_sentence,
    replace_first, rewrite_words, spans_from, word_form, word_form_at, words,
};
use crate::word::{capitalized, lemma_onset, onset_len, pig_latin};
use vstd::prelude::*;

verus! {

/// The predicate that holds of the characters that are not word characters.
pub open spec fn separator() -> spec_fn(char) -> bool {
    |c: char| !word_char(c)
}

/// The characters of `t` that are not word characters, in order.
pub open spec fn separators(t: Seq<char>) -> Seq<char> {
    t.filter(separator())
}

/// No word of `s` has a character beyond ASCII in front of its first vowel.
pub open spec fn ascii_onsets(s: Seq<char>) -> bool {
    forall|k: int|
        0 <= k < words(s).len() ==> all_ascii(
            (#[trigger] words(s)[k]).take(onset_len(words(s)[k])),
        )
}

/// The outline of `t`: every character that is not a word character as
/// itself, and every run of word characters, however long, as one `None`.
pub open spec fn outline(t: Seq<char>) -> Seq<Option<char>>
    decreases t.len(),
{
    if t.len() == 0 {
        Seq::empty()
    } else {
        let front = outline(t.drop_last());
        if !word_char(t.last()) {
            front.push(Some(t.last()))
        } else if t.len() >= 2 && word_char(t[t.len() - 2]) {
            front
        } else {
            front.push(None)
        }
    }
}

/// The outline `p` followed by the outline `q`, where a run that ends `p`
/// and a run that begins `q` count as one run.
pub open spec fn joined(p: Seq<Option<char>>, q: Seq<Option<char>>) -> Seq<Option<char>> {
    if p.len() > 0 && q.len() > 0 && p.last() is None && q[0] is None {
        p + q.drop_first()
    } else {
        p + q
    }
}

proof fn lemma_separators_add(a: Seq<char>, b: Seq<char>)
    ensures
        separators(a + b) == separators(a) + separators(b),
{
    Seq::filter_distributes_over_add(a, b, separator());
}

proof fn lemma_no_separators(x: Seq<char>)
    requires
        forall|j: int| 0 <= j < x.len() ==> word_char(#[trigger] x[j]),
    ensures
        separators(x) == Seq::<char>::empty(),
    decreases x.len(),
{
    reveal(Seq::filter);
    if x.len() > 0 {
        lemma_no_separators(x.drop_last());
    }
}

/// Two texts of one length have the same separators if, position by
/// position, they hold the same character or a word character each.
proof fn lemma_separators_alike(x: Seq<char>, y: Seq<char>)
    requires
        x.len() == y.len(),
        forall|j: int|
            0 <= j < x.len() ==> #[trigger] x[j] == y[j] || (word_char(x[j]) && word_char(y[j])),
    ensures
        separators(x) == separators(y),
    decreases x.len(),
{
    reveal(Seq::filter);
    if x.len() > 0 {
        lemma_separators_alike(x.drop_last(), y.drop_last());
    }
}

/// A text without separators holds word characters only.
proof fn lemma_no_separators_means_run(x: Seq<char>)
    requires
        separators(x).len() == 0,
    ensures
        forall|j: int| 0 <= j < x.len() ==> word_char(#[trigger] x[j]),
    decreases x.len(),
{
    reveal(Seq::filter);
    if x.len() > 0 {
        let front = x.drop_last();
        lemma_no_separators_means_run(front);
        assert forall|j: int| 0 <= j < x.len() implies word_char(#[trigger] x[j]) by {
            if j < x.len() - 1 {
                assert(front[j] == x[j]);
            }
        }
    }
}

/// A text with one separator holds it at one position and word characters
/// at all others.
proof fn lemma_one_separator(x: Seq<char>) -> (p: int)
    requires
        separators(x).len() == 1,
    ensures
        0 <= p < x.len(),
        x[p] == separators(x)[0],
        !word_char(x[p]),
        forall|j: int| 0 <= j < x.len() && j != p ==> word_char(#[trigger] x[j]),
    decreases x.len(),
{
    reveal(Seq::filter);
    let front = x.drop_last();
    if word_char(x.last()) {
        let p = lemma_one_separator(front);
        assert forall|j: int| 0 <= j < x.len() && j != p implies word_char(#[trigger] x[j]) by {
            if j < x.len() - 1 {
                assert(front[j] == x[j]);
            }
        }
        p
    } else {
        lemma_no_separators_means_run(front);
        assert forall|j: int| 0 <= j < x.len() - 1 implies word_char(#[trigger] x[j]) by {
            assert(front[j] == x[j]);
        }
        x.len() - 1
    }
}

proof fn lemma_outline_ends(t: Seq<char>)
    requires
        t.len() > 0,
    ensures
        outline(t).len() > 0,
        outline(t)[0] is None <==> word_char(t[0]),
        outline(t).last() is None <==> word_char(t.last()),
    decreases t.len(),
{
    let front = t.drop_last();
    if t.len() > 1 {
        lemma_outline_ends(front);
    } else {
        assert(outline(front) == Seq::<Option<char>>::empty());
    }
}

/// The outline of two texts put together is their outlines put together.
proof fn lemma_outline_add(a: Seq<char>, b: Seq<char>)
    ensures
        outline(a + b) == joined(outline(a), outline(b)),
    decreases b.len(),
{
    if b.len() > 0 {
        let front = b.drop_last();
        assert((a + b).drop_last() == a + front);
        lemma_outline_add(a, front);
        if front.len() > 0 {
            lemma_outline_ends(front);
            lemma_outline_ends(b);
        } else if a.len() > 0 {
            lemma_outline_ends(a);
        }
    }
}

/// A run of word characters has the outline of one run.
proof fn lemma_outline_of_run(x: Seq<char>)
    requires
        x.len() > 0,
        forall|j: int| 0 <= j < x.len() ==> word_char(#[trigger] x[j]),
    ensures
        outline(x) == seq![None::<char>],
    decreases x.len(),
{
    let front = x.drop_last();
    if x.len() > 1 {
        lemma_outline_of_run(front);
    } else {
        assert(outline(front) == Seq::<Option<char>>::empty());
    }
}

/// A text with a separator `c` at position `p` and word characters at all
/// other positions has the outline of a run, `c`, and a run, where a run
/// without characters leaves no mark.
proof fn lemma_outline_around(x: Seq<char>, p: int)
    requires
        0 <= p < x.len(),
        !word_char(x[p]),
        forall|j: int| 0 <= j < x.len() && j != p ==> word_char(#[trigger] x[j]),
    ensures
        outline(x) == (if p > 0 {
            seq![None::<char>]
        } else {
            Seq::empty()
        }) + seq![Some(x[p])] + (if p + 1 < x.len() {
            seq![None::<char>]
        } else {
            Seq::empty()
        }),
{
    let a = x.take(p);
    let c = seq![x[p]];
    let b = x.skip(p + 1);
    assert(x == a + c + b);
    lemma_outline_add(a + c, b);
    lemma_outline_add(a, c);
    assert(outline(c) == seq![Some(x[p])]) by {
        assert(outline(c.drop_last()) == Seq::<Option<char>>::empty());
    }
    if p > 0 {
        lemma_outline_of_run(a);
    }
    if p + 1 < x.len() {
        lemma_outline_of_run(b);
    }
}

/// The separators of a word: none, or the apostrophe.
proof fn lemma_separators_of_word(w: Seq<char>, m: int)
    requires
        word_form_at(w, m),
    ensures
        separators(w) == (if m < w.len() {
            seq!['\'']
        } else {
            Seq::empty()
        }),
{
    if m < w.len() {
        let a = w.take(m);
        let c = seq![w[m]];
        let b = w.skip(m + 1);
        assert(w == a + c + b);
        lemma_separators_add(a + c, b);
        lemma_separators_add(a, c);
        lemma_no_separators(a);
        lemma_no_separators(b);
        assert(separators(c) == c) by {
            reveal(Seq::filter);
        }
    } else {
        lemma_no_separators(w);
    }
}

/// The Pig Latin form of a word has the separators of the word.
proof fn lemma_word_keeps_separators(w: Seq<char>)
    requires
        word_form(w),
        all_ascii(w.take(onset_len(w))),
    ensures
        separators(pig_latin(w)) == separators(w),
{
    let m = choose|m: int| word_form_at(w, m);
    let yay = seq!['y', 'a', 'y'];
    let ay = seq!['a', 'y'];
    lemma_no_separators(yay);
    lemma_no_separators(ay);
    if vowel(w[0]) {
        lemma_separators_add(w, yay);
    } else {
        lemma_onset(w);
        let onset = w.take(onset_len(w));
        let rest = w.skip(onset_len(w));
        assert(w == onset + rest);
        lemma_separators_add(onset, rest);
        // Capitalising the rest turns a vowel into a vowel.
        let head = if uppercase(w[0]) {
            capitalized(rest)
        } else {
            rest
        };
        if rest.len() > 0 {
            assert(upper(rest[0]) == seq![ascii_upper(rest[0])]);
            lemma_separators_alike(rest, capitalized(rest));
        }
        // Lowering the onset turns letters into letters and nothing else.
        let low = lower(onset);
        assert forall|j: int| 0 <= j < onset.len() implies #[trigger] onset[j] == low[j] || (
        word_char(onset[j]) && word_char(low[j])) by {
            assert(low[j] == ascii_lower(onset[j]));
        }
        lemma_separators_alike(onset, low);
        lemma_separators_add(head, low);
        lemma_separators_add(head + low, ay);
        assert(separators(pig_latin(w)) == separators(rest) + separators(onset));
        // The one separator that a word may hold is in the onset or in the
        // rest, so the order of the two does not show.
        if forall|j: int| 0 <= j < onset.len() ==> word_char(#[trigger] onset[j]) {
            lemma_no_separators(onset);
        } else {
            let p = choose|p: int| 0 <= p < onset.len() && !word_char(onset[p]);
            assert(p == m);
            lemma_no_separators(rest);
        }
    }
}

/// The Pig Latin form of a word begins and ends with a word character.
proof fn lemma_pig_latin_ends(w: Seq<char>)
    requires
        word_form(w),
        all_ascii(w.take(onset_len(w))),
    ensures
        pig_latin(w).len() > 0,
        word_char(pig_latin(w)[0]),
        word_char(pig_latin(w).last()),
{
    // The first character of the word is a word character. It stays in
    // front, or a vowel takes its place, or it is the first of an onset
    // that is all there is and is lowered.
    let m = choose|m: int| word_form_at(w, m);
    assert(word_char(w[0]));
    if !vowel(w[0]) {
        lemma_onset(w);
        let onset = w.take(onset_len(w));
        assert(onset[0] == w[0]);
        assert(ascii(w[0]));
    }
}

/// Writing `r` over a whole-word occurrence of `w` keeps the separators of
/// the text if `r` has the separators of `w`.
proof fn lemma_replace_keeps_separators(t: Seq<char>, w: Seq<char>, r: Seq<char>)
    requires
        separators(r) == separators(w),
    ensures
        separators(replace_first(t, w, r)) == separators(t),
{
    lemma_occurrence_from(t, w, 0);
    match first_occurrence(t, w) {
        Some(i) => {
            let a = t.take(i);
            let b = t.skip(i + w.len());
            assert(t == a + w + b);
            lemma_separators_add(a, w);
            lemma_separators_add(a + w, b);
            lemma_separators_add(a, r);
            lemma_separators_add(a + r, b);
        },
        None => {},
    }
}

/// Writing `r` over a whole-word occurrence of the word `w` keeps the
/// outline of the text if `r` begins and ends with a word character and has
/// the separators of `w`.
proof fn lemma_replace_keeps_outline(t: Seq<char>, w: Seq<char>, r: Seq<char>)
    requires
        word_form(w),
        r.len() > 0,
        word_char(r[0]),
        word_char(r.last()),
        separators(r) == separators(w),
    ensures
        outline(replace_first(t, w, r)) == outline(t),
{
    lemma_occurrence_from(t, w, 0);
    match first_occurrence(t, w) {
        Some(i) => {
            let m = choose|m: int| word_form_at(w, m);
            let a = t.take(i);
            let b = t.skip(i + w.len());
            assert(t == a + w + b);
            lemma_outline_add(a + w, b);
            lemma_outline_add(a, w);
            lemma_outline_add(a + r, b);
            lemma_outline_add(a, r);
            lemma_outline_ends(w);
            lemma_outline_ends(r);
            // No run ends where the word begins.
            if a.len() > 0 {
                lemma_outline_ends(a);
            }
            lemma_separators_of_word(w, m);
            if m == w.len() {
                // A run is written over a run.
                lemma_no_separators_means_run(r);
                lemma_outline_of_run(r);
                lemma_outline_of_run(w);
            } else {
                // Both hold the apostrophe between word characters, but for
                // a word that ends in it: the run that `r` ends with then
                // joins the run that follows the word.
                let p = lemma_one_separator(r);
                lemma_outline_around(r, p);
                lemma_outline_around(w, m);
                if m + 1 == w.len() {
                    assert(word_char(b[0]));
                    lemma_outline_ends(b);
                }
            }
        },
        None => {},
    }
}

/// Dealing with words that have ASCII onsets keeps the separators and the
/// outline of the text.
proof fn lemma_rewrite_keeps_structure(t: Seq<char>, ws: Seq<Seq<char>>)
    requires
        forall|k: int|
            0 <= k < ws.len() ==> word_form(#[trigger] ws[k]) && all_ascii(
                ws[k].take(onset_len(ws[k])),
            ),
    ensures
        separators(rewrite_words(t, ws)) == separators(t),
        outline(rewrite_words(t, ws)) == outline(t),
    decreases ws.len(),
{
    if ws.len() > 0 {
        let front = ws.drop_last();
        assert forall|k: int| 0 <= k < front.len() implies word_form(#[trigger] front[k])
            && all_ascii(front[k].take(onset_len(front[k]))) by {
            assert(front[k] == ws[k]);
        }
        lemma_rewrite_keeps_structure(t, front);
        let w = ws.last();
        lemma_word_keeps_separators(w);
        lemma_pig_latin_ends(w);
        lemma_replace_keeps_separators(rewrite_words(t, front), w, pig_latin(w));
        lemma_replace_keeps_outline(rewrite_words(t, front), w, pig_latin(w));
    }
}

proof fn lemma_words_of_sentence(s: Seq<char>)
    requires
        ascii_onsets(s),
    ensures
        forall|k: int|
            0 <= k < words(s).len() ==> word_form(#[trigger] words(s)[k]) && all_ascii(
                words(s)[k].take(onset_len(words(s)[k])),
            ),
{
    assert forall|k: int| 0 <= k < words(s).len() implies word_form(#[trigger] words(s)[k])
        && all_ascii(words(s)[k].take(onset_len(words(s)[k]))) by {
        lemma_word_form(s, k);
    }
}

/// Putting a sentence into Pig Latin changes neither the number nor the
/// order of the characters that are not word characters, as long as no
/// word has a character beyond ASCII in front of its first vowel.
pub proof fn lemma_separators_kept(s: Seq<char>)
    requires
        ascii_onsets(s),
    ensures
        separators(pig_sentence(s)) == separators(s),
{
    lemma_words_of_sentence(s);
    lemma_rewrite_keeps_structure(s, words(s));
}

/// Putting a sentence into Pig Latin keeps every character that is not a
/// word character where it is among the words: the outline of the sentence
/// stays the same, as long as no word has a character beyond ASCII in front
/// of its first vowel.
pub proof fn lemma_outline_kept(s: Seq<char>)
    requires
        ascii_onsets(s),
    ensures
        outline(pig_sentence(s)) == outline(s),
{
    lemma_words_of_sentence(s);
    lemma_rewrite_keeps_structure(s, words(s));
}

/// A sentence whose word characters are all ASCII has no character beyond
/// ASCII in front of the first vowel of any word.
pub proof fn lemma_ascii_words(s: Seq<char>)
    requires
        forall|i: int| 0 <= i < s.len() && word_char(s[i]) ==> ascii(#[trigger] s[i]),
    ensures
        ascii_onsets(s),
{
    assert forall|k: int| 0 <= k < words(s).len() implies all_ascii(
        (#[trigger] words(s)[k]).take(onset_len(words(s)[k])),
    ) by {
        // A word holds characters of the sentence: word characters, which
        // are ASCII here, and at most the apostrophe.
        let w = words(s)[k];
        lemma_spans(s, 0, k);
        let a = spans_from(s, 0)[k].0;
        lemma_word_form(s, k);
        let m = choose|m: int| word_form_at(w, m);
        lemma_onset(w);
        let onset = w.take(onset_len(w));
        assert forall|j: int| 0 <= j < onset.len() implies ascii(#[trigger] onset[j]) by {
            assert(onset[j] == s[a + j]);
            assert(j == m || word_char(w[j]));
        }
    }
}

} // verus!
