use oink::sentence_to_pig_latin;

fn pig(sentence: &str) -> String {
    sentence_to_pig_latin(sentence).unwrap()
}

fn separators(text: &str) -> String {
    text.chars().filter(|c| !oink::is_word_char(*c)).collect()
}

// Every separator as itself and every run of word characters as one `None`.
fn outline(text: &str) -> Vec<Option<char>> {
    let mut marks = Vec::new();
    let mut in_word = false;
    for c in text.chars() {
        if !oink::is_word_char(c) {
            marks.push(Some(c));
            in_word = false;
        } else if !in_word {
            marks.push(None);
            in_word = true;
        }
    }
    marks
}

const KEPT: [&str; 14] = [
    "Hello, my name is Scott Walker.",
    "Hello, I am Aman",
    "  two  spaces  ",
    "e eyay",
    "dogs' bones, don't!",
    "don' don'x",
    "a' a'x",
    "a'b'c d'e",
    "(one) [two] {three} <four>",
    "well-known; x86_64 -- 2nd?",
    "caf\u{e9} au lait \u{2014} tr\u{e8}s bien\u{2026}",
    "TH\u{c9} r\u{e9}sum\u{e9}, \u{e9}t\u{e9}!",
    "rhythm",
    "?!",
];

#[test]
fn to_pig_sentence() {
    assert_eq!(
        sentence_to_pig_latin("Hello, I am Aman").unwrap(),
        "Ellohay, Iyay amyay Amanyay"
    );
}

#[test]
fn sentence_with_names() {
    assert_eq!(
        pig("Hello, my name is Scott Walker."),
        "Ellohay, myay amenay isyay Ottscay Alkerway."
    );
}

#[test]
fn lowercase_sentence() {
    assert_eq!(pig("hello, i am aman"), "ellohay, iyay amyay amanyay");
}

#[test]
fn empty_sentence_has_no_pig_latin() {
    assert_eq!(sentence_to_pig_latin(""), None);
}

#[test]
fn sentence_without_words_is_kept() {
    assert_eq!(pig(" "), " ");
    assert_eq!(pig("?!"), "?!");
    assert_eq!(pig("... --- ..."), "... --- ...");
    assert_eq!(pig("'"), "'");
    assert_eq!(pig("\n\t"), "\n\t");
}

#[test]
fn single_words() {
    assert_eq!(pig("Hello"), "Ellohay");
    assert_eq!(pig("a"), "ayay");
    assert_eq!(pig("rhythm"), "rhythmay");
    assert_eq!(pig("123"), "123ay");
}

#[test]
fn spacing_and_punctuation_stay() {
    assert_eq!(pig("  two  spaces  "), "  otway  acesspay  ");
    assert_eq!(pig("(one) [two] {three}"), "(oneyay) [otway] {eethray}");
    assert_eq!(pig("line\nbreak\ttab"), "inelay\neakbray\tabtay");
    assert_eq!(pig("well-known"), "ellway-ownknay");
    assert_eq!(pig("a.b,c;d"), "ayay.bay,cay;day");
}

#[test]
fn contractions_are_one_word() {
    assert_eq!(pig("I don't know"), "Iyay on'tday owknay");
    assert_eq!(pig("it's o'clock"), "it'syay o'clockyay");
    assert_eq!(pig("a'b'c"), "a'byay'cay");
}

#[test]
fn underscores_and_digits_belong_to_words() {
    assert_eq!(pig("snake_case x86 2nd"), "ake_casesnay x86ay 2nday");
}

#[test]
fn repeated_words_are_each_rewritten() {
    assert_eq!(pig("the cat and the hat"), "ethay atcay andyay ethay athay");
    assert_eq!(pig("a a a"), "ayay ayay ayay");
    assert_eq!(pig("no no, no"), "onay onay, onay");
}

#[test]
fn word_inside_a_longer_word_is_not_taken() {
    assert_eq!(pig("cat catalog"), "atcay atalogcay");
    assert_eq!(pig("catalog cat"), "atalogcay atcay");
    assert_eq!(pig("at cat at"), "atyay atcay atyay");
}

#[test]
fn first_whole_word_occurrence_is_the_one_rewritten() {
    // The second word reads like the first one in Pig Latin, so it is found
    // at the front, where the first one now stands.
    assert_eq!(pig("e eyay"), "eyayyay eyay");
    assert_eq!(pig("b bay"), "aybay bay");
}

#[test]
fn word_that_ends_in_an_apostrophe_needs_a_word_character_behind_it() {
    assert_eq!(pig("dogs' bones"), "dogs' onesbay");
    assert_eq!(pig("rock'"), "rock'");
    assert_eq!(pig("don' don'x"), "don' on'dayx");
}

#[test]
fn letters_beyond_ascii_are_word_characters() {
    assert_eq!(pig("caf\u{e9} au lait"), "af\u{e9}cay auyay aitlay");
    assert_eq!(pig("na\u{ef}ve r\u{e9}sum\u{e9}"), "a\u{ef}venay um\u{e9}r\u{e9}say");
    assert_eq!(pig("\u{e9}t\u{e9}"), "\u{e9}t\u{e9}ay");
    assert_eq!(pig("\u{43c}\u{438}\u{440} a"), "\u{43c}\u{438}\u{440}ay ayay");
    assert_eq!(pig("\u{4e2d}\u{6587}"), "\u{4e2d}\u{6587}ay");
}

#[test]
fn punctuation_beyond_ascii_is_kept() {
    assert_eq!(pig("\u{201c}Hi\u{201d} \u{2014} she said\u{2026}"), "\u{201c}Ihay\u{201d} \u{2014} eshay aidsay\u{2026}");
    assert_eq!(pig("don\u{2019}t"), "onday\u{2019}tay");
    assert_eq!(pig("a\u{a0}b"), "ayay\u{a0}bay");
}

#[test]
fn separators_are_kept_in_number_and_order() {
    for sentence in KEPT {
        assert_eq!(separators(&pig(sentence)), separators(sentence), "{:?}", sentence);
    }
    assert_eq!(separators(&pig("dogs' bones, don't!")), "' , '!");
}

#[test]
fn separators_stay_where_they_are_among_the_words() {
    for sentence in KEPT {
        assert_eq!(outline(&pig(sentence)), outline(sentence), "{:?}", sentence);
    }
    assert_eq!(
        outline(&pig("Hello, I am")),
        vec![None, Some(','), Some(' '), None, Some(' '), None]
    );
}
