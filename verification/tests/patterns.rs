use oink::{sentence_to_pig_latin, word_to_pig_latin};
use regex::Regex;

// The same rules written with regular expressions: a caseless vowel class
// for the first letter, the longest run outside it for the onset, the word
// pattern for the scan, and a search between word boundaries for each word.

fn upper_first(word: &str) -> String {
    let mut chars = word.chars();
    match chars.next() {
        None => String::new(),
        Some(c) => c.to_uppercase().collect::<String>() + chars.as_str(),
    }
}

struct Patterns {
    vowel: Regex,
    consonants: Regex,
    word: Regex,
}

fn patterns() -> Patterns {
    Patterns {
        vowel: Regex::new(r"(?i)[aeiou]").unwrap(),
        consonants: Regex::new(r"(?i)[^aeiou]+").unwrap(),
        word: Regex::new(r"(\w+'?\w*)").unwrap(),
    }
}

fn word_by_patterns(patterns: &Patterns, word: &str) -> Option<String> {
    let first = word.chars().next()?;
    if patterns.vowel.is_match(&word[0..first.len_utf8()]) {
        Some(format!("{}yay", if first.is_uppercase() { upper_first(word) } else { word.to_string() }))
    } else {
        let end = patterns.consonants.find(word).unwrap().end();
        let rest = if first.is_uppercase() { upper_first(&word[end..]) } else { word[end..].to_string() };
        Some(format!("{}{}ay", rest, word[0..end].to_lowercase()))
    }
}

fn sentence_by_patterns(patterns: &Patterns, sentence: &str) -> Option<String> {
    if sentence.is_empty() {
        return None;
    }
    let mut text = sentence.to_string();
    for word in patterns.word.find_iter(sentence) {
        let whole = Regex::new(&format!(r"\b{}\b", word.as_str())).unwrap();
        if let Some(pig) = word_by_patterns(patterns, word.as_str()) {
            text = whole.replacen(&text, 1, pig.as_str()).to_string();
        }
    }
    Some(text)
}

const SENTENCES: [&str; 40] = [
    "Hello, my name is Scott Walker.",
    "Hello, I am Aman",
    "The quick brown fox jumps over the lazy dog.",
    "  leading and trailing  ",
    "e eyay",
    "b bay ay",
    "ay bay b",
    "a ayay ayayyay",
    "dogs' bones",
    "rock' roll",
    "don' don'x",
    "a'b'c d'e'f",
    "''a''b''",
    "it's 'quoted' isn't it",
    "snake_case CamelCase SHOUT x86_64 2nd",
    "_ __ ___",
    "1 22 333",
    "rhythm myth TV",
    "well-known, semi-colon; full stop.",
    "tab\tnew\nline\r\n",
    "the the the the",
    "cat catalog cat concat cat's",
    "at cat at hat at",
    "A E I O U a e i o u",
    "Y y Yes yes",
    "?!",
    " ",
    "x",
    "caf\u{e9} au lait",
    "na\u{ef}ve r\u{e9}sum\u{e9} fianc\u{e9}e",
    "TH\u{c9} S\u{c3}O s\u{c7}a",
    "S\u{3a3}a k\u{130}a",
    "\u{201c}Hi\u{201d} \u{2014} she said\u{2026}",
    "don\u{2019}t stop",
    "a\u{a0}b\u{2003}c",
    "e\u{301}t\u{e9} de\u{301}ja\u{300}",
    "x\u{200d}y z\u{203f}w",
    "3\u{b2} \u{bd}x r\u{661}",
    "h\u{4e2d}\u{6587}a d\u{43c}\u{438}\u{440}o",
    "smile \u{1f600} smile",
];

#[test]
fn sentences_come_out_as_the_patterns_give_them() {
    let patterns = patterns();
    for sentence in SENTENCES {
        assert_eq!(sentence_to_pig_latin(sentence), sentence_by_patterns(&patterns, sentence), "{:?}", sentence);
    }
    assert_eq!(sentence_to_pig_latin(""), sentence_by_patterns(&patterns, ""));
}

#[test]
fn words_come_out_as_the_patterns_give_them() {
    let patterns = patterns();
    for sentence in SENTENCES {
        for word in patterns.word.find_iter(sentence) {
            assert_eq!(word_to_pig_latin(word.as_str()), word_by_patterns(&patterns, word.as_str()), "{:?}", word.as_str());
        }
        assert_eq!(word_to_pig_latin(sentence), word_by_patterns(&patterns, sentence), "{:?}", sentence);
    }
    assert_eq!(word_to_pig_latin(""), word_by_patterns(&patterns, ""));
}

fn all_texts(alphabet: &[char], longest: usize) -> Vec<String> {
    let mut texts = vec![String::new()];
    let mut from = 0;
    for _ in 0..longest {
        let upto = texts.len();
        for i in from..upto {
            for c in alphabet {
                let mut text = texts[i].clone();
                text.push(*c);
                texts.push(text);
            }
        }
        from = upto;
    }
    texts
}

#[test]
fn every_short_lowercase_sentence_comes_out_as_the_patterns_give_it() {
    let patterns = patterns();
    for sentence in all_texts(&['a', 'y', 'b', '\'', ' '], 4) {
        assert_eq!(sentence_to_pig_latin(&sentence), sentence_by_patterns(&patterns, &sentence), "{:?}", sentence);
    }
}

#[test]
fn every_short_mixed_sentence_comes_out_as_the_patterns_give_it() {
    let patterns = patterns();
    for sentence in all_texts(&['E', 'T', 'o', '_', ','], 4) {
        assert_eq!(sentence_to_pig_latin(&sentence), sentence_by_patterns(&patterns, &sentence), "{:?}", sentence);
    }
}

#[test]
fn every_short_sentence_beyond_ascii_comes_out_as_the_patterns_give_it() {
    let patterns = patterns();
    for sentence in all_texts(&['a', 'T', '\'', '\u{e9}', '\u{2019}'], 3) {
        assert_eq!(sentence_to_pig_latin(&sentence), sentence_by_patterns(&patterns, &sentence), "{:?}", sentence);
    }
}

#[test]
fn every_short_word_comes_out_as_the_patterns_give_it() {
    let patterns = patterns();
    for word in all_texts(&['a', 'U', 'b', 'K', '\'', '9', '\u{c9}', '\u{3a3}'], 4) {
        assert_eq!(word_to_pig_latin(&word), word_by_patterns(&patterns, &word), "{:?}", word);
    }
}

#[test]
fn generated_sentences_come_out_as_the_patterns_give_them() {
    let patterns = patterns();
    let alphabet = ['a', 'b', 'E', 'T', 'y', '\'', ' ', '_', '1', ',', '\u{e9}'];
    let mut state: u32 = 0x2545_f491;
    for _ in 0..200 {
        let mut sentence = String::new();
        state = state.wrapping_mul(1_664_525).wrapping_add(1_013_904_223);
        let len = 1 + (state >> 24) % 12;
        for _ in 0..len {
            state = state.wrapping_mul(1_664_525).wrapping_add(1_013_904_223);
            sentence.push(alphabet[((state >> 16) as usize) % alphabet.len()]);
        }
        assert_eq!(sentence_to_pig_latin(&sentence), sentence_by_patterns(&patterns, &sentence), "{:?}", sentence);
    }
}
