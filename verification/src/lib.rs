//! English to Pig Latin.
//!
//! A word that begins with a vowel gains the suffix "yay". Any other word
//! moves its leading run of consonants, in lower case, behind the rest and
//! gains the suffix "ay"; the rest is capitalised when the word was.
//! A sentence has its words rewritten one by one while everything between
//! the words stays where it is.

pub mod letters;
pub mod sentence;
pub mod structure;
pub mod text;
pub mod unicode;
pub mod word;

pub use crate::letters::{is_vowel, is_word_char};
pub use crate::sentence::sentence_to_pig_latin;
pub use crate::word::{capitalize, word_to_pig_latin};
