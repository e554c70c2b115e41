//! An anagram index: words are grouped under a canonical key (their letters
//! sorted by code point), and a scrambled query is answered with the group of
//! known words that share its key.

pub mod canonical;
pub mod wordmap;
pub mod dictionary;
pub mod entry;
