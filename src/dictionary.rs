//! Building the index from a newline-delimited word list.

use vstd::prelude::*;
use crate::canonical::{canonical, canonicalize};
use crate::wordmap::{index_words, words_view, WordMap};

verus! {

/// A line without the `'\r'` that ends it, if one does.
pub open spec fn strip_cr(l: Seq<char>) -> Seq<char> {
    if l.len() > 0 && l.last() == '\r' {
        l.drop_last()
    } else {
        l
    }
}

/// The lines of `s` from position `i` on, where the current line began at `start`.
pub open spec fn lines_from(s: Seq<char>, start: int, i: int) -> Seq<Seq<char>>
    decreases s.len() - i,
{
    if i >= s.len() {
        if start >= s.len() {
            Seq::empty()
        } else {
            seq![s.subrange(start, s.len() as int)]
        }
    } else if s[i] == '\n' {
        seq![strip_cr(s.subrange(start, i))] + lines_from(s, i + 1, i + 1)
    } else {
        lines_from(s, start, i + 1)
    }
}

/// The lines of `s`: split at each `'\n'`, a `'\r'` just before it dropped, and
/// no empty line after a final `'\n'`.
pub open spec fn lines_of(s: Seq<char>) -> Seq<Seq<char>> {
    lines_from(s, 0, 0)
}

/// Relies on str::lines: the lines as `lines_of` describes them, each copied
/// into a `String`.
#[verifier::external_body]
fn split_lines(s: &str) -> (r: Vec<String>)
    ensures
        words_view(r@) == lines_of(s@),
{
    s.lines().map(str::to_string).collect()
}

/// The canonical key of each line of `words`, in order.
pub fn sorted_words(words: String) -> (r: Vec<String>)
    ensures
        words_view(r@) == lines_of(words@).map_values(|w: Seq<char>| canonical(w)),
{
    let lines = split_lines(words.as_str());
    let mut ordered_words: Vec<String> = Vec::new();
    let mut i: usize = 0;
    while i < lines.len()
        invariant
            i <= lines@.len(),
            words_view(lines@) == lines_of(words@),
            ordered_words@.len() == i,
            forall|j: int|
                0 <= j < i ==> #[trigger] ordered_words@[j]@ == canonical(lines@[j]@),
        decreases lines@.len() - i,
    {
        let sorted_word = canonicalize(lines[i].as_str());
        ordered_words.push(sorted_word);
        i = i + 1;
    }
    proof {
        assert(words_view(ordered_words@) =~= lines_of(words@).map_values(
            |w: Seq<char>| canonical(w),
        ));
    }
    ordered_words
}

/// Builds the index of a newline-delimited word list, one word per line.
pub fn make_word_map(words: &str) -> (r: WordMap)
    ensures
        r.wf(),
        r@ == index_words(lines_of(words@)),
{
    let lines = split_lines(words);
    WordMap::build(&lines)
}

/// Builds the index of an owned newline-delimited word list.
pub fn make_word_map_string(words: String) -> (r: WordMap)
    ensures
        r.wf(),
        r@ == index_words(lines_of(words@)),
{
    make_word_map(words.as_str())
}

} // verus!
