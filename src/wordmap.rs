//! The anagram index: canonical key to the group of words that share it.

use vstd::prelude::*;
use crate::canonical::{canonical, canonicalize};

verus! {

/// The character sequences of a list of strings.
pub open spec fn words_view(v: Seq<String>) -> Seq<Seq<char>> {
    v.map_values(|s: String| s@)
}

/// The group a lookup hands back, as character sequences.
pub open spec fn group_view(r: Option<&Vec<String>>) -> Option<Seq<Seq<char>>> {
    match r {
        Some(g) => Some(words_view(g@)),
        None => None,
    }
}

/// The index after `word` is filed under `key`: appended to the key's group,
/// or starting a new group.
pub open spec fn add_word(
    m: Map<Seq<char>, Seq<Seq<char>>>,
    key: Seq<char>,
    word: Seq<char>,
) -> Map<Seq<char>, Seq<Seq<char>>> {
    if m.contains_key(key) {
        m.insert(key, m[key].push(word))
    } else {
        m.insert(key, seq![word])
    }
}

/// The index of a word list: each word filed under its canonical key, in list order.
pub open spec fn index_words(ws: Seq<Seq<char>>) -> Map<Seq<char>, Seq<Seq<char>>>
    decreases ws.len(),
{
    if ws.len() == 0 {
        Map::empty()
    } else {
        add_word(index_words(ws.drop_last()), canonical(ws.last()), ws.last())
    }
}

/// What a lookup reports: nothing when the query's length is outside
/// `[min, max]`, else the group under the query's canonical key, if any.
pub open spec fn lookup(
    m: Map<Seq<char>, Seq<Seq<char>>>,
    q: Seq<char>,
    min: int,
    max: int,
) -> Option<Seq<Seq<char>>> {
    if q.len() < min || q.len() > max {
        None
    } else if m.contains_key(canonical(q)) {
        Some(m[canonical(q)])
    } else {
        None
    }
}

/// The words that have `k` as their canonical key.
pub open spec fn has_key(k: Seq<char>) -> spec_fn(Seq<char>) -> bool {
    |w: Seq<char>| canonical(w) == k
}

/// In the index of a word list, a key is present exactly when some listed word
/// has it, and its group is exactly the listed words that have it, in list
/// order (repeated words included).
pub proof fn lemma_index_groups_exact(ws: Seq<Seq<char>>, k: Seq<char>)
    ensures
        index_words(ws).contains_key(k) <==> ws.filter(has_key(k)).len() > 0,
        index_words(ws).contains_key(k) ==> index_words(ws)[k] == ws.filter(has_key(k)),
    decreases ws.len(),
{
    reveal(Seq::filter);
    if ws.len() > 0 {
        lemma_index_groups_exact(ws.drop_last(), k);
    }
}

/// After building the index of a word list, looking up any listed word, with
/// bounds that admit its length, reports a group that contains the word.
pub proof fn lemma_group_correctness(ws: Seq<Seq<char>>, i: int, min: int, max: int)
    requires
        0 <= i < ws.len(),
        min <= ws[i].len() <= max,
    ensures
        lookup(index_words(ws), ws[i], min, max) is Some,
        lookup(index_words(ws), ws[i], min, max)->0.contains(ws[i]),
{
    let k = canonical(ws[i]);
    lemma_index_groups_exact(ws, k);
    ws.filter_lemma(has_key(k));
    assert(ws.filter(has_key(k)).contains(ws[i]));
}

/// A query whose length lies outside `[min, max]` gets no result, whatever the
/// index holds.
pub proof fn lemma_length_gate(m: Map<Seq<char>, Seq<Seq<char>>>, q: Seq<char>, min: int, max: int)
    requires
        q.len() < min || q.len() > max,
    ensures
        lookup(m, q, min, max) is None,
{
}

/// Two lookups of one query with the same bounds on an unchanged index report
/// the same result.
pub proof fn lemma_lookup_deterministic(
    m: Map<Seq<char>, Seq<Seq<char>>>,
    q: Seq<char>,
    min: int,
    max: int,
    r1: Option<Seq<Seq<char>>>,
    r2: Option<Seq<Seq<char>>>,
)
    requires
        r1 == lookup(m, q, min, max),
        r2 == lookup(m, q, min, max),
    ensures
        r1 == r2,
{
}

/// Stores words in {ordered word, [actual words]} form: each key is the
/// characters of its words in ascending order.
pub struct WordMap {
    keys: Vec<String>,
    groups: Vec<Vec<String>>,
}

impl View for WordMap {
    type V = Map<Seq<char>, Seq<Seq<char>>>;

    closed spec fn view(&self) -> Map<Seq<char>, Seq<Seq<char>>> {
        Map::new(
            |k: Seq<char>| self.key_seq().contains(k),
            |k: Seq<char>| self.group_seq()[self.key_seq().index_of(k)],
        )
    }
}

impl WordMap {
    spec fn key_seq(&self) -> Seq<Seq<char>> {
        words_view(self.keys@)
    }

    spec fn group_seq(&self) -> Seq<Seq<Seq<char>>> {
        self.groups@.map_values(|g: Vec<String>| words_view(g@))
    }

    /// Keys and groups pair up one to one, and no key is stored twice.
    pub closed spec fn wf(&self) -> bool {
        &&& self.keys@.len() == self.groups@.len()
        &&& self.key_seq().no_duplicates()
    }

    proof fn lemma_view(&self)
        requires
            self.wf(),
        ensures
            forall|k: Seq<char>| #[trigger] self@.contains_key(k) <==> self.key_seq().contains(k),
            forall|i: int|
                0 <= i < self.keys@.len() ==> #[trigger] self@[self.key_seq()[i]]
                    == self.group_seq()[i],
            self@.dom() == self.key_seq().to_set(),
    {
        assert forall|i: int| 0 <= i < self.keys@.len() implies #[trigger] self@[self.key_seq()[i]]
            == self.group_seq()[i] by {
            let k = self.key_seq()[i];
            assert(self.key_seq().contains(k));
            let j = self.key_seq().index_of(k);
            assert(self.key_seq()[j] == k);
        }
        assert(self@.dom() =~= self.key_seq().to_set());
    }

    /// Creates an empty `WordMap`.
    pub fn new() -> (r: Self)
        ensures
            r.wf(),
            r@ == Map::<Seq<char>, Seq<Seq<char>>>::empty(),
    {
        let r = WordMap { keys: Vec::new(), groups: Vec::new() };
        assert(r@ =~= Map::<Seq<char>, Seq<Seq<char>>>::empty());
        r
    }

    /// Where `key` is stored, if it is.
    fn position(&self, key: &String) -> (r: Option<usize>)
        requires
            self.wf(),
        ensures
            match r {
                Some(i) => i < self.keys@.len() && self.key_seq()[i as int] == key@,
                None => !self.key_seq().contains(key@),
            },
    {
        let mut i: usize = 0;
        while i < self.keys.len()
            invariant
                self.wf(),
                i <= self.keys@.len(),
                forall|j: int| 0 <= j < i ==> self.key_seq()[j] != key@,
            decreases self.keys@.len() - i,
        {
            if self.keys[i] == *key {
                return Some(i);
            }
            i = i + 1;
        }
        None
    }

    /// Files `unsorted` under the key `sorted`: appended to that key's group if
    /// the key is present, else as the first word of a new group.
    pub fn insert(&mut self, sorted: String, unsorted: String)
        requires
            old(self).wf(),
        ensures
            final(self).wf(),
            final(self)@ == add_word(old(self)@, sorted@, unsorted@),
    {
        proof {
            self.lemma_view();
        }
        match self.position(&sorted) {
            Some(i) => {
                self.groups[i].push(unsorted);
                proof {
                    assert(self.key_seq() =~= old(self).key_seq());
                    assert(words_view(self.groups@[i as int]@) =~= words_view(
                        old(self).groups@[i as int]@,
                    ).push(unsorted@));
                    assert(self.group_seq() =~= old(self).group_seq().update(
                        i as int,
                        old(self).group_seq()[i as int].push(unsorted@),
                    ));
                    self.lemma_view();
                    assert forall|k: Seq<char>| #[trigger] self@.contains_key(k) implies self@[k]
                        == add_word(old(self)@, sorted@, unsorted@)[k] by {
                        let j = choose|j: int|
                            0 <= j < self.keys@.len() && self.key_seq()[j] == k;
                        assert(self@[self.key_seq()[j]] == self.group_seq()[j]);
                        assert(old(self)@[old(self).key_seq()[j]] == old(self).group_seq()[j]);
                    }
                    assert(self@ =~= add_word(old(self)@, sorted@, unsorted@));
                }
            },
            None => {
                self.keys.push(sorted);
                self.groups.push(vec![unsorted]);
                proof {
                    let n = old(self).keys@.len() as int;
                    assert(self.key_seq() =~= old(self).key_seq().push(sorted@));
                    assert(words_view(self.groups@[n]@) =~= seq![unsorted@]);
                    assert(self.group_seq() =~= old(self).group_seq().push(seq![unsorted@]));
                    assert(self.key_seq()[n] == sorted@);
                    self.lemma_view();
                    assert forall|k: Seq<char>| #[trigger] self@.contains_key(k) implies self@[k]
                        == add_word(old(self)@, sorted@, unsorted@)[k] by {
                        let j = choose|j: int|
                            0 <= j < self.keys@.len() && self.key_seq()[j] == k;
                        assert(self@[self.key_seq()[j]] == self.group_seq()[j]);
                        if j < n {
                            assert(old(self)@[old(self).key_seq()[j]]
                                == old(self).group_seq()[j]);
                        }
                    }
                    assert forall|k: Seq<char>| #[trigger] old(self)@.contains_key(k) implies self@.contains_key(k) by {
                        let j = choose|j: int|
                            0 <= j < old(self).keys@.len() && old(self).key_seq()[j] == k;
                        assert(self.key_seq()[j] == k);
                    }
                    assert(self@.contains_key(sorted@));
                    assert(self@ =~= add_word(old(self)@, sorted@, unsorted@));
                }
            },
        }
    }

    /// The words, if any, that are anagrams of the query `q`, provided that the
    /// query's length (in characters) lies in `[minlen, maxlen]`.
    pub fn find_match(&self, q: &str, minlen: usize, maxlen: usize) -> (r: Option<&Vec<String>>)
        requires
            self.wf(),
        ensures
            group_view(r) == lookup(self@, q@, minlen as int, maxlen as int),
    {
        let n = q.unicode_len();
        if n < minlen || n > maxlen {
            return None;
        }
        let sorted_q = canonicalize(q);
        proof {
            self.lemma_view();
        }
        match self.position(&sorted_q) {
            Some(i) => {
                proof {
                    assert(self@[self.key_seq()[i as int]] == self.group_seq()[i as int]);
                }
                Some(&self.groups[i])
            },
            None => None,
        }
    }

    /// Every (key, group) entry of the map, each once.
    pub fn iter(&self) -> (r: Vec<(&String, &Vec<String>)>)
        requires
            self.wf(),
        ensures
            r@.len() == self@.dom().len(),
            forall|i: int|
                0 <= i < r@.len() ==> #[trigger] self@.contains_key(r@[i].0@) && self@[r@[i].0@]
                    == words_view(r@[i].1@),
            forall|k: Seq<char>|
                #[trigger] self@.contains_key(k) ==> exists|i: int|
                    0 <= i < r@.len() && r@[i].0@ == k,
    {
        proof {
            self.lemma_view();
            self.key_seq().unique_seq_to_set();
        }
        let mut r: Vec<(&String, &Vec<String>)> = Vec::new();
        let mut i: usize = 0;
        while i < self.keys.len()
            invariant
                self.wf(),
                i <= self.keys@.len(),
                r@.len() == i,
                forall|j: int|
                    0 <= j < i ==> (#[trigger] r@[j]).0@ == self.key_seq()[j] && words_view(
                        r@[j].1@,
                    ) == self.group_seq()[j],
            decreases self.keys@.len() - i,
        {
            r.push((&self.keys[i], &self.groups[i]));
            i = i + 1;
        }
        proof {
            assert forall|j: int| 0 <= j < r@.len() implies #[trigger] self@.contains_key(
                r@[j].0@,
            ) && self@[r@[j].0@] == words_view(r@[j].1@) by {
                assert(self.key_seq().contains(self.key_seq()[j]));
                assert(self@[self.key_seq()[j]] == self.group_seq()[j]);
            }
            assert forall|k: Seq<char>| #[trigger] self@.contains_key(k) implies exists|j: int|
                0 <= j < r@.len() && r@[j].0@ == k by {
                let j = choose|j: int| 0 <= j < self.keys@.len() && self.key_seq()[j] == k;
                assert(r@[j].0@ == k);
            }
        }
        r
    }

    /// The number of keys (groups of anagrams) in the map.
    pub fn len(&self) -> (r: usize)
        requires
            self.wf(),
        ensures
            r == self@.dom().len(),
    {
        proof {
            self.lemma_view();
            self.key_seq().unique_seq_to_set();
        }
        self.keys.len()
    }

    /// Builds the index of a word list: each word filed under its canonical key.
    pub fn build(words: &Vec<String>) -> (r: Self)
        ensures
            r.wf(),
            r@ == index_words(words_view(words@)),
    {
        let mut map = WordMap::new();
        let mut i: usize = 0;
        while i < words.len()
            invariant
                map.wf(),
                i <= words@.len(),
                map@ == index_words(words_view(words@).take(i as int)),
            decreases words@.len() - i,
        {
            let word = words[i].clone();
            let key = canonicalize(word.as_str());
            map.insert(key, word);
            proof {
                let ws = words_view(words@);
                assert(ws.take(i + 1).drop_last() =~= ws.take(i as int));
                assert(ws.take(i + 1).last() == words@[i as int]@);
            }
            i = i + 1;
        }
        proof {
            assert(words_view(words@).take(words@.len() as int) =~= words_view(words@));
        }
        map
    }
}

/// A dictionary held as one `WordMap` per word length, `0..=max_word_len`.
pub struct WordMaps {
    pub maps: Vec<WordMap>,
}

impl WordMaps {
    /// Creates `max_word_len + 1` empty word maps.
    pub fn new(max_word_len: usize) -> (r: Self)
        requires
            max_word_len < usize::MAX,
        ensures
            r.maps@.len() == max_word_len + 1,
            forall|i: int|
                0 <= i < r.maps@.len() ==> (#[trigger] r.maps@[i]).wf() && r.maps@[i]@
                    == Map::<Seq<char>, Seq<Seq<char>>>::empty(),
    {
        let mut maps: Vec<WordMap> = Vec::new();
        let mut i: usize = 0;
        while i < max_word_len + 1
            invariant
                i <= max_word_len + 1,
                max_word_len < usize::MAX,
                maps@.len() == i,
                forall|j: int|
                    0 <= j < i ==> (#[trigger] maps@[j]).wf() && maps@[j]@ == Map::<
                        Seq<char>,
                        Seq<Seq<char>>,
                    >::empty(),
            decreases max_word_len + 1 - i,
        {
            let wm = WordMap::new();
            maps.push(wm);
            i = i + 1;
        }
        WordMaps { maps }
    }
}

} // verus!
