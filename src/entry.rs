//! The text entry being typed and the answer shown for it.

use vstd::prelude::*;
use crate::wordmap::group_view;

verus! {

/// A key released by the user, as the entry logic sees it.
#[derive(Debug, Clone, Copy, PartialEq, Eq, Structural)]
pub enum KeyEvent {
    Backspace,
    Delete,
    Escape,
    Letter(char),
    Other,
}

/// Whether the text entry was changed by a batch of keys.
#[derive(Debug, Clone, Copy, PartialEq, Eq, Structural)]
pub enum EntryStatus {
    Changed,
    Unchanged,
    Quit,
}

/// The letters among `keys`, in order.
pub open spec fn letters(keys: Seq<KeyEvent>) -> Seq<char>
    decreases keys.len(),
{
    if keys.len() == 0 {
        Seq::empty()
    } else {
        let rest = letters(keys.drop_last());
        match keys.last() {
            KeyEvent::Letter(c) => rest.push(c),
            _ => rest,
        }
    }
}

/// The entry and status after a batch of released keys. Backspace takes
/// precedence, then Delete, then Escape; otherwise the letters among the first
/// keys are appended, taking no more keys than the room left below `maxlen`.
pub open spec fn edit_entry(entry: Seq<char>, keys: Seq<KeyEvent>, maxlen: int) -> (Seq<char>, EntryStatus) {
    if keys.len() == 0 {
        (entry, EntryStatus::Unchanged)
    } else if keys.contains(KeyEvent::Backspace) {
        (if entry.len() > 0 { entry.drop_last() } else { entry }, EntryStatus::Changed)
    } else if keys.contains(KeyEvent::Delete) {
        (Seq::empty(), EntryStatus::Changed)
    } else if keys.contains(KeyEvent::Escape) {
        (entry, EntryStatus::Quit)
    } else {
        let room = if maxlen > entry.len() { maxlen - entry.len() } else { 0 };
        let n = if room < keys.len() { room } else { keys.len() as int };
        (entry + letters(keys.take(n)), EntryStatus::Changed)
    }
}

/// The answer shown for a lookup result: the word of a group of exactly one;
/// nothing when there is no group, or when several words are candidates.
pub open spec fn answer_of(g: Option<Seq<Seq<char>>>) -> Option<Seq<char>> {
    match g {
        Some(ws) => if ws.len() == 1 { Some(ws[0]) } else { None },
        None => None,
    }
}

/// Relies on String::push: appends `c` at the end.
#[verifier::external_body]
fn push_char(s: &mut String, c: char)
    ensures
        final(s)@ == old(s)@.push(c),
{
    s.push(c);
}

/// Relies on String::pop: removes the last character, if there is one.
#[verifier::external_body]
fn pop_char(s: &mut String) -> (r: Option<char>)
    ensures
        old(s)@.len() == 0 ==> r is None && final(s)@ == old(s)@,
        old(s)@.len() > 0 ==> r == Some(old(s)@.last()) && final(s)@ == old(s)@.drop_last(),
{
    s.pop()
}

/// Applies a batch of released keys to the text entry.
pub fn handle_keys(entry: &mut String, keys: &Vec<KeyEvent>, maxlen: usize) -> (r: EntryStatus)
    ensures
        (final(entry)@, r) == edit_entry(old(entry)@, keys@, maxlen as int),
{
    let n = keys.len();
    if n == 0 {
        return EntryStatus::Unchanged;
    }
    let mut backspace = false;
    let mut delete = false;
    let mut escape = false;
    let mut i: usize = 0;
    while i < n
        invariant
            n == keys@.len(),
            i <= n,
            backspace <==> keys@.take(i as int).contains(KeyEvent::Backspace),
            delete <==> keys@.take(i as int).contains(KeyEvent::Delete),
            escape <==> keys@.take(i as int).contains(KeyEvent::Escape),
        decreases n - i,
    {
        proof {
            let t = keys@.take(i + 1);
            assert(t[i as int] == keys@[i as int]);
            assert(forall|k: KeyEvent| t.contains(k) <==> (keys@.take(i as int).contains(k) || keys@[i as int] == k)) by {
                assert forall|k: KeyEvent| t.contains(k) implies (keys@.take(i as int).contains(k) || keys@[i as int] == k) by {
                    let j = choose|j: int| 0 <= j < t.len() && t[j] == k;
                    if j < i {
                        assert(keys@.take(i as int)[j] == k);
                    }
                }
                assert forall|k: KeyEvent| keys@.take(i as int).contains(k) implies t.contains(k) by {
                    let j = choose|j: int| 0 <= j < i && keys@.take(i as int)[j] == k;
                    assert(t[j] == k);
                }
            }
        }
        match keys[i] {
            KeyEvent::Backspace => { backspace = true; },
            KeyEvent::Delete => { delete = true; },
            KeyEvent::Escape => { escape = true; },
            _ => {},
        }
        i = i + 1;
    }
    proof {
        assert(keys@.take(n as int) =~= keys@);
    }
    if backspace {
        pop_char(entry);
        return EntryStatus::Changed;
    }
    if delete {
        *entry = String::new();
        return EntryStatus::Changed;
    }
    if escape {
        return EntryStatus::Quit;
    }
    let len = entry.as_str().unicode_len();
    let room: usize = if maxlen > len { maxlen - len } else { 0 };
    let take: usize = if room < n { room } else { n };
    let ghost start = old(entry)@;
    let mut j: usize = 0;
    while j < take
        invariant
            take <= n == keys@.len(),
            j <= take,
            entry@ == start + letters(keys@.take(j as int)),
        decreases take - j,
    {
        proof {
            assert(keys@.take(j + 1).drop_last() =~= keys@.take(j as int));
            assert(keys@.take(j + 1).last() == keys@[j as int]);
        }
        match keys[j] {
            KeyEvent::Letter(c) => {
                push_char(entry, c);
                proof {
                    assert(start + letters(keys@.take(j + 1)) =~= (start + letters(keys@.take(j as int))).push(c));
                }
            },
            _ => {},
        }
        j = j + 1;
    }
    EntryStatus::Changed
}

/// The answer to show for a lookup result (see `answer_of`).
pub fn displayed_answer(matches: Option<&Vec<String>>) -> (r: Option<String>)
    ensures
        match r {
            Some(s) => Some(s@),
            None => None::<Seq<char>>,
        } == answer_of(group_view(matches)),
{
    match matches {
        Some(m) => {
            if m.len() == 1 {
                Some(m[0].clone())
            } else {
                None
            }
        },
        None => None,
    }
}

} // verus!
