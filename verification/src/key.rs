//! Classified keystrokes and the replay rule that reconstructs entered text.

use vstd::prelude::*;

verus! {

/// A keystroke, already classified by the input layer into the closed
/// set of categories the state machine cares about. The word-commit
/// category stands for space or newline; anything the machine ignores
/// arrives as `Other`.
#[derive(Clone, Copy)]
pub enum Key {
    /// A printable character.
    Character(char),
    /// Erase one character, or navigate back a word when nothing is typed.
    Backspace,
    /// Commit the active word (space or newline).
    Commit,
    /// Any other key; never changes state.
    Other,
}

/// The text a log of keystrokes reconstructs to, replayed in order from
/// the empty string: a character appends, a backspace removes the last
/// character if there is one, every other key is ignored.
pub open spec fn replay(keys: Seq<Key>) -> Seq<char>
    decreases keys.len(),
{
    if keys.len() == 0 {
        Seq::empty()
    } else {
        let prefix = replay(keys.drop_last());
        match keys.last() {
            Key::Character(c) => prefix.push(c),
            Key::Backspace => if prefix.len() == 0 {
                prefix
            } else {
                prefix.drop_last()
            },
            Key::Commit => prefix,
            Key::Other => prefix,
        }
    }
}

/// Round trip: appending a character keystroke and then a backspace
/// keystroke to a log leaves the replayed text unchanged.
pub proof fn lemma_replay_round_trip(keys: Seq<Key>, c: char)
    ensures
        replay(keys.push(Key::Character(c)).push(Key::Backspace)) == replay(keys),
{
    let with_char = keys.push(Key::Character(c));
    let with_both = with_char.push(Key::Backspace);
    assert(with_both.drop_last() =~= with_char);
    assert(with_char.drop_last() =~= keys);
    assert(replay(with_char) == replay(keys).push(c));
    assert(replay(with_both) =~= replay(keys));
}

/// Replaying is deterministic: reconstruction depends on the log alone,
/// so two reconstructions of one unchanged log are identical.
pub proof fn lemma_replay_deterministic(keys: Seq<Key>, first: Seq<char>, second: Seq<char>)
    requires
        first == replay(keys),
        second == replay(keys),
    ensures
        first == second,
{
}

} // verus!
