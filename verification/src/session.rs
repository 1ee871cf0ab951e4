//! The typing-test session: per-word replay logs and the key-driven
//! state machine that advances, retreats and judges words.

use vstd::prelude::*;

use crate::key::{replay, Key};
use crate::shims::{instant_now, string_pop, string_push};

verus! {

/// One recorded keystroke: the key as classified, tagged with the
/// wall-clock instant it was handled. Only character and backspace
/// keys are ever recorded.
pub struct TestEvent {
    pub time: std::time::Instant,
    pub key: Key,
}

/// A target word together with the ordered log of keystrokes applied
/// while it was active, and the verdict of its latest commit.
pub struct TestWord {
    pub text: String,
    pub events: Vec<TestEvent>,
    pub correct: bool,
}

/// Mathematical model of a `TestWord`: the target text, the keys of
/// the recorded events in order, and the verdict.
#[verifier::ext_equal]
pub ghost struct WordModel {
    pub text: Seq<char>,
    pub keys: Seq<Key>,
    pub correct: bool,
}

impl View for TestWord {
    type V = WordModel;

    open spec fn view(&self) -> WordModel {
        WordModel {
            text: self.text@,
            keys: self.events@.map_values(|e: TestEvent| e.key),
            correct: self.correct,
        }
    }
}

impl TestWord {
    /// A fresh record for one target word: empty log, not yet correct.
    pub fn new(text: String) -> (r: TestWord)
        ensures
            r@.text == text@,
            r@.keys == Seq::<Key>::empty(),
            r@.correct == false,
    {
        let r = TestWord { text, events: Vec::new(), correct: false };
        proof {
            assert(r@.keys =~= Seq::<Key>::empty());
        }
        r
    }

    /// Reconstructs the text this word's log replays to. Pure: the
    /// result is a function of the recorded events alone, so repeated
    /// calls on an unchanged record agree.
    pub fn entered_string(&self) -> (r: String)
        ensures
            r@ == replay(self@.keys),
    {
        let mut s = String::new();
        let n = self.events.len();
        let mut i: usize = 0;
        while i < n
            invariant
                i <= n,
                n == self.events@.len(),
                s@ == replay(self@.keys.take(i as int)),
            decreases n - i,
        {
            proof {
                assert(self@.keys.take(i + 1).drop_last() =~= self@.keys.take(i as int));
                assert(self@.keys.take(i + 1).last() == self.events@[i as int].key);
            }
            match self.events[i].key {
                Key::Character(c) => {
                    string_push(&mut s, c);
                }
                Key::Backspace => {
                    string_pop(&mut s);
                }
                Key::Commit => {},
                Key::Other => {},
            }
            i = i + 1;
        }
        proof {
            assert(self@.keys.take(n as int) =~= self@.keys);
        }
        s
    }
}

/// Mathematical model of a `Test`: the word models in order, the index
/// of the active word, the mirrored in-progress text, and whether every
/// word has been committed.
#[verifier::ext_equal]
pub ghost struct SessionModel {
    pub words: Seq<WordModel>,
    pub current_word: int,
    pub word_progress: Seq<char>,
    pub complete: bool,
}

impl SessionModel {
    /// Well-formedness, kept by every key the machine handles: the
    /// active index is in range; while the session runs, the progress
    /// mirror is exactly the replay of the active word's log and every
    /// word ahead of the active one replays to empty text (a word is
    /// only ever left forward after a commit, or backward once its
    /// progress has been erased); once complete, the cursor has been
    /// reset and the mirror cleared.
    pub open spec fn wf(self) -> bool {
        &&& self.words.len() > 0
        &&& 0 <= self.current_word < self.words.len()
        &&& !self.complete ==> self.word_progress == replay(
            self.words[self.current_word].keys,
        )
        &&& !self.complete ==> forall|j: int|
            self.current_word < j < self.words.len() ==> #[trigger] replay(
                self.words[j].keys,
            ).len() == 0
        &&& self.complete ==> self.current_word == 0 && self.word_progress.len() == 0
    }
}

/// The model of a freshly constructed session over the given target
/// texts: one unattempted word per text, cursor on the first word,
/// empty progress, not complete.
pub open spec fn init_model(texts: Seq<Seq<char>>) -> SessionModel {
    SessionModel {
        words: texts.map_values(
            |t: Seq<char>| WordModel { text: t, keys: Seq::empty(), correct: false },
        ),
        current_word: 0,
        word_progress: Seq::empty(),
        complete: false,
    }
}

/// Commit the active word: judge it by exact equality of the mirrored
/// progress against the target, clear the progress, then either finish
/// the session (resetting the cursor to the first word) if this was the
/// last word, or advance the cursor.
pub open spec fn commit_model(s: SessionModel) -> SessionModel {
    let w = s.words[s.current_word];
    let judged = WordModel { text: w.text, keys: w.keys, correct: s.word_progress == w.text };
    let words = s.words.update(s.current_word, judged);
    if s.current_word == s.words.len() - 1 {
        SessionModel { words, current_word: 0, word_progress: Seq::empty(), complete: true }
    } else {
        SessionModel {
            words,
            current_word: s.current_word + 1,
            word_progress: Seq::empty(),
            complete: false,
        }
    }
}

/// Navigate back one word, restoring the progress mirror from the
/// replay of that word's untouched log; at the first word this does
/// nothing.
pub open spec fn retreat_model(s: SessionModel) -> SessionModel {
    if s.current_word == 0 {
        s
    } else {
        SessionModel {
            words: s.words,
            current_word: s.current_word - 1,
            word_progress: replay(s.words[s.current_word - 1].keys),
            complete: s.complete,
        }
    }
}

/// Erase one character of the active word: the backspace is recorded
/// in the word's log and the last character of the progress mirror is
/// removed.
pub open spec fn erase_model(s: SessionModel) -> SessionModel {
    let w = s.words[s.current_word];
    let logged = WordModel { text: w.text, keys: w.keys.push(Key::Backspace), correct: w.correct };
    SessionModel {
        words: s.words.update(s.current_word, logged),
        current_word: s.current_word,
        word_progress: s.word_progress.drop_last(),
        complete: s.complete,
    }
}

/// Type one character into the active word: the keystroke is recorded
/// in the word's log and the character is appended to the progress
/// mirror.
pub open spec fn type_model(s: SessionModel, c: char) -> SessionModel {
    let w = s.words[s.current_word];
    let logged = WordModel {
        text: w.text,
        keys: w.keys.push(Key::Character(c)),
        correct: w.correct,
    };
    SessionModel {
        words: s.words.update(s.current_word, logged),
        current_word: s.current_word,
        word_progress: s.word_progress.push(c),
        complete: s.complete,
    }
}

/// The complete transition rule of the state machine, one keystroke at
/// a time. A completed session ignores every key; a commit key commits
/// only over non-empty progress and is otherwise ignored; a backspace
/// erases when progress is non-empty and navigates back when it is
/// empty; a character is always typed; any other key is ignored.
pub open spec fn step(s: SessionModel, key: Key) -> SessionModel {
    if s.complete {
        s
    } else {
        match key {
            Key::Commit => if s.word_progress.len() == 0 {
                s
            } else {
                commit_model(s)
            },
            Key::Backspace => if s.word_progress.len() == 0 {
                retreat_model(s)
            } else {
                erase_model(s)
            },
            Key::Character(c) => type_model(s, c),
            Key::Other => s,
        }
    }
}

/// Commit correctness: a commit key over non-empty progress judges
/// the active word by exact, case-sensitive string equality of the
/// mirrored progress against the target text — equal marks it correct,
/// any mismatch marks it incorrect.
pub proof fn lemma_commit_correctness(s: SessionModel)
    requires
        s.wf(),
        !s.complete,
        s.word_progress.len() > 0,
    ensures
        step(s, Key::Commit).words[s.current_word].correct == (s.word_progress
            == s.words[s.current_word].text),
{
}

/// Completion boundary: committing the final word completes the
/// session and resets the cursor to the first word; committing any
/// earlier word leaves the session running and advances the cursor by
/// one.
pub proof fn lemma_completion_boundary(s: SessionModel)
    requires
        s.wf(),
        !s.complete,
        s.word_progress.len() > 0,
    ensures
        s.current_word == s.words.len() - 1 ==> step(s, Key::Commit).complete && step(
            s,
            Key::Commit,
        ).current_word == 0,
        s.current_word < s.words.len() - 1 ==> !step(s, Key::Commit).complete && step(
            s,
            Key::Commit,
        ).current_word == s.current_word + 1,
{
}

/// Retreat restores state: a backspace over empty progress away from
/// the first word moves the cursor back one word and restores the
/// progress mirror to exactly the replay of that word's log, leaving
/// every word record untouched.
pub proof fn lemma_retreat_restores(s: SessionModel)
    requires
        s.wf(),
        !s.complete,
        s.word_progress.len() == 0,
        0 < s.current_word,
    ensures
        step(s, Key::Backspace).current_word == s.current_word - 1,
        step(s, Key::Backspace).word_progress == replay(s.words[s.current_word - 1].keys),
        step(s, Key::Backspace).words == s.words,
        step(s, Key::Backspace).complete == s.complete,
{
}

/// No-op guarantees: a backspace over empty progress at the first word
/// changes nothing, a commit key over empty progress changes nothing,
/// and an ignored key never changes anything.
pub proof fn lemma_noop_keys(s: SessionModel)
    ensures
        s.word_progress.len() == 0 && s.current_word == 0 ==> step(s, Key::Backspace) == s,
        s.word_progress.len() == 0 ==> step(s, Key::Commit) == s,
        step(s, Key::Other) == s,
{
}

/// Every key the machine handles keeps a well-formed session well
/// formed.
pub proof fn lemma_step_preserves_wf(s: SessionModel, key: Key)
    requires
        s.wf(),
    ensures
        step(s, key).wf(),
{
    if !s.complete {
        let cw = s.current_word;
        match key {
            Key::Commit => {
                if s.word_progress.len() != 0 {
                    let t = commit_model(s);
                    if cw < s.words.len() - 1 {
                        assert(replay(s.words[cw + 1].keys).len() == 0);
                        assert(t.words[cw + 1] == s.words[cw + 1]);
                        assert(t.word_progress =~= replay(t.words[t.current_word].keys));
                        assert forall|j: int|
                            t.current_word < j < t.words.len() implies #[trigger] replay(
                            t.words[j].keys,
                        ).len() == 0 by {
                            assert(t.words[j] == s.words[j]);
                            assert(replay(s.words[j].keys).len() == 0);
                        }
                    }
                }
            },
            Key::Backspace => {
                if s.word_progress.len() == 0 {
                    if cw != 0 {
                        let t = retreat_model(s);
                        assert forall|j: int|
                            t.current_word < j < t.words.len() implies #[trigger] replay(
                            t.words[j].keys,
                        ).len() == 0 by {
                            if j == cw {
                                assert(replay(s.words[cw].keys) == s.word_progress);
                            } else {
                                assert(replay(s.words[j].keys).len() == 0);
                            }
                        }
                    }
                } else {
                    let t = erase_model(s);
                    let w = s.words[cw];
                    assert(w.keys.push(Key::Backspace).drop_last() =~= w.keys);
                    assert(replay(w.keys.push(Key::Backspace)) == s.word_progress.drop_last());
                    assert forall|j: int|
                        t.current_word < j < t.words.len() implies #[trigger] replay(
                        t.words[j].keys,
                    ).len() == 0 by {
                        assert(t.words[j] == s.words[j]);
                        assert(replay(s.words[j].keys).len() == 0);
                    }
                }
            },
            Key::Character(c) => {
                let t = type_model(s, c);
                let w = s.words[cw];
                assert(w.keys.push(Key::Character(c)).drop_last() =~= w.keys);
                assert(replay(w.keys.push(Key::Character(c))) == s.word_progress.push(c));
                assert forall|j: int|
                    t.current_word < j < t.words.len() implies #[trigger] replay(
                    t.words[j].keys,
                ).len() == 0 by {
                    assert(t.words[j] == s.words[j]);
                    assert(replay(s.words[j].keys).len() == 0);
                }
            },
            Key::Other => {},
        }
    }
}

/// A typing-test session: the word records in order, the mirrored text
/// of the active word, the index of the active word, and whether every
/// word has been committed.
pub struct Test {
    pub words: Vec<TestWord>,
    pub word_progress: String,
    pub current_word: usize,
    pub complete: bool,
}

impl View for Test {
    type V = SessionModel;

    open spec fn view(&self) -> SessionModel {
        SessionModel {
            words: self.words@.map_values(|w: TestWord| w@),
            current_word: self.current_word as int,
            word_progress: self.word_progress@,
            complete: self.complete,
        }
    }
}

impl Test {
    /// A fresh session over the given target words, in order: every
    /// word unattempted, the first word active, nothing typed.
    pub fn new(words: &Vec<String>) -> (r: Test)
        requires
            words@.len() > 0,
        ensures
            r@ == init_model(words@.map_values(|t: String| t@)),
            r@.wf(),
    {
        let mut records: Vec<TestWord> = Vec::new();
        let n = words.len();
        let mut i: usize = 0;
        while i < n
            invariant
                i <= n,
                n == words@.len(),
                records@.len() == i,
                forall|j: int|
                    0 <= j < i ==> #[trigger] records@[j]@ == (WordModel {
                        text: words@[j]@,
                        keys: Seq::<Key>::empty(),
                        correct: false,
                    }),
            decreases n - i,
        {
            records.push(TestWord::new(words[i].clone()));
            i = i + 1;
        }
        let r = Test {
            words: records,
            word_progress: String::new(),
            current_word: 0,
            complete: false,
        };
        proof {
            assert(r@ =~~= init_model(words@.map_values(|t: String| t@)));
        }
        r
    }

    /// Handles one classified keystroke: the single mutating entry
    /// point. The whole transition is `step` of the model; in
    /// particular a completed session ignores every key, so driving
    /// the machine after completion cannot disturb the recorded words.
    pub fn handle_key(&mut self, key: Key)
        requires
            old(self)@.wf(),
        ensures
            final(self)@ == step(old(self)@, key),
            final(self)@.wf(),
    {
        proof {
            lemma_step_preserves_wf(old(self)@, key);
        }
        if self.complete {
            return;
        }
        match key {
            Key::Commit => {
                if !self.word_progress.as_str().is_empty() {
                    self.next_word();
                }
            },
            Key::Backspace => {
                if self.word_progress.as_str().is_empty() {
                    self.last_word();
                } else {
                    let cw = self.current_word;
                    let ev = TestEvent { time: instant_now(), key: Key::Backspace };
                    self.words[cw].events.push(ev);
                    string_pop(&mut self.word_progress);
                    proof {
                        assert(self@ =~~= erase_model(old(self)@));
                    }
                }
            },
            Key::Character(c) => {
                let cw = self.current_word;
                let ev = TestEvent { time: instant_now(), key: Key::Character(c) };
                self.words[cw].events.push(ev);
                string_push(&mut self.word_progress, c);
                proof {
                    assert(self@ =~~= type_model(old(self)@, c));
                }
            },
            Key::Other => {},
        }
    }

    /// Commit the active word and move forward, or finish the session
    /// on the last word.
    fn next_word(&mut self)
        requires
            old(self)@.wf(),
            !old(self).complete,
            old(self).word_progress@.len() > 0,
        ensures
            final(self)@ == commit_model(old(self)@),
    {
        let cw = self.current_word;
        let equal = self.word_progress == self.words[cw].text;
        self.words[cw].correct = equal;
        self.word_progress = String::new();
        if cw == self.words.len() - 1 {
            self.complete = true;
            self.current_word = 0;
        } else {
            self.current_word = cw + 1;
        }
        proof {
            assert(self@ =~~= commit_model(old(self)@));
        }
    }

    /// Navigate back one word and restore its previously typed text
    /// from the replay of its log; at the first word, do nothing.
    fn last_word(&mut self)
        requires
            old(self)@.wf(),
            !old(self).complete,
            old(self).word_progress@.len() == 0,
        ensures
            final(self)@ == retreat_model(old(self)@),
    {
        if self.current_word == 0 {
            return;
        }
        self.current_word = self.current_word - 1;
        let restored = self.words[self.current_word].entered_string();
        self.word_progress = restored;
        proof {
            assert(self@ =~~= retreat_model(old(self)@));
        }
    }
}

} // verus!
