use typetest::key::Key;
use typetest::session::Test;

fn session(words: &[&str]) -> Test {
    let owned: Vec<String> = words.iter().map(|w| w.to_string()).collect();
    Test::new(&owned)
}

fn type_chars(t: &mut Test, s: &str) {
    for c in s.chars() {
        t.handle_key(Key::Character(c));
    }
}

#[test]
fn fresh_session_state() {
    let t = session(&["cat", "dog"]);
    assert_eq!(t.current_word, 0);
    assert_eq!(t.word_progress, "");
    assert!(!t.complete);
    assert_eq!(t.words.len(), 2);
    assert_eq!(t.words[0].text, "cat");
    assert_eq!(t.words[1].text, "dog");
    assert!(!t.words[0].correct);
    assert!(t.words[0].events.is_empty());
    assert_eq!(t.words[0].entered_string(), "");
}

#[test]
fn round_trip_append_then_backspace() {
    let t = &mut session(&["abc"]);
    type_chars(t, "ab");
    t.handle_key(Key::Character('z'));
    t.handle_key(Key::Backspace);
    assert_eq!(t.word_progress, "ab");
    assert_eq!(t.words[0].entered_string(), "ab");
    assert_eq!(t.words[0].events.len(), 4);
}

#[test]
fn entered_string_idempotent() {
    let t = &mut session(&["abc"]);
    type_chars(t, "axb");
    t.handle_key(Key::Backspace);
    let first = t.words[0].entered_string();
    let second = t.words[0].entered_string();
    assert_eq!(first, second);
    assert_eq!(first, "ax");
}

#[test]
fn commit_exact_match_is_correct() {
    let t = &mut session(&["cat", "dog"]);
    type_chars(t, "cat");
    t.handle_key(Key::Commit);
    assert!(t.words[0].correct);
}

#[test]
fn commit_case_difference_is_incorrect() {
    let t = &mut session(&["cat", "dog"]);
    type_chars(t, "Cat");
    t.handle_key(Key::Commit);
    assert!(!t.words[0].correct);
}

#[test]
fn commit_trailing_character_is_incorrect() {
    let t = &mut session(&["cat", "dog"]);
    type_chars(t, "cats");
    t.handle_key(Key::Commit);
    assert!(!t.words[0].correct);
}

#[test]
fn commit_non_final_word_advances() {
    let t = &mut session(&["aa", "bb"]);
    type_chars(t, "aa");
    t.handle_key(Key::Commit);
    assert!(!t.complete);
    assert_eq!(t.current_word, 1);
    assert_eq!(t.word_progress, "");
}

#[test]
fn commit_final_word_completes_and_resets_cursor() {
    let t = &mut session(&["aa", "bb"]);
    type_chars(t, "aa");
    t.handle_key(Key::Commit);
    type_chars(t, "bb");
    t.handle_key(Key::Commit);
    assert!(t.complete);
    assert_eq!(t.current_word, 0);
    assert_eq!(t.word_progress, "");
}

#[test]
fn retreat_restores_previous_word_progress() {
    let t = &mut session(&["ab", "cd"]);
    type_chars(t, "ab");
    t.handle_key(Key::Commit);
    t.handle_key(Key::Character('x'));
    t.handle_key(Key::Backspace);
    assert_eq!(t.word_progress, "");
    assert_eq!(t.current_word, 1);
    t.handle_key(Key::Backspace);
    assert_eq!(t.current_word, 0);
    assert_eq!(t.word_progress, "ab");
    assert_eq!(t.words[1].entered_string(), "");
}

#[test]
fn backspace_on_empty_progress_at_first_word_is_noop() {
    let t = &mut session(&["cat"]);
    t.handle_key(Key::Backspace);
    assert_eq!(t.current_word, 0);
    assert_eq!(t.word_progress, "");
    assert!(!t.complete);
    assert!(t.words[0].events.is_empty());
}

#[test]
fn commit_key_on_empty_progress_is_noop() {
    let t = &mut session(&["cat"]);
    t.handle_key(Key::Commit);
    assert_eq!(t.current_word, 0);
    assert_eq!(t.word_progress, "");
    assert!(!t.complete);
    assert!(t.words[0].events.is_empty());
}

#[test]
fn other_key_is_ignored() {
    let t = &mut session(&["cat"]);
    type_chars(t, "ca");
    t.handle_key(Key::Other);
    assert_eq!(t.word_progress, "ca");
    assert_eq!(t.words[0].events.len(), 2);
}

#[test]
fn two_words_typed_correctly_end_to_end() {
    let t = &mut session(&["cat", "dog"]);
    type_chars(t, "cat");
    t.handle_key(Key::Commit);
    type_chars(t, "dog");
    t.handle_key(Key::Commit);
    assert!(t.words[0].correct);
    assert_eq!(t.words[0].entered_string(), "cat");
    assert!(t.words[1].correct);
    assert_eq!(t.words[1].entered_string(), "dog");
    assert!(t.complete);
    assert_eq!(t.current_word, 0);
}

#[test]
fn committing_partial_word_completes_as_incorrect() {
    let t = &mut session(&["cat"]);
    type_chars(t, "ca");
    t.handle_key(Key::Commit);
    assert!(!t.words[0].correct);
    assert!(t.complete);
    assert_eq!(t.current_word, 0);
}

#[test]
fn backspace_erases_then_stops_at_first_word() {
    let t = &mut session(&["ab", "cd"]);
    t.handle_key(Key::Character('a'));
    t.handle_key(Key::Character('x'));
    assert_eq!(t.word_progress, "ax");
    t.handle_key(Key::Backspace);
    assert_eq!(t.word_progress, "a");
    t.handle_key(Key::Backspace);
    assert_eq!(t.word_progress, "");
    t.handle_key(Key::Backspace);
    assert_eq!(t.current_word, 0);
    assert_eq!(t.word_progress, "");
}

#[test]
fn recommit_after_retreat_overwrites_verdict() {
    let t = &mut session(&["ab", "cd"]);
    type_chars(t, "x");
    t.handle_key(Key::Commit);
    assert!(!t.words[0].correct);
    assert_eq!(t.current_word, 1);
    t.handle_key(Key::Backspace);
    assert_eq!(t.current_word, 0);
    assert_eq!(t.word_progress, "x");
    t.handle_key(Key::Backspace);
    type_chars(t, "ab");
    t.handle_key(Key::Commit);
    assert!(t.words[0].correct);
    assert_eq!(t.words[0].entered_string(), "ab");
    assert_eq!(t.current_word, 1);
}

#[test]
fn keys_after_completion_change_nothing() {
    let t = &mut session(&["a"]);
    type_chars(t, "a");
    t.handle_key(Key::Commit);
    assert!(t.complete);
    t.handle_key(Key::Character('z'));
    t.handle_key(Key::Backspace);
    t.handle_key(Key::Commit);
    assert!(t.complete);
    assert_eq!(t.current_word, 0);
    assert_eq!(t.word_progress, "");
    assert_eq!(t.words[0].entered_string(), "a");
    assert_eq!(t.words[0].events.len(), 1);
}
