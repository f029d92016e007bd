use hangman::game::Secret;
use hangman::loopstep::handle_message;
use hangman::loopstep::usize_to_string;
use hangman::norm::normalize_char;
use hangman::words::get_words;
use hangman::words::load_words;
use hangman::words::ConfigurationError;

#[test]
fn normalize_folds_and_uppercases() {
    assert_eq!(normalize_char('é'), 'E');
    assert_eq!(normalize_char('Å'), 'A');
    assert_eq!(normalize_char('a'), 'A');
    assert_eq!(normalize_char('Z'), 'Z');
    assert_eq!(normalize_char('3'), '3');
}

#[test]
fn get_words_splits_on_any_whitespace() {
    let words = get_words("  foo bar\nbaz\tqux ");
    assert_eq!(words, vec!["foo", "bar", "baz", "qux"]);
}

#[test]
fn get_words_of_blank_text_is_empty() {
    assert!(get_words("").is_empty());
    assert!(get_words(" \n\t ").is_empty());
}

#[test]
fn load_words_rejects_an_empty_list() {
    assert_eq!(load_words(" \n"), Err(ConfigurationError::EmptyWordList));
    let words = load_words("dog cat").unwrap();
    assert_eq!(words, vec!["dog", "cat"]);
}

#[test]
fn counts_render_in_decimal() {
    assert_eq!(usize_to_string(0), "0");
    assert_eq!(usize_to_string(7), "7");
    assert_eq!(usize_to_string(907), "907");
}

#[test]
fn multi_character_message_is_ignored() {
    let words = vec![String::from("dog")];
    let mut s = Secret::from("dog");
    let out = handle_message(&mut s, &words, "hello", "alice");
    assert!(out.is_empty());
    assert_eq!(s.tries, 0);
    assert!(s.found.is_empty());
    assert!(s.tried.is_empty());
    assert_eq!(s.render(), "---");
}

#[test]
fn empty_message_is_ignored() {
    let words = vec![String::from("dog")];
    let mut s = Secret::from("dog");
    let out = handle_message(&mut s, &words, "", "alice");
    assert!(out.is_empty());
    assert_eq!(s.tries, 0);
}

#[test]
fn a_guess_echoes_the_state_with_the_author() {
    let words = vec![String::from("ab")];
    let mut s = Secret::from("ab");
    let out = handle_message(&mut s, &words, "a", "alice");
    assert_eq!(out, vec!["a- - alice"]);
    assert_eq!(s.tries, 1);
}

#[test]
fn solving_announces_and_starts_a_new_round() {
    let words = vec![String::from("ab")];
    let mut s = Secret::from("ab");
    let _ = handle_message(&mut s, &words, "a", "alice");
    let out = handle_message(&mut s, &words, "b", "bob");
    assert_eq!(
        out,
        vec!["ab - bob", "Solved in 2 tries!", "New word!", "--"]
    );
    // the round was replaced by a fresh one for the drawn word
    assert_eq!(s.word, vec!['a', 'b']);
    assert_eq!(s.tries, 0);
    assert!(!s.is_solved());
}

#[test]
fn an_accented_one_character_message_counts_as_a_guess() {
    let words = vec![String::from("café")];
    let mut s = Secret::from("café");
    let out = handle_message(&mut s, &words, "é", "carol");
    assert_eq!(out, vec!["---é - carol"]);
    assert_eq!(s.found, vec!['E']);
}
