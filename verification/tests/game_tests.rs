use hangman::game::Secret;

#[test]
fn fresh_round_is_fully_masked() {
    let s = Secret::from("dog");
    assert_eq!(s.render(), "---");
    assert_eq!(s.tries, 0);
    assert!(s.found.is_empty());
    assert!(s.tried.is_empty());
    assert!(!s.is_solved());
}

#[test]
fn empty_word_starts_solved() {
    let s = Secret::from("");
    assert_eq!(s.render(), "");
    assert!(s.is_solved());
}

#[test]
fn cafe_scenario() {
    let mut s = Secret::from("café");
    assert_eq!(s.render(), "----");
    s.guess('F');
    assert_eq!(s.render(), "--f-");
    assert_eq!(s.tries, 1);
    s.guess('A');
    assert_eq!(s.render(), "-af-");
    assert_eq!(s.tries, 2);
    s.guess('X');
    assert_eq!(s.render(), "-af- / X");
    assert_eq!(s.tries, 3);
    assert!(!s.is_solved());
    s.guess('C');
    assert_eq!(s.render(), "caf- / X");
    assert_eq!(s.tries, 4);
    s.guess('E');
    assert_eq!(s.render(), "café / X");
    assert_eq!(s.tries, 5);
    assert!(s.is_solved());
}

#[test]
fn repeated_hit_still_counts() {
    let mut s = Secret::from("dog");
    s.guess('O');
    assert_eq!(s.tries, 1);
    assert_eq!(s.found, vec!['O']);
    assert_eq!(s.render(), "-o-");
    s.guess('O');
    assert_eq!(s.tries, 2);
    s.guess('O');
    assert_eq!(s.tries, 3);
    assert_eq!(s.found, vec!['O']);
    assert!(s.tried.is_empty());
    assert_eq!(s.render(), "-o-");
}

#[test]
fn repeated_miss_is_free() {
    let mut s = Secret::from("dog");
    s.guess('x');
    assert_eq!(s.tries, 1);
    assert_eq!(s.tried, vec!['X']);
    assert!(s.found.is_empty());
    s.guess('x');
    assert_eq!(s.tries, 1);
    assert_eq!(s.tried, vec!['X']);
}

#[test]
fn fresh_miss_goes_to_tried_not_found() {
    let mut s = Secret::from("dog");
    s.guess('Q');
    assert_eq!(s.tries, 1);
    assert_eq!(s.tried, vec!['Q']);
    assert!(s.found.is_empty());
    assert_eq!(s.render(), "--- / Q");
}

#[test]
fn accented_guess_matches_plain_letter() {
    let mut s = Secret::from("dEmo");
    s.guess('é');
    assert_eq!(s.found, vec!['E']);
    assert_eq!(s.render(), "-E--");
    assert_eq!(s.tries, 1);
}

#[test]
fn plain_guess_reveals_accented_letter() {
    let mut s = Secret::from("café");
    s.guess('e');
    assert_eq!(s.found, vec!['E']);
    assert_eq!(s.render(), "---é");
}

#[test]
fn case_is_ignored() {
    let mut s = Secret::from("Dog");
    s.guess('d');
    assert_eq!(s.render(), "D--");
    s.guess('G');
    assert_eq!(s.render(), "D-g");
}

#[test]
fn tried_letters_render_sorted() {
    let mut s = Secret::from("dog");
    s.guess('z');
    s.guess('a');
    s.guess('m');
    assert_eq!(s.render(), "--- / AMZ");
}

#[test]
fn guessing_every_distinct_letter_solves() {
    let mut s = Secret::from("hello");
    for c in ['L', 'O', 'H', 'E'] {
        assert!(!s.is_solved());
        s.guess(c);
    }
    assert!(s.is_solved());
    assert_eq!(s.render(), "hello");
}

#[test]
fn generate_draws_from_the_list() {
    let words = vec![String::from("solo")];
    let s = Secret::generate(&words);
    assert_eq!(s.word, vec!['s', 'o', 'l', 'o']);
    assert_eq!(s.render(), "----");
    assert_eq!(s.tries, 0);
}

#[test]
fn non_letter_guess_is_a_miss_but_hidden_from_suffix() {
    let mut s = Secret::from("dog");
    s.guess('3');
    assert_eq!(s.tries, 1);
    assert_eq!(s.tried, vec!['3']);
    // only A..Z show in the suffix, so the separator stands alone
    assert_eq!(s.render(), "--- / ");
}
