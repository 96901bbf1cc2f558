use ascii_hangman::text::{chars_eq_str, chars_match_exec, chars_of, split_into_lines, trimmed};

#[test]
fn chars_of_yields_the_characters_in_order() {
    assert_eq!(chars_of("hang"), vec!['h', 'a', 'n', 'g']);
    assert_eq!(chars_of(""), Vec::<char>::new());
}

#[test]
fn character_matching_folds_only_ascii_letters() {
    assert!(chars_match_exec('a', 'A'));
    assert!(chars_match_exec('Z', 'z'));
    assert!(chars_match_exec('3', '3'));
    assert!(!chars_match_exec('a', 'b'));
    // The neighbours of the letter ranges stay themselves.
    assert!(!chars_match_exec('@', '`'));
    assert!(!chars_match_exec('[', '{'));
}

#[test]
fn trimming_drops_blanks_and_tabs_at_both_ends() {
    assert_eq!(trimmed(&chars_of("  a b\t")), chars_of("a b"));
    assert_eq!(trimmed(&chars_of(" \t ")), Vec::<char>::new());
    assert_eq!(trimmed(&chars_of("x")), chars_of("x"));
}

#[test]
fn string_comparison_checks_every_character() {
    assert!(chars_eq_str(&chars_of("success-rewarding"), "success-rewarding"));
    assert!(!chars_eq_str(&chars_of("success-reWarding"), "success-rewarding"));
    assert!(!chars_eq_str(&chars_of("success"), "success-rewarding"));
}

#[test]
fn splitting_handles_final_lines_and_carriage_returns() {
    let lines = split_into_lines(&chars_of("a\nbc\r\n\nd"));
    assert_eq!(
        lines,
        vec![chars_of("a"), chars_of("bc"), chars_of(""), chars_of("d")]
    );
    assert_eq!(split_into_lines(&chars_of("")), Vec::<Vec<char>>::new());
}
