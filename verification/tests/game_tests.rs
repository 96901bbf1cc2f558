use ascii_hangman::game::{Game, GameState};
use ascii_hangman::secret::SecretPhrase;

fn chars(s: &str) -> Vec<char> {
    s.chars().collect()
}

fn phrase(line: &str) -> SecretPhrase {
    SecretPhrase::parse_line(&chars(line)).expect("secret line should parse")
}

#[test]
fn new_game_starts_ongoing_with_all_lives() {
    let g = Game::new(phrase("abc"), 7).unwrap();
    assert_eq!(g.state, GameState::Ongoing);
    assert_eq!(g.lives_remaining(), 7);
    assert_eq!(g.wrong, 0);
}

#[test]
fn zero_hidden_secret_is_rejected() {
    let r = Game::new(phrase("_abc_"), 7);
    assert!(matches!(
        r,
        Err(ascii_hangman::errors::ConfigError::UnwinnableSecret)
    ));
}

#[test]
fn correct_guess_reveals_all_matching_positions() {
    let mut g = Game::new(phrase("abba"), 7).unwrap();
    g.guess(Some('a'));
    assert!(g.last_guess_correct);
    assert_eq!(g.revealed, vec![true, false, false, true]);
    assert_eq!(g.lives_remaining(), 7);
}

#[test]
fn guessing_is_case_insensitive() {
    let mut g = Game::new(phrase("AbC"), 7).unwrap();
    g.guess(Some('a'));
    assert!(g.last_guess_correct);
    g.guess(Some('B'));
    assert!(g.last_guess_correct);
    assert_eq!(g.lives_remaining(), 7);
}

#[test]
fn wrong_guess_costs_one_life() {
    let mut g = Game::new(phrase("abc"), 7).unwrap();
    g.guess(Some('z'));
    assert!(!g.last_guess_correct);
    assert_eq!(g.lives_remaining(), 6);
    assert_eq!(g.state, GameState::Ongoing);
}

#[test]
fn empty_input_counts_as_wrong_guess() {
    let mut g = Game::new(phrase("abc"), 7).unwrap();
    g.guess(None);
    assert!(!g.last_guess_correct);
    assert_eq!(g.lives_remaining(), 6);
}

#[test]
fn seven_wrong_guesses_defeat_exactly_on_the_seventh() {
    let mut g = Game::new(phrase("abc"), 7).unwrap();
    for i in 1..=6u32 {
        g.guess(Some('z'));
        assert_eq!(g.state, GameState::Ongoing, "still ongoing after {i} misses");
        assert_eq!(g.lives_remaining() as u32, 7 - i);
    }
    g.guess(Some('z'));
    assert_eq!(g.state, GameState::Defeat);
    assert_eq!(g.lives_remaining(), 0);
}

#[test]
fn guessing_every_letter_wins() {
    let mut g = Game::new(phrase("aba"), 7).unwrap();
    g.guess(Some('a'));
    assert_eq!(g.state, GameState::Ongoing);
    g.guess(Some('b'));
    assert_eq!(g.state, GameState::Victory);
    assert_eq!(g.lives_remaining(), 7);
}

#[test]
fn repeating_a_correct_guess_changes_nothing() {
    let mut g = Game::new(phrase("abc"), 7).unwrap();
    g.guess(Some('a'));
    let lives = g.lives_remaining();
    let state = g.state;
    let revealed = g.revealed.clone();
    g.guess(Some('a'));
    assert!(g.last_guess_correct);
    assert_eq!(g.lives_remaining(), lives);
    assert_eq!(g.state, state);
    assert_eq!(g.revealed, revealed);
}

#[test]
fn finished_round_absorbs_further_guesses() {
    let mut g = Game::new(phrase("a"), 1).unwrap();
    g.guess(Some('z'));
    assert_eq!(g.state, GameState::Defeat);
    g.guess(Some('a'));
    assert_eq!(g.state, GameState::Defeat);
    assert_eq!(g.lives_remaining(), 0);
}

#[test]
fn terminal_states_are_reached_within_hidden_plus_lives_guesses() {
    // Three distinct hidden letters and seven lives: any run of distinct
    // guesses ends the round within ten of them.
    let mut g = Game::new(phrase("cat"), 7).unwrap();
    let tries = ['a', 'b', 'c', 'd', 'e', 'f', 'g', 'h', 'i', 'j'];
    let mut steps = 0u32;
    for c in tries {
        if g.state != GameState::Ongoing {
            break;
        }
        g.guess(Some(c));
        steps += 1;
    }
    assert!(g.state != GameState::Ongoing);
    assert!(steps <= 10);
}

#[test]
fn progress_fraction_counts_revealed_hidden_positions() {
    let mut g = Game::new(phrase("aabb"), 7).unwrap();
    assert_eq!(g.progress_fraction(), (0, 4));
    g.guess(Some('a'));
    assert_eq!(g.progress_fraction(), (2, 4));
    g.guess(Some('z'));
    assert_eq!(g.progress_fraction(), (2, 4));
    g.guess(Some('b'));
    assert_eq!(g.progress_fraction(), (4, 4));
}

#[test]
fn progress_fraction_never_decreases() {
    let mut g = Game::new(phrase("hang man"), 7).unwrap();
    let mut last = 0usize;
    for c in ['z', 'a', 'q', 'n', 'n', 'x', 'h', 'g', 'm'] {
        if g.state != GameState::Ongoing {
            break;
        }
        g.guess(Some(c));
        let (num, den) = g.progress_fraction();
        assert_eq!(den, 7);
        assert!(num >= last);
        last = num;
    }
}

#[test]
fn rendered_mask_shows_placeholders_then_reveals() {
    let mut g = Game::new(phrase("ab a"), 7).unwrap();
    let mask: String = g.rendered_mask().into_iter().collect();
    assert_eq!(mask, "_ _   _ ");
    g.guess(Some('a'));
    let mask: String = g.rendered_mask().into_iter().collect();
    assert_eq!(mask, "a _   a ");
}

#[test]
fn hinted_secret_round_trip_shows_hint_and_blank() {
    // "Guess _me_": G, u, e, s, s hidden, the blank and the hinted m, e
    // shown from the start.
    let g = Game::new(phrase("Guess _me_"), 7).unwrap();
    let mask: String = g.rendered_mask().into_iter().collect();
    assert_eq!(mask, "_ _ _ _ _   m e ");
}
