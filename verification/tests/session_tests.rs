use ascii_hangman::errors::ConfigError;
use ascii_hangman::game::GameState;
use ascii_hangman::session::Application;
use ascii_hangman::text::chars_of;

fn app(config: &str) -> Application {
    Application::new(&chars_of(config), 7).expect("configuration should open a session")
}

#[test]
fn a_single_secret_is_always_the_drawn_one() {
    let a = app("hang_man_\n");
    let letters: String = a.game.secret.chars.iter().map(|sc| sc.ch).collect();
    assert_eq!(letters, "hangman");
    assert_eq!(a.game.state, GameState::Ongoing);
    assert_eq!(a.max_lives, 7);
}

#[test]
fn empty_dictionary_is_reported() {
    let r = Application::new(&chars_of("# only a comment\n"), 7);
    assert!(matches!(r, Err(ConfigError::EmptyDictionary)));
}

#[test]
fn unknown_modifier_is_reported() {
    let r = Application::new(&chars_of("word\n:shiny-rewarding\n"), 7);
    assert!(matches!(r, Err(ConfigError::UnknownModifier)));
}

#[test]
fn an_unwinnable_secret_is_reported() {
    let r = Application::new(&chars_of("_all clear_\n"), 7);
    assert!(matches!(r, Err(ConfigError::UnwinnableSecret)));
}

#[test]
fn guesses_flow_into_the_round() {
    let mut a = app("cat\n");
    assert_eq!(a.process_user_input(Some('z')).unwrap(), true);
    assert_eq!(a.game.lives_remaining(), 6);
    assert_eq!(a.process_user_input(Some('c')).unwrap(), true);
    assert!(a.game.last_guess_correct);
    assert_eq!(a.game.lives_remaining(), 6);
}

#[test]
fn empty_input_costs_a_life() {
    let mut a = app("cat\n");
    a.process_user_input(None).unwrap();
    assert_eq!(a.game.lives_remaining(), 6);
}

#[test]
fn declining_a_new_round_closes_the_session() {
    let mut a = app("a\n");
    a.process_user_input(Some('a')).unwrap();
    assert_eq!(a.game.state, GameState::Victory);
    assert_eq!(a.process_user_input(Some('n')).unwrap(), false);
    assert_eq!(a.process_user_input(Some('N')).unwrap(), false);
}

#[test]
fn any_other_input_starts_a_fresh_round() {
    let mut a = app("ab\n");
    a.process_user_input(Some('a')).unwrap();
    a.process_user_input(Some('b')).unwrap();
    assert_eq!(a.game.state, GameState::Victory);
    assert_eq!(a.process_user_input(Some('y')).unwrap(), true);
    assert_eq!(a.game.state, GameState::Ongoing);
    assert_eq!(a.game.lives_remaining(), 7);
    assert!(a.game.revealed.iter().all(|r| !r));
}

#[test]
fn snapshot_reports_the_round() {
    let mut a = app("ab\n|##\n");
    let s = a.snapshot();
    assert_eq!(s.lives, 7);
    assert_eq!(s.state, GameState::Ongoing);
    let mask: String = s.mask.iter().collect();
    assert_eq!(mask, "_ _ ");
    // Nothing revealed yet: the two-character custom drawing is withheld.
    let row: String = s.image[0].iter().collect();
    assert_eq!(row, "  ");
    a.process_user_input(Some('a')).unwrap();
    let s = a.snapshot();
    let mask: String = s.mask.iter().collect();
    assert_eq!(mask, "a _ ");
    let row: String = s.image[0].iter().collect();
    assert_eq!(row, "# ");
}

#[test]
fn victory_snapshot_shows_the_whole_image() {
    let mut a = app("ab\n|####\n");
    a.process_user_input(Some('a')).unwrap();
    a.process_user_input(Some('b')).unwrap();
    let s = a.snapshot();
    assert_eq!(s.state, GameState::Victory);
    let row: String = s.image[0].iter().collect();
    assert_eq!(row, "####");
}

#[test]
fn custom_image_replaces_the_built_in_one() {
    let a = app("word\n| art\n");
    let s = a.snapshot();
    assert_eq!(s.image.len(), 1);
    assert_eq!(s.image[0].len(), 4);
}

#[test]
fn traditional_policy_reaches_the_session() {
    let mut a = app(":traditional-rewarding\nab\n|#######\n");
    // One lost life out of seven shows exactly one of seven characters.
    a.process_user_input(Some('z')).unwrap();
    let s = a.snapshot();
    let row: String = s.image[0].iter().collect();
    assert_eq!(row, "#      ");
}
