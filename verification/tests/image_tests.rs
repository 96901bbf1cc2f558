use ascii_hangman::game::Game;
use ascii_hangman::image::{
    built_in_template, reveal_budget, DisclosurePolicy, ImageTemplate,
};
use ascii_hangman::secret::SecretPhrase;

fn chars(s: &str) -> Vec<char> {
    s.chars().collect()
}

fn phrase(line: &str) -> SecretPhrase {
    SecretPhrase::parse_line(&chars(line)).expect("secret line should parse")
}

fn rows_of(v: Vec<Vec<char>>) -> Vec<String> {
    v.into_iter().map(|r| r.into_iter().collect()).collect()
}

#[test]
fn eligible_count_skips_whitespace() {
    let t = ImageTemplate::from_text(&chars("ab c\n  de\n"));
    assert_eq!(t.eligible_count(), 5);
}

#[test]
fn disclose_shows_the_first_ranked_drawing_characters() {
    let t = ImageTemplate::from_text(&chars("ab\ncd"));
    assert_eq!(rows_of(t.disclose(0)), vec!["  ", "  "]);
    assert_eq!(rows_of(t.disclose(1)), vec!["a ", "  "]);
    assert_eq!(rows_of(t.disclose(3)), vec!["ab", "c "]);
    assert_eq!(rows_of(t.disclose(4)), vec!["ab", "cd"]);
    assert_eq!(rows_of(t.disclose(100)), vec!["ab", "cd"]);
}

#[test]
fn layout_whitespace_is_always_shown() {
    let t = ImageTemplate::from_text(&chars(" a b \n"));
    assert_eq!(rows_of(t.disclose(1)), vec![" a   "]);
}

#[test]
fn template_without_drawing_characters_renders_fully_at_any_budget() {
    let t = ImageTemplate::from_text(&chars("   \n \t \n"));
    assert_eq!(t.eligible_count(), 0);
    assert_eq!(rows_of(t.disclose(0)), vec!["   ", " \t "]);
    assert_eq!(rows_of(t.disclose(12345)), vec!["   ", " \t "]);
}

#[test]
fn success_rewarding_budget_follows_revealed_share() {
    // Ten drawing characters, four hidden characters, two of them revealed:
    // half the drawing, five characters, is shown.
    let t = ImageTemplate::from_text(&chars("##########"));
    assert_eq!(t.eligible_count(), 10);
    let mut g = Game::new(phrase("aabb"), 7).unwrap();
    g.guess(Some('a'));
    let k = reveal_budget(DisclosurePolicy::SuccessRewarding, &g, 10);
    assert_eq!(k, 5);
    assert_eq!(rows_of(t.disclose(k)), vec!["#####     "]);
}

#[test]
fn traditional_rewarding_budget_follows_lost_lives() {
    // Seven lives, three lost: floor(3/7 * 10) = 4 characters are shown.
    let t = ImageTemplate::from_text(&chars("##########"));
    let mut g = Game::new(phrase("abc"), 7).unwrap();
    for _ in 0..3 {
        g.guess(Some('z'));
    }
    let k = reveal_budget(DisclosurePolicy::TraditionalRewarding, &g, 10);
    assert_eq!(k, 4);
    assert_eq!(rows_of(t.disclose(k)), vec!["####      "]);
}

#[test]
fn victory_forces_the_whole_image() {
    let mut g = Game::new(phrase("a"), 7).unwrap();
    g.guess(Some('a'));
    let k = reveal_budget(DisclosurePolicy::SuccessRewarding, &g, 10);
    assert_eq!(k, 10);
    let k = reveal_budget(DisclosurePolicy::TraditionalRewarding, &g, 10);
    assert_eq!(k, 10);
}

#[test]
fn defeat_keeps_accumulated_progress_under_success_rewarding() {
    let mut g = Game::new(phrase("aabb"), 1).unwrap();
    g.guess(Some('a'));
    g.guess(Some('z'));
    // Defeated, but the two revealed positions still count.
    let k = reveal_budget(DisclosurePolicy::SuccessRewarding, &g, 10);
    assert_eq!(k, 5);
}

#[test]
fn reveal_count_never_decreases_within_a_round() {
    let t = ImageTemplate::from_text(&chars("#####"));
    let n = t.eligible_count();
    for policy in [
        DisclosurePolicy::SuccessRewarding,
        DisclosurePolicy::TraditionalRewarding,
    ] {
        let mut g = Game::new(phrase("hang man"), 7).unwrap();
        let mut last = 0usize;
        for c in ['z', 'a', 'h', 'q', 'n', 'g', 'm'] {
            g.guess(Some(c));
            let k = reveal_budget(policy, &g, n);
            assert!(k >= last);
            last = k;
        }
    }
}

#[test]
fn built_in_templates_differ_by_policy() {
    let s = built_in_template(DisclosurePolicy::SuccessRewarding);
    let t = built_in_template(DisclosurePolicy::TraditionalRewarding);
    assert!(s.eligible_count() > 0);
    assert!(t.eligible_count() > 0);
    assert_ne!(rows_of(s.disclose(usize::MAX)), rows_of(t.disclose(usize::MAX)));
}

#[test]
fn custom_rows_build_a_template() {
    let t = ImageTemplate::from_rows(vec![chars("xy"), chars(" z")]);
    assert_eq!(t.eligible_count(), 3);
    assert_eq!(rows_of(t.disclose(2)), vec!["xy", "  "]);
}
