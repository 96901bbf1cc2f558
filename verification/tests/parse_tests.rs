use ascii_hangman::dictionary::Config;
use ascii_hangman::errors::ConfigError;
use ascii_hangman::image::DisclosurePolicy;
use ascii_hangman::secret::SecretPhrase;

fn chars(s: &str) -> Vec<char> {
    s.chars().collect()
}

fn hidden_flags(p: &SecretPhrase) -> Vec<bool> {
    p.chars.iter().map(|sc| sc.hidden).collect()
}

fn letters(p: &SecretPhrase) -> String {
    p.chars.iter().map(|sc| sc.ch).collect()
}

#[test]
fn hint_markers_make_clear_spans() {
    let cfg = Config::parse(&chars("Guess _me_")).unwrap();
    assert_eq!(cfg.secrets.len(), 1);
    let p = &cfg.secrets[0];
    assert_eq!(letters(p), "Guess me");
    // G, u, e, s, s hidden; the blank and the hinted m, e clear.
    assert_eq!(
        hidden_flags(p),
        vec![true, true, true, true, true, false, false, false]
    );
}

#[test]
fn whitespace_is_never_hidden() {
    let cfg = Config::parse(&chars("a b\tc")).unwrap();
    let p = &cfg.secrets[0];
    assert_eq!(hidden_flags(p), vec![true, false, true, false, true]);
}

#[test]
fn secret_lines_are_trimmed() {
    let cfg = Config::parse(&chars("   hang man  \n")).unwrap();
    assert_eq!(letters(&cfg.secrets[0]), "hang man");
}

#[test]
fn blank_and_comment_lines_are_ignored() {
    let cfg = Config::parse(&chars("\n   \n# a comment\n  # indented comment\nword\n")).unwrap();
    assert_eq!(cfg.secrets.len(), 1);
    assert_eq!(letters(&cfg.secrets[0]), "word");
}

#[test]
fn a_line_of_only_hint_markers_yields_no_secret() {
    let cfg = Config::parse(&chars("__\n")).unwrap();
    assert_eq!(cfg.secrets.len(), 0);
}

#[test]
fn image_lines_collect_without_their_marker() {
    let cfg = Config::parse(&chars("|  ,~~.\n| (  )\nword\n")).unwrap();
    let rows: Vec<String> = cfg
        .images
        .iter()
        .map(|r| r.iter().collect::<String>())
        .collect();
    assert_eq!(rows, vec!["  ,~~.".to_string(), " (  )".to_string()]);
    assert_eq!(cfg.secrets.len(), 1);
}

#[test]
fn default_policy_rewards_success() {
    let cfg = Config::parse(&chars("word\n")).unwrap();
    assert_eq!(cfg.policy, DisclosurePolicy::SuccessRewarding);
}

#[test]
fn modifier_lines_select_the_policy() {
    let cfg = Config::parse(&chars(":traditional-rewarding\nword\n")).unwrap();
    assert_eq!(cfg.policy, DisclosurePolicy::TraditionalRewarding);
    let cfg = Config::parse(&chars(":success-rewarding\nword\n")).unwrap();
    assert_eq!(cfg.policy, DisclosurePolicy::SuccessRewarding);
}

#[test]
fn last_modifier_wins() {
    let cfg =
        Config::parse(&chars(":traditional-rewarding\nword\n:success-rewarding\n")).unwrap();
    assert_eq!(cfg.policy, DisclosurePolicy::SuccessRewarding);
}

#[test]
fn unknown_modifier_is_a_configuration_error() {
    let r = Config::parse(&chars("word\n:win-rewarding\n"));
    assert!(matches!(r, Err(ConfigError::UnknownModifier)));
}

#[test]
fn crlf_line_endings_are_accepted() {
    let cfg = Config::parse(&chars("guess me\r\nhang_man_\r\n")).unwrap();
    assert_eq!(cfg.secrets.len(), 2);
    assert_eq!(letters(&cfg.secrets[0]), "guess me");
    assert_eq!(letters(&cfg.secrets[1]), "hangman");
    assert_eq!(
        hidden_flags(&cfg.secrets[1]),
        vec![true, true, true, true, false, false, false]
    );
}

#[test]
fn secrets_keep_file_order() {
    let cfg = Config::parse(&chars("one\ntwo\nthree\n")).unwrap();
    let all: Vec<String> = cfg.secrets.iter().map(letters).collect();
    assert_eq!(all, vec!["one", "two", "three"]);
}

#[test]
fn an_empty_configuration_parses_to_nothing() {
    let cfg = Config::parse(&chars("")).unwrap();
    assert_eq!(cfg.secrets.len(), 0);
    assert_eq!(cfg.images.len(), 0);
    assert_eq!(cfg.policy, DisclosurePolicy::SuccessRewarding);
}

#[test]
fn digits_and_symbols_can_be_secrets() {
    let cfg = Config::parse(&chars("_3*_7_=21_\n")).unwrap();
    let p = &cfg.secrets[0];
    assert_eq!(letters(p), "3*7=21");
    assert_eq!(
        hidden_flags(p),
        vec![false, false, true, false, false, false]
    );
}
