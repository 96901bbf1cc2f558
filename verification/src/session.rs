//! The session: rounds of the game over one parsed configuration.
//!
//! A session keeps the dictionary, the image template and the policy from
//! the configuration, and one round at a time. Each round plays over a
//! secret drawn at random from the dictionary. The session turns player
//! input into guesses, and exposes a render snapshot; all formatting and
//! input reading belong to the caller.
use crate::dictionary::parse_config_spec;
use crate::dictionary::phrase_views;
use crate::dictionary::Config;
use crate::errors::ConfigError;
use crate::game::game_wf;
use crate::game::init_view;
use crate::game::mask_spec;
use crate::game::step;
use crate::game::Game;
use crate::game::GameState;
use crate::image::budget;
use crate::image::built_in_template;
use crate::image::built_in_text;
use crate::image::disclosed_at;
use crate::image::eligible_total;
use crate::image::lemma_eligible_le_sum;
use crate::image::DisclosurePolicy;
use crate::image::ImageTemplate;
use crate::secret::hidden_count;
use crate::secret::SecretPhrase;
use crate::text::lines_view;
use crate::text::split_lines;
use vstd::prelude::*;

verus! {

/// Relies on rand::random_range over `0..n`: the drawn value lies in the
/// range, which the requires keeps non-empty.
#[verifier::external_body]
fn pick_uniform(n: usize) -> (r: usize)
    requires
        n >= 1,
    ensures
        r < n,
{
    rand::random_range(0..n)
}

/// One render snapshot: the disclosed image rows, the masked secret, the
/// lives left, whether the last guess was correct, and the round's outcome.
/// The caller owns all visual formatting.
pub struct Snapshot {
    pub image: Vec<Vec<char>>,
    pub mask: Vec<char>,
    pub lives: usize,
    pub last_guess_correct: bool,
    pub state: GameState,
}

/// A running session.
pub struct Application {
    pub secrets: Vec<SecretPhrase>,
    pub template: ImageTemplate,
    pub policy: DisclosurePolicy,
    pub max_lives: usize,
    pub game: Game,
}

impl Application {
    /// A well-formed session: a non-empty dictionary of well-formed
    /// phrases, a well-formed template, at least one life, and a
    /// well-formed round over one of the dictionary's phrases.
    pub open spec fn wf(&self) -> bool {
        &&& self.secrets@.len() >= 1
        &&& forall|i: int| 0 <= i < self.secrets@.len() ==> (#[trigger] self.secrets@[i]).wf()
        &&& self.template.wf()
        &&& self.max_lives >= 1
        &&& game_wf(self.game@)
        &&& self.game@.max_lives == self.max_lives as int
        &&& exists|i: int|
            0 <= i < self.secrets@.len() && (#[trigger] self.secrets@[i])@ == self.game@.secret
    }

    /// Starts a fresh round over a secret drawn from the dictionary. Which
    /// phrase comes out is the random source's choice; whatever it picks,
    /// the round starts fresh over one of the dictionary's phrases. A pick
    /// without a hidden character is rejected as unwinnable, so when every
    /// phrase has one the start succeeds.
    fn start_round(secrets: &Vec<SecretPhrase>, max_lives: usize) -> (r: Result<Game, ConfigError>)
        requires
            secrets@.len() >= 1,
            forall|i: int| 0 <= i < secrets@.len() ==> (#[trigger] secrets@[i]).wf(),
            max_lives >= 1,
        ensures
            match r {
                Ok(g) => {
                    &&& game_wf(g@)
                    &&& g@.max_lives == max_lives as int
                    &&& g@ == init_view(g@.secret, max_lives as int)
                    &&& exists|i: int|
                        0 <= i < secrets@.len() && (#[trigger] secrets@[i])@ == g@.secret
                },
                Err(e) => {
                    &&& e == ConfigError::UnwinnableSecret
                    &&& exists|i: int|
                        0 <= i < secrets@.len() && hidden_count((#[trigger] secrets@[i])@) == 0
                },
            },
    {
        let idx = pick_uniform(secrets.len());
        let chosen = secrets[idx].duplicate();
        let ghost chosen_view = chosen@;
        match Game::new(chosen, max_lives) {
            Ok(game) => {
                proof {
                    assert(secrets@[idx as int]@ == game@.secret);
                }
                Ok(game)
            },
            Err(e) => {
                proof {
                    crate::secret::lemma_hidden_prefix_bounds(chosen_view, chosen_view.len() as int);
                    assert(hidden_count(secrets@[idx as int]@) == 0);
                }
                Err(e)
            },
        }
    }

    /// Reads a configuration text and opens a session with `max_lives`
    /// lives per round: the parsed dictionary, the custom image when the
    /// text brings one and the built-in picture of the chosen policy
    /// otherwise, and a first round over a randomly drawn secret. The
    /// errors: an unknown modifier keyword, a configuration without
    /// secrets, and a drawn secret with nothing hidden; a parseable
    /// configuration whose secrets all hold a hidden character succeeds.
    pub fn new(config_text: &Vec<char>, max_lives: usize) -> (r: Result<Application, ConfigError>)
        requires
            max_lives >= 1,
        ensures
            match r {
                Ok(a) => {
                    &&& a.wf()
                    &&& a.max_lives == max_lives
                    &&& parse_config_spec(config_text@) matches Ok(cv) && {
                        &&& phrase_views(a.secrets@) == cv.secrets
                        &&& cv.secrets.len() >= 1
                        &&& a.policy == cv.policy
                        &&& a.template.rows() == if cv.images.len() > 0 {
                            cv.images
                        } else {
                            split_lines(built_in_text(cv.policy))
                        }
                        &&& a.game@ == init_view(a.game@.secret, max_lives as int)
                        &&& exists|i: int|
                            0 <= i < cv.secrets.len() && cv.secrets[i] == a.game@.secret
                    }
                },
                Err(e) => match e {
                    ConfigError::UnknownModifier => parse_config_spec(config_text@) == Err::<
                        crate::dictionary::ConfigView,
                        ConfigError,
                    >(ConfigError::UnknownModifier),
                    ConfigError::EmptyDictionary => parse_config_spec(config_text@) matches Ok(cv)
                        && cv.secrets.len() == 0,
                    ConfigError::UnwinnableSecret => parse_config_spec(config_text@) matches Ok(cv)
                        && exists|i: int| 0 <= i < cv.secrets.len() && hidden_count(#[trigger] cv.secrets[i]) == 0,
                },
            },
    {
        let text_len = config_text.len();
        proof {
            assert(text_len as int == config_text@.len());
        }
        let cfg = match Config::parse(config_text) {
            Ok(c) => c,
            Err(e) => {
                proof {
                    crate::dictionary::lemma_parse_error_is_unknown(split_lines(config_text@));
                }
                return Err(e);
            },
        };
        let Config { secrets, images, policy } = cfg;
        if secrets.len() == 0 {
            return Err(ConfigError::EmptyDictionary);
        }
        let template = if images.len() > 0 {
            proof {
                lemma_eligible_le_sum(lines_view(images@));
            }
            ImageTemplate::from_rows(images)
        } else {
            built_in_template(policy)
        };
        match Self::start_round(&secrets, max_lives) {
            Ok(game) => {
                let a = Application { secrets, template, policy, max_lives, game };
                proof {
                    let cv = parse_config_spec(config_text@)->Ok_0;
                    assert(phrase_views(a.secrets@) == cv.secrets);
                    let w = choose|i: int|
                        0 <= i < a.secrets@.len() && (#[trigger] a.secrets@[i])@ == a.game@.secret;
                    assert(cv.secrets[w] == a.game@.secret);
                }
                Ok(a)
            },
            Err(e) => {
                proof {
                    let cv = parse_config_spec(config_text@)->Ok_0;
                    let w = choose|i: int|
                        0 <= i < secrets@.len() && hidden_count((#[trigger] secrets@[i])@) == 0;
                    assert(cv.secrets[w] == secrets@[w]@);
                }
                Err(e)
            },
        }
    }

    /// Feeds one piece of player input to the session: in an ongoing round
    /// the guessed character, or no character, which costs a life like a
    /// wrong guess. In a finished round `n` or `N` declines another round
    /// and closes the session; anything else starts a fresh round over a
    /// newly drawn secret. Returns whether the session goes on.
    pub fn process_user_input(&mut self, input: Option<char>) -> (r: Result<bool, ConfigError>)
        requires
            old(self).wf(),
        ensures
            match r {
                Ok(cont) => {
                    &&& final(self).wf()
                    &&& final(self).secrets == old(self).secrets
                    &&& final(self).policy == old(self).policy
                    &&& final(self).template == old(self).template
                    &&& final(self).max_lives == old(self).max_lives
                    &&& if old(self).game@.state == GameState::Ongoing {
                        &&& cont
                        &&& final(self).game@ == step(old(self).game@, input)
                    } else if input == Some('n') || input == Some('N') {
                        &&& !cont
                        &&& *final(self) == *old(self)
                    } else {
                        &&& cont
                        &&& final(self).game@ == init_view(
                            final(self).game@.secret,
                            old(self).max_lives as int,
                        )
                        &&& exists|i: int|
                            0 <= i < old(self).secrets@.len() && (#[trigger] old(
                                self,
                            ).secrets@[i])@ == final(self).game@.secret
                    }
                },
                Err(e) => {
                    &&& *final(self) == *old(self)
                    &&& e == ConfigError::UnwinnableSecret
                    &&& old(self).game@.state != GameState::Ongoing
                    &&& exists|i: int|
                        0 <= i < old(self).secrets@.len() && hidden_count(
                            (#[trigger] old(self).secrets@[i])@,
                        ) == 0
                },
            },
    {
        if self.game.state == GameState::Ongoing {
            self.game.guess(input);
            proof {
                crate::game::lemma_progress_monotone(old(self).game@, input);
            }
            Ok(true)
        } else {
            let quit = match input {
                Some(c) => c == 'n' || c == 'N',
                None => false,
            };
            if quit {
                Ok(false)
            } else {
                match Self::start_round(&self.secrets, self.max_lives) {
                    Ok(g) => {
                        self.game = g;
                        Ok(true)
                    },
                    Err(e) => Err(e),
                }
            }
        }
    }

    /// The render snapshot of the moment. The image rows come from the
    /// template under the policy's disclosure budget; the mask, lives,
    /// last-guess flag and outcome come from the round.
    pub fn snapshot(&self) -> (s: Snapshot)
        requires
            self.wf(),
        ensures
            s.image@.len() == self.template.rows().len(),
            forall|i: int|
                0 <= i < s.image@.len() ==> (#[trigger] s.image@[i])@.len()
                    == self.template.rows()[i].len(),
            forall|i: int, j: int|
                0 <= i < s.image@.len() && 0 <= j < s.image@[i]@.len() ==> (
                #[trigger] s.image@[i]@[j]) == disclosed_at(
                    self.template.rows(),
                    i,
                    j,
                    budget(self.policy, self.game@, eligible_total(self.template.rows())),
                ),
            s.mask@ == mask_spec(self.game@.secret, self.game@.revealed),
            s.lives as int == self.game@.max_lives - self.game@.wrong,
            s.last_guess_correct == self.game@.last_guess_correct,
            s.state == self.game@.state,
    {
        let image = self.template.disclose_for(self.policy, &self.game);
        let mask = self.game.rendered_mask();
        let lives = self.game.lives_remaining();
        Snapshot {
            image,
            mask,
            lives,
            last_guess_correct: self.game.last_guess_correct,
            state: self.game.state,
        }
    }
}

} // verus!
