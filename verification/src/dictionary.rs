//! The configuration parser.
//!
//! A configuration is line-oriented text. A line whose first character is
//! `|` adds one row, the marker dropped, to the custom image. A line whose
//! first character is `:` is a modifier that picks the disclosure policy;
//! an unknown keyword is a configuration error, and the last modifier wins.
//! A line whose first non-blank character is `#` is a comment. Every other
//! line is a secret candidate: trimmed, marked up as [`crate::secret`]
//! describes, and dropped when nothing remains.
use crate::errors::ConfigError;
use crate::image::sum_lens;
use crate::image::DisclosurePolicy;
use crate::secret::parse_secret_spec;
use crate::secret::SecretChar;
use crate::secret::SecretPhrase;
use crate::text::chars_eq_str;
use crate::text::lines_view;
use crate::text::split_into_lines;
use crate::text::split_lines;
use crate::text::tail_of;
use crate::text::trim;
use crate::text::trimmed;
use vstd::prelude::*;

verus! {

/// The modifier keyword that selects the success-rewarding policy.
pub const SUCCESS_KEYWORD: &'static str = "success-rewarding";

/// The modifier keyword that selects the traditional-rewarding policy.
pub const TRADITIONAL_KEYWORD: &'static str = "traditional-rewarding";

/// The mathematical content of a parsed configuration: the secrets in file
/// order, the custom image rows in file order, and the chosen policy.
#[verifier::ext_equal]
pub struct ConfigView {
    pub secrets: Seq<Seq<SecretChar>>,
    pub images: Seq<Seq<char>>,
    pub policy: DisclosurePolicy,
}

/// What an empty configuration yields: nothing, under the default policy.
pub open spec fn empty_config() -> ConfigView {
    ConfigView {
        secrets: Seq::empty(),
        images: Seq::empty(),
        policy: DisclosurePolicy::SuccessRewarding,
    }
}

/// Whether the line is a comment: its first non-blank character is `#`.
pub open spec fn is_comment(line: Seq<char>) -> bool {
    trim(line).len() > 0 && trim(line)[0] == '#'
}

/// The policy named by the text after the modifier marker, if the trimmed
/// text is one of the two keywords.
pub open spec fn parse_policy_spec(rest: Seq<char>) -> Option<DisclosurePolicy> {
    let t = trim(rest);
    if t == SUCCESS_KEYWORD@ {
        Some(DisclosurePolicy::SuccessRewarding)
    } else if t == TRADITIONAL_KEYWORD@ {
        Some(DisclosurePolicy::TraditionalRewarding)
    } else {
        None
    }
}

/// What one line does to the configuration read so far.
pub open spec fn apply_line(c: ConfigView, line: Seq<char>) -> Result<ConfigView, ConfigError> {
    if line.len() > 0 && line[0] == '|' {
        Ok(ConfigView { images: c.images.push(line.drop_first()), ..c })
    } else if line.len() > 0 && line[0] == ':' {
        match parse_policy_spec(line.drop_first()) {
            Some(p) => Ok(ConfigView { policy: p, ..c }),
            None => Err(ConfigError::UnknownModifier),
        }
    } else if is_comment(line) {
        Ok(c)
    } else {
        match parse_secret_spec(line) {
            Some(s) => Ok(ConfigView { secrets: c.secrets.push(s), ..c }),
            None => Ok(c),
        }
    }
}

/// The configuration that a sequence of lines yields, line by line in
/// order; the first bad modifier line is the error of the whole text.
pub open spec fn parse_lines_spec(lines: Seq<Seq<char>>) -> Result<ConfigView, ConfigError>
    decreases lines.len(),
{
    if lines.len() == 0 {
        Ok(empty_config())
    } else {
        match parse_lines_spec(lines.drop_last()) {
            Ok(c) => apply_line(c, lines.last()),
            Err(e) => Err(e),
        }
    }
}

/// The configuration that raw text yields.
pub open spec fn parse_config_spec(text: Seq<char>) -> Result<ConfigView, ConfigError> {
    parse_lines_spec(split_lines(text))
}

/// The views of a vector of phrases.
pub open spec fn phrase_views(v: Seq<SecretPhrase>) -> Seq<Seq<SecretChar>> {
    Seq::new(v.len(), |i: int| v[i]@)
}

/// An error stays: once a prefix of the lines fails to parse, every longer
/// prefix fails the same way.
pub proof fn lemma_parse_error_sticks(lines: Seq<Seq<char>>, a: int, b: int)
    requires
        0 <= a <= b <= lines.len(),
        parse_lines_spec(lines.take(a)) is Err,
    ensures
        parse_lines_spec(lines.take(b)) == parse_lines_spec(lines.take(a)),
    decreases b - a,
{
    if a < b {
        lemma_parse_error_sticks(lines, a, b - 1);
        assert(lines.take(b).drop_last() =~= lines.take(b - 1));
    }
}

/// The custom image never holds more characters than the configuration
/// lines it came from.
pub proof fn lemma_parse_images_bound(lines: Seq<Seq<char>>)
    ensures
        parse_lines_spec(lines) matches Ok(c) ==> 0 <= sum_lens(c.images) <= sum_lens(lines),
    decreases lines.len(),
{
    if lines.len() == 0 {
        assert(sum_lens(Seq::<Seq<char>>::empty()) == 0);
    } else {
        lemma_parse_images_bound(lines.drop_last());
        if parse_lines_spec(lines) matches Ok(c) {
            let c0 = parse_lines_spec(lines.drop_last())->Ok_0;
            let last = lines.last();
            if last.len() > 0 && last[0] == '|' {
                let pushed = c0.images.push(last.drop_first());
                assert(pushed.drop_last() =~= c0.images);
                assert(pushed.last() == last.drop_first());
                assert(sum_lens(pushed) == sum_lens(c0.images) + last.drop_first().len());
            }
        }
    }
}

/// The only parse error is an unknown modifier keyword.
pub proof fn lemma_parse_error_is_unknown(lines: Seq<Seq<char>>)
    ensures
        parse_lines_spec(lines) is Err ==> parse_lines_spec(lines) == Err::<
            ConfigView,
            ConfigError,
        >(ConfigError::UnknownModifier),
    decreases lines.len(),
{
    if lines.len() > 0 {
        lemma_parse_error_is_unknown(lines.drop_last());
    }
}

/// A parsed configuration: the secret dictionary in file order, the custom
/// image rows, and the disclosure policy.
pub struct Config {
    pub secrets: Vec<SecretPhrase>,
    pub images: Vec<Vec<char>>,
    pub policy: DisclosurePolicy,
}

impl View for Config {
    type V = ConfigView;

    open spec fn view(&self) -> ConfigView {
        ConfigView {
            secrets: phrase_views(self.secrets@),
            images: lines_view(self.images@),
            policy: self.policy,
        }
    }
}

impl Config {
    /// Reads a whole configuration text, as [`parse_config_spec`]
    /// describes. The only error is a modifier line with an unknown
    /// keyword; an empty result is a valid configuration.
    pub fn parse(text: &Vec<char>) -> (r: Result<Config, ConfigError>)
        ensures
            match r {
                Ok(c) => {
                    &&& parse_config_spec(text@) == Ok::<ConfigView, ConfigError>(c@)
                    &&& forall|i: int| 0 <= i < c.secrets@.len() ==> (#[trigger] c.secrets@[i]).wf()
                    &&& 0 <= sum_lens(c@.images) <= text@.len()
                },
                Err(e) => parse_config_spec(text@) == Err::<ConfigView, ConfigError>(e),
            },
    {
        let lines = split_into_lines(text);
        let ghost lviews = lines_view(lines@);
        let m = lines.len();
        let mut secrets: Vec<SecretPhrase> = Vec::new();
        let mut images: Vec<Vec<char>> = Vec::new();
        let mut policy = DisclosurePolicy::SuccessRewarding;
        let mut i: usize = 0;
        proof {
            assert(lviews.take(0) =~= Seq::<Seq<char>>::empty());
            assert(ConfigView {
                secrets: phrase_views(secrets@),
                images: lines_view(images@),
                policy,
            } =~= empty_config());
        }
        while i < m
            invariant
                m == lines@.len(),
                lviews == lines_view(lines@),
                lviews == split_lines(text@),
                i <= m,
                parse_lines_spec(lviews.take(i as int)) == Ok::<ConfigView, ConfigError>(
                    ConfigView {
                        secrets: phrase_views(secrets@),
                        images: lines_view(images@),
                        policy,
                    },
                ),
                forall|p: int| 0 <= p < secrets@.len() ==> (#[trigger] secrets@[p]).wf(),
            decreases m - i,
        {
            let ghost cv = ConfigView {
                secrets: phrase_views(secrets@),
                images: lines_view(images@),
                policy,
            };
            let line = &lines[i];
            let ghost lv = line@;
            proof {
                assert(lv == lviews[i as int]);
            }
            if line.len() > 0 && line[0] == '|' {
                let tail = tail_of(line);
                let ghost prev_images = images@;
                images.push(tail);
                proof {
                    assert(lines_view(images@) =~= lines_view(prev_images).push(lv.drop_first()));
                    assert(apply_line(cv, lv) == Ok::<ConfigView, ConfigError>(
                        ConfigView { images: cv.images.push(lv.drop_first()), ..cv },
                    ));
                }
            } else if line.len() > 0 && line[0] == ':' {
                let tail = tail_of(line);
                let t = trimmed(&tail);
                if chars_eq_str(&t, SUCCESS_KEYWORD) {
                    policy = DisclosurePolicy::SuccessRewarding;
                } else if chars_eq_str(&t, TRADITIONAL_KEYWORD) {
                    policy = DisclosurePolicy::TraditionalRewarding;
                } else {
                    proof {
                        assert(parse_policy_spec(lv.drop_first()) is None);
                        assert(parse_lines_spec(lviews.take(i as int + 1)) == Err::<
                            ConfigView,
                            ConfigError,
                        >(ConfigError::UnknownModifier)) by {
                            assert(lviews.take(i as int + 1).drop_last() =~= lviews.take(i as int));
                            assert(lviews.take(i as int + 1).last() == lv);
                        }
                        lemma_parse_error_sticks(lviews, i as int + 1, m as int);
                        assert(parse_lines_spec(lviews.take(m as int)) == Err::<
                            ConfigView,
                            ConfigError,
                        >(ConfigError::UnknownModifier));
                        assert(lviews.take(m as int) =~= lviews);
                        assert(lviews.take(m as int) == lviews);
                        assert(parse_lines_spec(lviews) == Err::<ConfigView, ConfigError>(
                            ConfigError::UnknownModifier,
                        ));
                        assert(parse_config_spec(text@) == Err::<ConfigView, ConfigError>(
                            ConfigError::UnknownModifier,
                        ));
                    }
                    return Err(ConfigError::UnknownModifier);
                }
            } else {
                let t = trimmed(line);
                if t.len() > 0 && t[0] == '#' {
                } else {
                    proof {
                        assert(!is_comment(lv));
                    }
                    match SecretPhrase::parse_line(line) {
                        Some(p) => {
                            let ghost prev_secrets = secrets@;
                            secrets.push(p);
                            proof {
                                assert(phrase_views(secrets@) =~= phrase_views(prev_secrets).push(
                                    p@,
                                ));
                            }
                        },
                        None => {},
                    }
                }
            }
            i = i + 1;
            proof {
                assert(lviews.take(i as int).drop_last() =~= lviews.take(i as int - 1));
                assert(lviews.take(i as int).last() == lviews[i as int - 1]);
                let cv2 = ConfigView {
                    secrets: phrase_views(secrets@),
                    images: lines_view(images@),
                    policy,
                };
                assert(apply_line(cv, lv) == Ok::<ConfigView, ConfigError>(cv2)) by {
                    if lv.len() > 0 && lv[0] == '|' {
                        assert(cv2 =~= ConfigView { images: cv.images.push(lv.drop_first()), ..cv });
                    } else if lv.len() > 0 && lv[0] == ':' {
                        assert(cv2 =~= ConfigView { policy, ..cv });
                    } else if is_comment(lv) {
                        assert(cv2 =~= cv);
                    } else {
                        match parse_secret_spec(lv) {
                            Some(s) => {
                                assert(cv2 =~= ConfigView { secrets: cv.secrets.push(s), ..cv });
                            },
                            None => {
                                assert(cv2 =~= cv);
                            },
                        }
                    }
                }
            }
        }
        proof {
            assert(lviews.take(m as int) =~= lviews);
            lemma_parse_images_bound(lviews);
            crate::image::lemma_split_sum(text@);
        }
        Ok(Config { secrets, images, policy })
    }
}

} // verus!
