//! Secret phrases: a line of characters, each tagged `Hidden` or `Clear`.
//!
//! A phrase is read from one configuration line. Substrings enclosed in a
//! pair of hint markers (`_`) are `Clear` from the start; every other
//! character is `Hidden`, except whitespace, which always stays `Clear` so
//! that word boundaries remain visible. The marker characters themselves are
//! not part of the phrase.
use crate::text::is_space_char;
use crate::text::trim;
use crate::text::trimmed;
use vstd::prelude::*;

verus! {

/// One character of a secret phrase. `hidden` characters must be uncovered
/// by the player; the others are shown from the start.
#[derive(Clone, Copy, PartialEq, Eq, Debug)]
pub struct SecretChar {
    pub ch: char,
    pub hidden: bool,
}

/// A secret phrase: a non-empty run of tagged characters.
pub struct SecretPhrase {
    pub chars: Vec<SecretChar>,
}

impl View for SecretPhrase {
    type V = Seq<SecretChar>;

    open spec fn view(&self) -> Seq<SecretChar> {
        self.chars@
    }
}

/// A well-formed phrase has at least one character, and its whitespace is
/// never hidden.
pub open spec fn phrase_wf(s: Seq<SecretChar>) -> bool {
    &&& s.len() >= 1
    &&& forall|i: int|
        0 <= i < s.len() ==> (is_space_char(#[trigger] s[i].ch) ==> !s[i].hidden)
}

/// How many of the first `n` characters are hidden.
pub open spec fn hidden_prefix(s: Seq<SecretChar>, n: int) -> int
    decreases n,
{
    if n <= 0 {
        0
    } else {
        hidden_prefix(s, n - 1) + if s[n - 1].hidden {
            1int
        } else {
            0int
        }
    }
}

/// How many characters of the phrase are hidden.
pub open spec fn hidden_count(s: Seq<SecretChar>) -> int {
    hidden_prefix(s, s.len() as int)
}

pub proof fn lemma_hidden_prefix_bounds(s: Seq<SecretChar>, n: int)
    ensures
        0 <= hidden_prefix(s, n) <= if n >= 0 {
            n
        } else {
            0
        },
    decreases n,
{
    if n > 0 {
        lemma_hidden_prefix_bounds(s, n - 1);
    }
}

/// A positive hidden count names a hidden position.
pub proof fn lemma_hidden_prefix_pos(s: Seq<SecretChar>, n: int)
    requires
        hidden_prefix(s, n) > 0,
    ensures
        exists|i: int| 0 <= i < n && s[i].hidden,
    decreases n,
{
    if n > 0 {
        if s[n - 1].hidden {
            assert(0 <= n - 1 < n && s[n - 1].hidden);
        } else {
            lemma_hidden_prefix_pos(s, n - 1);
        }
    }
}

/// The tagged character that `c` becomes: hidden outside a hint span, and
/// never hidden when it is whitespace.
pub open spec fn tag_char(c: char, in_hint: bool) -> SecretChar {
    SecretChar { ch: c, hidden: !in_hint && !is_space_char(c) }
}

/// The tagging of one trimmed line: hint markers toggle between hidden and
/// clear spans and are dropped; whitespace is always clear.
pub open spec fn mark_line(s: Seq<char>, in_hint: bool) -> Seq<SecretChar>
    decreases s.len(),
{
    if s.len() == 0 {
        Seq::empty()
    } else if s[0] == '_' {
        mark_line(s.drop_first(), !in_hint)
    } else {
        seq![tag_char(s[0], in_hint)] + mark_line(s.drop_first(), in_hint)
    }
}

/// What one raw configuration line yields: the tagged characters of its
/// trimmed text, or nothing when no character remains once the hint markers
/// are dropped.
pub open spec fn parse_secret_spec(line: Seq<char>) -> Option<Seq<SecretChar>> {
    let m = mark_line(trim(line), false);
    if m.len() == 0 {
        None
    } else {
        Some(m)
    }
}

/// Whitespace is never hidden in a marked line.
pub proof fn lemma_mark_line_spaces_clear(s: Seq<char>, in_hint: bool, i: int)
    requires
        0 <= i < mark_line(s, in_hint).len(),
        is_space_char(mark_line(s, in_hint)[i].ch),
    ensures
        !mark_line(s, in_hint)[i].hidden,
    decreases s.len(),
{
    if s.len() == 0 {
    } else if s[0] == '_' {
        lemma_mark_line_spaces_clear(s.drop_first(), !in_hint, i);
    } else {
        let m = mark_line(s, in_hint);
        let rest = mark_line(s.drop_first(), in_hint);
        assert(m == seq![tag_char(s[0], in_hint)] + rest);
        if i > 0 {
            assert(m[i] == rest[i - 1]);
            lemma_mark_line_spaces_clear(s.drop_first(), in_hint, i - 1);
        }
    }
}

impl SecretPhrase {
    /// Whether this phrase is well formed.
    pub open spec fn wf(&self) -> bool {
        phrase_wf(self@)
    }

    /// An identical copy of the phrase.
    pub fn duplicate(&self) -> (r: SecretPhrase)
        ensures
            r@ == self@,
    {
        let n = self.chars.len();
        let mut out: Vec<SecretChar> = Vec::new();
        let mut i: usize = 0;
        while i < n
            invariant
                n == self.chars@.len(),
                i <= n,
                out@ == self.chars@.take(i as int),
            decreases n - i,
        {
            out.push(self.chars[i]);
            i = i + 1;
            proof {
                assert(out@ =~= self.chars@.take(i as int));
            }
        }
        proof {
            assert(out@ =~= self.chars@);
        }
        SecretPhrase { chars: out }
    }

    /// Reads one raw configuration line into a phrase. Leading and trailing
    /// whitespace is trimmed first; a line left without characters (blank,
    /// or holding only hint markers) yields nothing.
    pub fn parse_line(line: &Vec<char>) -> (r: Option<SecretPhrase>)
        ensures
            match r {
                Some(p) => {
                    &&& parse_secret_spec(line@) == Some(p@)
                    &&& p.wf()
                },
                None => parse_secret_spec(line@) is None,
            },
    {
        let t = trimmed(line);
        let n = t.len();
        let ghost tv = t@;
        let mut out: Vec<SecretChar> = Vec::new();
        let mut in_hint = false;
        let mut i: usize = 0;
        proof {
            assert(tv.skip(0) =~= tv);
            assert(Seq::<SecretChar>::empty() + mark_line(tv, false) =~= mark_line(tv, false));
        }
        while i < n
            invariant
                n == tv.len(),
                t@ == tv,
                i <= n,
                mark_line(tv, false) == out@ + mark_line(tv.skip(i as int), in_hint),
            decreases n - i,
        {
            let c = t[i];
            proof {
                assert(tv.skip(i as int)[0] == tv[i as int]);
                assert(tv.skip(i as int).drop_first() =~= tv.skip(i as int + 1));
            }
            if c == '_' {
                in_hint = !in_hint;
            } else {
                let sc = SecretChar { ch: c, hidden: !in_hint && !crate::text::is_space(c) };
                let ghost prev = out@;
                out.push(sc);
                proof {
                    let ghost sct = tag_char(tv[i as int], in_hint);
                    assert(sc == sct);
                    assert(out@ =~= prev + seq![sct]);
                    assert((prev + seq![sct]) + mark_line(tv.skip(i as int + 1), in_hint) =~= prev
                        + (seq![sct] + mark_line(tv.skip(i as int + 1), in_hint)));
                }
            }
            i = i + 1;
        }
        proof {
            assert(tv.skip(n as int) =~= Seq::<char>::empty());
            assert(out@ + Seq::<SecretChar>::empty() =~= out@);
            assert(mark_line(tv, false) == out@);
            assert forall|j: int|
                0 <= j < out@.len() && is_space_char(#[trigger] out@[j].ch) implies !out@[j].hidden by {
                lemma_mark_line_spaces_clear(tv, false, j);
            }
        }
        if out.len() == 0 {
            None
        } else {
            Some(SecretPhrase { chars: out })
        }
    }
}

} // verus!
