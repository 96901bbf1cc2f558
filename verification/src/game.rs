//! The guessing state machine: one round of the game.
//!
//! A round owns a secret phrase, the set of positions uncovered so far, the
//! count of wrong guesses, and the configured number of lives. Each guess
//! either reveals every hidden position whose letter matches (case
//! insensitively), or costs one life. The round ends in `Victory` once every
//! hidden position is revealed, and in `Defeat` once the wrong guesses use
//! up all lives; a finished round absorbs further guesses.
use crate::errors::ConfigError;
use crate::secret::hidden_count;
use crate::secret::hidden_prefix;
use crate::secret::lemma_hidden_prefix_bounds;
use crate::secret::lemma_hidden_prefix_pos;
use crate::secret::phrase_wf;
use crate::secret::SecretChar;
use crate::secret::SecretPhrase;
use crate::text::chars_match;
use crate::text::chars_match_exec;
use vstd::prelude::*;

verus! {

/// The outcome of a round so far.
#[derive(Clone, Copy, PartialEq, Eq, Structural, Debug)]
pub enum GameState {
    Ongoing,
    Victory,
    Defeat,
}

/// The mathematical state of a round, used by every contract of this module.
#[verifier::ext_equal]
pub struct GameView {
    pub secret: Seq<SecretChar>,
    pub revealed: Seq<bool>,
    pub wrong: int,
    pub max_lives: int,
    pub last_guess_correct: bool,
    pub state: GameState,
}

/// How many of the first `n` positions are hidden and already revealed.
pub open spec fn revealed_prefix(sec: Seq<SecretChar>, rev: Seq<bool>, n: int) -> int
    decreases n,
{
    if n <= 0 {
        0
    } else {
        revealed_prefix(sec, rev, n - 1) + if sec[n - 1].hidden && rev[n - 1] {
            1int
        } else {
            0int
        }
    }
}

/// How many hidden positions of the round are revealed.
pub open spec fn revealed_hidden_count(v: GameView) -> int {
    revealed_prefix(v.secret, v.revealed, v.secret.len() as int)
}

/// Whether guessing `g` hits `secret`: some hidden position carries a
/// matching letter. A position stays a hit even once revealed, so repeating
/// a correct guess stays correct and costs nothing.
pub open spec fn hit_in(secret: Seq<SecretChar>, g: char) -> bool {
    exists|i: int|
        0 <= i < secret.len() && (#[trigger] secret[i]).hidden && chars_match(secret[i].ch, g)
}

/// Whether guessing `g` hits the round.
pub open spec fn is_hit(v: GameView, g: char) -> bool {
    hit_in(v.secret, g)
}

/// Whether guessing `g` uncovers at least one position of `secret` not yet
/// marked in `revealed`.
pub open spec fn fresh_hit_in(secret: Seq<SecretChar>, revealed: Seq<bool>, g: char) -> bool {
    exists|i: int|
        0 <= i < secret.len() && (#[trigger] secret[i]).hidden && !revealed[i] && chars_match(
            secret[i].ch,
            g,
        )
}

/// Whether guessing `g` uncovers at least one position not yet revealed.
pub open spec fn has_fresh_hit(v: GameView, g: char) -> bool {
    fresh_hit_in(v.secret, v.revealed, g)
}

/// Whether every hidden position of `secret` is marked in `revealed`.
pub open spec fn all_revealed_in(secret: Seq<SecretChar>, revealed: Seq<bool>) -> bool {
    forall|i: int| 0 <= i < secret.len() ==> ((#[trigger] secret[i]).hidden ==> revealed[i])
}

/// Whether every hidden position is revealed.
pub open spec fn all_hidden_revealed(v: GameView) -> bool {
    all_revealed_in(v.secret, v.revealed)
}

/// The outcome that a round with these pieces calls for: victory once
/// nothing stays hidden, defeat once the lives are used up, and an ongoing
/// round otherwise.
pub open spec fn outcome(
    secret: Seq<SecretChar>,
    revealed: Seq<bool>,
    wrong: int,
    max_lives: int,
) -> GameState {
    if all_revealed_in(secret, revealed) {
        GameState::Victory
    } else if wrong >= max_lives {
        GameState::Defeat
    } else {
        GameState::Ongoing
    }
}

/// The outcome that the other fields of `v` call for.
pub open spec fn outcome_of(v: GameView) -> GameState {
    outcome(v.secret, v.revealed, v.wrong, v.max_lives)
}

/// A well-formed round: the reveal marks cover the secret exactly, the
/// secret is a well-formed phrase with something to guess, the wrong-guess
/// count never passes the configured lives, and the outcome field agrees
/// with the rest.
pub open spec fn game_wf(v: GameView) -> bool {
    &&& v.revealed.len() == v.secret.len()
    &&& phrase_wf(v.secret)
    &&& hidden_count(v.secret) >= 1
    &&& 1 <= v.max_lives
    &&& 0 <= v.wrong <= v.max_lives
    &&& v.state == outcome_of(v)
}

/// The state of a freshly started round: nothing revealed, no wrong guess,
/// all lives left.
pub open spec fn init_view(secret: Seq<SecretChar>, max_lives: int) -> GameView {
    GameView {
        secret,
        revealed: Seq::new(secret.len(), |i: int| false),
        wrong: 0,
        max_lives,
        last_guess_correct: false,
        state: GameState::Ongoing,
    }
}

/// The reveal marks after a hit with `g`: every hidden position with a
/// matching letter is now revealed.
pub open spec fn reveal_marks(secret: Seq<SecretChar>, revealed: Seq<bool>, g: char) -> Seq<bool> {
    Seq::new(
        revealed.len(),
        |i: int| revealed[i] || (secret[i].hidden && chars_match(secret[i].ch, g)),
    )
}

/// The reveal marks of the round after a hit with `g`.
pub open spec fn reveal_hits(v: GameView, g: char) -> Seq<bool> {
    reveal_marks(v.secret, v.revealed, g)
}

/// The round after a correct guess of `g`.
pub open spec fn step_hit(v: GameView, g: char) -> GameView {
    let v2 = GameView { revealed: reveal_hits(v, g), last_guess_correct: true, ..v };
    GameView { state: outcome_of(v2), ..v2 }
}

/// The round after a wrong guess, or after empty input.
pub open spec fn step_miss(v: GameView) -> GameView {
    let v2 = GameView { wrong: v.wrong + 1, last_guess_correct: false, ..v };
    GameView { state: outcome_of(v2), ..v2 }
}

/// The round after one guess. A finished round absorbs the guess; empty
/// input counts as a wrong guess.
pub open spec fn step(v: GameView, g: Option<char>) -> GameView {
    if v.state != GameState::Ongoing {
        v
    } else {
        match g {
            Some(c) => if is_hit(v, c) {
                step_hit(v, c)
            } else {
                step_miss(v)
            },
            None => step_miss(v),
        }
    }
}

/// The glyph shown at one position of the secret mask: the placeholder for
/// a hidden position not yet revealed, the character itself otherwise.
pub open spec fn mask_char(sc: SecretChar, rev: bool) -> char {
    if sc.hidden && !rev {
        '_'
    } else {
        sc.ch
    }
}

/// The rendered mask of the secret: each position's glyph followed by a
/// blank.
pub open spec fn mask_spec(secret: Seq<SecretChar>, revealed: Seq<bool>) -> Seq<char> {
    Seq::new(
        2 * secret.len(),
        |k: int|
            if k % 2 == 0 {
                mask_char(secret[k / 2], revealed[k / 2])
            } else {
                ' '
            },
    )
}

/// One round of the game.
pub struct Game {
    pub secret: SecretPhrase,
    pub revealed: Vec<bool>,
    pub wrong: usize,
    pub max_lives: usize,
    pub last_guess_correct: bool,
    pub state: GameState,
}

impl View for Game {
    type V = GameView;

    open spec fn view(&self) -> GameView {
        GameView {
            secret: self.secret@,
            revealed: self.revealed@,
            wrong: self.wrong as int,
            max_lives: self.max_lives as int,
            last_guess_correct: self.last_guess_correct,
            state: self.state,
        }
    }
}

impl Game {
    /// Starts a round over `secret` with `max_lives` lives. A secret without
    /// a single hidden character makes an unwinnable round and is rejected
    /// as a configuration error.
    pub fn new(secret: SecretPhrase, max_lives: usize) -> (r: Result<Game, ConfigError>)
        requires
            secret.wf(),
            max_lives >= 1,
        ensures
            r is Ok <==> hidden_count(secret@) >= 1,
            r matches Err(e) ==> e == ConfigError::UnwinnableSecret,
            r matches Ok(g) ==> g@ == init_view(secret@, max_lives as int) && game_wf(g@),
    {
        let n = secret.chars.len();
        let mut hidden: usize = 0;
        let mut i: usize = 0;
        while i < n
            invariant
                n == secret@.len(),
                i <= n,
                hidden as int == hidden_prefix(secret@, i as int),
                hidden <= i,
            decreases n - i,
        {
            if secret.chars[i].hidden {
                hidden = hidden + 1;
            }
            i = i + 1;
        }
        if hidden == 0 {
            Err(ConfigError::UnwinnableSecret)
        } else {
            let mut revealed: Vec<bool> = Vec::new();
            let mut j: usize = 0;
            while j < n
                invariant
                    j <= n,
                    revealed@.len() == j,
                    forall|k: int| 0 <= k < j ==> !(#[trigger] revealed@[k]),
                decreases n - j,
            {
                revealed.push(false);
                j = j + 1;
            }
            let g = Game {
                secret,
                revealed,
                wrong: 0,
                max_lives,
                last_guess_correct: false,
                state: GameState::Ongoing,
            };
            proof {
                assert(g.revealed@ =~= Seq::new(g.secret@.len(), |i: int| false));
                assert(g@ =~= init_view(g.secret@, max_lives as int));
                lemma_hidden_prefix_pos(g.secret@, n as int);
                let w = choose|i: int| 0 <= i < n && g.secret@[i].hidden;
                assert(0 <= w < g@.secret.len() && (g@.secret[w]).hidden && !g@.revealed[w]);
                assert(!all_hidden_revealed(g@));
            }
            Ok(g)
        }
    }

    /// The lives that are left: the configured lives minus the wrong guesses.
    pub fn lives_remaining(&self) -> (r: usize)
        requires
            game_wf(self@),
        ensures
            r as int == self@.max_lives - self@.wrong,
    {
        self.max_lives - self.wrong
    }

    /// Whether `g` hits this round: some hidden position carries a matching
    /// letter.
    fn find_hit(&self, g: char) -> (r: bool)
        ensures
            r == hit_in(self.secret@, g),
    {
        let n = self.secret.chars.len();
        let mut r = false;
        let mut i: usize = 0;
        while i < n
            invariant
                n == self.secret@.len(),
                i <= n,
                r == exists|j: int|
                    0 <= j < i && (#[trigger] self.secret@[j]).hidden && chars_match(
                        self.secret@[j].ch,
                        g,
                    ),
            decreases n - i,
        {
            let sc = self.secret.chars[i];
            if sc.hidden && chars_match_exec(sc.ch, g) {
                proof {
                    assert(0 <= i < n && self.secret@[i as int].hidden && chars_match(
                        self.secret@[i as int].ch,
                        g,
                    ));
                }
                r = true;
            }
            i = i + 1;
        }
        r
    }

    /// Marks every hidden position whose letter matches `g` as revealed.
    fn reveal_matching(&mut self, g: char)
        requires
            old(self).revealed@.len() == old(self).secret@.len(),
        ensures
            final(self).secret == old(self).secret,
            final(self).wrong == old(self).wrong,
            final(self).max_lives == old(self).max_lives,
            final(self).last_guess_correct == old(self).last_guess_correct,
            final(self).state == old(self).state,
            final(self).revealed@ == reveal_marks(old(self).secret@, old(self).revealed@, g),
    {
        let n = self.secret.chars.len();
        let mut i: usize = 0;
        while i < n
            invariant
                self.secret == old(self).secret,
                self.wrong == old(self).wrong,
                self.max_lives == old(self).max_lives,
                self.last_guess_correct == old(self).last_guess_correct,
                self.state == old(self).state,
                n == self.secret@.len(),
                self.revealed@.len() == n,
                i <= n,
                forall|j: int|
                    0 <= j < i ==> (#[trigger] self.revealed@[j]) == (old(self).revealed@[j] || (
                    old(self).secret@[j].hidden && chars_match(old(self).secret@[j].ch, g))),
                forall|j: int| i <= j < n ==> (#[trigger] self.revealed@[j]) == old(self).revealed@[j],
            decreases n - i,
        {
            let sc = self.secret.chars[i];
            if sc.hidden && chars_match_exec(sc.ch, g) {
                self.revealed.set(i, true);
            }
            i = i + 1;
        }
        proof {
            assert(self.revealed@ =~= reveal_marks(old(self).secret@, old(self).revealed@, g));
        }
    }

    /// Sets the outcome field to what the other fields call for.
    fn recompute_state(&mut self)
        requires
            old(self).revealed@.len() == old(self).secret@.len(),
        ensures
            final(self).secret == old(self).secret,
            final(self).revealed == old(self).revealed,
            final(self).wrong == old(self).wrong,
            final(self).max_lives == old(self).max_lives,
            final(self).last_guess_correct == old(self).last_guess_correct,
            final(self).state == outcome(
                old(self).secret@,
                old(self).revealed@,
                old(self).wrong as int,
                old(self).max_lives as int,
            ),
    {
        let n = self.secret.chars.len();
        let mut all = true;
        let mut i: usize = 0;
        while i < n
            invariant
                self.secret == old(self).secret,
                self.revealed == old(self).revealed,
                self.wrong == old(self).wrong,
                self.max_lives == old(self).max_lives,
                self.last_guess_correct == old(self).last_guess_correct,
                self.state == old(self).state,
                n == self.secret@.len(),
                self.revealed@.len() == n,
                i <= n,
                all == (forall|j: int|
                    0 <= j < i ==> ((#[trigger] self.secret@[j]).hidden ==> self.revealed@[j])),
            decreases n - i,
        {
            let sc = self.secret.chars[i];
            if sc.hidden && !self.revealed[i] {
                proof {
                    assert((self.secret@[i as int]).hidden && !self.revealed@[i as int]);
                }
                all = false;
            }
            i = i + 1;
        }
        if all {
            self.state = GameState::Victory;
        } else if self.wrong >= self.max_lives {
            self.state = GameState::Defeat;
        } else {
            self.state = GameState::Ongoing;
        }
    }

    /// Applies one guess: a finished round absorbs it; empty input counts as
    /// a wrong guess; a hit reveals every matching hidden position; a miss
    /// costs one life. The outcome is then recomputed.
    pub fn guess(&mut self, g: Option<char>)
        requires
            game_wf(old(self)@),
        ensures
            final(self)@ == step(old(self)@, g),
            game_wf(final(self)@),
    {
        proof {
            lemma_step_preserves_wf(old(self)@, g);
        }
        if !(self.state == GameState::Ongoing) {
            return ;
        }
        let mut was_hit = false;
        if let Some(c) = g {
            if self.find_hit(c) {
                was_hit = true;
                self.reveal_matching(c);
                self.last_guess_correct = true;
            }
        }
        if !was_hit {
            self.wrong = self.wrong + 1;
            self.last_guess_correct = false;
        }
        self.recompute_state();
        proof {
            assert(self@ =~= step(old(self)@, g));
        }
    }

    /// The round's progress as a fraction: how many hidden positions are
    /// revealed, over how many positions are hidden at all.
    pub fn progress_fraction(&self) -> (r: (usize, usize))
        requires
            game_wf(self@),
        ensures
            r.0 as int == revealed_hidden_count(self@),
            r.1 as int == hidden_count(self@.secret),
            r.0 <= r.1,
            r.1 >= 1,
    {
        let n = self.secret.chars.len();
        let mut num: usize = 0;
        let mut den: usize = 0;
        let mut i: usize = 0;
        while i < n
            invariant
                n == self.secret@.len(),
                self.revealed@.len() == n,
                i <= n,
                num as int == revealed_prefix(self.secret@, self.revealed@, i as int),
                den as int == hidden_prefix(self.secret@, i as int),
                num <= den <= i,
            decreases n - i,
        {
            let sc = self.secret.chars[i];
            if sc.hidden {
                den = den + 1;
                if self.revealed[i] {
                    num = num + 1;
                }
            }
            i = i + 1;
        }
        (num, den)
    }

    /// The secret as the player sees it: each hidden, unrevealed position as
    /// the placeholder `_`, every other position as its character, and a
    /// blank after every position.
    pub fn rendered_mask(&self) -> (r: Vec<char>)
        requires
            self@.revealed.len() == self@.secret.len(),
        ensures
            r@ == mask_spec(self@.secret, self@.revealed),
    {
        let n = self.secret.chars.len();
        let ghost ms = mask_spec(self@.secret, self@.revealed);
        let mut r: Vec<char> = Vec::new();
        let mut i: usize = 0;
        while i < n
            invariant
                n == self.secret@.len(),
                self.revealed@.len() == n,
                i <= n,
                ms == mask_spec(self@.secret, self@.revealed),
                r@.len() == 2 * i,
                forall|k: int| 0 <= k < 2 * i ==> (#[trigger] r@[k]) == ms[k],
            decreases n - i,
        {
            let sc = self.secret.chars[i];
            if sc.hidden && !self.revealed[i] {
                r.push('_');
            } else {
                r.push(sc.ch);
            }
            r.push(' ');
            i = i + 1;
        }
        proof {
            assert(r@ =~= ms);
        }
        r
    }
}

/// What the player still sees ahead: the hidden positions not yet revealed,
/// plus the lives that are left. Every effective guess lowers it.
pub open spec fn guess_measure(v: GameView) -> int {
    (hidden_count(v.secret) - revealed_hidden_count(v)) + (v.max_lives - v.wrong)
}

/// The revealed-hidden count never passes the hidden count.
pub proof fn lemma_revealed_prefix_bounds(sec: Seq<SecretChar>, rev: Seq<bool>, n: int)
    ensures
        0 <= revealed_prefix(sec, rev, n) <= hidden_prefix(sec, n),
    decreases n,
{
    if n > 0 {
        lemma_revealed_prefix_bounds(sec, rev, n - 1);
        lemma_hidden_prefix_bounds(sec, n - 1);
    }
}

/// Revealing more positions never lowers the revealed-hidden count.
pub proof fn lemma_revealed_prefix_monotone(
    sec: Seq<SecretChar>,
    rev1: Seq<bool>,
    rev2: Seq<bool>,
    n: int,
)
    requires
        forall|i: int| 0 <= i < n ==> ((#[trigger] rev1[i]) ==> rev2[i]),
    ensures
        revealed_prefix(sec, rev1, n) <= revealed_prefix(sec, rev2, n),
    decreases n,
{
    if n > 0 {
        lemma_revealed_prefix_monotone(sec, rev1, rev2, n - 1);
    }
}

/// Revealing a fresh hidden position raises the revealed-hidden count.
pub proof fn lemma_revealed_prefix_strict(
    sec: Seq<SecretChar>,
    rev1: Seq<bool>,
    rev2: Seq<bool>,
    n: int,
    k: int,
)
    requires
        forall|i: int| 0 <= i < n ==> ((#[trigger] rev1[i]) ==> rev2[i]),
        0 <= k < n,
        sec[k].hidden,
        !rev1[k],
        rev2[k],
    ensures
        revealed_prefix(sec, rev2, n) >= revealed_prefix(sec, rev1, n) + 1,
    decreases n,
{
    if k == n - 1 {
        lemma_revealed_prefix_monotone(sec, rev1, rev2, n - 1);
    } else {
        lemma_revealed_prefix_strict(sec, rev1, rev2, n - 1, k);
    }
}

/// A guess keeps the round well formed.
pub proof fn lemma_step_preserves_wf(v: GameView, g: Option<char>)
    requires
        game_wf(v),
    ensures
        game_wf(step(v, g)),
{
}

/// An unrevealed hidden position keeps the revealed-hidden count strictly
/// under the hidden count.
pub proof fn lemma_revealed_lt_hidden(sec: Seq<SecretChar>, rev: Seq<bool>, n: int, k: int)
    requires
        0 <= k < n,
        sec[k].hidden,
        !rev[k],
    ensures
        revealed_prefix(sec, rev, n) <= hidden_prefix(sec, n) - 1,
    decreases n,
{
    lemma_revealed_prefix_bounds(sec, rev, n - 1);
    if k == n - 1 {
    } else {
        lemma_revealed_lt_hidden(sec, rev, n - 1, k);
    }
}

/// A finished round absorbs every further guess.
pub proof fn lemma_terminal_absorbs(v: GameView, g: Option<char>)
    requires
        v.state != GameState::Ongoing,
    ensures
        step(v, g) == v,
{
}

/// An ongoing round has something left to guess and a life to lose, so its
/// measure is at least two.
pub proof fn lemma_ongoing_measure_pos(v: GameView)
    requires
        game_wf(v),
        v.state == GameState::Ongoing,
    ensures
        guess_measure(v) >= 2,
{
    let n = v.secret.len() as int;
    assert(!all_revealed_in(v.secret, v.revealed));
    let k = choose|i: int|
        !(0 <= i < v.secret.len() ==> ((#[trigger] v.secret[i]).hidden ==> v.revealed[i]));
    lemma_revealed_lt_hidden(v.secret, v.revealed, n, k);
}

/// The heart of termination: in an ongoing round, every guess that is not
/// the repetition of an already fully uncovered letter either reveals at
/// least one new hidden position or costs one life, so the measure falls.
/// From a fresh round it can fall at most `hidden_count + max_lives` times
/// before the round is over.
pub proof fn lemma_guess_progress(v: GameView, g: Option<char>)
    requires
        game_wf(v),
        v.state == GameState::Ongoing,
        match g {
            Some(c) => is_hit(v, c) ==> has_fresh_hit(v, c),
            None => true,
        },
    ensures
        0 <= guess_measure(step(v, g)),
        guess_measure(step(v, g)) < guess_measure(v),
{
    let n = v.secret.len() as int;
    match g {
        Some(c) => {
            if is_hit(v, c) {
                let rev2 = reveal_marks(v.secret, v.revealed, c);
                assert(forall|i: int| 0 <= i < n ==> ((#[trigger] v.revealed[i]) ==> rev2[i]));
                let k = choose|i: int|
                    0 <= i < v.secret.len() && (#[trigger] v.secret[i]).hidden && !v.revealed[i]
                        && chars_match(v.secret[i].ch, c);
                assert(rev2[k]);
                lemma_revealed_prefix_strict(v.secret, v.revealed, rev2, n, k);
                lemma_revealed_prefix_bounds(v.secret, rev2, n);
            } else {
                lemma_revealed_prefix_bounds(v.secret, v.revealed, n);
            }
        },
        None => {
            lemma_revealed_prefix_bounds(v.secret, v.revealed, n);
        },
    }
}

/// Repeating a correct guess is harmless: the round after the second guess
/// is exactly the round after the first, so no life is lost and the outcome
/// stays what the first guess made it.
pub proof fn lemma_repeat_guess_idempotent(v: GameView, c: char)
    requires
        game_wf(v),
        v.state == GameState::Ongoing ==> is_hit(v, c),
    ensures
        step(step(v, Some(c)), Some(c)) == step(v, Some(c)),
{
    if v.state == GameState::Ongoing {
        let w = step_hit(v, c);
        if w.state == GameState::Ongoing {
            assert(is_hit(w, c));
            let rev2 = reveal_marks(v.secret, v.revealed, c);
            let rev3 = reveal_marks(w.secret, w.revealed, c);
            assert(rev3 =~= rev2);
            assert(step_hit(w, c) =~= w);
        }
    }
}

/// Progress never falls: a guess keeps the secret and the configured lives,
/// and never lowers the wrong-guess count nor the revealed-hidden count.
pub proof fn lemma_progress_monotone(v: GameView, g: Option<char>)
    requires
        game_wf(v),
    ensures
        step(v, g).secret == v.secret,
        step(v, g).max_lives == v.max_lives,
        step(v, g).wrong >= v.wrong,
        revealed_hidden_count(step(v, g)) >= revealed_hidden_count(v),
{
    let n = v.secret.len() as int;
    if v.state == GameState::Ongoing {
        match g {
            Some(c) => {
                if is_hit(v, c) {
                    let rev2 = reveal_marks(v.secret, v.revealed, c);
                    assert(forall|i: int| 0 <= i < n ==> ((#[trigger] v.revealed[i]) ==> rev2[i]));
                    lemma_revealed_prefix_monotone(v.secret, v.revealed, rev2, n);
                }
            },
            None => {},
        }
    }
}

/// The round that a sequence of guesses, applied in order, leaves behind.
pub open spec fn play(v: GameView, gs: Seq<char>) -> GameView
    decreases gs.len(),
{
    if gs.len() == 0 {
        v
    } else {
        play(step(v, Some(gs[0])), gs.drop_first())
    }
}

/// A finished round stays finished, whatever else is guessed.
pub proof fn lemma_play_terminal_stays(v: GameView, gs: Seq<char>)
    requires
        v.state != GameState::Ongoing,
    ensures
        play(v, gs) == v,
    decreases gs.len(),
{
    if gs.len() > 0 {
        lemma_play_terminal_stays(v, gs.drop_first());
    }
}

/// Guesses that are pairwise different, up to case.
pub open spec fn all_distinct(gs: Seq<char>) -> bool {
    forall|i: int, j: int| 0 <= i < j < gs.len() ==> !chars_match(gs[i], gs[j])
}

/// Nothing counts as revealed where no mark is set.
pub proof fn lemma_revealed_prefix_none(sec: Seq<SecretChar>, rev: Seq<bool>, n: int)
    requires
        forall|i: int| 0 <= i < n ==> !(#[trigger] rev[i]),
    ensures
        revealed_prefix(sec, rev, n) == 0,
    decreases n,
{
    if n > 0 {
        lemma_revealed_prefix_none(sec, rev, n - 1);
    }
}

/// Enough pairwise distinct guesses decide any round whose possible hits
/// are still fresh: each guess either uncovers a new hidden position or
/// costs a life, so the measure runs out.
pub proof fn lemma_distinct_guesses_decide(v: GameView, gs: Seq<char>)
    requires
        game_wf(v),
        all_distinct(gs),
        forall|i: int|
            0 <= i < gs.len() ==> (is_hit(v, #[trigger] gs[i]) ==> has_fresh_hit(v, gs[i])),
        gs.len() >= guess_measure(v),
    ensures
        play(v, gs).state != GameState::Ongoing,
    decreases gs.len(),
{
    if v.state != GameState::Ongoing {
        lemma_play_terminal_stays(v, gs);
    } else {
        lemma_ongoing_measure_pos(v);
        let g0 = gs[0];
        let w = step(v, Some(g0));
        lemma_guess_progress(v, Some(g0));
        lemma_step_preserves_wf(v, Some(g0));
        lemma_progress_monotone(v, Some(g0));
        let rest = gs.drop_first();
        assert forall|i: int, j: int| 0 <= i < j < rest.len() implies !chars_match(
            rest[i],
            rest[j],
        ) by {
            assert(rest[i] == gs[i + 1] && rest[j] == gs[j + 1]);
        }
        assert forall|i: int|
            0 <= i < rest.len() && is_hit(w, #[trigger] rest[i]) implies has_fresh_hit(
            w,
            rest[i],
        ) by {
            let g = rest[i];
            assert(g == gs[i + 1]);
            assert(w.secret == v.secret);
            assert(is_hit(v, g));
            assert(has_fresh_hit(v, g));
            let p = choose|p: int|
                0 <= p < v.secret.len() && (#[trigger] v.secret[p]).hidden && !v.revealed[p]
                    && chars_match(v.secret[p].ch, g);
            if is_hit(v, g0) {
                assert(w.revealed == reveal_marks(v.secret, v.revealed, g0));
                if chars_match(v.secret[p].ch, g0) {
                    assert(chars_match(gs[0], gs[i + 1]));
                } else {
                    assert(!w.revealed[p]);
                    assert(fresh_hit_in(w.secret, w.revealed, g));
                }
            } else {
                assert(w.revealed == v.revealed);
                assert(fresh_hit_in(w.secret, w.revealed, g));
            }
        }
        lemma_distinct_guesses_decide(w, rest);
        assert(play(v, gs) == play(w, rest));
    }
}

/// However the round is played, pairwise distinct guesses decide it within
/// the count of hidden characters plus the configured lives: each guess
/// either uncovers at least one hidden position or costs one life.
pub proof fn lemma_round_is_decided(secret: Seq<SecretChar>, max_lives: int, gs: Seq<char>)
    requires
        phrase_wf(secret),
        hidden_count(secret) >= 1,
        max_lives >= 1,
        all_distinct(gs),
        gs.len() >= hidden_count(secret) + max_lives,
    ensures
        play(init_view(secret, max_lives), gs).state != GameState::Ongoing,
{
    let v = init_view(secret, max_lives);
    lemma_hidden_prefix_pos(secret, secret.len() as int);
    let h = choose|i: int| 0 <= i < secret.len() as int && secret[i].hidden;
    assert(!v.revealed[h]);
    assert(!all_revealed_in(v.secret, v.revealed));
    assert(game_wf(v));
    lemma_revealed_prefix_none(secret, v.revealed, secret.len() as int);
    assert forall|i: int|
        0 <= i < gs.len() && is_hit(v, #[trigger] gs[i]) implies has_fresh_hit(v, gs[i]) by {
        let g = gs[i];
        let p = choose|p: int|
            0 <= p < secret.len() && (#[trigger] secret[p]).hidden && chars_match(
                secret[p].ch,
                g,
            );
        assert(!v.revealed[p]);
        assert(fresh_hit_in(v.secret, v.revealed, g));
    }
    lemma_distinct_guesses_decide(v, gs);
}

} // verus!
