//! The image-disclosure engine.
//!
//! A template is a stack of text rows. Its non-whitespace characters belong
//! to the drawing and are disclosure-eligible; whitespace only lays the
//! drawing out and is always shown. Flattening the eligible characters in
//! reading order gives each one a rank, and a disclosure budget `k` shows
//! exactly those of rank under `k`: a shown character renders as its glyph,
//! a withheld one as a blank. The budget comes from the round's progress
//! under one of two policies, and a won round always shows everything.
use crate::secret::hidden_count;
use crate::game::revealed_hidden_count;
use crate::game::step;
use crate::game::game_wf;
use crate::game::Game;
use crate::game::GameState;
use crate::game::GameView;
use crate::game::lemma_progress_monotone;
use crate::game::lemma_step_preserves_wf;
use crate::game::lemma_revealed_prefix_bounds;
use crate::text::chars_of;
use crate::text::is_space_char;
use crate::text::lines_view;
use crate::text::split_into_lines;
use crate::text::split_lines;
use vstd::arithmetic::div_mod::lemma_div_is_ordered;
use vstd::arithmetic::div_mod::lemma_div_multiples_vanish;
use vstd::arithmetic::mul::lemma_mul_inequality;
use vstd::prelude::*;

verus! {

/// How game progress maps to the disclosure budget: rewarding success shows
/// more for every uncovered hidden character; rewarding tradition shows
/// more for every lost life.
#[derive(Clone, Copy, PartialEq, Eq, Structural, Debug)]
pub enum DisclosurePolicy {
    SuccessRewarding,
    TraditionalRewarding,
}

/// Whether `c` belongs to the drawing of a template.
pub open spec fn is_eligible(c: char) -> bool {
    !is_space_char(c)
}

/// How many of the first `n` characters of a row belong to the drawing.
pub open spec fn eligible_prefix(line: Seq<char>, n: int) -> int
    decreases n,
{
    if n <= 0 {
        0
    } else {
        eligible_prefix(line, n - 1) + if is_eligible(line[n - 1]) {
            1int
        } else {
            0int
        }
    }
}

/// How many characters of a row belong to the drawing.
pub open spec fn eligible_in_line(line: Seq<char>) -> int {
    eligible_prefix(line, line.len() as int)
}

/// How many drawing characters the first `n` rows hold.
pub open spec fn eligible_rows_prefix(rows: Seq<Seq<char>>, n: int) -> int
    decreases n,
{
    if n <= 0 {
        0
    } else {
        eligible_rows_prefix(rows, n - 1) + eligible_in_line(rows[n - 1])
    }
}

/// How many drawing characters the template holds.
pub open spec fn eligible_total(rows: Seq<Seq<char>>) -> int {
    eligible_rows_prefix(rows, rows.len() as int)
}

/// The rank of position `(i, j)`: how many drawing characters come before
/// it in reading order.
pub open spec fn rank(rows: Seq<Seq<char>>, i: int, j: int) -> int {
    eligible_rows_prefix(rows, i) + eligible_prefix(rows[i], j)
}

/// What position `(i, j)` shows under disclosure budget `k`: a drawing
/// character of rank under `k` shows itself, a withheld drawing character
/// shows a blank, and a layout character always shows itself.
pub open spec fn disclosed_at(rows: Seq<Seq<char>>, i: int, j: int, k: int) -> char {
    if is_eligible(rows[i][j]) {
        if rank(rows, i, j) < k {
            rows[i][j]
        } else {
            ' '
        }
    } else {
        rows[i][j]
    }
}

/// The sum of the row lengths.
pub open spec fn sum_lens(rows: Seq<Seq<char>>) -> int
    decreases rows.len(),
{
    if rows.len() == 0 {
        0
    } else {
        sum_lens(rows.drop_last()) + rows.last().len()
    }
}

pub proof fn lemma_eligible_prefix_bounds(line: Seq<char>, n: int)
    ensures
        0 <= eligible_prefix(line, n) <= if n >= 0 {
            n
        } else {
            0
        },
    decreases n,
{
    if n > 0 {
        lemma_eligible_prefix_bounds(line, n - 1);
    }
}

pub proof fn lemma_eligible_prefix_mono(line: Seq<char>, a: int, b: int)
    requires
        a <= b,
    ensures
        eligible_prefix(line, a) <= eligible_prefix(line, b),
    decreases b - a,
{
    if a < b {
        lemma_eligible_prefix_mono(line, a, b - 1);
        lemma_eligible_prefix_bounds(line, b - 1);
    }
}

pub proof fn lemma_eligible_rows_prefix_mono(rows: Seq<Seq<char>>, a: int, b: int)
    requires
        0 <= a <= b,
    ensures
        eligible_rows_prefix(rows, a) <= eligible_rows_prefix(rows, b),
    decreases b - a,
{
    if a < b {
        lemma_eligible_rows_prefix_mono(rows, a, b - 1);
        lemma_eligible_prefix_bounds(rows[b - 1], rows[b - 1].len() as int);
    }
}

/// A position's rank stays under the template's total.
pub proof fn lemma_rank_le_total(rows: Seq<Seq<char>>, i: int, j: int)
    requires
        0 <= i < rows.len(),
        0 <= j <= rows[i].len(),
    ensures
        0 <= rank(rows, i, j),
        rank(rows, i, j) + (if j < rows[i].len() && is_eligible(rows[i][j]) {
            1int
        } else {
            0int
        }) <= eligible_total(rows),
    decreases rows.len(),
{
    lemma_eligible_rows_prefix_mono(rows, 0, i);
    lemma_eligible_prefix_bounds(rows[i], j);
    if j < rows[i].len() && is_eligible(rows[i][j]) {
        lemma_eligible_prefix_mono(rows[i], j + 1, rows[i].len() as int);
    } else {
        lemma_eligible_prefix_mono(rows[i], j, rows[i].len() as int);
    }
    lemma_eligible_rows_prefix_mono(rows, i + 1, rows.len() as int);
}

/// A template without a drawing character has none in any row.
pub proof fn lemma_no_eligible_anywhere(rows: Seq<Seq<char>>, i: int, j: int)
    requires
        eligible_total(rows) == 0,
        0 <= i < rows.len(),
        0 <= j < rows[i].len(),
    ensures
        !is_eligible(rows[i][j]),
{
    lemma_rank_le_total(rows, i, j);
}

/// No row holds more drawing characters than characters.
pub proof fn lemma_eligible_le_sum(rows: Seq<Seq<char>>)
    ensures
        eligible_total(rows) <= sum_lens(rows),
        0 <= sum_lens(rows),
    decreases rows.len(),
{
    if rows.len() == 0 {
    } else {
        let m = rows.drop_last();
        lemma_eligible_le_sum(m);
        lemma_eligible_prefix_bounds(rows.last(), rows.last().len() as int);
        assert(eligible_rows_prefix(rows, rows.len() - 1) == eligible_rows_prefix(
            m,
            m.len() as int,
        )) by {
            lemma_eligible_rows_prefix_take(rows, rows.len() - 1);
        }
    }
}

/// The drawing characters of the first `n` rows do not care about the rows
/// after them.
pub proof fn lemma_eligible_rows_prefix_take(rows: Seq<Seq<char>>, n: int)
    requires
        0 <= n <= rows.len(),
    ensures
        eligible_rows_prefix(rows, n) == eligible_rows_prefix(rows.take(n), n),
        eligible_rows_prefix(rows, n) == eligible_total(rows.take(n)),
    decreases n,
{
    if n > 0 {
        lemma_eligible_rows_prefix_take(rows, n - 1);
        assert(rows.take(n - 1) =~= rows.take(n).take(n - 1));
        lemma_eligible_rows_prefix_take(rows.take(n), n - 1);
    }
}

/// Splitting text into lines never yields more characters than the text.
pub proof fn lemma_split_sum(s: Seq<char>)
    ensures
        sum_lens(split_lines(s)) <= s.len(),
    decreases s.len(),
{
    if s.len() > 0 {
        crate::text::lemma_first_nl_bounds(s);
        let k = crate::text::first_nl(s) as int;
        if k >= s.len() {
            lemma_sum_lens_cons(crate::text::strip_cr(s), Seq::<Seq<char>>::empty());
            assert(seq![crate::text::strip_cr(s)] + Seq::<Seq<char>>::empty() =~= seq![
                crate::text::strip_cr(s),
            ]);
        } else {
            lemma_split_sum(s.skip(k + 1));
            lemma_sum_lens_cons(
                crate::text::strip_cr(s.take(k)),
                split_lines(s.skip(k + 1)),
            );
        }
    }
}

/// The character count of a stack of rows, split at its first row.
pub proof fn lemma_sum_lens_cons(first: Seq<char>, rest: Seq<Seq<char>>)
    ensures
        sum_lens(seq![first] + rest) == first.len() + sum_lens(rest),
    decreases rest.len(),
{
    let whole = seq![first] + rest;
    if rest.len() == 0 {
        assert(sum_lens(Seq::<Seq<char>>::empty()) == 0);
        assert(whole.drop_last() =~= Seq::<Seq<char>>::empty());
        assert(whole.last() == first);
        assert(whole.len() == 1);
        assert(sum_lens(whole) == sum_lens(whole.drop_last()) + whole.last().len());
    } else {
        assert(whole.drop_last() =~= seq![first] + rest.drop_last());
        lemma_sum_lens_cons(first, rest.drop_last());
        assert(whole.last() == rest.last());
    }
}

/// A template image: rows of characters with a fixed drawing mask. Well
/// formed when its drawing-character count fits the machine word, which any
/// template read from one piece of text satisfies.
pub struct ImageTemplate {
    pub lines: Vec<Vec<char>>,
}

impl ImageTemplate {
    /// The rows of the template.
    pub open spec fn rows(&self) -> Seq<Seq<char>> {
        lines_view(self.lines@)
    }

    /// Whether the drawing-character count fits the machine word.
    pub open spec fn wf(&self) -> bool {
        eligible_total(self.rows()) <= usize::MAX as int
    }

    /// Builds a template from rows of characters.
    pub fn from_rows(lines: Vec<Vec<char>>) -> (t: ImageTemplate)
        requires
            eligible_total(lines_view(lines@)) <= usize::MAX as int,
        ensures
            t.rows() == lines_view(lines@),
            t.wf(),
    {
        ImageTemplate { lines }
    }

    /// Builds a template from raw text, one row per line.
    pub fn from_text(text: &Vec<char>) -> (t: ImageTemplate)
        ensures
            t.rows() == split_lines(text@),
            t.wf(),
    {
        let n = text.len();
        proof {
            lemma_split_sum(text@);
            lemma_eligible_le_sum(split_lines(text@));
        }
        let lines = split_into_lines(text);
        ImageTemplate { lines }
    }

    /// How many characters of the template belong to the drawing.
    pub fn eligible_count(&self) -> (n: usize)
        requires
            self.wf(),
        ensures
            n as int == eligible_total(self.rows()),
    {
        let rows_n = self.lines.len();
        let mut count: usize = 0;
        let mut i: usize = 0;
        while i < rows_n
            invariant
                self.wf(),
                rows_n == self.rows().len(),
                i <= rows_n,
                count as int == eligible_rows_prefix(self.rows(), i as int),
            decreases rows_n - i,
        {
            let line_n = self.lines[i].len();
            let mut j: usize = 0;
            while j < line_n
                invariant
                    self.wf(),
                    rows_n == self.rows().len(),
                    i < rows_n,
                    line_n == self.rows()[i as int].len(),
                    j <= line_n,
                    count as int == rank(self.rows(), i as int, j as int),
                decreases line_n - j,
            {
                proof {
                    lemma_rank_le_total(self.rows(), i as int, j as int);
                }
                if !crate::text::is_space(self.lines[i][j]) {
                    count = count + 1;
                }
                j = j + 1;
            }
            i = i + 1;
        }
        proof {
            lemma_eligible_rows_prefix_take(self.rows(), rows_n as int);
            assert(self.rows().take(rows_n as int) =~= self.rows());
        }
        count
    }

    /// The rows shown under disclosure budget `k`, position by position.
    pub fn disclose(&self, k: usize) -> (r: Vec<Vec<char>>)
        requires
            self.wf(),
        ensures
            r@.len() == self.rows().len(),
            forall|i: int| 0 <= i < r@.len() ==> (#[trigger] r@[i])@.len() == self.rows()[i].len(),
            forall|i: int, j: int|
                0 <= i < r@.len() && 0 <= j < r@[i]@.len() ==> (#[trigger] r@[i]@[j]) == disclosed_at(
                    self.rows(),
                    i,
                    j,
                    k as int,
                ),
    {
        let rows_n = self.lines.len();
        let mut r: Vec<Vec<char>> = Vec::new();
        let mut shown: usize = 0;
        let mut i: usize = 0;
        while i < rows_n
            invariant
                self.wf(),
                rows_n == self.rows().len(),
                i <= rows_n,
                r@.len() == i,
                shown as int == if rank(self.rows(), i as int, 0) < k as int {
                    rank(self.rows(), i as int, 0)
                } else {
                    k as int
                },
                forall|a: int| 0 <= a < i ==> (#[trigger] r@[a])@.len() == self.rows()[a].len(),
                forall|a: int, b: int|
                    0 <= a < i && 0 <= b < r@[a]@.len() ==> (#[trigger] r@[a]@[b]) == disclosed_at(
                        self.rows(),
                        a,
                        b,
                        k as int,
                    ),
            decreases rows_n - i,
        {
            let line_n = self.lines[i].len();
            let mut out: Vec<char> = Vec::new();
            let mut j: usize = 0;
            while j < line_n
                invariant
                    self.wf(),
                    rows_n == self.rows().len(),
                    i < rows_n,
                    line_n == self.rows()[i as int].len(),
                    j <= line_n,
                    out@.len() == j,
                    shown as int == if rank(self.rows(), i as int, j as int) < k as int {
                        rank(self.rows(), i as int, j as int)
                    } else {
                        k as int
                    },
                    forall|b: int|
                        0 <= b < j ==> (#[trigger] out@[b]) == disclosed_at(
                            self.rows(),
                            i as int,
                            b,
                            k as int,
                        ),
                decreases line_n - j,
            {
                let c = self.lines[i][j];
                proof {
                    lemma_rank_le_total(self.rows(), i as int, j as int);
                }
                if crate::text::is_space(c) {
                    out.push(c);
                } else {
                    if shown < k {
                        out.push(c);
                        shown = shown + 1;
                    } else {
                        out.push(' ');
                    }
                }
                j = j + 1;
            }
            r.push(out);
            i = i + 1;
            proof {
                assert(rank(self.rows(), i as int, 0) == rank(
                    self.rows(),
                    i as int - 1,
                    self.rows()[i as int - 1].len() as int,
                ));
            }
        }
        r
    }
}

/// The built-in picture shown when the configuration brings no image of its
/// own and the policy rewards success.
pub const SUCCESS_ART: &'static str = "         ,.\n        (_|,.\n       ,' /, )_______\n    __j o``-'        `\n   (\")\n    `-j                |\n      `-._(           /\n         |_\\  |--^.  /\n        /_]'|_| /_)_/\n           /_]'  /_]'";

/// The built-in gallows shown when the configuration brings no image of its
/// own and the policy rewards tradition.
pub const TRADITIONAL_ART: &'static str = "  ______\n  |    |\n  |    O\n  |   /|\\\n  |    |\n  |   / \\\n__|_____\n|      |___\n|_________|";

/// The text of the built-in picture that fits the policy.
pub open spec fn built_in_text(policy: DisclosurePolicy) -> Seq<char> {
    match policy {
        DisclosurePolicy::SuccessRewarding => SUCCESS_ART@,
        DisclosurePolicy::TraditionalRewarding => TRADITIONAL_ART@,
    }
}

/// The built-in template that fits the policy.
pub fn built_in_template(policy: DisclosurePolicy) -> (t: ImageTemplate)
    ensures
        t.rows() == split_lines(built_in_text(policy)),
        t.wf(),
{
    let s = match policy {
        DisclosurePolicy::SuccessRewarding => SUCCESS_ART,
        DisclosurePolicy::TraditionalRewarding => TRADITIONAL_ART,
    };
    let v = chars_of(s);
    ImageTemplate::from_text(&v)
}

/// The disclosure budget of a round under a policy, for a drawing of `n`
/// characters: the whole drawing on victory; otherwise, rewarding success,
/// the revealed share of the hidden characters, and rewarding tradition,
/// the lost share of the lives, each rounded down.
pub open spec fn budget(policy: DisclosurePolicy, v: GameView, n: int) -> int {
    if v.state == GameState::Victory {
        n
    } else {
        match policy {
            DisclosurePolicy::SuccessRewarding => revealed_hidden_count(v) * n / hidden_count(
                v.secret,
            ),
            DisclosurePolicy::TraditionalRewarding => v.wrong * n / v.max_lives,
        }
    }
}

/// `a * b / c`, exactly, for `a <= c`.
fn mul_div(a: usize, b: usize, c: usize) -> (r: usize)
    requires
        1 <= c,
        a <= c,
    ensures
        r as int == a as int * b as int / c as int,
        r <= b,
{
    proof {
        assert((a as int) * (b as int) < 340282366920938463463374607431768211455int)
            by (nonlinear_arith)
            requires
                0 <= a as int <= 18446744073709551615int,
                0 <= b as int <= 18446744073709551615int,
        ;
        lemma_mul_inequality(a as int, c as int, b as int);
        lemma_div_is_ordered((a as int) * (b as int), (c as int) * (b as int), c as int);
        lemma_div_multiples_vanish(b as int, c as int);
        assert((a as int) * (b as int) >= 0) by (nonlinear_arith)
            requires
                a as int >= 0,
                b as int >= 0,
        ;
        lemma_div_is_ordered(0, (a as int) * (b as int), c as int);
    }
    let p: u128 = (a as u128) * (b as u128);
    let q: u128 = p / (c as u128);
    q as usize
}

/// The disclosure budget of `game` for a drawing of `n` characters.
pub fn reveal_budget(policy: DisclosurePolicy, game: &Game, n: usize) -> (k: usize)
    requires
        game_wf(game@),
    ensures
        k as int == budget(policy, game@, n as int),
        k <= n,
{
    if game.state == GameState::Victory {
        n
    } else {
        match policy {
            DisclosurePolicy::SuccessRewarding => {
                let f = game.progress_fraction();
                mul_div(f.0, n, f.1)
            },
            DisclosurePolicy::TraditionalRewarding => mul_div(game.wrong, n, game.max_lives),
        }
    }
}

impl ImageTemplate {
    /// The rows of the template as `game` has earned them under `policy`:
    /// disclosure under the budget of the round.
    pub fn disclose_for(&self, policy: DisclosurePolicy, game: &Game) -> (r: Vec<Vec<char>>)
        requires
            self.wf(),
            game_wf(game@),
        ensures
            r@.len() == self.rows().len(),
            forall|i: int| 0 <= i < r@.len() ==> (#[trigger] r@[i])@.len() == self.rows()[i].len(),
            forall|i: int, j: int|
                0 <= i < r@.len() && 0 <= j < r@[i]@.len() ==> (#[trigger] r@[i]@[j]) == disclosed_at(
                    self.rows(),
                    i,
                    j,
                    budget(policy, game@, eligible_total(self.rows())),
                ),
    {
        let n = self.eligible_count();
        let k = reveal_budget(policy, game, n);
        self.disclose(k)
    }
}

/// The budget never leaves the drawing: it lies between nothing and all of
/// its `n` characters.
pub proof fn lemma_budget_in_range(policy: DisclosurePolicy, v: GameView, n: int)
    requires
        game_wf(v),
        n >= 0,
    ensures
        0 <= budget(policy, v, n) <= n,
{
    if v.state != GameState::Victory {
        let (num, den): (int, int) = match policy {
            DisclosurePolicy::SuccessRewarding => (
                revealed_hidden_count(v),
                hidden_count(v.secret),
            ),
            DisclosurePolicy::TraditionalRewarding => (v.wrong, v.max_lives),
        };
        lemma_revealed_prefix_bounds(v.secret, v.revealed, v.secret.len() as int);
        assert(0 <= num <= den && 1 <= den);
        lemma_mul_inequality(num, den, n);
        lemma_div_is_ordered(num * n, den * n, den);
        lemma_div_multiples_vanish(n, den);
        assert(num * n >= 0) by (nonlinear_arith)
            requires
                num >= 0,
                n >= 0,
        ;
        lemma_div_is_ordered(0, num * n, den);
    }
}

/// Within a round the picture only ever grows: under either policy, a guess
/// never lowers the disclosure budget, the count of drawing characters that
/// are shown.
pub proof fn lemma_disclosure_monotone(
    policy: DisclosurePolicy,
    v: GameView,
    g: Option<char>,
    n: int,
)
    requires
        game_wf(v),
        n >= 0,
    ensures
        budget(policy, v, n) <= budget(policy, step(v, g), n),
{
    let w = step(v, g);
    lemma_progress_monotone(v, g);
    lemma_step_preserves_wf(v, g);
    if w.state == GameState::Victory {
        lemma_budget_in_range(policy, v, n);
    } else {
        let (num1, num2, den): (int, int, int) = match policy {
            DisclosurePolicy::SuccessRewarding => (
                revealed_hidden_count(v),
                revealed_hidden_count(w),
                hidden_count(v.secret),
            ),
            DisclosurePolicy::TraditionalRewarding => (v.wrong, w.wrong, v.max_lives),
        };
        assert(num1 <= num2 && 1 <= den);
        lemma_mul_inequality(num1, num2, n);
        lemma_div_is_ordered(num1 * n, num2 * n, den);
        assert(v.state != GameState::Victory);
    }
}

/// A template without a single drawing character always shows itself whole,
/// whatever the budget.
pub proof fn lemma_zero_eligible_shows_all(rows: Seq<Seq<char>>, i: int, j: int, k: int)
    requires
        eligible_total(rows) == 0,
        0 <= i < rows.len(),
        0 <= j < rows[i].len(),
    ensures
        disclosed_at(rows, i, j, k) == rows[i][j],
{
    lemma_no_eligible_anywhere(rows, i, j);
}

} // verus!
