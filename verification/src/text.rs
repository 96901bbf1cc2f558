//! Character-level helpers shared by the parser, the state machine and the
//! image engine: the whitespace test, case-insensitive character matching,
//! and a verified conversion from `&str` to `Vec<char>`.
use vstd::prelude::*;
use vstd::string::StrSliceExecFns;

verus! {

/// Whitespace as this crate understands it: the blank and the horizontal tab.
/// These characters always stay visible in a secret phrase and never belong
/// to the drawing of an image template.
pub open spec fn is_space_char(c: char) -> bool {
    c == ' ' || c == '\t'
}

/// Executable form of [`is_space_char`].
pub fn is_space(c: char) -> (r: bool)
    ensures
        r == is_space_char(c),
{
    c == ' ' || c == '\t'
}

/// The code point of `c` with an ASCII capital letter folded to lower case;
/// every other character is left as it is.
pub open spec fn fold_char(c: char) -> int {
    if 'A' as int <= c as int && c as int <= 'Z' as int {
        c as int + 32
    } else {
        c as int
    }
}

/// Two characters match when they are equal up to ASCII case.
pub open spec fn chars_match(a: char, b: char) -> bool {
    fold_char(a) == fold_char(b)
}

/// Executable form of [`chars_match`].
pub fn chars_match_exec(a: char, b: char) -> (r: bool)
    ensures
        r == chars_match(a, b),
{
    let au = a as u32;
    let bu = b as u32;
    let af: u32 = if 65 <= au && au <= 90 {
        au + 32
    } else {
        au
    };
    let bf: u32 = if 65 <= bu && bu <= 90 {
        bu + 32
    } else {
        bu
    };
    af == bf
}

/// `s` without its leading whitespace.
pub open spec fn trim_front(s: Seq<char>) -> Seq<char>
    decreases s.len(),
{
    if s.len() > 0 && is_space_char(s[0]) {
        trim_front(s.drop_first())
    } else {
        s
    }
}

/// `s` without its trailing whitespace.
pub open spec fn trim_back(s: Seq<char>) -> Seq<char>
    decreases s.len(),
{
    if s.len() > 0 && is_space_char(s.last()) {
        trim_back(s.drop_last())
    } else {
        s
    }
}

/// `s` without leading or trailing whitespace.
pub open spec fn trim(s: Seq<char>) -> Seq<char> {
    trim_back(trim_front(s))
}

/// A copy of `v` without leading or trailing whitespace.
pub fn trimmed(v: &Vec<char>) -> (r: Vec<char>)
    ensures
        r@ == trim(v@),
{
    let n = v.len();
    proof {
        assert(v@.skip(0) =~= v@);
    }
    let mut start: usize = 0;
    while start < n && is_space(v[start])
        invariant
            n == v@.len(),
            start <= n,
            trim_front(v@) == trim_front(v@.skip(start as int)),
        decreases n - start,
    {
        proof {
            assert(v@.skip(start as int).drop_first() =~= v@.skip(start as int + 1));
        }
        start = start + 1;
    }
    proof {
        if start == n {
            assert(v@.skip(start as int) =~= Seq::<char>::empty());
        }
        assert(trim_front(v@) == v@.skip(start as int));
        assert(v@.skip(start as int) =~= v@.subrange(start as int, n as int));
    }
    let mut end: usize = n;
    while end > start && is_space(v[end - 1])
        invariant
            n == v@.len(),
            start <= end <= n,
            trim_front(v@) == v@.skip(start as int),
            trim_back(v@.skip(start as int)) == trim_back(v@.subrange(start as int, end as int)),
        decreases end,
    {
        proof {
            assert(v@.subrange(start as int, end as int).drop_last() =~= v@.subrange(
                start as int,
                end as int - 1,
            ));
        }
        end = end - 1;
    }
    proof {
        assert(trim(v@) == v@.subrange(start as int, end as int));
    }
    let mut r: Vec<char> = Vec::new();
    let mut i: usize = start;
    while i < end
        invariant
            n == v@.len(),
            start <= i <= end <= n,
            r@ == v@.subrange(start as int, i as int),
        decreases end - i,
    {
        r.push(v[i]);
        i = i + 1;
        proof {
            assert(r@ =~= v@.subrange(start as int, i as int));
        }
    }
    r
}

/// The index of the first line break in `s`, or the length of `s` when it
/// has none.
pub open spec fn first_nl(s: Seq<char>) -> nat
    decreases s.len(),
{
    if s.len() == 0 {
        0
    } else if s[0] == '\n' {
        0
    } else {
        1 + first_nl(s.drop_first())
    }
}

pub proof fn lemma_first_nl_bounds(s: Seq<char>)
    ensures
        first_nl(s) <= s.len(),
    decreases s.len(),
{
    if s.len() > 0 && s[0] != '\n' {
        lemma_first_nl_bounds(s.drop_first());
    }
}

/// In `a + b`, when `a` holds no line break and `b` is empty or starts with
/// one, the first break sits exactly at `a`'s end.
pub proof fn lemma_first_nl_concat(a: Seq<char>, b: Seq<char>)
    requires
        forall|j: int| 0 <= j < a.len() ==> a[j] != '\n',
        b.len() == 0 || b[0] == '\n',
    ensures
        first_nl(a + b) == a.len(),
    decreases a.len(),
{
    if a.len() == 0 {
        assert(a + b =~= b);
    } else {
        assert((a + b)[0] == a[0]);
        assert((a + b).drop_first() =~= a.drop_first() + b);
        assert forall|j: int| 0 <= j < a.drop_first().len() implies a.drop_first()[j] != '\n' by {
            assert(a.drop_first()[j] == a[j + 1]);
        }
        lemma_first_nl_concat(a.drop_first(), b);
    }
}

/// `line` without one trailing carriage return, if it carries one.
pub open spec fn strip_cr(line: Seq<char>) -> Seq<char> {
    if line.len() > 0 && line.last() == '\r' {
        line.drop_last()
    } else {
        line
    }
}

/// The lines of `s`: split at each line break, with one trailing carriage
/// return dropped from each line. Text after the last break is a final
/// line; empty text has no lines.
pub open spec fn split_lines(s: Seq<char>) -> Seq<Seq<char>>
    decreases s.len(),
{
    if s.len() == 0 {
        Seq::empty()
    } else {
        let k = first_nl(s) as int;
        if k >= s.len() {
            seq![strip_cr(s)]
        } else {
            seq![strip_cr(s.take(k))] + split_lines(s.skip(k + 1))
        }
    }
}

/// The sequences of characters held by a vector of lines.
pub open spec fn lines_view(v: Seq<Vec<char>>) -> Seq<Seq<char>> {
    Seq::new(v.len(), |i: int| v[i]@)
}

/// Splits text into its lines, as [`split_lines`] describes.
pub fn split_into_lines(text: &Vec<char>) -> (r: Vec<Vec<char>>)
    ensures
        lines_view(r@) == split_lines(text@),
{
    let n = text.len();
    let mut done: Vec<Vec<char>> = Vec::new();
    let mut cur: Vec<char> = Vec::new();
    let mut i: usize = 0;
    proof {
        assert(cur@ + text@.skip(0) =~= text@);
        assert(lines_view(done@) + split_lines(text@) =~= split_lines(text@));
    }
    while i < n
        invariant
            n == text@.len(),
            i <= n,
            forall|j: int| 0 <= j < cur@.len() ==> cur@[j] != '\n',
            split_lines(text@) == lines_view(done@) + split_lines(cur@ + text@.skip(i as int)),
        decreases n - i,
    {
        let c = text[i];
        proof {
            assert(text@.skip(i as int)[0] == text@[i as int]);
        }
        if c == '\n' {
            let ghost prev_done = done@;
            let ghost prev_cur = cur@;
            let mut line = cur;
            cur = Vec::new();
            if line.len() > 0 && line[line.len() - 1] == '\r' {
                line.pop();
            }
            proof {
                assert(line@ == strip_cr(prev_cur));
            }
            done.push(line);
            proof {
                let s = prev_cur + text@.skip(i as int);
                lemma_first_nl_concat(prev_cur, text@.skip(i as int));
                assert(first_nl(s) == prev_cur.len());
                assert(s.len() > prev_cur.len());
                assert(s.take(prev_cur.len() as int) =~= prev_cur);
                assert(s.skip(prev_cur.len() as int + 1) =~= text@.skip(i as int + 1));
                assert(split_lines(s) == seq![strip_cr(prev_cur)] + split_lines(
                    text@.skip(i as int + 1),
                ));
                assert(lines_view(done@) =~= lines_view(prev_done) + seq![strip_cr(prev_cur)]);
                assert((lines_view(prev_done) + seq![strip_cr(prev_cur)]) + split_lines(
                    text@.skip(i as int + 1),
                ) =~= lines_view(prev_done) + (seq![strip_cr(prev_cur)] + split_lines(
                    text@.skip(i as int + 1),
                )));
                assert(cur@ + text@.skip(i as int + 1) =~= text@.skip(i as int + 1));
            }
        } else {
            let ghost prev_cur = cur@;
            cur.push(c);
            proof {
                assert(cur@ + text@.skip(i as int + 1) =~= prev_cur + text@.skip(i as int));
            }
        }
        i = i + 1;
    }
    if cur.len() > 0 {
        let ghost prev_done = done@;
        let ghost prev_cur = cur@;
        let mut line = cur;
        if line.len() > 0 && line[line.len() - 1] == '\r' {
            line.pop();
        }
        proof {
            assert(line@ == strip_cr(prev_cur));
        }
        done.push(line);
        proof {
            let s = prev_cur + Seq::<char>::empty();
            assert(prev_cur + text@.skip(n as int) =~= s);
            assert(s =~= prev_cur);
            lemma_first_nl_concat(prev_cur, Seq::<char>::empty());
            assert(first_nl(prev_cur) == prev_cur.len());
            assert(split_lines(prev_cur) == seq![strip_cr(prev_cur)]);
            assert(lines_view(done@) =~= lines_view(prev_done) + seq![strip_cr(prev_cur)]);
            assert(lines_view(prev_done) + seq![strip_cr(prev_cur)] =~= lines_view(done@)
                + Seq::<Seq<char>>::empty());
            assert(lines_view(done@) + Seq::<Seq<char>>::empty() =~= lines_view(done@));
        }
    } else {
        proof {
            assert(cur@ + text@.skip(n as int) =~= Seq::<char>::empty());
            assert(lines_view(done@) + split_lines(Seq::<char>::empty()) =~= lines_view(done@));
        }
    }
    done
}


/// A copy of `v` without its first character.
pub fn tail_of(v: &Vec<char>) -> (r: Vec<char>)
    requires
        v@.len() >= 1,
    ensures
        r@ == v@.drop_first(),
{
    let n = v.len();
    let mut r: Vec<char> = Vec::new();
    let mut i: usize = 1;
    while i < n
        invariant
            n == v@.len(),
            1 <= i <= n,
            r@ == v@.subrange(1, i as int),
        decreases n - i,
    {
        r.push(v[i]);
        i = i + 1;
        proof {
            assert(r@ =~= v@.subrange(1, i as int));
        }
    }
    proof {
        assert(r@ =~= v@.drop_first());
    }
    r
}

/// Whether the characters of `v` spell exactly the string `s`.
pub fn chars_eq_str(v: &Vec<char>, s: &str) -> (r: bool)
    ensures
        r == (v@ == s@),
{
    let n = s.unicode_len();
    if v.len() != n {
        return false;
    }
    let mut i: usize = 0;
    while i < n
        invariant
            i <= n,
            n == s@.len(),
            n == v@.len(),
            forall|j: int| 0 <= j < i ==> v@[j] == s@[j],
        decreases n - i,
    {
        if v[i] != s.get_char(i) {
            return false;
        }
        i = i + 1;
    }
    proof {
        assert(v@ =~= s@);
    }
    true
}

/// The characters of `s`, in order, as a vector.
pub fn chars_of(s: &str) -> (v: Vec<char>)
    ensures
        v@ == s@,
{
    let n = s.unicode_len();
    let mut v: Vec<char> = Vec::new();
    let mut i: usize = 0;
    while i < n
        invariant
            n == s@.len(),
            i <= n,
            v@ == s@.take(i as int),
        decreases n - i,
    {
        let c = s.get_char(i);
        v.push(c);
        i = i + 1;
        proof {
            assert(v@ =~= s@.take(i as int));
        }
    }
    proof {
        assert(v@ =~= s@);
    }
    v
}

} // verus!
