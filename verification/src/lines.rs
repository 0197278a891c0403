//! Splitting text into lines and trimming white space.

use crate::text::push_char;
use vstd::prelude::*;

verus! {

/// Whether `c` is white space: a character with the Unicode property
/// `White_Space`.
pub open spec fn is_white_space(c: char) -> bool {
    ||| '\u{9}' <= c <= '\u{d}'
    ||| c == ' '
    ||| c == '\u{85}'
    ||| c == '\u{a0}'
    ||| c == '\u{1680}'
    ||| '\u{2000}' <= c <= '\u{200a}'
    ||| c == '\u{2028}'
    ||| c == '\u{2029}'
    ||| c == '\u{202f}'
    ||| c == '\u{205f}'
    ||| c == '\u{3000}'
}

/// Tells whether `c` is white space.
pub fn white_space(c: char) -> (r: bool)
    ensures
        r == is_white_space(c),
{
    ('\u{9}' <= c && c <= '\u{d}') || c == ' ' || c == '\u{85}' || c == '\u{a0}' || c == '\u{1680}'
        || ('\u{2000}' <= c && c <= '\u{200a}') || c == '\u{2028}' || c == '\u{2029}' || c
        == '\u{202f}' || c == '\u{205f}' || c == '\u{3000}'
}

/// `s` without the white space at its start.
pub open spec fn trimmed_start(s: Seq<char>) -> Seq<char>
    decreases s.len(),
{
    if s.len() > 0 && is_white_space(s[0]) {
        trimmed_start(s.drop_first())
    } else {
        s
    }
}

/// `s` without the white space at its end.
pub open spec fn trimmed_end(s: Seq<char>) -> Seq<char>
    decreases s.len(),
{
    if s.len() > 0 && is_white_space(s.last()) {
        trimmed_end(s.drop_last())
    } else {
        s
    }
}

/// `s` without the white space at its start and at its end.
pub open spec fn trimmed(s: Seq<char>) -> Seq<char> {
    trimmed_end(trimmed_start(s))
}

/// Skipping white space up to a character that is none gives the rest.
proof fn lemma_trimmed_start(s: Seq<char>, a: int)
    requires
        0 <= a <= s.len(),
        forall|k: int| 0 <= k < a ==> is_white_space(#[trigger] s[k]),
        a < s.len() ==> !is_white_space(s[a]),
    ensures
        trimmed_start(s) == s.subrange(a, s.len() as int),
    decreases a,
{
    if a == 0 {
        assert(s.subrange(0, s.len() as int) =~= s);
    } else {
        let rest = s.drop_first();
        assert forall|k: int| 0 <= k < a - 1 implies is_white_space(#[trigger] rest[k]) by {
            assert(rest[k] == s[k + 1]);
        }
        lemma_trimmed_start(rest, a - 1);
        assert(rest.subrange(a - 1, rest.len() as int) =~= s.subrange(a, s.len() as int));
    }
}

/// Dropping white space from the end down to a character that is none gives
/// what stands before.
proof fn lemma_trimmed_end(s: Seq<char>, b: int)
    requires
        0 <= b <= s.len(),
        forall|k: int| b <= k < s.len() ==> is_white_space(#[trigger] s[k]),
        b > 0 ==> !is_white_space(s[b - 1]),
    ensures
        trimmed_end(s) == s.subrange(0, b),
    decreases s.len() - b,
{
    if b == s.len() {
        assert(s.subrange(0, s.len() as int) =~= s);
    } else {
        let rest = s.drop_last();
        lemma_trimmed_end(rest, b);
        assert(rest.subrange(0, b) =~= s.subrange(0, b));
    }
}

/// The characters of `v` from `from` up to `to`, trimmed.
pub fn trim_range(v: &Vec<char>, from: usize, to: usize) -> (r: String)
    requires
        from <= to <= v@.len(),
    ensures
        r@ == trimmed(v@.subrange(from as int, to as int)),
{
    let ghost s = v@.subrange(from as int, to as int);
    let mut a: usize = from;
    while a < to && white_space(v[a])
        invariant
            from <= a <= to <= v@.len(),
            forall|k: int| from <= k < a ==> is_white_space(#[trigger] v@[k]),
        decreases to - a,
    {
        a = a + 1;
    }
    let mut b: usize = to;
    while b > a && white_space(v[b - 1])
        invariant
            a <= b <= to <= v@.len(),
            forall|k: int| b <= k < to ==> is_white_space(#[trigger] v@[k]),
        decreases b,
    {
        b = b - 1;
    }
    proof {
        lemma_trimmed_start(s, a - from);
        let rest = s.subrange(a - from, s.len() as int);
        assert(rest =~= v@.subrange(a as int, to as int));
        lemma_trimmed_end(rest, b - a);
        assert(rest.subrange(0, b - a) =~= v@.subrange(a as int, b as int));
    }
    let mut out = String::new();
    let mut i: usize = a;
    while i < b
        invariant
            a <= i <= b <= v@.len(),
            out@ == v@.subrange(a as int, i as int),
        decreases b - i,
    {
        push_char(&mut out, v[i]);
        proof {
            assert(v@.subrange(a as int, i as int).push(v@[i as int]) =~= v@.subrange(
                a as int,
                i as int + 1,
            ));
        }
        i = i + 1;
    }
    out
}

/// How many characters stand before the first line feed of `s`: all of them
/// where it has none.
pub open spec fn first_line_len(s: Seq<char>) -> nat
    decreases s.len(),
{
    if s.len() == 0 || s[0] == '\n' {
        0
    } else {
        1 + first_line_len(s.drop_first())
    }
}

/// The lines of `s`: what stands between its line feeds. A line feed at the
/// very end opens no further line, and the empty text has no line.
///
/// A carriage return before a line feed stays in its line. It is white
/// space, and the lines are trimmed wherever this library takes them.
pub open spec fn split_lines(s: Seq<char>) -> Seq<Seq<char>>
    decreases s.len(),
{
    if s.len() == 0 {
        Seq::empty()
    } else {
        let n = first_line_len(s) as int;
        if n >= s.len() {
            seq![s]
        } else {
            seq![s.subrange(0, n)] + split_lines(s.subrange(n + 1, s.len() as int))
        }
    }
}

/// Where no line feed stands before place `n`, and one stands at `n` unless
/// the text ends there, the first line has `n` characters.
proof fn lemma_first_line_len(s: Seq<char>, n: int)
    requires
        0 <= n <= s.len(),
        forall|k: int| 0 <= k < n ==> #[trigger] s[k] != '\n',
        n < s.len() ==> s[n] == '\n',
    ensures
        first_line_len(s) == n,
    decreases n,
{
    if n > 0 {
        let rest = s.drop_first();
        assert forall|k: int| 0 <= k < n - 1 implies #[trigger] rest[k] != '\n' by {
            assert(rest[k] == s[k + 1]);
        }
        lemma_first_line_len(rest, n - 1);
    }
}

/// The lines that the ranges `bounds` cut out of `s`.
pub open spec fn lines_at(s: Seq<char>, bounds: Seq<(usize, usize)>) -> Seq<Seq<char>> {
    Seq::new(bounds.len(), |i: int| s.subrange(bounds[i].0 as int, bounds[i].1 as int))
}

/// Finds the lines of `v`: for each line, the place where it starts and the
/// place where it ends.
pub fn line_bounds(v: &Vec<char>) -> (r: Vec<(usize, usize)>)
    ensures
        forall|i: int| 0 <= i < r@.len() ==> (#[trigger] r@[i]).0 <= r@[i].1 <= v@.len(),
        lines_at(v@, r@) == split_lines(v@),
{
    let n = v.len();
    let mut bounds: Vec<(usize, usize)> = Vec::new();
    let mut start: usize = 0;
    let mut i: usize = 0;
    proof {
        assert(v@.subrange(0, n as int) =~= v@);
        assert(lines_at(v@, bounds@) + split_lines(v@) =~= split_lines(v@));
    }
    while i < n
        invariant
            start <= i <= n,
            n == v@.len(),
            forall|k: int| 0 <= k < bounds@.len() ==> (#[trigger] bounds@[k]).0 <= bounds@[k].1 <= n,
            forall|k: int| start <= k < i ==> #[trigger] v@[k] != '\n',
            split_lines(v@) == lines_at(v@, bounds@) + split_lines(v@.subrange(start as int, n as int)),
        decreases n - i,
    {
        if v[i] == '\n' {
            proof {
                let rest = v@.subrange(start as int, n as int);
                assert forall|k: int| 0 <= k < i - start implies #[trigger] rest[k] != '\n' by {
                    assert(rest[k] == v@[start + k]);
                }
                lemma_first_line_len(rest, i - start);
                assert(rest.subrange(0, i - start) =~= v@.subrange(start as int, i as int));
                assert(rest.subrange(i - start + 1, rest.len() as int) =~= v@.subrange(
                    i as int + 1,
                    n as int,
                ));
                assert(lines_at(v@, bounds@.push((start, i))) =~= lines_at(v@, bounds@) + seq![
                    v@.subrange(start as int, i as int),
                ]);
            }
            bounds.push((start, i));
            start = i + 1;
        }
        i = i + 1;
    }
    if start < n {
        proof {
            let rest = v@.subrange(start as int, n as int);
            assert forall|k: int| 0 <= k < n - start implies #[trigger] rest[k] != '\n' by {
                assert(rest[k] == v@[start + k]);
            }
            lemma_first_line_len(rest, n - start);
            assert(lines_at(v@, bounds@.push((start, n))) =~= lines_at(v@, bounds@) + seq![rest]);
        }
        bounds.push((start, n));
    } else {
        proof {
            assert(lines_at(v@, bounds@) + Seq::<Seq<char>>::empty() =~= lines_at(v@, bounds@));
        }
    }
    bounds
}

} // verus!
