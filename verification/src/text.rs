//! Text building blocks shared by the encoders: decimal numerals, joining with
//! a separator, and appending to a `String`.

use vstd::prelude::*;
use vstd::string::StringExecFns;

verus! {

/// Appends one character to `s`.
///
/// Trusted: wraps `String::push`, which the standard library documents as
/// appending the given `char` to the end of the string.
#[verifier::external_body]
pub(crate) fn push_char(s: &mut String, c: char)
    ensures
        final(s)@ == old(s)@.push(c),
{
    s.push(c)
}

/// Trusted: `String::from` for a `&str`, which the standard library documents
/// as converting the `&str` into a `String`: the new string holds the same
/// characters.
pub assume_specification<'a>[ <std::string::String as std::convert::From<&'a str>>::from ](
    s: &str,
) -> (r: std::string::String)
    ensures
        r@ == s@,
;

/// Trusted: `From::from` of a type for itself, which the standard library
/// documents as returning the argument unchanged.
pub assume_specification<T>[ <T as std::convert::From<T>>::from ](t: T) -> (r: T)
    ensures
        r == t,
;

/// The character that writes the decimal digit `d`.
pub open spec fn digit_char(d: int) -> char {
    if d == 0 {
        '0'
    } else if d == 1 {
        '1'
    } else if d == 2 {
        '2'
    } else if d == 3 {
        '3'
    } else if d == 4 {
        '4'
    } else if d == 5 {
        '5'
    } else if d == 6 {
        '6'
    } else if d == 7 {
        '7'
    } else if d == 8 {
        '8'
    } else {
        '9'
    }
}

/// The decimal numeral of a natural number: no sign, no leading zero but for
/// zero itself.
pub open spec fn decimal(n: nat) -> Seq<char>
    decreases n,
{
    if n < 10 {
        seq![digit_char(n as int)]
    } else {
        decimal(n / 10).push(digit_char((n % 10) as int))
    }
}

/// The decimal numeral of an integer: a minus sign before the numeral of the
/// magnitude when the integer is negative.
pub open spec fn signed_decimal(i: int) -> Seq<char> {
    if i < 0 {
        seq!['-'] + decimal((-i) as nat)
    } else {
        decimal(i as nat)
    }
}

fn digit(d: u8) -> (c: char)
    requires
        d < 10,
    ensures
        c == digit_char(d as int),
{
    if d == 0 {
        '0'
    } else if d == 1 {
        '1'
    } else if d == 2 {
        '2'
    } else if d == 3 {
        '3'
    } else if d == 4 {
        '4'
    } else if d == 5 {
        '5'
    } else if d == 6 {
        '6'
    } else if d == 7 {
        '7'
    } else if d == 8 {
        '8'
    } else {
        '9'
    }
}

/// Appends the decimal numeral of `v` to `out`.
pub fn push_decimal(out: &mut String, v: u128)
    ensures
        final(out)@ == old(out)@ + decimal(v as nat),
{
    // Digits come out least significant first; they are written back to front.
    let mut rev: Vec<char> = Vec::new();
    let mut rest: u128 = v;
    while rest >= 10
        invariant
            decimal(v as nat) == decimal(rest as nat) + rev@.reverse(),
        decreases rest,
    {
        let c = digit((rest % 10) as u8);
        proof {
            let shorter = decimal((rest / 10) as nat);
            assert(decimal(rest as nat) == shorter.push(c));
            assert(rev@.push(c).reverse() =~= seq![c] + rev@.reverse());
            assert(shorter.push(c) + rev@.reverse() =~= shorter + (seq![c] + rev@.reverse()));
        }
        rev.push(c);
        rest = rest / 10;
    }
    push_char(out, digit(rest as u8));
    let mut i: usize = rev.len();
    proof {
        assert(rev@.subrange(0, i as int) =~= rev@);
        assert(old(out)@.push(digit_char(rest as int)) + rev@.reverse() =~= old(out)@ + (decimal(
            rest as nat,
        ) + rev@.reverse()));
    }
    while i > 0
        invariant
            i <= rev@.len(),
            out@ + rev@.subrange(0, i as int).reverse() == old(out)@ + decimal(v as nat),
        decreases i,
    {
        proof {
            let head = rev@.subrange(0, i as int);
            let next = rev@.subrange(0, i as int - 1);
            assert(head.reverse() =~= seq![rev@[i as int - 1]] + next.reverse());
            assert(out@.push(rev@[i as int - 1]) + next.reverse() =~= out@ + head.reverse());
        }
        i = i - 1;
        push_char(out, rev[i]);
    }
    proof {
        assert(rev@.subrange(0, 0).reverse() =~= Seq::<char>::empty());
        assert(out@ + Seq::<char>::empty() =~= out@);
    }
}

/// Appends the decimal numeral of `v`, with a minus sign when `v` is negative.
pub fn push_signed_decimal(out: &mut String, v: i128)
    ensures
        final(out)@ == old(out)@ + signed_decimal(v as int),
{
    if v < 0 {
        push_char(out, '-');
        // The magnitude of the least i128 does not fit in an i128: go through v + 1.
        let magnitude: u128 = ((-(v + 1)) as u128) + 1;
        push_decimal(out, magnitude);
        proof {
            assert(old(out)@.push('-') + decimal(magnitude as nat) =~= old(out)@ + signed_decimal(
                v as int,
            ));
        }
    } else {
        push_decimal(out, v as u128);
    }
}

/// The texts of `parts` in order, with `sep` between each two neighbours.
pub open spec fn join(parts: Seq<Seq<char>>, sep: Seq<char>) -> Seq<char>
    decreases parts.len(),
{
    if parts.len() == 0 {
        Seq::empty()
    } else if parts.len() == 1 {
        parts[0]
    } else {
        join(parts.drop_last(), sep) + sep + parts.last()
    }
}

/// Joins `parts` with `sep` between each two neighbours.
pub fn join_strings(parts: &Vec<String>, sep: &str) -> (r: String)
    ensures
        r@ == join(parts.deep_view(), sep@),
{
    let mut out = String::new();
    let mut i: usize = 0;
    while i < parts.len()
        invariant
            i <= parts@.len(),
            out@ == join(parts.deep_view().subrange(0, i as int), sep@),
        decreases parts@.len() - i,
    {
        proof {
            let done = parts.deep_view().subrange(0, i as int);
            let next = parts.deep_view().subrange(0, i as int + 1);
            assert(next.drop_last() =~= done);
            assert(next.last() == parts@[i as int]@);
            assert(Seq::<char>::empty() + parts@[i as int]@ =~= parts@[i as int]@);
        }
        if i > 0 {
            out.append(sep);
        }
        out.append(parts[i].as_str());
        i = i + 1;
    }
    proof {
        assert(parts.deep_view().subrange(0, i as int) =~= parts.deep_view());
    }
    out
}

/// The characters of `s`, in order.
pub fn to_chars(s: &str) -> (v: Vec<char>)
    ensures
        v@ == s@,
{
    let mut v: Vec<char> = Vec::new();
    for c in it: s.chars()
        invariant
            it.seq() == s@,
            v@ == s@.subrange(0, it.index() as int),
    {
        proof {
            assert(s@.subrange(0, it.index() as int).push(c) =~= s@.subrange(
                0,
                it.index() as int + 1,
            ));
        }
        v.push(c);
    }
    proof {
        assert(s@.subrange(0, s@.len() as int) =~= s@);
    }
    v
}

/// Whether `c` occurs nowhere in `s`.
pub open spec fn free_of(s: Seq<char>, c: char) -> bool {
    forall|i: int| 0 <= i < s.len() ==> #[trigger] s[i] != c
}

/// A decimal numeral holds decimal digits only.
pub proof fn lemma_decimal_digits(n: nat)
    ensures
        decimal(n).len() > 0,
        forall|i: int| 0 <= i < decimal(n).len() ==> '0' <= #[trigger] decimal(n)[i] <= '9',
    decreases n,
{
    if n >= 10 {
        lemma_decimal_digits(n / 10);
    }
}

/// What occurs neither in the parts nor in the separator does not occur in
/// what they are joined to.
pub proof fn lemma_join_free_of(parts: Seq<Seq<char>>, sep: Seq<char>, c: char)
    requires
        forall|k: int| 0 <= k < parts.len() ==> free_of(#[trigger] parts[k], c),
        free_of(sep, c),
    ensures
        free_of(join(parts, sep), c),
    decreases parts.len(),
{
    if parts.len() > 1 {
        let front = parts.drop_last();
        assert forall|k: int| 0 <= k < front.len() implies free_of(#[trigger] front[k], c) by {
            assert(front[k] == parts[k]);
        }
        lemma_join_free_of(front, sep, c);
        assert(free_of(parts.last(), c));
    } else if parts.len() == 1 {
        assert(free_of(parts[0], c));
    }
}

} // verus!
