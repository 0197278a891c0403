//! Field values of a measurement and the text each one is written as.

use crate::text::{
    decimal, free_of, lemma_decimal_digits, push_char, push_decimal, push_signed_decimal,
    signed_decimal, to_chars,
};
use vstd::prelude::*;
use vstd::string::StringExecFns;

verus! {

/// Whether `c` is one of the ten decimal digits.
pub open spec fn is_digit(c: char) -> bool {
    '0' <= c && c <= '9'
}

/// Digits with at most one decimal point, which stands between two digits.
pub open spec fn is_plain_decimal(s: Seq<char>) -> bool {
    &&& s.len() > 0
    &&& is_digit(s[0])
    &&& is_digit(s.last())
    &&& forall|i: int| 0 <= i < s.len() ==> is_digit(#[trigger] s[i]) || s[i] == '.'
    &&& forall|i: int, j: int|
        #![trigger s[i], s[j]]
        0 <= i < j < s.len() && s[i] == '.' ==> s[j] != '.'
}

/// The texts that stand for a 64-bit float: a plain decimal with an optional
/// minus sign, or one of `NaN`, `inf` and `-inf`.
pub open spec fn is_float_text(s: Seq<char>) -> bool {
    ||| s == seq!['N', 'a', 'N']
    ||| s == seq!['i', 'n', 'f']
    ||| s == seq!['-', 'i', 'n', 'f']
    ||| is_plain_decimal(s)
    ||| (s.len() > 0 && s[0] == '-' && is_plain_decimal(s.subrange(1, s.len() as int)))
}

fn digit_char_at(c: char) -> (r: bool)
    ensures
        r == is_digit(c),
{
    '0' <= c && c <= '9'
}

fn plain_decimal_from(v: &Vec<char>, start: usize) -> (r: bool)
    requires
        start <= v@.len(),
    ensures
        r == is_plain_decimal(v@.subrange(start as int, v@.len() as int)),
{
    let n = v.len();
    let ghost s = v@.subrange(start as int, n as int);
    if start == n {
        return false;
    }
    if !digit_char_at(v[start]) || !digit_char_at(v[n - 1]) {
        proof {
            assert(s[0] == v@[start as int]);
            assert(s.last() == v@[n - 1]);
        }
        return false;
    }
    let mut seen_point = false;
    let ghost mut point: int = 0;
    let mut i: usize = start;
    while i < n
        invariant
            start <= i <= n,
            n == v@.len(),
            s == v@.subrange(start as int, n as int),
            forall|k: int| 0 <= k < i - start ==> is_digit(#[trigger] s[k]) || s[k] == '.',
            forall|k: int, l: int|
                #![trigger s[k], s[l]]
                0 <= k < l < i - start && s[k] == '.' ==> s[l] != '.',
            seen_point ==> 0 <= point < i - start && s[point] == '.',
            !seen_point ==> forall|k: int| 0 <= k < i - start ==> #[trigger] s[k] != '.',
        decreases n - i,
    {
        let c = v[i];
        proof {
            assert(s[i - start] == c);
        }
        if c == '.' {
            if seen_point {
                return false;
            }
            seen_point = true;
            proof {
                point = i - start;
            }
        } else if !digit_char_at(c) {
            return false;
        }
        i = i + 1;
    }
    proof {
        assert(s[0] == v@[start as int]);
        assert(s.last() == v@[n - 1]);
    }
    true
}

/// The decimal text of a 64-bit float.
///
/// The text is what the float is written as in a line: digits with an optional
/// sign and fraction, or `NaN`, `inf`, `-inf`.
#[derive(Debug, PartialEq)]
pub struct FloatText {
    text: String,
}

impl FloatText {
    #[verifier::type_invariant]
    pub closed spec fn well_formed(self) -> bool {
        is_float_text(self.text@)
    }

    /// The characters of the text.
    pub closed spec fn view(self) -> Seq<char> {
        self.text@
    }

    /// Takes `text` as the text of a float, if it is one.
    pub fn parse(text: &str) -> (r: Option<FloatText>)
        ensures
            r is Some <==> is_float_text(text@),
            r matches Some(t) ==> t@ == text@ && t.well_formed(),
    {
        let v = to_chars(text);
        let n = v.len();
        let named = (n == 3 && v[0] == 'N' && v[1] == 'a' && v[2] == 'N') || (n == 3 && v[0] == 'i'
            && v[1] == 'n' && v[2] == 'f') || (n == 4 && v[0] == '-' && v[1] == 'i' && v[2] == 'n'
            && v[3] == 'f');
        proof {
            assert(named <==> (v@ =~= seq!['N', 'a', 'N'] || v@ =~= seq!['i', 'n', 'f'] || v@
                =~= seq!['-', 'i', 'n', 'f']));
            assert(v@.subrange(0, n as int) =~= v@);
        }
        let valid = named || plain_decimal_from(&v, 0) || (n > 0 && v[0] == '-'
            && plain_decimal_from(&v, 1));
        if valid {
            Some(FloatText { text: text.to_owned() })
        } else {
            None
        }
    }

    /// The text, as it is written in a line.
    pub fn as_str(&self) -> (r: &str)
        ensures
            r@ == self@,
            is_float_text(r@),
    {
        proof {
            use_type_invariant(self);
        }
        self.text.as_str()
    }
}

impl Clone for FloatText {
    fn clone(&self) -> (r: Self)
        ensures
            r == *self,
    {
        proof {
            use_type_invariant(self);
        }
        FloatText { text: self.text.clone() }
    }
}

/// A field value of a measurement.
#[derive(Debug, Clone, PartialEq)]
pub enum Field {
    /// A float field, held as its decimal text.
    Float(FloatText),
    /// A string field.
    String(String),
    /// A bool field.
    Bool(bool),
    /// An integer field.
    Integer(i128),
    /// An unsigned integer field.
    UInteger(u128),
}

/// What a [`Field`] holds, as mathematical values.
pub enum FieldValue {
    Float(Seq<char>),
    String(Seq<char>),
    Bool(bool),
    Integer(int),
    UInteger(nat),
}

impl FieldValue {
    /// The text that the value is written as in a line: a float as its decimal
    /// text, a string between double quotes with nothing escaped, a bool as
    /// `true` or `false`, an integer as its decimal numeral followed by `i`,
    /// an unsigned integer as its decimal numeral followed by `u`.
    pub open spec fn text(self) -> Seq<char> {
        match self {
            FieldValue::Float(t) => t,
            FieldValue::String(t) => seq!['"'] + t + seq!['"'],
            FieldValue::Bool(b) => if b {
                seq!['t', 'r', 'u', 'e']
            } else {
                seq!['f', 'a', 'l', 's', 'e']
            },
            FieldValue::Integer(i) => signed_decimal(i).push('i'),
            FieldValue::UInteger(n) => decimal(n).push('u'),
        }
    }
}

impl View for Field {
    type V = FieldValue;

    open spec fn view(&self) -> FieldValue {
        match self {
            Field::Float(t) => FieldValue::Float(t@),
            Field::String(t) => FieldValue::String(t@),
            Field::Bool(b) => FieldValue::Bool(*b),
            Field::Integer(i) => FieldValue::Integer(*i as int),
            Field::UInteger(n) => FieldValue::UInteger(*n as nat),
        }
    }
}

impl Field {
    /// Appends the text of the field to `out`.
    pub fn write_to(&self, out: &mut String)
        ensures
            final(out)@ == old(out)@ + self@.text(),
    {
        match self {
            Field::Float(t) => {
                out.append(t.as_str());
            },
            Field::String(t) => {
                push_char(out, '"');
                out.append(t.as_str());
                push_char(out, '"');
                proof {
                    assert(out@ =~= old(out)@ + (seq!['"'] + t@ + seq!['"']));
                }
            },
            Field::Bool(b) => {
                if *b {
                    out.append("true");
                    proof {
                        reveal_strlit("true");
                        assert("true"@ =~= seq!['t', 'r', 'u', 'e']);
                    }
                } else {
                    out.append("false");
                    proof {
                        reveal_strlit("false");
                        assert("false"@ =~= seq!['f', 'a', 'l', 's', 'e']);
                    }
                }
            },
            Field::Integer(i) => {
                push_signed_decimal(out, *i);
                push_char(out, 'i');
                proof {
                    assert(out@ =~= old(out)@ + signed_decimal(*i as int).push('i'));
                }
            },
            Field::UInteger(n) => {
                push_decimal(out, *n);
                push_char(out, 'u');
                proof {
                    assert(out@ =~= old(out)@ + decimal(*n as nat).push('u'));
                }
            },
        }
    }

    /// The text of the field, as it is written in a line.
    pub fn to_string(&self) -> (r: String)
        ensures
            r@ == self@.text(),
    {
        let mut out = String::new();
        self.write_to(&mut out);
        proof {
            assert(Seq::<char>::empty() + self@.text() =~= self@.text());
        }
        out
    }
}

/// The text of a float holds no line feed.
pub proof fn lemma_float_text_one_line(t: Seq<char>)
    requires
        is_float_text(t),
    ensures
        free_of(t, '\n'),
{
    if is_plain_decimal(t) {
    } else if t.len() > 0 && t[0] == '-' && is_plain_decimal(t.subrange(1, t.len() as int)) {
        let rest = t.subrange(1, t.len() as int);
        assert forall|i: int| 0 <= i < t.len() implies #[trigger] t[i] != '\n' by {
            if i > 0 {
                assert(t[i] == rest[i - 1]);
            }
        }
    }
}

/// Whether `c` occurs nowhere in the text that a field value holds: in the
/// string of a string field, in the text of a float field.
pub open spec fn value_free_of(v: FieldValue, c: char) -> bool {
    match v {
        FieldValue::Float(t) => free_of(t, c),
        FieldValue::String(t) => free_of(t, c),
        _ => true,
    }
}

/// The text of a field holds a line feed only where the string or the float
/// text that the field holds does.
pub proof fn lemma_field_text_one_line(v: FieldValue)
    requires
        value_free_of(v, '\n'),
    ensures
        free_of(v.text(), '\n'),
{
    match v {
        FieldValue::Integer(i) => {
            if i < 0 {
                lemma_decimal_digits((-i) as nat);
            } else {
                lemma_decimal_digits(i as nat);
            }
        },
        FieldValue::UInteger(n) => {
            lemma_decimal_digits(n);
        },
        _ => {},
    }
}

} // verus!
