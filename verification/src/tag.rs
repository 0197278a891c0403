//! Tag values and their escaping.

use crate::text::{free_of, push_char};
use vstd::prelude::*;

verus! {

/// Whether `c` is one of the characters that a tag value may hold only behind
/// a backslash: the comma, the equals sign and the space.
pub open spec fn is_reserved(c: char) -> bool {
    c == ',' || c == '=' || c == ' '
}

/// What one character of a tag value is written as.
pub open spec fn escaped_char(c: char) -> Seq<char> {
    if is_reserved(c) {
        seq!['\\', c]
    } else {
        seq![c]
    }
}

/// The escaped form of a tag value: every comma, equals sign and space with a
/// backslash before it, everything else as it stands.
pub open spec fn escaped(s: Seq<char>) -> Seq<char>
    decreases s.len(),
{
    if s.len() == 0 {
        Seq::empty()
    } else {
        escaped(s.drop_last()) + escaped_char(s.last())
    }
}

/// Escapes a tag value.
pub fn escape(value: &str) -> (r: String)
    ensures
        r@ == escaped(value@),
{
    let mut out = String::new();
    for c in it: value.chars()
        invariant
            it.seq() == value@,
            out@ == escaped(value@.subrange(0, it.index() as int)),
    {
        proof {
            let next = value@.subrange(0, it.index() as int + 1);
            assert(next.drop_last() =~= value@.subrange(0, it.index() as int));
            assert(next.last() == c);
        }
        if c == ',' || c == '=' || c == ' ' {
            push_char(&mut out, '\\');
            push_char(&mut out, c);
            proof {
                assert(out@ =~= escaped(value@.subrange(0, it.index() as int)) + seq!['\\', c]);
            }
        } else {
            push_char(&mut out, c);
            proof {
                assert(out@ =~= escaped(value@.subrange(0, it.index() as int)) + seq![c]);
            }
        }
    }
    proof {
        assert(value@.subrange(0, value@.len() as int) =~= value@);
    }
    out
}

/// The value of a tag, held in its escaped form.
#[derive(Debug, Clone, PartialEq)]
pub struct TagValue {
    text: String,
}

impl View for TagValue {
    type V = Seq<char>;

    /// The escaped text.
    closed spec fn view(&self) -> Seq<char> {
        self.text@
    }
}

impl TagValue {
    /// Escapes `s` and holds the result.
    pub fn new(s: String) -> (r: Self)
        ensures
            r@ == escaped(s@),
    {
        TagValue { text: escape(s.as_str()) }
    }

    /// The escaped text.
    pub fn as_str(&self) -> (r: &str)
        ensures
            r@ == self@,
    {
        self.text.as_str()
    }
}

/// A tag value without a comma, an equals sign or a space is written as it
/// stands.
pub proof fn lemma_escaped_plain(s: Seq<char>)
    requires
        forall|i: int| 0 <= i < s.len() ==> !is_reserved(#[trigger] s[i]),
    ensures
        escaped(s) == s,
    decreases s.len(),
{
    if s.len() > 0 {
        let front = s.drop_last();
        assert forall|i: int| 0 <= i < front.len() implies !is_reserved(#[trigger] front[i]) by {
            assert(front[i] == s[i]);
        }
        lemma_escaped_plain(front);
        assert(!is_reserved(s[s.len() - 1]));
        assert(front + seq![s.last()] =~= s);
    } else {
        assert(escaped(s) =~= s);
    }
}

/// Escaping goes part by part: the escaped form of two texts set together is
/// the two escaped forms set together.
pub proof fn lemma_escaped_concat(a: Seq<char>, b: Seq<char>)
    ensures
        escaped(a + b) == escaped(a) + escaped(b),
    decreases b.len(),
{
    if b.len() == 0 {
        assert(a + b =~= a);
        assert(escaped(a) + escaped(b) =~= escaped(a));
    } else {
        lemma_escaped_concat(a, b.drop_last());
        assert((a + b).drop_last() =~= a + b.drop_last());
        assert((a + b).last() == b.last());
        let front = escaped(b.drop_last());
        let last = escaped_char(b.last());
        assert(escaped(a) + front + last =~= escaped(a) + (front + last));
    }
}

/// Escaping brings in backslashes and nothing else: a character other than
/// the backslash that does not occur in a tag value does not occur in its
/// escaped form.
pub proof fn lemma_escaped_free_of(s: Seq<char>, c: char)
    requires
        c != '\\',
        free_of(s, c),
    ensures
        free_of(escaped(s), c),
    decreases s.len(),
{
    if s.len() > 0 {
        let front = s.drop_last();
        assert forall|i: int| 0 <= i < front.len() implies #[trigger] front[i] != c by {
            assert(front[i] == s[i]);
        }
        lemma_escaped_free_of(front, c);
        assert(s[s.len() - 1] != c);
    }
}

/// In an escaped tag value a backslash stands before every comma, equals
/// sign and space.
pub proof fn lemma_escaped_guards(s: Seq<char>, i: int)
    requires
        0 <= i < escaped(s).len(),
        is_reserved(escaped(s)[i]),
    ensures
        i > 0,
        escaped(s)[i - 1] == '\\',
    decreases s.len(),
{
    if s.len() > 0 {
        let front = escaped(s.drop_last());
        if i < front.len() {
            lemma_escaped_guards(s.drop_last(), i);
        }
    }
}

/// `s` with a backslash before every occurrence of `c`.
pub open spec fn guarded(s: Seq<char>, c: char) -> Seq<char>
    decreases s.len(),
{
    if s.len() == 0 {
        Seq::empty()
    } else if s.last() == c {
        guarded(s.drop_last(), c) + seq!['\\', c]
    } else {
        guarded(s.drop_last(), c).push(s.last())
    }
}

/// Guarding goes part by part.
pub proof fn lemma_guarded_concat(a: Seq<char>, b: Seq<char>, c: char)
    ensures
        guarded(a + b, c) == guarded(a, c) + guarded(b, c),
    decreases b.len(),
{
    if b.len() == 0 {
        assert(a + b =~= a);
        assert(guarded(a, c) + guarded(b, c) =~= guarded(a, c));
    } else {
        lemma_guarded_concat(a, b.drop_last(), c);
        assert((a + b).drop_last() =~= a + b.drop_last());
        assert((a + b).last() == b.last());
        let front = guarded(b.drop_last(), c);
        if b.last() == c {
            assert(guarded(a, c) + front + seq!['\\', c] =~= guarded(a, c) + (front + seq!['\\', c]));
        } else {
            assert((guarded(a, c) + front).push(b.last()) =~= guarded(a, c) + front.push(b.last()));
        }
    }
}

/// What guarding makes of one character, and of a backslash before one.
proof fn lemma_guarded_short(x: char, c: char)
    ensures
        guarded(seq![x], c) == if x == c {
            seq!['\\', x]
        } else {
            seq![x]
        },
        x != c && c != '\\' ==> guarded(seq!['\\', x], c) == seq!['\\', x],
{
    reveal_with_fuel(guarded, 3);
    let one = seq![x];
    assert(one.drop_last() =~= Seq::<char>::empty());
    assert(guarded(one, c) =~= if x == c {
        seq!['\\', x]
    } else {
        seq![x]
    });
    let two = seq!['\\', x];
    assert(two.drop_last() =~= seq!['\\']);
    assert(seq!['\\'].drop_last() =~= Seq::<char>::empty());
    if x != c && c != '\\' {
        assert(guarded(seq!['\\'], c) =~= seq!['\\']);
        assert(guarded(two, c) =~= two);
    }
}

/// Escaping is the same as guarding the commas, then the equals signs, then
/// the spaces: none of the three steps brings in a character that a later
/// step guards.
pub proof fn lemma_escaped_in_turn(s: Seq<char>)
    ensures
        escaped(s) == guarded(guarded(guarded(s, ','), '='), ' '),
    decreases s.len(),
{
    if s.len() == 0 {
        assert(guarded(s, ',') =~= Seq::<char>::empty());
        assert(guarded(Seq::<char>::empty(), '=') =~= Seq::<char>::empty());
        assert(guarded(Seq::<char>::empty(), ' ') =~= Seq::<char>::empty());
    } else {
        let front = s.drop_last();
        let x = s.last();
        lemma_escaped_in_turn(front);
        assert(s =~= front + seq![x]);
        lemma_guarded_concat(front, seq![x], ',');
        lemma_guarded_short(x, ',');
        let first = guarded(seq![x], ',');
        lemma_guarded_concat(guarded(front, ','), first, '=');
        lemma_guarded_short(x, '=');
        let second = guarded(first, '=');
        lemma_guarded_concat(guarded(guarded(front, ','), '='), second, ' ');
        lemma_guarded_short(x, ' ');
        assert(guarded(second, ' ') == escaped_char(x));
    }
}

} // verus!
