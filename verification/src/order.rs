//! The order in which names are kept: text compared character by character,
//! by code point, a proper prefix coming first.

use vstd::prelude::*;
use vstd::std_specs::iter::IteratorSpec;

verus! {

/// Whether `a` comes strictly before `b`.
pub open spec fn precedes(a: Seq<char>, b: Seq<char>) -> bool
    decreases a.len(),
{
    if b.len() == 0 {
        false
    } else if a.len() == 0 {
        true
    } else if a[0] != b[0] {
        a[0] < b[0]
    } else {
        precedes(a.drop_first(), b.drop_first())
    }
}

/// How one text stands to another.
#[derive(Debug, Clone, Copy, PartialEq, Eq, Structural)]
pub enum Place {
    Before,
    Same,
    After,
}

/// How `a` stands to `b`.
pub open spec fn place_of(a: Seq<char>, b: Seq<char>) -> Place {
    if a == b {
        Place::Same
    } else if precedes(a, b) {
        Place::Before
    } else {
        Place::After
    }
}

/// No text comes before itself.
pub proof fn lemma_precedes_irreflexive(a: Seq<char>)
    ensures
        !precedes(a, a),
    decreases a.len(),
{
    if a.len() > 0 {
        lemma_precedes_irreflexive(a.drop_first());
    }
}

/// Of two different texts, exactly one comes before the other.
pub proof fn lemma_precedes_total(a: Seq<char>, b: Seq<char>)
    ensures
        a != b ==> (precedes(a, b) <==> !precedes(b, a)),
        a == b ==> !precedes(a, b),
    decreases a.len(),
{
    if a == b {
        lemma_precedes_irreflexive(a);
    } else if a.len() > 0 && b.len() > 0 {
        if a[0] == b[0] {
            if a.drop_first() == b.drop_first() {
                assert(a =~= seq![a[0]] + a.drop_first());
                assert(b =~= seq![b[0]] + b.drop_first());
            }
            lemma_precedes_total(a.drop_first(), b.drop_first());
        }
    } else {
        assert(a.len() == 0 && b.len() == 0 ==> a =~= b);
    }
}

/// What comes before a text that comes before a third comes before the third.
pub proof fn lemma_precedes_transitive(a: Seq<char>, b: Seq<char>, c: Seq<char>)
    requires
        precedes(a, b),
        precedes(b, c),
    ensures
        precedes(a, c),
    decreases a.len(),
{
    if a.len() > 0 {
        if a[0] == b[0] && b[0] == c[0] {
            lemma_precedes_transitive(a.drop_first(), b.drop_first(), c.drop_first());
        }
    }
}

/// Two texts with the same first character are the same when their rests are.
proof fn lemma_same_rest(l: Seq<char>, r: Seq<char>)
    requires
        l.len() > 0,
        r.len() > 0,
        l[0] == r[0],
    ensures
        place_of(l.drop_first(), r.drop_first()) == place_of(l, r),
{
    if l.drop_first() == r.drop_first() {
        assert(l =~= seq![l[0]] + l.drop_first());
        assert(r =~= seq![r[0]] + r.drop_first());
    }
    lemma_precedes_total(l, r);
    lemma_precedes_total(l.drop_first(), r.drop_first());
}

/// Finds how `a` stands to `b`.
pub fn place(a: &str, b: &str) -> (r: Place)
    ensures
        r == place_of(a@, b@),
{
    let mut left = a.chars();
    let mut right = b.chars();
    loop
        invariant
            left.decrease() is Some,
            place_of(left.remaining(), right.remaining()) == place_of(a@, b@),
        decreases left.decrease()->0,
    {
        proof {
            lemma_precedes_total(left.remaining(), right.remaining());
            assert(left.remaining().len() > 0 && right.remaining().len() > 0
                && left.remaining()[0] == right.remaining()[0] ==> place_of(
                left.remaining().drop_first(),
                right.remaining().drop_first(),
            ) == place_of(left.remaining(), right.remaining())) by {
                if left.remaining().len() > 0 && right.remaining().len() > 0
                    && left.remaining()[0] == right.remaining()[0] {
                    lemma_same_rest(left.remaining(), right.remaining());
                }
            }
            assert(left.remaining().len() == 0 && right.remaining().len() == 0
                ==> left.remaining() =~= right.remaining());
        }
        let x = left.next();
        let y = right.next();
        match (x, y) {
            (None, None) => {
                return Place::Same;
            },
            (None, Some(_)) => {
                return Place::Before;
            },
            (Some(_), None) => {
                return Place::After;
            },
            (Some(p), Some(q)) => {
                if p < q {
                    return Place::Before;
                } else if q < p {
                    return Place::After;
                }
            },
        }
    }
}

} // verus!
