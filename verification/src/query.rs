//! Pipeline queries: an ordered list of stages, written one after the other
//! with a pipe between them.

use crate::lines::{line_bounds, lines_at, split_lines, trim_range, trimmed};
use crate::stage::Stage;
use crate::text::{join, join_strings, to_chars};
use vstd::prelude::*;

verus! {

/// What stands between two stages of a query: a line feed, a space, the pipe
/// `|>` and a space.
pub open spec fn pipe() -> Seq<char> {
    seq!['\n', ' ', '|', '>', ' ']
}

/// The stage that one line of a raw query gives: the line without a pipe
/// `|>` at its very start, trimmed.
pub open spec fn stage_of_line(line: Seq<char>) -> Seq<char> {
    if line.len() >= 2 && line[0] == '|' && line[1] == '>' {
        trimmed(line.subrange(2, line.len() as int))
    } else {
        trimmed(line)
    }
}

/// The stages that a raw query gives: one for each of its lines.
pub open spec fn raw_stages(query: Seq<char>) -> Seq<Seq<char>> {
    let lines = split_lines(query);
    Seq::new(lines.len(), |i: int| stage_of_line(lines[i]))
}

/// A query: its stages, in the order in which they were appended.
#[derive(Debug, Clone, PartialEq)]
pub struct Query {
    lines: Vec<String>,
}

impl Query {
    /// The texts of the stages, in order.
    pub closed spec fn stages(self) -> Seq<Seq<char>> {
        self.lines.deep_view()
    }

    /// The text of the query: the stages in order, with a pipe between each
    /// two neighbours. A query without stages has the empty text.
    pub open spec fn text(self) -> Seq<char> {
        join(self.stages(), pipe())
    }

    /// A query without stages.
    pub fn empty() -> (r: Self)
        ensures
            r.stages() == Seq::<Seq<char>>::empty(),
    {
        let r = Query { lines: Vec::new() };
        proof {
            assert(r.stages() =~= Seq::<Seq<char>>::empty());
        }
        r
    }

    /// A query of one stage.
    pub fn new<L: Into<String>>(line: L) -> (r: Self)
        ensures
            exists|l: String| #[trigger] call_ensures(L::into, (line,), l) && r.stages() == seq![l@],
    {
        let mut lines: Vec<String> = Vec::new();
        let l: String = line.into();
        let ghost text = l@;
        lines.push(l);
        let r = Query { lines };
        proof {
            assert(r.stages() =~= seq![text]);
        }
        r
    }

    /// Creates a query from a raw string: each line is a stage, without a
    /// pipe at its very start and without the white space around it.
    pub fn raw<Q: Into<String>>(query: Q) -> (r: Self)
        ensures
            exists|q: String| #[trigger]
                call_ensures(Q::into, (query,), q) && r.stages() == raw_stages(q@),
    {
        let q: String = query.into();
        let v = to_chars(q.as_str());
        let bounds = line_bounds(&v);
        let mut lines: Vec<String> = Vec::new();
        let mut i: usize = 0;
        while i < bounds.len()
            invariant
                i <= bounds@.len(),
                lines@.len() == i,
                forall|k: int|
                    0 <= k < bounds@.len() ==> (#[trigger] bounds@[k]).0 <= bounds@[k].1 <= v@.len(),
                forall|k: int|
                    0 <= k < i ==> (#[trigger] lines@[k])@ == stage_of_line(lines_at(v@, bounds@)[k]),
            decreases bounds@.len() - i,
        {
            let (from, to) = bounds[i];
            let ghost line = v@.subrange(from as int, to as int);
            proof {
                assert(lines_at(v@, bounds@)[i as int] == line);
            }
            let stage = if to - from >= 2 && v[from] == '|' && v[from + 1] == '>' {
                proof {
                    assert(line[0] == v@[from as int]);
                    assert(line[1] == v@[from + 1]);
                    assert(line.subrange(2, line.len() as int) =~= v@.subrange(
                        from as int + 2,
                        to as int,
                    ));
                }
                trim_range(&v, from + 2, to)
            } else {
                proof {
                    if to - from >= 2 {
                        assert(line[0] == v@[from as int]);
                        assert(line[1] == v@[from + 1]);
                    }
                }
                trim_range(&v, from, to)
            };
            lines.push(stage);
            i = i + 1;
        }
        let r = Query { lines };
        proof {
            assert(r.stages() =~= raw_stages(q@));
        }
        r
    }

    /// Appends a stage, given as its text.
    pub fn then<L: Into<String>>(self, line: L) -> (r: Self)
        ensures
            exists|l: String| #[trigger]
                call_ensures(L::into, (line,), l) && r.stages() == self.stages().push(l@),
    {
        let mut q = self;
        let l: String = line.into();
        let ghost text = l@;
        q.lines.push(l);
        proof {
            assert(q.stages() =~= self.stages().push(text));
        }
        q
    }

    /// Appends a stage: its text becomes the last stage of the query.
    pub fn append(self, stage: Stage) -> (r: Self)
        ensures
            r.stages() == self.stages().push(stage.text()),
    {
        let mut q = self;
        q.lines.push(stage.to_string());
        proof {
            assert(q.stages() =~= self.stages().push(stage.text()));
        }
        q
    }

    /// Writes the query as text.
    pub fn to_string(&self) -> (r: String)
        ensures
            r@ == self.text(),
    {
        proof {
            reveal_strlit("\n |> ");
            assert("\n |> "@ =~= pipe());
        }
        join_strings(&self.lines, "\n |> ")
    }
}

/// Appending a stage to a query that has one or more puts a pipe and the
/// stage behind the text that was there.
pub proof fn lemma_text_of_appended(stages: Seq<Seq<char>>, stage: Seq<char>)
    requires
        stages.len() > 0,
    ensures
        join(stages.push(stage), pipe()) == join(stages, pipe()) + pipe() + stage,
{
    assert(stages.push(stage).drop_last() =~= stages);
}

/// The text of a query of one stage is that stage.
pub proof fn lemma_text_of_one(stage: Seq<char>)
    ensures
        join(seq![stage], pipe()) == stage,
{
}

/// Appending `a` and then `b` gives the text of the query with `a`
/// appended, a pipe, and the text of `b`, whatever the query started with.
pub proof fn lemma_append_append(q: Query, a: Stage, b: Stage, with_a: Query, with_both: Query)
    requires
        with_a.stages() == q.stages().push(a.text()),
        with_both.stages() == with_a.stages().push(b.text()),
    ensures
        with_both.text() == with_a.text() + pipe() + b.text(),
{
    lemma_text_of_appended(with_a.stages(), b.text());
}

} // verus!
