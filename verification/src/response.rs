//! The answer to a query: tables of comma separated values, one blank line
//! or more between two tables, each table a header line and its records.

use crate::entries::{map_of, pairs_view, Entries};
use crate::lines::{line_bounds, lines_at, split_lines, trim_range, trimmed};
use crate::text::{join, join_strings, to_chars};
use std::collections::BTreeMap;
use vstd::prelude::*;

verus! {

/// The lines of `body`, each one trimmed.
pub open spec fn trimmed_lines(body: Seq<char>) -> Seq<Seq<char>> {
    let lines = split_lines(body);
    Seq::new(lines.len(), |i: int| trimmed(lines[i]))
}

/// How many lines at the start of `lines` are not empty.
pub open spec fn run_len(lines: Seq<Seq<char>>) -> nat
    decreases lines.len(),
{
    if lines.len() == 0 || lines[0].len() == 0 {
        0
    } else {
        1 + run_len(lines.drop_first())
    }
}

/// The runs of `lines`: the longest stretches of neighbouring lines none of
/// which is empty, in order.
pub open spec fn runs(lines: Seq<Seq<char>>) -> Seq<Seq<Seq<char>>>
    decreases lines.len(),
{
    if lines.len() == 0 {
        Seq::empty()
    } else {
        let n = run_len(lines) as int;
        let first = if n == 0 {
            Seq::empty()
        } else {
            seq![lines.subrange(0, n)]
        };
        if n >= lines.len() {
            first
        } else {
            first + runs(lines.subrange(n + 1, lines.len() as int))
        }
    }
}

/// The tables of a response body: the runs of its trimmed lines, the lines
/// of each run with a line feed between each two neighbours.
pub open spec fn tables_of(body: Seq<char>) -> Seq<Seq<char>> {
    let groups = runs(trimmed_lines(body));
    Seq::new(groups.len(), |i: int| join(groups[i], seq!['\n']))
}

/// Where no line before place `n` is empty, and the line at `n` is unless the
/// lines end there, the first run has `n` lines.
proof fn lemma_run_len(lines: Seq<Seq<char>>, n: int)
    requires
        0 <= n <= lines.len(),
        forall|k: int| 0 <= k < n ==> (#[trigger] lines[k]).len() > 0,
        n < lines.len() ==> lines[n].len() == 0,
    ensures
        run_len(lines) == n,
    decreases n,
{
    if n > 0 {
        let rest = lines.drop_first();
        assert forall|k: int| 0 <= k < n - 1 implies (#[trigger] rest[k]).len() > 0 by {
            assert(rest[k] == lines[k + 1]);
        }
        lemma_run_len(rest, n - 1);
    }
}

/// Splits a response body into its tables.
pub fn split_tables(body: &str) -> (r: Vec<String>)
    ensures
        r.deep_view() == tables_of(body@),
{
    let v = to_chars(body);
    let bounds = line_bounds(&v);
    let ghost lines = trimmed_lines(body@);
    let n = bounds.len();
    let mut tables: Vec<String> = Vec::new();
    let mut current: Vec<String> = Vec::new();
    let ghost mut done: Seq<Seq<Seq<char>>> = Seq::empty();
    let ghost mut start: int = 0;
    let mut i: usize = 0;
    proof {
        assert(lines.subrange(0, n as int) =~= lines);
        assert(done + runs(lines) =~= runs(lines));
        assert(current.deep_view() =~= lines.subrange(0, 0));
    }
    while i < n
        invariant
            0 <= start <= i <= n,
            n == bounds@.len(),
            n == lines.len(),
            lines == trimmed_lines(body@),
            lines_at(v@, bounds@) == split_lines(body@),
            forall|k: int|
                0 <= k < bounds@.len() ==> (#[trigger] bounds@[k]).0 <= bounds@[k].1 <= v@.len(),
            current.deep_view() == lines.subrange(start, i as int),
            forall|k: int| start <= k < i ==> (#[trigger] lines[k]).len() > 0,
            tables@.len() == done.len(),
            forall|k: int| 0 <= k < done.len() ==> (#[trigger] tables@[k])@ == join(done[k], seq!['\n']),
            runs(lines) == done + runs(lines.subrange(start, n as int)),
        decreases n - i,
    {
        let (from, to) = bounds[i];
        let line = trim_range(&v, from, to);
        proof {
            assert(lines_at(v@, bounds@)[i as int] == v@.subrange(from as int, to as int));
            assert(line@ == lines[i as int]);
        }
        if line.as_str().is_empty() {
            proof {
                let rest = lines.subrange(start, n as int);
                assert forall|k: int| 0 <= k < i - start implies (#[trigger] rest[k]).len() > 0 by {
                    assert(rest[k] == lines[start + k]);
                }
                assert(rest[i - start] == lines[i as int]);
                lemma_run_len(rest, i - start);
                assert(rest.subrange(0, i - start) =~= lines.subrange(start, i as int));
                assert(rest.subrange(i - start + 1, rest.len() as int) =~= lines.subrange(
                    i as int + 1,
                    n as int,
                ));
                reveal_strlit("\n");
                assert("\n"@ =~= seq!['\n']);
            }
            if current.len() > 0 {
                tables.push(join_strings(&current, "\n"));
                proof {
                    done = done.push(lines.subrange(start, i as int));
                    assert(runs(lines) =~= done + runs(lines.subrange(i as int + 1, n as int)));
                }
                current = Vec::new();
            }
            proof {
                start = i as int + 1;
                assert(current.deep_view() =~= lines.subrange(start, i as int + 1));
            }
        } else {
            current.push(line);
            proof {
                assert(current.deep_view() =~= lines.subrange(start, i as int + 1));
            }
        }
        i = i + 1;
    }
    if current.len() > 0 {
        proof {
            let rest = lines.subrange(start, n as int);
            assert forall|k: int| 0 <= k < n - start implies (#[trigger] rest[k]).len() > 0 by {
                assert(rest[k] == lines[start + k]);
            }
            lemma_run_len(rest, n - start);
            assert(rest.subrange(0, n - start) =~= rest);
            reveal_strlit("\n");
            assert("\n"@ =~= seq!['\n']);
        }
        tables.push(join_strings(&current, "\n"));
        proof {
            done = done.push(lines.subrange(start, n as int));
            assert(runs(lines) =~= done);
        }
    } else {
        proof {
            assert(lines.subrange(start, n as int) =~= Seq::<Seq<char>>::empty());
            assert(runs(lines) =~= done);
        }
    }
    proof {
        assert(tables.deep_view() =~= tables_of(body@));
    }
    tables
}

// The error of the csv reader: a value that is carried through, nothing is
// known of what it holds.
#[verifier::external_type_specification]
#[verifier::external_body]
pub struct ExCsvError(csv::Error);

/// The records of a table of comma separated values whose first line is the
/// header: for each record, in order, the mapping from each column's header
/// to the record's field in that column. `None` where the table is
/// malformed.
pub uninterp spec fn csv_records(table: Seq<char>) -> Option<Seq<Map<Seq<char>, Seq<char>>>>;

/// The mappings that lists of pairs stand for.
pub open spec fn maps_of(rows: Seq<Vec<(String, String)>>) -> Seq<Map<Seq<char>, Seq<char>>> {
    Seq::new(rows.len(), |i: int| map_of(pairs_view(rows[i]@)))
}

/// Reads the records of a table.
///
/// Trusted: makes a reader with `csv::Reader::from_reader` on the bytes of
/// `table` and walks `Reader::deserialize`, which reads the first line as the
/// header and gives each further record as a map from header to field; the
/// first error ends the walk. Each map is handed out as its pairs. The
/// contract claims only that what comes back depends on the text alone: it
/// gives the records a name, and says that an error comes back exactly
/// where the name has none.
#[verifier::external_body]
fn read_records(table: &str) -> (r: Result<Vec<Vec<(String, String)>>, csv::Error>)
    ensures
        match r {
            Ok(rows) => csv_records(table@) == Some(maps_of(rows@)),
            Err(_) => csv_records(table@) is None,
        },
{
    let mut reader = csv::Reader::from_reader(table.as_bytes());
    let mut rows = Vec::new();
    for record in reader.deserialize::<BTreeMap<String, String>>() {
        rows.push(record?.into_iter().collect());
    }
    Ok(rows)
}

/// A record as it is handed to the caller: without the column whose header
/// is empty.
pub open spec fn record_of(columns: Map<Seq<char>, Seq<char>>) -> Map<Seq<char>, Seq<char>> {
    columns.remove(Seq::<char>::empty())
}

/// What a response went wrong with.
#[derive(Debug)]
pub enum ResponseError {
    /// A table of the response is malformed.
    CsvError(csv::Error),
    /// The response is no success: its status code and its body.
    NonSuccessResponse(u16, String),
}

/// Makes records of the rows of a table: each row's columns by header,
/// without the column whose header is empty.
pub fn records_of(rows: Vec<Vec<(String, String)>>) -> (r: Vec<Entries<String>>)
    ensures
        r@.len() == rows@.len(),
        forall|i: int|
            0 <= i < r@.len() ==> (#[trigger] r@[i]).well_formed() && r@[i].map() == record_of(
                maps_of(rows@)[i],
            ),
{
    let mut records: Vec<Entries<String>> = Vec::new();
    for row in it: rows
        invariant
            it.seq() == rows@,
            records@.len() == it.index(),
            forall|i: int|
                0 <= i < records@.len() ==> (#[trigger] records@[i]).well_formed()
                    && records@[i].map() == record_of(maps_of(rows@)[i]),
    {
        let mut record = Entries::from_pairs(row);
        record.remove("");
        proof {
            reveal_strlit("");
            assert(""@ =~= Seq::<char>::empty());
        }
        records.push(record);
    }
    records
}

/// The mappings that records hold.
pub open spec fn record_maps(records: Seq<Entries<String>>) -> Seq<Map<Seq<char>, Seq<char>>> {
    Seq::new(records.len(), |i: int| records[i].map())
}

/// The records of tables, those of the first table first. `None` where one
/// of the tables is malformed.
pub open spec fn decoded(tables: Seq<Seq<char>>) -> Option<Seq<Map<Seq<char>, Seq<char>>>>
    decreases tables.len(),
{
    if tables.len() == 0 {
        Some(Seq::empty())
    } else {
        match (decoded(tables.drop_last()), csv_records(tables.last())) {
            (Some(before), Some(last)) => Some(
                before + Seq::new(last.len(), |i: int| record_of(last[i])),
            ),
            _ => None,
        }
    }
}

/// Reads the records of a response body: those of each of its tables, in
/// order. Fails where one of the tables is malformed.
pub fn decode(body: &str) -> (r: Result<Vec<Entries<String>>, ResponseError>)
    ensures
        match r {
            Ok(records) => decoded(tables_of(body@)) == Some(record_maps(records@)),
            Err(e) => e is CsvError && decoded(tables_of(body@)) is None,
        },
{
    let tables = split_tables(body);
    let ghost all = tables.deep_view();
    let mut records: Vec<Entries<String>> = Vec::new();
    let mut i: usize = 0;
    proof {
        assert(all.subrange(0, 0) =~= Seq::<Seq<char>>::empty());
        assert(record_maps(records@) =~= Seq::<Map<Seq<char>, Seq<char>>>::empty());
    }
    while i < tables.len()
        invariant
            i <= tables@.len(),
            all == tables.deep_view(),
            all == tables_of(body@),
            decoded(all.subrange(0, i as int)) == Some(record_maps(records@)),
        decreases tables@.len() - i,
    {
        proof {
            let next = all.subrange(0, i as int + 1);
            assert(next.drop_last() =~= all.subrange(0, i as int));
            assert(next.last() == tables@[i as int]@);
        }
        match read_records(tables[i].as_str()) {
            Ok(rows) => {
                let ghost before = record_maps(records@);
                let ghost last = csv_records(tables@[i as int]@)->0;
                let mut more = records_of(rows);
                proof {
                    assert(record_maps(more@) =~= Seq::new(
                        last.len(),
                        |k: int| record_of(last[k]),
                    ));
                }
                records.append(&mut more);
                proof {
                    assert(record_maps(records@) =~= before + Seq::new(
                        last.len(),
                        |k: int| record_of(last[k]),
                    ));
                }
            },
            Err(e) => {
                proof {
                    assert(all[i as int] == tables@[i as int]@);
                    lemma_decoded_none(all, i as int);
                }
                return Err(ResponseError::CsvError(e));
            },
        }
        i = i + 1;
    }
    proof {
        assert(all.subrange(0, i as int) =~= all);
    }
    Ok(records)
}

/// Where one table is malformed, the tables have no records.
proof fn lemma_decoded_none(tables: Seq<Seq<char>>, at: int)
    requires
        0 <= at < tables.len(),
        csv_records(tables[at]) is None,
    ensures
        decoded(tables) is None,
    decreases tables.len(),
{
    if at < tables.len() - 1 {
        lemma_decoded_none(tables.drop_last(), at);
    }
}

/// What a query gave: the records of the body where the status code is a
/// success, else the status code and the body as the error.
pub fn query_response(status: u16, body: &str) -> (r: Result<Vec<Entries<String>>, ResponseError>)
    ensures
        !status_is_success(status) ==> (r matches Err(ResponseError::NonSuccessResponse(s, b))
            && s == status && b@ == body@),
        status_is_success(status) ==> match r {
            Ok(records) => decoded(tables_of(body@)) == Some(record_maps(records@)),
            Err(e) => e is CsvError && decoded(tables_of(body@)) is None,
        },
{
    if is_success(status) {
        decode(body)
    } else {
        Err(ResponseError::NonSuccessResponse(status, body.to_owned()))
    }
}

/// Whether a response with this status code is a success: the codes from 200
/// up to 299 are.
pub open spec fn status_is_success(status: u16) -> bool {
    200 <= status < 300
}

/// Tells whether a response with this status code is a success.
pub fn is_success(status: u16) -> (r: bool)
    ensures
        r == status_is_success(status),
{
    200 <= status && status < 300
}

} // verus!
