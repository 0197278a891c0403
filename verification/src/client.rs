//! What a client sends and what it makes of the answer: the addresses and
//! bodies of write and query requests, and the records in the answer to a
//! query. Sending and receiving are left to the caller.

use crate::measurement::Measurement;
use crate::text::{join, join_strings};
use vstd::prelude::*;
use vstd::string::StringExecFns;

verus! {

/// The address that measurements for `bucket` are written to.
pub open spec fn write_address(url: Seq<char>, org: Seq<char>, bucket: Seq<char>) -> Seq<char> {
    url + "/api/v2/write?org="@ + org + "&bucket="@ + bucket + "&precision=ms"@
}

/// The address that queries are sent to.
pub open spec fn query_address(url: Seq<char>, org: Seq<char>) -> Seq<char> {
    url + "/api/v2/query?org="@ + org
}

/// The address that measurements for `bucket` are written to. Nothing in
/// `url`, `org` or `bucket` is encoded.
pub fn write_url(url: &str, org: &str, bucket: &str) -> (r: String)
    ensures
        r@ == write_address(url@, org@, bucket@),
{
    let mut out = url.to_owned();
    out.append("/api/v2/write?org=");
    out.append(org);
    out.append("&bucket=");
    out.append(bucket);
    out.append("&precision=ms");
    out
}

/// The address that queries are sent to. Nothing in `url` or `org` is
/// encoded.
pub fn query_url(url: &str, org: &str) -> (r: String)
    ensures
        r@ == query_address(url@, org@),
{
    let mut out = url.to_owned();
    out.append("/api/v2/query?org=");
    out.append(org);
    out
}

/// The value of the `Authorization` header: the word `Token`, a space and
/// the key.
pub fn authorization(key: &str) -> (r: String)
    ensures
        r@ == "Token "@ + key@,
{
    let mut out = "Token ".to_owned();
    out.append(key);
    out
}

/// The lines of the measurements, in order.
pub open spec fn lines_of(measurements: Seq<Measurement>) -> Seq<Seq<char>> {
    Seq::new(measurements.len(), |i: int| measurements[i].line())
}

/// The body of a write request: the line of each measurement, with a line
/// feed between each two neighbours.
pub fn write_payload(measurements: &[Measurement]) -> (r: String)
    ensures
        r@ == join(lines_of(measurements@), seq!['\n']),
{
    let mut lines: Vec<String> = Vec::new();
    let mut i: usize = 0;
    while i < measurements.len()
        invariant
            i <= measurements@.len(),
            lines@.len() == i,
            forall|k: int| 0 <= k < i ==> (#[trigger] lines@[k])@ == measurements@[k].line(),
        decreases measurements@.len() - i,
    {
        lines.push(measurements[i].to_line_protocol());
        i = i + 1;
    }
    proof {
        reveal_strlit("\n");
        assert("\n"@ =~= seq!['\n']);
        assert(lines.deep_view() =~= lines_of(measurements@));
    }
    join_strings(&lines, "\n")
}

} // verus!
