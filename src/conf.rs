//! Lines of a `pcp.conf` file: `PCP_NAME=value`, the value not quoted.
use vstd::prelude::*;
use vstd::utf8::{decode_utf8, valid_utf8};
use crate::codec::utf8_text;

verus! {

/// A byte allowed in a variable name: an ASCII letter or digit, or `_`.
pub open spec fn name_byte(b: u8) -> bool {
    (48 <= b <= 57) || (65 <= b <= 90) || (97 <= b <= 122) || b == 95
}

/// Not a double or single quote.
pub open spec fn unquoted(b: u8) -> bool {
    b != 34 && b != 39
}

/// `line` is `PCP_` and name bytes up to the `=` at `e`, then a value of at
/// least two bytes that neither starts nor ends with a quote and holds no
/// newline inside, then a final newline.
pub open spec fn conf_split(line: Seq<u8>, e: int) -> bool {
    let n = line.len() as int;
    &&& 4 < e
    &&& n >= e + 4
    &&& line[0] == 80 && line[1] == 67 && line[2] == 80 && line[3] == 95
    &&& forall|i: int| 4 <= i < e ==> name_byte(#[trigger] line[i])
    &&& line[e] == 61
    &&& line[n - 1] == 10
    &&& unquoted(line[e + 1])
    &&& unquoted(line[n - 2])
    &&& forall|i: int| e + 2 <= i < n - 2 ==> #[trigger] line[i] != 10
}

/// The name and the value of a `pcp.conf` line, if it is an assignment.
pub open spec fn conf_match(line: Seq<u8>) -> Option<(Seq<u8>, Seq<u8>)> {
    if exists|e: int| conf_split(line, e) {
        let e = choose|e: int| conf_split(line, e);
        Some((line.take(e), line.subrange(e + 1, line.len() - 1)))
    } else {
        None
    }
}

/// Relies on `regex::bytes::Regex::captures` with the pattern
/// `(?-u)^(PCP_[[:alnum:]_]+)=([^"'].*[^"'])\n$`: a byte line matches as
/// `conf_match` states (the name has no `=`, so the split is unique), and
/// its two groups are the name and the value.
#[verifier::external_body]
fn conf_captures(line: &[u8]) -> (r: Option<(Vec<u8>, Vec<u8>)>)
    ensures
        r matches Some((k, v)) ==> conf_match(line@) == Some((k@, v@)),
        r is None ==> conf_match(line@) is None,
{
    let re = regex::bytes::Regex::new("(?-u)^(PCP_[[:alnum:]_]+)=([^\"\'].*[^\"\'])\n$").unwrap();
    match re.captures(line) {
        Some(caps) => match (caps.get(1), caps.get(2)) {
            (Some(k), Some(v)) => Some((k.as_bytes().to_vec(), v.as_bytes().to_vec())),
            _ => None,
        },
        None => None,
    }
}

/// The variable that a `pcp.conf` line sets, as name and value, if the
/// line is an assignment whose name and value are UTF-8.
pub fn conf_assignment(line: &[u8]) -> (r: Option<(String, String)>)
    ensures
        r matches Some((k, v)) ==> conf_match(line@) matches Some((kb, vb)) && valid_utf8(kb) && valid_utf8(vb) && k@
            == decode_utf8(kb) && v@ == decode_utf8(vb),
        r is None ==> (conf_match(line@) matches Some((kb, vb)) ==> !valid_utf8(kb) || !valid_utf8(vb)),
{
    match conf_captures(line) {
        None => None,
        Some((k, v)) => match (utf8_text(k.as_slice()), utf8_text(v.as_slice())) {
            (Some(ks), Some(vs)) => Some((ks, vs)),
            _ => None,
        },
    }
}

} // verus!
