//! Candidate secrets: one per line of a wordlist.

use vstd::prelude::*;
use vstd::slice::*;
use vstd::utf8::valid_utf8;

verus! {

pub const LINE_FEED: u8 = 0x0a;

pub const CARRIAGE_RETURN: u8 = 0x0d;

/// A line without its terminator: a final line feed is dropped, and with it
/// a carriage return that stands directly before it. Nothing else changes.
pub open spec fn strip_terminator(line: Seq<u8>) -> Seq<u8> {
    if line.len() >= 1 && line.last() == LINE_FEED {
        let body = line.drop_last();
        if body.len() >= 1 && body.last() == CARRIAGE_RETURN {
            body.drop_last()
        } else {
            body
        }
    } else {
        line
    }
}

/// The candidate secret that a line stands for: the line without its
/// terminator where that is UTF-8 text, and none where it is not.
pub open spec fn candidate_of(line: Seq<u8>) -> Option<Seq<u8>> {
    let body = strip_terminator(line);
    if valid_utf8(body) {
        Some(body)
    } else {
        None
    }
}

/// Calls `std::str::from_utf8`, which succeeds on exactly the byte strings
/// that are UTF-8 text.
#[verifier::external_body]
fn is_utf8(bytes: &[u8]) -> (valid: bool)
    ensures
        valid == valid_utf8(bytes@),
{
    std::str::from_utf8(bytes).is_ok()
}

/// Turns one line of a wordlist into a candidate secret.
///
/// The line terminator is stripped and nothing else is normalised: case and
/// whitespace are kept. A line that is not UTF-8 text gives no candidate.
pub fn candidate_from_line(line: &[u8]) -> (candidate: Option<Vec<u8>>)
    ensures
        match candidate_of(line@) {
            Some(bytes) => candidate matches Some(c) && c@ == bytes,
            None => candidate is None,
        },
{
    let mut end: usize = line.len();
    if end >= 1 && line[end - 1] == LINE_FEED {
        end = end - 1;
        if end >= 1 && line[end - 1] == CARRIAGE_RETURN {
            end = end - 1;
        }
    }
    let body = slice_subrange(line, 0, end);
    assert(body@ =~= strip_terminator(line@));
    if is_utf8(body) {
        Some(slice_to_vec(body))
    } else {
        None
    }
}

} // verus!
