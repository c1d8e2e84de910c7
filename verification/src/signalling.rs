//! The hand-rolled HTTP/1.1 signalling endpoint: recognising the browser's
//! offer, taking its body out of the request, and framing the replies.

use vstd::prelude::*;
use vstd::string::*;
use crate::text::{decimal, str_starts_with, str_to_chars, string_from_chars, zero_fill, zero_padded};

verus! {

/// The separator between the head and the body of an HTTP message.
pub open spec fn blank_line() -> Seq<char> {
    seq!['\r', '\n', '\r', '\n']
}

/// `pat` occurs in `s` at `i`.
pub open spec fn matches_at(s: Seq<char>, pat: Seq<char>, i: int) -> bool {
    0 <= i && i + pat.len() <= s.len() && s.subrange(i, i + pat.len()) == pat
}

/// The first occurrence of `pat` in `s` at or after `i`.
pub open spec fn find_from(s: Seq<char>, pat: Seq<char>, i: int) -> Option<int>
    decreases s.len() + 1 - i,
{
    if i < 0 || i + pat.len() > s.len() {
        None
    } else if matches_at(s, pat, i) {
        Some(i)
    } else {
        find_from(s, pat, i + 1)
    }
}

/// The second piece of `req` split at blank lines: what follows the first
/// blank line, up to the next one; empty when there is no blank line.
pub open spec fn spec_offer_body(req: Seq<char>) -> Seq<char> {
    match find_from(req, blank_line(), 0) {
        None => Seq::empty(),
        Some(m) => {
            let b = m + 4;
            match find_from(req, blank_line(), b) {
                Some(m2) => req.subrange(b, m2),
                None => req.subrange(b, req.len() as int),
            }
        },
    }
}

proof fn lemma_find_from(s: Seq<char>, pat: Seq<char>, i: int)
    ensures
        find_from(s, pat, i) matches Some(m) ==> i <= m && matches_at(s, pat, m),
    decreases s.len() + 1 - i,
{
    if i < 0 || i + pat.len() > s.len() {
    } else if matches_at(s, pat, i) {
    } else {
        lemma_find_from(s, pat, i + 1);
    }
}

fn blank_line_at(cs: &[char], i: usize) -> (r: bool)
    requires
        i + 4 <= cs@.len(),
    ensures
        r == matches_at(cs@, blank_line(), i as int),
{
    let r = cs[i] == '\r' && cs[i + 1] == '\n' && cs[i + 2] == '\r' && cs[i + 3] == '\n';
    assert(r == (cs@.subrange(i as int, i + 4) =~= blank_line()));
    r
}

fn find_blank_line(cs: &[char], start: usize) -> (r: Option<usize>)
    ensures
        r matches Some(m) ==> find_from(cs@, blank_line(), start as int) == Some(m as int),
        r is None ==> find_from(cs@, blank_line(), start as int) is None,
{
    let mut i = start;
    while cs.len() >= 4 && i <= cs.len() - 4
        invariant
            start <= i,
            find_from(cs@, blank_line(), start as int) == find_from(cs@, blank_line(), i as int),
        decreases cs@.len() - i,
    {
        if blank_line_at(cs, i) {
            return Some(i);
        }
        i += 1;
    }
    None
}

/// The offer is the body of the request: `split("\r\n\r\n").nth(1)`.
pub fn offer_body(req: &str) -> (body: String)
    ensures
        body@ == spec_offer_body(req@),
{
    let cs = str_to_chars(req);
    assert(cs@.len() == cs.len());
    let first = find_blank_line(cs.as_slice(), 0);
    match first {
        None => String::new(),
        Some(m) => {
            proof {
                lemma_find_from(cs@, blank_line(), 0);
                assert(blank_line().len() == 4);
                assert(m + 4 <= cs@.len());
            }
            let b = m + 4;
            let end = match find_blank_line(cs.as_slice(), b) {
                Some(m2) => m2,
                None => cs.len(),
            };
            proof {
                lemma_find_from(cs@, blank_line(), b as int);
            }
            string_from_chars(vstd::slice::slice_subrange(cs.as_slice(), b, end))
        },
    }
}

/// A request is the browser's offer when it is a `POST` to `/offer`.
pub fn is_offer_request(req: &str) -> (r: bool)
    ensures
        r == ("POST /offer"@.len() <= req@.len() && req@.subrange(0, "POST /offer"@.len() as int)
            == "POST /offer"@),
{
    str_starts_with(req, "POST /offer")
}

/// A 200 reply carrying `body` as `content_type`, with its length in bytes.
pub open spec fn spec_ok_response(content_type: Seq<char>, body: &str) -> Seq<char> {
    "HTTP/1.1 200 OK\r\ncontent-type: "@ + content_type + "\r\ncontent-length: "@ + decimal(
        body.len() as nat,
    ) + "\r\n\r\n"@ + body@
}

pub fn ok_response(content_type: &str, body: &str) -> (resp: String)
    ensures
        resp@ == spec_ok_response(content_type@, body),
{
    let mut resp = String::from_str("HTTP/1.1 200 OK\r\ncontent-type: ");
    resp.append(content_type);
    resp.append("\r\ncontent-length: ");
    resp.append(zero_padded(body.len() as u64, 0).as_str());
    resp.append("\r\n\r\n");
    resp.append(body);
    proof {
        assert(zero_fill(body.len() as nat, 0) == decimal(body.len() as nat));
    }
    resp
}

/// The reply when no answer to the offer came back.
pub open spec fn spec_error_response() -> Seq<char> {
    "HTTP/1.1 500 Internal Server Error\r\ncontent-length: 0\r\n\r\n"@
}

pub fn error_response() -> (resp: String)
    ensures
        resp@ == spec_error_response(),
{
    String::from_str("HTTP/1.1 500 Internal Server Error\r\ncontent-length: 0\r\n\r\n")
}


proof fn lemma_find_from_is(s: Seq<char>, pat: Seq<char>, i: int, j: int)
    requires
        0 <= i <= j,
        matches_at(s, pat, j),
        forall|k: int| i <= k < j ==> !matches_at(s, pat, k),
    ensures
        find_from(s, pat, i) == Some(j),
    decreases j - i,
{
    if i < j {
        assert(!matches_at(s, pat, i));
        lemma_find_from_is(s, pat, i + 1, j);
    }
}

proof fn lemma_find_from_none(s: Seq<char>, pat: Seq<char>, i: int)
    requires
        0 <= i,
        forall|k: int| i <= k ==> !matches_at(s, pat, k),
    ensures
        find_from(s, pat, i) is None,
    decreases s.len() + 1 - i,
{
    if i + pat.len() <= s.len() {
        assert(!matches_at(s, pat, i));
        lemma_find_from_none(s, pat, i + 1);
    }
}

/// Law: the body a client posts is the body read back. When a request is a
/// head, a blank line and a body, with no blank line inside the body and none
/// starting before the one that ends the head, [`offer_body`] gives exactly
/// the body.
pub proof fn law_posted_body_reads_back(head: Seq<char>, body: Seq<char>)
    requires
        forall|k: int| 0 <= k < head.len() ==> !matches_at(head + blank_line() + body, blank_line(), k),
        forall|k: int| 0 <= k ==> !matches_at(body, blank_line(), k),
    ensures
        spec_offer_body(head + blank_line() + body) == body,
{
    let req = head + blank_line() + body;
    let h = head.len() as int;
    let b = h + 4;
    assert(req.subrange(h, h + 4) == blank_line());
    lemma_find_from_is(req, blank_line(), 0, h);
    assert forall|k: int| b <= k implies !matches_at(req, blank_line(), k) by {
        if matches_at(req, blank_line(), k) {
            assert(req.subrange(k, k + 4) == body.subrange(k - b, k - b + 4));
            assert(matches_at(body, blank_line(), k - b));
        }
    }
    lemma_find_from_none(req, blank_line(), b);
    assert(req.subrange(b, req.len() as int) == body);
}

} // verus!
