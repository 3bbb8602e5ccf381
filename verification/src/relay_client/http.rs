//! Relay HTTP framing on the client side: the HTTP origin of a relay URL,
//! what the relay's statuses mean, and the mailbox-create response.

use vstd::prelude::*;
use vstd::string::StrSliceExecFns;

use crate::error::{CoreError, Result};

verus! {

/// Result of a blob deposit, by the relay's status.
#[derive(Debug, Clone, Copy, PartialEq, Eq, Structural)]
pub enum DepositOutcome {
    /// 202: queued.
    Accepted,
    /// 404: mailbox unknown, expired or retired.
    NotFound,
    /// Any other status.
    Other(u16),
}

/// Outcome of a create-at-id.
#[derive(Debug, Clone, Copy, PartialEq, Eq, Structural)]
pub enum PutOutcome {
    /// 201: the mailbox exists after the call.
    Created,
    /// 503: the relay is full.
    AtCap,
    /// 429: per-source pacing; never counted toward exhaustion.
    RateLimited,
    /// Any other status.
    Other(u16),
}

/// What a deposit's status means.
pub fn deposit_outcome(status: u16) -> (o: DepositOutcome)
    ensures
        o == (if status == 202 {
            DepositOutcome::Accepted
        } else if status == 404 {
            DepositOutcome::NotFound
        } else {
            DepositOutcome::Other(status)
        }),
{
    if status == 202 {
        DepositOutcome::Accepted
    } else if status == 404 {
        DepositOutcome::NotFound
    } else {
        DepositOutcome::Other(status)
    }
}

/// What a create-at-id's status means.
pub fn put_outcome(status: u16) -> (o: PutOutcome)
    ensures
        o == (if status == 201 {
            PutOutcome::Created
        } else if status == 503 {
            PutOutcome::AtCap
        } else if status == 429 {
            PutOutcome::RateLimited
        } else {
            PutOutcome::Other(status)
        }),
{
    if status == 201 {
        PutOutcome::Created
    } else if status == 503 {
        PutOutcome::AtCap
    } else if status == 429 {
        PutOutcome::RateLimited
    } else {
        PutOutcome::Other(status)
    }
}

/// `p` occurs in `s` at `i`.
pub open spec fn occurs_at(s: Seq<char>, p: Seq<char>, i: int) -> bool {
    0 <= i && i + p.len() <= s.len() && s.subrange(i, i + p.len()) == p
}

/// The first place at or after `from` where `p` occurs in `s`.
pub open spec fn first_at(s: Seq<char>, p: Seq<char>, from: int) -> Option<int>
    decreases s.len() + 1 - from,
{
    if from < 0 || from + p.len() > s.len() {
        None
    } else if occurs_at(s, p, from) {
        Some(from)
    } else {
        first_at(s, p, from + 1)
    }
}

/// The HTTP origin of a relay URL: `ws://` becomes `http://`, `wss://`
/// becomes `https://`, anything else is kept.
pub open spec fn spec_to_http(u: Seq<char>) -> Seq<char> {
    if "ws://"@.is_prefix_of(u) {
        "http://"@ + u.skip(5)
    } else if "wss://"@.is_prefix_of(u) {
        "https://"@ + u.skip(6)
    } else {
        u
    }
}

/// The piece of `s` between the first and second occurrence of `p` (to the
/// end if it occurs once), as character positions.
pub open spec fn second_piece(s: Seq<char>, p: Seq<char>) -> Option<(int, int)> {
    match first_at(s, p, 0) {
        None => None,
        Some(a) => {
            let n = s.len();
            let start = a + p.len();
            match first_at(s, p, start) {
                Some(b) => Some((start, b)),
                None => Some((start, s.len() as int)),
            }
        },
    }
}

/// The mailbox id in a create response: after the first `"mailbox_id"`,
/// the text between the next two double quotes.
pub open spec fn spec_create_response_id(body: Seq<char>) -> Option<Seq<char>> {
    match second_piece(body, "\"mailbox_id\""@) {
        None => None,
        Some((s0, e0)) => {
            let seg = body.subrange(s0, e0);
            match second_piece(seg, seq!['"']) {
                None => None,
                Some((s1, e1)) => Some(seg.subrange(s1, e1)),
            }
        },
    }
}

fn has_prefix(s: &str, p: &str) -> (r: bool)
    ensures
        r == p@.is_prefix_of(s@),
{
    let n = s.unicode_len();
    let m = p.unicode_len();
    if m > n {
        return false;
    }
    let mut i: usize = 0;
    while i < m
        invariant
            i <= m,
            m == p@.len(),
            n == s@.len(),
            m <= n,
            forall|j: int| 0 <= j < i ==> s@[j] == p@[j],
        decreases m - i,
    {
        if s.get_char(i) != p.get_char(i) {
            return false;
        }
        i = i + 1;
    }
    assert(s@.subrange(0, m as int) =~= p@);
    true
}

/// Maps a relay URL to its HTTP origin.
pub fn to_http(url: &str) -> (r: String)
    ensures
        r@ == spec_to_http(url@),
{
    proof {
        reveal_strlit("ws://");
        reveal_strlit("wss://");
    }
    let n = url.unicode_len();
    if has_prefix(url, "ws://") {
        let mut s = "http://".to_owned();
        vstd::string::StringExecFns::append(&mut s, url.substring_char(5, n));
        s
    } else if has_prefix(url, "wss://") {
        let mut s = "https://".to_owned();
        vstd::string::StringExecFns::append(&mut s, url.substring_char(6, n));
        s
    } else {
        url.to_owned()
    }
}

/// Whether `p` occurs in `s` at `i`.
fn occurs_at_exec(s: &Vec<char>, p: &Vec<char>, i: usize) -> (r: bool)
    ensures
        r == occurs_at(s@, p@, i as int),
{
    if p.len() > s.len() || i > s.len() - p.len() {
        return false;
    }
    let mut j: usize = 0;
    let n = s.len();
    while j < p.len()
        invariant
            j <= p@.len(),
            n == s@.len(),
            i + p@.len() <= s@.len(),
            forall|k: int| 0 <= k < j ==> s@[i + k] == p@[k],
        decreases p@.len() - j,
    {
        if s[i + j] != p[j] {
            assert(s@.subrange(i as int, i + p@.len())[j as int] != p@[j as int]);
            return false;
        }
        j = j + 1;
    }
    assert(s@.subrange(i as int, i + p@.len()) =~= p@);
    true
}

/// The first place at or after `from` where `p` occurs in `s`.
pub(crate) fn find_from(s: &Vec<char>, p: &Vec<char>, from: usize) -> (r: Option<usize>)
    ensures
        r is None <==> first_at(s@, p@, from as int) is None,
        r matches Some(x) ==> first_at(s@, p@, from as int) == Some(x as int) && from <= x && x
            + p@.len() <= s@.len(),
    decreases s@.len() + 1 - from,
{
    proof {
        lemma_first_at_bounds(s@, p@, from as int);
    }
    if p.len() > s.len() || from > s.len() - p.len() {
        return None;
    }
    if occurs_at_exec(s, p, from) {
        return Some(from);
    }
    assert(p@.len() > 0) by {
        if p@.len() == 0 {
            assert(s@.subrange(from as int, from as int) =~= p@);
        }
    }
    find_from(s, p, from + 1)
}

/// The characters of a string.
pub(crate) fn chars_of(s: &str) -> (v: Vec<char>)
    ensures
        v@ == s@,
{
    let n = s.unicode_len();
    let mut v: Vec<char> = Vec::new();
    let mut i: usize = 0;
    while i < n
        invariant
            i <= n,
            n == s@.len(),
            v@ == s@.subrange(0, i as int),
        decreases n - i,
    {
        v.push(s.get_char(i));
        i = i + 1;
        assert(v@ =~= s@.subrange(0, i as int));
    }
    assert(s@.subrange(0, n as int) =~= s@);
    v
}

fn second_piece_exec(s: &Vec<char>, p: &Vec<char>) -> (r: Option<(usize, usize)>)
    ensures
        r is None <==> second_piece(s@, p@) is None,
        r matches Some((a, b)) ==> second_piece(s@, p@) == Some((a as int, b as int)) && a <= b
            <= s@.len(),
{
    proof {
        lemma_first_at_bounds(s@, p@, 0);
    }
    match find_from(s, p, 0) {
        None => None,
        Some(a) => {
            let n = s.len();
            let start = a + p.len();
            proof {
                lemma_first_at_bounds(s@, p@, start as int);
            }
            match find_from(s, p, start) {
                Some(b) => Some((start, b)),
                None => Some((start, s.len())),
            }
        },
    }
}

/// The mailbox id of a create response, or a malformed-response error.
pub fn parse_create_response(body: &str) -> (r: Result<String>)
    ensures
        match spec_create_response_id(body@) {
            Some(id) => r matches Ok(s) && s@ == id,
            None => r matches Err(e) && e == CoreError::Malformed("malformed mailbox-create response"),
        },
{
    let chars = chars_of(body);
    let key = chars_of("\"mailbox_id\"");
    let (s0, e0) = match second_piece_exec(&chars, &key) {
        Some(x) => x,
        None => {
            return Err(CoreError::Malformed("malformed mailbox-create response"));
        },
    };
    let seg = chars_of(body.substring_char(s0, e0));
    let mut quote: Vec<char> = Vec::new();
    quote.push('"');
    assert(quote@ =~= seq!['"']);
    match second_piece_exec(&seg, &quote) {
        None => Err(CoreError::Malformed("malformed mailbox-create response")),
        Some((s1, e1)) => {
            let piece = body.substring_char(s0 + s1, s0 + e1);
            assert(piece@ =~= seg@.subrange(s1 as int, e1 as int));
            Ok(piece.to_owned())
        },
    }
}

proof fn lemma_first_at_bounds(s: Seq<char>, p: Seq<char>, from: int)
    ensures
        first_at(s, p, from) matches Some(i) ==> from <= i && i + p.len() <= s.len() && 0 <= i,
    decreases s.len() + 1 - from,
{
    if from < 0 || from + p.len() > s.len() {
    } else if occurs_at(s, p, from) {
    } else {
        lemma_first_at_bounds(s, p, from + 1);
    }
}

} // verus!
