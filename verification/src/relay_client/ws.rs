//! Where a subscription connects: the parts of a relay URL and the
//! WebSocket URL of a mailbox.

use vstd::prelude::*;
use vstd::string::StrSliceExecFns;

use crate::relay::table::str_eq;
use crate::relay_client::http::{chars_of, find_from, first_at};

verus! {

/// The connection target of a subscription.
pub struct Endpoint {
    /// The URL scheme (`ws` or `wss`).
    pub scheme: String,
    /// `host[:port]`, what the TCP connection dials.
    pub authority: String,
    /// The host name, for TLS server-name checks.
    pub host: String,
    /// `{relay_url}/v1/mailboxes/{mailbox_id}/ws`.
    pub ws_url: String,
    /// Whether the connection runs over TLS (`wss`).
    pub tls: bool,
}

/// The endpoint of mailbox `mailbox` on relay `url`: the scheme and the
/// authority split at the first `://`, the host the authority up to its
/// first `:`; no `://` means no endpoint.
pub open spec fn spec_endpoint(url: Seq<char>, mailbox: Seq<char>) -> Option<
    (Seq<char>, Seq<char>, Seq<char>, Seq<char>),
> {
    match first_at(url, "://"@, 0) {
        None => None,
        Some(i) => {
            let scheme = url.subrange(0, i);
            let authority = url.subrange(i + 3, url.len() as int);
            let host = match first_at(authority, seq![':'], 0) {
                Some(j) => authority.subrange(0, j),
                None => authority,
            };
            Some((scheme, authority, host, url + "/v1/mailboxes/"@ + mailbox + "/ws"@))
        },
    }
}

/// Splits a relay URL for a subscription to `mailbox_id`.
pub fn ws_endpoint(relay_url: &str, mailbox_id: &str) -> (r: Option<Endpoint>)
    ensures
        r is None <==> spec_endpoint(relay_url@, mailbox_id@) is None,
        r matches Some(e) ==> spec_endpoint(relay_url@, mailbox_id@) == Some(
            (e.scheme@, e.authority@, e.host@, e.ws_url@),
        ) && e.tls == (e.scheme@ == "wss"@),
{
    proof {
        reveal_strlit("://");
    }
    let chars = chars_of(relay_url);
    let sep = chars_of("://");
    let n = relay_url.unicode_len();
    let i = match find_from(&chars, &sep, 0) {
        Some(i) => i,
        None => {
            return None;
        },
    };
    let scheme = relay_url.substring_char(0, i).to_owned();
    let authority_str = relay_url.substring_char(i + 3, n);
    let auth_chars = chars_of(authority_str);
    let mut colon: Vec<char> = Vec::new();
    colon.push(':');
    assert(colon@ =~= seq![':']);
    let host = match find_from(&auth_chars, &colon, 0) {
        Some(j) => authority_str.substring_char(0, j).to_owned(),
        None => authority_str.to_owned(),
    };
    let mut ws_url = relay_url.to_owned();
    vstd::string::StringExecFns::append(&mut ws_url, "/v1/mailboxes/");
    vstd::string::StringExecFns::append(&mut ws_url, mailbox_id);
    vstd::string::StringExecFns::append(&mut ws_url, "/ws");
    let tls = str_eq(scheme.as_str(), "wss");
    Some(Endpoint { scheme, authority: authority_str.to_owned(), host, ws_url, tls })
}

} // verus!
