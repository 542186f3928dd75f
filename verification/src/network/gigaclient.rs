//! The default headers of the browser-emulating HTTP client.
use vstd::prelude::*;

use crate::network::client::header_views;

verus! {

/// The default headers of the emulating client: the user agent, and the
/// cookie when there is one.
pub open spec fn emulated_headers(user_agent: Seq<char>, cookie: Seq<char>) -> Seq<
    (Seq<char>, Seq<char>),
> {
    if cookie.len() > 0 {
        seq![("user-agent"@, user_agent), ("cookie"@, cookie)]
    } else {
        seq![("user-agent"@, user_agent)]
    }
}

/// The default headers of the emulating client, as (name, value) pairs.
pub fn request_headers(user_agent: &str, cookie: &str) -> (r: Vec<(String, String)>)
    ensures
        header_views(r@) == emulated_headers(user_agent@, cookie@),
{
    let mut h: Vec<(String, String)> = Vec::new();
    h.push(("user-agent".to_owned(), user_agent.to_owned()));
    if !cookie.is_empty() {
        h.push(("cookie".to_owned(), cookie.to_owned()));
    }
    assert(header_views(h@) =~= emulated_headers(user_agent@, cookie@));
    h
}

} // verus!
