//! The default headers of the plain HTTP client.
use vstd::prelude::*;

verus! {

/// The `Accept` header that a browser sends for a page.
pub open spec fn page_accept() -> Seq<char> {
    "text/html,application/xhtml+xml,application/xml;q=0.9,*/*;q=0.8"@
}

/// The default headers of the page client: the user agent, the fetch
/// metadata of a same-origin navigation, the `Accept` of a browser, and the
/// cookie when there is one.
pub open spec fn browser_headers(user_agent: Seq<char>, cookie: Seq<char>) -> Seq<
    (Seq<char>, Seq<char>),
> {
    let base = seq![
        ("user-agent"@, user_agent),
        ("sec-fetch-dest"@, "document"@),
        ("sec-fetch-mode"@, "navigate"@),
        ("sec-fetch-site"@, "same-origin"@),
        ("accept"@, page_accept()),
    ];
    if cookie.len() > 0 {
        base.push(("cookie"@, cookie))
    } else {
        base
    }
}

/// The view of a list of header (name, value) pairs.
pub open spec fn header_views(h: Seq<(String, String)>) -> Seq<(Seq<char>, Seq<char>)> {
    h.map_values(|p: (String, String)| (p.0@, p.1@))
}

fn pair(name: &str, value: &str) -> (r: (String, String))
    ensures
        r.0@ == name@,
        r.1@ == value@,
{
    (name.to_owned(), value.to_owned())
}

/// The default headers of the page client, as (name, value) pairs.
pub fn request_headers(user_agent: &str, cookie: &str) -> (r: Vec<(String, String)>)
    ensures
        header_views(r@) == browser_headers(user_agent@, cookie@),
{
    let mut h: Vec<(String, String)> = Vec::new();
    h.push(pair("user-agent", user_agent));
    h.push(pair("sec-fetch-dest", "document"));
    h.push(pair("sec-fetch-mode", "navigate"));
    h.push(pair("sec-fetch-site", "same-origin"));
    h.push(pair("accept", "text/html,application/xhtml+xml,application/xml;q=0.9,*/*;q=0.8"));
    if !cookie.is_empty() {
        h.push(pair("cookie", cookie));
    }
    assert(header_views(h@) =~= browser_headers(user_agent@, cookie@));
    h
}

} // verus!
