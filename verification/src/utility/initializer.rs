//! The configuration of a run.
use vstd::prelude::*;

use crate::text::str_eq;

verus! {

/// Where links are read from and media are saved to.
#[derive(Debug)]
pub struct PathsConfig {
    pub links_file: String,
    pub save_root: String,
    pub sub_dir: String,
    pub start_name: String,
}

/// The pause between requests.
#[derive(Debug)]
pub struct TimingsConfig {
    pub request_delay: String,
}

/// The configuration of a run; `site_cookies` holds the cookie of each site
/// (the `cookies` table of the configuration file), one entry per site.
#[derive(Debug)]
pub struct Config {
    pub paths: PathsConfig,
    pub timings: TimingsConfig,
    pub site_cookies: Vec<(String, String)>,
}

/// The value of the first entry with key `key`.
pub open spec fn entry_value(entries: Seq<(Seq<char>, Seq<char>)>, key: Seq<char>) -> Option<
    Seq<char>,
>
    decreases entries.len(),
{
    if entries.len() == 0 {
        None
    } else if entries[0].0 == key {
        Some(entries[0].1)
    } else {
        entry_value(entries.drop_first(), key)
    }
}

/// The value for a key is that of its first entry; a key without entry has none.
pub proof fn law_first_entry_wins(entries: Seq<(Seq<char>, Seq<char>)>, key: Seq<char>)
    ensures
        forall|i: int|
            0 <= i < entries.len() && entries[i].0 == key && (forall|j: int|
                0 <= j < i ==> #[trigger] entries[j].0 != key) ==> entry_value(entries, key) == Some(
                #[trigger] entries[i].1,
            ),
        (forall|i: int| 0 <= i < entries.len() ==> #[trigger] entries[i].0 != key) ==> entry_value(
            entries,
            key,
        ) is None,
    decreases entries.len(),
{
    if entries.len() > 0 {
        let rest = entries.drop_first();
        law_first_entry_wins(rest, key);
        assert forall|i: int|
            0 <= i < entries.len() && entries[i].0 == key && (forall|j: int|
                0 <= j < i ==> #[trigger] entries[j].0 != key) implies entry_value(entries, key)
            == Some(#[trigger] entries[i].1) by {
            if i > 0 {
                assert(entries[0].0 != key);
                assert(rest[i - 1] == entries[i]);
                assert forall|j: int| 0 <= j < i - 1 implies #[trigger] rest[j].0 != key by {
                    assert(rest[j] == entries[j + 1]);
                }
            }
        }
        if forall|i: int| 0 <= i < entries.len() ==> #[trigger] entries[i].0 != key {
            assert forall|i: int| 0 <= i < rest.len() implies #[trigger] rest[i].0 != key by {
                assert(rest[i] == entries[i + 1]);
            }
        }
    }
}

impl Config {
    /// The site cookies as (site, cookie) pairs.
    pub open spec fn cookies(&self) -> Seq<(Seq<char>, Seq<char>)> {
        self.site_cookies@.map_values(|p: (String, String)| (p.0@, p.1@))
    }

    /// The cookie configured for `site_name`, or the empty string.
    pub open spec fn cookie_for(&self, site_name: Seq<char>) -> Seq<char> {
        match entry_value(self.cookies(), site_name) {
            Some(c) => c,
            None => Seq::<char>::empty(),
        }
    }

    /// The cookie configured for `site_name`, or the empty string.
    pub fn get_cookie_for_site(&self, site_name: &str) -> (r: &str)
        ensures
            r@ == self.cookie_for(site_name@),
    {
        let ghost es = self.cookies();
        let mut k: usize = 0;
        proof {
            assert(es.skip(0) =~= es);
        }
        while k < self.site_cookies.len()
            invariant
                es == self.cookies(),
                k <= es.len(),
                entry_value(es, site_name@) == entry_value(es.skip(k as int), site_name@),
            decreases es.len() - k,
        {
            proof {
                assert(es.skip(k as int).drop_first() =~= es.skip(k + 1));
                assert(es.skip(k as int)[0] == es[k as int]);
            }
            if str_eq(self.site_cookies[k].0.as_str(), site_name) {
                return self.site_cookies[k].1.as_str();
            }
            k = k + 1;
        }
        proof {
            reveal_strlit("");
        }
        ""
    }
}

} // verus!
