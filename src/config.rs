//! The settings the program reads at start.

use vstd::prelude::*;

verus! {

/// Where the cover-art endpoint listens, and the address the outside world
/// reaches it at.
pub struct WebConfig {
    /// A socket address, such as `0.0.0.0:8080`.
    pub listen_addr: String,
    /// The base of the public links to cover art, without a trailing slash.
    pub public_addr: String,
}

pub struct Config {
    /// Names of the cover images uploaded to the presence service.
    pub artfiles: Vec<String>,
    pub discord_client_id: i64,
    pub mastodon_token: String,
    /// Slugs to use for given titles, in place of the one derived from the
    /// title. Where a title is listed twice, the first entry counts.
    pub art_overrides: Vec<(String, String)>,
    pub web: Option<WebConfig>,
}

/// The slug that `overrides` sets for `title`: the first matching entry.
pub open spec fn override_for(overrides: Seq<(String, String)>, title: Seq<char>) -> Option<Seq<char>>
    decreases overrides.len(),
{
    if overrides.len() == 0 {
        None
    } else if overrides[0].0@ == title {
        Some(overrides[0].1@)
    } else {
        override_for(overrides.drop_first(), title)
    }
}

/// Looks up the slug that `overrides` sets for `title`.
pub fn lookup_override(overrides: &Vec<(String, String)>, title: &str) -> (r: Option<String>)
    ensures
        match r {
            Some(s) => override_for(overrides@, title@) == Some(s@),
            None => override_for(overrides@, title@) is None,
        },
{
    let key = title.to_owned();
    let mut i: usize = 0;
    assert(overrides@.skip(0) =~= overrides@);
    while i < overrides.len()
        invariant
            i <= overrides@.len(),
            override_for(overrides@, title@) == override_for(overrides@.skip(i as int), title@),
            key@ == title@,
        decreases overrides@.len() - i,
    {
        assert(overrides@.skip(i as int)[0] == overrides@[i as int]);
        if overrides[i].0 == key {
            return Some(overrides[i].1.clone());
        }
        assert(overrides@.skip(i as int).drop_first() =~= overrides@.skip(i + 1));
        i = i + 1;
    }
    None
}

} // verus!
