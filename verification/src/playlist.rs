//! Playlist entries, extracted from a completed key-to-value mapping. Unlike
//! the song and statistics folds, both fields are mandatory: a missing one is
//! a protocol error naming the absent key.

use vstd::prelude::*;
use crate::error::{Error, ErrS, bad_time, no_field};
use crate::value::{Timestamp, parse_timestamp, timestamp_of, str_eq};

verus! {

/// A stored playlist: its name and its last-modified time.
#[derive(Debug, Clone, PartialEq)]
pub struct Playlist {
    /// name
    pub name: String,
    /// last modified
    pub last_mod: Timestamp,
}

/// Mathematical image of a [`Playlist`].
#[verifier::ext_equal]
pub struct PlaylistS {
    pub name: Seq<char>,
    pub last_mod: Timestamp,
}

impl View for Playlist {
    type V = PlaylistS;

    open spec fn view(&self) -> PlaylistS {
        PlaylistS { name: self.name@, last_mod: self.last_mod }
    }
}

/// The value the completed mapping holds under `k`: the last entry with that
/// key, if the transport supplied duplicates.
pub open spec fn map_lookup(s: Seq<(String, String)>, k: Seq<char>) -> Option<Seq<char>>
    decreases s.len(),
{
    if s.len() == 0 {
        None
    } else if s.last().0@ == k {
        Some(s.last().1@)
    } else {
        map_lookup(s.drop_last(), k)
    }
}

/// The whole playlist extraction: `playlist` names the list, `Last-Modified`
/// holds its timestamp text; either absent is a missing-field error naming
/// the key, and a timestamp failing its pattern is a time-parse error.
pub open spec fn playlist_from_s(s: Seq<(String, String)>) -> Result<PlaylistS, ErrS> {
    match map_lookup(s, "playlist"@) {
        None => Err(ErrS::NoField("playlist"@)),
        Some(name) => match map_lookup(s, "Last-Modified"@) {
            None => Err(ErrS::NoField("Last-Modified"@)),
            Some(v) => match timestamp_of(v) {
                Some(t) => Ok(PlaylistS { name, last_mod: Timestamp { secs: t } }),
                None => Err(ErrS::BadTime("Last-Modified"@, v)),
            },
        },
    }
}

fn lookup<'a>(map: &'a Vec<(String, String)>, key: &str) -> (r: Option<&'a String>)
    ensures
        match r {
            Some(v) => map_lookup(map@, key@) == Some(v@),
            None => map_lookup(map@, key@) is None,
        },
{
    let n = map.len();
    proof {
        assert(map@.subrange(0, n as int) =~= map@);
    }
    let mut i: usize = n;
    while i > 0
        invariant
            i <= n,
            n == map@.len(),
            map_lookup(map@, key@) == map_lookup(map@.subrange(0, i as int), key@),
        decreases i,
    {
        proof {
            assert(map@.subrange(0, i as int).drop_last() =~= map@.subrange(0, i - 1));
            assert(map@.subrange(0, i as int).last() == map@[i - 1]);
        }
        let hit = str_eq(map[i - 1].0.as_str(), key);
        if hit {
            return Some(&map[i - 1].1);
        }
        i -= 1;
    }
    proof {
        assert(map@.subrange(0, 0) =~= Seq::<(String, String)>::empty());
    }
    None
}

impl Playlist {
    /// Extracts a playlist from a completed key-to-value mapping (keys
    /// unique up to last-write-wins).
    pub fn from_map(map: Vec<(String, String)>) -> (r: Result<Playlist, Error>)
        ensures
            match r {
                Ok(p) => playlist_from_s(map@) == Ok::<PlaylistS, ErrS>(p@),
                Err(e) => playlist_from_s(map@) == Err::<PlaylistS, ErrS>(e@),
            },
    {
        let name = match lookup(&map, "playlist") {
            Some(v) => v.clone(),
            None => {
                return Err(no_field("playlist"));
            },
        };
        let text = match lookup(&map, "Last-Modified") {
            Some(v) => v,
            None => {
                return Err(no_field("Last-Modified"));
            },
        };
        match parse_timestamp(text.as_str()) {
            Some(t) => Ok(Playlist { name, last_mod: t }),
            None => Err(bad_time("Last-Modified", text.clone())),
        }
    }
}

} // verus!
