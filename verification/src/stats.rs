//! Database and playback statistics, folded from `key: value` lines; any
//! unrecognized key is silently ignored — there is no tag bag here.

use vstd::prelude::*;
use crate::error::{Error, ErrS, bad_int};
use crate::value::{Duration, Timestamp, parse_u32_s, parse_i64_s, parse_u32, parse_i64, str_eq};
use crate::song::{line_view, lines_view};

verus! {

/// DB and playback statistics.
#[derive(Debug, Clone, Copy, PartialEq, Eq, Structural)]
pub struct Stats {
    /// number of artists in DB
    pub artists: u32,
    /// number of albums in DB
    pub albums: u32,
    /// number of songs in DB
    pub songs: u32,
    /// total daemon uptime, seconds resolution
    pub uptime: Duration,
    /// total playback time, seconds resolution
    pub playtime: Duration,
    /// total playback time for all songs in DB, seconds resolution
    pub db_playtime: Duration,
    /// last DB update timestamp, seconds resolution
    pub db_update: Timestamp,
}

/// The statistics every build starts from: all counts zero, all times zero,
/// the update timestamp at the epoch.
pub open spec fn stats_default_s() -> Stats {
    Stats {
        artists: 0,
        albums: 0,
        songs: 0,
        uptime: Duration { secs: 0 },
        playtime: Duration { secs: 0 },
        db_playtime: Duration { secs: 0 },
        db_update: Timestamp { secs: 0 },
    }
}

impl Default for Stats {
    fn default() -> (r: Stats)
        ensures
            r == stats_default_s(),
    {
        Stats {
            artists: 0,
            albums: 0,
            songs: 0,
            uptime: Duration::zero(),
            playtime: Duration::zero(),
            db_playtime: Duration::zero(),
            db_update: Timestamp::from_secs(0),
        }
    }
}

/// The keys a statistics builder recognizes.
pub open spec fn stats_key_known(k: Seq<char>) -> bool {
    ||| k == "artists"@
    ||| k == "albums"@
    ||| k == "songs"@
    ||| k == "uptime"@
    ||| k == "playtime"@
    ||| k == "db_playtime"@
    ||| k == "db_update"@
}

/// One step of the statistics fold: a recognized key overwrites its field,
/// any other key leaves the record as it stands.
pub open spec fn stats_step(m: Stats, k: Seq<char>, v: Seq<char>) -> Result<Stats, ErrS> {
    if k == "artists"@ {
        match parse_u32_s(v) {
            Some(n) => Ok(Stats { artists: n, ..m }),
            None => Err(ErrS::BadInteger("artists"@, v)),
        }
    } else if k == "albums"@ {
        match parse_u32_s(v) {
            Some(n) => Ok(Stats { albums: n, ..m }),
            None => Err(ErrS::BadInteger("albums"@, v)),
        }
    } else if k == "songs"@ {
        match parse_u32_s(v) {
            Some(n) => Ok(Stats { songs: n, ..m }),
            None => Err(ErrS::BadInteger("songs"@, v)),
        }
    } else if k == "uptime"@ {
        match parse_i64_s(v) {
            Some(n) => Ok(Stats { uptime: Duration { secs: n }, ..m }),
            None => Err(ErrS::BadInteger("uptime"@, v)),
        }
    } else if k == "playtime"@ {
        match parse_i64_s(v) {
            Some(n) => Ok(Stats { playtime: Duration { secs: n }, ..m }),
            None => Err(ErrS::BadInteger("playtime"@, v)),
        }
    } else if k == "db_playtime"@ {
        match parse_i64_s(v) {
            Some(n) => Ok(Stats { db_playtime: Duration { secs: n }, ..m }),
            None => Err(ErrS::BadInteger("db_playtime"@, v)),
        }
    } else if k == "db_update"@ {
        match parse_i64_s(v) {
            Some(n) => Ok(Stats { db_update: Timestamp { secs: n }, ..m }),
            None => Err(ErrS::BadInteger("db_update"@, v)),
        }
    } else {
        Ok(m)
    }
}

/// The whole statistics fold: the first error aborts the build.
pub open spec fn stats_build(m: Stats, input: Seq<Result<(Seq<char>, Seq<char>), ErrS>>) -> Result<
    Stats,
    ErrS,
>
    decreases input.len(),
{
    if input.len() == 0 {
        Ok(m)
    } else {
        match stats_build(m, input.drop_last()) {
            Ok(cur) => match input.last() {
                Ok(kv) => stats_step(cur, kv.0, kv.1),
                Err(e) => Err(e),
            },
            Err(e) => Err(e),
        }
    }
}

proof fn lemma_stats_build_push(
    m: Stats,
    s: Seq<Result<(Seq<char>, Seq<char>), ErrS>>,
    x: Result<(Seq<char>, Seq<char>), ErrS>,
)
    ensures
        stats_build(m, s.push(x)) == (match stats_build(m, s) {
            Ok(cur) => match x {
                Ok(kv) => stats_step(cur, kv.0, kv.1),
                Err(e) => Err(e),
            },
            Err(e) => Err(e),
        }),
{
    assert(s.push(x).drop_last() =~= s);
    assert(s.push(x).last() == x);
}

proof fn lemma_stats_build_err_extends(
    m: Stats,
    t: Seq<Result<(Seq<char>, Seq<char>), ErrS>>,
    j: int,
)
    requires
        0 <= j <= t.len(),
        stats_build(m, t.subrange(0, j)) is Err,
    ensures
        stats_build(m, t) == stats_build(m, t.subrange(0, j)),
    decreases t.len() - j,
{
    if j == t.len() {
        assert(t.subrange(0, j) =~= t);
    } else {
        assert(t.subrange(0, t.len() as int).drop_last() =~= t.subrange(0, t.len() - 1));
        assert(t.subrange(0, t.len() as int) =~= t);
        assert(t.subrange(0, t.len() - 1).subrange(0, j) =~= t.subrange(0, j));
        lemma_stats_build_err_extends(m, t.subrange(0, t.len() - 1), j);
        assert(t.drop_last() =~= t.subrange(0, t.len() - 1));
    }
}

/// Law: an unrecognized key is ignored — appending it to any input changes
/// nothing about the build's outcome.
pub proof fn lemma_stats_ignores_unknown_key(
    m: Stats,
    s: Seq<Result<(Seq<char>, Seq<char>), ErrS>>,
    k: Seq<char>,
    v: Seq<char>,
)
    requires
        !stats_key_known(k),
    ensures
        stats_build(m, s.push(Ok((k, v)))) == stats_build(m, s),
{
    lemma_stats_build_push(m, s, Ok((k, v)));
}

/// The canonical serialized form of a statistics record: counts as they are,
/// every time value as plain integer seconds.
#[derive(Debug, Clone, Copy, PartialEq, Eq, Structural)]
pub struct EncodedStats {
    pub artists: u32,
    pub albums: u32,
    pub songs: u32,
    pub uptime: i64,
    pub playtime: i64,
    pub db_playtime: i64,
    pub db_update: i64,
}

impl Stats {
    /// Folds a finite sequence of `(key, value)` lines — each possibly a
    /// transport error — into one statistics record. The first error aborts
    /// the whole build; no partial record is returned.
    pub fn from_iter(input: Vec<Result<(String, String), Error>>) -> (r: Result<Stats, Error>)
        ensures
            match r {
                Ok(st) => stats_build(stats_default_s(), lines_view(input@)) == Ok::<
                    Stats,
                    ErrS,
                >(st),
                Err(e) => stats_build(stats_default_s(), lines_view(input@)) == Err::<
                    Stats,
                    ErrS,
                >(e@),
            },
    {
        let ghost all = input@;
        let mut rest = input;
        let mut st = Stats::default();
        let ghost mut idx: int = 0;
        while rest.len() > 0
            invariant
                all == input@,
                0 <= idx <= all.len(),
                rest@ == all.subrange(idx, all.len() as int),
                stats_build(stats_default_s(), lines_view(all.subrange(0, idx))) == Ok::<
                    Stats,
                    ErrS,
                >(st),
            decreases rest@.len(),
        {
            let ghost pre = st;
            let res = rest.remove(0);
            proof {
                assert(res == all[idx]);
                assert(rest@ =~= all.subrange(idx + 1, all.len() as int));
                assert(all.subrange(0, idx + 1) =~= all.subrange(0, idx).push(all[idx]));
                crate::song::lemma_lines_view_subrange(all, idx);
                crate::song::lemma_lines_view_subrange(all, idx + 1);
                assert(lines_view(all.subrange(0, idx + 1)) =~= lines_view(
                    all.subrange(0, idx),
                ).push(line_view(all[idx])));
                lemma_stats_build_push(
                    stats_default_s(),
                    lines_view(all.subrange(0, idx)),
                    line_view(all[idx]),
                );
            }
            match res {
                Err(e) => {
                    proof {
                        lemma_stats_build_err_extends(stats_default_s(), lines_view(all), idx + 1);
                    }
                    return Err(e);
                },
                Ok((key, val)) => {
                    let ghost kk = key@;
                    let ghost vv = val@;
                    if str_eq(key.as_str(), "artists") {
                        match parse_u32(val.as_str()) {
                            Some(n) => {
                                st.artists = n;
                            },
                            None => {
                                proof {
                                    lemma_stats_build_err_extends(
                                        stats_default_s(),
                                        lines_view(all),
                                        idx + 1,
                                    );
                                }
                                return Err(bad_int("artists", val));
                            },
                        }
                    } else if str_eq(key.as_str(), "albums") {
                        match parse_u32(val.as_str()) {
                            Some(n) => {
                                st.albums = n;
                            },
                            None => {
                                proof {
                                    lemma_stats_build_err_extends(
                                        stats_default_s(),
                                        lines_view(all),
                                        idx + 1,
                                    );
                                }
                                return Err(bad_int("albums", val));
                            },
                        }
                    } else if str_eq(key.as_str(), "songs") {
                        match parse_u32(val.as_str()) {
                            Some(n) => {
                                st.songs = n;
                            },
                            None => {
                                proof {
                                    lemma_stats_build_err_extends(
                                        stats_default_s(),
                                        lines_view(all),
                                        idx + 1,
                                    );
                                }
                                return Err(bad_int("songs", val));
                            },
                        }
                    } else if str_eq(key.as_str(), "uptime") {
                        match parse_i64(val.as_str()) {
                            Some(n) => {
                                st.uptime = Duration::seconds(n);
                            },
                            None => {
                                proof {
                                    lemma_stats_build_err_extends(
                                        stats_default_s(),
                                        lines_view(all),
                                        idx + 1,
                                    );
                                }
                                return Err(bad_int("uptime", val));
                            },
                        }
                    } else if str_eq(key.as_str(), "playtime") {
                        match parse_i64(val.as_str()) {
                            Some(n) => {
                                st.playtime = Duration::seconds(n);
                            },
                            None => {
                                proof {
                                    lemma_stats_build_err_extends(
                                        stats_default_s(),
                                        lines_view(all),
                                        idx + 1,
                                    );
                                }
                                return Err(bad_int("playtime", val));
                            },
                        }
                    } else if str_eq(key.as_str(), "db_playtime") {
                        match parse_i64(val.as_str()) {
                            Some(n) => {
                                st.db_playtime = Duration::seconds(n);
                            },
                            None => {
                                proof {
                                    lemma_stats_build_err_extends(
                                        stats_default_s(),
                                        lines_view(all),
                                        idx + 1,
                                    );
                                }
                                return Err(bad_int("db_playtime", val));
                            },
                        }
                    } else if str_eq(key.as_str(), "db_update") {
                        match parse_i64(val.as_str()) {
                            Some(n) => {
                                st.db_update = Timestamp::from_secs(n);
                            },
                            None => {
                                proof {
                                    lemma_stats_build_err_extends(
                                        stats_default_s(),
                                        lines_view(all),
                                        idx + 1,
                                    );
                                }
                                return Err(bad_int("db_update", val));
                            },
                        }
                    }
                    proof {
                        assert(stats_step(pre, kk, vv) == Ok::<Stats, ErrS>(st));
                    }
                },
            }
            proof {
                idx = idx + 1;
            }
        }
        proof {
            assert(all.subrange(0, idx) =~= all);
        }
        Ok(st)
    }

    /// Projects the record into its canonical serialized form.
    pub fn encode(&self) -> (r: EncodedStats)
        ensures
            r == (EncodedStats {
                artists: self.artists,
                albums: self.albums,
                songs: self.songs,
                uptime: self.uptime.secs,
                playtime: self.playtime.secs,
                db_playtime: self.db_playtime.secs,
                db_update: self.db_update.secs,
            }),
    {
        EncodedStats {
            artists: self.artists,
            albums: self.albums,
            songs: self.songs,
            uptime: crate::format::duration_secs(&self.uptime),
            playtime: crate::format::duration_secs(&self.playtime),
            db_playtime: crate::format::duration_secs(&self.db_playtime),
            db_update: crate::format::time_secs(&self.db_update),
        }
    }
}

} // verus!
