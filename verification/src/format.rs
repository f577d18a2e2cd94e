//! Projections from time-valued fields to their canonical serialized form:
//! plain integer seconds, with an absent optional value kept as an explicit
//! `None` marker rather than omitted.

use vstd::prelude::*;
use crate::value::{Duration, Timestamp};

verus! {

pub fn duration_secs(dur: &Duration) -> (r: i64)
    ensures
        r == dur.secs,
{
    dur.num_seconds()
}

pub fn duration_option_secs(dur: &Option<Duration>) -> (r: Option<i64>)
    ensures
        r == (match dur {
            Some(d) => Some(d.secs),
            None => None::<i64>,
        }),
{
    match dur {
        Some(d) => Some(d.num_seconds()),
        None => None,
    }
}

pub fn duration_tuple_secs(dur: &Option<(Duration, Duration)>) -> (r: Option<(i64, i64)>)
    ensures
        r == (match dur {
            Some((a, b)) => Some((a.secs, b.secs)),
            None => None::<(i64, i64)>,
        }),
{
    match dur {
        Some((a, b)) => Some((a.num_seconds(), b.num_seconds())),
        None => None,
    }
}

pub fn time_secs(time: &Timestamp) -> (r: i64)
    ensures
        r == time.secs,
{
    time.epoch_seconds()
}

pub fn time_option_secs(time: &Option<Timestamp>) -> (r: Option<i64>)
    ensures
        r == (match time {
            Some(t) => Some(t.secs),
            None => None::<i64>,
        }),
{
    match time {
        Some(t) => Some(t.epoch_seconds()),
        None => None,
    }
}

} // verus!
