use mpd::error::{Error, ParseError, ProtoError};
use mpd::playlist::Playlist;
use mpd::song::{Id, QueuePlace, Song};
use mpd::stats::Stats;
use mpd::value::{Duration, Timestamp};

fn kv(k: &str, v: &str) -> Result<(String, String), Error> {
    Ok((k.to_string(), v.to_string()))
}

#[test]
fn song_place_created_then_updated() {
    let song = Song::from_iter(vec![kv("Id", "7"), kv("Pos", "3")]).unwrap();
    assert_eq!(
        song.place,
        Some(QueuePlace {
            id: Id(7),
            pos: 3,
            prio: 0
        })
    );
}

#[test]
fn song_place_merge_is_order_independent() {
    let a = Song::from_iter(vec![kv("Id", "7"), kv("Pos", "3")]).unwrap();
    let b = Song::from_iter(vec![kv("Pos", "3"), kv("Id", "7")]).unwrap();
    assert_eq!(a.place, b.place);
}

#[test]
fn song_place_prio_alone_seeds_zeroes() {
    let song = Song::from_iter(vec![kv("Prio", "9")]).unwrap();
    assert_eq!(
        song.place,
        Some(QueuePlace {
            id: Id(0),
            pos: 0,
            prio: 9
        })
    );
}

#[test]
fn song_known_fields_populate() {
    let song = Song::from_iter(vec![
        kv("file", "a/b.flac"),
        kv("Name", "some stream"),
        kv("Time", "125"),
        kv("Range", "10-20"),
    ])
    .unwrap();
    assert_eq!(song.file, "a/b.flac");
    assert_eq!(song.name.as_deref(), Some("some stream"));
    assert_eq!(song.duration, Some(Duration::seconds(125)));
    let r = song.range.unwrap();
    assert_eq!(r.0, Duration::seconds(10));
    assert_eq!(r.1, Some(Duration::seconds(20)));
}

#[test]
fn song_last_modified_parses_to_epoch_seconds() {
    let song = Song::from_iter(vec![kv("Last-Modified", "2015-07-13T12:25:32Z")]).unwrap();
    assert_eq!(song.last_mod, Some(Timestamp::from_secs(1436790332)));
}

#[test]
fn song_bad_last_modified_is_time_error() {
    let e = Song::from_iter(vec![kv("Last-Modified", "not a date")]).unwrap_err();
    match e {
        Error::Parse(ParseError::BadTime { field, text }) => {
            assert_eq!(field, "Last-Modified");
            assert_eq!(text, "not a date");
        }
        other => panic!("unexpected error: {:?}", other),
    }
}

#[test]
fn song_duplicate_tag_takes_later_value() {
    let song = Song::from_iter(vec![
        kv("artist", "one"),
        kv("album", "rec"),
        kv("artist", "two"),
    ])
    .unwrap();
    assert_eq!(song.tag("artist").map(String::as_str), Some("two"));
    assert_eq!(song.tag("album").map(String::as_str), Some("rec"));
    assert_eq!(song.tag("genre"), None);
    let artist_entries = song
        .tags
        .iter()
        .filter(|(k, _)| k == "artist")
        .count();
    assert_eq!(artist_entries, 1);
}

#[test]
fn song_bad_duration_aborts_whole_build() {
    let e = Song::from_iter(vec![
        kv("file", "a.flac"),
        kv("Time", "abc"),
        kv("Name", "never reached"),
    ])
    .unwrap_err();
    match e {
        Error::Parse(ParseError::BadInteger { field, text }) => {
            assert_eq!(field, "Time");
            assert_eq!(text, "abc");
        }
        other => panic!("unexpected error: {:?}", other),
    }
}

#[test]
fn song_transport_error_passes_through_first() {
    let e = Song::from_iter(vec![
        kv("file", "a.flac"),
        Err(Error::Transport("line split failed".to_string())),
        kv("Time", "abc"),
    ])
    .unwrap_err();
    match e {
        Error::Transport(msg) => assert_eq!(msg, "line split failed"),
        other => panic!("unexpected error: {:?}", other),
    }
}

#[test]
fn song_defaults_when_input_is_empty() {
    let song = Song::from_iter(vec![]).unwrap();
    assert_eq!(song.file, "");
    assert_eq!(song.name, None);
    assert_eq!(song.last_mod, None);
    assert_eq!(song.duration, None);
    assert_eq!(song.place, None);
    assert_eq!(song.range, None);
    assert!(song.tags.is_empty());
}

#[test]
fn stats_ignores_unknown_key() {
    let st = Stats::from_iter(vec![kv("foo", "bar"), kv("artists", "5"), kv("songs", "12")])
        .unwrap();
    assert_eq!(st.artists, 5);
    assert_eq!(st.songs, 12);
    assert_eq!(st.albums, 0);
}

#[test]
fn stats_all_fields_populate() {
    let st = Stats::from_iter(vec![
        kv("artists", "1"),
        kv("albums", "2"),
        kv("songs", "3"),
        kv("uptime", "4"),
        kv("playtime", "5"),
        kv("db_playtime", "6"),
        kv("db_update", "1436790332"),
    ])
    .unwrap();
    assert_eq!(st.artists, 1);
    assert_eq!(st.albums, 2);
    assert_eq!(st.songs, 3);
    assert_eq!(st.uptime, Duration::seconds(4));
    assert_eq!(st.playtime, Duration::seconds(5));
    assert_eq!(st.db_playtime, Duration::seconds(6));
    assert_eq!(st.db_update, Timestamp::from_secs(1436790332));
}

#[test]
fn stats_default_is_all_zero() {
    let st: Stats = Default::default();
    assert_eq!(st.artists, 0);
    assert_eq!(st.albums, 0);
    assert_eq!(st.songs, 0);
    assert_eq!(st.uptime, Duration::seconds(0));
    assert_eq!(st.playtime, Duration::seconds(0));
    assert_eq!(st.db_playtime, Duration::seconds(0));
    assert_eq!(st.db_update, Timestamp::from_secs(0));
}

#[test]
fn stats_bad_count_aborts_build() {
    let e = Stats::from_iter(vec![kv("artists", "x")]).unwrap_err();
    match e {
        Error::Parse(ParseError::BadInteger { field, text }) => {
            assert_eq!(field, "artists");
            assert_eq!(text, "x");
        }
        other => panic!("unexpected error: {:?}", other),
    }
}

fn pair(k: &str, v: &str) -> (String, String) {
    (k.to_string(), v.to_string())
}

#[test]
fn playlist_with_both_fields_succeeds() {
    let p = Playlist::from_map(vec![
        pair("playlist", "morning"),
        pair("Last-Modified", "2015-07-13T12:25:32Z"),
    ])
    .unwrap();
    assert_eq!(p.name, "morning");
    assert_eq!(p.last_mod, Timestamp::from_secs(1436790332));
}

#[test]
fn playlist_missing_last_modified_names_the_field() {
    let e = Playlist::from_map(vec![pair("playlist", "morning")]).unwrap_err();
    match e {
        Error::Proto(ProtoError::NoField(field)) => assert_eq!(field, "Last-Modified"),
        other => panic!("unexpected error: {:?}", other),
    }
}

#[test]
fn playlist_missing_name_names_the_field() {
    let e = Playlist::from_map(vec![pair("Last-Modified", "2015-07-13T12:25:32Z")]).unwrap_err();
    match e {
        Error::Proto(ProtoError::NoField(field)) => assert_eq!(field, "playlist"),
        other => panic!("unexpected error: {:?}", other),
    }
}

#[test]
fn playlist_bad_timestamp_is_time_error() {
    let e = Playlist::from_map(vec![
        pair("playlist", "morning"),
        pair("Last-Modified", "2015-07-13"),
    ])
    .unwrap_err();
    match e {
        Error::Parse(ParseError::BadTime { field, text }) => {
            assert_eq!(field, "Last-Modified");
            assert_eq!(text, "2015-07-13");
        }
        other => panic!("unexpected error: {:?}", other),
    }
}

#[test]
fn playlist_duplicate_key_takes_last_value() {
    let p = Playlist::from_map(vec![
        pair("playlist", "first"),
        pair("Last-Modified", "2015-07-13T12:25:32Z"),
        pair("playlist", "second"),
    ])
    .unwrap();
    assert_eq!(p.name, "second");
}
