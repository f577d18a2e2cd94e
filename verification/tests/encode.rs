use mpd::error::Error;
use mpd::format::{
    duration_option_secs, duration_secs, duration_tuple_secs, time_option_secs, time_secs,
};
use mpd::song::{Id, QueuePlace, Range, Song};
use mpd::stats::Stats;
use mpd::value::{i64_to_dec_string, parse_duration, u64_to_dec_string, Duration, Timestamp};

#[test]
fn duration_encodes_to_its_seconds() {
    assert_eq!(duration_secs(&Duration::seconds(125)), 125);
    assert_eq!(duration_option_secs(&Some(Duration::seconds(125))), Some(125));
    assert_eq!(duration_option_secs(&None), None);
    assert_eq!(
        duration_tuple_secs(&Some((Duration::seconds(1), Duration::seconds(2)))),
        Some((1, 2))
    );
    assert_eq!(duration_tuple_secs(&None), None);
}

#[test]
fn timestamp_encodes_to_its_seconds() {
    assert_eq!(time_secs(&Timestamp::from_secs(1436790332)), 1436790332);
    assert_eq!(
        time_option_secs(&Some(Timestamp::from_secs(7))),
        Some(7)
    );
    assert_eq!(time_option_secs(&None), None);
}

#[test]
fn duration_encode_then_decode_is_identity() {
    let d = Duration::seconds(125);
    let encoded = duration_secs(&d);
    assert_eq!(encoded, 125);
    let text = i64_to_dec_string(encoded);
    assert_eq!(text, "125");
    assert_eq!(parse_duration(&text), Some(d));
}

#[test]
fn decimal_rendering() {
    assert_eq!(u64_to_dec_string(0), "0");
    assert_eq!(u64_to_dec_string(90210), "90210");
    assert_eq!(i64_to_dec_string(-17), "-17");
    assert_eq!(i64_to_dec_string(i64::MIN), "-9223372036854775808");
    assert_eq!(i64_to_dec_string(i64::MAX), "9223372036854775807");
}

#[test]
fn id_display() {
    assert_eq!(Id(7).to_display_string(), "7");
    assert_eq!(Id(0).to_display_string(), "0");
}

#[test]
fn range_display_closed_and_open() {
    let closed = Range(Duration::seconds(10), Some(Duration::seconds(20)));
    assert_eq!(closed.to_display_string(), "10:20");
    let open = Range(Duration::seconds(10), None);
    assert_eq!(open.to_display_string(), "10:");
}

#[test]
fn range_encodes_nested_option() {
    let r = Range(Duration::seconds(10), Some(Duration::seconds(20)));
    assert_eq!(r.encode(), (10, Some(20)));
    let open = Range(Duration::seconds(10), None);
    assert_eq!(open.encode(), (10, None));
}

fn kv(k: &str, v: &str) -> Result<(String, String), Error> {
    Ok((k.to_string(), v.to_string()))
}

#[test]
fn song_encodes_explicit_absent_fields() {
    let song = Song::from_iter(vec![kv("file", "a.flac")]).unwrap();
    let e = song.encode();
    assert_eq!(e.file, "a.flac");
    assert_eq!(e.name, None);
    assert_eq!(e.last_mod, None);
    assert_eq!(e.duration, None);
    assert_eq!(e.place, None);
    assert_eq!(e.range, None);
    assert!(e.tags.is_empty());
}

#[test]
fn song_encodes_times_as_integer_seconds() {
    let song = Song::from_iter(vec![
        kv("file", "a.flac"),
        kv("Time", "125"),
        kv("Last-Modified", "2015-07-13T12:25:32Z"),
        kv("Range", "10-"),
        kv("Id", "7"),
        kv("Pos", "3"),
        kv("artist", "someone"),
    ])
    .unwrap();
    let e = song.encode();
    assert_eq!(e.duration, Some(125));
    assert_eq!(e.last_mod, Some(1436790332));
    assert_eq!(e.range, Some((10, None)));
    assert_eq!(
        e.place,
        Some(QueuePlace {
            id: Id(7),
            pos: 3,
            prio: 0
        })
    );
    assert_eq!(
        e.tags,
        vec![("artist".to_string(), "someone".to_string())]
    );
}

#[test]
fn stats_encodes_to_plain_integers() {
    let st = Stats::from_iter(vec![
        kv("artists", "1"),
        kv("uptime", "4"),
        kv("db_update", "1436790332"),
    ])
    .unwrap();
    let e = st.encode();
    assert_eq!(e.artists, 1);
    assert_eq!(e.albums, 0);
    assert_eq!(e.songs, 0);
    assert_eq!(e.uptime, 4);
    assert_eq!(e.playtime, 0);
    assert_eq!(e.db_playtime, 0);
    assert_eq!(e.db_update, 1436790332);
}

#[test]
fn timestamp_decode_is_not_text_length() {
    // Two texts of equal shape decode to different seconds: the epoch value
    // really comes from the calendar fields.
    let a = Song::from_iter(vec![kv("Last-Modified", "1970-01-01T00:00:00Z")]).unwrap();
    assert_eq!(a.last_mod, Some(Timestamp::from_secs(0)));
    let b = Song::from_iter(vec![kv("Last-Modified", "1970-01-02T00:00:01Z")]).unwrap();
    assert_eq!(b.last_mod, Some(Timestamp::from_secs(86401)));
}
