//! Song records: the queue identifiers, the play range, and the fold that
//! builds one `Song` from a sequence of decoded `key: value` lines.

use vstd::prelude::*;
use crate::error::{Error, ErrS, ParseError, bad_int, bad_time};
use crate::value::{
    Duration, Timestamp, parse_duration_s, parse_u32_s, parse_u8_s, parse_u32, parse_u8,
    parse_duration, parse_timestamp, timestamp_of, str_eq, dec_of, dec_of_int, u64_to_dec_string,
    i64_to_dec_string,
};

verus! {

/// Song identifier in the play queue.
#[derive(Debug, Copy, Clone, PartialEq, PartialOrd, Eq, Ord, Structural)]
pub struct Id(pub u32);

impl Default for Id {
    fn default() -> (r: Id)
        ensures
            r.0 == 0,
    {
        Id(0)
    }
}

impl Id {
    /// The identifier as decimal text, for display.
    pub fn to_display_string(&self) -> (r: String)
        ensures
            r@ == dec_of(self.0 as nat),
    {
        u64_to_dec_string(self.0 as u64)
    }
}

/// Song place in the queue, assembled incrementally from the `Id`, `Pos` and
/// `Prio` lines: it exists from the first of the three onward, and a field
/// not yet seen keeps its zero default.
#[derive(Debug, Copy, Clone, PartialEq, Eq, Structural)]
pub struct QueuePlace {
    /// song ID
    pub id: Id,
    /// absolute zero-based song position
    pub pos: u32,
    /// song priority, defaults to 0
    pub prio: u8,
}

impl Default for QueuePlace {
    fn default() -> (r: QueuePlace)
        ensures
            r == place_seed(),
    {
        QueuePlace { id: Id(0), pos: 0, prio: 0 }
    }
}

/// The zero-valued queue place a first contribution starts from.
pub open spec fn place_seed() -> QueuePlace {
    QueuePlace { id: Id(0), pos: 0, prio: 0 }
}

/// The three input keys that contribute to a queue place.
pub enum PlaceField {
    Id,
    Pos,
    Prio,
}

/// Merges one contribution into an optional queue place: create on first
/// sight, update the one field thereafter.
pub open spec fn place_apply(p: Option<QueuePlace>, f: PlaceField, v: u32) -> QueuePlace {
    let base = match p {
        Some(q) => q,
        None => place_seed(),
    };
    match f {
        PlaceField::Id => QueuePlace { id: Id(v), ..base },
        PlaceField::Pos => QueuePlace { pos: v, ..base },
        PlaceField::Prio => QueuePlace { prio: v as u8, ..base },
    }
}

/// Law: queue-place merge is order-independent across distinct contributing
/// keys — creating then updating reaches the same place as the two
/// contributions in the other order.
pub proof fn lemma_place_merge_order_independent(
    p: Option<QueuePlace>,
    f1: PlaceField,
    v1: u32,
    f2: PlaceField,
    v2: u32,
)
    requires
        f1 != f2,
    ensures
        place_apply(Some(place_apply(p, f1, v1)), f2, v2) == place_apply(
            Some(place_apply(p, f2, v2)),
            f1,
            v1,
        ),
{
}

/// A play range: a start, and an end or unbounded.
#[derive(Debug, Copy, Clone, PartialEq, Eq, Structural)]
pub struct Range(pub Duration, pub Option<Duration>);

impl Default for Range {
    fn default() -> (r: Range)
        ensures
            r.0.secs == 0,
            r.1 is None,
    {
        Range(Duration::zero(), None)
    }
}

/// Index of the first `-` in `s` at or after `i`.
pub open spec fn find_dash(s: Seq<char>, i: int) -> Option<int>
    decreases s.len() - i,
{
    if i < 0 || i >= s.len() {
        None
    } else if s[i] == '-' {
        Some(i)
    } else {
        find_dash(s, i + 1)
    }
}

/// Range decode: split at the first `-`; an empty start half is zero, an
/// empty or absent end half is unbounded; a present non-numeric half fails.
pub open spec fn parse_range_s(s: Seq<char>) -> Option<Range> {
    match find_dash(s, 0) {
        Some(i) => {
            let left = s.subrange(0, i);
            let right = s.subrange(i + 1, s.len() as int);
            let start = if left.len() == 0 {
                Some(Duration { secs: 0 })
            } else {
                parse_duration_s(left)
            };
            match start {
                Some(st) => if right.len() == 0 {
                    Some(Range(st, None))
                } else {
                    match parse_duration_s(right) {
                        Some(e) => Some(Range(st, Some(e))),
                        None => None,
                    }
                },
                None => None,
            }
        },
        None => {
            if s.len() == 0 {
                Some(Range(Duration { secs: 0 }, None))
            } else {
                match parse_duration_s(s) {
                    Some(st) => Some(Range(st, None)),
                    None => None,
                }
            }
        },
    }
}

impl Range {
    /// Decodes the dash-delimited shapes `A-B`, `A-`, `-B` and `-`; a wholly
    /// empty text never fails and yields a zero start and no end.
    pub fn from_str(s: &str) -> (r: Result<Range, ParseError>)
        ensures
            match r {
                Ok(rg) => parse_range_s(s@) == Some(rg),
                Err(e) => parse_range_s(s@) is None && e@ == ErrS::BadInteger("Range"@, s@),
            },
    {
        let n = s.unicode_len();
        let dash = Self::find_dash_index(s);
        match dash {
            Some(i) => {
                let start = if i == 0 {
                    Duration::zero()
                } else {
                    match parse_duration(s.substring_char(0, i)) {
                        Some(d) => d,
                        None => {
                            return Err(Self::range_err(s));
                        },
                    }
                };
                if i + 1 == n {
                    Ok(Range(start, None))
                } else {
                    match parse_duration(s.substring_char(i + 1, n)) {
                        Some(e) => Ok(Range(start, Some(e))),
                        None => Err(Self::range_err(s)),
                    }
                }
            },
            None => {
                if n == 0 {
                    Ok(Range(Duration::zero(), None))
                } else {
                    match parse_duration(s) {
                        Some(st) => Ok(Range(st, None)),
                        None => Err(Self::range_err(s)),
                    }
                }
            },
        }
    }

    fn find_dash_index(s: &str) -> (r: Option<usize>)
        ensures
            match r {
                Some(i) => find_dash(s@, 0) == Some(i as int) && i < s@.len() && s@[i as int]
                    == '-',
                None => find_dash(s@, 0) is None,
            },
    {
        let n = s.unicode_len();
        let mut i: usize = 0;
        while i < n
            invariant
                i <= n,
                n == s@.len(),
                find_dash(s@, 0) == find_dash(s@, i as int),
            decreases n - i,
        {
            if s.get_char(i) == '-' {
                return Some(i);
            }
            i += 1;
        }
        None
    }

    fn range_err(s: &str) -> (e: ParseError)
        ensures
            e@ == ErrS::BadInteger("Range"@, s@),
    {
        ParseError::BadInteger { field: "Range".to_owned(), text: s.to_owned() }
    }

    /// The canonical serialized form: integer seconds, the open end an
    /// explicit `None`.
    pub fn encode(&self) -> (r: (i64, Option<i64>))
        ensures
            r.0 == self.0.secs,
            r.1 == (match self.1 {
                Some(d) => Some(d.secs),
                None => None::<i64>,
            }),
    {
        (
            self.0.num_seconds(),
            match self.1 {
                Some(d) => Some(d.num_seconds()),
                None => None,
            },
        )
    }

    /// The human rendering `<start>:<end-or-empty>`.
    pub fn to_display_string(&self) -> (r: String)
        ensures
            r@ == range_display(*self),
    {
        let mut out = i64_to_dec_string(self.0.num_seconds());
        out.append(":");
        proof {
            reveal_strlit(":");
            assert(":"@ =~= seq![':']);
        }
        match self.1 {
            Some(d) => {
                let tail = i64_to_dec_string(d.num_seconds());
                out.append(tail.as_str());
            },
            None => {},
        }
        proof {
            assert(out@ =~= range_display(*self));
        }
        out
    }
}

/// The display text of a range: the start seconds, a colon, and the end
/// seconds or nothing when the end is open.
pub open spec fn range_display(r: Range) -> Seq<char> {
    dec_of_int(r.0.secs as int) + seq![':'] + (match r.1 {
        Some(d) => dec_of_int(d.secs as int),
        None => Seq::<char>::empty(),
    })
}

/// No tag key occurs twice.
pub open spec fn unique_keys(s: Seq<(String, String)>) -> bool {
    forall|i: int, j: int| #![trigger s[i], s[j]] 0 <= i < j < s.len() ==> s[i].0@ != s[j].0@
}

/// The mapping a tag list stands for; a later entry overwrites an earlier
/// one with the same key.
pub open spec fn tags_map(s: Seq<(String, String)>) -> Map<Seq<char>, Seq<char>>
    decreases s.len(),
{
    if s.len() == 0 {
        Map::empty()
    } else {
        tags_map(s.drop_last()).insert(s.last().0@, s.last().1@)
    }
}

proof fn lemma_tags_map_update(s: Seq<(String, String)>, i: int, p: (String, String))
    requires
        unique_keys(s),
        0 <= i < s.len(),
        s[i].0@ == p.0@,
    ensures
        tags_map(s.update(i, p)) == tags_map(s).insert(p.0@, p.1@),
    decreases s.len(),
{
    let su = s.update(i, p);
    if i == s.len() - 1 {
        assert(su.drop_last() =~= s.drop_last());
        assert(su.last() == p);
        assert(tags_map(s.drop_last()).insert(p.0@, p.1@) =~= tags_map(s.drop_last()).insert(
            s.last().0@,
            s.last().1@,
        ).insert(p.0@, p.1@));
    } else {
        assert(su.drop_last() =~= s.drop_last().update(i, p));
        assert(unique_keys(s.drop_last()));
        lemma_tags_map_update(s.drop_last(), i, p);
        assert(su.last() == s.last());
        assert(s.last().0@ != p.0@);
        assert(tags_map(s.drop_last()).insert(p.0@, p.1@).insert(s.last().0@, s.last().1@)
            =~= tags_map(s.drop_last()).insert(s.last().0@, s.last().1@).insert(p.0@, p.1@));
    }
}

/// Tag lists equal entry for entry, as text, stand for the same mapping.
proof fn lemma_tags_map_congruence(a: Seq<(String, String)>, b: Seq<(String, String)>)
    requires
        a.len() == b.len(),
        forall|i: int|
            0 <= i < a.len() ==> (#[trigger] a[i]).0@ == b[i].0@ && a[i].1@ == b[i].1@,
    ensures
        tags_map(a) == tags_map(b),
    decreases a.len(),
{
    if a.len() == 0 {
        assert(tags_map(a) =~= tags_map(b));
    } else {
        lemma_tags_map_congruence(a.drop_last(), b.drop_last());
        assert(tags_map(a) =~= tags_map(b));
    }
}

/// Writes a tag, overwriting any earlier value held under the same key.
fn tags_insert(tags: &mut Vec<(String, String)>, k: String, v: String)
    requires
        unique_keys(old(tags)@),
    ensures
        unique_keys(final(tags)@),
        tags_map(final(tags)@) == tags_map(old(tags)@).insert(k@, v@),
{
    let ghost kk = k@;
    let ghost vv = v@;
    let n = tags.len();
    let mut i: usize = 0;
    while i < n
        invariant
            i <= n,
            n == tags@.len(),
            tags@ == old(tags)@,
            unique_keys(tags@),
            forall|j: int| 0 <= j < i ==> (#[trigger] tags@[j]).0@ != kk,
            kk == k@,
            vv == v@,
        decreases n - i,
    {
        let hit = str_eq(tags[i].0.as_str(), k.as_str());
        if hit {
            let ghost pre = tags@;
            let _prev = tags.remove(i);
            tags.insert(i, (k, v));
            proof {
                assert(tags@ =~= pre.update(i as int, tags@[i as int]));
                assert(tags@[i as int].0@ == kk && tags@[i as int].1@ == vv);
                lemma_tags_map_update(pre, i as int, tags@[i as int]);
                assert(forall|j: int|
                    0 <= j < pre.len() ==> (#[trigger] tags@[j]).0@ == pre[j].0@);
            }
            return;
        }
        i += 1;
    }
    tags.push((k, v));
    proof {
        assert(tags@.drop_last() =~= old(tags)@);
        assert(tags@.last().0@ == kk && tags@.last().1@ == vv);
        assert(forall|j: int| 0 <= j < old(tags)@.len() ==> (#[trigger] tags@[j]) == old(
            tags,
        )@[j]);
    }
}

/// Mathematical image of a [`Song`]: text as character sequences, the tag
/// list as the mapping it stands for.
#[verifier::ext_equal]
pub struct SongS {
    pub file: Seq<char>,
    pub name: Option<Seq<char>>,
    pub last_mod: Option<Timestamp>,
    pub duration: Option<Duration>,
    pub place: Option<QueuePlace>,
    pub range: Option<Range>,
    pub tags: Map<Seq<char>, Seq<char>>,
}

/// The song every build starts from: `file` empty, everything else absent.
pub open spec fn song_default_s() -> SongS {
    SongS {
        file: Seq::empty(),
        name: None,
        last_mod: None,
        duration: None,
        place: None,
        range: None,
        tags: Map::empty(),
    }
}

/// The keys a song builder recognizes; every other key falls through to the
/// tag mapping.
pub open spec fn song_key_known(k: Seq<char>) -> bool {
    ||| k == "file"@
    ||| k == "Last-Modified"@
    ||| k == "Name"@
    ||| k == "Time"@
    ||| k == "Range"@
    ||| k == "Id"@
    ||| k == "Pos"@
    ||| k == "Prio"@
}

/// One step of the song fold: dispatch a decoded `(key, value)` line.
pub open spec fn song_step(m: SongS, k: Seq<char>, v: Seq<char>) -> Result<SongS, ErrS> {
    if k == "file"@ {
        Ok(SongS { file: v, ..m })
    } else if k == "Last-Modified"@ {
        match timestamp_of(v) {
            Some(t) => Ok(SongS { last_mod: Some(Timestamp { secs: t }), ..m }),
            None => Err(ErrS::BadTime("Last-Modified"@, v)),
        }
    } else if k == "Name"@ {
        Ok(SongS { name: Some(v), ..m })
    } else if k == "Time"@ {
        match parse_duration_s(v) {
            Some(d) => Ok(SongS { duration: Some(d), ..m }),
            None => Err(ErrS::BadInteger("Time"@, v)),
        }
    } else if k == "Range"@ {
        match parse_range_s(v) {
            Some(r) => Ok(SongS { range: Some(r), ..m }),
            None => Err(ErrS::BadInteger("Range"@, v)),
        }
    } else if k == "Id"@ {
        match parse_u32_s(v) {
            Some(n) => Ok(SongS { place: Some(place_apply(m.place, PlaceField::Id, n)), ..m }),
            None => Err(ErrS::BadInteger("Id"@, v)),
        }
    } else if k == "Pos"@ {
        match parse_u32_s(v) {
            Some(n) => Ok(SongS { place: Some(place_apply(m.place, PlaceField::Pos, n)), ..m }),
            None => Err(ErrS::BadInteger("Pos"@, v)),
        }
    } else if k == "Prio"@ {
        match parse_u8_s(v) {
            Some(n) => Ok(
                SongS { place: Some(place_apply(m.place, PlaceField::Prio, n as u32)), ..m },
            ),
            None => Err(ErrS::BadInteger("Prio"@, v)),
        }
    } else {
        Ok(SongS { tags: m.tags.insert(k, v), ..m })
    }
}

/// Image of one input line: a `(key, value)` pair or a transport error.
pub open spec fn line_view(x: Result<(String, String), Error>) -> Result<
    (Seq<char>, Seq<char>),
    ErrS,
> {
    match x {
        Ok(kv) => Ok((kv.0@, kv.1@)),
        Err(e) => Err(e@),
    }
}

pub open spec fn lines_view(s: Seq<Result<(String, String), Error>>) -> Seq<
    Result<(Seq<char>, Seq<char>), ErrS>,
> {
    s.map_values(|x: Result<(String, String), Error>| line_view(x))
}

/// The whole song fold: the first error anywhere — transport or decode —
/// aborts the build and is the result.
pub open spec fn song_build(
    m: SongS,
    input: Seq<Result<(Seq<char>, Seq<char>), ErrS>>,
) -> Result<SongS, ErrS>
    decreases input.len(),
{
    if input.len() == 0 {
        Ok(m)
    } else {
        match song_build(m, input.drop_last()) {
            Ok(cur) => match input.last() {
                Ok(kv) => song_step(cur, kv.0, kv.1),
                Err(e) => Err(e),
            },
            Err(e) => Err(e),
        }
    }
}

proof fn lemma_song_build_push(
    m: SongS,
    s: Seq<Result<(Seq<char>, Seq<char>), ErrS>>,
    x: Result<(Seq<char>, Seq<char>), ErrS>,
)
    ensures
        song_build(m, s.push(x)) == (match song_build(m, s) {
            Ok(cur) => match x {
                Ok(kv) => song_step(cur, kv.0, kv.1),
                Err(e) => Err(e),
            },
            Err(e) => Err(e),
        }),
{
    assert(s.push(x).drop_last() =~= s);
    assert(s.push(x).last() == x);
}

/// An error reached in a prefix of the input is the result of the whole
/// build: the remaining input is short-circuited.
proof fn lemma_song_build_err_extends(
    m: SongS,
    t: Seq<Result<(Seq<char>, Seq<char>), ErrS>>,
    j: int,
)
    requires
        0 <= j <= t.len(),
        song_build(m, t.subrange(0, j)) is Err,
    ensures
        song_build(m, t) == song_build(m, t.subrange(0, j)),
    decreases t.len() - j,
{
    if j == t.len() {
        assert(t.subrange(0, j) =~= t);
    } else {
        assert(t.subrange(0, t.len() as int).drop_last() =~= t.subrange(0, t.len() - 1));
        assert(t.subrange(0, t.len() as int) =~= t);
        assert(t.subrange(0, t.len() - 1).subrange(0, j) =~= t.subrange(0, j));
        lemma_song_build_err_extends(m, t.subrange(0, t.len() - 1), j);
        assert(t.drop_last() =~= t.subrange(0, t.len() - 1));
    }
}

pub(crate) proof fn lemma_lines_view_subrange(s: Seq<Result<(String, String), Error>>, j: int)
    requires
        0 <= j <= s.len(),
    ensures
        lines_view(s.subrange(0, j)) =~= lines_view(s).subrange(0, j),
{
}

/// Law: a tag key written again ends at the later value — the write lands in
/// the mapping, overwriting whatever any earlier line put there.
pub proof fn lemma_tag_last_write_wins(
    m: SongS,
    m1: SongS,
    s: Seq<Result<(Seq<char>, Seq<char>), ErrS>>,
    k: Seq<char>,
    v: Seq<char>,
)
    requires
        !song_key_known(k),
        song_build(m, s) == Ok::<SongS, ErrS>(m1),
    ensures
        song_build(m, s.push(Ok((k, v)))) == Ok::<SongS, ErrS>(
            SongS { tags: m1.tags.insert(k, v), ..m1 },
        ),
        (SongS { tags: m1.tags.insert(k, v), ..m1 }).tags[k] == v,
{
    lemma_song_build_push(m, s, Ok((k, v)));
}

/// Song data, one record of the protocol.
#[derive(Debug, Clone, PartialEq)]
pub struct Song {
    /// filename
    pub file: String,
    /// name (for streams)
    pub name: Option<String>,
    /// last modification time
    pub last_mod: Option<Timestamp>,
    /// duration (in seconds resolution)
    pub duration: Option<Duration>,
    /// place in the queue (if queued for playback)
    pub place: Option<QueuePlace>,
    /// range to play (if queued for playback and range was set)
    pub range: Option<Range>,
    /// arbitrary tags, like album, artist etc; keys unique, last write wins
    pub tags: Vec<(String, String)>,
}

impl View for Song {
    type V = SongS;

    open spec fn view(&self) -> SongS {
        SongS {
            file: self.file@,
            name: match self.name {
                Some(s) => Some(s@),
                None => None,
            },
            last_mod: self.last_mod,
            duration: self.duration,
            place: self.place,
            range: self.range,
            tags: tags_map(self.tags@),
        }
    }
}

impl Song {
    /// The tag list never holds a key twice.
    pub open spec fn wf(&self) -> bool {
        unique_keys(self.tags@)
    }
}

impl Default for Song {
    fn default() -> (r: Song)
        ensures
            r@ == song_default_s(),
            r.wf(),
    {
        let r = Song {
            file: String::new(),
            name: None,
            last_mod: None,
            duration: None,
            place: None,
            range: None,
            tags: Vec::new(),
        };
        proof {
            assert(r.file@ =~= Seq::<char>::empty());
            assert(r@ =~= song_default_s());
        }
        r
    }
}

fn apply_place(p: Option<QueuePlace>, f: PlaceField, v: u32) -> (r: QueuePlace)
    ensures
        r == place_apply(p, f, v),
{
    let base = match p {
        Some(q) => q,
        None => QueuePlace { id: Id(0), pos: 0, prio: 0 },
    };
    match f {
        PlaceField::Id => QueuePlace { id: Id(v), pos: base.pos, prio: base.prio },
        PlaceField::Pos => QueuePlace { id: base.id, pos: v, prio: base.prio },
        PlaceField::Prio => QueuePlace {
            id: base.id,
            pos: base.pos,
            prio: #[verifier::truncate] (v as u8),
        },
    }
}

impl Song {
    /// Folds a finite sequence of `(key, value)` lines — each possibly a
    /// transport error — into one song. The first error aborts the whole
    /// build; no partial record is returned. No key is required to appear:
    /// deliberately, a song whose `file` line never arrives keeps the empty
    /// filename rather than failing.
    pub fn from_iter(input: Vec<Result<(String, String), Error>>) -> (r: Result<Song, Error>)
        ensures
            match r {
                Ok(song) => song.wf() && song_build(song_default_s(), lines_view(input@))
                    == Ok::<SongS, ErrS>(song@),
                Err(e) => song_build(song_default_s(), lines_view(input@)) == Err::<
                    SongS,
                    ErrS,
                >(e@),
            },
    {
        let ghost all = input@;
        let mut rest = input;
        let mut song = Song::default();
        let ghost mut idx: int = 0;
        while rest.len() > 0
            invariant
                all == input@,
                0 <= idx <= all.len(),
                rest@ == all.subrange(idx, all.len() as int),
                song.wf(),
                song_build(song_default_s(), lines_view(all.subrange(0, idx))) == Ok::<
                    SongS,
                    ErrS,
                >(song@),
            decreases rest@.len(),
        {
            let ghost pre_song = song@;
            let res = rest.remove(0);
            proof {
                assert(res == all[idx]);
                assert(rest@ =~= all.subrange(idx + 1, all.len() as int));
                assert(all.subrange(0, idx + 1) =~= all.subrange(0, idx).push(all[idx]));
                lemma_lines_view_subrange(all, idx);
                lemma_lines_view_subrange(all, idx + 1);
                assert(lines_view(all.subrange(0, idx + 1)) =~= lines_view(
                    all.subrange(0, idx),
                ).push(line_view(all[idx])));
                lemma_song_build_push(
                    song_default_s(),
                    lines_view(all.subrange(0, idx)),
                    line_view(all[idx]),
                );
            }
            match res {
                Err(e) => {
                    proof {
                        lemma_song_build_err_extends(song_default_s(), lines_view(all), idx + 1);
                    }
                    return Err(e);
                },
                Ok((key, val)) => {
                    let ghost kk = key@;
                    let ghost vv = val@;
                    if str_eq(key.as_str(), "file") {
                        song.file = val;
                    } else if str_eq(key.as_str(), "Last-Modified") {
                        match parse_timestamp(val.as_str()) {
                            Some(t) => {
                                song.last_mod = Some(t);
                            },
                            None => {
                                proof {
                                    lemma_song_build_err_extends(
                                        song_default_s(),
                                        lines_view(all),
                                        idx + 1,
                                    );
                                }
                                return Err(bad_time("Last-Modified", val));
                            },
                        }
                    } else if str_eq(key.as_str(), "Name") {
                        song.name = Some(val);
                    } else if str_eq(key.as_str(), "Time") {
                        match parse_duration(val.as_str()) {
                            Some(d) => {
                                song.duration = Some(d);
                            },
                            None => {
                                proof {
                                    lemma_song_build_err_extends(
                                        song_default_s(),
                                        lines_view(all),
                                        idx + 1,
                                    );
                                }
                                return Err(bad_int("Time", val));
                            },
                        }
                    } else if str_eq(key.as_str(), "Range") {
                        match Range::from_str(val.as_str()) {
                            Ok(rg) => {
                                song.range = Some(rg);
                            },
                            Err(e) => {
                                proof {
                                    lemma_song_build_err_extends(
                                        song_default_s(),
                                        lines_view(all),
                                        idx + 1,
                                    );
                                }
                                return Err(Error::Parse(e));
                            },
                        }
                    } else if str_eq(key.as_str(), "Id") {
                        match parse_u32(val.as_str()) {
                            Some(n) => {
                                song.place = Some(apply_place(song.place, PlaceField::Id, n));
                            },
                            None => {
                                proof {
                                    lemma_song_build_err_extends(
                                        song_default_s(),
                                        lines_view(all),
                                        idx + 1,
                                    );
                                }
                                return Err(bad_int("Id", val));
                            },
                        }
                    } else if str_eq(key.as_str(), "Pos") {
                        match parse_u32(val.as_str()) {
                            Some(n) => {
                                song.place = Some(apply_place(song.place, PlaceField::Pos, n));
                            },
                            None => {
                                proof {
                                    lemma_song_build_err_extends(
                                        song_default_s(),
                                        lines_view(all),
                                        idx + 1,
                                    );
                                }
                                return Err(bad_int("Pos", val));
                            },
                        }
                    } else if str_eq(key.as_str(), "Prio") {
                        match parse_u8(val.as_str()) {
                            Some(n) => {
                                song.place = Some(
                                    apply_place(song.place, PlaceField::Prio, n as u32),
                                );
                            },
                            None => {
                                proof {
                                    lemma_song_build_err_extends(
                                        song_default_s(),
                                        lines_view(all),
                                        idx + 1,
                                    );
                                }
                                return Err(bad_int("Prio", val));
                            },
                        }
                    } else {
                        tags_insert(&mut song.tags, key, val);
                    }
                    proof {
                        assert(song_step(pre_song, kk, vv) == Ok::<SongS, ErrS>(song@)) by {
                            assert(song@ =~= (match song_step(pre_song, kk, vv) {
                                Ok(m) => m,
                                Err(_) => song@,
                            }));
                        }
                    }
                },
            }
            proof {
                idx = idx + 1;
            }
        }
        proof {
            assert(all.subrange(0, idx) =~= all);
        }
        Ok(song)
    }
}

pub open spec fn opt_string_view(o: Option<String>) -> Option<Seq<char>> {
    match o {
        Some(s) => Some(s@),
        None => None,
    }
}

/// The canonical serialized form of a song: times as plain integer seconds,
/// absent optional fields as explicit `None` markers, the queue place and id
/// kept as their own nested structures.
#[derive(Debug, Clone, PartialEq)]
pub struct EncodedSong {
    pub file: String,
    pub name: Option<String>,
    pub last_mod: Option<i64>,
    pub duration: Option<i64>,
    pub place: Option<QueuePlace>,
    pub range: Option<(i64, Option<i64>)>,
    pub tags: Vec<(String, String)>,
}

impl Song {
    /// Projects the song into its canonical serialized form.
    pub fn encode(&self) -> (r: EncodedSong)
        ensures
            r.file@ == self.file@,
            opt_string_view(r.name) == opt_string_view(self.name),
            r.last_mod == (match self.last_mod {
                Some(t) => Some(t.secs),
                None => None::<i64>,
            }),
            r.duration == (match self.duration {
                Some(d) => Some(d.secs),
                None => None::<i64>,
            }),
            r.place == self.place,
            r.range == (match self.range {
                Some(rg) => Some(
                    (
                        rg.0.secs,
                        match rg.1 {
                            Some(d) => Some(d.secs),
                            None => None::<i64>,
                        },
                    ),
                ),
                None => None::<(i64, Option<i64>)>,
            }),
            r.tags@.len() == self.tags@.len(),
            forall|i: int|
                0 <= i < self.tags@.len() ==> (#[trigger] r.tags@[i]).0@ == self.tags@[i].0@
                    && r.tags@[i].1@ == self.tags@[i].1@,
            tags_map(r.tags@) == tags_map(self.tags@),
    {
        let mut tags: Vec<(String, String)> = Vec::new();
        let n = self.tags.len();
        let mut i: usize = 0;
        while i < n
            invariant
                i <= n,
                n == self.tags@.len(),
                tags@.len() == i,
                forall|j: int|
                    0 <= j < i ==> (#[trigger] tags@[j]).0@ == self.tags@[j].0@ && tags@[j].1@
                        == self.tags@[j].1@,
            decreases n - i,
        {
            let p = &self.tags[i];
            tags.push((p.0.clone(), p.1.clone()));
            i += 1;
        }
        proof {
            lemma_tags_map_congruence(tags@, self.tags@);
        }
        EncodedSong {
            file: self.file.clone(),
            name: match &self.name {
                Some(s) => Some(s.clone()),
                None => None,
            },
            last_mod: crate::format::time_option_secs(&self.last_mod),
            duration: crate::format::duration_option_secs(&self.duration),
            place: self.place,
            range: match self.range {
                Some(rg) => Some(rg.encode()),
                None => None,
            },
            tags,
        }
    }

    /// Looks a tag up by key: the value the mapping holds, the last written.
    pub fn tag(&self, key: &str) -> (r: Option<&String>)
        ensures
            match r {
                Some(v) => self@.tags.contains_key(key@) && self@.tags[key@] == v@,
                None => !self@.tags.contains_key(key@),
            },
    {
        let n = self.tags.len();
        proof {
            assert(self.tags@.subrange(0, n as int) =~= self.tags@);
        }
        let mut i: usize = n;
        while i > 0
            invariant
                i <= n,
                n == self.tags@.len(),
                tags_map(self.tags@).contains_key(key@) == tags_map(
                    self.tags@.subrange(0, i as int),
                ).contains_key(key@),
                tags_map(self.tags@).contains_key(key@) ==> tags_map(self.tags@)[key@]
                    == tags_map(self.tags@.subrange(0, i as int))[key@],
            decreases i,
        {
            proof {
                assert(self.tags@.subrange(0, i as int).drop_last() =~= self.tags@.subrange(
                    0,
                    i - 1,
                ));
                assert(self.tags@.subrange(0, i as int).last() == self.tags@[i - 1]);
            }
            let hit = str_eq(self.tags[i - 1].0.as_str(), key);
            if hit {
                return Some(&self.tags[i - 1].1);
            }
            i -= 1;
        }
        proof {
            assert(self.tags@.subrange(0, 0) =~= Seq::<(String, String)>::empty());
        }
        None
    }
}

} // verus!
