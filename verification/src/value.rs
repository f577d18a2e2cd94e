//! Scalar values of the protocol and their field decoders: durations and
//! timestamps at seconds resolution, and decimal text converted to and from
//! the unsigned/signed machine widths the records use.

use vstd::prelude::*;

verus! {

/// A span of time at seconds resolution; sub-second precision is never kept.
#[derive(Debug, Clone, Copy, PartialEq, Eq, Structural)]
pub struct Duration {
    pub secs: i64,
}

impl Duration {
    pub fn seconds(secs: i64) -> (r: Duration)
        ensures
            r.secs == secs,
    {
        Duration { secs }
    }

    pub fn zero() -> (r: Duration)
        ensures
            r.secs == 0,
    {
        Duration { secs: 0 }
    }

    pub fn num_seconds(&self) -> (r: i64)
        ensures
            r == self.secs,
    {
        self.secs
    }
}

impl Default for Duration {
    fn default() -> (r: Duration)
        ensures
            r.secs == 0,
    {
        Duration { secs: 0 }
    }
}

/// A point in time as whole seconds since the Unix epoch.
#[derive(Debug, Clone, Copy, PartialEq, Eq, Structural)]
pub struct Timestamp {
    pub secs: i64,
}

impl Timestamp {
    pub fn from_secs(secs: i64) -> (r: Timestamp)
        ensures
            r.secs == secs,
    {
        Timestamp { secs }
    }

    pub fn epoch_seconds(&self) -> (r: i64)
        ensures
            r == self.secs,
    {
        self.secs
    }
}

impl Default for Timestamp {
    fn default() -> (r: Timestamp)
        ensures
            r.secs == 0,
    {
        Timestamp { secs: 0 }
    }
}

/// Character-for-character text equality.
pub fn str_eq(a: &str, b: &str) -> (r: bool)
    ensures
        r == (a@ == b@),
{
    let n = a.unicode_len();
    if n != b.unicode_len() {
        return false;
    }
    let mut i: usize = 0;
    while i < n
        invariant
            i <= n,
            n == a@.len() == b@.len(),
            forall|j: int| 0 <= j < i ==> a@[j] == b@[j],
        decreases n - i,
    {
        if a.get_char(i) != b.get_char(i) {
            return false;
        }
        i += 1;
    }
    proof {
        assert(a@ =~= b@);
    }
    true
}

pub open spec fn is_dec_digit(c: char) -> bool {
    '0' <= c && c <= '9'
}

pub open spec fn digit_val(c: char) -> nat {
    (c as int - '0' as int) as nat
}

pub open spec fn all_digits(s: Seq<char>) -> bool {
    forall|i: int| 0 <= i < s.len() ==> is_dec_digit(#[trigger] s[i])
}

/// The value of a digit string read as a base-10 numeral.
pub open spec fn dec_val(s: Seq<char>) -> nat
    decreases s.len(),
{
    if s.len() == 0 {
        0
    } else {
        dec_val(s.drop_last()) * 10 + digit_val(s.last())
    }
}

/// Decimal text to a number: at least one character, all digits.
pub open spec fn parse_digits(s: Seq<char>) -> Option<nat> {
    if s.len() > 0 && all_digits(s) {
        Some(dec_val(s))
    } else {
        None
    }
}

pub open spec fn strip_plus(s: Seq<char>) -> Seq<char> {
    if s.len() > 0 && s[0] == '+' {
        s.subrange(1, s.len() as int)
    } else {
        s
    }
}

/// Unsigned decimal decode as `str::parse` does it: an optional leading `+`,
/// then one or more digits, and the value within `max`.
pub open spec fn parse_unsigned(s: Seq<char>, max: nat) -> Option<nat> {
    match parse_digits(strip_plus(s)) {
        Some(n) => if n <= max {
            Some(n)
        } else {
            None
        },
        None => None,
    }
}

pub open spec fn parse_u32_s(s: Seq<char>) -> Option<u32> {
    match parse_unsigned(s, u32::MAX as nat) {
        Some(n) => Some(n as u32),
        None => None,
    }
}

pub open spec fn parse_u8_s(s: Seq<char>) -> Option<u8> {
    match parse_unsigned(s, u8::MAX as nat) {
        Some(n) => Some(n as u8),
        None => None,
    }
}

/// Signed decimal decode as `str::parse` does it: an optional sign, then one
/// or more digits, the value within the width of `i64`.
pub open spec fn parse_i64_s(s: Seq<char>) -> Option<i64> {
    if s.len() > 0 && s[0] == '-' {
        match parse_digits(s.subrange(1, s.len() as int)) {
            Some(n) => if n <= i64::MAX as nat + 1 {
                Some((0 - n as int) as i64)
            } else {
                None
            },
            None => None,
        }
    } else {
        match parse_unsigned(s, i64::MAX as nat) {
            Some(n) => Some(n as i64),
            None => None,
        }
    }
}

/// A duration decodes from signed decimal seconds.
pub open spec fn parse_duration_s(s: Seq<char>) -> Option<Duration> {
    match parse_i64_s(s) {
        Some(n) => Some(Duration { secs: n }),
        None => None,
    }
}

proof fn lemma_dec_val_extends(s: Seq<char>, i: int)
    requires
        0 <= i <= s.len(),
    ensures
        dec_val(s) >= dec_val(s.subrange(0, i)),
    decreases s.len() - i,
{
    if i == s.len() {
        assert(s.subrange(0, i) =~= s);
    } else {
        assert(s.subrange(0, i + 1).drop_last() =~= s.subrange(0, i));
        assert(dec_val(s.subrange(0, i + 1)) >= dec_val(s.subrange(0, i)));
        lemma_dec_val_extends(s, i + 1);
    }
}

/// One digit appended multiplies the numeral by ten and adds the digit.
proof fn lemma_dec_val_step(s: Seq<char>, from: int, i: int)
    requires
        0 <= from <= i < s.len(),
    ensures
        dec_val(s.subrange(from, i + 1)) == dec_val(s.subrange(from, i)) * 10 + digit_val(s[i]),
{
    assert(s.subrange(from, i + 1).drop_last() =~= s.subrange(from, i));
    assert(s.subrange(from, i + 1).last() == s[i]);
}

/// Decodes the digit run `s[from..to]` as an unsigned decimal numeral.
fn parse_digits_run(s: &str, from: usize, to: usize) -> (r: Option<u64>)
    requires
        from <= to <= s@.len(),
    ensures
        ({
            let d = s@.subrange(from as int, to as int);
            match r {
                Some(n) => parse_digits(d) == Some(n as nat),
                None => match parse_digits(d) {
                    Some(m) => m > u64::MAX,
                    None => true,
                },
            }
        }),
{
    let ghost d = s@.subrange(from as int, to as int);
    if from == to {
        return None;
    }
    let mut acc: u64 = 0;
    let mut i: usize = from;
    while i < to
        invariant
            from <= i <= to <= s@.len(),
            d == s@.subrange(from as int, to as int),
            all_digits(s@.subrange(from as int, i as int)),
            acc as nat == dec_val(s@.subrange(from as int, i as int)),
        decreases to - i,
    {
        let c = s.get_char(i);
        proof {
            assert(s@.subrange(from as int, i as int + 1)[i - from] == s@[i as int]);
        }
        if c < '0' || c > '9' {
            proof {
                assert(d[i - from] == s@[i as int]);
                assert(!all_digits(d));
            }
            return None;
        }
        let dv: u64 = (c as u64) - ('0' as u64);
        proof {
            lemma_dec_val_step(s@, from as int, i as int);
        }
        if acc > (u64::MAX - dv) / 10 {
            proof {
                assert(acc as nat * 10 + dv as nat > u64::MAX) by (nonlinear_arith)
                    requires
                        acc as nat > ((u64::MAX - dv) / 10) as nat,
                        dv < 10,
                ;
                if parse_digits(d) is Some {
                    lemma_dec_val_extends(d, i + 1 - from);
                    assert(d.subrange(0, i + 1 - from) =~= s@.subrange(
                        from as int,
                        i as int + 1,
                    ));
                }
            }
            return None;
        }
        proof {
            assert(acc as nat * 10 + dv as nat <= u64::MAX) by (nonlinear_arith)
                requires
                    acc as nat <= ((u64::MAX - dv) / 10) as nat,
                    dv < 10,
            ;
            assert(forall|j: int|
                0 <= j < i + 1 - from ==> s@.subrange(from as int, i as int + 1)[j] == s@.subrange(
                    from as int,
                    i as int,
                ).push(s@[i as int])[j]);
            assert(s@.subrange(from as int, i as int + 1) =~= s@.subrange(
                from as int,
                i as int,
            ).push(s@[i as int]));
        }
        acc = acc * 10 + dv;
        i += 1;
    }
    proof {
        assert(s@.subrange(from as int, i as int) == d);
    }
    Some(acc)
}

/// Decimal decode to `u32`: optional `+`, digits, value within width.
pub fn parse_u32(s: &str) -> (r: Option<u32>)
    ensures
        r == parse_u32_s(s@),
{
    let n = s.unicode_len();
    let start: usize = if n > 0 && s.get_char(0) == '+' {
        1
    } else {
        0
    };
    proof {
        assert(strip_plus(s@) =~= s@.subrange(start as int, n as int));
    }
    match parse_digits_run(s, start, n) {
        Some(v) => if v <= u32::MAX as u64 {
            Some(v as u32)
        } else {
            None
        },
        None => None,
    }
}

/// Decimal decode to `u8`: optional `+`, digits, value within width.
pub fn parse_u8(s: &str) -> (r: Option<u8>)
    ensures
        r == parse_u8_s(s@),
{
    let n = s.unicode_len();
    let start: usize = if n > 0 && s.get_char(0) == '+' {
        1
    } else {
        0
    };
    proof {
        assert(strip_plus(s@) =~= s@.subrange(start as int, n as int));
    }
    match parse_digits_run(s, start, n) {
        Some(v) => if v <= u8::MAX as u64 {
            Some(v as u8)
        } else {
            None
        },
        None => None,
    }
}

/// Decimal decode to `i64`: optional sign, digits, value within width.
pub fn parse_i64(s: &str) -> (r: Option<i64>)
    ensures
        r == parse_i64_s(s@),
{
    let n = s.unicode_len();
    if n > 0 && s.get_char(0) == '-' {
        match parse_digits_run(s, 1, n) {
            Some(v) => if v <= i64::MAX as u64 {
                Some(-(v as i64))
            } else if v == i64::MAX as u64 + 1 {
                Some(i64::MIN)
            } else {
                None
            },
            None => None,
        }
    } else {
        let start: usize = if n > 0 && s.get_char(0) == '+' {
            1
        } else {
            0
        };
        proof {
            assert(strip_plus(s@) =~= s@.subrange(start as int, n as int));
        }
        match parse_digits_run(s, start, n) {
            Some(v) => if v <= i64::MAX as u64 {
                Some(v as i64)
            } else {
                None
            },
            None => None,
        }
    }
}

/// A duration decodes from signed decimal seconds; no fractional seconds.
pub fn parse_duration(s: &str) -> (r: Option<Duration>)
    ensures
        r == parse_duration_s(s@),
{
    match parse_i64(s) {
        Some(n) => Some(Duration { secs: n }),
        None => None,
    }
}

pub open spec fn dec_digit_char(d: nat) -> char {
    if d == 0 {
        '0'
    } else if d == 1 {
        '1'
    } else if d == 2 {
        '2'
    } else if d == 3 {
        '3'
    } else if d == 4 {
        '4'
    } else if d == 5 {
        '5'
    } else if d == 6 {
        '6'
    } else if d == 7 {
        '7'
    } else if d == 8 {
        '8'
    } else {
        '9'
    }
}

/// The canonical decimal numeral of a number: no sign, no leading zero
/// except for the number zero itself.
pub open spec fn dec_of(n: nat) -> Seq<char>
    decreases n,
{
    if n < 10 {
        seq![dec_digit_char(n)]
    } else {
        dec_of(n / 10).push(dec_digit_char(n % 10))
    }
}

/// The decimal numeral of a signed number, `-` prefixed when negative.
pub open spec fn dec_of_int(n: int) -> Seq<char> {
    if n < 0 {
        seq!['-'] + dec_of((-n) as nat)
    } else {
        dec_of(n as nat)
    }
}

fn digit_str(d: u64) -> (r: &'static str)
    requires
        d < 10,
    ensures
        r@ =~= seq![dec_digit_char(d as nat)],
{
    proof {
        reveal_strlit("0");
        reveal_strlit("1");
        reveal_strlit("2");
        reveal_strlit("3");
        reveal_strlit("4");
        reveal_strlit("5");
        reveal_strlit("6");
        reveal_strlit("7");
        reveal_strlit("8");
        reveal_strlit("9");
    }
    if d == 0 {
        "0"
    } else if d == 1 {
        "1"
    } else if d == 2 {
        "2"
    } else if d == 3 {
        "3"
    } else if d == 4 {
        "4"
    } else if d == 5 {
        "5"
    } else if d == 6 {
        "6"
    } else if d == 7 {
        "7"
    } else if d == 8 {
        "8"
    } else {
        "9"
    }
}

/// Renders a number as its decimal numeral.
pub fn u64_to_dec_string(n: u64) -> (r: String)
    ensures
        r@ == dec_of(n as nat),
    decreases n,
{
    if n < 10 {
        let r = digit_str(n).to_owned();
        proof {
            assert(r@ =~= dec_of(n as nat));
        }
        r
    } else {
        let mut prefix = u64_to_dec_string(n / 10);
        prefix.append(digit_str(n % 10));
        proof {
            assert(prefix@ =~= dec_of(n as nat));
        }
        prefix
    }
}

/// Renders a signed number as its decimal numeral, `-` prefixed if negative.
pub fn i64_to_dec_string(n: i64) -> (r: String)
    ensures
        r@ == dec_of_int(n as int),
{
    if n >= 0 {
        u64_to_dec_string(n as u64)
    } else {
        let mag: u64 = ((-(n + 1)) as u64) + 1;
        let mut r = "-".to_owned();
        proof {
            reveal_strlit("-");
            assert(r@ =~= seq!['-']);
        }
        let digits = u64_to_dec_string(mag);
        r.append(digits.as_str());
        proof {
            assert(r@ =~= dec_of_int(n as int));
        }
        r
    }
}

/// Law: the decimal numeral of a number reads back as that number — printing
/// then parsing drifts through no other value.
pub proof fn lemma_dec_roundtrip(n: nat)
    ensures
        dec_of(n).len() >= 1,
        all_digits(dec_of(n)),
        dec_val(dec_of(n)) == n,
    decreases n,
{
    if n < 10 {
        assert(dec_val(Seq::<char>::empty()) == 0);
        assert(seq![dec_digit_char(n)].drop_last() =~= Seq::<char>::empty());
        assert(dec_val(dec_of(n)) == digit_val(dec_digit_char(n)));
    } else {
        lemma_dec_roundtrip(n / 10);
        let s = dec_of(n / 10).push(dec_digit_char(n % 10));
        assert(s.drop_last() =~= dec_of(n / 10));
        assert(s.last() == dec_digit_char(n % 10));
        assert(n / 10 * 10 + n % 10 == n) by (nonlinear_arith);
        assert(forall|i: int|
            0 <= i < s.len() ==> is_dec_digit(#[trigger] s[i]) == (if i < s.len() - 1 {
                is_dec_digit(dec_of(n / 10)[i])
            } else {
                is_dec_digit(dec_digit_char(n % 10))
            }));
    }
}

/// Law: a signed seconds value rendered as decimal text decodes back to the
/// same value — encode-then-decode is the identity, in the same unit.
pub proof fn lemma_i64_text_roundtrip(n: i64)
    ensures
        parse_i64_s(dec_of_int(n as int)) == Some(n),
{
    if n >= 0 {
        lemma_dec_roundtrip(n as nat);
        let s = dec_of(n as nat);
        assert(is_dec_digit(s[0]));
        assert(s[0] != '+' && s[0] != '-');
        assert(strip_plus(s) == s);
    } else {
        let m = (-n) as nat;
        lemma_dec_roundtrip(m);
        let s = seq!['-'] + dec_of(m);
        assert(s[0] == '-');
        assert(s.subrange(1, s.len() as int) =~= dec_of(m));
    }
}

/// Law: a duration's seconds, rendered as decimal text, decode back to the
/// same duration.
pub proof fn lemma_duration_text_roundtrip(d: Duration)
    ensures
        parse_duration_s(dec_of_int(d.secs as int)) == Some(d),
{
    lemma_i64_text_roundtrip(d.secs);
}

/// What `chrono::NaiveDateTime::parse_from_str` yields on a text held to the
/// pattern `%Y-%m-%dT%H:%M:%S%Z`, taken to whole seconds since the Unix
/// epoch; `None` where the text fails the pattern. The result depends on the
/// text alone.
pub uninterp spec fn timestamp_of(s: Seq<char>) -> Option<i64>;

/// Decodes a timestamp text of the fixed pattern `YYYY-MM-DDTHH:MM:SS` plus
/// a timezone marker, at seconds resolution.
///
/// Relies on `chrono::NaiveDateTime::parse_from_str` with the format
/// `%Y-%m-%dT%H:%M:%S%Z`, and on `NaiveDateTime::and_utc` plus
/// `DateTime::timestamp` to read the parsed value as whole seconds since the
/// Unix epoch. The parse is a pure function of the text: `%Z` consumes a
/// trailing timezone name without interpreting it, and no locale, clock or
/// environment enters.
#[verifier::external_body]
fn parse_timestamp_text(s: &str) -> (r: Option<i64>)
    ensures
        r == timestamp_of(s@),
{
    chrono::NaiveDateTime::parse_from_str(s, "%Y-%m-%dT%H:%M:%S%Z").ok().map(|t| t.and_utc().timestamp())
}

/// Decodes a timestamp text; see [`timestamp_of`] for the value decoded.
pub fn parse_timestamp(s: &str) -> (r: Option<Timestamp>)
    ensures
        r == (match timestamp_of(s@) {
            Some(n) => Some(Timestamp { secs: n }),
            None => None,
        }),
{
    match parse_timestamp_text(s) {
        Some(n) => Some(Timestamp { secs: n }),
        None => None,
    }
}

} // verus!

