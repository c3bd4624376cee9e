//! X.509 `Time` and `Validity` handling, including conversion to a comparable
//! Unix-epoch integer so that callers (which may have no clock) can supply a
//! current time as a simple `i64`.

use crate::asn1::any::{spec_any_at, Any};
use crate::asn1::decode::{decoded, enter, finish, lemma_expect_tlv_progress, spec_nested_at, Decode};
use crate::asn1::error::{Error, Result};
use crate::asn1::reader::{Config, Reader};
use crate::asn1::tag::{spec_universal, spec_universal_constructed, Class, Tag};
use crate::asn1::types::{spec_parse_time, DateTime, GeneralizedTime, UtcTime};
use vstd::prelude::*;

verus! {

broadcast use crate::asn1::reader::Reader::lemma_nonneg;

/// A point in time expressed as seconds since the Unix epoch (1970-01-01T00:00:00Z).
///
/// RFC 5280 `validity` checks take a `UnixTime` supplied by the caller; this
/// keeps the crate free of any wall-clock dependency.
#[derive(Clone, Copy, Debug, PartialEq, Eq, PartialOrd, Ord, Structural)]
pub struct UnixTime(pub i64);

impl UnixTime {
    /// Construct from a Unix-epoch second count.
    pub fn from_secs(secs: i64) -> (t: Self)
        ensures
            t == UnixTime(secs),
    {
        UnixTime(secs)
    }

    /// The underlying second count.
    pub fn as_secs(&self) -> (s: i64)
        ensures
            s == self.0,
    {
        self.0
    }
}

/// An X.509 `Time` — `CHOICE { utcTime UTCTime, generalTime GeneralizedTime }`.
#[derive(Clone, Copy, Debug, PartialEq, Eq)]
pub struct Time<'a> {
    inner: TimeInner<'a>,
}

#[derive(Clone, Copy, Debug, PartialEq, Eq)]
enum TimeInner<'a> {
    Utc(UtcTime<'a>),
    General(GeneralizedTime<'a>),
}

impl<'a> View for Time<'a> {
    /// Whether it is a `UTCTime`, and its raw bytes.
    type V = (bool, Seq<u8>);

    closed spec fn view(&self) -> (bool, Seq<u8>) {
        match self.inner {
            TimeInner::Utc(u) => (true, u.0@),
            TimeInner::General(g) => (false, g.0@),
        }
    }
}

/// The number of days from 1970-01-01 to the proleptic Gregorian date
/// `y-m-d` (Howard Hinnant's `days_from_civil`, with floor division).
pub open spec fn spec_days_from_civil(y: int, m: int, d: int) -> int {
    let y2 = if m <= 2 { y - 1 } else { y };
    let era = y2 / 400;
    let yoe = y2 - era * 400;
    let mp = if m > 2 { m - 3 } else { m + 9 };
    let doy = (153 * mp + 2) / 5 + d - 1;
    let doe = yoe * 365 + yoe / 4 - yoe / 100 + doy;
    era * 146097 + doe - 719468
}

/// A leap year of the Gregorian calendar.
pub open spec fn is_leap_year(y: int) -> bool {
    y % 4 == 0 && (y % 100 != 0 || y % 400 == 0)
}

/// The number of days in month `m` of year `y`.
pub open spec fn month_length(y: int, m: int) -> int {
    if m == 2 {
        if is_leap_year(y) { 29 } else { 28 }
    } else if m == 4 || m == 6 || m == 9 || m == 11 {
        30
    } else {
        31
    }
}

/// The days before March 1 of year `y` + 1, counted in whole 400-year eras
/// and the years of the current one.
spec fn march_count(y: int) -> int {
    (y / 400) * 146097 + (y % 400) * 365 + (y % 400) / 4 - (y % 400) / 100
}

/// A year from March of `y` to the end of February has 365 days, 366 when
/// `y + 1` is a leap year.
proof fn lemma_march_year(y: int)
    ensures
        march_count(y + 1) - march_count(y) == if is_leap_year(y + 1) { 366int } else { 365int },
{
    let era = y / 400;
    let yoe = y % 400;
    assert(y == era * 400 + yoe && 0 <= yoe < 400) by {
        vstd::arithmetic::div_mod::lemma_fundamental_div_mod(y, 400);
    }
    if yoe < 399 {
        assert((y + 1) / 400 == era && (y + 1) % 400 == yoe + 1) by {
            vstd::arithmetic::div_mod::lemma_fundamental_div_mod(y + 1, 400);
            vstd::arithmetic::div_mod::lemma_fundamental_div_mod_converse(y + 1, 400, era, yoe + 1);
        }
        assert((y + 1) % 4 == (yoe + 1) % 4 && (y + 1) % 100 == (yoe + 1) % 100) by {
            vstd::arithmetic::div_mod::lemma_fundamental_div_mod_converse(y + 1, 4, era * 100 + (yoe + 1) / 4, (yoe + 1) % 4);
            vstd::arithmetic::div_mod::lemma_fundamental_div_mod_converse(y + 1, 100, era * 4 + (yoe + 1) / 100, (yoe + 1) % 100);
        }
    } else {
        assert((y + 1) / 400 == era + 1 && (y + 1) % 400 == 0) by {
            vstd::arithmetic::div_mod::lemma_fundamental_div_mod_converse(y + 1, 400, era + 1, 0);
        }
        assert((y + 1) % 4 == 0 && (y + 1) % 100 == 0) by {
            vstd::arithmetic::div_mod::lemma_fundamental_div_mod_converse(y + 1, 4, era * 100 + 100, 0);
            vstd::arithmetic::div_mod::lemma_fundamental_div_mod_converse(y + 1, 100, era * 4 + 4, 0);
        }
    }
}

/// The day count as the era count from March and the day of that year.
proof fn lemma_days_split(y: int, m: int, d: int)
    requires
        1 <= m <= 12,
    ensures
        spec_days_from_civil(y, m, d) == march_count(if m <= 2 { y - 1 } else { y }) + (153 * (if m > 2 {
            m - 3
        } else {
            m + 9
        }) + 2) / 5 + d - 1 - 719468,
{
    let y2 = if m <= 2 { y - 1 } else { y };
    vstd::arithmetic::div_mod::lemma_fundamental_div_mod(y2, 400);
    assert(y2 - (y2 / 400) * 400 == y2 % 400);
}

/// Law (day numbers follow the Gregorian calendar): 1970-01-01 is day 0,
/// the next day of a month is the next day number, the first of the next
/// month comes the length of month `m` later, and January 1 of the next year
/// comes 31 days after December 1.
pub proof fn lemma_days_from_civil_calendar(y: int, m: int, d: int)
    requires
        1 <= m <= 12,
    ensures
        spec_days_from_civil(1970, 1, 1) == 0,
        spec_days_from_civil(y, m, d + 1) == spec_days_from_civil(y, m, d) + 1,
        m < 12 ==> spec_days_from_civil(y, m + 1, 1) == spec_days_from_civil(y, m, 1) + month_length(y, m),
        m == 12 ==> spec_days_from_civil(y + 1, 1, 1) == spec_days_from_civil(y, 12, 1) + 31,
{
    lemma_days_split(y, m, d);
    lemma_days_split(y, m, d + 1);
    lemma_days_split(y, m, 1);
    if m < 12 {
        lemma_days_split(y, m + 1, 1);
        if m == 2 {
            lemma_march_year(y - 1);
        }
    } else {
        lemma_days_split(y + 1, 1, 1);
    }
}

/// The zone offset of `dt` in seconds (zero for UTC).
pub open spec fn offset_seconds(dt: DateTime) -> int {
    match dt.tz_offset_minutes {
        Some(o) => o * 60,
        None => 0,
    }
}

/// Law (Unix time counts seconds): every date-time has a Unix time, and two
/// on the same date are as many seconds apart as their clocks (an hour being
/// 3600 seconds and a minute 60), less the difference of their zone offsets.
pub proof fn lemma_unix_seconds_clock(a: DateTime, b: DateTime)
    requires
        1 <= a.month <= 12,
        a.year == b.year,
        a.month == b.month,
        a.day == b.day,
    ensures
        spec_unix_seconds(a) is Ok,
        spec_unix_seconds(b) is Ok,
        spec_unix_seconds(b)->Ok_0 - spec_unix_seconds(a)->Ok_0 == (b.hour - a.hour) * 3600 + (b.minute
            - a.minute) * 60 + (b.second - a.second) - (offset_seconds(b) - offset_seconds(a)),
{
    lemma_days_split(a.year as int, a.month as int, a.day as int);
    let y2: int = if a.month <= 2 { a.year - 1 } else { a.year as int };
    vstd::arithmetic::div_mod::lemma_fundamental_div_mod(y2, 400);
    assert(-1 <= y2 / 400 <= 164) by {
        vstd::arithmetic::div_mod::lemma_fundamental_div_mod(y2, 400);
    }
}

/// The Unix time of `dt`: its UTC wall-clock seconds less its zone offset;
/// refused (`BadTime`) outside the `i64` range.
pub open spec fn spec_unix_seconds(dt: DateTime) -> Result<i64> {
    let secs = spec_days_from_civil(dt.year as int, dt.month as int, dt.day as int) * 86400 + dt.hour * 3600
        + dt.minute * 60 + dt.second;
    let offset = match dt.tz_offset_minutes {
        Some(o) => o * 60,
        None => 0,
    };
    if i64::MIN <= secs - offset <= i64::MAX {
        Ok((secs - offset) as i64)
    } else {
        Err(Error::BadTime)
    }
}

/// The Unix time a `Time` value `t` (its view) denotes.
pub open spec fn spec_time_to_unix(t: (bool, Seq<u8>)) -> Result<UnixTime> {
    match spec_parse_time(t.1, t.0) {
        Err(e) => Err(e),
        Ok(dt) => match spec_unix_seconds(dt) {
            Err(e) => Err(e),
            Ok(s) => Ok(UnixTime(s)),
        },
    }
}

impl<'a> Time<'a> {
    /// The raw `UTCTime` bytes, if this is a `UTCTime`.
    pub fn as_utc_bytes(&self) -> (r: Option<&'a [u8]>)
        ensures
            self@.0 ==> r is Some && r->Some_0@ == self@.1,
            !self@.0 ==> r is None,
    {
        match self.inner {
            TimeInner::Utc(u) => Some(u.0),
            _ => None,
        }
    }

    /// The raw `GeneralizedTime` bytes, if this is a `GeneralizedTime`.
    pub fn as_general_bytes(&self) -> (r: Option<&'a [u8]>)
        ensures
            !self@.0 ==> r is Some && r->Some_0@ == self@.1,
            self@.0 ==> r is None,
    {
        match self.inner {
            TimeInner::General(g) => Some(g.0),
            _ => None,
        }
    }

    /// Parse this `Time` to a [`DateTime`].
    pub fn parse(&self) -> (res: Result<DateTime>)
        ensures
            res == spec_parse_time(self@.1, self@.0),
    {
        match self.inner {
            TimeInner::Utc(u) => u.parse(),
            TimeInner::General(g) => g.parse(),
        }
    }

    /// Convert this `Time` to a [`UnixTime`] (seconds since the epoch).
    ///
    /// Fractional seconds are truncated; timezone offsets are applied so the
    /// result is always UTC. Leap seconds are not represented.
    pub fn to_unix(self) -> (res: Result<UnixTime>)
        ensures
            res == spec_time_to_unix(self@),
    {
        let dt = self.parse()?;
        let s = to_unix_seconds(&dt)?;
        Ok(UnixTime(s))
    }
}

/// The `Time` an element read as `Any` (tag and value `v`) denotes: a
/// UTCTime or a GeneralizedTime, by universal tag number.
pub open spec fn spec_time_from(t: Tag, v: Seq<u8>) -> Result<(bool, Seq<u8>)> {
    if t.class == Class::Universal && t.number == 23 {
        Ok((true, v))
    } else if t.class == Class::Universal && t.number == 24 {
        Ok((false, v))
    } else {
        Err(Error::UnexpectedTag { expected: spec_universal(23), actual: t })
    }
}

/// The `Time` at `pos` of `s`, and the offset after it.
pub open spec fn spec_time_at(s: Seq<u8>, pos: int, config: Config) -> Result<((bool, Seq<u8>), int)> {
    match spec_any_at(s, pos, config) {
        Err(e) => Err(e),
        Ok((a, n)) => match spec_time_from(a.0, a.2) {
            Ok(v) => Ok((v, n)),
            Err(e) => Err(e),
        },
    }
}

impl<'a> Decode<'a> for Time<'a> {
    open spec fn spec_decode(s: Seq<u8>, pos: int, config: crate::asn1::reader::Config, depth: int) -> crate::asn1::error::Result<(<Self as View>::V, int)> {
        spec_time_at(s, pos, config)
    }

    fn decode(r: &mut Reader<'a>) -> (res: Result<Self>)
        ensures
            match spec_any_at(old(r).spec_input(), old(r).spec_pos(), old(r).spec_config()) {
                Ok((a, n)) => final(r).spec_pos() == n && match spec_time_from(a.0, a.2) {
                    Ok(v) => res is Ok && res->Ok_0@ == v,
                    Err(e) => res == Err::<Self, Error>(e),
                },
                Err(e) => res == Err::<Self, Error>(e),
            },
            decoded(*old(r), *final(r), res, spec_time_at(old(r).spec_input(), old(r).spec_pos(), old(r).spec_config())),
    {
        proof { crate::asn1::reader::lemma_read_tlv_bounds(r.spec_input(), r.spec_pos(), r.spec_config()); }
        let any = Any::decode(r)?;
        if any.tag.is_universal(Tag::UTC_TIME) {
            Ok(Time { inner: TimeInner::Utc(UtcTime(any.value)) })
        } else if any.tag.is_universal(Tag::GENERALIZED_TIME) {
            Ok(Time { inner: TimeInner::General(GeneralizedTime(any.value)) })
        } else {
            Err(Error::UnexpectedTag { expected: Tag::universal(Tag::UTC_TIME), actual: any.tag })
        }
    }
}

/// An X.509 `Validity` — `SEQUENCE { notBefore Time, notAfter Time }`.
#[derive(Clone, Copy, Debug, PartialEq, Eq)]
pub struct Validity<'a> {
    /// The time before which the certificate is not valid.
    pub not_before: Time<'a>,
    /// The time after which the certificate is not valid.
    pub not_after: Time<'a>,
}

/// `now` lies within the window of the validity whose bounds are `nb`, `na`
/// (both must convert to Unix time).
pub open spec fn spec_window_contains(nb: (bool, Seq<u8>), na: (bool, Seq<u8>), now: i64) -> bool {
    match (spec_time_to_unix(nb), spec_time_to_unix(na)) {
        (Ok(b), Ok(a)) => b.0 <= now <= a.0,
        _ => false,
    }
}

impl<'a> View for Validity<'a> {
    /// The two bounds.
    type V = ((bool, Seq<u8>), (bool, Seq<u8>));

    open spec fn view(&self) -> ((bool, Seq<u8>), (bool, Seq<u8>)) {
        (self.not_before@, self.not_after@)
    }
}

/// The content of a `Validity` SEQUENCE: two times and nothing after them.
pub open spec fn spec_validity_body(c: Seq<u8>, config: Config) -> Result<((bool, Seq<u8>), (bool, Seq<u8>))> {
    match spec_time_at(c, 0, config) {
        Err(e) => Err(e),
        Ok((nb, p)) => match spec_time_at(c, p, config) {
            Err(e) => Err(e),
            Ok((na, q)) => if q < c.len() {
                Err(Error::TrailingData)
            } else {
                Ok((nb, na))
            },
        },
    }
}

/// The `Validity` at `pos` of `s`, met at nesting `depth`.
pub open spec fn spec_validity_at(s: Seq<u8>, pos: int, config: Config, depth: int) -> Result<(((bool, Seq<u8>), (bool, Seq<u8>)), int)> {
    spec_nested_at(s, pos, config, depth, spec_universal_constructed(16), |c: Seq<u8>, d: int| spec_validity_body(c, config))
}

impl<'a> Validity<'a> {
    /// Returns `true` if `now` lies within `[notBefore, notAfter]`.
    pub fn contains(&self, now: UnixTime) -> (r: bool)
        ensures
            r == spec_window_contains(self.not_before@, self.not_after@, now.0),
    {
        match (self.not_before.to_unix(), self.not_after.to_unix()) {
            (Ok(nb), Ok(na)) => nb.0 <= now.0 && now.0 <= na.0,
            _ => false,
        }
    }
}

impl<'a> Decode<'a> for Validity<'a> {
    open spec fn spec_decode(s: Seq<u8>, pos: int, config: crate::asn1::reader::Config, depth: int) -> crate::asn1::error::Result<(<Self as View>::V, int)> {
        spec_validity_at(s, pos, config, depth)
    }

    fn decode(r: &mut Reader<'a>) -> (res: Result<Self>)
        ensures
            decoded(*old(r), *final(r), res, spec_validity_at(old(r).spec_input(), old(r).spec_pos(), old(r).spec_config(), old(r).spec_depth())),
    {
        proof { lemma_expect_tlv_progress(r.spec_input(), r.spec_pos(), r.spec_config(), spec_universal_constructed(16)); }
        let mut inner = enter(r, Tag::universal_constructed(Tag::SEQUENCE))?;
        let not_before = Time::decode(&mut inner)?;
        let not_after = Time::decode(&mut inner)?;
        finish(&inner)?;
        Ok(Validity { not_before, not_after })
    }
}

/// Convert a [`DateTime`] to Unix-epoch seconds using Howard Hinnant's
/// `days_from_civil` civil-date algorithm, which is exact for any valid
/// Gregorian date.
fn to_unix_seconds(dt: &DateTime) -> (res: Result<i64>)
    ensures
        res == spec_unix_seconds(*dt),
{
    // January and February count as the last months of the previous year.
    let y: i64 = dt.year as i64 - if dt.month <= 2 { 1 } else { 0 };
    let m: i64 = dt.month as i64;
    let d: i64 = dt.day as i64;
    let era: i64 = if y >= 0 { (y as u64 / 400) as i64 } else { -1 };
    let yoe: i64 = y - era * 400;
    let mp: i64 = if m > 2 { m - 3 } else { m + 9 };
    let doy: i64 = ((153 * mp + 2) as u64 / 5) as i64 + d - 1;
    let doe: i64 = yoe * 365 + (yoe as u64 / 4) as i64 - (yoe as u64 / 100) as i64 + doy;
    let days: i64 = era * 146097 + doe - 719468;
    let secs: i64 = days * 86400 + (dt.hour as i64) * 3600 + (dt.minute as i64) * 60 + (dt.second as i64);
    let offset: i64 = match dt.tz_offset_minutes {
        Some(o) => o as i64 * 60,
        None => 0,
    };
    match secs.checked_sub(offset) {
        Some(v) => Ok(v),
        None => Err(Error::BadTime),
    }
}

} // verus!
