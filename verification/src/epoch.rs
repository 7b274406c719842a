//! Time scales, calendar epochs, and the two epoch text encodings.

use vstd::prelude::*;

use crate::duration::Duration;
use crate::errors::ParsingError;
use crate::text::{
    is_uint_text, spec_is_ws, spec_tokens, split_ws, uint_text_val,
};
use crate::numeric::{spec_find_byte, find_byte, lemma_find_byte};

verus! {

/// Time scale attached to an epoch.
#[derive(Debug, Clone, Copy, PartialEq, Eq, Structural, Hash)]
pub enum TimeScale {
    /// International Atomic Time, the DORIS native scale.
    TAI,
    /// Universal Coordinated Time.
    UTC,
    /// GPS time.
    GPST,
    /// Galileo time.
    GST,
    /// BeiDou time.
    BDT,
    /// Terrestrial Time.
    TT,
}

impl Default for TimeScale {
    fn default() -> (r: Self)
        ensures
            r == TimeScale::TAI,
    {
        TimeScale::TAI
    }
}

/// Time scale named by a trimmed tag; "GPS" and "GPST" both name GPS
/// time (tags spelled as byte sequences).
pub open spec fn spec_parse_timescale(s: Seq<u8>) -> Option<TimeScale> {
    if s == seq![84u8, 65, 73] {
        Some(TimeScale::TAI)
    } else if s == seq![85u8, 84, 67] {
        Some(TimeScale::UTC)
    } else if s == seq![71u8, 80, 83] || s == seq![71u8, 80, 83, 84] {
        Some(TimeScale::GPST)
    } else if s == seq![71u8, 83, 84] {
        Some(TimeScale::GST)
    } else if s == seq![66u8, 68, 84] {
        Some(TimeScale::BDT)
    } else if s == seq![84u8, 84] {
        Some(TimeScale::TT)
    } else {
        None
    }
}

/// The canonical tag of a time scale.
pub open spec fn spec_timescale_tag(ts: TimeScale) -> Seq<u8> {
    match ts {
        TimeScale::TAI => seq![84u8, 65, 73],
        TimeScale::UTC => seq![85u8, 84, 67],
        TimeScale::GPST => seq![71u8, 80, 83, 84],
        TimeScale::GST => seq![71u8, 83, 84],
        TimeScale::BDT => seq![66u8, 68, 84],
        TimeScale::TT => seq![84u8, 84],
    }
}

impl TimeScale {
    /// Parses a time scale tag (already trimmed).
    pub fn parse(s: &[u8]) -> (r: Option<TimeScale>)
        ensures
            r == spec_parse_timescale(s@),
    {
        let r = if s.len() == 3 && s[0] == 84 && s[1] == 65 && s[2] == 73 {
            Some(TimeScale::TAI)
        } else if s.len() == 3 && s[0] == 85 && s[1] == 84 && s[2] == 67 {
            Some(TimeScale::UTC)
        } else if s.len() == 3 && s[0] == 71 && s[1] == 80 && s[2] == 83 {
            Some(TimeScale::GPST)
        } else if s.len() == 4 && s[0] == 71 && s[1] == 80 && s[2] == 83 && s[3] == 84 {
            Some(TimeScale::GPST)
        } else if s.len() == 3 && s[0] == 71 && s[1] == 83 && s[2] == 84 {
            Some(TimeScale::GST)
        } else if s.len() == 3 && s[0] == 66 && s[1] == 68 && s[2] == 84 {
            Some(TimeScale::BDT)
        } else if s.len() == 2 && s[0] == 84 && s[1] == 84 {
            Some(TimeScale::TT)
        } else {
            None
        };
        proof {
            lemma_seq_small_eq(s@);
        }
        r
    }

    /// The canonical tag of this time scale.
    pub fn tag(self) -> (r: Vec<u8>)
        ensures
            r@ == spec_timescale_tag(self),
    {
        let mut v: Vec<u8> = Vec::new();
        match self {
            TimeScale::TAI => {
                v.push(84);
                v.push(65);
                v.push(73);
            },
            TimeScale::UTC => {
                v.push(85);
                v.push(84);
                v.push(67);
            },
            TimeScale::GPST => {
                v.push(71);
                v.push(80);
                v.push(83);
                v.push(84);
            },
            TimeScale::GST => {
                v.push(71);
                v.push(83);
                v.push(84);
            },
            TimeScale::BDT => {
                v.push(66);
                v.push(68);
                v.push(84);
            },
            TimeScale::TT => {
                v.push(84);
                v.push(84);
            },
        }
        proof {
            assert(v@ =~= spec_timescale_tag(self));
        }
        v
    }
}

/// Relates concrete byte sequences of length up to 4 with the
/// sequence literals of the time scale tags.
proof fn lemma_seq_small_eq(s: Seq<u8>)
    ensures
        (s == seq![84u8, 65, 73]) == (s.len() == 3 && s[0] == 84 && s[1] == 65 && s[2] == 73),
        (s == seq![85u8, 84, 67]) == (s.len() == 3 && s[0] == 85 && s[1] == 84 && s[2] == 67),
        (s == seq![71u8, 80, 83]) == (s.len() == 3 && s[0] == 71 && s[1] == 80 && s[2] == 83),
        (s == seq![71u8, 80, 83, 84]) == (s.len() == 4 && s[0] == 71 && s[1] == 80 && s[2] == 83
            && s[3] == 84),
        (s == seq![71u8, 83, 84]) == (s.len() == 3 && s[0] == 71 && s[1] == 83 && s[2] == 84),
        (s == seq![66u8, 68, 84]) == (s.len() == 3 && s[0] == 66 && s[1] == 68 && s[2] == 84),
        (s == seq![84u8, 84]) == (s.len() == 2 && s[0] == 84 && s[1] == 84),
{
    if s.len() == 3 && s[0] == 84 && s[1] == 65 && s[2] == 73 {
        assert(s =~= seq![84u8, 65, 73]);
    }
    if s.len() == 3 && s[0] == 85 && s[1] == 84 && s[2] == 67 {
        assert(s =~= seq![85u8, 84, 67]);
    }
    if s.len() == 3 && s[0] == 71 && s[1] == 80 && s[2] == 83 {
        assert(s =~= seq![71u8, 80, 83]);
    }
    if s.len() == 4 && s[0] == 71 && s[1] == 80 && s[2] == 83 && s[3] == 84 {
        assert(s =~= seq![71u8, 80, 83, 84]);
    }
    if s.len() == 3 && s[0] == 71 && s[1] == 83 && s[2] == 84 {
        assert(s =~= seq![71u8, 83, 84]);
    }
    if s.len() == 3 && s[0] == 66 && s[1] == 68 && s[2] == 84 {
        assert(s =~= seq![66u8, 68, 84]);
    }
    if s.len() == 2 && s[0] == 84 && s[1] == 84 {
        assert(s =~= seq![84u8, 84]);
    }
}

/// A calendar instant with an attached time scale, at nanosecond
/// resolution.
#[derive(Debug, Clone, Copy, PartialEq, Eq, Structural, Hash)]
pub struct Epoch {
    pub year: i32,
    pub month: u8,
    pub day: u8,
    pub hour: u8,
    pub minute: u8,
    pub second: u8,
    /// Nanoseconds within the second.
    pub nanos: u32,
    pub time_scale: TimeScale,
}

/// Gregorian leap year.
pub open spec fn spec_is_leap(y: int) -> bool {
    y % 4 == 0 && (y % 100 != 0 || y % 400 == 0)
}

pub open spec fn spec_days_in_month(y: int, m: int) -> int {
    if m == 2 {
        if spec_is_leap(y) {
            29
        } else {
            28
        }
    } else if m == 4 || m == 6 || m == 9 || m == 11 {
        30
    } else {
        31
    }
}

/// The fields name a real calendar instant in the supported range.
pub open spec fn spec_epoch_fields_valid(
    y: int,
    m: int,
    d: int,
    hh: int,
    mm: int,
    ss: int,
    ns: int,
) -> bool {
    &&& 1 <= y <= 9999
    &&& 1 <= m <= 12
    &&& 1 <= d <= spec_days_in_month(y, m)
    &&& 0 <= hh < 24
    &&& 0 <= mm < 60
    &&& 0 <= ss < 60
    &&& 0 <= ns < 1000000000
}

impl Epoch {
    pub open spec fn valid(self) -> bool {
        spec_epoch_fields_valid(
            self.year as int,
            self.month as int,
            self.day as int,
            self.hour as int,
            self.minute as int,
            self.second as int,
            self.nanos as int,
        )
    }
}

/// Count of days from the calendar start (year 1, March reckoning) to
/// the given date; consecutive dates give consecutive numbers.
pub open spec fn spec_day_number(y: int, m: int, d: int) -> int {
    let yy = if m <= 2 {
        y - 1
    } else {
        y
    };
    let mp = if m <= 2 {
        m + 9
    } else {
        m - 3
    };
    365 * yy + yy / 4 - yy / 100 + yy / 400 + (153 * mp + 2) / 5 + d - 1
}

/// Nanoseconds of the day before this instant.
pub open spec fn spec_tod_nanos(hh: int, mm: int, ss: int, ns: int) -> int {
    (hh * 3600 + mm * 60 + ss) * 1000000000 + ns
}

/// Nanoseconds from the calendar start: the chronological measure of
/// an epoch within one time scale.
pub open spec fn spec_epoch_nanos(e: Epoch) -> int {
    spec_day_number(e.year as int, e.month as int, e.day as int) * 86400000000000 + spec_tod_nanos(
        e.hour as int,
        e.minute as int,
        e.second as int,
        e.nanos as int,
    )
}

impl Epoch {
    /// Builds an epoch from calendar fields; `None` when the fields
    /// do not name a real instant of the supported range.
    pub fn from_gregorian(
        year: i32,
        month: u8,
        day: u8,
        hour: u8,
        minute: u8,
        second: u8,
        nanos: u32,
        time_scale: TimeScale,
    ) -> (r: Option<Epoch>)
        ensures
            match r {
                Some(e) => {
                    &&& spec_epoch_fields_valid(
                        year as int,
                        month as int,
                        day as int,
                        hour as int,
                        minute as int,
                        second as int,
                        nanos as int,
                    )
                    &&& e == (Epoch { year, month, day, hour, minute, second, nanos, time_scale })
                    &&& e.valid()
                },
                None => !spec_epoch_fields_valid(
                    year as int,
                    month as int,
                    day as int,
                    hour as int,
                    minute as int,
                    second as int,
                    nanos as int,
                ),
            },
    {
        if year < 1 || year > 9999 || month < 1 || month > 12 {
            return None;
        }
        let dim: u8 = days_in_month(year, month);
        if day < 1 || day > dim {
            return None;
        }
        if hour >= 24 || minute >= 60 || second >= 60 || nanos >= 1000000000 {
            return None;
        }
        Some(Epoch { year, month, day, hour, minute, second, nanos, time_scale })
    }

    /// Day count of this epoch's date.
    pub fn day_number(&self) -> (r: i64)
        requires
            self.valid(),
        ensures
            r == spec_day_number(self.year as int, self.month as int, self.day as int),
    {
        let y: i64 = self.year as i64;
        let m: i64 = self.month as i64;
        let d: i64 = self.day as i64;
        let yy: i64 = if m <= 2 {
            y - 1
        } else {
            y
        };
        let mp: i64 = if m <= 2 {
            m + 9
        } else {
            m - 3
        };
        365 * yy + yy / 4 - yy / 100 + yy / 400 + (153 * mp + 2) / 5 + d - 1
    }

    /// Chronological measure: nanoseconds from the calendar start.
    pub fn total_nanos(&self) -> (r: i128)
        requires
            self.valid(),
        ensures
            r == spec_epoch_nanos(*self),
    {
        let dn: i128 = self.day_number() as i128;
        let tod: i128 = ((self.hour as i128) * 3600 + (self.minute as i128) * 60 + (
        self.second as i128)) * 1000000000 + (self.nanos as i128);
        dn * 86400000000000 + tod
    }

    /// The span from `rhs` to `self` (`self - rhs`), at nanosecond
    /// resolution; time scales are not converted.
    pub fn diff(&self, rhs: &Epoch) -> (r: Duration)
        requires
            self.valid(),
            rhs.valid(),
        ensures
            r.femtoseconds == (spec_epoch_nanos(*self) - spec_epoch_nanos(*rhs)) * 1000000,
    {
        let a: i128 = self.total_nanos();
        let b: i128 = rhs.total_nanos();
        proof {
            lemma_epoch_nanos_bounds(*self);
            lemma_epoch_nanos_bounds(*rhs);
        }
        Duration::from_femtoseconds((a - b) * 1000000)
    }
}

/// An epoch's nanosecond count stays well within `i128` arithmetic.
pub proof fn lemma_epoch_nanos_bounds(e: Epoch)
    requires
        e.valid(),
    ensures
        0 <= spec_epoch_nanos(e) < 320000000000000000000,
{
}

/// Days in a month, executable form.
#[verifier::rlimit(100)]
#[verifier::spinoff_prover]
pub fn days_in_month(y: i32, m: u8) -> (r: u8)
    requires
        1 <= m <= 12,
    ensures
        r == spec_days_in_month(y as int, m as int),
{
    if m == 2 {
        if (y % 4 == 0 && y % 100 != 0) || y % 400 == 0 {
            29
        } else {
            28
        }
    } else if m == 4 || m == 6 || m == 9 || m == 11 {
        30
    } else {
        31
    }
}

/// The two-digit-year convention of old RINEX record epochs: values
/// 79 to 99 mean the 1900s, values below 79 the 2000s.
pub open spec fn spec_two_digit_year(y: int) -> int {
    if y >= 79 && y <= 99 {
        y + 1900
    } else if y < 79 {
        y + 2000
    } else {
        y
    }
}

/// Seconds token of a record epoch: integer seconds, and nanoseconds
/// scaled by the navigation-file and 100 ns conventions.
pub open spec fn spec_parse_sec_field(t: Seq<u8>) -> Option<(int, int)> {
    let dot = spec_find_byte(t, 46);
    if dot == t.len() {
        if is_uint_text(t) && uint_text_val(t) <= 255 {
            Some((uint_text_val(t) as int, 0))
        } else {
            None
        }
    } else {
        let ss_txt = t.subrange(0, dot);
        let ns_txt = t.subrange(dot + 1, t.len() as int);
        if is_uint_text(ss_txt) && uint_text_val(ss_txt) <= 255 && is_uint_text(ns_txt)
            && uint_text_val(ns_txt) <= u64::MAX {
            let raw = uint_text_val(ns_txt) as int;
            let ns = if t.len() < 7 {
                raw * 100000000
            } else if ns_txt.len() != 9 {
                raw * 100
            } else {
                raw
            };
            Some((uint_text_val(ss_txt) as int, ns))
        } else {
            None
        }
    }
}

/// Record-form epoch text: at least six whitespace-separated fields
/// `YYYY MM DD hh mm ss[.frac]`, the two-digit-year rule applied, and
/// the fields checked against the calendar.
pub open spec fn spec_parse_epoch(s: Seq<u8>, ts: TimeScale) -> Result<Epoch, ParsingError> {
    let toks = spec_tokens(s);
    if toks.len() < 6 {
        Err(ParsingError::EpochFormat)
    } else if !(crate::text::is_int_text(toks[0]) && i32::MIN <= crate::text::int_text_val(toks[0])
        <= i32::MAX) {
        Err(ParsingError::EpochFormat)
    } else if !(is_uint_text(toks[1]) && uint_text_val(toks[1]) <= 255) {
        Err(ParsingError::EpochFormat)
    } else if !(is_uint_text(toks[2]) && uint_text_val(toks[2]) <= 255) {
        Err(ParsingError::EpochFormat)
    } else if !(is_uint_text(toks[3]) && uint_text_val(toks[3]) <= 255) {
        Err(ParsingError::EpochFormat)
    } else if !(is_uint_text(toks[4]) && uint_text_val(toks[4]) <= 255) {
        Err(ParsingError::EpochFormat)
    } else {
        match spec_parse_sec_field(toks[5]) {
            None => Err(ParsingError::EpochFormat),
            Some((ss, ns)) => {
                let y = spec_two_digit_year(crate::text::int_text_val(toks[0]));
                if y == 0 {
                    Err(ParsingError::EpochFormat)
                } else if spec_epoch_fields_valid(
                    y,
                    uint_text_val(toks[1]) as int,
                    uint_text_val(toks[2]) as int,
                    uint_text_val(toks[3]) as int,
                    uint_text_val(toks[4]) as int,
                    ss,
                    ns,
                ) {
                    Ok(
                        Epoch {
                            year: y as i32,
                            month: uint_text_val(toks[1]) as u8,
                            day: uint_text_val(toks[2]) as u8,
                            hour: uint_text_val(toks[3]) as u8,
                            minute: uint_text_val(toks[4]) as u8,
                            second: ss as u8,
                            nanos: ns as u32,
                            time_scale: ts,
                        },
                    )
                } else {
                    Err(ParsingError::EpochFormat)
                }
            },
        }
    }
}

/// Parses a record-form epoch, interpreted in the given time scale.
pub fn parse_in_timescale(content: &[u8], ts: TimeScale) -> (r: Result<Epoch, ParsingError>)
    ensures
        r == spec_parse_epoch(content@, ts),
{
    let toks: Vec<Vec<u8>> = split_ws(content);
    proof {
        assert(toks.deep_view() == spec_tokens(content@));
        assert(forall|i: int|
            0 <= i < toks@.len() ==> toks@[i]@ == #[trigger] toks.deep_view()[i]);
    }
    if toks.len() < 6 {
        return Err(ParsingError::EpochFormat);
    }
    let y_raw: i32 = match crate::text::parse_i32(toks[0].as_slice()) {
        Some(v) => v,
        None => {
            return Err(ParsingError::EpochFormat);
        },
    };
    let month: u8 = match crate::text::parse_u8(toks[1].as_slice()) {
        Some(v) => v,
        None => {
            return Err(ParsingError::EpochFormat);
        },
    };
    let day: u8 = match crate::text::parse_u8(toks[2].as_slice()) {
        Some(v) => v,
        None => {
            return Err(ParsingError::EpochFormat);
        },
    };
    let hour: u8 = match crate::text::parse_u8(toks[3].as_slice()) {
        Some(v) => v,
        None => {
            return Err(ParsingError::EpochFormat);
        },
    };
    let minute: u8 = match crate::text::parse_u8(toks[4].as_slice()) {
        Some(v) => v,
        None => {
            return Err(ParsingError::EpochFormat);
        },
    };
    let (second, nanos): (u8, u32) = match parse_sec_field(toks[5].as_slice()) {
        Some(p) => p,
        None => {
            return Err(ParsingError::EpochFormat);
        },
    };
    let year: i32 = if y_raw >= 79 && y_raw <= 99 {
        y_raw + 1900
    } else if y_raw < 79 {
        y_raw + 2000
    } else {
        y_raw
    };
    if year == 0 {
        return Err(ParsingError::EpochFormat);
    }
    match Epoch::from_gregorian(year, month, day, hour, minute, second, nanos, ts) {
        Some(e) => Ok(e),
        None => Err(ParsingError::EpochFormat),
    }
}

/// Parses a record-form epoch in UTC.
pub fn parse_utc(s: &[u8]) -> (r: Result<Epoch, ParsingError>)
    ensures
        r == spec_parse_epoch(s@, TimeScale::UTC),
{
    parse_in_timescale(s, TimeScale::UTC)
}

/// Compact record-form text of an epoch: `YYYY MM DD hh mm ss.NNNNNNN`
/// with the fraction at 100 ns resolution and the seconds
/// right-aligned to width two.
pub open spec fn spec_format_epoch(e: Epoch) -> Seq<u8> {
    crate::text::spec_pad_left(crate::text::spec_digits(e.year as nat), 4, 48) + seq![32u8]
        + crate::text::spec_pad_left(crate::text::spec_digits(e.month as nat), 2, 48) + seq![32u8]
        + crate::text::spec_pad_left(crate::text::spec_digits(e.day as nat), 2, 48) + seq![32u8]
        + crate::text::spec_pad_left(crate::text::spec_digits(e.hour as nat), 2, 48) + seq![32u8]
        + crate::text::spec_pad_left(crate::text::spec_digits(e.minute as nat), 2, 48)
        + seq![32u8] + crate::text::spec_pad_left(crate::text::spec_digits(e.second as nat), 2, 32)
        + seq![46u8] + crate::text::spec_pad_left(
        crate::text::spec_digits((e.nanos / 100) as nat),
        7,
        48,
    )
}

impl Epoch {
    /// Formats this epoch in the compact record form, at 100 ns
    /// resolution.
    pub fn format_epoch(&self) -> (r: Vec<u8>)
        requires
            self.valid(),
        ensures
            r@ == spec_format_epoch(*self),
    {
        let mut out: Vec<u8> = Vec::new();
        let y: u64 = self.year as u64;
        let mut p = crate::text::pad_left(crate::text::fmt_u64(y), 4, 48);
        out.append(&mut p);
        out.push(32);
        let mut p = crate::text::pad_left(crate::text::fmt_u64(self.month as u64), 2, 48);
        out.append(&mut p);
        out.push(32);
        let mut p = crate::text::pad_left(crate::text::fmt_u64(self.day as u64), 2, 48);
        out.append(&mut p);
        out.push(32);
        let mut p = crate::text::pad_left(crate::text::fmt_u64(self.hour as u64), 2, 48);
        out.append(&mut p);
        out.push(32);
        let mut p = crate::text::pad_left(crate::text::fmt_u64(self.minute as u64), 2, 48);
        out.append(&mut p);
        out.push(32);
        let mut p = crate::text::pad_left(crate::text::fmt_u64(self.second as u64), 2, 32);
        out.append(&mut p);
        out.push(46);
        let mut p = crate::text::pad_left(crate::text::fmt_u64((self.nanos / 100) as u64), 7, 48);
        out.append(&mut p);
        proof {
            assert(out@ =~= spec_format_epoch(*self));
        }
        out
    }
}

/// Record-form epoch text at nanosecond resolution:
/// `YYYY MM DD hh mm ss.fffffffff`, every field zero-padded, as the
/// epoch header line of a record carries it.
pub open spec fn spec_format_epoch9(e: Epoch) -> Seq<u8> {
    crate::text::spec_pad_left(crate::text::spec_digits(e.year as nat), 4, 48) + seq![32u8]
        + crate::text::spec_pad_left(crate::text::spec_digits(e.month as nat), 2, 48) + seq![32u8]
        + crate::text::spec_pad_left(crate::text::spec_digits(e.day as nat), 2, 48) + seq![32u8]
        + crate::text::spec_pad_left(crate::text::spec_digits(e.hour as nat), 2, 48) + seq![32u8]
        + crate::text::spec_pad_left(crate::text::spec_digits(e.minute as nat), 2, 48)
        + seq![32u8] + crate::text::spec_pad_left(crate::text::spec_digits(e.second as nat), 2, 48)
        + seq![46u8] + crate::text::spec_pad_left(
        crate::text::spec_digits(e.nanos as nat),
        9,
        48,
    )
}

/// Epoch round-trip at full nanosecond resolution: parsing the
/// record-form text of any valid epoch with a four-digit year
/// returns the epoch itself, exactly.
pub proof fn lemma_epoch_round_trip9(e: Epoch, ts: TimeScale)
    requires
        e.valid(),
        e.year >= 100,
    ensures
        spec_parse_epoch(spec_format_epoch9(e), ts) == Ok::<Epoch, ParsingError>(
            Epoch { time_scale: ts, ..e },
        ),
{
    crate::text::lemma_pow10_small();
    let p0 = crate::text::spec_pad_left(crate::text::spec_digits(e.year as nat), 4, 48);
    let p1 = crate::text::spec_pad_left(crate::text::spec_digits(e.month as nat), 2, 48);
    let p2 = crate::text::spec_pad_left(crate::text::spec_digits(e.day as nat), 2, 48);
    let p3 = crate::text::spec_pad_left(crate::text::spec_digits(e.hour as nat), 2, 48);
    let p4 = crate::text::spec_pad_left(crate::text::spec_digits(e.minute as nat), 2, 48);
    let psec = crate::text::spec_pad_left(crate::text::spec_digits(e.second as nat), 2, 48);
    let pns = crate::text::spec_pad_left(crate::text::spec_digits(e.nanos as nat), 9, 48);
    let f = spec_format_epoch9(e);
    lemma_padded_digits(e.year as nat, 4);
    lemma_padded_digits(e.month as nat, 2);
    lemma_padded_digits(e.day as nat, 2);
    lemma_padded_digits(e.hour as nat, 2);
    lemma_padded_digits(e.minute as nat, 2);
    lemma_padded_digits(e.second as nat, 2);
    lemma_padded_digits(e.nanos as nat, 9);
    // lengths of every piece
    assert(p0.len() == 4);
    assert(p1.len() == 2 && p2.len() == 2 && p3.len() == 2 && p4.len() == 2);
    assert(psec.len() == 2);
    assert(pns.len() == 9);
    assert(f.len() == 29);
    // the fixed layout of the formatted text
    assert forall|i: int| 0 <= i < 4 implies f[i] == p0[i] by {}
    assert(f[4] == 32);
    assert forall|i: int| 5 <= i < 7 implies f[i] == p1[i - 5] by {}
    assert(f[7] == 32);
    assert forall|i: int| 8 <= i < 10 implies f[i] == p2[i - 8] by {}
    assert(f[10] == 32);
    assert forall|i: int| 11 <= i < 13 implies f[i] == p3[i - 11] by {}
    assert(f[13] == 32);
    assert forall|i: int| 14 <= i < 16 implies f[i] == p4[i - 14] by {}
    assert(f[16] == 32);
    assert forall|i: int| 17 <= i < 19 implies f[i] == psec[i - 17] by {}
    assert(f[19] == 46);
    assert forall|i: int| 20 <= i < 29 implies f[i] == pns[i - 20] by {}
    // tokens: the five digit fields, then the seconds field
    crate::text::lemma_tokens_step(f, 0, 4);
    let g1 = f.subrange(4, 29);
    crate::text::lemma_tokens_step(g1, 1, 3);
    let g2 = g1.subrange(3, 25);
    crate::text::lemma_tokens_step(g2, 1, 3);
    let g3 = g2.subrange(3, 22);
    crate::text::lemma_tokens_step(g3, 1, 3);
    let g4 = g3.subrange(3, 19);
    crate::text::lemma_tokens_step(g4, 1, 3);
    let g5 = g4.subrange(3, 16);
    assert(g2 =~= f.subrange(7, 29));
    assert(g3 =~= f.subrange(10, 29));
    assert(g4 =~= f.subrange(13, 29));
    assert(g5 =~= f.subrange(16, 29));
    // the seconds token is the zero-padded field itself
    assert forall|i: int| 1 <= i < 13 implies !spec_is_ws(#[trigger] g5[i]) by {
        assert(g5[i] == f[16 + i]);
    }
    assert(spec_is_ws(g5[0]));
    crate::text::lemma_tokens_step(g5, 1, 13);
    let t5 = g5.subrange(1, 13);
    assert(g5.subrange(13, 13) =~= Seq::<u8>::empty());
    assert(spec_tokens(Seq::<u8>::empty()) =~= Seq::<Seq<u8>>::empty());
    let toks = spec_tokens(f);
    assert(g1.subrange(1, 3) =~= f.subrange(5, 7));
    assert(g2.subrange(1, 3) =~= f.subrange(8, 10));
    assert(g3.subrange(1, 3) =~= f.subrange(11, 13));
    assert(g4.subrange(1, 3) =~= f.subrange(14, 16));
    assert(toks =~= seq![
        f.subrange(0, 4),
        f.subrange(5, 7),
        f.subrange(8, 10),
        f.subrange(11, 13),
        f.subrange(14, 16),
        t5,
    ]);
    assert(f.subrange(0, 4) =~= p0);
    assert(f.subrange(5, 7) =~= p1);
    assert(f.subrange(8, 10) =~= p2);
    assert(f.subrange(11, 13) =~= p3);
    assert(f.subrange(14, 16) =~= p4);
    assert(t5 =~= psec + seq![46u8] + pns);
    // each numeric field parses back to its value
    lemma_padded_field_val(e.year as nat, 4);
    lemma_padded_field_val(e.month as nat, 2);
    lemma_padded_field_val(e.day as nat, 2);
    lemma_padded_field_val(e.hour as nat, 2);
    lemma_padded_field_val(e.minute as nat, 2);
    lemma_padded_field_val(e.second as nat, 2);
    lemma_padded_field_val(e.nanos as nat, 9);
    assert(crate::text::is_int_text(p0) && crate::text::int_text_val(p0) == e.year as int);
    // the seconds token: the dot sits after the two second digits
    crate::numeric::lemma_find_byte_unique(t5, 46, 2);
    assert(t5.subrange(0, 2) =~= psec);
    assert(t5.subrange(3, 12) =~= pns);
    assert(t5.len() == 12 && t5.subrange(3, 12).len() == 9);
    assert(crate::text::uint_text_val(pns) == e.nanos as nat);
    assert(spec_parse_sec_field(t5) == Some((e.second as int, e.nanos as int)));
    // the two-digit-year rule leaves a four-digit year unchanged
    assert(spec_two_digit_year(e.year as int) == e.year as int);
    assert(spec_parse_epoch(f, ts) == Ok::<Epoch, ParsingError>(Epoch { time_scale: ts, ..e }));
}

/// Epoch round-trip: parsing the compact record form of any valid
/// epoch with a four-digit year returns the epoch itself, to the 100
/// ns resolution that the form carries (exactly, when the nanosecond
/// count is a multiple of 100).
pub proof fn lemma_epoch_round_trip(e: Epoch, ts: TimeScale)
    requires
        e.valid(),
        e.year >= 100,
        e.nanos % 100 == 0,
    ensures
        spec_parse_epoch(spec_format_epoch(e), ts) == Ok::<Epoch, ParsingError>(
            Epoch { time_scale: ts, ..e },
        ),
{
    crate::text::lemma_pow10_small();
    let p0 = crate::text::spec_pad_left(crate::text::spec_digits(e.year as nat), 4, 48);
    let p1 = crate::text::spec_pad_left(crate::text::spec_digits(e.month as nat), 2, 48);
    let p2 = crate::text::spec_pad_left(crate::text::spec_digits(e.day as nat), 2, 48);
    let p3 = crate::text::spec_pad_left(crate::text::spec_digits(e.hour as nat), 2, 48);
    let p4 = crate::text::spec_pad_left(crate::text::spec_digits(e.minute as nat), 2, 48);
    let psec = crate::text::spec_pad_left(crate::text::spec_digits(e.second as nat), 2, 32);
    let pns = crate::text::spec_pad_left(crate::text::spec_digits((e.nanos / 100) as nat), 7, 48);
    let f = spec_format_epoch(e);
    lemma_padded_digits(e.year as nat, 4);
    lemma_padded_digits(e.month as nat, 2);
    lemma_padded_digits(e.day as nat, 2);
    lemma_padded_digits(e.hour as nat, 2);
    lemma_padded_digits(e.minute as nat, 2);
    lemma_padded_digits((e.nanos / 100) as nat, 7);
    crate::text::lemma_spec_digits(e.year as nat);
    crate::text::lemma_spec_digits(e.second as nat);
    crate::text::lemma_spec_digits_len(e.year as nat, 4);
    crate::text::lemma_spec_digits_len(e.second as nat, 2);
    let sdig = crate::text::spec_digits(e.second as nat);
    // lengths of every piece
    assert(p0.len() == 4);
    assert(p1.len() == 2 && p2.len() == 2 && p3.len() == 2 && p4.len() == 2);
    assert(psec.len() == 2);
    assert(pns.len() == 7);
    assert(f.len() == 27);
    // the fixed layout of the formatted text
    assert forall|i: int| 0 <= i < 4 implies f[i] == p0[i] by {}
    assert(f[4] == 32);
    assert forall|i: int| 5 <= i < 7 implies f[i] == p1[i - 5] by {}
    assert(f[7] == 32);
    assert forall|i: int| 8 <= i < 10 implies f[i] == p2[i - 8] by {}
    assert(f[10] == 32);
    assert forall|i: int| 11 <= i < 13 implies f[i] == p3[i - 11] by {}
    assert(f[13] == 32);
    assert forall|i: int| 14 <= i < 16 implies f[i] == p4[i - 14] by {}
    assert(f[16] == 32);
    assert forall|i: int| 17 <= i < 19 implies f[i] == psec[i - 17] by {}
    assert(f[19] == 46);
    assert forall|i: int| 20 <= i < 27 implies f[i] == pns[i - 20] by {}
    // tokens: the five digit fields, then the seconds field
    crate::text::lemma_tokens_step(f, 0, 4);
    let g1 = f.subrange(4, 27);
    crate::text::lemma_tokens_step(g1, 1, 3);
    let g2 = g1.subrange(3, 23);
    crate::text::lemma_tokens_step(g2, 1, 3);
    let g3 = g2.subrange(3, 20);
    crate::text::lemma_tokens_step(g3, 1, 3);
    let g4 = g3.subrange(3, 17);
    crate::text::lemma_tokens_step(g4, 1, 3);
    let g5 = g4.subrange(3, 14);
    // the seconds token: with a one-digit second the slot carries a
    // leading space that the tokenizer skips
    let a5: int = if e.second < 10 {
        2
    } else {
        1
    };
    assert(sdig.len() == (if e.second < 10 {
        1int
    } else {
        2int
    }));
    assert forall|i: int| a5 <= i < 11 implies !spec_is_ws(#[trigger] g5[i]) by {
        assert(g5[i] == f[16 + i]);
    }
    assert forall|i: int| 0 <= i < a5 implies spec_is_ws(#[trigger] g5[i]) by {
        assert(g5[i] == f[16 + i]);
        if i == 1 {
            assert(psec[0] == 32);
        }
    }
    crate::text::lemma_tokens_step(g5, a5, 11);
    let t5 = g5.subrange(a5, 11);
    assert(g5.subrange(11, 11) =~= Seq::<u8>::empty());
    assert(spec_tokens(Seq::<u8>::empty()) =~= Seq::<Seq<u8>>::empty());
    let toks = spec_tokens(f);
    assert(g1.subrange(1, 3) =~= f.subrange(5, 7));
    assert(g2.subrange(1, 3) =~= f.subrange(8, 10));
    assert(g3.subrange(1, 3) =~= f.subrange(11, 13));
    assert(g4.subrange(1, 3) =~= f.subrange(14, 16));
    assert(g2 =~= f.subrange(7, 27));
    assert(g3 =~= f.subrange(10, 27));
    assert(g4 =~= f.subrange(13, 27));
    assert(g5 =~= f.subrange(16, 27));
    assert(toks =~= seq![
        f.subrange(0, 4),
        f.subrange(5, 7),
        f.subrange(8, 10),
        f.subrange(11, 13),
        f.subrange(14, 16),
        t5,
    ]);
    assert(f.subrange(0, 4) =~= p0);
    assert(f.subrange(5, 7) =~= p1);
    assert(f.subrange(8, 10) =~= p2);
    assert(f.subrange(11, 13) =~= p3);
    assert(f.subrange(14, 16) =~= p4);
    assert(t5 =~= sdig + seq![46u8] + pns);
    // each numeric field parses back to its value
    lemma_padded_field_val(e.year as nat, 4);
    lemma_padded_field_val(e.month as nat, 2);
    lemma_padded_field_val(e.day as nat, 2);
    lemma_padded_field_val(e.hour as nat, 2);
    lemma_padded_field_val(e.minute as nat, 2);
    lemma_padded_field_val((e.nanos / 100) as nat, 7);
    assert(crate::text::is_int_text(p0) && crate::text::int_text_val(p0) == e.year as int);
    // the seconds token: find the dot after the second digits
    crate::numeric::lemma_find_byte_unique(t5, 46, sdig.len() as int);
    assert(t5.subrange(0, sdig.len() as int) =~= sdig);
    assert(t5.subrange(sdig.len() as int + 1, t5.len() as int) =~= pns);
    assert(crate::text::is_uint_text(sdig) && crate::text::uint_text_val(sdig)
        == e.second as nat);
    assert(t5.len() >= 7);
    assert(pns.len() != 9);
    assert(crate::text::uint_text_val(pns) == (e.nanos / 100) as nat);
    assert((e.nanos / 100) * 100 == e.nanos as int) by {
        vstd::arithmetic::div_mod::lemma_fundamental_div_mod(e.nanos as int, 100);
    }
    assert(spec_parse_sec_field(t5) == Some((e.second as int, e.nanos as int)));
    // the two-digit-year rule leaves a four-digit year unchanged
    assert(spec_two_digit_year(e.year as int) == e.year as int);
    assert(spec_parse_epoch(f, ts) == Ok::<Epoch, ParsingError>(Epoch { time_scale: ts, ..e }));
}

/// A zero-padded digit field is all digits and has exactly the pad
/// width when the value fits it.
proof fn lemma_padded_digits(v: nat, w: nat)
    requires
        w >= 1,
        v < crate::text::pow10(w),
    ensures
        crate::text::spec_pad_left(crate::text::spec_digits(v), w, 48).len() == w,
        crate::text::all_digits(crate::text::spec_pad_left(crate::text::spec_digits(v), w, 48)),
{
    crate::text::lemma_spec_digits(v);
    crate::text::lemma_spec_digits_len(v, w);
    let d = crate::text::spec_digits(v);
    let p = crate::text::spec_pad_left(d, w, 48);
    assert forall|i: int| 0 <= i < p.len() implies crate::text::spec_is_digit(#[trigger] p[i]) by {
        if i >= w - d.len() {
            assert(p[i] == d[i - (w - d.len())]);
        }
    }
}

/// A zero-padded digit field parses back to its value.
proof fn lemma_padded_field_val(v: nat, w: nat)
    requires
        w >= 1,
        v < crate::text::pow10(w),
    ensures
        crate::text::is_uint_text(crate::text::spec_pad_left(crate::text::spec_digits(v), w, 48)),
        crate::text::uint_text_val(crate::text::spec_pad_left(crate::text::spec_digits(v), w, 48))
            == v,
        crate::text::is_int_text(crate::text::spec_pad_left(crate::text::spec_digits(v), w, 48)),
        crate::text::int_text_val(crate::text::spec_pad_left(crate::text::spec_digits(v), w, 48))
            == v,
{
    lemma_padded_digits(v, w);
    crate::text::lemma_spec_digits(v);
    crate::text::lemma_spec_digits_len(v, w);
    let d = crate::text::spec_digits(v);
    let p = crate::text::spec_pad_left(d, w, 48);
    if d.len() >= w {
        assert(p == d);
    } else {
        let z = Seq::new((w - d.len()) as nat, |i: int| 48u8);
        assert(p == z + d);
        crate::text::lemma_digits_val_zero_pad(z, d);
    }
    assert(p[0] != 43 && p[0] != 45) by {
        if d.len() >= w {
        } else {
            assert(p[0] == 48);
        }
    }
}

/// Seconds token: integer seconds and scaled nanoseconds.
fn parse_sec_field(t: &[u8]) -> (r: Option<(u8, u32)>)
    ensures
        match r {
            Some((ss, ns)) => spec_parse_sec_field(t@) == Some((ss as int, ns as int)) && ns
                < 1000000000,
            None => spec_parse_sec_field(t@) is None || (spec_parse_sec_field(t@) matches Some((
                ss,
                ns,
            )) && ns >= 1000000000),
        },
{
    let tlen: usize = t.len();
    let dot: usize = find_byte(t, 46);
    proof {
        lemma_find_byte(t@, 46);
    }
    if dot == tlen {
        match crate::text::parse_u8(t) {
            Some(ss) => Some((ss, 0)),
            None => None,
        }
    } else {
        let ss_txt: &[u8] = &t[0..dot];
        let ns_txt: &[u8] = &t[dot + 1..tlen];
        proof {
            assert(ss_txt@ =~= t@.subrange(0, dot as int));
            assert(ns_txt@ =~= t@.subrange(dot + 1, tlen as int));
        }
        let ss: u8 = match crate::text::parse_u8(ss_txt) {
            Some(v) => v,
            None => {
                return None;
            },
        };
        let raw: u64 = match crate::text::parse_u64(ns_txt) {
            Some(v) => v,
            None => {
                return None;
            },
        };
        let ns: u64 = if tlen < 7 {
            if raw > 184467440737 {
                return None;
            }
            raw * 100000000
        } else if ns_txt.len() != 9 {
            if raw > 184467440737095516 {
                return None;
            }
            raw * 100
        } else {
            raw
        };
        if ns >= 1000000000 {
            return None;
        }
        Some((ss, ns as u32))
    }
}

/// The canonical tag of any time scale parses back to that scale.
pub proof fn lemma_timescale_tag_round_trip(ts: TimeScale)
    ensures
        spec_parse_timescale(spec_timescale_tag(ts)) == Some(ts),
        spec_timescale_tag(ts).len() >= 2,
        forall|i: int|
            0 <= i < spec_timescale_tag(ts).len() ==> !crate::text::spec_is_ws(
                #[trigger] spec_timescale_tag(ts)[i],
            ),
        ts != TimeScale::TAI ==> spec_timescale_tag(ts) != seq![68u8, 79, 82],
{
    let t = spec_timescale_tag(ts);
    lemma_seq_small_eq(t);
    match ts {
        TimeScale::TAI => {
            assert(t =~= seq![84u8, 65, 73]);
        },
        TimeScale::UTC => {
            assert(t =~= seq![85u8, 84, 67]);
            assert(t[0] != 84 && t[0] != 68);
        },
        TimeScale::GPST => {
            assert(t =~= seq![71u8, 80, 83, 84]);
            assert(t.len() == 4 && t[0] == 71);
        },
        TimeScale::GST => {
            assert(t =~= seq![71u8, 83, 84]);
            assert(t[0] != 84 && t[1] != 80 && t[0] != 68);
        },
        TimeScale::BDT => {
            assert(t =~= seq![66u8, 68, 84]);
            assert(t[0] == 66);
        },
        TimeScale::TT => {
            assert(t =~= seq![84u8, 84]);
            assert(t.len() == 2);
        },
    }
}

} // verus!
