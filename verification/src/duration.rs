//! Signed time spans at femtosecond resolution.
//!
//! Clock offsets and sampling periods are exact decimal fields; a
//! femtosecond integer span holds every value the format can carry,
//! sub-nanosecond offsets included.

use vstd::prelude::*;

use crate::numeric::Decimal;
use crate::text::pow10;

verus! {

/// A signed time span, in femtoseconds.
#[derive(Debug, Clone, Copy, PartialEq, Eq, Structural, Hash)]
pub struct Duration {
    /// Span in femtoseconds (10^-15 s).
    pub femtoseconds: i128,
}

impl Duration {
    /// The zero span.
    pub fn zero() -> (r: Duration)
        ensures
            r.femtoseconds == 0,
    {
        Duration { femtoseconds: 0 }
    }

    pub fn from_femtoseconds(fs: i128) -> (r: Duration)
        ensures
            r.femtoseconds == fs,
    {
        Duration { femtoseconds: fs }
    }

    pub fn from_nanoseconds(ns: i64) -> (r: Duration)
        ensures
            r.femtoseconds == ns * 1000000,
    {
        Duration { femtoseconds: (ns as i128) * 1000000 }
    }

    pub fn from_microseconds(us: i64) -> (r: Duration)
        ensures
            r.femtoseconds == us * 1000000000,
    {
        Duration { femtoseconds: (us as i128) * 1000000000 }
    }

    /// Total nanoseconds, truncated toward zero.
    pub fn total_nanoseconds(self) -> (r: i128)
        requires
            self.femtoseconds > i128::MIN,
        ensures
            self.femtoseconds >= 0 ==> r == self.femtoseconds / 1000000,
            self.femtoseconds < 0 ==> r == -((-self.femtoseconds) / 1000000),
    {
        if self.femtoseconds >= 0 {
            self.femtoseconds / 1000000
        } else {
            -((-self.femtoseconds) / 1000000)
        }
    }

    /// The span is strictly shorter (signed) than `rhs`.
    pub fn lt(self, rhs: Duration) -> (r: bool)
        ensures
            r == (self.femtoseconds < rhs.femtoseconds),
    {
        self.femtoseconds < rhs.femtoseconds
    }

    pub fn le(self, rhs: Duration) -> (r: bool)
        ensures
            r == (self.femtoseconds <= rhs.femtoseconds),
    {
        self.femtoseconds <= rhs.femtoseconds
    }

    /// Magnitude of the span.
    pub fn abs(self) -> (r: Duration)
        requires
            self.femtoseconds > i128::MIN,
        ensures
            r.femtoseconds == if self.femtoseconds >= 0 {
                self.femtoseconds as int
            } else {
                -self.femtoseconds as int
            },
    {
        if self.femtoseconds >= 0 {
            self
        } else {
            Duration { femtoseconds: -self.femtoseconds }
        }
    }

    /// Half the span, truncated toward zero.
    pub fn half(self) -> (r: Duration)
        ensures
            self.femtoseconds >= 0 ==> r.femtoseconds == self.femtoseconds / 2,
    {
        Duration { femtoseconds: self.femtoseconds / 2 }
    }
}

/// Exact femtosecond count of `m * 10^scale` seconds, truncated
/// toward zero below one femtosecond.
pub open spec fn spec_fs_of_scaled(m: int, scale: int) -> int {
    if scale >= 0 {
        m * pow10(scale as nat)
    } else if m >= 0 {
        m / pow10((-scale) as nat) as int
    } else {
        -((-m) / pow10((-scale) as nat) as int)
    }
}

impl Duration {
    /// The span denoted by a decimal count of seconds; `None` when it
    /// exceeds what a femtosecond span can hold.
    pub fn from_decimal_seconds(d: Decimal) -> (r: Option<Duration>)
        requires
            d.wf(),
        ensures
            match r {
                Some(dur) => dur.femtoseconds == spec_fs_of_scaled(d.mantissa as int, d.exponent
                    + 15) && d.exponent + 15 <= 22,
                None => d.exponent + 15 > 22,
            },
    {
        Self::from_decimal_scaled(d, 15)
    }

    /// The span denoted by a decimal count of microseconds.
    pub fn from_decimal_microseconds(d: Decimal) -> (r: Option<Duration>)
        requires
            d.wf(),
        ensures
            match r {
                Some(dur) => dur.femtoseconds == spec_fs_of_scaled(d.mantissa as int, d.exponent
                    + 9) && d.exponent + 9 <= 22,
                None => d.exponent + 9 > 22,
            },
    {
        Self::from_decimal_scaled(d, 9)
    }

    /// Scales a decimal by `10^unit` femtoseconds per unit.
    fn from_decimal_scaled(d: Decimal, unit: i32) -> (r: Option<Duration>)
        requires
            d.wf(),
            unit == 15 || unit == 9,
        ensures
            match r {
                Some(dur) => dur.femtoseconds == spec_fs_of_scaled(d.mantissa as int, d.exponent
                    + unit) && d.exponent + unit <= 22,
                None => d.exponent + unit > 22,
            },
    {
        proof {
            crate::numeric::lemma_pow10_38_bound();
        }
        let scale: i32 = d.exponent + unit;
        if scale >= 0 {
            if scale > 22 {
                return None;
            }
            let p: i128 = crate::numeric::pow10_i128(scale as u32);
            proof {
                crate::text::lemma_pow10_mono(scale as nat, 22);
                crate::numeric::lemma_pow10_pos(scale as nat);
                assert((d.mantissa as i128) * p <= 1000000000000000i128 * pow10(22) && (
                d.mantissa as i128) * p >= -1000000000000000i128 * pow10(22))
                    by (nonlinear_arith)
                    requires
                        p == pow10(scale as nat),
                        0 < p <= pow10(22),
                        -1000000000000000 <= d.mantissa <= 1000000000000000,
                ;
            }
            Some(Duration { femtoseconds: (d.mantissa as i128) * p })
        } else {
            let p: i128 = crate::numeric::pow10_i128((-scale) as u32);
            proof {
                crate::numeric::lemma_pow10_pos((-scale) as nat);
            }
            if d.mantissa >= 0 {
                Some(Duration { femtoseconds: (d.mantissa as i128) / p })
            } else {
                Some(Duration { femtoseconds: -((-(d.mantissa as i128)) / p) })
            }
        }
    }

    /// Seconds with exactly nine fractional digits (nanosecond
    /// resolution, truncated toward zero), as clock offsets are
    /// written.
    pub fn format_seconds_9(self) -> (r: Vec<u8>)
        requires
            self.femtoseconds > i128::MIN,
        ensures
            r@ == spec_fmt_seconds9(self.femtoseconds as int),
    {
        proof {
            crate::numeric::lemma_pow10_38_bound();
        }
        let mag: u128 = if self.femtoseconds >= 0 {
            self.femtoseconds as u128
        } else {
            (-self.femtoseconds) as u128
        };
        let secs: u128 = mag / 1000000000000000u128;
        let frac: u128 = (mag % 1000000000000000u128) / 1000000u128;
        let mut out: Vec<u8> = Vec::new();
        if self.femtoseconds < 0 {
            out.push(45);
        }
        let mut ip = crate::numeric::fmt_u128(secs);
        out.append(&mut ip);
        out.push(46);
        let mut fp = crate::text::pad_left(crate::numeric::fmt_u128(frac), 9, 48);
        out.append(&mut fp);
        proof {
            assert(out@ =~= spec_fmt_seconds9(self.femtoseconds as int));
        }
        out
    }
}

/// Text of a femtosecond span as seconds with nine fractional digits.
pub open spec fn spec_fmt_seconds9(fs: int) -> Seq<u8> {
    let mag = if fs >= 0 {
        fs
    } else {
        -fs
    };
    let secs = mag / 1000000000000000;
    let frac = (mag % 1000000000000000) / 1000000;
    let digits = crate::text::spec_digits(secs as nat) + seq![46u8] + crate::text::spec_pad_left(
        crate::text::spec_digits(frac as nat),
        9,
        48,
    );
    if fs < 0 {
        seq![45u8] + digits
    } else {
        digits
    }
}

} // verus!
