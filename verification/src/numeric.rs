//! Exact decimal numbers.
//!
//! Observation values, clock offsets and the other fractional fields
//! of a DORIS file are decimal text with a bounded number of digits.
//! They are modelled exactly as `mantissa * 10^exponent` instead of
//! binary floating point, so parsing and formatting are exact and
//! provable.

use vstd::prelude::*;

use crate::text::{
    all_digits, digits_val, int_text_val, is_digit, is_int_text, pow10, spec_is_digit,
};

verus! {

/// A decimal number `mantissa * 10^exponent`.
///
/// Well-formed values keep the mantissa within 10^15 and the exponent
/// within ±19 (see [`Decimal::wf`]), which is ample for every field
/// of the format and keeps all derived arithmetic within `i128`.
#[derive(Debug, Clone, Copy, PartialEq, Eq, Structural, Hash)]
pub struct Decimal {
    /// Signed digits of the value.
    pub mantissa: i64,
    /// Power of ten scaling the mantissa.
    pub exponent: i32,
}

pub open spec fn spec_decimal_wf(d: Decimal) -> bool {
    -19 <= d.exponent <= 19 && -1000000000000000 <= d.mantissa <= 1000000000000000
}

impl Decimal {
    pub open spec fn wf(self) -> bool {
        spec_decimal_wf(self)
    }

    /// The value is at most the integer `k`.
    pub open spec fn spec_le_int(self, k: int) -> bool {
        if self.exponent >= 0 {
            self.mantissa * pow10(self.exponent as nat) <= k
        } else {
            self.mantissa <= k * pow10((-self.exponent) as nat)
        }
    }

    /// The value is strictly below the integer `k`.
    pub open spec fn spec_lt_int(self, k: int) -> bool {
        if self.exponent >= 0 {
            self.mantissa * pow10(self.exponent as nat) < k
        } else {
            self.mantissa < k * pow10((-self.exponent) as nat)
        }
    }

    /// Builds a decimal from its two components.
    pub fn new(mantissa: i64, exponent: i32) -> (r: Decimal)
        ensures
            r.mantissa == mantissa,
            r.exponent == exponent,
    {
        Decimal { mantissa, exponent }
    }

    /// The decimal zero, at scale 0.
    pub fn zero() -> (r: Decimal)
        ensures
            r.mantissa == 0,
            r.exponent == 0,
            r.wf(),
    {
        Decimal { mantissa: 0, exponent: 0 }
    }

    /// Compares the value with an integer bound.
    pub fn le_int(self, k: i64) -> (r: bool)
        requires
            self.wf(),
        ensures
            r == self.spec_le_int(k as int),
    {
        if self.exponent >= 0 {
            let p: i128 = pow10_i128(self.exponent as u32);
            proof {
                lemma_pow10_38_bound();
                lemma_pow10_le_19(self.exponent as nat);
                assert((self.mantissa as i128) * p <= 1000000000000000i128 * pow10(19)
                    && (self.mantissa as i128) * p >= -1000000000000000i128 * pow10(19))
                    by (nonlinear_arith)
                    requires
                        p == pow10(self.exponent as nat),
                        0 < p <= pow10(19),
                        -1000000000000000 <= self.mantissa <= 1000000000000000,
                ;
            }
            (self.mantissa as i128) * p <= k as i128
        } else {
            let p: i128 = pow10_i128((-(self.exponent as i64)) as u32);
            proof {
                lemma_pow10_38_bound();
                lemma_pow10_le_19((-self.exponent) as nat);
                assert((k as i128) * p <= 9223372036854775807i128 * pow10(19) && (k as i128) * p
                    >= -9223372036854775808i128 * pow10(19)) by (nonlinear_arith)
                    requires
                        p == pow10((-self.exponent) as nat),
                        0 < p <= pow10(19),
                        -9223372036854775808 <= k <= 9223372036854775807,
                ;
            }
            (self.mantissa as i128) <= (k as i128) * p
        }
    }

    /// Compares the value strictly with an integer bound.
    pub fn lt_int(self, k: i64) -> (r: bool)
        requires
            self.wf(),
        ensures
            r == self.spec_lt_int(k as int),
    {
        if self.exponent >= 0 {
            let p: i128 = pow10_i128(self.exponent as u32);
            proof {
                lemma_pow10_38_bound();
                lemma_pow10_le_19(self.exponent as nat);
                assert((self.mantissa as i128) * p <= 1000000000000000i128 * pow10(19)
                    && (self.mantissa as i128) * p >= -1000000000000000i128 * pow10(19))
                    by (nonlinear_arith)
                    requires
                        p == pow10(self.exponent as nat),
                        0 < p <= pow10(19),
                        -1000000000000000 <= self.mantissa <= 1000000000000000,
                ;
            }
            (self.mantissa as i128) * p < k as i128
        } else {
            let p: i128 = pow10_i128((-(self.exponent as i64)) as u32);
            proof {
                lemma_pow10_38_bound();
                lemma_pow10_le_19((-self.exponent) as nat);
                assert((k as i128) * p <= 9223372036854775807i128 * pow10(19) && (k as i128) * p
                    >= -9223372036854775808i128 * pow10(19)) by (nonlinear_arith)
                    requires
                        p == pow10((-self.exponent) as nat),
                        0 < p <= pow10(19),
                        -9223372036854775808 <= k <= 9223372036854775807,
                ;
            }
            (self.mantissa as i128) < (k as i128) * p
        }
    }

    /// Difference of two decimals at the coarser common scale.
    ///
    /// The one with the larger exponent is rescaled to the smaller
    /// exponent and the mantissas are subtracted; the result is exact
    /// while the rescaled difference stays within the mantissa range,
    /// and saturates otherwise. Equal decimals always give zero.
    pub fn sub(self, rhs: Decimal) -> (r: Decimal)
        requires
            self.wf(),
            rhs.wf(),
        ensures
            r == spec_decimal_sub(self, rhs),
            r.exponent == if self.exponent <= rhs.exponent {
                self.exponent
            } else {
                rhs.exponent
            },
            ({
                let d = self.mantissa * pow10((self.exponent - r.exponent) as nat) - rhs.mantissa
                    * pow10((rhs.exponent - r.exponent) as nat);
                (self.exponent - r.exponent <= 22 && rhs.exponent - r.exponent <= 22
                    && -1000000000000000 <= d <= 1000000000000000) ==> r.mantissa == d
            }),
            self == rhs ==> r.mantissa == 0,
            r.wf(),
    {
        proof {
            lemma_pow10_38_bound();
        }
        let e: i32 = if self.exponent <= rhs.exponent {
            self.exponent
        } else {
            rhs.exponent
        };
        let da: i32 = self.exponent - e;
        let db: i32 = rhs.exponent - e;
        if da <= 22 && db <= 22 {
            let pa: i128 = pow10_i128(da as u32);
            let pb: i128 = pow10_i128(db as u32);
            proof {
                lemma_pow10_le_19(da as nat);
                lemma_pow10_le_19(db as nat);
                crate::text::lemma_pow10_mono(da as nat, 22);
                crate::text::lemma_pow10_mono(db as nat, 22);
                assert((self.mantissa as i128) * pa <= 1000000000000000i128 * pow10(22)
                    && (self.mantissa as i128) * pa >= -1000000000000000i128 * pow10(22))
                    by (nonlinear_arith)
                    requires
                        pa == pow10(da as nat),
                        0 < pa <= pow10(22),
                        -1000000000000000 <= self.mantissa <= 1000000000000000,
                ;
                assert((rhs.mantissa as i128) * pb <= 1000000000000000i128 * pow10(22)
                    && (rhs.mantissa as i128) * pb >= -1000000000000000i128 * pow10(22))
                    by (nonlinear_arith)
                    requires
                        pb == pow10(db as nat),
                        0 < pb <= pow10(22),
                        -1000000000000000 <= rhs.mantissa <= 1000000000000000,
                ;
            }
            let ma: i128 = (self.mantissa as i128) * pa;
            let mb: i128 = (rhs.mantissa as i128) * pb;
            let diff: i128 = ma - mb;
            Decimal { mantissa: clamp_mantissa(diff), exponent: e }
        } else if da > 22 {
            // `self` sits at a much larger scale and dwarfs `rhs`.
            let m: i64 = if self.mantissa > 0 {
                1000000000000000
            } else if self.mantissa < 0 {
                -1000000000000000
            } else {
                -rhs.mantissa
            };
            Decimal { mantissa: m, exponent: e }
        } else {
            // `rhs` sits at a much larger scale and dwarfs `self`.
            let m: i64 = if rhs.mantissa > 0 {
                -1000000000000000
            } else if rhs.mantissa < 0 {
                1000000000000000
            } else {
                self.mantissa
            };
            Decimal { mantissa: m, exponent: e }
        }
    }
}

/// A mantissa clamped into the well-formed range.
pub open spec fn spec_clamp_mantissa(v: int) -> i64 {
    if v > 1000000000000000 {
        1000000000000000i64
    } else if v < -1000000000000000 {
        (-1000000000000000) as i64
    } else {
        v as i64
    }
}

/// The decimal difference, as [`Decimal::sub`] computes it: aligned
/// to the coarser scale, exact within the mantissa range, saturated
/// beyond it.
pub open spec fn spec_decimal_sub(a: Decimal, b: Decimal) -> Decimal {
    let e = if a.exponent <= b.exponent {
        a.exponent
    } else {
        b.exponent
    };
    let da = a.exponent - e;
    let db = b.exponent - e;
    if da <= 22 && db <= 22 {
        Decimal {
            mantissa: spec_clamp_mantissa(
                a.mantissa * pow10(da as nat) - b.mantissa * pow10(db as nat),
            ),
            exponent: e,
        }
    } else if da > 22 {
        Decimal {
            mantissa: if a.mantissa > 0 {
                1000000000000000i64
            } else if a.mantissa < 0 {
                (-1000000000000000) as i64
            } else {
                (-b.mantissa) as i64
            },
            exponent: e,
        }
    } else {
        Decimal {
            mantissa: if b.mantissa > 0 {
                (-1000000000000000) as i64
            } else if b.mantissa < 0 {
                1000000000000000i64
            } else {
                a.mantissa
            },
            exponent: e,
        }
    }
}

/// Clamps an `i128` into the well-formed mantissa range; exact
/// within it.
fn clamp_mantissa(v: i128) -> (r: i64)
    ensures
        r == spec_clamp_mantissa(v as int),
        -1000000000000000 <= v <= 1000000000000000 ==> r == v,
        -1000000000000000 <= r <= 1000000000000000,
{
    if v > 1000000000000000i128 {
        1000000000000000
    } else if v < -1000000000000000i128 {
        -1000000000000000
    } else {
        v as i64
    }
}

pub(crate) proof fn lemma_pow10_le_19(k: nat)
    requires
        k <= 38,
    ensures
        0 < pow10(k),
        k <= 19 ==> pow10(k) <= pow10(19),
        pow10(k) <= pow10(38),
    decreases k,
{
    crate::text::lemma_pow10_mono(0, k);
    if k <= 19 {
        crate::text::lemma_pow10_mono(k, 19);
    }
    crate::text::lemma_pow10_mono(k, 38);
    if k > 0 {
        lemma_pow10_le_19((k - 1) as nat);
    }
}

/// Concrete powers of ten, up to the `i128` capacity.
pub proof fn lemma_pow10_38_bound()
    ensures
        pow10(19) == 10000000000000000000,
        pow10(22) == 10000000000000000000000,
        pow10(38) == 100000000000000000000000000000000000000,
{
    assert(pow10(0) == 1);
    assert(pow10(1) == 10);
    assert(pow10(2) == 100);
    assert(pow10(3) == 1000);
    assert(pow10(4) == 10000);
    assert(pow10(5) == 100000);
    assert(pow10(6) == 1000000);
    assert(pow10(7) == 10000000);
    assert(pow10(8) == 100000000);
    assert(pow10(9) == 1000000000);
    assert(pow10(10) == 10000000000);
    assert(pow10(11) == 100000000000);
    assert(pow10(12) == 1000000000000);
    assert(pow10(13) == 10000000000000);
    assert(pow10(14) == 100000000000000);
    assert(pow10(15) == 1000000000000000);
    assert(pow10(16) == 10000000000000000);
    assert(pow10(17) == 100000000000000000);
    assert(pow10(18) == 1000000000000000000);
    assert(pow10(19) == 10000000000000000000);
    assert(pow10(20) == 100000000000000000000);
    assert(pow10(21) == 1000000000000000000000);
    assert(pow10(22) == 10000000000000000000000);
    assert(pow10(23) == 100000000000000000000000);
    assert(pow10(24) == 1000000000000000000000000);
    assert(pow10(25) == 10000000000000000000000000);
    assert(pow10(26) == 100000000000000000000000000);
    assert(pow10(27) == 1000000000000000000000000000);
    assert(pow10(28) == 10000000000000000000000000000);
    assert(pow10(29) == 100000000000000000000000000000);
    assert(pow10(30) == 1000000000000000000000000000000);
    assert(pow10(31) == 10000000000000000000000000000000);
    assert(pow10(32) == 100000000000000000000000000000000);
    assert(pow10(33) == 1000000000000000000000000000000000);
    assert(pow10(34) == 10000000000000000000000000000000000);
    assert(pow10(35) == 100000000000000000000000000000000000);
    assert(pow10(36) == 1000000000000000000000000000000000000);
    assert(pow10(37) == 10000000000000000000000000000000000000);
    assert(pow10(38) == 100000000000000000000000000000000000000);
}

/// Ten to the `k`, computed within `i128`.
pub(crate) fn pow10_i128(k: u32) -> (r: i128)
    requires
        k <= 38,
    ensures
        r == pow10(k as nat),
{
    proof {
        lemma_pow10_38_bound();
    }
    let mut r: i128 = 1;
    let mut i: u32 = 0;
    while i < k
        invariant
            0 <= i <= k <= 38,
            r == pow10(i as nat),
        decreases k - i,
    {
        proof {
            lemma_pow10_le_19(i as nat);
            lemma_pow10_le_19((i + 1) as nat);
            lemma_pow10_38_bound();
            crate::text::lemma_pow10_mono((i + 1) as nat, 38);
        }
        r = r * 10;
        i = i + 1;
    }
    r
}

/// First index at which `b` occurs in `s`, or `s.len()`.
pub open spec fn spec_find_byte(s: Seq<u8>, b: u8) -> int
    decreases s.len(),
{
    if s.len() == 0 {
        0
    } else if s[0] == b {
        0
    } else {
        1 + spec_find_byte(s.subrange(1, s.len() as int), b)
    }
}

pub proof fn lemma_find_byte(s: Seq<u8>, b: u8)
    ensures
        0 <= spec_find_byte(s, b) <= s.len(),
        forall|i: int| 0 <= i < spec_find_byte(s, b) ==> s[i] != b,
        spec_find_byte(s, b) < s.len() ==> s[spec_find_byte(s, b)] == b,
    decreases s.len(),
{
    if s.len() > 0 && s[0] != b {
        let s1 = s.subrange(1, s.len() as int);
        lemma_find_byte(s1, b);
        assert forall|i: int| 0 <= i < spec_find_byte(s, b) implies s[i] != b by {
            if i >= 1 {
                assert(s[i] == s1[i - 1]);
                assert(s1[i - 1] != b);
            }
        }
    }
}

/// Finds the first occurrence of `b`, or returns the length.
pub fn find_byte(s: &[u8], b: u8) -> (r: usize)
    ensures
        r == spec_find_byte(s@, b),
{
    proof {
        lemma_find_byte(s@, b);
    }
    let len: usize = s.len();
    let mut i: usize = 0;
    while i < len
        invariant
            0 <= i <= len,
            len == s@.len(),
            forall|j: int| 0 <= j < i ==> s@[j] != b,
        decreases len - i,
    {
        if s[i] == b {
            proof {
                lemma_find_byte_unique(s@, b, i as int);
            }
            return i;
        }
        i = i + 1;
    }
    proof {
        if spec_find_byte(s@, b) < s@.len() {
            assert(s@[spec_find_byte(s@, b)] == b);
        }
    }
    len
}

/// Splits decimal text at the exponent marker `e`/`E`, if any:
/// index of the marker, or the length when there is none.
pub open spec fn spec_exp_split(s: Seq<u8>) -> int {
    if spec_find_byte(s, 101) <= spec_find_byte(s, 69) {
        spec_find_byte(s, 101)
    } else {
        spec_find_byte(s, 69)
    }
}

/// The digits of a decimal body (sign already stripped): digits
/// around at most one `.`, concatenated, with the count of
/// fractional digits. `None` when a non-digit remains or no digit
/// is present.
pub open spec fn spec_dec_digits(body: Seq<u8>) -> Option<(Seq<u8>, int)> {
    let di = spec_find_byte(body, 46);
    let ip = body.subrange(0, di);
    let fp = if di < body.len() {
        body.subrange(di + 1, body.len() as int)
    } else {
        Seq::<u8>::empty()
    };
    if all_digits(ip) && all_digits(fp) && ip.len() + fp.len() > 0 {
        Some((ip + fp, fp.len() as int))
    } else {
        None
    }
}

/// Mantissa and power-of-ten exponent denoted by decimal text:
/// `[+-]? digits [. digits]? ([eE] [+-]? digits)?`, with at least one
/// digit in the body and an exponent field within ±9999.
/// This is the library's own decimal grammar; binary floating point
/// special forms (infinities, NaN) are not values of it.
pub open spec fn spec_parse_decimal(s: Seq<u8>) -> Option<(int, int)> {
    let ei = spec_exp_split(s);
    let mant = s.subrange(0, ei);
    let etxt = s.subrange(ei + 1, s.len() as int);
    let has_exp = ei < s.len();
    let body = if mant.len() > 0 && (mant[0] == 45 || mant[0] == 43) {
        mant.subrange(1, mant.len() as int)
    } else {
        mant
    };
    let neg = mant.len() > 0 && mant[0] == 45;
    if has_exp && !(is_int_text(etxt) && -9999 <= int_text_val(etxt) <= 9999) {
        None
    } else {
        let exp = if has_exp {
            int_text_val(etxt)
        } else {
            0
        };
        match spec_dec_digits(body) {
            Some((digits, frac)) => {
                let m = if neg {
                    -(digits_val(digits) as int)
                } else {
                    digits_val(digits) as int
                };
                Some((m, exp - frac))
            },
            None => None,
        }
    }
}

/// Parses the digit body of a decimal (sign already stripped):
/// digits around at most one dot. Returns the combined digit value
/// and the count of fractional digits.
fn parse_dec_body(body: &[u8]) -> (r: Option<(u64, usize)>)
    ensures
        match r {
            Some((mag, frac)) => {
                &&& spec_dec_digits(body@) matches Some((digits, f))
                &&& digits_val(digits) == mag
                &&& f == frac
            },
            None => match spec_dec_digits(body@) {
                Some((digits, f)) => digits_val(digits) > u64::MAX,
                None => true,
            },
        },
{
    let blen: usize = body.len();
    let di: usize = find_byte(body, 46);
    proof {
        lemma_find_byte(body@, 46);
    }
    let ghost ip = body@.subrange(0, di as int);
    let ghost fp = if di < blen {
        body@.subrange(di as int + 1, blen as int)
    } else {
        Seq::<u8>::empty()
    };
    let mut digits: Vec<u8> = Vec::new();
    let mut i: usize = 0;
    while i < di
        invariant
            0 <= i <= di <= blen,
            blen == body@.len(),
            ip == body@.subrange(0, di as int),
            di == spec_find_byte(body@, 46),
            fp == (if di < blen {
                body@.subrange(di as int + 1, blen as int)
            } else {
                Seq::<u8>::empty()
            }),
            digits@ =~= ip.subrange(0, i as int),
            all_digits(digits@),
        decreases di - i,
    {
        let b: u8 = body[i];
        if !is_digit(b) {
            proof {
                assert(ip[i as int] == b);
                assert(!all_digits(ip));
                assert(spec_dec_digits(body@) is None);
            }
            return None;
        }
        digits.push(b);
        proof {
            assert(digits@ =~= ip.subrange(0, i + 1));
        }
        i = i + 1;
    }
    proof {
        assert(ip.subrange(0, di as int) =~= ip);
    }
    let mut fplen: usize = 0;
    if di < blen {
        let mut j: usize = di + 1;
        while j < blen
            invariant
                di + 1 <= j <= blen,
                blen == body@.len(),
                di < blen,
                fp == body@.subrange(di as int + 1, blen as int),
                ip == body@.subrange(0, di as int),
                di == spec_find_byte(body@, 46),
                digits@ =~= ip + fp.subrange(0, j - di - 1),
                all_digits(digits@),
            decreases blen - j,
        {
            let b: u8 = body[j];
            if !is_digit(b) {
                proof {
                    assert(fp[j - di - 1] == b);
                    assert(!all_digits(fp));
                    assert(spec_dec_digits(body@) is None);
                }
                return None;
            }
            digits.push(b);
            proof {
                assert(digits@ =~= ip + fp.subrange(0, j - di));
            }
            j = j + 1;
        }
        fplen = blen - di - 1;
    }
    proof {
        assert(fp.subrange(0, fp.len() as int) =~= fp);
        assert(digits@ =~= ip + fp);
        assert(fplen == fp.len());
    }
    proof {
        assert forall|k: int| 0 <= k < ip.len() implies spec_is_digit(#[trigger] ip[k]) by {
            assert(digits@[k] == ip[k]);
        }
        assert(all_digits(ip));
        assert forall|k: int| 0 <= k < fp.len() implies spec_is_digit(#[trigger] fp[k]) by {
            assert(digits@[ip.len() + k] == fp[k]);
        }
        assert(all_digits(fp));
    }
    match crate::text::parse_u64_digits(digits.as_slice()) {
        Some(v) => Some((v, fplen)),
        None => {
            proof {
                if digits@.len() == 0 {
                    assert(ip.len() + fp.len() == 0);
                    assert(spec_dec_digits(body@) is None);
                }
            }
            None
        },
    }
}

impl Decimal {
    /// Parses decimal text into an exact [`Decimal`].
    ///
    /// Returns `None` when the text is not of the decimal grammar, or
    /// when the value does not fit the well-formed range (mantissa
    /// within 10^15, exponent within \u{b1}19).
    pub fn parse(s: &[u8]) -> (r: Option<Decimal>)
        ensures
            match r {
                Some(d) => {
                    &&& spec_parse_decimal(s@) matches Some((m, e))
                    &&& d.mantissa == m
                    &&& d.exponent == e
                    &&& d.wf()
                },
                None => match spec_parse_decimal(s@) {
                    Some((m, e)) => m > 1000000000000000 || m < -1000000000000000 || e > 19 || e
                        < -19,
                    None => true,
                },
            },
    {
        let len: usize = s.len();
        let ie: usize = find_byte(s, 101);
        let icap: usize = find_byte(s, 69);
        let ei: usize = if ie <= icap {
            ie
        } else {
            icap
        };
        proof {
            lemma_find_byte(s@, 101);
            lemma_find_byte(s@, 69);
        }
        // exponent field
        let mut exp: i64 = 0;
        if ei < len {
            let etxt: &[u8] = &s[ei + 1..len];
            proof {
                assert(etxt@ =~= s@.subrange(ei + 1, s@.len() as int));
            }
            match crate::text::parse_i64(etxt) {
                Some(x) => {
                    if x < -9999 || x > 9999 {
                        return None;
                    }
                    exp = x;
                },
                None => {
                    return None;
                },
            }
        }
        // mantissa body
        let mant: &[u8] = &s[0..ei];
        proof {
            assert(mant@ =~= s@.subrange(0, ei as int));
        }
        let neg: bool = mant.len() > 0 && mant[0] == 45;
        let start: usize = if mant.len() > 0 && (mant[0] == 45 || mant[0] == 43) {
            1
        } else {
            0
        };
        let body: &[u8] = &mant[start..mant.len()];
        proof {
            if start == 1 {
                assert(body@ =~= mant@.subrange(1, mant@.len() as int));
            } else {
                assert(body@ =~= mant@);
            }
        }
        let (mag, fplen): (u64, usize) = match parse_dec_body(body) {
            Some(p) => p,
            None => {
                return None;
            },
        };
        if mag > 1000000000000000 {
            return None;
        }
        if fplen > 10023 {
            return None;
        }
        let etotal: i64 = exp - (fplen as i64);
        if etotal < -19 || etotal > 19 {
            return None;
        }
        let m: i64 = if neg {
            -(mag as i64)
        } else {
            mag as i64
        };
        Some(Decimal { mantissa: m, exponent: etotal as i32 })
    }
}

pub proof fn lemma_find_byte_unique(s: Seq<u8>, b: u8, i: int)
    requires
        0 <= i < s.len(),
        s[i] == b,
        forall|j: int| 0 <= j < i ==> s[j] != b,
    ensures
        spec_find_byte(s, b) == i,
{
    lemma_find_byte(s, b);
    let f = spec_find_byte(s, b);
    if f < i {
        assert(s[f] != b);
    }
    if f > i {
        assert(s[i] != b);
    }
}


/// Decimal digits of a `u128`, most significant first.
pub fn fmt_u128(v: u128) -> (r: Vec<u8>)
    ensures
        r@ == crate::text::spec_digits(v as nat),
    decreases v,
{
    if v < 10 {
        let mut r: Vec<u8> = Vec::new();
        r.push(48 + (v as u8));
        r
    } else {
        let mut r = fmt_u128(v / 10);
        r.push(48 + ((v % 10) as u8));
        r
    }
}

/// Magnitude of `mag * 10^k`, rounded half away from zero to an
/// integer when `k` is negative.
pub open spec fn spec_scaled_mag(mag: nat, k: int) -> nat {
    if k >= 0 {
        mag * pow10(k as nat)
    } else {
        ((mag + pow10((-k) as nat) / 2) / pow10((-k) as nat)) as nat
    }
}

/// Fixed-point text of a decimal: sign, integer digits, a dot, and
/// exactly `dec` fractional digits (value rounded half away from
/// zero), right-aligned with spaces to `width`.
pub open spec fn spec_fmt_fixed(d: Decimal, dec: nat, width: nat) -> Seq<u8> {
    let mag = if d.mantissa >= 0 {
        d.mantissa as nat
    } else {
        (-d.mantissa) as nat
    };
    let n = spec_scaled_mag(mag, d.exponent + dec);
    let digits = crate::text::spec_digits(n / pow10(dec)) + seq![46u8] + crate::text::spec_pad_left(
        crate::text::spec_digits(n % pow10(dec)),
        dec,
        48,
    );
    let signed = if d.mantissa < 0 {
        seq![45u8] + digits
    } else {
        digits
    };
    crate::text::spec_pad_left(signed, width, 32)
}

impl Decimal {
    /// Formats the value with a fixed number of fractional digits,
    /// right-aligned with spaces, as observation cells are written.
    pub fn fmt_fixed(self, dec: usize, width: usize) -> (r: Vec<u8>)
        requires
            self.wf(),
            dec <= 4,
        ensures
            r@ == spec_fmt_fixed(self, dec as nat, width as nat),
    {
        proof {
            lemma_pow10_38_bound();
        }
        let mag: i64 = if self.mantissa >= 0 {
            self.mantissa
        } else {
            -self.mantissa
        };
        let mag: u128 = mag as u128;
        let k: i64 = (self.exponent as i64) + (dec as i64);
        let n: u128 = if k >= 0 {
            let p: i128 = pow10_i128(k as u32);
            proof {
                lemma_pow10_le_19(k as nat);
                crate::text::lemma_pow10_mono(k as nat, 23);
                lemma_pow10_23();
                assert(mag * (p as u128) <= 1000000000000000u128 * pow10(23)) by (nonlinear_arith)
                    requires
                        p as u128 == pow10(k as nat),
                        0 < p as u128 <= pow10(23),
                        mag <= 1000000000000000,
                ;
            }
            mag * (p as u128)
        } else {
            let p: i128 = pow10_i128((-k) as u32);
            let pu: u128 = p as u128;
            proof {
                lemma_pow10_le_19((-k) as nat);
            }
            (mag + pu / 2) / pu
        };
        let pdec: i128 = pow10_i128(dec as u32);
        let pdecu: u128 = pdec as u128;
        proof {
            lemma_pow10_le_19(dec as nat);
        }
        let intpart: u128 = n / pdecu;
        let fracpart: u128 = n % pdecu;
        let mut digits: Vec<u8> = fmt_u128(intpart);
        digits.push(46);
        let mut frac = crate::text::pad_left(fmt_u128(fracpart), dec, 48);
        digits.append(&mut frac);
        let signed: Vec<u8> = if self.mantissa < 0 {
            let mut sv: Vec<u8> = Vec::new();
            sv.push(45);
            let mut dtail = digits;
            sv.append(&mut dtail);
            sv
        } else {
            digits
        };
        proof {
            let magg = if self.mantissa >= 0 {
                self.mantissa as nat
            } else {
                (-self.mantissa) as nat
            };
            assert(n as nat == spec_scaled_mag(magg, self.exponent + dec));
            assert(signed@ =~= (if self.mantissa < 0 {
                seq![45u8] + (crate::text::spec_digits(n as nat / pow10(dec as nat)) + seq![46u8]
                    + crate::text::spec_pad_left(
                    crate::text::spec_digits(n as nat % pow10(dec as nat)),
                    dec as nat,
                    48,
                ))
            } else {
                crate::text::spec_digits(n as nat / pow10(dec as nat)) + seq![46u8]
                    + crate::text::spec_pad_left(
                    crate::text::spec_digits(n as nat % pow10(dec as nat)),
                    dec as nat,
                    48,
                )
            }));
        }
        crate::text::pad_left(signed, width, 32)
    }
}

/// pow10(23), the largest scale the fixed-point formatter multiplies.
proof fn lemma_pow10_23()
    ensures
        pow10(23) == 100000000000000000000000,
{
    lemma_pow10_38_bound();
    assert(pow10(23) == 100000000000000000000000) by {
        assert(pow10(0) == 1);
        assert(pow10(1) == 10);
        assert(pow10(2) == 100);
        assert(pow10(3) == 1000);
        assert(pow10(4) == 10000);
        assert(pow10(5) == 100000);
        assert(pow10(6) == 1000000);
        assert(pow10(7) == 10000000);
        assert(pow10(8) == 100000000);
        assert(pow10(9) == 1000000000);
        assert(pow10(10) == 10000000000);
        assert(pow10(11) == 100000000000);
        assert(pow10(12) == 1000000000000);
        assert(pow10(13) == 10000000000000);
        assert(pow10(14) == 100000000000000);
        assert(pow10(15) == 1000000000000000);
        assert(pow10(16) == 10000000000000000);
        assert(pow10(17) == 100000000000000000);
        assert(pow10(18) == 1000000000000000000);
        assert(pow10(19) == 10000000000000000000);
        assert(pow10(20) == 100000000000000000000);
        assert(pow10(21) == 1000000000000000000000);
        assert(pow10(22) == 10000000000000000000000);
        assert(pow10(23) == 100000000000000000000000);
    }
}

/// Powers of ten are positive.
pub proof fn lemma_pow10_pos(k: nat)
    ensures
        0 < pow10(k),
    decreases k,
{
    if k > 0 {
        lemma_pow10_pos((k - 1) as nat);
    }
}

} // verus!
