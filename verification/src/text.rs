//! Byte-level text utilities: ASCII classification, trimming,
//! substring search, and exact decimal integer parsing/formatting.
//! The DORIS format is plain ASCII, so all codecs work on bytes.

use vstd::prelude::*;

verus! {

/// ASCII whitespace, as trimmed from fields before parsing.
pub open spec fn spec_is_ws(b: u8) -> bool {
    b == 32 || (9 <= b && b <= 13)
}

/// ASCII decimal digit.
pub open spec fn spec_is_digit(b: u8) -> bool {
    48 <= b && b <= 57
}

pub open spec fn all_digits(s: Seq<u8>) -> bool {
    forall|i: int| 0 <= i < s.len() ==> spec_is_digit(#[trigger] s[i])
}

/// Numeric value of a digit string (most significant first).
pub open spec fn digits_val(s: Seq<u8>) -> nat
    decreases s.len(),
{
    if s.len() == 0 {
        0
    } else {
        (digits_val(s.drop_last()) * 10 + (s.last() - 48)) as nat
    }
}

/// Text accepted by unsigned integer parsing: optional `+`, then digits.
pub open spec fn is_uint_text(s: Seq<u8>) -> bool {
    if s.len() > 0 && s[0] == 43 {
        s.len() > 1 && all_digits(s.subrange(1, s.len() as int))
    } else {
        s.len() > 0 && all_digits(s)
    }
}

/// Value of unsigned integer text.
pub open spec fn uint_text_val(s: Seq<u8>) -> nat {
    if s.len() > 0 && s[0] == 43 {
        digits_val(s.subrange(1, s.len() as int))
    } else {
        digits_val(s)
    }
}

/// Text accepted by signed integer parsing: optional sign, then digits.
pub open spec fn is_int_text(s: Seq<u8>) -> bool {
    if s.len() > 0 && (s[0] == 43 || s[0] == 45) {
        s.len() > 1 && all_digits(s.subrange(1, s.len() as int))
    } else {
        s.len() > 0 && all_digits(s)
    }
}

/// Value of signed integer text.
pub open spec fn int_text_val(s: Seq<u8>) -> int {
    if s.len() > 0 && s[0] == 45 {
        -(digits_val(s.subrange(1, s.len() as int)) as int)
    } else {
        uint_text_val(s) as int
    }
}

pub fn is_ws(b: u8) -> (r: bool)
    ensures
        r == spec_is_ws(b),
{
    b == 32 || (9 <= b && b <= 13)
}

pub fn is_digit(b: u8) -> (r: bool)
    ensures
        r == spec_is_digit(b),
{
    48 <= b && b <= 57
}

/// ASCII whitespace removed from both ends.
pub open spec fn spec_trim(s: Seq<u8>) -> Seq<u8>
    decreases s.len(),
{
    if s.len() == 0 {
        s
    } else if spec_is_ws(s[0]) {
        spec_trim(s.subrange(1, s.len() as int))
    } else if spec_is_ws(s[s.len() - 1]) {
        spec_trim(s.subrange(0, s.len() - 1))
    } else {
        s
    }
}

pub proof fn lemma_trim_char(s: Seq<u8>, a: int, b: int)
    requires
        0 <= a <= b <= s.len(),
        forall|i: int| 0 <= i < a ==> spec_is_ws(#[trigger] s[i]),
        forall|i: int| b <= i < s.len() ==> spec_is_ws(#[trigger] s[i]),
        a < b ==> !spec_is_ws(s[a]) && !spec_is_ws(s[b - 1]),
        a == b ==> a == s.len(),
    ensures
        spec_trim(s) == s.subrange(a, b),
    decreases s.len(),
{
    if s.len() == 0 {
        assert(spec_trim(s) == s.subrange(a, b));
    } else if spec_is_ws(s[0]) {
        let s1 = s.subrange(1, s.len() as int);
        // a cannot be 0: either a < b and s[a] is not whitespace, or a == s.len() >= 1
        assert(a >= 1);
        lemma_trim_char(s1, a - 1, b - 1);
        assert(s1.subrange(a - 1, b - 1) =~= s.subrange(a, b));
    } else {
        // s[0] is not whitespace, hence a == 0 and b >= 1
        assert(a == 0) by {
            if a > 0 {
                assert(spec_is_ws(s[0]));
            }
        }
        assert(b >= 1);
        if spec_is_ws(s[s.len() - 1]) {
            let s2 = s.subrange(0, s.len() - 1);
            assert(b <= s.len() - 1);
            lemma_trim_char(s2, a, b);
            assert(s2.subrange(a, b) =~= s.subrange(a, b));
        } else {
            assert(b == s.len()) by {
                if b < s.len() {
                    assert(spec_is_ws(s[s.len() - 1]));
                }
            }
            assert(s.subrange(0, s.len() as int) =~= s);
        }
    }
}

/// Slice with ASCII whitespace removed from both ends.
pub fn trim(s: &[u8]) -> (r: &[u8])
    ensures
        r@ == spec_trim(s@),
{
    let len: usize = s.len();
    let mut a: usize = 0;
    while a < len && is_ws(s[a])
        invariant
            0 <= a <= len,
            len == s@.len(),
            forall|i: int| 0 <= i < a ==> spec_is_ws(#[trigger] s@[i]),
        decreases len - a,
    {
        a = a + 1;
    }
    if a == len {
        proof {
            lemma_trim_char(s@, len as int, len as int);
        }
        return &s[len..len];
    }
    let mut b: usize = len;
    while b > a && is_ws(s[b - 1])
        invariant
            a <= b <= len,
            len == s@.len(),
            a < len,
            !spec_is_ws(s@[a as int]),
            forall|i: int| b <= i < len ==> spec_is_ws(#[trigger] s@[i]),
        decreases b,
    {
        b = b - 1;
    }
    proof {
        lemma_trim_char(s@, a as int, b as int);
    }
    &s[a..b]
}

/// ASCII whitespace removed from the end only.
pub open spec fn spec_trim_end(s: Seq<u8>) -> Seq<u8>
    decreases s.len(),
{
    if s.len() > 0 && spec_is_ws(s[s.len() - 1]) {
        spec_trim_end(s.drop_last())
    } else {
        s
    }
}

/// The trim-end of a string whose tail from `b` on is whitespace and
/// whose byte before `b` (if any) is not.
pub proof fn lemma_trim_end_char(s: Seq<u8>, b: int)
    requires
        0 <= b <= s.len(),
        forall|i: int| b <= i < s.len() ==> spec_is_ws(#[trigger] s[i]),
        b > 0 ==> !spec_is_ws(s[b - 1]),
    ensures
        spec_trim_end(s) == s.subrange(0, b),
    decreases s.len(),
{
    if s.len() == 0 {
        assert(s.subrange(0, 0) =~= s);
    } else if spec_is_ws(s[s.len() - 1]) {
        assert(b <= s.len() - 1);
        lemma_trim_end_char(s.drop_last(), b);
        assert(s.drop_last().subrange(0, b) =~= s.subrange(0, b));
    } else {
        assert(b == s.len());
        assert(s.subrange(0, s.len() as int) =~= s);
    }
}

/// `needle` occurs somewhere inside `hay`.
pub open spec fn spec_contains(hay: Seq<u8>, needle: Seq<u8>) -> bool {
    exists|i: int|
        0 <= i && i + needle.len() <= hay.len() && #[trigger] hay.subrange(i, i + needle.len())
            == needle
}

/// Substring search, as used for header marker dispatch.
pub fn contains_bytes(hay: &[u8], needle: &[u8]) -> (r: bool)
    ensures
        r == spec_contains(hay@, needle@),
{
    let hlen: usize = hay.len();
    let nlen: usize = needle.len();
    if nlen > hlen {
        return false;
    }
    let mut i: usize = 0;
    while i <= hlen - nlen
        invariant
            0 <= i <= hlen - nlen + 1,
            nlen <= hlen,
            hlen == hay@.len(),
            nlen == needle@.len(),
            forall|k: int|
                0 <= k < i ==> #[trigger] hay@.subrange(k, k + needle@.len()) != needle@,
        decreases hlen - nlen - i + 1,
    {
        let mut j: usize = 0;
        while j < nlen && hay[i + j] == needle[j]
            invariant
                0 <= j <= nlen,
                i + nlen <= hlen,
                hlen == hay@.len(),
                nlen == needle@.len(),
                forall|k: int| 0 <= k < j ==> hay@[i + k] == needle@[k],
            decreases nlen - j,
        {
            j = j + 1;
        }
        if j == nlen {
            proof {
                assert(hay@.subrange(i as int, i + needle@.len()) =~= needle@);
            }
            return true;
        }
        proof {
            assert(hay@.subrange(i as int, i + needle@.len()) != needle@) by {
                if hay@.subrange(i as int, i + needle@.len()) == needle@ {
                    assert(hay@.subrange(i as int, i + needle@.len())[j as int] == needle@[
                        j as int
                    ]);
                }
            }
        }
        i = i + 1;
    }
    false
}

/// Byte-for-byte equality of two slices.
pub fn bytes_eq(a: &[u8], b: &[u8]) -> (r: bool)
    ensures
        r == (a@ == b@),
{
    let alen: usize = a.len();
    if alen != b.len() {
        return false;
    }
    let mut i: usize = 0;
    while i < alen
        invariant
            0 <= i <= alen,
            alen == a@.len(),
            alen == b@.len(),
            forall|k: int| 0 <= k < i ==> a@[k] == b@[k],
        decreases alen - i,
    {
        if a[i] != b[i] {
            return false;
        }
        i = i + 1;
    }
    proof {
        assert(a@ =~= b@);
    }
    true
}

proof fn lemma_digits_val_step(s: Seq<u8>, k: int)
    requires
        0 <= k < s.len(),
        spec_is_digit(s[k]),
    ensures
        digits_val(s.subrange(0, k + 1)) == digits_val(s.subrange(0, k)) * 10 + (s[k] - 48),
{
    let t = s.subrange(0, k + 1);
    assert(t.drop_last() =~= s.subrange(0, k));
    assert(t.last() == s[k]);
}

/// A digit string's value only grows as more digits are appended.
proof fn lemma_digits_val_prefix_mono(s: Seq<u8>, k: int)
    requires
        0 <= k <= s.len(),
        all_digits(s),
    ensures
        digits_val(s) >= digits_val(s.subrange(0, k)),
    decreases s.len() - k,
{
    if k < s.len() {
        lemma_digits_val_step(s, k);
        lemma_digits_val_prefix_mono(s, k + 1);
    } else {
        assert(s.subrange(0, k) =~= s);
    }
}

/// Digits of a digit string, with `None` when the slice is empty,
/// holds a non-digit, or its value exceeds `u64::MAX`.
pub fn parse_u64_digits(s: &[u8]) -> (r: Option<u64>)
    ensures
        match r {
            Some(v) => s@.len() > 0 && all_digits(s@) && digits_val(s@) == v,
            None => s@.len() == 0 || !all_digits(s@) || digits_val(s@) > u64::MAX,
        },
{
    let len: usize = s.len();
    if len == 0 {
        return None;
    }
    let mut acc: u64 = 0;
    let mut i: usize = 0;
    while i < len
        invariant
            0 <= i <= len,
            len == s@.len(),
            all_digits(s@.subrange(0, i as int)),
            acc == digits_val(s@.subrange(0, i as int)),
        decreases len - i,
    {
        let b: u8 = s[i];
        if !is_digit(b) {
            return None;
        }
        let d: u8 = b - 48;
        proof {
            lemma_digits_val_step(s@, i as int);
            assert(all_digits(s@.subrange(0, i + 1))) by {
                let t = s@.subrange(0, i + 1);
                assert(forall|j: int| 0 <= j < t.len() ==> spec_is_digit(#[trigger] t[j]));
            }
        }
        if acc > (u64::MAX - (d as u64)) / 10 {
            proof {
                assert(acc * 10 + d > u64::MAX) by (nonlinear_arith)
                    requires
                        acc > (u64::MAX - (d as u64)) / 10,
                        d <= 9,
                        u64::MAX == 0xffff_ffff_ffff_ffff,
                ;
                if all_digits(s@) {
                    lemma_digits_val_prefix_mono(s@, i + 1);
                }
            }
            return None;
        }
        acc = acc * 10 + (d as u64);
        i = i + 1;
    }
    proof {
        assert(s@.subrange(0, len as int) =~= s@);
    }
    Some(acc)
}

/// Unsigned integer parsing: optional `+`, then decimal digits,
/// the form the numeric text fields of the format accept.
pub fn parse_u64(s: &[u8]) -> (r: Option<u64>)
    ensures
        match r {
            Some(v) => is_uint_text(s@) && uint_text_val(s@) == v,
            None => !is_uint_text(s@) || uint_text_val(s@) > u64::MAX,
        },
{
    if s.len() > 0 && s[0] == 43 {
        let rest: &[u8] = &s[1..s.len()];
        proof {
            assert(rest@ =~= s@.subrange(1, s@.len() as int));
        }
        parse_u64_digits(rest)
    } else {
        parse_u64_digits(s)
    }
}

/// Signed integer parsing: optional sign, then decimal digits.
pub fn parse_i64(s: &[u8]) -> (r: Option<i64>)
    ensures
        match r {
            Some(v) => is_int_text(s@) && int_text_val(s@) == v,
            None => !is_int_text(s@) || int_text_val(s@) > i64::MAX || int_text_val(s@)
                < i64::MIN,
        },
{
    if s.len() > 0 && s[0] == 45 {
        let rest: &[u8] = &s[1..s.len()];
        proof {
            assert(rest@ =~= s@.subrange(1, s@.len() as int));
        }
        match parse_u64_digits(rest) {
            Some(mag) => {
                if mag <= 0x7fff_ffff_ffff_ffff {
                    Some(-(mag as i64))
                } else if mag == 0x8000_0000_0000_0000 {
                    Some(i64::MIN)
                } else {
                    None
                }
            },
            None => None,
        }
    } else {
        match parse_u64(s) {
            Some(mag) => {
                if mag <= 0x7fff_ffff_ffff_ffff {
                    Some(mag as i64)
                } else {
                    None
                }
            },
            None => None,
        }
    }
}

pub fn parse_u8(s: &[u8]) -> (r: Option<u8>)
    ensures
        match r {
            Some(v) => is_uint_text(s@) && uint_text_val(s@) == v,
            None => !is_uint_text(s@) || uint_text_val(s@) > u8::MAX,
        },
{
    match parse_u64(s) {
        Some(v) => if v <= 255 {
            Some(v as u8)
        } else {
            None
        },
        None => None,
    }
}

pub fn parse_u16(s: &[u8]) -> (r: Option<u16>)
    ensures
        match r {
            Some(v) => is_uint_text(s@) && uint_text_val(s@) == v,
            None => !is_uint_text(s@) || uint_text_val(s@) > u16::MAX,
        },
{
    match parse_u64(s) {
        Some(v) => if v <= 65535 {
            Some(v as u16)
        } else {
            None
        },
        None => None,
    }
}

pub fn parse_u32(s: &[u8]) -> (r: Option<u32>)
    ensures
        match r {
            Some(v) => is_uint_text(s@) && uint_text_val(s@) == v,
            None => !is_uint_text(s@) || uint_text_val(s@) > u32::MAX,
        },
{
    match parse_u64(s) {
        Some(v) => if v <= 0xffff_ffff {
            Some(v as u32)
        } else {
            None
        },
        None => None,
    }
}

pub fn parse_i8(s: &[u8]) -> (r: Option<i8>)
    ensures
        match r {
            Some(v) => is_int_text(s@) && int_text_val(s@) == v,
            None => !is_int_text(s@) || int_text_val(s@) > i8::MAX || int_text_val(s@) < i8::MIN,
        },
{
    match parse_i64(s) {
        Some(v) => if -128 <= v && v <= 127 {
            Some(v as i8)
        } else {
            None
        },
        None => None,
    }
}

pub fn parse_i32(s: &[u8]) -> (r: Option<i32>)
    ensures
        match r {
            Some(v) => is_int_text(s@) && int_text_val(s@) == v,
            None => !is_int_text(s@) || int_text_val(s@) > i32::MAX || int_text_val(s@)
                < i32::MIN,
        },
{
    match parse_i64(s) {
        Some(v) => if -0x8000_0000i64 <= v && v <= 0x7fff_ffff {
            Some(v as i32)
        } else {
            None
        },
        None => None,
    }
}

/// Decimal digits of `v`, most significant first, no sign, no padding.
pub open spec fn spec_digits(v: nat) -> Seq<u8>
    decreases v,
{
    if v < 10 {
        seq![(48 + v) as u8]
    } else {
        spec_digits(v / 10).push((48 + v % 10) as u8)
    }
}

/// Signed decimal text of `v`.
pub open spec fn spec_int_digits(v: int) -> Seq<u8> {
    if v < 0 {
        seq![45u8] + spec_digits((-v) as nat)
    } else {
        spec_digits(v as nat)
    }
}

pub proof fn lemma_spec_digits(v: nat)
    ensures
        spec_digits(v).len() >= 1,
        all_digits(spec_digits(v)),
        digits_val(spec_digits(v)) == v,
        v >= 1 ==> spec_digits(v)[0] != 48,
        v < 10 ==> spec_digits(v).len() == 1,
        v >= 10 ==> spec_digits(v).len() >= 2,
    decreases v,
{
    if v < 10 {
        let s = spec_digits(v);
        assert(s.drop_last() =~= Seq::<u8>::empty());
        assert(digits_val(s.drop_last()) == 0);
    } else {
        lemma_spec_digits(v / 10);
        let s = spec_digits(v);
        assert(v / 10 * 10 + v % 10 == v) by {
            vstd::arithmetic::div_mod::lemma_fundamental_div_mod(v as int, 10);
        }
        assert(s.drop_last() =~= spec_digits(v / 10));
        assert(forall|i: int|
            0 <= i < s.len() ==> spec_is_digit(#[trigger] s[i])) by {
            assert(forall|i: int|
                0 <= i < s.len() - 1 ==> s[i] == #[trigger] spec_digits(v / 10)[i]);
        }
    }
}

pub open spec fn pow10(k: nat) -> nat
    decreases k,
{
    if k == 0 {
        1
    } else {
        10 * pow10((k - 1) as nat)
    }
}

/// `v < pow10(k)` bounds the digit count by `k`.
pub proof fn lemma_spec_digits_len(v: nat, k: nat)
    requires
        k >= 1,
        v < pow10(k),
    ensures
        spec_digits(v).len() <= k,
    decreases v,
{
    if v >= 10 {
        assert(pow10(k) == 10 * pow10((k - 1) as nat));
        lemma_spec_digits_len(v / 10, (k - 1) as nat);
    }
}

pub proof fn lemma_pow10_mono(a: nat, b: nat)
    requires
        a <= b,
    ensures
        pow10(a) <= pow10(b),
    decreases b,
{
    if a < b {
        lemma_pow10_mono(a, (b - 1) as nat);
    }
}

/// Leading zeros do not change a digit string's value.
pub proof fn lemma_digits_val_zero_pad(z: Seq<u8>, s: Seq<u8>)
    requires
        forall|i: int| 0 <= i < z.len() ==> z[i] == 48,
    ensures
        digits_val(z + s) == digits_val(s),
    decreases s.len(),
{
    if s.len() == 0 {
        assert(z + s =~= z);
        lemma_digits_val_zeros(z);
    } else {
        assert((z + s).drop_last() =~= z + s.drop_last());
        assert((z + s).last() == s.last());
        lemma_digits_val_zero_pad(z, s.drop_last());
    }
}

proof fn lemma_digits_val_zeros(z: Seq<u8>)
    requires
        forall|i: int| 0 <= i < z.len() ==> z[i] == 48,
    ensures
        digits_val(z) == 0,
    decreases z.len(),
{
    if z.len() > 0 {
        lemma_digits_val_zeros(z.drop_last());
    }
}

/// Decimal digits of `v`, no padding.
pub fn fmt_u64(v: u64) -> (r: Vec<u8>)
    ensures
        r@ == spec_digits(v as nat),
    decreases v,
{
    if v < 10 {
        let mut r: Vec<u8> = Vec::new();
        r.push(48 + (v as u8));
        r
    } else {
        let mut r = fmt_u64(v / 10);
        r.push(48 + ((v % 10) as u8));
        r
    }
}

/// Signed decimal text of `v`, no padding.
pub fn fmt_i64(v: i64) -> (r: Vec<u8>)
    ensures
        r@ == spec_int_digits(v as int),
{
    if v < 0 {
        let mut r: Vec<u8> = Vec::new();
        r.push(45);
        let mag: u64 = if v == i64::MIN {
            0x8000_0000_0000_0000u64
        } else {
            (-v) as u64
        };
        let mut d = fmt_u64(mag);
        r.append(&mut d);
        proof {
            assert(r@ =~= seq![45u8] + spec_digits((-(v as int)) as nat));
        }
        r
    } else {
        fmt_u64(v as u64)
    }
}

/// `s` left-padded with `fill` up to `width`.
pub open spec fn spec_pad_left(s: Seq<u8>, width: nat, fill: u8) -> Seq<u8> {
    if s.len() >= width {
        s
    } else {
        Seq::new((width - s.len()) as nat, |i: int| fill) + s
    }
}

/// `s` right-padded with `fill` up to `width`.
pub open spec fn spec_pad_right(s: Seq<u8>, width: nat, fill: u8) -> Seq<u8> {
    if s.len() >= width {
        s
    } else {
        s + Seq::new((width - s.len()) as nat, |i: int| fill)
    }
}

pub fn pad_left(v: Vec<u8>, width: usize, fill: u8) -> (r: Vec<u8>)
    ensures
        r@ == spec_pad_left(v@, width as nat, fill),
{
    let vlen: usize = v.len();
    if vlen >= width {
        return v;
    }
    let mut r: Vec<u8> = Vec::new();
    let n: usize = width - vlen;
    let mut i: usize = 0;
    while i < n
        invariant
            0 <= i <= n,
            r@ =~= Seq::new(i as nat, |j: int| fill),
        decreases n - i,
    {
        r.push(fill);
        i = i + 1;
    }
    let mut tail = v;
    r.append(&mut tail);
    proof {
        assert(r@ =~= spec_pad_left(v@, width as nat, fill));
    }
    r
}

pub fn pad_right(v: Vec<u8>, width: usize, fill: u8) -> (r: Vec<u8>)
    ensures
        r@ == spec_pad_right(v@, width as nat, fill),
{
    let vlen: usize = v.len();
    let ghost v0 = v@;
    let mut r = v;
    if vlen >= width {
        return r;
    }
    let mut i: usize = vlen;
    while i < width
        invariant
            vlen <= i <= width,
            vlen == v0.len(),
            r@ =~= v0 + Seq::new((i - vlen) as nat, |j: int| fill),
        decreases width - i,
    {
        r.push(fill);
        i = i + 1;
    }
    r
}


/// Index of the first whitespace byte, or the length.
pub open spec fn spec_find_ws(s: Seq<u8>) -> nat
    decreases s.len(),
{
    if s.len() == 0 {
        0
    } else if spec_is_ws(s[0]) {
        0
    } else {
        1 + spec_find_ws(s.subrange(1, s.len() as int))
    }
}

pub proof fn lemma_find_ws(s: Seq<u8>)
    ensures
        spec_find_ws(s) <= s.len(),
        forall|i: int| 0 <= i < spec_find_ws(s) ==> !spec_is_ws(#[trigger] s[i]),
        spec_find_ws(s) < s.len() ==> spec_is_ws(s[spec_find_ws(s) as int]),
    decreases s.len(),
{
    if s.len() > 0 && !spec_is_ws(s[0]) {
        let s1 = s.subrange(1, s.len() as int);
        lemma_find_ws(s1);
        assert forall|i: int| 0 <= i < spec_find_ws(s) implies !spec_is_ws(s[i]) by {
            if i >= 1 {
                assert(s[i] == s1[i - 1]);
            }
        }
    }
}

pub proof fn lemma_find_ws_at(s: Seq<u8>, k: int)
    requires
        0 <= k <= s.len(),
        forall|i: int| 0 <= i < k ==> !spec_is_ws(#[trigger] s[i]),
        k < s.len() ==> spec_is_ws(s[k]),
    ensures
        spec_find_ws(s) == k,
    decreases s.len(),
{
    if s.len() > 0 && !spec_is_ws(s[0]) {
        let s1 = s.subrange(1, s.len() as int);
        assert(k >= 1);
        lemma_find_ws_at(s1, k - 1);
    }
}

/// The whitespace-separated tokens of a byte string, in order.
pub open spec fn spec_tokens(s: Seq<u8>) -> Seq<Seq<u8>>
    decreases s.len(),
    via spec_tokens_decreases
{
    if s.len() == 0 {
        Seq::empty()
    } else if spec_is_ws(s[0]) {
        spec_tokens(s.subrange(1, s.len() as int))
    } else {
        let k = spec_find_ws(s) as int;
        seq![s.subrange(0, k)] + spec_tokens(s.subrange(k, s.len() as int))
    }
}

#[via_fn]
proof fn spec_tokens_decreases(s: Seq<u8>) {
    if s.len() > 0 && !spec_is_ws(s[0]) {
        lemma_find_ws(s);
        assert(spec_find_ws(s) >= 1);
    }
}

/// Splits into whitespace-separated tokens, as the epoch fields are
/// laid out.
pub fn split_ws(s: &[u8]) -> (r: Vec<Vec<u8>>)
    ensures
        r.deep_view() == spec_tokens(s@),
{
    let len: usize = s.len();
    let mut r: Vec<Vec<u8>> = Vec::new();
    let mut i: usize = 0;
    proof {
        assert(s@.subrange(0, len as int) =~= s@);
    }
    while i < len
        invariant
            0 <= i <= len,
            len == s@.len(),
            r.deep_view() + spec_tokens(s@.subrange(i as int, len as int)) =~~= spec_tokens(s@),
        decreases len - i,
    {
        if is_ws(s[i]) {
            proof {
                let t = s@.subrange(i as int, len as int);
                assert(t.subrange(1, t.len() as int) =~= s@.subrange(i + 1, len as int));
            }
            i = i + 1;
        } else {
            let mut j: usize = i + 1;
            while j < len && !is_ws(s[j])
                invariant
                    i < j <= len,
                    len == s@.len(),
                    forall|q: int| i <= q < j ==> !spec_is_ws(#[trigger] s@[q]),
                decreases len - j,
            {
                j = j + 1;
            }
            let mut tok: Vec<u8> = Vec::new();
            let mut q: usize = i;
            while q < j
                invariant
                    i <= q <= j <= len,
                    len == s@.len(),
                    tok@ =~= s@.subrange(i as int, q as int),
                decreases j - q,
            {
                tok.push(s[q]);
                proof {
                    assert(tok@ =~= s@.subrange(i as int, q + 1));
                }
                q = q + 1;
            }
            proof {
                let t = s@.subrange(i as int, len as int);
                assert forall|w: int| 0 <= w < (j - i) implies !spec_is_ws(#[trigger] t[w]) by {
                    assert(t[w] == s@[i + w]);
                }
                if (j - i) < t.len() {
                    assert(t[(j - i) as int] == s@[j as int]);
                }
                lemma_find_ws_at(t, j - i);
                assert(t.subrange(0, j - i) =~= s@.subrange(i as int, j as int));
                assert(t.subrange(j - i, t.len() as int) =~= s@.subrange(j as int, len as int));
                assert(tok@ == s@.subrange(i as int, j as int));
            }
            r.push(tok);
            proof {
                assert(r.deep_view() + spec_tokens(s@.subrange(j as int, len as int)) =~~= spec_tokens(
                    s@,
                ));
            }
            i = j;
        }
    }
    proof {
        assert(spec_tokens(s@.subrange(len as int, len as int)) =~= Seq::<Seq<u8>>::empty());
        assert(r.deep_view() =~~= spec_tokens(s@));
    }
    r
}


/// Concrete small powers of ten.
pub proof fn lemma_pow10_small()
    ensures
        pow10(1) == 10,
        pow10(2) == 100,
        pow10(3) == 1000,
        pow10(4) == 10000,
        pow10(5) == 100000,
        pow10(6) == 1000000,
        pow10(7) == 10000000,
        pow10(8) == 100000000,
        pow10(9) == 1000000000,
        pow10(10) == 10000000000,
{
    assert(pow10(0) == 1);
    assert(pow10(1) == 10);
    assert(pow10(2) == 100);
    assert(pow10(3) == 1000);
    assert(pow10(4) == 10000);
    assert(pow10(5) == 100000);
    assert(pow10(6) == 1000000);
    assert(pow10(7) == 10000000);
    assert(pow10(8) == 100000000);
    assert(pow10(9) == 1000000000);
    assert(pow10(10) == 10000000000);
}

/// Peels one token off a byte string: whitespace up to `a`, a token
/// on `[a, b)`, and a separator (or the end) at `b`.
pub proof fn lemma_tokens_step(s: Seq<u8>, a: int, b: int)
    requires
        0 <= a < b <= s.len(),
        forall|i: int| 0 <= i < a ==> spec_is_ws(#[trigger] s[i]),
        forall|i: int| a <= i < b ==> !spec_is_ws(#[trigger] s[i]),
        b < s.len() ==> spec_is_ws(s[b]),
    ensures
        spec_tokens(s) == seq![s.subrange(a, b)] + spec_tokens(s.subrange(b, s.len() as int)),
    decreases a,
{
    if a == 0 {
        lemma_find_ws_at(s, b);
    } else {
        let s1 = s.subrange(1, s.len() as int);
        lemma_tokens_step(s1, a - 1, b - 1);
        assert(s1.subrange(a - 1, b - 1) =~= s.subrange(a, b));
        assert(s1.subrange(b - 1, s1.len() as int) =~= s.subrange(b, s.len() as int));
    }
}


/// A digit string's value is bounded by ten to its length.
pub proof fn lemma_digits_val_bound(s: Seq<u8>)
    requires
        all_digits(s),
    ensures
        digits_val(s) < pow10(s.len()),
    decreases s.len(),
{
    if s.len() == 0 {
    } else {
        lemma_digits_val_bound(s.drop_last());
        assert(spec_is_digit(s.last()));
        assert(pow10(s.len()) == 10 * pow10((s.len() - 1) as nat));
    }
}

/// Zero-padding the digits of a digit string's value reproduces the
/// string: fixed-width digit fields are canonical.
pub proof fn lemma_canonical_digits(s: Seq<u8>)
    requires
        all_digits(s),
        s.len() >= 1,
    ensures
        spec_digits(digits_val(s)).len() <= s.len(),
        spec_pad_left(spec_digits(digits_val(s)), s.len() as nat, 48) == s,
    decreases s.len(),
{
    lemma_digits_val_bound(s);
    lemma_spec_digits_len(digits_val(s), s.len() as nat);
    lemma_spec_digits(digits_val(s));
    let v = digits_val(s);
    let d = spec_digits(v);
    if s.len() == 1 {
        assert(s.drop_last() =~= Seq::<u8>::empty());
        assert(v == (s[0] - 48));
        assert(d =~= seq![s[0]]);
        assert(spec_pad_left(d, 1, 48) =~= s);
    } else if s[0] == 48 {
        let s1 = s.subrange(1, s.len() as int);
        assert(seq![48u8] + s1 =~= s);
        lemma_digits_val_zero_pad(seq![48u8], s1);
        lemma_canonical_digits(s1);
        assert(digits_val(s1) == v);
        assert(spec_pad_left(d, s.len() as nat, 48) =~= seq![48u8] + spec_pad_left(
            d,
            (s.len() - 1) as nat,
            48,
        ));
        assert(spec_pad_left(d, s.len() as nat, 48) =~= s);
    } else {
        // nonzero leading digit: the digits are exactly the string
        let init = s.drop_last();
        let last = s.last();
        lemma_canonical_digits(init);
        lemma_digits_val_bound(init);
        // the initial value keeps its nonzero leading digit, so its
        // digits already fill the width
        let vi = digits_val(init);
        let di = spec_digits(vi);
        lemma_spec_digits(vi);
        assert(di.len() == init.len()) by {
            if di.len() < init.len() {
                assert(spec_pad_left(di, init.len() as nat, 48)[0] == 48);
            }
        }
        assert(di == init);
        assert(v == vi * 10 + (last - 48));
        assert(vi >= 1) by {
            if vi == 0 {
                assert(di =~= seq![48u8]);
                assert(init[0] == 48);
            }
        }
        assert(v >= 10);
        assert(v / 10 == vi && v % 10 == (last - 48)) by {
            vstd::arithmetic::div_mod::lemma_fundamental_div_mod_converse(
                v as int,
                10,
                vi as int,
                (last - 48) as int,
            );
        }
        assert(d == spec_digits(v / 10).push((48 + v % 10) as u8));
        assert(d =~= s);
        assert(spec_pad_left(d, s.len() as nat, 48) == s);
    }
}


/// Trimming never lengthens a byte string.
pub proof fn lemma_trim_len(s: Seq<u8>)
    ensures
        spec_trim(s).len() <= s.len(),
    decreases s.len(),
{
    if s.len() > 0 {
        if spec_is_ws(s[0]) {
            lemma_trim_len(s.subrange(1, s.len() as int));
        } else if spec_is_ws(s[s.len() - 1]) {
            lemma_trim_len(s.subrange(0, s.len() - 1));
        }
    }
}

/// Trimming is idempotent: a trimmed string has no blank edges left.
pub proof fn lemma_trim_idempotent(s: Seq<u8>)
    ensures
        spec_trim(spec_trim(s)) == spec_trim(s),
    decreases s.len(),
{
    if s.len() == 0 {
    } else if spec_is_ws(s[0]) {
        lemma_trim_idempotent(s.subrange(1, s.len() as int));
    } else if spec_is_ws(s[s.len() - 1]) {
        lemma_trim_idempotent(s.subrange(0, s.len() - 1));
    }
}

/// A non-empty string equal to its own trim has no blank edges.
pub proof fn lemma_trim_edges(s: Seq<u8>)
    requires
        spec_trim(s) == s,
        s.len() > 0,
    ensures
        !spec_is_ws(s[0]),
        !spec_is_ws(s[s.len() - 1]),
{
    if spec_is_ws(s[0]) {
        lemma_trim_len(s.subrange(1, s.len() as int));
    } else if spec_is_ws(s[s.len() - 1]) {
        lemma_trim_len(s.subrange(0, s.len() - 1));
    }
}

/// Signed decimal text of a value is what signed parsing accepts,
/// and parses back to the value; its bytes are digits and at most
/// one leading minus sign.
pub proof fn lemma_spec_int_digits(v: int)
    ensures
        is_int_text(spec_int_digits(v)),
        int_text_val(spec_int_digits(v)) == v,
        forall|i: int|
            0 <= i < spec_int_digits(v).len() ==> !spec_is_ws(#[trigger] spec_int_digits(v)[i]),
        v >= 0 ==> spec_int_digits(v) == spec_digits(v as nat),
        v < 0 ==> spec_int_digits(v).len() == 1 + spec_digits((-v) as nat).len(),
{
    if v >= 0 {
        lemma_spec_digits(v as nat);
        let d = spec_digits(v as nat);
        assert(d[0] != 43 && d[0] != 45);
        assert forall|i: int|
            0 <= i < spec_int_digits(v).len() implies !spec_is_ws(
            #[trigger] spec_int_digits(v)[i],
        ) by {
            assert(spec_is_digit(d[i]));
        }
    } else {
        lemma_spec_digits((-v) as nat);
        let d = spec_digits((-v) as nat);
        let s = spec_int_digits(v);
        assert(s == seq![45u8] + d);
        assert(s[0] == 45);
        assert(s.subrange(1, s.len() as int) =~= d);
        assert forall|i: int| 0 <= i < s.len() implies !spec_is_ws(#[trigger] s[i]) by {
            if i >= 1 {
                assert(s[i] == d[i - 1]);
                assert(spec_is_digit(d[i - 1]));
            }
        }
    }
}


/// A zero-padded digit rendering is digit text for both signed and
/// unsigned parsing, with the rendered value.
pub proof fn lemma_zero_padded_value(v: nat, w: nat)
    ensures
        all_digits(spec_pad_left(spec_digits(v), w, 48)),
        is_uint_text(spec_pad_left(spec_digits(v), w, 48)),
        uint_text_val(spec_pad_left(spec_digits(v), w, 48)) == v,
        is_int_text(spec_pad_left(spec_digits(v), w, 48)),
        int_text_val(spec_pad_left(spec_digits(v), w, 48)) == v,
        spec_pad_left(spec_digits(v), w, 48).len() >= w,
        spec_pad_left(spec_digits(v), w, 48).len() >= 1,
{
    lemma_spec_digits(v);
    let d = spec_digits(v);
    let p = spec_pad_left(d, w, 48);
    assert forall|i: int| 0 <= i < p.len() implies spec_is_digit(#[trigger] p[i]) by {
        if d.len() < w && i >= w - d.len() {
            assert(p[i] == d[i - (w - d.len())]);
        }
    }
    if d.len() < w {
        let z = Seq::new((w - d.len()) as nat, |i: int| 48u8);
        assert(p == z + d);
        lemma_digits_val_zero_pad(z, d);
    }
    assert(p[0] != 43 && p[0] != 45) by {
        assert(spec_is_digit(p[0]));
    }
}


/// Powers of ten multiply by adding exponents.
pub proof fn lemma_pow10_add(a: nat, b: nat)
    ensures
        pow10(a) * pow10(b) == pow10(a + b),
    decreases a,
{
    if a > 0 {
        let x = pow10((a - 1) as nat);
        lemma_pow10_add((a - 1) as nat, b);
        assert(x * pow10(b) == pow10((a - 1 + b) as nat));
        assert(pow10(a) == 10 * x);
        assert(pow10(a) * pow10(b) == 10 * (x * pow10(b))) by (nonlinear_arith)
            requires
                pow10(a) == 10 * x,
        ;
        assert((a - 1 + b) as nat == (a + b - 1) as nat);
        assert(pow10((a + b) as nat) == 10 * pow10((a + b - 1) as nat));
        assert(pow10(a) * pow10(b) == 10 * pow10((a + b - 1) as nat));
        assert(pow10(a) * pow10(b) == pow10(a + b));
    } else {
        assert(pow10(a) == 1);
        assert(pow10(a) * pow10(b) == pow10(b)) by (nonlinear_arith)
            requires
                pow10(a) == 1,
        ;
    }
}

/// Unsigned integer text is bounded by ten to its length.
pub proof fn lemma_uint_text_val_bound(s: Seq<u8>)
    requires
        is_uint_text(s),
    ensures
        uint_text_val(s) < pow10(s.len()),
{
    if s.len() > 0 && s[0] == 43 {
        let d = s.subrange(1, s.len() as int);
        lemma_digits_val_bound(d);
        lemma_pow10_mono(d.len(), s.len());
    } else {
        lemma_digits_val_bound(s);
    }
}

} // verus!
