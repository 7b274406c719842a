//! DOMES site identifiers: the nine-character IERS site codes
//! carried by every ground station description.

use vstd::prelude::*;

use crate::errors::ParsingError;
use crate::text::{
    all_digits, digits_val, is_digit, lemma_canonical_digits, lemma_digits_val_bound,
    lemma_pow10_small, pad_left, parse_u64_digits, fmt_u64, spec_digits, spec_pad_left,
};

verus! {

/// Kind of point a DOMES number tracks.
#[derive(Debug, Clone, Copy, PartialEq, Eq, Structural, Hash)]
pub enum DOMESTrackingPoint {
    /// The instrument reference point itself (letter `S`).
    Instrument,
    /// A ground monument (letter `M`).
    Monument,
}

/// An IERS DOMES site identifier `AAASSPNNN`: area (3 digits), site
/// within the area (2 digits), tracking point letter, and sequential
/// point number (3 digits).
#[derive(Debug, Clone, Copy, PartialEq, Eq, Structural, Hash)]
pub struct DOMES {
    /// Geographic area code, up to three digits.
    pub area: u16,
    /// Site number within the area, up to two digits.
    pub site: u8,
    /// Sequential point number, up to three digits.
    pub sequential: u16,
    /// Tracked point kind.
    pub point: DOMESTrackingPoint,
}

impl DOMES {
    /// The fields fit the nine-character text form.
    pub open spec fn wf(self) -> bool {
        self.area <= 999 && self.site <= 99 && self.sequential <= 999
    }
}

/// DOMES identifier denoted by trimmed text, if any.
pub open spec fn spec_parse_domes(s: Seq<u8>) -> Result<DOMES, ParsingError> {
    if s.len() == 9 && all_digits(s.subrange(0, 3)) && all_digits(s.subrange(3, 5)) && (s[5] == 83
        || s[5] == 77) && all_digits(s.subrange(6, 9)) {
        Ok(
            DOMES {
                area: digits_val(s.subrange(0, 3)) as u16,
                site: digits_val(s.subrange(3, 5)) as u8,
                sequential: digits_val(s.subrange(6, 9)) as u16,
                point: if s[5] == 83 {
                    DOMESTrackingPoint::Instrument
                } else {
                    DOMESTrackingPoint::Monument
                },
            },
        )
    } else {
        Err(ParsingError::DOMES)
    }
}

/// The nine-character text of a DOMES identifier.
pub open spec fn spec_format_domes(d: DOMES) -> Seq<u8> {
    spec_pad_left(spec_digits(d.area as nat), 3, 48) + spec_pad_left(
        spec_digits(d.site as nat),
        2,
        48,
    ) + seq![
        if d.point == DOMESTrackingPoint::Instrument {
            83u8
        } else {
            77u8
        },
    ] + spec_pad_left(spec_digits(d.sequential as nat), 3, 48)
}

impl DOMES {
    /// Parses a DOMES identifier from its nine-character form.
    pub fn parse(s: &[u8]) -> (r: Result<DOMES, ParsingError>)
        ensures
            r == spec_parse_domes(s@),
            r matches Ok(d) ==> d.wf(),
    {
        if s.len() != 9 {
            return Err(ParsingError::DOMES);
        }
        let mut i: usize = 0;
        while i < 9
            invariant
                0 <= i <= 9,
                s@.len() == 9,
                forall|k: int| 0 <= k < i && k != 5 ==> crate::text::spec_is_digit(#[trigger] s@[k]),
            decreases 9 - i,
        {
            if i != 5 && !is_digit(s[i]) {
                proof {
                    if all_digits(s@.subrange(0, 3)) && all_digits(s@.subrange(3, 5)) && all_digits(
                        s@.subrange(6, 9),
                    ) {
                        if i < 3 {
                            assert(s@.subrange(0, 3)[i as int] == s@[i as int]);
                        } else if i < 5 {
                            assert(s@.subrange(3, 5)[i - 3] == s@[i as int]);
                        } else {
                            assert(s@.subrange(6, 9)[i - 6] == s@[i as int]);
                        }
                    }
                }
                return Err(ParsingError::DOMES);
            }
            i = i + 1;
        }
        if s[5] != 83 && s[5] != 77 {
            return Err(ParsingError::DOMES);
        }
        proof {
            assert(all_digits(s@.subrange(0, 3)));
            assert(all_digits(s@.subrange(3, 5)));
            assert(all_digits(s@.subrange(6, 9)));
            lemma_digits_val_bound(s@.subrange(0, 3));
            lemma_digits_val_bound(s@.subrange(3, 5));
            lemma_digits_val_bound(s@.subrange(6, 9));
            lemma_pow10_small();
        }
        let area_s: &[u8] = &s[0..3];
        let site_s: &[u8] = &s[3..5];
        let seq_s: &[u8] = &s[6..9];
        let area: u64 = parse_u64_digits(area_s).unwrap();
        let site: u64 = parse_u64_digits(site_s).unwrap();
        let sequential: u64 = parse_u64_digits(seq_s).unwrap();
        Ok(
            DOMES {
                area: area as u16,
                site: site as u8,
                sequential: sequential as u16,
                point: if s[5] == 83 {
                    DOMESTrackingPoint::Instrument
                } else {
                    DOMESTrackingPoint::Monument
                },
            },
        )
    }

    /// Formats this DOMES identifier in its nine-character form.
    pub fn format(&self) -> (r: Vec<u8>)
        requires
            self.wf(),
        ensures
            r@ == spec_format_domes(*self),
    {
        let mut out: Vec<u8> = pad_left(fmt_u64(self.area as u64), 3, 48);
        let mut p = pad_left(fmt_u64(self.site as u64), 2, 48);
        out.append(&mut p);
        match self.point {
            DOMESTrackingPoint::Instrument => {
                out.push(83);
            },
            DOMESTrackingPoint::Monument => {
                out.push(77);
            },
        }
        let mut p = pad_left(fmt_u64(self.sequential as u64), 3, 48);
        out.append(&mut p);
        proof {
            assert(out@ =~= spec_format_domes(*self));
        }
        out
    }
}

/// Formatting a well-formed DOMES identifier and parsing it back
/// returns the identifier.
pub proof fn lemma_domes_round_trip(d: DOMES)
    requires
        d.wf(),
    ensures
        spec_parse_domes(spec_format_domes(d)) == Ok::<DOMES, ParsingError>(d),
{
    lemma_pow10_small();
    let pa = spec_pad_left(spec_digits(d.area as nat), 3, 48);
    let ps = spec_pad_left(spec_digits(d.site as nat), 2, 48);
    let pq = spec_pad_left(spec_digits(d.sequential as nat), 3, 48);
    crate::text::lemma_spec_digits(d.area as nat);
    crate::text::lemma_spec_digits(d.site as nat);
    crate::text::lemma_spec_digits(d.sequential as nat);
    crate::text::lemma_spec_digits_len(d.area as nat, 3);
    crate::text::lemma_spec_digits_len(d.site as nat, 2);
    crate::text::lemma_spec_digits_len(d.sequential as nat, 3);
    lemma_all_digits_pad(spec_digits(d.area as nat), 3);
    lemma_all_digits_pad(spec_digits(d.site as nat), 2);
    lemma_all_digits_pad(spec_digits(d.sequential as nat), 3);
    let f = spec_format_domes(d);
    assert(pa.len() == 3 && ps.len() == 2 && pq.len() == 3);
    assert(f.len() == 9);
    assert(f.subrange(0, 3) =~= pa);
    assert(f.subrange(3, 5) =~= ps);
    assert(f.subrange(6, 9) =~= pq);
    lemma_pad_val(spec_digits(d.area as nat), 3, d.area as nat);
    lemma_pad_val(spec_digits(d.site as nat), 2, d.site as nat);
    lemma_pad_val(spec_digits(d.sequential as nat), 3, d.sequential as nat);
}

/// Zero-padding digits keeps every byte a digit.
proof fn lemma_all_digits_pad(dg: Seq<u8>, w: nat)
    requires
        all_digits(dg),
    ensures
        all_digits(spec_pad_left(dg, w, 48)),
        spec_pad_left(dg, w, 48).len() >= w,
{
    let p = spec_pad_left(dg, w, 48);
    assert forall|i: int| 0 <= i < p.len() implies crate::text::spec_is_digit(#[trigger] p[i]) by {
        if dg.len() < w && i >= w - dg.len() {
            assert(p[i] == dg[i - (w - dg.len())]);
        }
    }
}

/// Zero-padded digits keep their value.
proof fn lemma_pad_val(dg: Seq<u8>, w: nat, v: nat)
    requires
        dg == spec_digits(v),
    ensures
        digits_val(spec_pad_left(dg, w, 48)) == v,
{
    crate::text::lemma_spec_digits(v);
    if dg.len() < w {
        let z = Seq::new((w - dg.len()) as nat, |i: int| 48u8);
        assert(spec_pad_left(dg, w, 48) == z + dg);
        crate::text::lemma_digits_val_zero_pad(z, dg);
    }
}

/// Parsing any nine-character DOMES text and formatting the result
/// reproduces the text.
pub proof fn lemma_domes_text_round_trip(s: Seq<u8>)
    requires
        spec_parse_domes(s) is Ok,
    ensures
        spec_format_domes(spec_parse_domes(s)->Ok_0) == s,
{
    let d = spec_parse_domes(s)->Ok_0;
    lemma_pow10_small();
    let sa = s.subrange(0, 3);
    let ss = s.subrange(3, 5);
    let sq = s.subrange(6, 9);
    lemma_canonical_digits(sa);
    lemma_canonical_digits(ss);
    lemma_canonical_digits(sq);
    lemma_digits_val_bound(sa);
    lemma_digits_val_bound(ss);
    lemma_digits_val_bound(sq);
    assert(spec_format_domes(d) =~= s);
}


/// The formatted DOMES text has nine bytes, none of them blank.
pub proof fn lemma_format_domes_bytes(d: DOMES)
    requires
        d.wf(),
    ensures
        spec_format_domes(d).len() == 9,
        forall|i: int|
            0 <= i < 9 ==> !crate::text::spec_is_ws(#[trigger] spec_format_domes(d)[i]),
{
    crate::text::lemma_pow10_small();
    crate::text::lemma_spec_digits(d.area as nat);
    crate::text::lemma_spec_digits(d.site as nat);
    crate::text::lemma_spec_digits(d.sequential as nat);
    crate::text::lemma_spec_digits_len(d.area as nat, 3);
    crate::text::lemma_spec_digits_len(d.site as nat, 2);
    crate::text::lemma_spec_digits_len(d.sequential as nat, 3);
    crate::text::lemma_zero_padded_value(d.area as nat, 3);
    crate::text::lemma_zero_padded_value(d.site as nat, 2);
    crate::text::lemma_zero_padded_value(d.sequential as nat, 3);
    let pa = spec_pad_left(spec_digits(d.area as nat), 3, 48);
    let ps = spec_pad_left(spec_digits(d.site as nat), 2, 48);
    let pq = spec_pad_left(spec_digits(d.sequential as nat), 3, 48);
    let f = spec_format_domes(d);
    assert(pa.len() == 3 && ps.len() == 2 && pq.len() == 3);
    assert forall|i: int| 0 <= i < 9 implies !crate::text::spec_is_ws(#[trigger] f[i]) by {
        if i < 3 {
            assert(f[i] == pa[i]);
        } else if i < 5 {
            assert(f[i] == ps[i - 3]);
        } else if i == 5 {
        } else {
            assert(f[i] == pq[i - 6]);
        }
    }
}

/// A parsed DOMES identifier is well-formed: its fields come from
/// fixed-width digit groups.
pub proof fn lemma_spec_parse_domes_wf(s: Seq<u8>)
    ensures
        spec_parse_domes(s) matches Ok(d) ==> d.wf(),
{
    if spec_parse_domes(s) is Ok {
        lemma_pow10_small();
        lemma_digits_val_bound(s.subrange(0, 3));
        lemma_digits_val_bound(s.subrange(3, 5));
        lemma_digits_val_bound(s.subrange(6, 9));
    }
}

} // verus!
