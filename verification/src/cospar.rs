//! COSPAR launch identifiers (`YYYY-NNNP`): the international
//! designator of the satellite launch, carried by the header.

use vstd::prelude::*;

use crate::errors::ParsingError;
use crate::text::{
    all_digits, digits_val, fmt_u64, is_digit, lemma_canonical_digits, lemma_digits_val_bound,
    lemma_pow10_small, pad_left, parse_u64_digits, spec_digits, spec_pad_left,
};

verus! {

/// A COSPAR international designator: launch year, launch number of
/// that year, and the piece letters.
#[derive(Debug, Clone, Hash)]
pub struct COSPAR {
    /// Four-digit launch year.
    pub year: u16,
    /// Three-digit launch number within the year.
    pub launch: u16,
    /// Piece letters, `A` through `Z`, at least one.
    pub piece: Vec<u8>,
}

/// Spec-level image of a COSPAR identifier.
#[verifier::ext_equal]
pub struct COSPARView {
    pub year: u16,
    pub launch: u16,
    pub piece: Seq<u8>,
}

impl View for COSPAR {
    type V = COSPARView;

    open spec fn view(&self) -> COSPARView {
        COSPARView { year: self.year, launch: self.launch, piece: self.piece@ }
    }
}

impl COSPARView {
    pub open spec fn wf(self) -> bool {
        self.year <= 9999 && self.launch <= 999 && self.piece.len() >= 1 && forall|i: int|
            0 <= i < self.piece.len() ==> 65 <= #[trigger] self.piece[i] <= 90
    }
}

/// COSPAR identifier denoted by trimmed text: four digits, a dash,
/// three digits, then piece letters.
pub open spec fn spec_parse_cospar(s: Seq<u8>) -> Result<COSPARView, ParsingError> {
    if s.len() >= 9 && all_digits(s.subrange(0, 4)) && s[4] == 45 && all_digits(s.subrange(5, 8))
        && (forall|i: int| 8 <= i < s.len() ==> 65 <= #[trigger] s[i] <= 90) {
        Ok(
            COSPARView {
                year: digits_val(s.subrange(0, 4)) as u16,
                launch: digits_val(s.subrange(5, 8)) as u16,
                piece: s.subrange(8, s.len() as int),
            },
        )
    } else {
        Err(ParsingError::COSPAR)
    }
}

/// Canonical text of a COSPAR identifier.
pub open spec fn spec_format_cospar(c: COSPARView) -> Seq<u8> {
    spec_pad_left(spec_digits(c.year as nat), 4, 48) + seq![45u8] + spec_pad_left(
        spec_digits(c.launch as nat),
        3,
        48,
    ) + c.piece
}

impl COSPAR {
    /// Parses a COSPAR identifier from trimmed text.
    pub fn parse(s: &[u8]) -> (r: Result<COSPAR, ParsingError>)
        ensures
            match r {
                Ok(c) => spec_parse_cospar(s@) == Ok::<COSPARView, ParsingError>(c@) && c@.wf(),
                Err(e) => spec_parse_cospar(s@) == Err::<COSPARView, ParsingError>(e),
            },
    {
        let len: usize = s.len();
        if len < 9 {
            return Err(ParsingError::COSPAR);
        }
        let mut i: usize = 0;
        while i < 8
            invariant
                0 <= i <= 8,
                s@.len() == len,
                len >= 9,
                forall|k: int| 0 <= k < i && k != 4 ==> crate::text::spec_is_digit(#[trigger] s@[k]),
            decreases 8 - i,
        {
            if i != 4 && !is_digit(s[i]) {
                proof {
                    if all_digits(s@.subrange(0, 4)) && all_digits(s@.subrange(5, 8)) {
                        if i < 4 {
                            assert(s@.subrange(0, 4)[i as int] == s@[i as int]);
                        } else {
                            assert(s@.subrange(5, 8)[i - 5] == s@[i as int]);
                        }
                    }
                }
                return Err(ParsingError::COSPAR);
            }
            i = i + 1;
        }
        if s[4] != 45 {
            return Err(ParsingError::COSPAR);
        }
        let mut piece: Vec<u8> = Vec::new();
        let mut j: usize = 8;
        while j < len
            invariant
                8 <= j <= len,
                s@.len() == len,
                piece@ =~= s@.subrange(8, j as int),
                forall|k: int| 8 <= k < j ==> 65 <= #[trigger] s@[k] <= 90,
            decreases len - j,
        {
            let b: u8 = s[j];
            if b < 65 || b > 90 {
                return Err(ParsingError::COSPAR);
            }
            piece.push(b);
            proof {
                assert(piece@ =~= s@.subrange(8, j + 1));
            }
            j = j + 1;
        }
        proof {
            assert(all_digits(s@.subrange(0, 4)));
            assert(all_digits(s@.subrange(5, 8)));
            lemma_digits_val_bound(s@.subrange(0, 4));
            lemma_digits_val_bound(s@.subrange(5, 8));
            lemma_pow10_small();
        }
        let year_s: &[u8] = &s[0..4];
        let launch_s: &[u8] = &s[5..8];
        let year: u64 = parse_u64_digits(year_s).unwrap();
        let launch: u64 = parse_u64_digits(launch_s).unwrap();
        Ok(COSPAR { year: year as u16, launch: launch as u16, piece })
    }

    /// Formats this COSPAR identifier canonically.
    pub fn format(&self) -> (r: Vec<u8>)
        requires
            self@.wf(),
        ensures
            r@ == spec_format_cospar(self@),
    {
        let mut out: Vec<u8> = pad_left(fmt_u64(self.year as u64), 4, 48);
        out.push(45);
        let mut p = pad_left(fmt_u64(self.launch as u64), 3, 48);
        out.append(&mut p);
        let mut q: usize = 0;
        let plen: usize = self.piece.len();
        let ghost mid = out@;
        while q < plen
            invariant
                0 <= q <= plen,
                plen == self.piece@.len(),
                out@ =~= mid + self.piece@.subrange(0, q as int),
            decreases plen - q,
        {
            out.push(self.piece[q]);
            proof {
                assert(out@ =~= mid + self.piece@.subrange(0, q + 1));
            }
            q = q + 1;
        }
        proof {
            assert(self.piece@.subrange(0, plen as int) =~= self.piece@);
            assert(out@ =~= spec_format_cospar(self@));
        }
        out
    }
}

impl PartialEq for COSPAR {
    fn eq(&self, other: &COSPAR) -> (r: bool)
        ensures
            r == (self.year == other.year && self.launch == other.launch && self.piece@
                == other.piece@),
    {
        self.year == other.year && self.launch == other.launch && crate::text::bytes_eq(
            self.piece.as_slice(),
            other.piece.as_slice(),
        )
    }
}

impl vstd::std_specs::cmp::PartialEqSpecImpl for COSPAR {
    open spec fn obeys_eq_spec() -> bool {
        true
    }

    open spec fn eq_spec(&self, other: &COSPAR) -> bool {
        self.year == other.year && self.launch == other.launch && self.piece@ == other.piece@
    }
}

/// Formatting a well-formed COSPAR identifier and parsing it back
/// returns the identifier.
pub proof fn lemma_cospar_round_trip(c: COSPARView)
    requires
        c.wf(),
    ensures
        spec_parse_cospar(spec_format_cospar(c)) == Ok::<COSPARView, ParsingError>(c),
{
    lemma_pow10_small();
    let py = spec_pad_left(spec_digits(c.year as nat), 4, 48);
    let pl = spec_pad_left(spec_digits(c.launch as nat), 3, 48);
    crate::text::lemma_spec_digits(c.year as nat);
    crate::text::lemma_spec_digits(c.launch as nat);
    crate::text::lemma_spec_digits_len(c.year as nat, 4);
    crate::text::lemma_spec_digits_len(c.launch as nat, 3);
    let f = spec_format_cospar(c);
    assert(py.len() == 4 && pl.len() == 3);
    assert(f.len() == 8 + c.piece.len());
    assert forall|i: int| 0 <= i < 4 implies crate::text::spec_is_digit(#[trigger] py[i]) by {
        if i >= 4 - spec_digits(c.year as nat).len() {
            assert(py[i] == spec_digits(c.year as nat)[i - (4 - spec_digits(
                c.year as nat,
            ).len())]);
        }
    }
    assert forall|i: int| 0 <= i < 3 implies crate::text::spec_is_digit(#[trigger] pl[i]) by {
        if i >= 3 - spec_digits(c.launch as nat).len() {
            assert(pl[i] == spec_digits(c.launch as nat)[i - (3 - spec_digits(
                c.launch as nat,
            ).len())]);
        }
    }
    assert(f.subrange(0, 4) =~= py);
    assert(f.subrange(5, 8) =~= pl);
    assert(f.subrange(8, f.len() as int) =~= c.piece);
    if spec_digits(c.year as nat).len() < 4 {
        let z = Seq::new((4 - spec_digits(c.year as nat).len()) as nat, |i: int| 48u8);
        assert(py == z + spec_digits(c.year as nat));
        crate::text::lemma_digits_val_zero_pad(z, spec_digits(c.year as nat));
    }
    if spec_digits(c.launch as nat).len() < 3 {
        let z = Seq::new((3 - spec_digits(c.launch as nat).len()) as nat, |i: int| 48u8);
        assert(pl == z + spec_digits(c.launch as nat));
        crate::text::lemma_digits_val_zero_pad(z, spec_digits(c.launch as nat));
    }
    assert(spec_parse_cospar(f) matches Ok(v) && v =~= c);
}

/// Parsing well-formed COSPAR text and formatting the result
/// reproduces the text.
pub proof fn lemma_cospar_text_round_trip(s: Seq<u8>)
    requires
        spec_parse_cospar(s) is Ok,
    ensures
        spec_format_cospar(spec_parse_cospar(s)->Ok_0) == s,
{
    let c = spec_parse_cospar(s)->Ok_0;
    lemma_pow10_small();
    lemma_canonical_digits(s.subrange(0, 4));
    lemma_canonical_digits(s.subrange(5, 8));
    lemma_digits_val_bound(s.subrange(0, 4));
    lemma_digits_val_bound(s.subrange(5, 8));
    assert(spec_format_cospar(c) =~= s);
}

} // verus!
