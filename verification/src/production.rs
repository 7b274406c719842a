//! Standard file-name attributes: `SSSSSyyddd[.gz]`.

use vstd::prelude::*;

use crate::errors::ParsingError;
use crate::observable::{spec_to_upper, to_upper};
use crate::text::{
    all_digits, digits_val, fmt_u64, is_uint_text, lemma_canonical_digits, lemma_digits_val_bound,
    lemma_pow10_small, pad_left, spec_digits, spec_pad_left, uint_text_val,
};

verus! {

/// Attributes of a file named by the standard convention: a
/// five-character satellite tag, a two-digit year, a three-digit day
/// of year, and an optional gzip extension.
#[derive(Debug, Clone, Hash)]
pub struct ProductionAttributes {
    /// Five-letter satellite name tag, uppercased.
    pub satellite: Vec<u8>,
    /// Year of production.
    pub year: u32,
    /// Production day of year.
    pub doy: u32,
    /// True if the file was gzip compressed.
    pub gzip_compressed: bool,
}

/// Spec-level image of production attributes.
#[verifier::ext_equal]
pub struct ProductionAttributesView {
    pub satellite: Seq<u8>,
    pub year: u32,
    pub doy: u32,
    pub gzip_compressed: bool,
}

impl View for ProductionAttributes {
    type V = ProductionAttributesView;

    open spec fn view(&self) -> ProductionAttributesView {
        ProductionAttributesView {
            satellite: self.satellite@,
            year: self.year,
            doy: self.doy,
            gzip_compressed: self.gzip_compressed,
        }
    }
}

impl PartialEq for ProductionAttributes {
    fn eq(&self, other: &ProductionAttributes) -> (r: bool)
        ensures
            r == (self@ == other@),
    {
        let r = crate::text::bytes_eq(self.satellite.as_slice(), other.satellite.as_slice())
            && self.year == other.year && self.doy == other.doy && self.gzip_compressed
            == other.gzip_compressed;
        proof {
            if r {
                assert(self@ =~= other@);
            }
        }
        r
    }
}

impl vstd::std_specs::cmp::PartialEqSpecImpl for ProductionAttributes {
    open spec fn obeys_eq_spec() -> bool {
        true
    }

    open spec fn eq_spec(&self, other: &ProductionAttributes) -> bool {
        self@ == other@
    }
}

impl Default for ProductionAttributes {
    fn default() -> (r: Self)
        ensures
            r@.satellite == Seq::<u8>::empty(),
            r@.year == 0,
            r@.doy == 0,
            r@.gzip_compressed == false,
    {
        ProductionAttributes { satellite: Vec::new(), year: 0, doy: 0, gzip_compressed: false }
    }
}

/// Attributes denoted by an uppercased file name of ten or thirteen
/// characters: satellite tag, then year and day digits where they
/// parse (zero otherwise, as a tolerant reading), and the gzip
/// extension flag.
pub open spec fn spec_parse_production(u: Seq<u8>) -> Result<ProductionAttributesView,
    ParsingError,
> {
    if u.len() != 10 && u.len() != 13 {
        Err(ParsingError::NonStandardFileName)
    } else {
        Ok(
            ProductionAttributesView {
                satellite: u.subrange(0, 5),
                year: if is_uint_text(u.subrange(5, 7)) && uint_text_val(u.subrange(5, 7)) <= 99 {
                    (2000 + uint_text_val(u.subrange(5, 7))) as u32
                } else {
                    2000
                },
                doy: if is_uint_text(u.subrange(7, 10)) && uint_text_val(u.subrange(7, 10))
                    <= 999 {
                    uint_text_val(u.subrange(7, 10)) as u32
                } else {
                    0
                },
                gzip_compressed: u.len() == 13 && u.subrange(10, 13) == seq![46u8, 71, 90],
            },
        )
    }
}

impl ProductionAttributes {
    /// Parses the attributes from a file name (case-insensitive).
    pub fn parse(filename: &[u8]) -> (r: Result<ProductionAttributes, ParsingError>)
        ensures
            match r {
                Ok(p) => spec_parse_production(spec_to_upper(filename@)) == Ok::<
                    ProductionAttributesView,
                    ParsingError,
                >(p@),
                Err(e) => spec_parse_production(spec_to_upper(filename@)) == Err::<
                    ProductionAttributesView,
                    ParsingError,
                >(e),
            },
    {
        let up: Vec<u8> = to_upper(filename);
        let u: &[u8] = up.as_slice();
        let len: usize = u.len();
        if len != 10 && len != 13 {
            return Err(ParsingError::NonStandardFileName);
        }
        let satellite: Vec<u8> = vstd::slice::slice_to_vec(&u[0..5]);
        let year_s: &[u8] = &u[5..7];
        let doy_s: &[u8] = &u[7..10];
        proof {
            assert(year_s@ =~= up@.subrange(5, 7));
            assert(doy_s@ =~= up@.subrange(7, 10));
            assert(satellite@ =~= up@.subrange(0, 5));
        }
        let year: u32 = match crate::text::parse_u8(year_s) {
            Some(v) => if v <= 99 {
                2000 + (v as u32)
            } else {
                2000
            },
            None => 2000,
        };
        let doy: u32 = match crate::text::parse_u16(doy_s) {
            Some(v) => if v <= 999 {
                v as u32
            } else {
                0
            },
            None => 0,
        };
        let gzip_compressed: bool = len == 13 && u[10] == 46 && u[11] == 71 && u[12] == 90;
        proof {
            if len == 13 {
                if u@[10] == 46 && u@[11] == 71 && u@[12] == 90 {
                    assert(up@.subrange(10, 13) =~= seq![46u8, 71, 90]);
                } else {
                    assert(up@.subrange(10, 13)[0] == u@[10]);
                    assert(up@.subrange(10, 13)[1] == u@[11]);
                    assert(up@.subrange(10, 13)[2] == u@[12]);
                }
            }
        }
        let p = ProductionAttributes { satellite, year, doy, gzip_compressed };
        proof {
            assert(p@ =~= (spec_parse_production(spec_to_upper(filename@))->Ok_0));
        }
        Ok(p)
    }
}

/// The standard name these attributes denote: the satellite tag
/// (clipped or padded with `X` to five characters), the year modulo
/// the century in two digits, the day of year in three digits, and
/// `.gz` when compressed.
pub open spec fn spec_format_production(p: ProductionAttributesView) -> Seq<u8> {
    let sat5 = spec_sat5(p.satellite);
    let yy = spec_pad_left(spec_digits(((p.year - 2000) % 100) as nat), 2, 48);
    let ddd = spec_pad_left(spec_digits(p.doy as nat), 3, 48);
    let ext = if p.gzip_compressed {
        seq![46u8, 103, 122]
    } else {
        Seq::<u8>::empty()
    };
    sat5 + yy + ddd + ext
}

/// A name tag clipped or padded with `X` to five characters.
pub open spec fn spec_sat5(sat: Seq<u8>) -> Seq<u8> {
    if sat.len() >= 5 {
        sat.subrange(0, 5)
    } else {
        sat + Seq::new((5 - sat.len()) as nat, |i: int| 88u8)
    }
}

impl ProductionAttributes {
    /// Formats the standard file name of these attributes.
    pub fn format(&self) -> (r: Vec<u8>)
        requires
            self@.year >= 2000,
            self@.doy <= 999,
        ensures
            r@ == spec_format_production(self@),
    {
        let slen: usize = self.satellite.len();
        let mut out: Vec<u8>;
        if slen >= 5 {
            out = vstd::slice::slice_to_vec(&self.satellite.as_slice()[0..5]);
        } else {
            out = vstd::slice::slice_to_vec(self.satellite.as_slice());
            let mut i: usize = slen;
            while i < 5
                invariant
                    slen <= i <= 5,
                    out@ =~= self.satellite@ + Seq::new((i - slen) as nat, |q: int| 88u8),
                decreases 5 - i,
            {
                out.push(88);
                i = i + 1;
            }
        }
        let yy: u32 = (self.year - 2000) % 100;
        let mut p = pad_left(fmt_u64(yy as u64), 2, 48);
        out.append(&mut p);
        let mut p = pad_left(fmt_u64(self.doy as u64), 3, 48);
        out.append(&mut p);
        if self.gzip_compressed {
            out.push(46);
            out.push(103);
            out.push(122);
        }
        proof {
            assert(out@ =~= spec_format_production(self@));
        }
        out
    }
}

/// A file name of the standard convention: five characters, then two
/// year digits and three day digits, optionally `.gz` (caseless).
pub open spec fn spec_standard_name(u: Seq<u8>) -> bool {
    &&& (u.len() == 10 || (u.len() == 13 && u.subrange(10, 13) == seq![46u8, 71, 90]))
    &&& all_digits(u.subrange(5, 10))
}

/// Filename derivation: parsing a standard file name and formatting
/// the attributes back reproduces the uppercased name, with the gzip
/// extension written in its lowercase form.
pub proof fn lemma_production_round_trip(u: Seq<u8>)
    requires
        spec_standard_name(u),
    ensures
        spec_parse_production(u) is Ok,
        spec_format_production(spec_parse_production(u)->Ok_0) == u.subrange(0, 10) + (if u.len()
            == 13 {
            seq![46u8, 103, 122]
        } else {
            Seq::<u8>::empty()
        }),
{
    lemma_pow10_small();
    let p = spec_parse_production(u)->Ok_0;
    let ys = u.subrange(5, 7);
    let ds = u.subrange(7, 10);
    assert forall|i: int| 0 <= i < 2 implies crate::text::spec_is_digit(#[trigger] ys[i]) by {
        assert(ys[i] == u.subrange(5, 10)[i]);
    }
    assert(all_digits(ys));
    assert forall|i: int| 0 <= i < 3 implies crate::text::spec_is_digit(#[trigger] ds[i]) by {
        assert(ds[i] == u.subrange(5, 10)[i + 2]);
    }
    assert(all_digits(ds));
    lemma_digits_val_bound(ys);
    lemma_digits_val_bound(ds);
    lemma_canonical_digits(ys);
    lemma_canonical_digits(ds);
    assert(p.year == 2000 + digits_val(ys));
    assert(p.doy == digits_val(ds));
    assert((p.year - 2000) % 100 == digits_val(ys));
    assert(p.satellite =~= u.subrange(0, 5));
    assert(spec_sat5(p.satellite) =~= u.subrange(0, 5));
    assert(spec_format_production(p) =~= u.subrange(0, 10) + (if u.len() == 13 {
        seq![46u8, 103, 122]
    } else {
        Seq::<u8>::empty()
    }));
}

} // verus!
