//! Ground stations (beacons): the fixed-column STATION REFERENCE
//! codec and the roster lookup predicate.

use vstd::prelude::*;

use crate::domes::{spec_format_domes, spec_parse_domes, DOMES, DOMESTrackingPoint};
use crate::errors::ParsingError;
use crate::matcher::Matcher;
use crate::text::{
    all_digits, bytes_eq, digits_val, fmt_i64, fmt_u64, is_uint_text, pad_left, pad_right,
    spec_digits, spec_int_digits, spec_is_ws, spec_pad_left, spec_pad_right, spec_trim, trim,
    uint_text_val,
};

verus! {

/// A DORIS ground station (beacon), as described by one fixed-column
/// STATION REFERENCE line.
#[derive(Debug, Clone, Hash)]
pub struct GroundStation {
    /// 4-letter station mnemonic label (antenna point).
    pub label: Vec<u8>,
    /// Site name.
    pub site: Vec<u8>,
    /// DOMES site identifier.
    pub domes: DOMES,
    /// Beacon generation.
    pub beacon_revision: u8,
    /// K frequency shift factor.
    pub k_frequency_shift: i8,
    /// ID# used in file indexing.
    pub code: u16,
}

/// Spec-level image of a ground station.
#[verifier::ext_equal]
pub struct GroundStationView {
    pub label: Seq<u8>,
    pub site: Seq<u8>,
    pub domes: DOMES,
    pub beacon_revision: u8,
    pub k_frequency_shift: i8,
    pub code: u16,
}

impl View for GroundStation {
    type V = GroundStationView;

    open spec fn view(&self) -> GroundStationView {
        GroundStationView {
            label: self.label@,
            site: self.site@,
            domes: self.domes,
            beacon_revision: self.beacon_revision,
            k_frequency_shift: self.k_frequency_shift,
            code: self.code,
        }
    }
}

impl PartialEq for GroundStation {
    fn eq(&self, other: &GroundStation) -> (r: bool)
        ensures
            r == (self@ == other@),
    {
        let r = bytes_eq(self.label.as_slice(), other.label.as_slice()) && bytes_eq(
            self.site.as_slice(),
            other.site.as_slice(),
        ) && self.domes == other.domes && self.beacon_revision == other.beacon_revision
            && self.k_frequency_shift == other.k_frequency_shift && self.code == other.code;
        proof {
            if r {
                assert(self@ =~= other@);
            }
        }
        r
    }
}

impl vstd::std_specs::cmp::PartialEqSpecImpl for GroundStation {
    open spec fn obeys_eq_spec() -> bool {
        true
    }

    open spec fn eq_spec(&self, other: &GroundStation) -> bool {
        self@ == other@
    }
}

impl Default for GroundStation {
    /// A neutral station holding the Toulouse reference DOMES
    /// number; it must be customized before use.
    fn default() -> (r: Self)
        ensures
            r@.label == Seq::<u8>::empty(),
            r@.site == Seq::<u8>::empty(),
            r@.domes == (DOMES {
                area: 100,
                site: 3,
                sequential: 5,
                point: DOMESTrackingPoint::Instrument,
            }),
            r@.beacon_revision == 3,
            r@.k_frequency_shift == 0,
            r@.code == 0,
    {
        GroundStation {
            label: Vec::new(),
            site: Vec::new(),
            domes: DOMES { area: 100, site: 3, sequential: 5, point: DOMESTrackingPoint::Instrument },
            beacon_revision: 3,
            k_frequency_shift: 0,
            code: 0,
        }
    }
}

/// A matcher selects this station: by code, exact site name, exact
/// label, or DOMES number.
pub open spec fn spec_station_matches(st: GroundStationView, m: Matcher) -> bool {
    match m {
        Matcher::ID(code) => st.code == code,
        Matcher::Site(site) => st.site == site@,
        Matcher::Label(label) => st.label == label@,
        Matcher::DOMES(domes) => st.domes == domes,
    }
}

impl GroundStation {
    /// An equal station, copied field by field.
    pub(crate) fn duplicate(&self) -> (r: GroundStation)
        ensures
            r@ == self@,
    {
        let r = GroundStation {
            label: vstd::slice::slice_to_vec(self.label.as_slice()),
            site: vstd::slice::slice_to_vec(self.site.as_slice()),
            domes: self.domes,
            beacon_revision: self.beacon_revision,
            k_frequency_shift: self.k_frequency_shift,
            code: self.code,
        };
        proof {
            assert(r@ =~= self@);
        }
        r
    }

    /// Defines a [GroundStation] with desired site name.
    pub fn with_site_name(&self, name: &[u8]) -> (r: Self)
        ensures
            r@ == (GroundStationView { site: name@, ..self@ }),
    {
        let mut s = self.duplicate();
        s.site = vstd::slice::slice_to_vec(name);
        proof {
            assert(s@ =~= (GroundStationView { site: name@, ..self@ }));
        }
        s
    }

    /// Defines a [GroundStation] with desired site label, which
    /// should be a 4-letter description of the site name.
    pub fn with_site_label(&self, label: &[u8]) -> (r: Self)
        ensures
            r@ == (GroundStationView { label: label@, ..self@ }),
    {
        let mut s = self.duplicate();
        s.label = vstd::slice::slice_to_vec(label);
        proof {
            assert(s@ =~= (GroundStationView { label: label@, ..self@ }));
        }
        s
    }

    /// Defines a [GroundStation] with the DOMES number given as text.
    pub fn with_domes_str(&self, domes: &[u8]) -> (r: Result<Self, ParsingError>)
        ensures
            match r {
                Ok(st) => spec_parse_domes(spec_trim(domes@)) matches Ok(d) && st@ == (
                GroundStationView { domes: d, ..self@ }),
                Err(e) => spec_parse_domes(spec_trim(domes@)) == Err::<DOMES, ParsingError>(e),
            },
    {
        let d = DOMES::parse(trim(domes))?;
        Ok(self.with_domes(d))
    }

    /// Defines a [GroundStation] with desired [DOMES] site number.
    pub fn with_domes(&self, domes: DOMES) -> (r: Self)
        ensures
            r@ == (GroundStationView { domes: domes, ..self@ }),
    {
        let mut s = self.duplicate();
        s.domes = domes;
        proof {
            assert(s@ =~= (GroundStationView { domes: domes, ..self@ }));
        }
        s
    }

    /// Returns a [GroundStation] with updated beacon revision.
    pub fn with_beacon_revision(&self, revision: u8) -> (r: Self)
        ensures
            r@ == (GroundStationView { beacon_revision: revision, ..self@ }),
    {
        let mut s = self.duplicate();
        s.beacon_revision = revision;
        proof {
            assert(s@ =~= (GroundStationView { beacon_revision: revision, ..self@ }));
        }
        s
    }

    /// Defines a [GroundStation] with updated f1/f2 frequency shift.
    pub fn with_frequency_shift(&self, shift: i8) -> (r: Self)
        ensures
            r@ == (GroundStationView { k_frequency_shift: shift, ..self@ }),
    {
        let mut s = self.duplicate();
        s.k_frequency_shift = shift;
        proof {
            assert(s@ =~= (GroundStationView { k_frequency_shift: shift, ..self@ }));
        }
        s
    }

    /// Defines a [GroundStation] with the station code that defines
    /// this site uniquely in a DORIS file.
    pub fn with_unique_id(&self, code: u16) -> (r: Self)
        ensures
            r@ == (GroundStationView { code: code, ..self@ }),
    {
        let mut s = self.duplicate();
        s.code = code;
        proof {
            assert(s@ =~= (GroundStationView { code: code, ..self@ }));
        }
        s
    }

    /// True if this station is selected by the given matcher.
    pub fn matches(&self, matcher: &Matcher) -> (r: bool)
        ensures
            r == spec_station_matches(self@, *matcher),
    {
        match matcher {
            Matcher::ID(code) => self.code == *code,
            Matcher::Site(site) => bytes_eq(self.site.as_slice(), site),
            Matcher::Label(label) => bytes_eq(self.label.as_slice(), label),
            Matcher::DOMES(domes) => self.domes == *domes,
        }
    }
}

/// Station denoted by a fixed-column STATION REFERENCE line: code in
/// columns 1-4, label in 5-9, site in 10-39, DOMES in 40-49, beacon
/// generation in 50-52, shift factor in 53-55.
pub open spec fn spec_parse_station(s: Seq<u8>) -> Result<GroundStationView, ParsingError> {
    if s.len() < 56 {
        Err(ParsingError::GroundStation)
    } else {
        let code_t = spec_trim(s.subrange(1, 5));
        let label = spec_trim(s.subrange(5, 10));
        let site = spec_trim(s.subrange(10, 40));
        let domes_t = spec_trim(s.subrange(40, 50));
        let gen_t = spec_trim(s.subrange(50, 53));
        let k_t = spec_trim(s.subrange(53, 56));
        match spec_parse_domes(domes_t) {
            Err(e) => Err(e),
            Ok(domes) => {
                if !(is_uint_text(gen_t) && uint_text_val(gen_t) <= 255) {
                    Err(ParsingError::GroundStation)
                } else if !(crate::text::is_int_text(k_t) && -128 <= crate::text::int_text_val(k_t)
                    <= 127) {
                    Err(ParsingError::GroundStation)
                } else if !(is_uint_text(code_t) && uint_text_val(code_t) <= 65535) {
                    Err(ParsingError::GroundStation)
                } else {
                    Ok(
                        GroundStationView {
                            label: label,
                            site: site,
                            domes: domes,
                            beacon_revision: uint_text_val(gen_t) as u8,
                            k_frequency_shift: crate::text::int_text_val(k_t) as i8,
                            code: uint_text_val(code_t) as u16,
                        },
                    )
                }
            },
        }
    }
}

/// The fixed-column STATION REFERENCE text of a station.
pub open spec fn spec_format_station(st: GroundStationView) -> Seq<u8> {
    seq![68u8] + spec_pad_left(spec_digits(st.code as nat), 2, 48) + seq![32u8, 32u8] + st.label
        + seq![32u8] + spec_pad_right(st.site, 29, 32) + seq![32u8] + spec_format_domes(st.domes)
        + seq![32u8, 32u8] + spec_digits(st.beacon_revision as nat) + seq![32u8] + spec_pad_left(
        spec_int_digits(st.k_frequency_shift as int),
        3,
        32,
    )
}

impl GroundStation {
    /// Parses a station from a fixed-column STATION REFERENCE line
    /// (already trimmed of the line's marker).
    pub fn parse(s: &[u8]) -> (r: Result<GroundStation, ParsingError>)
        ensures
            match r {
                Ok(st) => spec_parse_station(s@) == Ok::<GroundStationView, ParsingError>(st@),
                Err(e) => spec_parse_station(s@) == Err::<GroundStationView, ParsingError>(e),
            },
    {
        let len: usize = s.len();
        if len < 56 {
            return Err(ParsingError::GroundStation);
        }
        let code_t: &[u8] = trim(&s[1..5]);
        let label_t: &[u8] = trim(&s[5..10]);
        let site_t: &[u8] = trim(&s[10..40]);
        let domes_t: &[u8] = trim(&s[40..50]);
        let gen_t: &[u8] = trim(&s[50..53]);
        let k_t: &[u8] = trim(&s[53..56]);
        let domes: DOMES = DOMES::parse(domes_t)?;
        let beacon_revision: u8 = match crate::text::parse_u8(gen_t) {
            Some(v) => v,
            None => {
                return Err(ParsingError::GroundStation);
            },
        };
        let k_frequency_shift: i8 = match crate::text::parse_i8(k_t) {
            Some(v) => v,
            None => {
                return Err(ParsingError::GroundStation);
            },
        };
        let code: u16 = match crate::text::parse_u16(code_t) {
            Some(v) => v,
            None => {
                return Err(ParsingError::GroundStation);
            },
        };
        let st = GroundStation {
            label: vstd::slice::slice_to_vec(label_t),
            site: vstd::slice::slice_to_vec(site_t),
            domes,
            beacon_revision,
            k_frequency_shift,
            code,
        };
        proof {
            assert(st@ =~= (spec_parse_station(s@)->Ok_0));
        }
        Ok(st)
    }

    /// Formats this station as a fixed-column STATION REFERENCE line
    /// body.
    #[verifier::rlimit(60)]
    pub fn format(&self) -> (r: Vec<u8>)
        requires
            self.domes.wf(),
        ensures
            r@ == spec_format_station(self@),
    {
        let mut out: Vec<u8> = Vec::new();
        out.push(68);
        let mut p = pad_left(fmt_u64(self.code as u64), 2, 48);
        out.append(&mut p);
        out.push(32);
        out.push(32);
        let mut p = self.label.clone();
        out.append(&mut p);
        out.push(32);
        let mut p = pad_right(self.site.clone(), 29, 32);
        out.append(&mut p);
        out.push(32);
        let mut p = self.domes.format();
        out.append(&mut p);
        out.push(32);
        out.push(32);
        let mut p = fmt_u64(self.beacon_revision as u64);
        out.append(&mut p);
        out.push(32);
        let mut p = pad_left(fmt_i64(self.k_frequency_shift as i64), 3, 32);
        out.append(&mut p);
        proof {
            assert(out@ =~= spec_format_station(self@));
        }
        out
    }
}

/// A station's fields fit the canonical fixed columns: two-digit
/// code, a four-byte label and a site of at most 29 bytes with no
/// blank edges, a well-formed DOMES number, a one-digit beacon
/// generation, and a shift factor written in at most three
/// characters.
pub open spec fn spec_station_wf(st: GroundStationView) -> bool {
    &&& st.code <= 99
    &&& st.label.len() == 4
    &&& (forall|i: int| 0 <= i < st.label.len() ==> !spec_is_ws(#[trigger] st.label[i]))
    &&& st.site.len() <= 29
    &&& spec_trim(st.site) == st.site
    &&& st.domes.wf()
    &&& st.beacon_revision <= 9
    &&& -99 <= st.k_frequency_shift
}

/// Ground station round-trip: formatting any station whose fields
/// fit the fixed columns and parsing the line back returns the same
/// station.
pub proof fn lemma_station_round_trip(st: GroundStationView)
    requires
        spec_station_wf(st),
    ensures
        spec_parse_station(spec_format_station(st)) == Ok::<GroundStationView, ParsingError>(st),
        spec_format_station(st).len() == 56,
        !spec_is_ws(spec_format_station(st)[0]),
        !spec_is_ws(spec_format_station(st)[55]),
{
    crate::text::lemma_pow10_small();
    let pc = spec_pad_left(spec_digits(st.code as nat), 2, 48);
    let psite = spec_pad_right(st.site, 29, 32);
    let pd = spec_format_domes(st.domes);
    let pg = spec_digits(st.beacon_revision as nat);
    let pk = spec_pad_left(spec_int_digits(st.k_frequency_shift as int), 3, 32);
    let kd = spec_int_digits(st.k_frequency_shift as int);
    crate::text::lemma_spec_digits(st.code as nat);
    crate::text::lemma_spec_digits_len(st.code as nat, 2);
    crate::text::lemma_spec_digits(st.beacon_revision as nat);
    crate::text::lemma_spec_int_digits(st.k_frequency_shift as int);
    if st.k_frequency_shift >= 0 {
        crate::text::lemma_spec_digits(st.k_frequency_shift as nat);
        crate::text::lemma_spec_digits_len(st.k_frequency_shift as nat, 3);
    } else {
        crate::text::lemma_spec_digits((-st.k_frequency_shift) as nat);
        crate::text::lemma_spec_digits_len((-st.k_frequency_shift) as nat, 2);
    }
    assert(pc.len() == 2);
    assert(pg.len() == 1);
    assert(kd.len() <= 3);
    assert(pk.len() == 3);
    let f = spec_format_station(st);
    assert(pd.len() == 9) by {
        crate::text::lemma_spec_digits(st.domes.area as nat);
        crate::text::lemma_spec_digits(st.domes.site as nat);
        crate::text::lemma_spec_digits(st.domes.sequential as nat);
        crate::text::lemma_spec_digits_len(st.domes.area as nat, 3);
        crate::text::lemma_spec_digits_len(st.domes.site as nat, 2);
        crate::text::lemma_spec_digits_len(st.domes.sequential as nat, 3);
    }
    assert(f.len() == 56);
    // trims of each column group recover the canonical fields
    assert(f.subrange(1, 5) =~= pc + seq![32u8, 32u8]);
    assert(f.subrange(5, 10) =~= st.label + seq![32u8]);
    assert(f.subrange(10, 40) =~= psite + seq![32u8]);
    assert(f.subrange(40, 50) =~= pd + seq![32u8]);
    assert(f.subrange(50, 53) =~= seq![32u8] + pg + seq![32u8]);
    assert(f.subrange(53, 56) =~= pk);
    crate::text::lemma_zero_padded_value(st.code as nat, 2);
    crate::domes::lemma_format_domes_bytes(st.domes);
    lemma_trim_field(pc + seq![32u8, 32u8], 0, 2);
    assert((pc + seq![32u8, 32u8]).subrange(0, 2) =~= pc);
    lemma_trim_field(st.label + seq![32u8], 0, st.label.len() as int);
    assert((st.label + seq![32u8]).subrange(0, st.label.len() as int) =~= st.label);
    lemma_trim_site(st.site);
    lemma_trim_field(pd + seq![32u8], 0, 9);
    assert((pd + seq![32u8]).subrange(0, 9) =~= pd);
    assert(crate::text::spec_is_digit(pg[0]));
    lemma_trim_field(seq![32u8] + pg + seq![32u8], 1, 2);
    assert((seq![32u8] + pg + seq![32u8]).subrange(1, 2) =~= pg);
    assert forall|i: int| 0 <= i < (3 - kd.len()) implies pk[i] == 32 by {}
    assert(!spec_is_ws(pk[(3 - kd.len()) as int]) && !spec_is_ws(pk[2])) by {
        assert(pk[(3 - kd.len()) as int] == kd[0]);
        assert(pk[2] == kd[kd.len() - 1]);
    }
    lemma_trim_field(pk, (3 - kd.len()) as int, 3);
    assert(pk.subrange((3 - kd.len()) as int, 3) =~= kd);
    // each recovered field parses back to the station's value
    crate::domes::lemma_domes_round_trip(st.domes);
    assert(spec_parse_station(f) matches Ok(v) && v =~= st);
    // the line opens and closes on non-blank bytes
    assert(f[0] == 68);
    assert(f[55] == pk[2]);
}

/// A STATION REFERENCE content line in the canonical fixed columns:
/// the `D` mark, a two-digit code, two blanks, a four-character
/// label, a blank, the site left-anchored in its thirty columns, a
/// nine-character DOMES number and a blank, the beacon generation
/// digit between blanks, and the shift factor right-aligned in the
/// last three columns without redundant signs or zeros.
pub open spec fn spec_station_line_wf(s: Seq<u8>) -> bool {
    &&& s.len() == 56
    &&& s[0] == 68
    &&& crate::text::spec_is_digit(s[1])
    &&& crate::text::spec_is_digit(s[2])
    &&& s[3] == 32
    &&& s[4] == 32
    &&& (forall|i: int| 5 <= i < 9 ==> !spec_is_ws(#[trigger] s[i]))
    &&& s[9] == 32
    &&& spec_trim(s.subrange(10, 40)).len() <= 29
    &&& s.subrange(10, 40) == spec_pad_right(spec_trim(s.subrange(10, 40)), 30, 32)
    &&& spec_parse_domes(s.subrange(40, 49)) is Ok
    &&& s[49] == 32
    &&& s[50] == 32
    &&& crate::text::spec_is_digit(s[51])
    &&& s[52] == 32
    &&& crate::text::is_int_text(spec_trim(s.subrange(53, 56)))
    &&& -99 <= crate::text::int_text_val(spec_trim(s.subrange(53, 56))) <= 127
    &&& s.subrange(53, 56) == spec_pad_left(
        spec_int_digits(crate::text::int_text_val(spec_trim(s.subrange(53, 56)))),
        3,
        32,
    )
}

/// Ground station text round-trip: a STATION REFERENCE line in the
/// canonical fixed columns parses, and formatting the parsed station
/// reproduces the line byte for byte.
#[verifier::rlimit(100)]
pub proof fn lemma_station_text_round_trip(s: Seq<u8>)
    requires
        spec_station_line_wf(s),
    ensures
        spec_parse_station(s) is Ok,
        spec_format_station(spec_parse_station(s)->Ok_0) == s,
{
    crate::text::lemma_pow10_small();
    // the code field: two digits then two blanks
    let cf = s.subrange(1, 5);
    assert(!spec_is_ws(cf[0]) && !spec_is_ws(cf[1]) && cf[2] == 32 && cf[3] == 32);
    lemma_trim_field(cf, 0, 2);
    let code_t = cf.subrange(0, 2);
    assert(code_t =~= s.subrange(1, 3));
    assert(crate::text::all_digits(code_t));
    crate::text::lemma_digits_val_bound(code_t);
    let code_v = crate::text::digits_val(code_t);
    assert(is_uint_text(code_t) && uint_text_val(code_t) == code_v && code_v < 100);
    // the label field: four non-blank bytes then a blank
    let lf = s.subrange(5, 10);
    assert(lf[4] == 32 && !spec_is_ws(lf[0]) && !spec_is_ws(lf[3]));
    lemma_trim_field(lf, 0, 4);
    let label = lf.subrange(0, 4);
    assert(label =~= s.subrange(5, 9));
    // the site field: left-anchored in its thirty columns
    let sf = s.subrange(10, 40);
    let site = spec_trim(sf);
    // the DOMES field: nine non-blank bytes then a blank
    let df = s.subrange(40, 50);
    let dt = s.subrange(40, 49);
    assert forall|i: int| 0 <= i < 9 implies !spec_is_ws(#[trigger] df[i]) by {
        assert(df[i] == dt[i]);
        if i < 3 {
            assert(crate::text::spec_is_digit(dt.subrange(0, 3)[i]));
        } else if i < 5 {
            assert(crate::text::spec_is_digit(dt.subrange(3, 5)[i - 3]));
        } else if i == 5 {
            assert(dt[5] == 83 || dt[5] == 77);
        } else {
            assert(crate::text::spec_is_digit(dt.subrange(6, 9)[i - 6]));
        }
    }
    assert(df[9] == 32);
    lemma_trim_field(df, 0, 9);
    assert(df.subrange(0, 9) =~= dt);
    let d = spec_parse_domes(dt)->Ok_0;
    // the beacon generation field: one digit between blanks
    let gf = s.subrange(50, 53);
    assert(gf[0] == 32 && gf[2] == 32 && !spec_is_ws(gf[1]));
    lemma_trim_field(gf, 1, 2);
    let gen_t = gf.subrange(1, 2);
    assert(gen_t =~= seq![s[51]]);
    assert(crate::text::all_digits(gen_t));
    crate::text::lemma_digits_val_bound(gen_t);
    let gen_v = crate::text::digits_val(gen_t);
    assert(is_uint_text(gen_t) && uint_text_val(gen_t) == gen_v && gen_v < 10);
    // the shift field: the signed digits right-aligned over blanks
    let kf = s.subrange(53, 56);
    let k_v = crate::text::int_text_val(spec_trim(kf));
    let kd = spec_int_digits(k_v);
    crate::text::lemma_spec_int_digits(k_v);
    if k_v >= 0 {
        crate::text::lemma_spec_digits(k_v as nat);
        crate::text::lemma_spec_digits_len(k_v as nat, 3);
    } else {
        crate::text::lemma_spec_digits((-k_v) as nat);
        crate::text::lemma_spec_digits_len((-k_v) as nat, 2);
    }
    assert(1 <= kd.len() <= 3);
    assert(kf == spec_pad_left(kd, 3, 32));
    assert forall|i: int| 0 <= i < (3 - kd.len()) implies kf[i] == 32 by {}
    assert forall|i: int| (3 - kd.len()) <= i < 3 implies !spec_is_ws(#[trigger] kf[i]) by {
        assert(kf[i] == kd[i - (3 - kd.len())]);
    }
    lemma_trim_field(kf, (3 - kd.len()) as int, 3);
    assert(spec_trim(kf) =~= kd);
    assert(crate::text::int_text_val(spec_trim(kf)) == k_v);
    // the parse goes through with exactly these fields
    assert(spec_trim(s.subrange(40, 50)) == dt);
    assert(spec_parse_station(s) is Ok);
    let st = spec_parse_station(s)->Ok_0;
    assert(st.code == code_v && st.label == label && st.site == site && st.domes == d
        && st.beacon_revision == gen_v && st.k_frequency_shift == k_v);
    // formatting each field reproduces its columns
    crate::text::lemma_canonical_digits(code_t);
    assert(spec_pad_left(spec_digits(st.code as nat), 2, 48) == code_t);
    crate::text::lemma_trim_idempotent(sf);
    assert(spec_trim(site) == site);
    assert(spec_pad_right(site, 29, 32) + seq![32u8] =~= spec_pad_right(site, 30, 32));
    crate::domes::lemma_domes_text_round_trip(dt);
    assert(spec_format_domes(st.domes) == dt);
    assert(spec_digits(st.beacon_revision as nat) =~= gen_t) by {
        crate::text::lemma_canonical_digits(gen_t);
        assert(spec_pad_left(spec_digits(gen_v), 1, 48) == gen_t);
        crate::text::lemma_spec_digits(gen_v);
    }
    assert(spec_pad_left(spec_int_digits(st.k_frequency_shift as int), 3, 32) == kf);
    // assemble the line from the left, one field at a time
    let pc = spec_pad_left(spec_digits(st.code as nat), 2, 48);
    let a1 = seq![68u8] + pc + seq![32u8, 32u8];
    assert(a1 =~= s.subrange(0, 5));
    let a2 = a1 + st.label + seq![32u8];
    assert(a2 =~= s.subrange(0, 10));
    assert(spec_pad_right(st.site, 29, 32).len() == 29);
    assert(spec_pad_right(st.site, 29, 32) =~= s.subrange(10, 39));
    assert(s[39] == 32) by {
        assert(sf[29] == spec_pad_right(site, 30, 32)[29]);
    }
    let a3 = a2 + spec_pad_right(st.site, 29, 32) + seq![32u8];
    assert(a3 =~= s.subrange(0, 40));
    let a4 = a3 + spec_format_domes(st.domes) + seq![32u8, 32u8];
    assert(a4 =~= s.subrange(0, 51));
    let a5 = a4 + spec_digits(st.beacon_revision as nat) + seq![32u8];
    assert(a5 =~= s.subrange(0, 53));
    assert(a5 + spec_pad_left(spec_int_digits(st.k_frequency_shift as int), 3, 32) =~= s);
    assert(spec_format_station(st) =~= s);
}

/// The trim of a field whose content sits on `[a, b)` with spaces
/// around it.
proof fn lemma_trim_field(s: Seq<u8>, a: int, b: int)
    requires
        0 <= a <= b <= s.len(),
        forall|i: int| 0 <= i < a ==> s[i] == 32,
        forall|i: int| b <= i < s.len() ==> s[i] == 32,
        a < b ==> !spec_is_ws(s[a]) && !spec_is_ws(s[b - 1]),
        a == b ==> a == s.len(),
    ensures
        spec_trim(s) == s.subrange(a, b),
{
    crate::text::lemma_trim_char(s, a, b);
}

/// A site with no blank edges keeps its bytes under the right-pad
/// and trim.
proof fn lemma_trim_site(site: Seq<u8>)
    requires
        spec_trim(site) == site,
        site.len() <= 29,
    ensures
        spec_trim(spec_pad_right(site, 29, 32) + seq![32u8]) == site,
{
    let p = spec_pad_right(site, 29, 32) + seq![32u8];
    if site.len() == 0 {
        assert forall|i: int| 0 <= i < p.len() implies p[i] == 32 by {}
        crate::text::lemma_trim_char(p, p.len() as int, p.len() as int);
        assert(p.subrange(p.len() as int, p.len() as int) =~= site);
    } else {
        // a trimmed non-empty site has non-blank first and last bytes
        assert(!spec_is_ws(site[0]) && !spec_is_ws(site[site.len() - 1])) by {
            crate::text::lemma_trim_edges(site);
        }
        crate::text::lemma_trim_char(p, 0, site.len() as int);
        assert(p.subrange(0, site.len() as int) =~= site);
    }
}

} // verus!
