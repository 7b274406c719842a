//! Observables: the measured physics of each data column, with the
//! compact file codes and the verbose names.

use vstd::prelude::*;

use crate::errors::ParsingError;
use crate::frequency::{spec_frequency_code, spec_parse_frequency, Frequency};
use crate::text::{spec_is_ws, spec_trim, trim};

verus! {

/// [Observable] describes both frequency and physics. DORIS files
/// also provide measurements sampled at the ground station level
/// (pressure, temperature, moisture rate).
#[derive(Debug, Clone, Copy, PartialEq, Eq, Structural, Hash)]
pub enum Observable {
    /// Decoded pseudo range, in meters.
    PseudoRange(Frequency),
    /// Unambiguous carrier phase observation, in meters.
    UnambiguousPhaseRange(Frequency),
    /// Received signal power, in dBm.
    Power(Frequency),
    /// Pressure at the ground station, in hPa.
    Pressure,
    /// Dry temperature at the ground station, in Celsius degrees.
    Temperature,
    /// Moisture rate at the ground station, as a saturation
    /// percentage.
    HumidityRate,
    /// f1/f2 frequency ratio, dimensionless.
    FrequencyRatio,
}

impl Default for Observable {
    fn default() -> (r: Self)
        ensures
            r == Observable::PseudoRange(Frequency::DORIS1),
    {
        Observable::PseudoRange(Frequency::DORIS1)
    }
}

/// Uppercases one ASCII byte.
pub open spec fn spec_upper_byte(b: u8) -> u8 {
    if 97 <= b && b <= 122 {
        (b - 32) as u8
    } else {
        b
    }
}

/// Uppercases ASCII text.
pub open spec fn spec_to_upper(s: Seq<u8>) -> Seq<u8> {
    s.map_values(|b: u8| spec_upper_byte(b))
}

/// Uppercases a byte string.
pub fn to_upper(s: &[u8]) -> (r: Vec<u8>)
    ensures
        r@ == spec_to_upper(s@),
{
    let len: usize = s.len();
    let mut r: Vec<u8> = Vec::new();
    let mut i: usize = 0;
    while i < len
        invariant
            0 <= i <= len,
            len == s@.len(),
            r@.len() == i,
            forall|k: int| 0 <= k < i ==> r@[k] == spec_upper_byte(#[trigger] s@[k]),
        decreases len - i,
    {
        let b: u8 = s[i];
        if 97 <= b && b <= 122 {
            r.push(b - 32);
        } else {
            r.push(b);
        }
        i = i + 1;
    }
    proof {
        assert(r@ =~= spec_to_upper(s@));
    }
    r
}

/// Observable denoted by uppercased, trimmed text: the verbose names
/// and single letters of the station-level physics, or a `L`/`C`/`W`
/// code followed by a frequency digit.
pub open spec fn spec_parse_observable(s: Seq<u8>) -> Result<Observable, ParsingError> {
    if s == seq![80u8] || s == seq![80u8, 82, 69, 83, 83, 85, 82, 69] {
        Ok(Observable::Pressure)
    } else if s == seq![84u8] || s == seq![84u8, 69, 77, 80, 69, 82, 65, 84, 85, 82, 69] {
        Ok(Observable::Temperature)
    } else if s == seq![72u8] || s == seq![77u8, 79, 73, 83, 84, 85, 82, 69, 32, 82, 65, 84, 69] {
        Ok(Observable::HumidityRate)
    } else if s == seq![70u8] || s == seq![70u8, 82, 69, 81, 85, 69, 78, 67, 89, 32, 82, 65, 84, 73, 79] {
        Ok(Observable::FrequencyRatio)
    } else if s.len() == 0 {
        Err(ParsingError::Observable)
    } else {
        match spec_parse_frequency(s.subrange(1, s.len() as int)) {
            Err(e) => Err(e),
            Ok(freq) => {
                if s[0] == 76 {
                    Ok(Observable::UnambiguousPhaseRange(freq))
                } else if s[0] == 67 {
                    Ok(Observable::PseudoRange(freq))
                } else if s[0] == 87 {
                    Ok(Observable::Power(freq))
                } else {
                    Err(ParsingError::Observable)
                }
            },
        }
    }
}

/// The compact file code of an observable (`L1`, `C2`, `P`, ...).
pub open spec fn spec_obs_code(o: Observable) -> Seq<u8> {
    match o {
        Observable::Pressure => seq![80u8],
        Observable::Temperature => seq![84u8],
        Observable::HumidityRate => seq![72u8],
        Observable::FrequencyRatio => seq![70u8],
        Observable::PseudoRange(f) => seq![67u8, spec_frequency_code(f)],
        Observable::UnambiguousPhaseRange(f) => seq![76u8, spec_frequency_code(f)],
        Observable::Power(f) => seq![87u8, spec_frequency_code(f)],
    }
}

/// The verbose display name of an observable.
pub open spec fn spec_obs_verbose(o: Observable) -> Seq<u8> {
    match o {
        Observable::Pressure => seq![80u8, 114, 101, 115, 115, 117, 114, 101],
        Observable::Temperature => seq![84u8, 101, 109, 112, 101, 114, 97, 116, 117, 114, 101],
        Observable::HumidityRate => seq![77u8, 111, 105, 115, 116, 117, 114, 101, 32, 114, 97, 116, 101],
        Observable::FrequencyRatio => seq![70u8, 114, 101, 113, 117, 101, 110, 99, 121, 32, 114, 97, 116, 105, 111],
        Observable::PseudoRange(f) => seq![67u8, spec_frequency_code(f)],
        Observable::UnambiguousPhaseRange(f) => seq![76u8, spec_frequency_code(f)],
        Observable::Power(f) => seq![87u8, spec_frequency_code(f)],
    }
}

/// The two observables measure on the same carrier frequency.
pub open spec fn spec_same_frequency(a: Observable, b: Observable) -> bool {
    match (spec_obs_frequency(a), spec_obs_frequency(b)) {
        (Some(fa), Some(fb)) => fa == fb,
        _ => false,
    }
}

/// Carrier frequency of an observable, for signal observables.
pub open spec fn spec_obs_frequency(o: Observable) -> Option<Frequency> {
    match o {
        Observable::PseudoRange(f) => Some(f),
        Observable::UnambiguousPhaseRange(f) => Some(f),
        Observable::Power(f) => Some(f),
        _ => None,
    }
}

/// The two observables measure the same physics.
pub open spec fn spec_same_physics(a: Observable, b: Observable) -> bool {
    match (a, b) {
        (Observable::PseudoRange(_), Observable::PseudoRange(_)) => true,
        (Observable::UnambiguousPhaseRange(_), Observable::UnambiguousPhaseRange(_)) => true,
        (Observable::Power(_), Observable::Power(_)) => true,
        (Observable::Pressure, Observable::Pressure) => true,
        (Observable::Temperature, Observable::Temperature) => true,
        (Observable::HumidityRate, Observable::HumidityRate) => true,
        (Observable::FrequencyRatio, Observable::FrequencyRatio) => true,
        _ => false,
    }
}

impl Observable {
    /// Parses an observable: case-insensitive, both verbose names
    /// and compact codes.
    pub fn parse(s: &[u8]) -> (r: Result<Observable, ParsingError>)
        ensures
            r == spec_parse_observable(spec_trim(spec_to_upper(s@))),
    {
        let up: Vec<u8> = to_upper(s);
        let t: &[u8] = trim(up.as_slice());
        Self::parse_canonical(t)
    }

    /// Parses an observable from uppercased, trimmed text.
    fn parse_canonical(t: &[u8]) -> (r: Result<Observable, ParsingError>)
        ensures
            r == spec_parse_observable(t@),
    {
        proof {
            lemma_small_seq_obs(t@);
        }
        if t.len() == 1 && t[0] == 80 || t.len() == 8 && t[0] == 80 && t[1] == 82 && t[2] == 69 && t[3] == 83 && t[4] == 83 && t[5] == 85 && t[6] == 82 && t[7] == 69 {
            return Ok(Observable::Pressure);
        }
        if t.len() == 1 && t[0] == 84 || t.len() == 11 && t[0] == 84 && t[1] == 69 && t[2] == 77 && t[3] == 80 && t[4] == 69 && t[5] == 82 && t[6] == 65 && t[7] == 84 && t[8] == 85 && t[9] == 82 && t[10] == 69 {
            return Ok(Observable::Temperature);
        }
        if t.len() == 1 && t[0] == 72 || t.len() == 13 && t[0] == 77 && t[1] == 79 && t[2] == 73 && t[3] == 83 && t[4] == 84 && t[5] == 85 && t[6] == 82 && t[7] == 69 && t[8] == 32 && t[9] == 82 && t[10] == 65 && t[11] == 84 && t[12] == 69 {
            return Ok(Observable::HumidityRate);
        }
        if t.len() == 1 && t[0] == 70 || t.len() == 15 && t[0] == 70 && t[1] == 82 && t[2] == 69 && t[3] == 81 && t[4] == 85 && t[5] == 69 && t[6] == 78 && t[7] == 67 && t[8] == 89 && t[9] == 32 && t[10] == 82 && t[11] == 65 && t[12] == 84 && t[13] == 73 && t[14] == 79 {
            return Ok(Observable::FrequencyRatio);
        }
        if t.len() == 0 {
            return Err(ParsingError::Observable);
        }
        let rest: &[u8] = &t[1..t.len()];
        proof {
            assert(rest@ =~= t@.subrange(1, t@.len() as int));
        }
        let freq: Frequency = match Frequency::parse(rest) {
            Ok(f) => f,
            Err(e) => {
                return Err(e);
            },
        };
        if t[0] == 76 {
            Ok(Observable::UnambiguousPhaseRange(freq))
        } else if t[0] == 67 {
            Ok(Observable::PseudoRange(freq))
        } else if t[0] == 87 {
            Ok(Observable::Power(freq))
        } else {
            Err(ParsingError::Observable)
        }
    }

    /// The compact file code of this observable.
    pub fn format_code(&self) -> (r: Vec<u8>)
        ensures
            r@ == spec_obs_code(*self),
    {
        let mut v: Vec<u8> = Vec::new();
        match self {
            Observable::Pressure => {
                v.push(80);
            },
            Observable::Temperature => {
                v.push(84);
            },
            Observable::HumidityRate => {
                v.push(72);
            },
            Observable::FrequencyRatio => {
                v.push(70);
            },
            Observable::PseudoRange(f) => {
                v.push(67);
                v.push(f.code());
            },
            Observable::UnambiguousPhaseRange(f) => {
                v.push(76);
                v.push(f.code());
            },
            Observable::Power(f) => {
                v.push(87);
                v.push(f.code());
            },
        }
        proof {
            assert(v@ =~= spec_obs_code(*self));
        }
        v
    }

    /// The verbose display name of this observable.
    pub fn format_verbose(&self) -> (r: Vec<u8>)
        ensures
            r@ == spec_obs_verbose(*self),
    {
        let mut v: Vec<u8> = Vec::new();
        match self {
            Observable::Pressure => {
                v.push(80);
                v.push(114);
                v.push(101);
                v.push(115);
                v.push(115);
                v.push(117);
                v.push(114);
                v.push(101);
            },
            Observable::Temperature => {
                v.push(84);
                v.push(101);
                v.push(109);
                v.push(112);
                v.push(101);
                v.push(114);
                v.push(97);
                v.push(116);
                v.push(117);
                v.push(114);
                v.push(101);
            },
            Observable::HumidityRate => {
                v.push(77);
                v.push(111);
                v.push(105);
                v.push(115);
                v.push(116);
                v.push(117);
                v.push(114);
                v.push(101);
                v.push(32);
                v.push(114);
                v.push(97);
                v.push(116);
                v.push(101);
            },
            Observable::FrequencyRatio => {
                v.push(70);
                v.push(114);
                v.push(101);
                v.push(113);
                v.push(117);
                v.push(101);
                v.push(110);
                v.push(99);
                v.push(121);
                v.push(32);
                v.push(114);
                v.push(97);
                v.push(116);
                v.push(105);
                v.push(111);
            },
            Observable::PseudoRange(f) => {
                v.push(67);
                v.push(f.code());
            },
            Observable::UnambiguousPhaseRange(f) => {
                v.push(76);
                v.push(f.code());
            },
            Observable::Power(f) => {
                v.push(87);
                v.push(f.code());
            },
        }
        proof {
            assert(v@ =~= spec_obs_verbose(*self));
        }
        v
    }

    /// True if both observables come from the same [Frequency].
    pub fn same_frequency(&self, rhs: &Observable) -> (r: bool)
        ensures
            r == spec_same_frequency(*self, *rhs),
    {
        match (self, rhs) {
            (
                Observable::PseudoRange(a)
                | Observable::Power(a)
                | Observable::UnambiguousPhaseRange(a),
                Observable::PseudoRange(b)
                | Observable::Power(b)
                | Observable::UnambiguousPhaseRange(b),
            ) => a == b,
            _ => false,
        }
    }

    /// True if both observables describe the same physical
    /// observation.
    pub fn same_physics(&self, rhs: &Observable) -> (r: bool)
        ensures
            r == spec_same_physics(*self, *rhs),
    {
        match (self, rhs) {
            (Observable::PseudoRange(_), Observable::PseudoRange(_)) => true,
            (Observable::UnambiguousPhaseRange(_), Observable::UnambiguousPhaseRange(_)) => true,
            (Observable::Power(_), Observable::Power(_)) => true,
            (Observable::Pressure, Observable::Pressure) => true,
            (Observable::Temperature, Observable::Temperature) => true,
            (Observable::HumidityRate, Observable::HumidityRate) => true,
            (Observable::FrequencyRatio, Observable::FrequencyRatio) => true,
            _ => false,
        }
    }

    /// True for unambiguous phase range measurements.
    pub fn is_phase_range_observable(&self) -> (r: bool)
        ensures
            r == (self matches Observable::UnambiguousPhaseRange(_)),
    {
        match self {
            Observable::UnambiguousPhaseRange(_) => true,
            _ => false,
        }
    }

    /// True for decoded pseudo range measurements.
    pub fn is_pseudo_range_observable(&self) -> (r: bool)
        ensures
            r == (self matches Observable::PseudoRange(_)),
    {
        match self {
            Observable::PseudoRange(_) => true,
            _ => false,
        }
    }

    /// True for received power measurements.
    pub fn is_power_observable(&self) -> (r: bool)
        ensures
            r == (self matches Observable::Power(_)),
    {
        match self {
            Observable::Power(_) => true,
            _ => false,
        }
    }
}

/// Relates byte-wise comparisons with the keyword sequences.
proof fn lemma_small_seq_obs(s: Seq<u8>)
    ensures
        (s == seq![80u8]) == (s.len() == 1 && s[0] == 80),
        (s == seq![80u8, 82, 69, 83, 83, 85, 82, 69]) == (s.len() == 8 && s[0] == 80 && s[1] == 82 && s[2] == 69 && s[3] == 83 && s[4] == 83 && s[5] == 85 && s[6] == 82 && s[7] == 69),
        (s == seq![84u8]) == (s.len() == 1 && s[0] == 84),
        (s == seq![84u8, 69, 77, 80, 69, 82, 65, 84, 85, 82, 69]) == (s.len() == 11 && s[0] == 84 && s[1] == 69 && s[2] == 77 && s[3] == 80 && s[4] == 69 && s[5] == 82 && s[6] == 65 && s[7] == 84 && s[8] == 85 && s[9] == 82 && s[10] == 69),
        (s == seq![72u8]) == (s.len() == 1 && s[0] == 72),
        (s == seq![77u8, 79, 73, 83, 84, 85, 82, 69, 32, 82, 65, 84, 69]) == (s.len() == 13 && s[0] == 77 && s[1] == 79 && s[2] == 73 && s[3] == 83 && s[4] == 84 && s[5] == 85 && s[6] == 82 && s[7] == 69 && s[8] == 32 && s[9] == 82 && s[10] == 65 && s[11] == 84 && s[12] == 69),
        (s == seq![70u8]) == (s.len() == 1 && s[0] == 70),
        (s == seq![70u8, 82, 69, 81, 85, 69, 78, 67, 89, 32, 82, 65, 84, 73, 79]) == (s.len() == 15 && s[0] == 70 && s[1] == 82 && s[2] == 69 && s[3] == 81 && s[4] == 85 && s[5] == 69 && s[6] == 78 && s[7] == 67 && s[8] == 89 && s[9] == 32 && s[10] == 82 && s[11] == 65 && s[12] == 84 && s[13] == 73 && s[14] == 79),
{
    if s.len() == 1 && s[0] == 80 { assert(s =~= seq![80u8]); }
    if s.len() == 8 && s[0] == 80 && s[1] == 82 && s[2] == 69 && s[3] == 83 && s[4] == 83 && s[5] == 85 && s[6] == 82 && s[7] == 69 { assert(s =~= seq![80u8, 82, 69, 83, 83, 85, 82, 69]); }
    if s.len() == 1 && s[0] == 84 { assert(s =~= seq![84u8]); }
    if s.len() == 11 && s[0] == 84 && s[1] == 69 && s[2] == 77 && s[3] == 80 && s[4] == 69 && s[5] == 82 && s[6] == 65 && s[7] == 84 && s[8] == 85 && s[9] == 82 && s[10] == 69 { assert(s =~= seq![84u8, 69, 77, 80, 69, 82, 65, 84, 85, 82, 69]); }
    if s.len() == 1 && s[0] == 72 { assert(s =~= seq![72u8]); }
    if s.len() == 13 && s[0] == 77 && s[1] == 79 && s[2] == 73 && s[3] == 83 && s[4] == 84 && s[5] == 85 && s[6] == 82 && s[7] == 69 && s[8] == 32 && s[9] == 82 && s[10] == 65 && s[11] == 84 && s[12] == 69 { assert(s =~= seq![77u8, 79, 73, 83, 84, 85, 82, 69, 32, 82, 65, 84, 69]); }
    if s.len() == 1 && s[0] == 70 { assert(s =~= seq![70u8]); }
    if s.len() == 15 && s[0] == 70 && s[1] == 82 && s[2] == 69 && s[3] == 81 && s[4] == 85 && s[5] == 69 && s[6] == 78 && s[7] == 67 && s[8] == 89 && s[9] == 32 && s[10] == 82 && s[11] == 65 && s[12] == 84 && s[13] == 73 && s[14] == 79 { assert(s =~= seq![70u8, 82, 69, 81, 85, 69, 78, 67, 89, 32, 82, 65, 84, 73, 79]); }
}

/// Observable round-trip: the compact code of any observable parses
/// back to that observable.
pub proof fn lemma_observable_code_round_trip(o: Observable)
    ensures
        spec_parse_observable(spec_trim(spec_to_upper(spec_obs_code(o)))) == Ok::<
            Observable,
            ParsingError,
        >(o),
{
    let c = spec_obs_code(o);
    lemma_small_seq_obs(spec_trim(spec_to_upper(c)));
    lemma_upper_trim_fixed(c);
    match o {
        Observable::Pressure => {
            assert(spec_to_upper(c) =~= c);
        },
        Observable::Temperature => {
            assert(spec_to_upper(c) =~= c);
        },
        Observable::HumidityRate => {
            assert(spec_to_upper(c) =~= c);
        },
        Observable::FrequencyRatio => {
            assert(spec_to_upper(c) =~= c);
        },
        Observable::PseudoRange(f) => {
            lemma_code_case(67, f);
        },
        Observable::UnambiguousPhaseRange(f) => {
            lemma_code_case(76, f);
        },
        Observable::Power(f) => {
            lemma_code_case(87, f);
        },
    }
}

/// Observable round-trip, verbose form: the display name of any
/// observable parses back to that observable.
pub proof fn lemma_observable_verbose_round_trip(o: Observable)
    ensures
        spec_parse_observable(spec_trim(spec_to_upper(spec_obs_verbose(o)))) == Ok::<
            Observable,
            ParsingError,
        >(o),
{
    let c = spec_obs_verbose(o);
    lemma_upper_trim_fixed(c);
    lemma_small_seq_obs(spec_trim(spec_to_upper(c)));
    match o {
        Observable::Pressure => {
            assert(spec_to_upper(c) =~= seq![80u8, 82, 69, 83, 83, 85, 82, 69]);
        },
        Observable::Temperature => {
            assert(spec_to_upper(c) =~= seq![84u8, 69, 77, 80, 69, 82, 65, 84, 85, 82, 69]);
        },
        Observable::HumidityRate => {
            assert(spec_to_upper(c) =~= seq![77u8, 79, 73, 83, 84, 85, 82, 69, 32, 82, 65, 84, 69]);
        },
        Observable::FrequencyRatio => {
            assert(spec_to_upper(c) =~= seq![70u8, 82, 69, 81, 85, 69, 78, 67, 89, 32, 82, 65, 84, 73, 79]);
        },
        Observable::PseudoRange(f) => {
            lemma_code_case(67, f);
        },
        Observable::UnambiguousPhaseRange(f) => {
            lemma_code_case(76, f);
        },
        Observable::Power(f) => {
            lemma_code_case(87, f);
        },
    }
}

/// An uppercased keyword with non-blank edges is left unchanged by
/// trimming, and uppercasing keeps its length.
proof fn lemma_upper_trim_fixed(c: Seq<u8>)
    requires
        c.len() >= 1,
        forall|i: int| 0 <= i < c.len() ==> !spec_is_ws(#[trigger] c[i]) || c[i] == 32,
        !spec_is_ws(c[0]),
        !spec_is_ws(c[c.len() - 1]),
    ensures
        spec_trim(spec_to_upper(c)) == spec_to_upper(c),
{
    let u = spec_to_upper(c);
    assert(u.len() == c.len());
    assert forall|i: int| 0 <= i < u.len() implies u[i] == spec_upper_byte(c[i]) by {}
    assert(!spec_is_ws(u[0]));
    assert(!spec_is_ws(u[u.len() - 1]));
    crate::text::lemma_trim_char(u, 0, u.len() as int);
    assert(u.subrange(0, u.len() as int) =~= u);
}

/// A two-byte code `X` + frequency digit uppercases to itself and
/// parses through the frequency digit.
proof fn lemma_code_case(prefix: u8, f: Frequency)
    requires
        prefix == 67 || prefix == 76 || prefix == 87,
    ensures
        spec_to_upper(seq![prefix, spec_frequency_code(f)]) == seq![prefix, spec_frequency_code(f)],
        spec_parse_observable(seq![prefix, spec_frequency_code(f)]) == (if prefix == 76 {
            Ok::<Observable, ParsingError>(Observable::UnambiguousPhaseRange(f))
        } else if prefix == 67 {
            Ok::<Observable, ParsingError>(Observable::PseudoRange(f))
        } else {
            Ok::<Observable, ParsingError>(Observable::Power(f))
        }),
{
    let c = seq![prefix, spec_frequency_code(f)];
    assert(spec_to_upper(c) =~= c);
    lemma_small_seq_obs(c);
    assert(c.subrange(1, 2) =~= seq![spec_frequency_code(f)]);
    crate::frequency::lemma_frequency_round_trip(f);
}

} // verus!
