//! The two DORIS carrier frequencies and their one-digit codes.

use vstd::prelude::*;

use crate::errors::ParsingError;

verus! {

/// One of the two DORIS carrier frequencies.
#[derive(Debug, Clone, Copy, PartialEq, Eq, Structural, Hash)]
pub enum Frequency {
    /// DORIS #1 frequency (S band, 2.03625 GHz nominal)
    DORIS1,
    /// DORIS #2 frequency (U2 band, 401.25 MHz nominal)
    DORIS2,
}

impl Default for Frequency {
    fn default() -> (r: Self)
        ensures
            r == Frequency::DORIS1,
    {
        Frequency::DORIS1
    }
}

/// One-digit text code of a frequency.
pub open spec fn spec_frequency_code(f: Frequency) -> u8 {
    match f {
        Frequency::DORIS1 => 49,
        Frequency::DORIS2 => 50,
    }
}

/// Frequency denoted by a text field, if any: exactly "1" or "2".
pub open spec fn spec_parse_frequency(s: Seq<u8>) -> Result<Frequency, ParsingError> {
    if s =~= seq![49u8] {
        Ok(Frequency::DORIS1)
    } else if s =~= seq![50u8] {
        Ok(Frequency::DORIS2)
    } else {
        Err(ParsingError::Frequency)
    }
}

impl Frequency {
    /// Parses a frequency from its one-digit code, "1" or "2".
    pub fn parse(s: &[u8]) -> (r: Result<Frequency, ParsingError>)
        ensures
            r == spec_parse_frequency(s@),
    {
        if s.len() == 1 && s[0] == 49 {
            proof {
                assert(s@ =~= seq![49u8]);
            }
            Ok(Frequency::DORIS1)
        } else if s.len() == 1 && s[0] == 50 {
            proof {
                assert(s@ =~= seq![50u8]);
            }
            Ok(Frequency::DORIS2)
        } else {
            proof {
                assert(!(s@ =~= seq![49u8]));
                assert(!(s@ =~= seq![50u8]));
            }
            Err(ParsingError::Frequency)
        }
    }

    /// The one-digit code of this frequency.
    pub fn code(self) -> (r: u8)
        ensures
            r == spec_frequency_code(self),
    {
        match self {
            Frequency::DORIS1 => 49,
            Frequency::DORIS2 => 50,
        }
    }

    /// Frequency denoted by a numeric tag: 2 names DORIS2, anything
    /// else DORIS1.
    pub fn from_u8(v: u8) -> (r: Frequency)
        ensures
            r == (if v == 2 {
                Frequency::DORIS2
            } else {
                Frequency::DORIS1
            }),
    {
        if v == 2 {
            Frequency::DORIS2
        } else {
            Frequency::DORIS1
        }
    }
}

/// Parsing the one-digit code of any frequency returns that frequency.
pub proof fn lemma_frequency_round_trip(f: Frequency)
    ensures
        spec_parse_frequency(seq![spec_frequency_code(f)]) == Ok::<Frequency, ParsingError>(f),
{
    match f {
        Frequency::DORIS1 => {
            assert(seq![spec_frequency_code(f)] =~= seq![49u8]);
        },
        Frequency::DORIS2 => {
            assert(seq![spec_frequency_code(f)] =~= seq![50u8]);
            assert(!(seq![50u8] =~= seq![49u8])) by {
                if seq![50u8] =~= seq![49u8] {
                    assert(seq![50u8][0] == seq![49u8][0]);
                }
            }
        },
    }
}

} // verus!
