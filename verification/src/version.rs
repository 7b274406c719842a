//! File format revision numbers, written `MM.mm`.

use vstd::prelude::*;

use crate::errors::ParsingError;
use crate::numeric::{find_byte, lemma_find_byte, spec_find_byte};
use crate::text::{is_uint_text, uint_text_val};

verus! {

/// A file format revision: major and minor numbers.
#[derive(Debug, Clone, Copy, PartialEq, Eq, Structural, Hash)]
pub struct Version {
    pub major: u8,
    pub minor: u8,
}

impl Default for Version {
    fn default() -> (r: Self)
        ensures
            r == (Version { major: 0, minor: 0 }),
    {
        Version { major: 0, minor: 0 }
    }
}

/// Revision denoted by trimmed `MM.mm` text, if any.
pub open spec fn spec_parse_version(s: Seq<u8>) -> Result<Version, ParsingError> {
    let dot = spec_find_byte(s, 46);
    if dot < s.len() {
        let maj = s.subrange(0, dot);
        let min = s.subrange(dot + 1, s.len() as int);
        if is_uint_text(maj) && uint_text_val(maj) <= 255 && is_uint_text(min) && uint_text_val(
            min,
        ) <= 255 {
            Ok(
                Version {
                    major: uint_text_val(maj) as u8,
                    minor: uint_text_val(min) as u8,
                },
            )
        } else {
            Err(ParsingError::Version)
        }
    } else {
        Err(ParsingError::Version)
    }
}

impl Version {
    /// Parses a revision from trimmed `MM.mm` text.
    pub fn parse(s: &[u8]) -> (r: Result<Version, ParsingError>)
        ensures
            r == spec_parse_version(s@),
    {
        let len: usize = s.len();
        let dot: usize = find_byte(s, 46);
        proof {
            lemma_find_byte(s@, 46);
        }
        if dot >= len {
            return Err(ParsingError::Version);
        }
        let maj_s: &[u8] = &s[0..dot];
        let min_s: &[u8] = &s[dot + 1..len];
        proof {
            assert(maj_s@ =~= s@.subrange(0, dot as int));
            assert(min_s@ =~= s@.subrange(dot + 1, len as int));
        }
        let major: u8 = match crate::text::parse_u8(maj_s) {
            Some(v) => v,
            None => {
                return Err(ParsingError::Version);
            },
        };
        let minor: u8 = match crate::text::parse_u8(min_s) {
            Some(v) => v,
            None => {
                return Err(ParsingError::Version);
            },
        };
        Ok(Version { major, minor })
    }
}

} // verus!
