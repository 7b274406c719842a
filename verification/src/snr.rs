//! Signal-to-noise ratio buckets and their one-digit codes.

use vstd::prelude::*;

use crate::errors::ParsingError;
use crate::text::{spec_trim, trim};
use crate::numeric::Decimal;

verus! {

/// [SNR] (signal to noise ratio) bucket attached to frequency
/// dependent measurements, in dB·Hz.
#[derive(Debug, Clone, Copy, PartialEq, Eq, Structural, Hash)]
pub enum SNR {
    /// SNR ~= 0 dB/Hz
    DbHz0,
    /// SNR < 12 dB/Hz
    DbHz12,
    /// 12 dB/Hz <= SNR < 17 dB/Hz
    DbHz12_17,
    /// 18 dB/Hz <= SNR < 23 dB/Hz
    DbHz18_23,
    /// 24 dB/Hz <= SNR < 29 dB/Hz
    DbHz24_29,
    /// 30 dB/Hz <= SNR < 35 dB/Hz
    DbHz30_35,
    /// 36 dB/Hz <= SNR < 41 dB/Hz
    DbHz36_41,
    /// 42 dB/Hz <= SNR < 47 dB/Hz
    DbHz42_47,
    /// 48 dB/Hz <= SNR < 53 dB/Hz
    DbHz48_53,
    /// SNR >= 54 dB/Hz
    DbHz54,
}

impl Default for SNR {
    fn default() -> (r: Self)
        ensures
            r == SNR::DbHz24_29,
    {
        SNR::DbHz24_29
    }
}

/// Position of a bucket in the ascending bucket order.
pub open spec fn spec_snr_rank(s: SNR) -> u8 {
    match s {
        SNR::DbHz0 => 0,
        SNR::DbHz12 => 1,
        SNR::DbHz12_17 => 2,
        SNR::DbHz18_23 => 3,
        SNR::DbHz24_29 => 4,
        SNR::DbHz30_35 => 5,
        SNR::DbHz36_41 => 6,
        SNR::DbHz42_47 => 7,
        SNR::DbHz48_53 => 8,
        SNR::DbHz54 => 9,
    }
}

/// The bucket of a given rank; a rank past the last bucket falls
/// back to the unmeasured one.
pub open spec fn spec_snr_of_rank(d: u8) -> SNR {
    if d == 0 {
        SNR::DbHz0
    } else if d == 1 {
        SNR::DbHz12
    } else if d == 2 {
        SNR::DbHz12_17
    } else if d == 3 {
        SNR::DbHz18_23
    } else if d == 4 {
        SNR::DbHz24_29
    } else if d == 5 {
        SNR::DbHz30_35
    } else if d == 6 {
        SNR::DbHz36_41
    } else if d == 7 {
        SNR::DbHz42_47
    } else if d == 8 {
        SNR::DbHz48_53
    } else if d == 9 {
        SNR::DbHz54
    } else {
        SNR::DbHz0
    }
}

/// Bucket denoted by a trimmed text field: one decimal digit, or one
/// of the verbose synonyms "bad", "weak", "strong", "excellent"
/// (spelled below as byte sequences).
pub open spec fn spec_parse_snr(s: Seq<u8>) -> Result<SNR, ParsingError> {
    if s.len() == 1 && 48 <= s[0] && s[0] <= 57 {
        Ok(spec_snr_of_rank((s[0] - 48) as u8))
    } else if s == seq![98u8, 97, 100] {
        Ok(SNR::DbHz18_23)
    } else if s == seq![119u8, 101, 97, 107] {
        Ok(SNR::DbHz24_29)
    } else if s == seq![115u8, 116, 114, 111, 110, 103] {
        Ok(SNR::DbHz30_35)
    } else if s == seq![101u8, 120, 99, 101, 108, 108, 101, 110, 116] {
        Ok(SNR::DbHz48_53)
    } else {
        Err(ParsingError::SNR)
    }
}

impl SNR {
    /// Parses an [SNR] bucket from a standard DORIS RINEX field.
    pub fn parse(code: &[u8]) -> (r: Result<SNR, ParsingError>)
        ensures
            r == spec_parse_snr(spec_trim(code@)),
    {
        let t: &[u8] = trim(code);
        if t.len() == 1 && 48 <= t[0] && t[0] <= 57 {
            let d: u8 = t[0] - 48;
            return Ok(Self::of_rank(d));
        }
        if t.len() == 3 && t[0] == 98 && t[1] == 97 && t[2] == 100 {
            proof {
                assert(t@ =~= seq![98u8, 97, 100]);
            }
            return Ok(SNR::DbHz18_23);
        }
        if t.len() == 4 && t[0] == 119 && t[1] == 101 && t[2] == 97 && t[3] == 107 {
            proof {
                assert(t@ =~= seq![119u8, 101, 97, 107]);
            }
            return Ok(SNR::DbHz24_29);
        }
        if t.len() == 6 && t[0] == 115 && t[1] == 116 && t[2] == 114 && t[3] == 111 && t[4] == 110
            && t[5] == 103 {
            proof {
                assert(t@ =~= seq![115u8, 116, 114, 111, 110, 103]);
            }
            return Ok(SNR::DbHz30_35);
        }
        if t.len() == 9 && t[0] == 101 && t[1] == 120 && t[2] == 99 && t[3] == 101 && t[4] == 108
            && t[5] == 108 && t[6] == 101 && t[7] == 110 && t[8] == 116 {
            proof {
                assert(t@ =~= seq![101u8, 120, 99, 101, 108, 108, 101, 110, 116]);
            }
            return Ok(SNR::DbHz48_53);
        }
        proof {
            assert(!(t@ == seq![98u8, 97, 100]));
            assert(!(t@ == seq![119u8, 101, 97, 107]));
            assert(!(t@ == seq![115u8, 116, 114, 111, 110, 103]));
            assert(!(t@ == seq![101u8, 120, 99, 101, 108, 108, 101, 110, 116]));
        }
        Err(ParsingError::SNR)
    }

    /// The one-digit code of this bucket, as written in files.
    pub fn code(self) -> (r: u8)
        ensures
            r == spec_snr_rank(self) + 48,
    {
        self.rank() + 48
    }

    /// Position of this bucket in the ascending bucket order.
    pub fn rank(self) -> (r: u8)
        ensures
            r == spec_snr_rank(self),
    {
        match self {
            SNR::DbHz0 => 0,
            SNR::DbHz12 => 1,
            SNR::DbHz12_17 => 2,
            SNR::DbHz18_23 => 3,
            SNR::DbHz24_29 => 4,
            SNR::DbHz30_35 => 5,
            SNR::DbHz36_41 => 6,
            SNR::DbHz42_47 => 7,
            SNR::DbHz48_53 => 8,
            SNR::DbHz54 => 9,
        }
    }

    /// The bucket of a given rank; rank 0 is the unmeasured bucket,
    /// and ranks past the last bucket fall back to it.
    pub fn of_rank(d: u8) -> (r: SNR)
        ensures
            r == spec_snr_of_rank(d),
    {
        if d == 0 {
            SNR::DbHz0
        } else if d == 1 {
            SNR::DbHz12
        } else if d == 2 {
            SNR::DbHz12_17
        } else if d == 3 {
            SNR::DbHz18_23
        } else if d == 4 {
            SNR::DbHz24_29
        } else if d == 5 {
            SNR::DbHz30_35
        } else if d == 6 {
            SNR::DbHz36_41
        } else if d == 7 {
            SNR::DbHz42_47
        } else if d == 8 {
            SNR::DbHz48_53
        } else if d == 9 {
            SNR::DbHz54
        } else {
            SNR::DbHz0
        }
    }

    /// Quantizes a measured ratio, in dB·Hz, into its bucket: values
    /// below 12 fall in the lowest measured bucket, then each bucket
    /// covers values up to and including its upper bound, and values
    /// above 53 fall in the top bucket.
    pub fn quantize(f_db: Decimal) -> (r: SNR)
        requires
            f_db.wf(),
        ensures
            r == spec_quantize_snr(f_db),
    {
        if f_db.lt_int(12) {
            SNR::DbHz12
        } else if f_db.le_int(17) {
            SNR::DbHz12_17
        } else if f_db.le_int(23) {
            SNR::DbHz18_23
        } else if f_db.le_int(29) {
            SNR::DbHz24_29
        } else if f_db.le_int(35) {
            SNR::DbHz30_35
        } else if f_db.le_int(41) {
            SNR::DbHz36_41
        } else if f_db.le_int(47) {
            SNR::DbHz42_47
        } else if f_db.le_int(53) {
            SNR::DbHz48_53
        } else {
            SNR::DbHz54
        }
    }

    /// True for buckets up to 18-23 dB·Hz: a bad signal level.
    pub fn bad(self) -> (r: bool)
        ensures
            r == (spec_snr_rank(self) <= 3),
    {
        self.rank() <= 3
    }

    /// True for buckets below 30-35 dB·Hz: a weak signal level.
    pub fn weak(self) -> (r: bool)
        ensures
            r == (spec_snr_rank(self) < 5),
    {
        self.rank() < 5
    }

    /// True from the 30-35 dB·Hz bucket on: a strong signal level.
    pub fn strong(self) -> (r: bool)
        ensures
            r == (spec_snr_rank(self) >= 5),
    {
        self.rank() >= 5
    }

    /// True above the 42-47 dB·Hz bucket: an excellent signal level.
    pub fn excellent(self) -> (r: bool)
        ensures
            r == (spec_snr_rank(self) > 7),
    {
        self.rank() > 7
    }
}

/// Bucket of a measured ratio: the least bucket whose upper bound is
/// not exceeded, never the unmeasured `DbHz0`.
pub open spec fn spec_quantize_snr(f_db: Decimal) -> SNR {
    if f_db.spec_lt_int(12) {
        SNR::DbHz12
    } else if f_db.spec_le_int(17) {
        SNR::DbHz12_17
    } else if f_db.spec_le_int(23) {
        SNR::DbHz18_23
    } else if f_db.spec_le_int(29) {
        SNR::DbHz24_29
    } else if f_db.spec_le_int(35) {
        SNR::DbHz30_35
    } else if f_db.spec_le_int(41) {
        SNR::DbHz36_41
    } else if f_db.spec_le_int(47) {
        SNR::DbHz42_47
    } else if f_db.spec_le_int(53) {
        SNR::DbHz48_53
    } else {
        SNR::DbHz54
    }
}

/// Every decimal digit names a bucket, and the code of that bucket is
/// the digit itself.
pub proof fn lemma_snr_round_trip(d: u8)
    requires
        48 <= d <= 57,
    ensures
        spec_parse_snr(seq![d]) matches Ok(s) && spec_snr_rank(s) + 48 == d,
{
}

} // verus!
