//! Epoch and measurement condition flags, one digit each.

use vstd::prelude::*;

use crate::errors::ParsingError;

verus! {

/// [EpochFlag] describes sampling conditions of one epoch.
#[derive(Debug, Clone, Copy, PartialEq, Eq, Structural, Hash)]
pub enum EpochFlag {
    /// Epoch is sane.
    OK,
    /// Power failure since the previous epoch.
    PowerFailure,
    /// Antenna being moved since the previous measurement.
    AntennaBeingMoved,
    /// New site occupation: end of kinematic data.
    NewSiteEndofKinematics,
    /// Header information follows, not actual measurements.
    HeaderDataFollowing,
    /// External event.
    ExternalEvent,
}

impl Default for EpochFlag {
    fn default() -> (r: Self)
        ensures
            r == EpochFlag::OK,
    {
        EpochFlag::OK
    }
}

/// Rank of an epoch flag, equal to its file digit.
pub open spec fn spec_epoch_flag_rank(f: EpochFlag) -> u8 {
    match f {
        EpochFlag::OK => 0,
        EpochFlag::PowerFailure => 1,
        EpochFlag::AntennaBeingMoved => 2,
        EpochFlag::NewSiteEndofKinematics => 3,
        EpochFlag::HeaderDataFollowing => 4,
        EpochFlag::ExternalEvent => 5,
    }
}

/// Epoch flag denoted by a one-digit text field.
pub open spec fn spec_parse_epoch_flag(s: Seq<u8>) -> Result<EpochFlag, ParsingError> {
    if s.len() == 1 && 48 <= s[0] && s[0] <= 53 {
        Ok(spec_epoch_flag_of_rank((s[0] - 48) as u8))
    } else {
        Err(ParsingError::EpochFlag)
    }
}

pub open spec fn spec_epoch_flag_of_rank(d: u8) -> EpochFlag {
    if d == 0 {
        EpochFlag::OK
    } else if d == 1 {
        EpochFlag::PowerFailure
    } else if d == 2 {
        EpochFlag::AntennaBeingMoved
    } else if d == 3 {
        EpochFlag::NewSiteEndofKinematics
    } else if d == 4 {
        EpochFlag::HeaderDataFollowing
    } else {
        EpochFlag::ExternalEvent
    }
}

impl EpochFlag {
    /// Parses an epoch flag from its one-digit text.
    pub fn parse(s: &[u8]) -> (r: Result<EpochFlag, ParsingError>)
        ensures
            r == spec_parse_epoch_flag(s@),
    {
        if s.len() == 1 && 48 <= s[0] && s[0] <= 53 {
            Ok(Self::of_rank(s[0] - 48))
        } else {
            Err(ParsingError::EpochFlag)
        }
    }

    /// The flag of a rank; ranks above five mean an external event.
    pub fn of_rank(d: u8) -> (r: EpochFlag)
        ensures
            r == spec_epoch_flag_of_rank(d),
    {
        if d == 0 {
            EpochFlag::OK
        } else if d == 1 {
            EpochFlag::PowerFailure
        } else if d == 2 {
            EpochFlag::AntennaBeingMoved
        } else if d == 3 {
            EpochFlag::NewSiteEndofKinematics
        } else if d == 4 {
            EpochFlag::HeaderDataFollowing
        } else {
            EpochFlag::ExternalEvent
        }
    }

    /// Rank of this flag, equal to its file digit value.
    pub fn rank(self) -> (r: u8)
        ensures
            r == spec_epoch_flag_rank(self),
    {
        match self {
            EpochFlag::OK => 0,
            EpochFlag::PowerFailure => 1,
            EpochFlag::AntennaBeingMoved => 2,
            EpochFlag::NewSiteEndofKinematics => 3,
            EpochFlag::HeaderDataFollowing => 4,
            EpochFlag::ExternalEvent => 5,
        }
    }

    /// The one-digit text of this flag.
    pub fn code(self) -> (r: u8)
        ensures
            r == spec_epoch_flag_rank(self) + 48,
    {
        self.rank() + 48
    }
}

/// Parsing the digit of any epoch flag returns the flag.
pub proof fn lemma_epoch_flag_round_trip(f: EpochFlag)
    ensures
        spec_parse_epoch_flag(seq![(spec_epoch_flag_rank(f) + 48) as u8]) == Ok::<
            EpochFlag,
            ParsingError,
        >(f),
{
}

/// [MeasurementFlag] describes sampling conditions of one
/// measurement set.
#[derive(Debug, Clone, Copy, PartialEq, Eq, Structural, Hash)]
pub enum MeasurementFlag {
    /// Measurements are sane.
    OK,
    /// Power failure since the previous epoch.
    PowerFailure,
    /// Antenna being moved since the previous measurement.
    AntennaBeingMoved,
    /// New site occupation: end of kinematic data.
    NewSiteEndofKinematics,
    /// Header information follows, not actual measurements.
    HeaderDataFollowing,
    /// External event.
    ExternalEvent,
}

impl Default for MeasurementFlag {
    fn default() -> (r: Self)
        ensures
            r == MeasurementFlag::OK,
    {
        MeasurementFlag::OK
    }
}

pub open spec fn spec_measurement_flag_rank(f: MeasurementFlag) -> u8 {
    match f {
        MeasurementFlag::OK => 0,
        MeasurementFlag::PowerFailure => 1,
        MeasurementFlag::AntennaBeingMoved => 2,
        MeasurementFlag::NewSiteEndofKinematics => 3,
        MeasurementFlag::HeaderDataFollowing => 4,
        MeasurementFlag::ExternalEvent => 5,
    }
}

pub open spec fn spec_parse_measurement_flag(s: Seq<u8>) -> Result<MeasurementFlag, ParsingError> {
    if s.len() == 1 && 48 <= s[0] && s[0] <= 53 {
        Ok(spec_measurement_flag_of_rank((s[0] - 48) as u8))
    } else {
        Err(ParsingError::MeasurementFlag)
    }
}

pub open spec fn spec_measurement_flag_of_rank(d: u8) -> MeasurementFlag {
    if d == 0 {
        MeasurementFlag::OK
    } else if d == 1 {
        MeasurementFlag::PowerFailure
    } else if d == 2 {
        MeasurementFlag::AntennaBeingMoved
    } else if d == 3 {
        MeasurementFlag::NewSiteEndofKinematics
    } else if d == 4 {
        MeasurementFlag::HeaderDataFollowing
    } else {
        MeasurementFlag::ExternalEvent
    }
}

impl MeasurementFlag {
    /// Parses a measurement flag from its one-digit text.
    pub fn parse(s: &[u8]) -> (r: Result<MeasurementFlag, ParsingError>)
        ensures
            r == spec_parse_measurement_flag(s@),
    {
        if s.len() == 1 && 48 <= s[0] && s[0] <= 53 {
            Ok(Self::of_rank(s[0] - 48))
        } else {
            Err(ParsingError::MeasurementFlag)
        }
    }

    pub fn of_rank(d: u8) -> (r: MeasurementFlag)
        ensures
            r == spec_measurement_flag_of_rank(d),
    {
        if d == 0 {
            MeasurementFlag::OK
        } else if d == 1 {
            MeasurementFlag::PowerFailure
        } else if d == 2 {
            MeasurementFlag::AntennaBeingMoved
        } else if d == 3 {
            MeasurementFlag::NewSiteEndofKinematics
        } else if d == 4 {
            MeasurementFlag::HeaderDataFollowing
        } else {
            MeasurementFlag::ExternalEvent
        }
    }

    /// The one-digit text of this flag.
    pub fn code(self) -> (r: u8)
        ensures
            r == spec_measurement_flag_rank(self) + 48,
    {
        match self {
            MeasurementFlag::OK => 48,
            MeasurementFlag::PowerFailure => 49,
            MeasurementFlag::AntennaBeingMoved => 50,
            MeasurementFlag::NewSiteEndofKinematics => 51,
            MeasurementFlag::HeaderDataFollowing => 52,
            MeasurementFlag::ExternalEvent => 53,
        }
    }
}

} // verus!
