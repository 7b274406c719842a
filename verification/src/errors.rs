//! Error taxonomy of the library.

use vstd::prelude::*;

verus! {

/// Errors that may rise when parsing DORIS files.
#[derive(Debug, Clone, Copy, PartialEq, Eq, Structural)]
pub enum ParsingError {
    /// First header line declares a non-"O" type or a non-"D" constellation.
    InvalidDoris,
    /// A header line was shorter than the 60 content columns.
    HeaderLineTooShort,
    /// Malformed `MM.mm` revision string.
    Version,
    /// Failed to parse a phase observation flag.
    ObservationFlag,
    /// Unrecognized observable code.
    Observable,
    /// Invalid receiver description.
    Receiver,
    /// Invalid frequency code.
    Frequency,
    /// Malformed COSPAR launch identifier.
    COSPAR,
    /// Malformed DOMES site identifier.
    DOMES,
    /// L1/L2 date offset field did not parse.
    DorisL1L2DateOffset,
    /// Ground station description line did not parse.
    GroundStation,
    /// Invalid epoch field layout or field value.
    EpochFormat,
    /// Epoch text did not parse.
    EpochParsing,
    /// File name does not follow the standard convention.
    NonStandardFileName,
    /// Receiver clock offset field did not parse.
    ClockOffset,
    /// Station sub-block identifier not decodable.
    StationFormat,
    /// Unrecognized SNR code.
    SNR,
    /// Unrecognized epoch flag.
    EpochFlag,
    /// Unrecognized measurement flag.
    MeasurementFlag,
}

/// Errors that may rise when formatting DORIS files into an output
/// device; the in-memory formatters of this library cannot fail.
#[derive(Debug, Clone, Copy, PartialEq, Eq, Structural)]
pub enum FormattingError {
    /// Write I/O failure.
    OutputError,
}

/// Errors of the query surface.
#[derive(Debug, Clone, Copy, PartialEq, Eq, Structural)]
pub enum Error {
    /// Fewer than two epochs: no sampling rate can be determined.
    UndeterminedSamplingRate,
}

} // verus!
