//! Reader, writer and in-memory model for DORIS observation files:
//! a fixed-column text format produced by satellite-borne DORIS
//! receivers, pairing a header (satellite identity, beacon roster,
//! observable schema) with a chronological record of per-epoch
//! measurements grouped by ground station.

pub mod antenna;
pub mod cospar;
pub mod domes;
pub mod doris;
pub mod duration;
pub mod epoch;
pub mod errors;
pub mod flags;
pub mod frequency;
pub mod header;
pub mod lines;
pub mod numeric;
pub mod observable;
pub mod markers;
pub mod matcher;
pub mod production;
pub mod record;
pub mod receiver;
pub mod snr;
pub mod station;
pub mod version;
pub mod text;
