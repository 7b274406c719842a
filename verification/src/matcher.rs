//! Ground station matchers: the four ways a beacon can be looked up
//! in a file's roster.

use vstd::prelude::*;

use crate::domes::DOMES;

verus! {

/// [Matcher] identifies a ground station in a roster, by file code,
/// site name, mnemonic label, or DOMES number.
#[derive(Debug, Clone, Copy)]
pub enum Matcher<'a> {
    /// Search by station code, which is file dependent.
    ID(u16),
    /// Search by full site name, exact bytes.
    Site(&'a [u8]),
    /// Search by the four-letter mnemonic label, exact bytes.
    Label(&'a [u8]),
    /// Search by DOMES site number.
    DOMES(DOMES),
}

} // verus!
