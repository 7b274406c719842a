//! Onboard receiver description, one 60-column header line.

use vstd::prelude::*;

use crate::errors::ParsingError;
use crate::lines::{fmt_doris, spec_fmt_doris};
use crate::text::{bytes_eq, pad_right, spec_pad_right, spec_trim, trim};

verus! {

/// Receiver hardware description.
#[derive(Debug, Clone, Hash)]
pub struct Receiver {
    /// Receiver (hardware) model.
    pub model: Vec<u8>,
    /// Receiver (hardware) identification info.
    pub serial_number: Vec<u8>,
    /// Receiver embedded software info.
    pub firmware: Vec<u8>,
}

/// Spec-level image of a receiver description.
#[verifier::ext_equal]
pub struct ReceiverView {
    pub model: Seq<u8>,
    pub serial_number: Seq<u8>,
    pub firmware: Seq<u8>,
}

impl View for Receiver {
    type V = ReceiverView;

    open spec fn view(&self) -> ReceiverView {
        ReceiverView {
            model: self.model@,
            serial_number: self.serial_number@,
            firmware: self.firmware@,
        }
    }
}

impl PartialEq for Receiver {
    fn eq(&self, other: &Receiver) -> (r: bool)
        ensures
            r == (self@ == other@),
    {
        let r = bytes_eq(self.model.as_slice(), other.model.as_slice()) && bytes_eq(
            self.serial_number.as_slice(),
            other.serial_number.as_slice(),
        ) && bytes_eq(self.firmware.as_slice(), other.firmware.as_slice());
        proof {
            if r {
                assert(self@ =~= other@);
            }
        }
        r
    }
}

impl vstd::std_specs::cmp::PartialEqSpecImpl for Receiver {
    open spec fn obeys_eq_spec() -> bool {
        true
    }

    open spec fn eq_spec(&self, other: &Receiver) -> bool {
        self@ == other@
    }
}

impl Default for Receiver {
    fn default() -> (r: Self)
        ensures
            r@.model == Seq::<u8>::empty(),
            r@.serial_number == Seq::<u8>::empty(),
            r@.firmware == Seq::<u8>::empty(),
    {
        Receiver { model: Vec::new(), serial_number: Vec::new(), firmware: Vec::new() }
    }
}

/// Receiver denoted by a 60-column content field: serial number,
/// model and firmware in three 20-column fields.
pub open spec fn spec_parse_receiver(s: Seq<u8>) -> Result<ReceiverView, ParsingError> {
    if s.len() < 60 {
        Err(ParsingError::Receiver)
    } else {
        Ok(
            ReceiverView {
                serial_number: spec_trim(s.subrange(0, 20)),
                model: spec_trim(s.subrange(20, 40)),
                firmware: spec_trim(s.subrange(40, 60)),
            },
        )
    }
}

impl Receiver {
    /// An equal receiver, copied field by field.
    pub(crate) fn duplicate(&self) -> (r: Receiver)
        ensures
            r@ == self@,
    {
        let r = Receiver {
            model: vstd::slice::slice_to_vec(self.model.as_slice()),
            serial_number: vstd::slice::slice_to_vec(self.serial_number.as_slice()),
            firmware: vstd::slice::slice_to_vec(self.firmware.as_slice()),
        };
        proof {
            assert(r@ =~= self@);
        }
        r
    }

    /// Parses a receiver description from its three 20-column
    /// fields.
    pub fn parse(s: &[u8]) -> (r: Result<Receiver, ParsingError>)
        ensures
            match r {
                Ok(rx) => spec_parse_receiver(s@) == Ok::<ReceiverView, ParsingError>(rx@),
                Err(e) => spec_parse_receiver(s@) == Err::<ReceiverView, ParsingError>(e),
            },
    {
        if s.len() < 60 {
            return Err(ParsingError::Receiver);
        }
        let rx = Receiver {
            serial_number: vstd::slice::slice_to_vec(trim(&s[0..20])),
            model: vstd::slice::slice_to_vec(trim(&s[20..40])),
            firmware: vstd::slice::slice_to_vec(trim(&s[40..60])),
        };
        proof {
            assert(rx@ =~= (spec_parse_receiver(s@)->Ok_0));
        }
        Ok(rx)
    }

    /// Formats the receiver as a full header line, with its marker.
    pub fn format(&self) -> (r: Vec<u8>)
        ensures
            r@ == spec_fmt_doris(
                spec_pad_right(self@.serial_number, 20, 32) + spec_pad_right(self@.model, 20, 32)
                    + self@.firmware,
                spec_receiver_marker(),
            ),
    {
        let mut content = pad_right(vstd::slice::slice_to_vec(self.serial_number.as_slice()), 20, 32);
        let mut m = pad_right(vstd::slice::slice_to_vec(self.model.as_slice()), 20, 32);
        content.append(&mut m);
        let mut f = vstd::slice::slice_to_vec(self.firmware.as_slice());
        content.append(&mut f);
        let mut marker: Vec<u8> = Vec::new();
        marker.push(82);
        marker.push(69);
        marker.push(67);
        marker.push(32);
        marker.push(35);
        marker.push(32);
        marker.push(47);
        marker.push(32);
        marker.push(84);
        marker.push(89);
        marker.push(80);
        marker.push(69);
        marker.push(32);
        marker.push(47);
        marker.push(32);
        marker.push(86);
        marker.push(69);
        marker.push(82);
        marker.push(83);
        proof {
            assert(marker@ =~= spec_receiver_marker());
        }
        fmt_doris(content.as_slice(), marker.as_slice())
    }

    /// Copies and returns a receiver with the given model.
    pub fn with_model(&self, model: &[u8]) -> (r: Self)
        ensures
            r@.model == model@,
            r@.serial_number == self@.serial_number,
            r@.firmware == self@.firmware,
    {
        let mut s = self.duplicate();
        s.model = vstd::slice::slice_to_vec(model);
        s
    }

    /// Copies and returns a receiver with the given serial number.
    pub fn with_serial_number(&self, sn: &[u8]) -> (r: Self)
        ensures
            r@.serial_number == sn@,
            r@.model == self@.model,
            r@.firmware == self@.firmware,
    {
        let mut s = self.duplicate();
        s.serial_number = vstd::slice::slice_to_vec(sn);
        s
    }

    /// Copies and returns a receiver with the given firmware info.
    pub fn with_firmware(&self, firmware: &[u8]) -> (r: Self)
        ensures
            r@.firmware == firmware@,
            r@.model == self@.model,
            r@.serial_number == self@.serial_number,
    {
        let mut s = self.duplicate();
        s.firmware = vstd::slice::slice_to_vec(firmware);
        s
    }
}

/// The bytes of the receiver line marker.
pub open spec fn spec_receiver_marker() -> Seq<u8> {
    seq![82u8, 69, 67, 32, 35, 32, 47, 32, 84, 89, 80, 69, 32, 47, 32, 86, 69, 82, 83]
}

} // verus!
