//! Receiver antenna description.

use vstd::prelude::*;

use crate::lines::{fmt_doris, spec_fmt_doris};
use crate::numeric::Decimal;
use crate::text::{bytes_eq, pad_right, spec_pad_right};

verus! {

/// Antenna description: model, serial number, optional approximate
/// base coordinates and eccentricities, all in meters.
#[derive(Debug, Clone, Hash)]
pub struct Antenna {
    /// Name of this antenna model.
    pub model: Vec<u8>,
    /// Serial number.
    pub serial_number: Vec<u8>,
    /// Approximate coordinates of the antenna base.
    pub approx_coordinates: Option<(Decimal, Decimal, Decimal)>,
    /// Height eccentricity, referenced to the base point.
    pub height: Option<Decimal>,
    /// Eastern eccentricity, referenced to the base point.
    pub eastern: Option<Decimal>,
    /// Northern eccentricity, referenced to the base point.
    pub northern: Option<Decimal>,
}

/// Spec-level image of an antenna description.
#[verifier::ext_equal]
pub struct AntennaView {
    pub model: Seq<u8>,
    pub serial_number: Seq<u8>,
    pub approx_coordinates: Option<(Decimal, Decimal, Decimal)>,
    pub height: Option<Decimal>,
    pub eastern: Option<Decimal>,
    pub northern: Option<Decimal>,
}

impl View for Antenna {
    type V = AntennaView;

    open spec fn view(&self) -> AntennaView {
        AntennaView {
            model: self.model@,
            serial_number: self.serial_number@,
            approx_coordinates: self.approx_coordinates,
            height: self.height,
            eastern: self.eastern,
            northern: self.northern,
        }
    }
}

impl PartialEq for Antenna {
    fn eq(&self, other: &Antenna) -> (r: bool)
        ensures
            r == (self@ == other@),
    {
        let coords_eq: bool = match (&self.approx_coordinates, &other.approx_coordinates) {
            (None, None) => true,
            (Some(a), Some(b)) => a.0 == b.0 && a.1 == b.1 && a.2 == b.2,
            _ => false,
        };
        let opt_eq = |x: &Option<Decimal>, y: &Option<Decimal>| -> (r: bool)
            ensures
                r == (*x == *y),
            {
                match (x, y) {
                    (Option::None, Option::None) => true,
                    (Option::Some(a), Option::Some(b)) => a == b,
                    _ => false,
                }
            };
        let r = bytes_eq(self.model.as_slice(), other.model.as_slice()) && bytes_eq(
            self.serial_number.as_slice(),
            other.serial_number.as_slice(),
        ) && coords_eq && opt_eq(&self.height, &other.height) && opt_eq(
            &self.eastern,
            &other.eastern,
        ) && opt_eq(&self.northern, &other.northern);
        proof {
            if r {
                assert(self@ =~= other@);
            }
        }
        r
    }
}

impl vstd::std_specs::cmp::PartialEqSpecImpl for Antenna {
    open spec fn obeys_eq_spec() -> bool {
        true
    }

    open spec fn eq_spec(&self, other: &Antenna) -> bool {
        self@ == other@
    }
}

impl Default for Antenna {
    fn default() -> (r: Self)
        ensures
            r@.model == Seq::<u8>::empty(),
            r@.serial_number == Seq::<u8>::empty(),
            r@.approx_coordinates is None,
            r@.height is None,
            r@.eastern is None,
            r@.northern is None,
    {
        Antenna {
            model: Vec::new(),
            serial_number: Vec::new(),
            approx_coordinates: None,
            height: None,
            eastern: None,
            northern: None,
        }
    }
}


/// Marker bytes of the antenna identity line.
pub open spec fn spec_ant_type_marker() -> Seq<u8> {
    seq![65u8, 78, 84, 32, 35, 32, 47, 32, 84, 89, 80, 69]
}

/// Marker bytes of the approximate position line.
pub open spec fn spec_approx_position_marker() -> Seq<u8> {
    seq![65u8, 80, 80, 82, 79, 88, 32, 80, 79, 83, 73, 84, 73, 79, 78, 32, 88, 89, 90]
}

/// Marker bytes of the eccentricity line.
pub open spec fn spec_delta_hen_marker() -> Seq<u8> {
    seq![65u8, 78, 84, 69, 78, 78, 65, 58, 32, 68, 69, 76, 84, 65, 32, 72, 47, 69, 47, 78]
}

/// An optional eccentricity, with zero for an absent component.
pub open spec fn spec_or_zero(o: Option<Decimal>) -> Decimal {
    match o {
        Some(d) => d,
        None => Decimal { mantissa: 0, exponent: 0 },
    }
}

/// The formatted antenna lines: serial number and model, the
/// approximate position when present, and the eccentricities, each
/// value in fourteen columns with four decimals, each line with its
/// marker and newline.
pub open spec fn spec_format_antenna(a: AntennaView) -> Seq<u8> {
    spec_fmt_doris(spec_pad_right(a.serial_number, 20, 32) + a.model, spec_ant_type_marker())
        + seq![10u8] + (match a.approx_coordinates {
        Some(c) => spec_fmt_doris(
            crate::numeric::spec_fmt_fixed(c.0, 4, 14) + crate::numeric::spec_fmt_fixed(c.1, 4, 14)
                + crate::numeric::spec_fmt_fixed(c.2, 4, 14),
            spec_approx_position_marker(),
        ) + seq![10u8],
        None => Seq::empty(),
    }) + spec_fmt_doris(
        crate::numeric::spec_fmt_fixed(spec_or_zero(a.height), 4, 14)
            + crate::numeric::spec_fmt_fixed(spec_or_zero(a.eastern), 4, 14)
            + crate::numeric::spec_fmt_fixed(spec_or_zero(a.northern), 4, 14),
        spec_delta_hen_marker(),
    ) + seq![10u8]
}

impl Antenna {
    /// An equal antenna, copied field by field.
    pub(crate) fn duplicate(&self) -> (r: Antenna)
        ensures
            r@ == self@,
    {
        let r = Antenna {
            model: vstd::slice::slice_to_vec(self.model.as_slice()),
            serial_number: vstd::slice::slice_to_vec(self.serial_number.as_slice()),
            approx_coordinates: self.approx_coordinates,
            height: self.height,
            eastern: self.eastern,
            northern: self.northern,
        };
        proof {
            assert(r@ =~= self@);
        }
        r
    }

    /// Sets the desired model.
    pub fn with_model(&self, m: &[u8]) -> (r: Self)
        ensures
            r@ == (AntennaView { model: m@, ..self@ }),
    {
        let mut s = self.duplicate();
        s.model = vstd::slice::slice_to_vec(m);
        proof {
            assert(s@ =~= (AntennaView { model: m@, ..self@ }));
        }
        s
    }

    /// Sets the desired serial number.
    pub fn with_serial_number(&self, serial_number: &[u8]) -> (r: Self)
        ensures
            r@ == (AntennaView { serial_number: serial_number@, ..self@ }),
    {
        let mut s = self.duplicate();
        s.serial_number = vstd::slice::slice_to_vec(serial_number);
        proof {
            assert(s@ =~= (AntennaView { serial_number: serial_number@, ..self@ }));
        }
        s
    }

    /// Sets reference/base coordinates (3D).
    pub fn with_base_coordinates(&self, coords: (Decimal, Decimal, Decimal)) -> (r: Self)
        ensures
            r@ == (AntennaView { approx_coordinates: Some(coords), ..self@ }),
    {
        let mut s = self.duplicate();
        s.approx_coordinates = Some(coords);
        proof {
            assert(s@ =~= (AntennaView { approx_coordinates: Some(coords), ..self@ }));
        }
        s
    }

    /// Sets the height eccentricity component.
    pub fn with_height(&self, h: Decimal) -> (r: Self)
        ensures
            r@ == (AntennaView { height: Some(h), ..self@ }),
    {
        let mut s = self.duplicate();
        s.height = Some(h);
        proof {
            assert(s@ =~= (AntennaView { height: Some(h), ..self@ }));
        }
        s
    }

    /// Sets the eastern eccentricity component.
    pub fn with_eastern_component(&self, e: Decimal) -> (r: Self)
        ensures
            r@ == (AntennaView { eastern: Some(e), ..self@ }),
    {
        let mut s = self.duplicate();
        s.eastern = Some(e);
        proof {
            assert(s@ =~= (AntennaView { eastern: Some(e), ..self@ }));
        }
        s
    }

    /// Sets the northern eccentricity component.
    pub fn with_northern_component(&self, n: Decimal) -> (r: Self)
        ensures
            r@ == (AntennaView { northern: Some(n), ..self@ }),
    {
        let mut s = self.duplicate();
        s.northern = Some(n);
        proof {
            assert(s@ =~= (AntennaView { northern: Some(n), ..self@ }));
        }
        s
    }

    /// Formats the antenna lines: serial number and model, the
    /// approximate position when present, and the eccentricities
    /// (absent components written as zero), each value in fourteen
    /// columns with four decimals.
    #[verifier::rlimit(100)]
    pub fn format(&self) -> (r: Vec<u8>)
        requires
            (self@.approx_coordinates matches Some(c) ==> c.0.wf() && c.1.wf() && c.2.wf()),
            (self@.height matches Some(d) ==> d.wf()),
            (self@.eastern matches Some(d) ==> d.wf()),
            (self@.northern matches Some(d) ==> d.wf()),
        ensures
            r@ == spec_format_antenna(self@),
    {
        let mut content = pad_right(
            vstd::slice::slice_to_vec(self.serial_number.as_slice()),
            20,
            32,
        );
        let mut m = vstd::slice::slice_to_vec(self.model.as_slice());
        content.append(&mut m);
        let mut marker: Vec<u8> = Vec::new();
        marker.push(65);
        marker.push(78);
        marker.push(84);
        marker.push(32);
        marker.push(35);
        marker.push(32);
        marker.push(47);
        marker.push(32);
        marker.push(84);
        marker.push(89);
        marker.push(80);
        marker.push(69);
        proof {
            assert(marker@ =~= spec_ant_type_marker());
        }
        let mut out = fmt_doris(content.as_slice(), marker.as_slice());
        out.push(10);
        if let Some(coords) = self.approx_coordinates {
            let mut line = coords.0.fmt_fixed(4, 14);
            let mut c1 = coords.1.fmt_fixed(4, 14);
            line.append(&mut c1);
            let mut c2 = coords.2.fmt_fixed(4, 14);
            line.append(&mut c2);
            let mut marker2: Vec<u8> = Vec::new();
            marker2.push(65);
            marker2.push(80);
            marker2.push(80);
            marker2.push(82);
            marker2.push(79);
            marker2.push(88);
            marker2.push(32);
            marker2.push(80);
            marker2.push(79);
            marker2.push(83);
            marker2.push(73);
            marker2.push(84);
            marker2.push(73);
            marker2.push(79);
            marker2.push(78);
            marker2.push(32);
            marker2.push(88);
            marker2.push(89);
            marker2.push(90);
            proof {
                assert(marker2@ =~= spec_approx_position_marker());
            }
            let mut l = fmt_doris(line.as_slice(), marker2.as_slice());
            out.append(&mut l);
            out.push(10);
        }
        let h: Decimal = match self.height {
            Some(d) => d,
            None => Decimal::zero(),
        };
        let e: Decimal = match self.eastern {
            Some(d) => d,
            None => Decimal::zero(),
        };
        let n: Decimal = match self.northern {
            Some(d) => d,
            None => Decimal::zero(),
        };
        let mut line = h.fmt_fixed(4, 14);
        let mut p = e.fmt_fixed(4, 14);
        line.append(&mut p);
        let mut p = n.fmt_fixed(4, 14);
        line.append(&mut p);
        let mut marker3: Vec<u8> = Vec::new();
        marker3.push(65);
        marker3.push(78);
        marker3.push(84);
        marker3.push(69);
        marker3.push(78);
        marker3.push(78);
        marker3.push(65);
        marker3.push(58);
        marker3.push(32);
        marker3.push(68);
        marker3.push(69);
        marker3.push(76);
        marker3.push(84);
        marker3.push(65);
        marker3.push(32);
        marker3.push(72);
        marker3.push(47);
        marker3.push(69);
        marker3.push(47);
        marker3.push(78);
        proof {
            assert(marker3@ =~= spec_delta_hen_marker());
        }
        let mut l = fmt_doris(line.as_slice(), marker3.as_slice());
        out.append(&mut l);
        out.push(10);
        proof {
            assert(out@ =~= spec_format_antenna(self@));
        }
        out
    }
}

} // verus!
