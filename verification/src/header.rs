//! The file header: its in-memory model, the line-by-line parser and
//! the 60-column formatter.

use vstd::prelude::*;

use crate::antenna::{Antenna, AntennaView};
use crate::cospar::{spec_parse_cospar, COSPAR, COSPARView};
use crate::duration::Duration;
use crate::epoch::{Epoch, TimeScale};
use crate::errors::ParsingError;
use crate::lines::{fmt_doris, spec_fmt_doris};
use crate::markers::{
    marker_ant_type, marker_comment, marker_cospar_number, marker_end_of_header,
    marker_l2_l1_date_offset, marker_license_of_use, marker_nb_stations, marker_observer_agency,
    marker_pgm_run_by_date, marker_rec_type_vers, marker_satellite_name, marker_station_reference,
    marker_sys_obs_types, marker_sys_scale_factor, marker_time_of_first_obs,
    marker_time_of_last_obs, marker_version_type, spec_marker_ant_type, spec_marker_comment,
    spec_marker_cospar_number, spec_marker_end_of_header, spec_marker_l2_l1_date_offset,
    spec_marker_license_of_use, spec_marker_nb_stations, spec_marker_observer_agency,
    spec_marker_pgm_run_by_date, spec_marker_rec_type_vers, spec_marker_satellite_name,
    spec_marker_station_reference, spec_marker_sys_obs_types, spec_marker_sys_scale_factor,
    spec_marker_time_of_first_obs, spec_marker_time_of_last_obs, spec_marker_version_type,
};
use crate::numeric::Decimal;
use crate::observable::{spec_parse_observable, spec_to_upper, Observable};
use crate::receiver::{spec_parse_receiver, Receiver, ReceiverView};
use crate::station::{spec_parse_station, GroundStation, GroundStationView};
use crate::text::{
    is_uint_text, spec_contains, spec_is_ws, spec_tokens, spec_trim, trim, uint_text_val,
};
use crate::version::{spec_parse_version, Version};

verus! {

/// The DORIS header: satellite identity, production metadata, the
/// observable schema and the ground station roster.
#[derive(Debug, Clone)]
pub struct Header {
    /// File format revision.
    pub version: Version,
    /// Comments found in the header section.
    pub comments: Vec<Vec<u8>>,
    /// Name of the DORIS satellite.
    pub satellite: Vec<u8>,
    /// Software program name.
    pub program: Option<Vec<u8>>,
    /// Software operator.
    pub run_by: Option<Vec<u8>>,
    /// Date of publication.
    pub date: Option<Vec<u8>>,
    /// Observer name.
    pub observer: Option<Vec<u8>>,
    /// Production agency.
    pub agency: Option<Vec<u8>>,
    /// COSPAR launch number.
    pub cospar: Option<COSPAR>,
    /// Receiver hardware.
    pub receiver: Option<Receiver>,
    /// Receiver antenna.
    pub antenna: Option<Antenna>,
    /// File license.
    pub license: Option<Vec<u8>>,
    /// Digital object identifier.
    pub doi: Option<Vec<u8>>,
    /// Ordered observable schema of the record.
    pub observables: Vec<Observable>,
    /// Declared observable count of the schema line, kept as read.
    pub observables_count: u16,
    /// DORIS L1/L2 date offset.
    pub l1_l2_date_offset: Duration,
    /// Ground station roster, in file order.
    pub ground_stations: Vec<GroundStation>,
    /// First measurement instant, when declared.
    pub time_of_first_observation: Option<Epoch>,
    /// Last measurement instant, when declared.
    pub time_of_last_observation: Option<Epoch>,
}

/// Spec-level image of a header.
#[verifier::ext_equal]
pub struct HeaderView {
    pub version: Version,
    pub comments: Seq<Seq<u8>>,
    pub satellite: Seq<u8>,
    pub program: Option<Seq<u8>>,
    pub run_by: Option<Seq<u8>>,
    pub date: Option<Seq<u8>>,
    pub observer: Option<Seq<u8>>,
    pub agency: Option<Seq<u8>>,
    pub cospar: Option<COSPARView>,
    pub receiver: Option<ReceiverView>,
    pub antenna: Option<AntennaView>,
    pub license: Option<Seq<u8>>,
    pub doi: Option<Seq<u8>>,
    pub observables: Seq<Observable>,
    pub observables_count: u16,
    pub l1_l2_date_offset: Duration,
    pub ground_stations: Seq<GroundStationView>,
    pub time_of_first_observation: Option<Epoch>,
    pub time_of_last_observation: Option<Epoch>,
}

pub open spec fn spec_opt_view(o: Option<Vec<u8>>) -> Option<Seq<u8>> {
    match o {
        Some(v) => Some(v@),
        None => None,
    }
}

impl View for Header {
    type V = HeaderView;

    open spec fn view(&self) -> HeaderView {
        HeaderView {
            version: self.version,
            comments: Seq::new(self.comments@.len(), |i: int| self.comments@[i]@),
            satellite: self.satellite@,
            program: spec_opt_view(self.program),
            run_by: spec_opt_view(self.run_by),
            date: spec_opt_view(self.date),
            observer: spec_opt_view(self.observer),
            agency: spec_opt_view(self.agency),
            cospar: match self.cospar {
                Some(c) => Some(c@),
                None => None,
            },
            receiver: match self.receiver {
                Some(rx) => Some(rx@),
                None => None,
            },
            antenna: match self.antenna {
                Some(a) => Some(a@),
                None => None,
            },
            license: spec_opt_view(self.license),
            doi: spec_opt_view(self.doi),
            observables: self.observables@,
            observables_count: self.observables_count,
            l1_l2_date_offset: self.l1_l2_date_offset,
            ground_stations: Seq::new(
                self.ground_stations@.len(),
                |i: int| self.ground_stations@[i]@,
            ),
            time_of_first_observation: self.time_of_first_observation,
            time_of_last_observation: self.time_of_last_observation,
        }
    }
}

/// The empty header: default revision, no metadata, no observables,
/// no stations.
pub open spec fn spec_header_empty() -> HeaderView {
    HeaderView {
        version: Version { major: 0, minor: 0 },
        comments: Seq::empty(),
        satellite: Seq::empty(),
        program: None,
        run_by: None,
        date: None,
        observer: None,
        agency: None,
        cospar: None,
        receiver: None,
        antenna: None,
        license: None,
        doi: None,
        observables: Seq::empty(),
        observables_count: 0,
        l1_l2_date_offset: Duration { femtoseconds: 0 },
        ground_stations: Seq::empty(),
        time_of_first_observation: None,
        time_of_last_observation: None,
    }
}

impl Default for Header {
    fn default() -> (r: Self)
        ensures
            r@ == spec_header_empty(),
    {
        let h = Header {
            version: Version { major: 0, minor: 0 },
            comments: Vec::new(),
            satellite: Vec::new(),
            program: None,
            run_by: None,
            date: None,
            observer: None,
            agency: None,
            cospar: None,
            receiver: None,
            antenna: None,
            license: None,
            doi: None,
            observables: Vec::new(),
            observables_count: 0,
            l1_l2_date_offset: Duration::zero(),
            ground_stations: Vec::new(),
            time_of_first_observation: None,
            time_of_last_observation: None,
        };
        proof {
            assert(h@ =~~= spec_header_empty());
        }
        h
    }
}

/// Header-form epoch text (`TIME OF FIRST OBS` / `TIME OF LAST
/// OBS`): fixed columns year(4 after a 2-column pad), month(6),
/// day(6), hour(6), minute(6), second(5), a dot, fractional digits
/// in an 8-column field, then the time scale tag; an empty tag or
/// `DOR` means TAI. The trimmed fractional digits are read as a
/// fraction of a second.
pub open spec fn spec_parse_time_of_obs(s: Seq<u8>) -> Result<Epoch, ParsingError> {
    if s.len() < 44 {
        Err(ParsingError::EpochFormat)
    } else {
        let y_t = spec_trim(s.subrange(2, 6));
        let mo_t = spec_trim(s.subrange(6, 12));
        let d_t = spec_trim(s.subrange(12, 18));
        let h_t = spec_trim(s.subrange(18, 24));
        let mi_t = spec_trim(s.subrange(24, 30));
        let s_t = spec_trim(s.subrange(30, 35));
        let ns_t = spec_trim(s.subrange(36, 44));
        let tag = spec_trim(s.subrange(44, s.len() as int));
        if !(is_uint_text(y_t) && uint_text_val(y_t) <= u32::MAX) {
            Err(ParsingError::EpochFormat)
        } else if !(is_uint_text(mo_t) && uint_text_val(mo_t) <= 255) {
            Err(ParsingError::EpochFormat)
        } else if !(is_uint_text(d_t) && uint_text_val(d_t) <= 255) {
            Err(ParsingError::EpochFormat)
        } else if !(is_uint_text(h_t) && uint_text_val(h_t) <= 255) {
            Err(ParsingError::EpochFormat)
        } else if !(is_uint_text(mi_t) && uint_text_val(mi_t) <= 255) {
            Err(ParsingError::EpochFormat)
        } else if !(is_uint_text(s_t) && uint_text_val(s_t) <= 255) {
            Err(ParsingError::EpochFormat)
        } else if !(is_uint_text(ns_t) && uint_text_val(ns_t) < 1000000000 && ns_t.len() <= 9) {
            Err(ParsingError::EpochFormat)
        } else {
            let y0 = uint_text_val(y_t) as int;
            let y = if 79 <= y0 <= 99 {
                y0 + 1900
            } else if y0 < 79 {
                y0 + 2000
            } else {
                y0
            };
            let ns = uint_text_val(ns_t) * crate::text::pow10((9 - ns_t.len()) as nat);
            let ts = if tag.len() == 0 || tag == seq![68u8, 79, 82] {
                Some(TimeScale::TAI)
            } else {
                crate::epoch::spec_parse_timescale(tag)
            };
            match ts {
                None => Err(ParsingError::EpochParsing),
                Some(ts) => {
                    if y <= 9999 && ns < 1000000000 && crate::epoch::spec_epoch_fields_valid(
                        y,
                        uint_text_val(mo_t) as int,
                        uint_text_val(d_t) as int,
                        uint_text_val(h_t) as int,
                        uint_text_val(mi_t) as int,
                        uint_text_val(s_t) as int,
                        ns as int,
                    ) {
                        Ok(
                            Epoch {
                                year: y as i32,
                                month: uint_text_val(mo_t) as u8,
                                day: uint_text_val(d_t) as u8,
                                hour: uint_text_val(h_t) as u8,
                                minute: uint_text_val(mi_t) as u8,
                                second: uint_text_val(s_t) as u8,
                                nanos: ns as u32,
                                time_scale: ts,
                            },
                        )
                    } else {
                        Err(ParsingError::EpochFormat)
                    }
                },
            }
        }
    }
}

impl Header {
    /// Parses a header-form epoch from a `TIME OF FIRST OBS` or
    /// `TIME OF LAST OBS` content field.
    pub fn parse_time_of_obs(content: &[u8]) -> (r: Result<Epoch, ParsingError>)
        ensures
            r == spec_parse_time_of_obs(content@),
    {
        let len: usize = content.len();
        if len < 44 {
            return Err(ParsingError::EpochFormat);
        }
        let y_t: &[u8] = trim(&content[2..6]);
        let mo_t: &[u8] = trim(&content[6..12]);
        let d_t: &[u8] = trim(&content[12..18]);
        let h_t: &[u8] = trim(&content[18..24]);
        let mi_t: &[u8] = trim(&content[24..30]);
        let s_t: &[u8] = trim(&content[30..35]);
        let ns_raw: &[u8] = &content[36..44];
        let ns_t: &[u8] = trim(ns_raw);
        let tag: &[u8] = trim(&content[44..len]);
        let y0: u32 = match crate::text::parse_u32(y_t) {
            Some(v) => v,
            None => {
                return Err(ParsingError::EpochFormat);
            },
        };
        let month: u8 = match crate::text::parse_u8(mo_t) {
            Some(v) => v,
            None => {
                return Err(ParsingError::EpochFormat);
            },
        };
        let day: u8 = match crate::text::parse_u8(d_t) {
            Some(v) => v,
            None => {
                return Err(ParsingError::EpochFormat);
            },
        };
        let hour: u8 = match crate::text::parse_u8(h_t) {
            Some(v) => v,
            None => {
                return Err(ParsingError::EpochFormat);
            },
        };
        let minute: u8 = match crate::text::parse_u8(mi_t) {
            Some(v) => v,
            None => {
                return Err(ParsingError::EpochFormat);
            },
        };
        let second: u8 = match crate::text::parse_u8(s_t) {
            Some(v) => v,
            None => {
                return Err(ParsingError::EpochFormat);
            },
        };
        let ns_val: u32 = match crate::text::parse_u32(ns_t) {
            Some(v) => if v < 1000000000 && ns_t.len() <= 9 {
                v
            } else {
                return Err(ParsingError::EpochFormat);
            },
            None => {
                return Err(ParsingError::EpochFormat);
            },
        };
        proof {
            crate::text::lemma_trim_len(ns_raw@);
            crate::text::lemma_pow10_small();
            crate::text::lemma_pow10_mono((9 - ns_t@.len()) as nat, 9);
            crate::text::lemma_uint_text_val_bound(ns_t@);
            crate::text::lemma_pow10_add(ns_t@.len(), (9 - ns_t@.len()) as nat);
        }
        let scale: u32 = pow10_u32(9 - ns_t.len());
        proof {
            assert((ns_val as nat) * crate::text::pow10((9 - ns_t@.len()) as nat)
                < 1000000000) by (nonlinear_arith)
                requires
                    (ns_val as nat) < crate::text::pow10(ns_t@.len()),
                    0 < crate::text::pow10((9 - ns_t@.len()) as nat),
                    crate::text::pow10(ns_t@.len()) * crate::text::pow10((9 - ns_t@.len()) as nat)
                        == 1000000000,
            ;
        }
        let ns: u64 = (ns_val as u64) * (scale as u64);
        let ts: TimeScale = if tag.len() == 0 || (tag.len() == 3 && tag[0] == 68 && tag[1] == 79
            && tag[2] == 82) {
            proof {
                if tag@.len() == 3 && tag@[0] == 68 && tag@[1] == 79 && tag@[2] == 82 {
                    assert(tag@ =~= seq![68u8, 79, 82]);
                }
            }
            TimeScale::TAI
        } else {
            proof {
                if tag@.len() == 3 {
                    if !(tag@[0] == 68 && tag@[1] == 79 && tag@[2] == 82) {
                        assert(tag@ != seq![68u8, 79, 82]);
                    }
                } else {
                    assert(tag@ != seq![68u8, 79, 82]);
                }
            }
            match TimeScale::parse(tag) {
                Some(ts) => ts,
                None => {
                    return Err(ParsingError::EpochParsing);
                },
            }
        };
        let year: u32 = if 79 <= y0 && y0 <= 99 {
            y0 + 1900
        } else if y0 < 79 {
            y0 + 2000
        } else {
            y0
        };
        if year > 9999 || ns >= 1000000000 {
            return Err(ParsingError::EpochFormat);
        }
        match Epoch::from_gregorian(year as i32, month, day, hour, minute, second, ns as u32, ts) {
            Some(e) => Ok(e),
            None => Err(ParsingError::EpochFormat),
        }
    }
}

/// Ten to the `k`, within `u32`.
fn pow10_u32(k: usize) -> (r: u32)
    requires
        k <= 9,
    ensures
        r == crate::text::pow10(k as nat),
{
    proof {
        crate::text::lemma_pow10_small();
    }
    if k == 0 {
        1
    } else if k == 1 {
        10
    } else if k == 2 {
        100
    } else if k == 3 {
        1000
    } else if k == 4 {
        10000
    } else if k == 5 {
        100000
    } else if k == 6 {
        1000000
    } else if k == 7 {
        10000000
    } else if k == 8 {
        100000000
    } else {
        1000000000
    }
}


/// The line's marker is none of the early dispatch markers, from
/// the comment tag through the time-of-observation tags.
pub open spec fn spec_early_markers_miss(line: Seq<u8>) -> bool {
    let marker = spec_trim(line.subrange(60, line.len() as int));
    &&& marker != spec_marker_comment()
    &&& !spec_contains(marker, spec_marker_version_type())
    &&& !spec_contains(marker, spec_marker_pgm_run_by_date())
    &&& !spec_contains(marker, spec_marker_satellite_name())
    &&& !spec_contains(marker, spec_marker_observer_agency())
    &&& !spec_contains(marker, spec_marker_rec_type_vers())
    &&& !spec_contains(marker, spec_marker_sys_scale_factor())
    &&& !spec_contains(marker, spec_marker_license_of_use())
    &&& !spec_contains(marker, spec_marker_ant_type())
    &&& !spec_contains(marker, spec_marker_nb_stations())
    &&& !spec_contains(marker, spec_marker_time_of_first_obs())
    &&& !spec_contains(marker, spec_marker_time_of_last_obs())
}

/// One header line applied to the header under construction: the
/// marker-dispatch table of the format.
pub open spec fn spec_header_step(h: HeaderView, line: Seq<u8>) -> Result<
    HeaderView,
    ParsingError,
> {
    let content = line.subrange(0, 60);
    let marker = spec_trim(line.subrange(60, line.len() as int));
    if marker == spec_marker_comment() {
        Ok(HeaderView { comments: h.comments.push(spec_trim(content)), ..h })
    } else if spec_contains(marker, spec_marker_version_type()) {
        let vers = spec_trim(line.subrange(0, 20));
        let type_str = spec_trim(line.subrange(20, 40));
        let constell = spec_trim(line.subrange(40, 60));
        if type_str != seq![79u8] {
            Err(ParsingError::InvalidDoris)
        } else if constell != seq![68u8] {
            Err(ParsingError::InvalidDoris)
        } else {
            match spec_parse_version(vers) {
                Ok(v) => Ok(HeaderView { version: v, ..h }),
                Err(_) => Err(ParsingError::Version),
            }
        }
    } else if spec_contains(marker, spec_marker_pgm_run_by_date()) {
        let pgm = spec_trim(line.subrange(0, 20));
        let runby = spec_trim(line.subrange(20, 40));
        let date = spec_trim(line.subrange(40, 60));
        Ok(
            HeaderView {
                program: if pgm.len() > 0 {
                    Some(pgm)
                } else {
                    h.program
                },
                run_by: if runby.len() > 0 {
                    Some(runby)
                } else {
                    h.run_by
                },
                date: if date.len() > 0 {
                    Some(date)
                } else {
                    h.date
                },
                ..h
            },
        )
    } else if spec_contains(marker, spec_marker_satellite_name()) {
        Ok(HeaderView { satellite: spec_trim(content.subrange(0, 20)), ..h })
    } else if spec_contains(marker, spec_marker_observer_agency()) {
        let obs = spec_trim(content.subrange(0, 20));
        let ag = spec_trim(content.subrange(20, 60));
        Ok(
            HeaderView {
                observer: if obs.len() > 0 {
                    Some(obs)
                } else {
                    h.observer
                },
                agency: if ag.len() > 0 {
                    Some(ag)
                } else {
                    h.agency
                },
                ..h
            },
        )
    } else if spec_contains(marker, spec_marker_rec_type_vers()) {
        match spec_parse_receiver(content) {
            Ok(rx) => Ok(HeaderView { receiver: Some(rx), ..h }),
            Err(_) => Ok(h),
        }
    } else if spec_contains(marker, spec_marker_sys_scale_factor()) {
        Ok(h)
    } else if spec_contains(marker, spec_marker_license_of_use()) {
        let lic = spec_trim(content.subrange(0, 40));
        Ok(
            HeaderView {
                license: if lic.len() > 0 {
                    Some(lic)
                } else {
                    h.license
                },
                ..h
            },
        )
    } else if spec_contains(marker, spec_marker_ant_type()) {
        Ok(
            HeaderView {
                antenna: Some(
                    AntennaView {
                        serial_number: spec_trim(content.subrange(0, 20)),
                        model: spec_trim(content.subrange(20, 40)),
                        approx_coordinates: None,
                        height: None,
                        eastern: None,
                        northern: None,
                    },
                ),
                ..h
            },
        )
    } else if spec_contains(marker, spec_marker_nb_stations()) {
        Ok(h)
    } else if spec_contains(marker, spec_marker_time_of_first_obs()) {
        match spec_parse_time_of_obs(content) {
            Ok(e) => Ok(HeaderView { time_of_first_observation: Some(e), ..h }),
            Err(e) => Err(e),
        }
    } else if spec_contains(marker, spec_marker_time_of_last_obs()) {
        match spec_parse_time_of_obs(content) {
            Ok(e) => Ok(HeaderView { time_of_last_observation: Some(e), ..h }),
            Err(e) => Err(e),
        }
    } else if spec_contains(marker, spec_marker_sys_obs_types()) {
        spec_obs_types_step(h, content)
    } else if spec_contains(marker, spec_marker_cospar_number()) {
        match spec_parse_cospar(spec_trim(content)) {
            Ok(c) => Ok(HeaderView { cospar: Some(c), ..h }),
            Err(e) => Err(e),
        }
    } else if spec_contains(marker, spec_marker_l2_l1_date_offset()) {
        let t = spec_trim(content.subrange(1, 60));
        match crate::numeric::spec_parse_decimal(t) {
            Some((m, e)) => {
                if -1000000000000000 <= m <= 1000000000000000 && -19 <= e <= 19 && e + 9
                    <= 22 {
                    Ok(
                        HeaderView {
                            l1_l2_date_offset: Duration {
                                femtoseconds: crate::duration::spec_fs_of_scaled(m, e + 9) as i128,
                            },
                            ..h
                        },
                    )
                } else {
                    Err(ParsingError::DorisL1L2DateOffset)
                }
            },
            None => Err(ParsingError::DorisL1L2DateOffset),
        }
    } else if spec_contains(marker, spec_marker_station_reference()) {
        match spec_parse_station(spec_trim(content)) {
            Ok(st) => Ok(HeaderView { ground_stations: h.ground_stations.push(st), ..h }),
            Err(e) => Err(e),
        }
    } else {
        Ok(h)
    }
}

/// Observable codes of a token list, from the given index on.
pub open spec fn spec_parse_obs_codes(toks: Seq<Seq<u8>>, i: int) -> Result<
    Seq<Observable>,
    ParsingError,
>
    decreases toks.len() - i,
{
    if i >= toks.len() {
        Ok(Seq::empty())
    } else {
        match spec_parse_observable(spec_trim(spec_to_upper(toks[i]))) {
            Err(e) => Err(e),
            Ok(o) => match spec_parse_obs_codes(toks, i + 1) {
                Err(e) => Err(e),
                Ok(rest) => Ok(seq![o] + rest),
            },
        }
    }
}

/// A `SYS / # / OBS TYPES` content field: a fresh schema line opens
/// with the system character and the declared count, a continuation
/// line (blank first column) carries codes only; the codes extend the
/// schema in order.
pub open spec fn spec_obs_types_step(h: HeaderView, content: Seq<u8>) -> Result<
    HeaderView,
    ParsingError,
> {
    if content.len() == 0 || spec_is_ws(content[0]) {
        // continuation: every token is a code
        match spec_parse_obs_codes(spec_tokens(content), 0) {
            Err(e) => Err(e),
            Ok(codes) => Ok(HeaderView { observables: h.observables + codes, ..h }),
        }
    } else {
        let toks = spec_tokens(content);
        if toks.len() < 2 {
            Err(ParsingError::Observable)
        } else if !(is_uint_text(toks[1]) && uint_text_val(toks[1]) <= 65535) {
            Err(ParsingError::Observable)
        } else {
            match spec_parse_obs_codes(toks, 2) {
                Err(e) => Err(e),
                Ok(codes) => Ok(
                    HeaderView {
                        observables: h.observables + codes,
                        observables_count: if h.observables_count == 0 {
                            uint_text_val(toks[1]) as u16
                        } else {
                            h.observables_count
                        },
                        ..h
                    },
                ),
            }
        }
    }
}

/// A closed header honors its declared schema size: when the first
/// schema line declared a nonzero count, the observable list has
/// exactly that many entries.
pub open spec fn spec_header_close(h: HeaderView, next: int) -> Result<
    (HeaderView, int),
    ParsingError,
> {
    if h.observables_count != 0 && h.observables.len() != h.observables_count {
        Err(ParsingError::Observable)
    } else {
        Ok((h, next))
    }
}

/// The header denoted by the lines from `i` on: lines shorter than
/// the 60 content columns are skipped, `END OF HEADER` closes the
/// section (its index follows in the result), other lines are
/// applied in order; the section may also end with the stream. At
/// the close, the declared observable count is checked against the
/// parsed schema.
pub open spec fn spec_parse_header_loop(lines: Seq<Seq<u8>>, i: int, h: HeaderView) -> Result<
    (HeaderView, int),
    ParsingError,
>
    decreases lines.len() - i,
{
    if i < 0 || i >= lines.len() {
        spec_header_close(h, lines.len() as int)
    } else if lines[i].len() < 60 {
        spec_parse_header_loop(lines, i + 1, h)
    } else if spec_trim(lines[i].subrange(60, lines[i].len() as int))
        == spec_marker_end_of_header() {
        spec_header_close(h, i + 1)
    } else {
        match spec_header_step(h, lines[i]) {
            Err(e) => Err(e),
            Ok(h2) => spec_parse_header_loop(lines, i + 1, h2),
        }
    }
}

impl Header {
    /// Parses the header section from the file's lines, starting at
    /// the given line; returns the header and the index of the first
    /// record line.
    pub fn parse(lines: &Vec<Vec<u8>>, start: usize) -> (r: Result<(Header, usize), ParsingError>)
        ensures
            match r {
                Ok((h, next)) => spec_parse_header_loop(
                    crate::lines::views_of(lines@),
                    start as int,
                    spec_header_empty(),
                ) == Ok::<(HeaderView, int), ParsingError>((h@, next as int)) && (
                h@.observables_count != 0 ==> h@.observables.len() == h@.observables_count),
                Err(e) => spec_parse_header_loop(
                    crate::lines::views_of(lines@),
                    start as int,
                    spec_header_empty(),
                ) == Err::<(HeaderView, int), ParsingError>(e),
            },
    {
        let ghost lv = crate::lines::views_of(lines@);
        let n: usize = lines.len();
        let mut h: Header = Header::default();
        let mut i: usize = start;
        if start > n {
            proof {
                assert(spec_parse_header_loop(lv, start as int, spec_header_empty()) == Ok::<
                    (HeaderView, int),
                    ParsingError,
                >((spec_header_empty(), lv.len() as int)));
            }
            return Ok((h, n));
        }
        proof {
            assert(h@ == spec_header_empty());
        }
        while i < n
            invariant
                0 <= i <= n,
                n == lines@.len(),
                lv == crate::lines::views_of(lines@),
                lv.len() == n,
                forall|q: int| 0 <= q < n ==> #[trigger] lv[q] == lines@[q]@,
                spec_parse_header_loop(lv, start as int, spec_header_empty())
                    == spec_parse_header_loop(lv, i as int, h@),
            decreases n - i,
        {
            let line: &Vec<u8> = &lines[i];
            let llen: usize = line.len();
            proof {
                assert(line@ == lv[i as int]);
            }
            if llen < 60 {
                i = i + 1;
                continue;
            }
            let marker_raw: &[u8] = &line.as_slice()[60..llen];
            let marker: &[u8] = trim(marker_raw);
            proof {
                assert(marker_raw@ =~= lv[i as int].subrange(60, lv[i as int].len() as int));
            }
            let m_end = marker_end_of_header();
            if crate::text::bytes_eq(marker, m_end.as_slice()) {
                if h.observables_count != 0 && h.observables.len() != h.observables_count as usize {
                    return Err(ParsingError::Observable);
                }
                return Ok((h, i + 1));
            }
            let ghost h0 = h@;
            match Self::apply_line(&mut h, line.as_slice()) {
                Ok(()) => {},
                Err(e) => {
                    proof {
                        assert(spec_header_step(h0, lv[i as int]) == Err::<
                            HeaderView,
                            ParsingError,
                        >(e));
                    }
                    return Err(e);
                },
            }
            i = i + 1;
        }
        if h.observables_count != 0 && h.observables.len() != h.observables_count as usize {
            return Err(ParsingError::Observable);
        }
        Ok((h, n))
    }

    /// Applies one full-width header line (not the closing marker)
    /// to the header under construction.
    #[verifier::rlimit(100)]
    fn apply_line(h: &mut Header, line: &[u8]) -> (r: Result<(), ParsingError>)
        requires
            line@.len() >= 60,
        ensures
            match r {
                Ok(()) => spec_header_step(old(h)@, line@) == Ok::<HeaderView, ParsingError>(
                    final(h)@,
                ),
                Err(e) => spec_header_step(old(h)@, line@) == Err::<HeaderView, ParsingError>(e),
            },
    {
        let llen: usize = line.len();
        let content: &[u8] = &line[0..60];
        let marker: &[u8] = trim(&line[60..llen]);
        proof {
            assert(content@ =~= line@.subrange(0, 60));
        }
        let m_comment = marker_comment();
        if crate::text::bytes_eq(marker, m_comment.as_slice()) {
            let c: Vec<u8> = vstd::slice::slice_to_vec(trim(content));
            h.comments.push(c);
            proof {
                assert(h@ =~~= (HeaderView {
                    comments: old(h)@.comments.push(spec_trim(line@.subrange(0, 60))),
                    ..old(h)@
                }));
            }
            return Ok(());
        }
        let m = marker_version_type();
        if crate::text::contains_bytes(marker, m.as_slice()) {
            let vers: &[u8] = trim(&line[0..20]);
            let type_str: &[u8] = trim(&line[20..40]);
            let constell: &[u8] = trim(&line[40..60]);
            proof {
            }
            if !(type_str.len() == 1 && type_str[0] == 79) {
                proof {
                    if spec_trim(line@.subrange(20, 40)) == seq![79u8] {
                        assert(type_str@.len() == 1 && type_str@[0] == 79);
                    }
                }
                return Err(ParsingError::InvalidDoris);
            }
            proof {
                assert(type_str@ =~= seq![79u8]);
            }
            if !(constell.len() == 1 && constell[0] == 68) {
                proof {
                    if spec_trim(line@.subrange(40, 60)) == seq![68u8] {
                        assert(constell@.len() == 1 && constell@[0] == 68);
                    }
                }
                return Err(ParsingError::InvalidDoris);
            }
            proof {
                assert(constell@ =~= seq![68u8]);
            }
            match Version::parse(vers) {
                Ok(v) => {
                    h.version = v;
                    proof {
                        assert(h@ =~~= (HeaderView { version: v, ..old(h)@ }));
                    }
                    return Ok(());
                },
                Err(_) => {
                    return Err(ParsingError::Version);
                },
            }
        }
        let m = marker_pgm_run_by_date();
        if crate::text::contains_bytes(marker, m.as_slice()) {
            let pgm: &[u8] = trim(&line[0..20]);
            let runby: &[u8] = trim(&line[20..40]);
            let date: &[u8] = trim(&line[40..60]);
            if pgm.len() > 0 {
                h.program = Some(vstd::slice::slice_to_vec(pgm));
            }
            if runby.len() > 0 {
                h.run_by = Some(vstd::slice::slice_to_vec(runby));
            }
            if date.len() > 0 {
                h.date = Some(vstd::slice::slice_to_vec(date));
            }
            proof {
                assert(h@ =~~= (spec_header_step(old(h)@, line@)->Ok_0));
            }
            return Ok(());
        }
        let m = marker_satellite_name();
        if crate::text::contains_bytes(marker, m.as_slice()) {
            h.satellite = vstd::slice::slice_to_vec(trim(&content[0..20]));
            proof {
                assert(h@ =~~= (spec_header_step(old(h)@, line@)->Ok_0));
            }
            return Ok(());
        }
        let m = marker_observer_agency();
        if crate::text::contains_bytes(marker, m.as_slice()) {
            let obs: &[u8] = trim(&content[0..20]);
            let ag: &[u8] = trim(&content[20..60]);
            if obs.len() > 0 {
                h.observer = Some(vstd::slice::slice_to_vec(obs));
            }
            if ag.len() > 0 {
                h.agency = Some(vstd::slice::slice_to_vec(ag));
            }
            proof {
                assert(h@ =~~= (spec_header_step(old(h)@, line@)->Ok_0));
            }
            return Ok(());
        }
        let m = marker_rec_type_vers();
        if crate::text::contains_bytes(marker, m.as_slice()) {
            match Receiver::parse(content) {
                Ok(rx) => {
                    h.receiver = Some(rx);
                    proof {
                        assert(h@ =~~= (spec_header_step(old(h)@, line@)->Ok_0));
                    }
                },
                Err(_) => {
                    proof {
                        assert(h@ =~~= (spec_header_step(old(h)@, line@)->Ok_0));
                    }
                },
            }
            return Ok(());
        }
        let m = marker_sys_scale_factor();
        if crate::text::contains_bytes(marker, m.as_slice()) {
            return Ok(());
        }
        let m = marker_license_of_use();
        if crate::text::contains_bytes(marker, m.as_slice()) {
            let lic: &[u8] = trim(&content[0..40]);
            if lic.len() > 0 {
                h.license = Some(vstd::slice::slice_to_vec(lic));
            }
            proof {
                assert(h@ =~~= (spec_header_step(old(h)@, line@)->Ok_0));
            }
            return Ok(());
        }
        let m = marker_ant_type();
        if crate::text::contains_bytes(marker, m.as_slice()) {
            let sn: &[u8] = trim(&content[0..20]);
            let model: &[u8] = trim(&content[20..40]);
            h.antenna = Some(
                Antenna::default().with_serial_number(sn).with_model(model),
            );
            proof {
                assert(h@ =~~= (spec_header_step(old(h)@, line@)->Ok_0));
            }
            return Ok(());
        }
        let m = marker_nb_stations();
        if crate::text::contains_bytes(marker, m.as_slice()) {
            return Ok(());
        }
        let m = marker_time_of_first_obs();
        if crate::text::contains_bytes(marker, m.as_slice()) {
            match Self::parse_time_of_obs(content) {
                Ok(e) => {
                    h.time_of_first_observation = Some(e);
                    proof {
                        assert(h@ =~~= (spec_header_step(old(h)@, line@)->Ok_0));
                    }
                    return Ok(());
                },
                Err(e) => {
                    return Err(e);
                },
            }
        }
        let m = marker_time_of_last_obs();
        if crate::text::contains_bytes(marker, m.as_slice()) {
            match Self::parse_time_of_obs(content) {
                Ok(e) => {
                    h.time_of_last_observation = Some(e);
                    proof {
                        assert(h@ =~~= (spec_header_step(old(h)@, line@)->Ok_0));
                    }
                    return Ok(());
                },
                Err(e) => {
                    return Err(e);
                },
            }
        }
        Self::apply_line_rest_inner(h, line)
    }

    /// Applies a header line whose marker is none of the comment,
    /// version, production, satellite, observer, receiver, scale,
    /// license, antenna, station-count or time-of-observation
    /// markers.
    #[verifier::rlimit(100)]
    fn apply_line_rest_inner(h: &mut Header, line: &[u8]) -> (r: Result<(), ParsingError>)
        requires
            line@.len() >= 60,
            spec_early_markers_miss(line@),
        ensures
            match r {
                Ok(()) => spec_header_step(old(h)@, line@) == Ok::<HeaderView, ParsingError>(
                    final(h)@,
                ),
                Err(e) => spec_header_step(old(h)@, line@) == Err::<HeaderView, ParsingError>(e),
            },
    {
        let llen: usize = line.len();
        let content: &[u8] = &line[0..60];
        let marker: &[u8] = trim(&line[60..llen]);
        proof {
            assert(content@ =~= line@.subrange(0, 60));
        }
        let m = marker_sys_obs_types();
        if crate::text::contains_bytes(marker, m.as_slice()) {
            return Self::apply_obs_types(h, content);
        }
        let m = marker_cospar_number();
        if crate::text::contains_bytes(marker, m.as_slice()) {
            match COSPAR::parse(trim(content)) {
                Ok(c) => {
                    h.cospar = Some(c);
                    proof {
                        assert(h@ =~~= (spec_header_step(old(h)@, line@)->Ok_0));
                    }
                    return Ok(());
                },
                Err(e) => {
                    return Err(e);
                },
            }
        }
        let m = marker_l2_l1_date_offset();
        if crate::text::contains_bytes(marker, m.as_slice()) {
            let t: &[u8] = trim(&content[1..60]);
            proof {
            }
            match Decimal::parse(t) {
                Some(d) => {
                    match Duration::from_decimal_microseconds(d) {
                        Some(dur) => {
                            h.l1_l2_date_offset = dur;
                            proof {
                                assert(crate::duration::spec_fs_of_scaled(
                                    d.mantissa as int,
                                    d.exponent + 9,
                                ) == dur.femtoseconds as int);
                                assert(h@ =~~= (spec_header_step(old(h)@, line@)->Ok_0));
                            }
                            return Ok(());
                        },
                        None => {
                            return Err(ParsingError::DorisL1L2DateOffset);
                        },
                    }
                },
                None => {
                    return Err(ParsingError::DorisL1L2DateOffset);
                },
            }
        }
        let m = marker_station_reference();
        if crate::text::contains_bytes(marker, m.as_slice()) {
            match GroundStation::parse(trim(content)) {
                Ok(st) => {
                    h.ground_stations.push(st);
                    proof {
                        let hv = spec_header_step(old(h)@, line@)->Ok_0;
                        assert(h@.ground_stations =~= hv.ground_stations);
                        assert(h@ =~~= hv);
                    }
                    return Ok(());
                },
                Err(e) => {
                    return Err(e);
                },
            }
        }
        Ok(())
    }

    /// Applies one `SYS / # / OBS TYPES` content field.
    fn apply_obs_types(h: &mut Header, content: &[u8]) -> (r: Result<(), ParsingError>)
        requires
            content@.len() == 60,
        ensures
            match r {
                Ok(()) => spec_obs_types_step(old(h)@, content@) == Ok::<
                    HeaderView,
                    ParsingError,
                >(final(h)@),
                Err(e) => spec_obs_types_step(old(h)@, content@) == Err::<
                    HeaderView,
                    ParsingError,
                >(e),
            },
    {
        let toks: Vec<Vec<u8>> = crate::text::split_ws(content);
        proof {
            assert(toks.deep_view() == spec_tokens(content@));
            assert forall|q: int| 0 <= q < toks@.len() implies toks@[q]@ == #[trigger] toks.deep_view()[q] by {
                assert(toks@[q]@ =~= toks@[q].deep_view());
            }
        }
        let is_cont: bool = content.len() == 0 || {
            let b: u8 = content[0];
            b == 32 || (9 <= b && b <= 13)
        };
        let from: usize = if is_cont {
            0
        } else {
            if toks.len() < 2 {
                return Err(ParsingError::Observable);
            }
            let count: u16 = match crate::text::parse_u16(toks[1].as_slice()) {
                Some(v) => v,
                None => {
                    return Err(ParsingError::Observable);
                },
            };
            if h.observables_count == 0 {
                h.observables_count = count;
            }
            2
        };
        let mut i: usize = from;
        let ghost toksv = spec_tokens(content@);
        let ghost base = old(h)@.observables;
        proof {
            assert(h@.observables =~= base);
            assert(h@.observables.subrange(base.len() as int, h@.observables.len() as int)
                =~= Seq::<Observable>::empty());
            if spec_parse_obs_codes(toksv, from as int) is Ok {
                assert((spec_parse_obs_codes(toksv, from as int)->Ok_0) =~= h@.observables.subrange(
                    base.len() as int,
                    h@.observables.len() as int,
                ) + (spec_parse_obs_codes(toksv, from as int)->Ok_0));
            }
            assert(h@ =~~= (HeaderView {
                observables: h@.observables,
                observables_count: h@.observables_count,
                ..old(h)@
            }));
        }
        while i < toks.len()
            invariant
                from <= i <= toks@.len(),
                from == 0 || from == 2,
                (from == 0) == (content@.len() == 0 || spec_is_ws(content@[0])),
                from == 2 ==> toksv.len() >= 2 && is_uint_text(toksv[1]) && uint_text_val(
                    toksv[1],
                ) <= 65535,
                toksv == spec_tokens(content@),
                toks.deep_view() == toksv,
                forall|q: int| 0 <= q < toks@.len() ==> toks@[q]@ == #[trigger] toksv[q],
                spec_parse_obs_codes(toksv, from as int) matches Ok(codes) ==> (
                spec_parse_obs_codes(toksv, i as int) matches Ok(rest) && codes == h@.observables.subrange(
                    base.len() as int,
                    h@.observables.len() as int,
                ) + rest),
                (forall|e: ParsingError|
                    spec_parse_obs_codes(toksv, from as int) == Err::<Seq<Observable>,
                    ParsingError,
                    >(e) ==> spec_parse_obs_codes(toksv, i as int) == Err::<Seq<Observable>,
                    ParsingError,
                    >(e)),
                h@.observables.len() >= base.len(),
                h@.observables.subrange(0, base.len() as int) == base,
                h@ =~~= (HeaderView {
                    observables: h@.observables,
                    observables_count: h@.observables_count,
                    ..old(h)@
                }),
                h@.observables_count == (if !(content@.len() == 0 || spec_is_ws(content@[0]))
                    && old(h)@.observables_count == 0 {
                    uint_text_val(toksv[1]) as u16
                } else {
                    old(h)@.observables_count
                }) || (content@.len() == 0 || spec_is_ws(content@[0])),
                (content@.len() == 0 || spec_is_ws(content@[0])) ==> h@.observables_count == old(
                    h,
                )@.observables_count,
            decreases toks@.len() - i,
        {
            let o: Observable = match Observable::parse(toks[i].as_slice()) {
                Ok(o) => o,
                Err(e) => {
                    proof {
                        lemma_obs_codes_err(toksv, from as int, i as int, e);
                        if spec_parse_obs_codes(toksv, from as int) is Ok {
                            assert(spec_parse_obs_codes(toksv, i as int) is Ok);
                        }
                        let e2 = spec_parse_obs_codes(toksv, from as int)->Err_0;
                        assert(spec_parse_obs_codes(toksv, from as int) == Err::<
                            Seq<Observable>,
                            ParsingError,
                        >(e2));
                        assert(spec_parse_obs_codes(toksv, i as int) == Err::<
                            Seq<Observable>,
                            ParsingError,
                        >(e2));
                    }
                    return Err(e);
                },
            };
            h.observables.push(o);
            proof {
                assert(h@.observables.subrange(0, base.len() as int) =~= base);
                lemma_obs_codes_ok_step(toksv, from as int, i as int, o);
                if spec_parse_obs_codes(toksv, from as int) is Ok {
                    assert((spec_parse_obs_codes(toksv, from as int)->Ok_0)
                        =~= h@.observables.subrange(
                        base.len() as int,
                        h@.observables.len() as int,
                    ) + (spec_parse_obs_codes(toksv, i + 1)->Ok_0));
                }
            }
            i = i + 1;
        }
        proof {
            assert(spec_parse_obs_codes(toksv, i as int) == Ok::<Seq<Observable>, ParsingError>(
                Seq::empty(),
            ));
            if spec_parse_obs_codes(toksv, from as int) is Ok {
                assert(h@.observables =~= base + (spec_parse_obs_codes(toksv, from as int)->Ok_0));
            }
            assert(h@ =~~= (spec_obs_types_step(old(h)@, content@)->Ok_0));
        }
        Ok(())
    }
}

/// An error at a later code index propagates to the whole list.
proof fn lemma_obs_codes_err(toks: Seq<Seq<u8>>, from: int, i: int, e: ParsingError)
    requires
        0 <= from <= i < toks.len(),
        spec_parse_obs_codes(toks, from) is Ok ==> spec_parse_obs_codes(toks, i) is Ok,
        spec_parse_observable(spec_trim(spec_to_upper(toks[i]))) == Err::<Observable,
        ParsingError,
        >(e),
    ensures
        spec_parse_obs_codes(toks, i) == Err::<Seq<Observable>, ParsingError>(e),
{
}

/// One parsed code extends the list decomposition by one element.
proof fn lemma_obs_codes_ok_step(toks: Seq<Seq<u8>>, from: int, i: int, o: Observable)
    requires
        0 <= from <= i < toks.len(),
        spec_parse_observable(spec_trim(spec_to_upper(toks[i]))) == Ok::<Observable,
        ParsingError,
        >(o),
    ensures
        spec_parse_obs_codes(toks, i) matches Ok(rest) ==> rest == seq![o]
            + (spec_parse_obs_codes(toks, i + 1)->Ok_0) && spec_parse_obs_codes(toks, i + 1)
            is Ok,
        spec_parse_obs_codes(toks, i) matches Err(e) ==> spec_parse_obs_codes(toks, i + 1)
            == Err::<Seq<Observable>, ParsingError>(e),
{
}


/// Content of the version line: the revision in `MM.mm`, the file
/// type `O`, and the constellation letter `D` in their columns.
pub open spec fn spec_version_content(v: Version) -> Seq<u8> {
    crate::text::spec_pad_left(crate::text::spec_digits(v.major as nat), 6, 32) + seq![46u8]
        + crate::text::spec_pad_left(crate::text::spec_digits(v.minor as nat), 2, 48) + Seq::new(
        11,
        |x: int| 32u8,
    ) + seq![79u8] + Seq::new(19, |x: int| 32u8) + seq![68u8]
}

/// Content of a production line: program, operator and date in three
/// 20-column fields.
pub open spec fn spec_pgm_content(h: HeaderView) -> Seq<u8> {
    crate::text::spec_pad_right(spec_or_empty(h.program), 20, 32) + crate::text::spec_pad_right(
        spec_or_empty(h.run_by),
        20,
        32,
    ) + spec_or_empty(h.date)
}

pub open spec fn spec_or_empty(o: Option<Seq<u8>>) -> Seq<u8> {
    match o {
        Some(v) => v,
        None => Seq::empty(),
    }
}

/// Content of the observer line: observer and agency fields.
pub open spec fn spec_obsag_content(h: HeaderView) -> Seq<u8> {
    crate::text::spec_pad_right(spec_or_empty(h.observer), 20, 32) + spec_or_empty(h.agency)
}

/// The observable codes from `lo` to `hi`, each preceded by one
/// space.
pub open spec fn spec_obs_codes_text(obs: Seq<Observable>, lo: int, hi: int) -> Seq<u8>
    decreases hi - lo,
{
    if hi <= lo {
        Seq::empty()
    } else {
        spec_obs_codes_text(obs, lo, hi - 1) + seq![32u8] + crate::observable::spec_obs_code(
            obs[hi - 1],
        )
    }
}

/// Where the schema line starting at `lo` ends: five observables on,
/// or at the end of the schema.
pub open spec fn spec_obs_cut(obs: Seq<Observable>, lo: int) -> int {
    if lo + 5 <= obs.len() {
        lo + 5
    } else {
        obs.len() as int
    }
}

/// Content of the opening observable schema line: the system letter,
/// the count, and the first five codes.
pub open spec fn spec_obs_content(h: HeaderView) -> Seq<u8> {
    seq![68u8, 32] + crate::text::spec_pad_left(
        crate::text::spec_digits(h.observables.len() as nat),
        10,
        32,
    ) + spec_obs_codes_text(h.observables, 0, spec_obs_cut(h.observables, 0))
}

/// The continuation lines of the observable schema from `lo` on:
/// each carries five more codes behind six blank columns, under the
/// schema marker.
pub open spec fn spec_obs_cont_lines(obs: Seq<Observable>, lo: int) -> Seq<u8>
    decreases obs.len() - lo,
{
    if lo < 0 || lo >= obs.len() {
        Seq::empty()
    } else {
        spec_fmt_doris(
            Seq::new(6, |x: int| 32u8) + spec_obs_codes_text(obs, lo, spec_obs_cut(obs, lo)),
            spec_marker_sys_obs_types(),
        ) + seq![10u8] + spec_obs_cont_lines(obs, spec_obs_cut(obs, lo))
    }
}

/// Content of a time-of-observation line, at 100 ns resolution, with
/// the TAI scale written under its DORIS tag.
pub open spec fn spec_timeobs_content(e: Epoch) -> Seq<u8> {
    crate::text::spec_pad_left(crate::text::spec_digits(e.year as nat), 6, 32) + seq![32u8]
        + crate::text::spec_pad_left(crate::text::spec_digits(e.month as nat), 5, 32) + seq![32u8]
        + crate::text::spec_pad_left(crate::text::spec_digits(e.day as nat), 5, 32) + seq![32u8]
        + crate::text::spec_pad_left(crate::text::spec_digits(e.hour as nat), 5, 32) + seq![32u8]
        + crate::text::spec_pad_left(crate::text::spec_digits(e.minute as nat), 5, 32)
        + seq![32u8] + crate::text::spec_pad_left(crate::text::spec_digits(e.second as nat), 4, 32)
        + seq![46u8] + crate::text::spec_pad_left(
        crate::text::spec_digits((e.nanos / 100) as nat),
        7,
        48,
    ) + seq![32u8, 32, 32, 32] + (if e.time_scale == TimeScale::TAI {
        seq![68u8, 79, 82]
    } else {
        crate::epoch::spec_timescale_tag(e.time_scale)
    })
}

/// A text whose first two bytes open at no admissible offset of the
/// station reference marker does not occur in it.
proof fn lemma_station_marker_no_pair(nd: Seq<u8>)
    requires
        nd.len() >= 2,
        forall|i: int|
            0 <= i && i + nd.len() <= spec_marker_station_reference().len() ==> !(
            #[trigger] spec_marker_station_reference()[i] == nd[0]
                && spec_marker_station_reference()[i + 1] == nd[1]),
    ensures
        !spec_contains(spec_marker_station_reference(), nd),
{
    let mk = spec_marker_station_reference();
    assert forall|i: int|
        !(0 <= i && i + nd.len() <= mk.len() && #[trigger] mk.subrange(i, i + nd.len())
            == nd) by {
        if 0 <= i && i + nd.len() <= mk.len() && mk.subrange(i, i + nd.len()) == nd {
            assert(mk.subrange(i, i + nd.len())[0] == mk[i + 0]);
            assert(mk.subrange(i, i + nd.len())[1] == mk[i + 1]);
        }
    }
}

/// The station reference marker reaches its own dispatch entry: it
/// is no comment, and no earlier marker of the table occurs in it.
proof fn lemma_station_marker_dispatch()
    ensures
        spec_marker_station_reference() != spec_marker_comment(),
        !spec_contains(spec_marker_station_reference(), spec_marker_version_type()),
        !spec_contains(spec_marker_station_reference(), spec_marker_pgm_run_by_date()),
        !spec_contains(spec_marker_station_reference(), spec_marker_satellite_name()),
        !spec_contains(spec_marker_station_reference(), spec_marker_observer_agency()),
        !spec_contains(spec_marker_station_reference(), spec_marker_rec_type_vers()),
        !spec_contains(spec_marker_station_reference(), spec_marker_sys_scale_factor()),
        !spec_contains(spec_marker_station_reference(), spec_marker_license_of_use()),
        !spec_contains(spec_marker_station_reference(), spec_marker_ant_type()),
        !spec_contains(spec_marker_station_reference(), spec_marker_nb_stations()),
        !spec_contains(spec_marker_station_reference(), spec_marker_time_of_first_obs()),
        !spec_contains(spec_marker_station_reference(), spec_marker_time_of_last_obs()),
        !spec_contains(spec_marker_station_reference(), spec_marker_sys_obs_types()),
        !spec_contains(spec_marker_station_reference(), spec_marker_cospar_number()),
        !spec_contains(spec_marker_station_reference(), spec_marker_l2_l1_date_offset()),
        spec_contains(spec_marker_station_reference(), spec_marker_station_reference()),
{
    let mk = spec_marker_station_reference();
    assert(mk.len() == 17 && spec_marker_comment().len() == 7);
    // texts longer than the marker cannot occur in it
    assert(spec_marker_version_type().len() == 20);
    assert(spec_marker_pgm_run_by_date().len() == 19);
    assert(spec_marker_rec_type_vers().len() == 19);
    assert(spec_marker_sys_scale_factor().len() == 18);
    assert(spec_marker_sys_obs_types().len() == 19);
    assert(spec_marker_l2_l1_date_offset().len() == 19);
    // the shorter ones differ in their first two bytes everywhere
    lemma_station_marker_no_pair(spec_marker_satellite_name());
    lemma_station_marker_no_pair(spec_marker_observer_agency());
    lemma_station_marker_no_pair(spec_marker_license_of_use());
    lemma_station_marker_no_pair(spec_marker_ant_type());
    lemma_station_marker_no_pair(spec_marker_nb_stations());
    lemma_station_marker_no_pair(spec_marker_time_of_first_obs());
    lemma_station_marker_no_pair(spec_marker_time_of_last_obs());
    lemma_station_marker_no_pair(spec_marker_cospar_number());
    // the marker occurs in itself, at the start
    assert(mk.subrange(0, 17) =~= mk);
    assert(spec_contains(mk, mk));
}

/// A line whose marker field trims to the station reference marker
/// and whose content trims to a parseable station appends that
/// station.
#[verifier::rlimit(100)]
#[verifier::spinoff_prover]
proof fn lemma_station_step_eval(h: HeaderView, line: Seq<u8>, st: GroundStationView)
    requires
        spec_trim(line.subrange(60, line.len() as int)) == spec_marker_station_reference(),
        spec_parse_station(spec_trim(line.subrange(0, 60))) == Ok::<
            GroundStationView,
            ParsingError,
        >(st),
    ensures
        spec_header_step(h, line) == Ok::<HeaderView, ParsingError>(
            HeaderView { ground_stations: h.ground_stations.push(st), ..h },
        ),
{
    lemma_station_marker_dispatch();
}

/// Station line round-trip through the dispatch: a STATION
/// The station text and the marker sit in their fields of the
/// formatted line: the sixty content columns trim back to the text,
/// the marker field to the marker.
#[verifier::rlimit(100)]
#[verifier::spinoff_prover]
proof fn lemma_station_line_fields(st: GroundStationView)
    requires
        crate::station::spec_station_wf(st),
    ensures
        spec_fmt_doris(
            crate::station::spec_format_station(st),
            spec_marker_station_reference(),
        ).len() == 77,
        spec_trim(
            spec_fmt_doris(
                crate::station::spec_format_station(st),
                spec_marker_station_reference(),
            ).subrange(60, 77),
        ) == spec_marker_station_reference(),
        spec_trim(
            spec_fmt_doris(
                crate::station::spec_format_station(st),
                spec_marker_station_reference(),
            ).subrange(0, 60),
        ) == crate::station::spec_format_station(st),
{
    let text = crate::station::spec_format_station(st);
    let mk = spec_marker_station_reference();
    crate::station::lemma_station_round_trip(st);
    let line = spec_fmt_doris(text, mk);
    assert(line =~= crate::text::spec_pad_right(text, 60, 32) + mk);
    assert(line.len() == 77);
    // the marker field trims to the marker itself
    assert(line.subrange(60, 77) =~= mk);
    assert(!spec_is_ws(mk[0]) && !spec_is_ws(mk[16]));
    assert(spec_trim(mk) == mk);
    // the content trims back to the station text
    let content = line.subrange(0, 60);
    assert(content =~= text + Seq::new(4, |x: int| 32u8));
    assert forall|i: int| 56 <= i < 60 implies content[i] == 32 by {}
    crate::text::lemma_trim_char(content, 0, 56);
    assert(content.subrange(0, 56) =~= text);
    assert(spec_trim(content) == text);
}

/// Station line round-trip through the dispatch: a STATION
/// REFERENCE line the formatter emits steps through the header
/// parser, appending exactly the formatted station to the roster.
#[verifier::rlimit(100)]
#[verifier::spinoff_prover]
pub proof fn lemma_station_line_step(h: HeaderView, st: GroundStationView)
    requires
        crate::station::spec_station_wf(st),
    ensures
        spec_header_step(
            h,
            spec_fmt_doris(
                crate::station::spec_format_station(st),
                spec_marker_station_reference(),
            ),
        ) == Ok::<HeaderView, ParsingError>(
            HeaderView { ground_stations: h.ground_stations.push(st), ..h },
        ),
{
    let line = spec_fmt_doris(
        crate::station::spec_format_station(st),
        spec_marker_station_reference(),
    );
    crate::station::lemma_station_round_trip(st);
    lemma_station_line_fields(st);
    assert(line.subrange(60, line.len() as int) == line.subrange(60, 77));
    lemma_station_step_eval(h, line, st);
}

/// The station reference lines of the first `i` stations, each a
/// full line with its newline.
pub open spec fn spec_station_lines(sts: Seq<GroundStationView>, i: int) -> Seq<u8>
    decreases i,
{
    if i <= 0 {
        Seq::empty()
    } else {
        spec_station_lines(sts, i - 1) + spec_fmt_doris(
            crate::station::spec_format_station(sts[i - 1]),
            spec_marker_station_reference(),
        ) + seq![10u8]
    }
}

/// Each observable code is one or two bytes, none of them blank.
proof fn lemma_obs_code_bytes(o: Observable)
    ensures
        1 <= crate::observable::spec_obs_code(o).len() <= 2,
        forall|i: int|
            0 <= i < crate::observable::spec_obs_code(o).len() ==> !spec_is_ws(
                #[trigger] crate::observable::spec_obs_code(o)[i],
            ),
{
    let c = crate::observable::spec_obs_code(o);
    match o {
        Observable::Pressure => {
            assert(!spec_is_ws(c[0]));
        },
        Observable::Temperature => {
            assert(!spec_is_ws(c[0]));
        },
        Observable::HumidityRate => {
            assert(!spec_is_ws(c[0]));
        },
        Observable::FrequencyRatio => {
            assert(!spec_is_ws(c[0]));
        },
        Observable::PseudoRange(_) => {
            assert(!spec_is_ws(c[0]) && !spec_is_ws(c[1]));
        },
        Observable::UnambiguousPhaseRange(_) => {
            assert(!spec_is_ws(c[0]) && !spec_is_ws(c[1]));
        },
        Observable::Power(_) => {
            assert(!spec_is_ws(c[0]) && !spec_is_ws(c[1]));
        },
    }
}

/// The code list text, peeled from the left: a blank, the first
/// code, then the rest of the list.
proof fn lemma_obs_codes_text_left(obs: Seq<Observable>, lo: int, hi: int)
    requires
        0 <= lo < hi <= obs.len(),
    ensures
        spec_obs_codes_text(obs, lo, hi) == seq![32u8] + crate::observable::spec_obs_code(obs[lo])
            + spec_obs_codes_text(obs, lo + 1, hi),
    decreases hi - lo,
{
    if hi == lo + 1 {
        assert(spec_obs_codes_text(obs, lo, lo) =~= Seq::<u8>::empty());
        assert(spec_obs_codes_text(obs, lo + 1, hi) =~= Seq::<u8>::empty());
        assert(spec_obs_codes_text(obs, lo, hi) =~= seq![32u8]
            + crate::observable::spec_obs_code(obs[lo]) + spec_obs_codes_text(obs, lo + 1, hi));
    } else {
        lemma_obs_codes_text_left(obs, lo, hi - 1);
        assert(spec_obs_codes_text(obs, lo, hi) == spec_obs_codes_text(obs, lo, hi - 1)
            + seq![32u8] + crate::observable::spec_obs_code(obs[hi - 1]));
        assert(spec_obs_codes_text(obs, lo + 1, hi) == spec_obs_codes_text(obs, lo + 1, hi - 1)
            + seq![32u8] + crate::observable::spec_obs_code(obs[hi - 1]));
        assert(spec_obs_codes_text(obs, lo, hi) =~= seq![32u8]
            + crate::observable::spec_obs_code(obs[lo]) + spec_obs_codes_text(obs, lo + 1, hi));
    }
}

/// An all-blank text has no tokens.
proof fn lemma_ws_only_tokens(s: Seq<u8>)
    requires
        forall|i: int| 0 <= i < s.len() ==> spec_is_ws(#[trigger] s[i]),
    ensures
        spec_tokens(s) == Seq::<Seq<u8>>::empty(),
    decreases s.len(),
{
    if s.len() > 0 {
        lemma_ws_only_tokens(s.subrange(1, s.len() as int));
    }
}

/// A blank prefix never changes the tokens.
proof fn lemma_tokens_skip_ws(p: Seq<u8>, s: Seq<u8>)
    requires
        forall|i: int| 0 <= i < p.len() ==> spec_is_ws(#[trigger] p[i]),
    ensures
        spec_tokens(p + s) == spec_tokens(s),
    decreases p.len(),
{
    if p.len() == 0 {
        assert(p + s =~= s);
    } else {
        assert((p + s).subrange(1, (p + s).len() as int) =~= p.subrange(1, p.len() as int) + s);
        lemma_tokens_skip_ws(p.subrange(1, p.len() as int), s);
    }
}

/// Tokenizing the code list text, with any blank tail, yields
/// exactly the codes.
proof fn lemma_obs_codes_tokens(obs: Seq<Observable>, lo: int, hi: int, sp: Seq<u8>)
    requires
        0 <= lo <= hi <= obs.len(),
        forall|i: int| 0 <= i < sp.len() ==> spec_is_ws(#[trigger] sp[i]),
    ensures
        spec_tokens(spec_obs_codes_text(obs, lo, hi) + sp) == Seq::new(
            (hi - lo) as nat,
            |i: int| crate::observable::spec_obs_code(obs[lo + i]),
        ),
    decreases hi - lo,
{
    let s = spec_obs_codes_text(obs, lo, hi) + sp;
    if lo == hi {
        assert(spec_obs_codes_text(obs, lo, hi) =~= Seq::<u8>::empty());
        assert(s =~= sp);
        lemma_ws_only_tokens(sp);
        assert(spec_tokens(s) =~= Seq::new(
            (hi - lo) as nat,
            |i: int| crate::observable::spec_obs_code(obs[lo + i]),
        ));
    } else {
        lemma_obs_codes_text_left(obs, lo, hi);
        lemma_obs_code_bytes(obs[lo]);
        let c = crate::observable::spec_obs_code(obs[lo]);
        let rest = spec_obs_codes_text(obs, lo + 1, hi) + sp;
        assert(s =~= seq![32u8] + c + rest);
        assert(spec_is_ws(s[0]));
        assert forall|i: int| 1 <= i < 1 + c.len() implies !spec_is_ws(#[trigger] s[i]) by {
            assert(s[i] == c[i - 1]);
        }
        if 1 + c.len() < s.len() {
            assert(spec_is_ws(s[1 + c.len() as int])) by {
                if lo + 1 < hi {
                    lemma_obs_codes_text_left(obs, lo + 1, hi);
                    assert(rest[0] == 32);
                } else {
                    assert(spec_obs_codes_text(obs, lo + 1, hi) =~= Seq::<u8>::empty());
                    assert(rest =~= sp);
                }
                assert(s[1 + c.len() as int] == rest[0]);
            }
        }
        crate::text::lemma_tokens_step(s, 1, 1 + c.len() as int);
        assert(s.subrange(1, 1 + c.len() as int) =~= c);
        assert(s.subrange(1 + c.len() as int, s.len() as int) =~= rest);
        lemma_obs_codes_tokens(obs, lo + 1, hi, sp);
        assert(spec_tokens(s) =~= Seq::new(
            (hi - lo) as nat,
            |i: int| crate::observable::spec_obs_code(obs[lo + i]),
        ));
    }
}

/// A token list of observable codes parses back to the observables,
/// from any starting index.
proof fn lemma_parse_obs_codes_back(toks: Seq<Seq<u8>>, k: int, obs: Seq<Observable>, lo: int, hi: int)
    requires
        0 <= k <= toks.len(),
        0 <= lo <= hi <= obs.len(),
        toks.len() - k == hi - lo,
        forall|i: int|
            0 <= i < hi - lo ==> toks[k + i] == crate::observable::spec_obs_code(
                #[trigger] obs[lo + i],
            ),
    ensures
        spec_parse_obs_codes(toks, k) == Ok::<Seq<Observable>, ParsingError>(
            obs.subrange(lo, hi),
        ),
    decreases toks.len() - k,
{
    if k >= toks.len() {
        assert(obs.subrange(lo, hi) =~= Seq::<Observable>::empty());
    } else {
        assert(toks[k + 0] == crate::observable::spec_obs_code(obs[lo + 0]));
        crate::observable::lemma_observable_code_round_trip(obs[lo]);
        assert forall|i: int|
            0 <= i < hi - (lo + 1) implies toks[(k + 1) + i]
            == crate::observable::spec_obs_code(#[trigger] obs[(lo + 1) + i]) by {
            assert(toks[k + (i + 1)] == crate::observable::spec_obs_code(obs[lo + (i + 1)]));
        }
        lemma_parse_obs_codes_back(toks, k + 1, obs, lo + 1, hi);
        assert(seq![obs[lo]] + obs.subrange(lo + 1, hi) =~= obs.subrange(lo, hi));
    }
}

/// The code list text takes at most three columns per code.
proof fn lemma_obs_codes_text_len(obs: Seq<Observable>, lo: int, hi: int)
    requires
        0 <= lo <= hi <= obs.len(),
    ensures
        spec_obs_codes_text(obs, lo, hi).len() <= 3 * (hi - lo),
    decreases hi - lo,
{
    if lo < hi {
        lemma_obs_codes_text_len(obs, lo, hi - 1);
        lemma_obs_code_bytes(obs[hi - 1]);
    }
}

/// The opening schema line re-parses: applied to the sixty-column
/// content the formatter emits for a schema, the schema step appends
/// the schema's first five codes and records its declared count.
pub proof fn lemma_obs_first_line_reparse(h: HeaderView, g: HeaderView)
    requires
        g.observables.len() <= 65535,
    ensures
        spec_obs_types_step(h, crate::text::spec_pad_right(spec_obs_content(g), 60, 32)) == Ok::<
            HeaderView,
            ParsingError,
        >(
            HeaderView {
                observables: h.observables + g.observables.subrange(
                    0,
                    spec_obs_cut(g.observables, 0),
                ),
                observables_count: if h.observables_count == 0 {
                    g.observables.len() as u16
                } else {
                    h.observables_count
                },
                ..h
            },
        ),
{
    crate::text::lemma_pow10_small();
    let obs = g.observables;
    let n = obs.len() as nat;
    let cut = spec_obs_cut(obs, 0);
    let dg = crate::text::spec_digits(n);
    let pad10 = crate::text::spec_pad_left(dg, 10, 32);
    let codes = spec_obs_codes_text(obs, 0, cut);
    let body = spec_obs_content(g);
    crate::text::lemma_spec_digits(n);
    crate::text::lemma_spec_digits_len(n, 5);
    assert(dg.len() <= 5) by {
        crate::text::lemma_pow10_mono(5, 10);
        crate::text::lemma_digits_val_bound(dg);
    }
    assert(pad10.len() == 10);
    lemma_obs_codes_text_len(obs, 0, cut);
    assert(body.len() <= 27);
    let c = crate::text::spec_pad_right(body, 60, 32);
    let tail = Seq::new((60 - body.len()) as nat, |x: int| 32u8);
    assert(c =~= body + tail);
    assert(c.len() == 60);
    // the content opens a fresh schema: its first byte is the system
    assert(c[0] == 68 && !spec_is_ws(c[0]));
    // tokens: the system letter, the count, then the codes
    assert(spec_is_ws(c[1]));
    crate::text::lemma_tokens_step(c, 0, 1);
    assert(c.subrange(0, 1) =~= seq![68u8]);
    let r1 = c.subrange(1, 60);
    // the blank column and the count's left padding are skipped
    let skip = (1 + (10 - dg.len())) as int;
    let wsp = r1.subrange(0, skip);
    let r2 = r1.subrange(skip, r1.len() as int);
    assert forall|i: int| 0 <= i < skip implies spec_is_ws(#[trigger] wsp[i]) by {
        if i >= 1 {
            assert(r1[i] == pad10[i - 1]);
        }
    }
    assert(r1 =~= wsp + r2);
    lemma_tokens_skip_ws(wsp, r2);
    // the count's digits form the next token
    assert(r2 =~= dg + (codes + tail));
    assert forall|i: int| 0 <= i < dg.len() implies !spec_is_ws(#[trigger] r2[i]) by {
        assert(r2[i] == dg[i]);
        assert(crate::text::spec_is_digit(dg[i]));
    }
    assert(dg.len() < r2.len());
    assert(spec_is_ws(r2[dg.len() as int])) by {
        if cut > 0 {
            lemma_obs_codes_text_left(obs, 0, cut);
            assert((codes + tail)[0] == 32);
        } else {
            assert(codes =~= Seq::<u8>::empty());
            assert((codes + tail)[0] == tail[0]);
        }
        assert(r2[dg.len() as int] == (codes + tail)[0]);
    }
    crate::text::lemma_tokens_step(r2, 0, dg.len() as int);
    assert(r2.subrange(0, dg.len() as int) =~= dg);
    assert(r2.subrange(dg.len() as int, r2.len() as int) =~= codes + tail);
    assert forall|i: int| 0 <= i < tail.len() implies spec_is_ws(#[trigger] tail[i]) by {}
    lemma_obs_codes_tokens(obs, 0, cut, tail);
    let code_toks = Seq::new(
        cut as nat,
        |i: int| crate::observable::spec_obs_code(obs[0 + i]),
    );
    let toks = spec_tokens(c);
    assert(toks =~= seq![seq![68u8], dg] + code_toks);
    // the count token carries the schema size
    crate::text::lemma_zero_padded_value(n, 1);
    assert(is_uint_text(dg) && uint_text_val(dg) == n) by {
        assert(crate::text::spec_pad_left(dg, 1, 48) == dg);
    }
    // the code tokens parse back to the first five observables
    assert(toks.len() - 2 == cut);
    assert forall|i: int|
        0 <= i < cut implies toks[2 + i] == crate::observable::spec_obs_code(
        #[trigger] obs[0 + i],
    ) by {
        assert(toks[2 + i] == code_toks[i]);
    }
    lemma_parse_obs_codes_back(toks, 2, obs, 0, cut);
    assert(spec_obs_types_step(h, c) =~~= Ok::<HeaderView, ParsingError>(
        HeaderView {
            observables: h.observables + obs.subrange(0, cut),
            observables_count: if h.observables_count == 0 {
                obs.len() as u16
            } else {
                h.observables_count
            },
            ..h
        },
    ));
}

/// A continuation schema line re-parses: applied to the sixty-column
/// content the formatter emits from position `lo` on, the schema
/// step appends exactly that line's codes.
pub proof fn lemma_obs_cont_line_reparse(h: HeaderView, obs: Seq<Observable>, lo: int)
    requires
        0 <= lo < obs.len(),
    ensures
        spec_obs_types_step(
            h,
            crate::text::spec_pad_right(
                Seq::new(6, |x: int| 32u8) + spec_obs_codes_text(obs, lo, spec_obs_cut(obs, lo)),
                60,
                32,
            ),
        ) == Ok::<HeaderView, ParsingError>(
            HeaderView { observables: h.observables + obs.subrange(lo, spec_obs_cut(obs, lo)), ..h },
        ),
{
    let hi = spec_obs_cut(obs, lo);
    let blanks = Seq::new(6, |x: int| 32u8);
    let codes = spec_obs_codes_text(obs, lo, hi);
    let body = blanks + codes;
    lemma_obs_codes_text_len(obs, lo, hi);
    assert(body.len() <= 21);
    let c = crate::text::spec_pad_right(body, 60, 32);
    let tail = Seq::new((60 - body.len()) as nat, |x: int| 32u8);
    assert(c =~= body + tail);
    assert(c.len() == 60 && spec_is_ws(c[0]));
    assert(c =~= blanks + (codes + tail));
    lemma_tokens_skip_ws(blanks, codes + tail);
    assert forall|i: int| 0 <= i < tail.len() implies spec_is_ws(#[trigger] tail[i]) by {}
    lemma_obs_codes_tokens(obs, lo, hi, tail);
    let toks = spec_tokens(c);
    assert(toks =~= Seq::new(
        (hi - lo) as nat,
        |i: int| crate::observable::spec_obs_code(obs[lo + i]),
    ));
    lemma_parse_obs_codes_back(toks, 0, obs, lo, hi);
    assert(spec_obs_types_step(h, c) =~~= Ok::<HeaderView, ParsingError>(
        HeaderView { observables: h.observables + obs.subrange(lo, hi), ..h },
    ));
}

/// The schema step applied to every continuation line's
/// sixty-column content from `lo` on, in order; a failing step
/// stops.
pub open spec fn spec_obs_cont_steps(h: HeaderView, obs: Seq<Observable>, lo: int) -> HeaderView
    decreases obs.len() - lo,
{
    if lo < 0 || lo >= obs.len() {
        h
    } else {
        let c = crate::text::spec_pad_right(
            Seq::new(6, |x: int| 32u8) + spec_obs_codes_text(obs, lo, spec_obs_cut(obs, lo)),
            60,
            32,
        );
        match spec_obs_types_step(h, c) {
            Ok(h2) => spec_obs_cont_steps(h2, obs, spec_obs_cut(obs, lo)),
            Err(_) => h,
        }
    }
}

/// The continuation steps from `lo` on extend a schema that already
/// holds the first `lo` observables to the whole list.
proof fn lemma_obs_cont_steps_all(h: HeaderView, obs: Seq<Observable>, lo: int)
    requires
        0 <= lo <= obs.len(),
        h.observables == obs.subrange(0, lo),
    ensures
        spec_obs_cont_steps(h, obs, lo) == (HeaderView { observables: obs, ..h }),
    decreases obs.len() - lo,
{
    if lo >= obs.len() {
        assert(obs.subrange(0, lo) =~= obs);
        assert(h =~~= (HeaderView { observables: obs, ..h }));
    } else {
        let hi = spec_obs_cut(obs, lo);
        lemma_obs_cont_line_reparse(h, obs, lo);
        let h2 = HeaderView { observables: h.observables + obs.subrange(lo, hi), ..h };
        assert(h2.observables =~= obs.subrange(0, hi));
        lemma_obs_cont_steps_all(h2, obs, hi);
    }
}

/// Schema round-trip: on a header with no schema yet, re-parsing
/// the opening schema line and then every continuation line the
/// formatter emits rebuilds exactly the formatted observable list,
/// with its size declared on the opening line.
pub proof fn lemma_obs_schema_round_trip(h: HeaderView, g: HeaderView)
    requires
        h.observables.len() == 0,
        h.observables_count == 0,
        g.observables.len() <= 65535,
    ensures
        spec_obs_types_step(h, crate::text::spec_pad_right(spec_obs_content(g), 60, 32)) is Ok,
        spec_obs_cont_steps(
            spec_obs_types_step(h, crate::text::spec_pad_right(spec_obs_content(g), 60, 32))->Ok_0,
            g.observables,
            spec_obs_cut(g.observables, 0),
        ) == (HeaderView {
            observables: g.observables,
            observables_count: g.observables.len() as u16,
            ..h
        }),
{
    let obs = g.observables;
    let cut = spec_obs_cut(obs, 0);
    lemma_obs_first_line_reparse(h, g);
    let h1 = spec_obs_types_step(h, crate::text::spec_pad_right(spec_obs_content(g), 60, 32))->Ok_0;
    assert(h1.observables =~= obs.subrange(0, cut));
    assert(h1 =~~= (HeaderView {
        observables: h1.observables,
        observables_count: obs.len() as u16,
        ..h
    }));
    lemma_obs_cont_steps_all(h1, obs, cut);
}

/// The opening lines of the formatted header: version, satellite,
/// launch number, production, observer and schema lines, the schema
/// wrapped every five observables.
pub open spec fn spec_format_header_head(h: HeaderView) -> Seq<u8> {
    spec_fmt_doris(spec_version_content(h.version), spec_marker_version_type()) + seq![10u8]
        + spec_fmt_doris(h.satellite, spec_marker_satellite_name()) + seq![10u8] + (match h.cospar {
        Some(c) => spec_fmt_doris(
            crate::cospar::spec_format_cospar(c),
            spec_marker_cospar_number(),
        ) + seq![10u8],
        None => Seq::empty(),
    }) + spec_fmt_doris(spec_pgm_content(h), spec_marker_pgm_run_by_date()) + seq![10u8]
        + spec_fmt_doris(spec_obsag_content(h), spec_marker_observer_agency()) + seq![10u8]
        + spec_fmt_doris(spec_obs_content(h), spec_marker_sys_obs_types()) + seq![10u8]
        + spec_obs_cont_lines(h.observables, 5)
}

/// The formatted header: every line the formatter emits, in order,
/// each with its marker and newline.
pub open spec fn spec_format_header(h: HeaderView) -> Seq<u8> {
    spec_format_header_head(h) + (
    match h.time_of_first_observation {
        Some(e) => spec_fmt_doris(spec_timeobs_content(e), spec_marker_time_of_first_obs())
            + seq![10u8],
        None => Seq::empty(),
    }) + (match h.time_of_last_observation {
        Some(e) => spec_fmt_doris(spec_timeobs_content(e), spec_marker_time_of_last_obs())
            + seq![10u8],
        None => Seq::empty(),
    }) + spec_fmt_doris(
        crate::text::spec_pad_left(
            crate::text::spec_digits(h.ground_stations.len() as nat),
            6,
            32,
        ),
        spec_marker_nb_stations(),
    ) + seq![10u8] + spec_station_lines(h.ground_stations, h.ground_stations.len() as int)
        + spec_fmt_doris(Seq::empty(), spec_marker_end_of_header()) + seq![10u8]
}

impl Header {
    /// Formats the header into its standard lines: version, satellite
    /// name, launch number, production and observer lines, the
    /// observable schema, the times of observation, the station count
    /// and roster, and the closing marker.
    /// Formats the opening header lines, through the schema line.
    #[verifier::rlimit(100)]
    fn format_head(&self) -> (r: Vec<u8>)
        requires
            self@.cospar matches Some(c) ==> c.wf(),
        ensures
            r@ == spec_format_header_head(self@),
    {
        let mut out: Vec<u8> = Vec::new();
        // version / type
        let mut content = crate::text::pad_left(crate::text::fmt_u64(self.version.major as u64), 6, 32);
        content.push(46);
        let mut p = crate::text::pad_left(crate::text::fmt_u64(self.version.minor as u64), 2, 48);
        content.append(&mut p);
        let mut q: usize = 0;
        while q < 11
            invariant
                0 <= q <= 11,
                content@ =~= crate::text::spec_pad_left(
                    crate::text::spec_digits(self.version.major as nat),
                    6,
                    32,
                ) + seq![46u8] + crate::text::spec_pad_left(
                    crate::text::spec_digits(self.version.minor as nat),
                    2,
                    48,
                ) + Seq::new(q as nat, |x: int| 32u8),
            decreases 11 - q,
        {
            content.push(32);
            proof {
                assert(content@.drop_last() + seq![32u8] =~= content@);
            }
            q = q + 1;
        }
        content.push(79);
        let mut q: usize = 0;
        let ghost mid = content@;
        while q < 19
            invariant
                0 <= q <= 19,
                content@ =~= mid + Seq::new(q as nat, |x: int| 32u8),
            decreases 19 - q,
        {
            content.push(32);
            proof {
                assert(content@.drop_last() + seq![32u8] =~= content@);
            }
            q = q + 1;
        }
        content.push(68);
        proof {
            let pv = crate::text::spec_pad_left(
                crate::text::spec_digits(self.version.major as nat),
                6,
                32,
            ) + seq![46u8] + crate::text::spec_pad_left(
                crate::text::spec_digits(self.version.minor as nat),
                2,
                48,
            );
            assert(content@ =~= spec_version_content(self.version));
        }
        let mut l = fmt_doris(content.as_slice(), marker_version_type().as_slice());
        out.append(&mut l);
        out.push(10);
        // satellite name
        let mut l = fmt_doris(self.satellite.as_slice(), marker_satellite_name().as_slice());
        out.append(&mut l);
        out.push(10);
        // cospar number
        if let Some(c) = &self.cospar {
            let body = c.format();
            let mut l = fmt_doris(body.as_slice(), marker_cospar_number().as_slice());
            out.append(&mut l);
            out.push(10);
        }
        // program / run by / date
        let mut content = crate::text::pad_right(opt_or_empty(&self.program), 20, 32);
        let mut p = crate::text::pad_right(opt_or_empty(&self.run_by), 20, 32);
        content.append(&mut p);
        let mut p = opt_or_empty(&self.date);
        content.append(&mut p);
        proof {
            assert(content@ =~= spec_pgm_content(self@));
        }
        let mut l = fmt_doris(content.as_slice(), marker_pgm_run_by_date().as_slice());
        out.append(&mut l);
        out.push(10);
        // observer / agency
        let mut content = crate::text::pad_right(opt_or_empty(&self.observer), 20, 32);
        let mut p = opt_or_empty(&self.agency);
        content.append(&mut p);
        proof {
            assert(content@ =~= spec_obsag_content(self@));
        }
        let mut l = fmt_doris(content.as_slice(), marker_observer_agency().as_slice());
        out.append(&mut l);
        out.push(10);
        // observable schema: the opening line carries the count and
        // the first five codes
        let nobs: usize = self.observables.len();
        let mut content: Vec<u8> = Vec::new();
        content.push(68);
        content.push(32);
        let mut p = crate::text::pad_left(crate::text::fmt_u64(nobs as u64), 10, 32);
        content.append(&mut p);
        let ghost head = content@;
        let first_hi: usize = if nobs < 5 {
            nobs
        } else {
            5
        };
        let mut q: usize = 0;
        while q < first_hi
            invariant
                0 <= q <= first_hi,
                first_hi <= nobs,
                nobs == self.observables@.len(),
                content@ =~= head + spec_obs_codes_text(self.observables@, 0, q as int),
            decreases first_hi - q,
        {
            content.push(32);
            let mut c = self.observables[q].format_code();
            content.append(&mut c);
            proof {
                assert(content@ =~= head + spec_obs_codes_text(self.observables@, 0, q + 1));
            }
            q = q + 1;
        }
        proof {
            assert(first_hi as int == spec_obs_cut(self@.observables, 0));
            assert(content@ =~= spec_obs_content(self@));
        }
        let mut l = fmt_doris(content.as_slice(), marker_sys_obs_types().as_slice());
        out.append(&mut l);
        out.push(10);
        // continuation lines, five more codes each behind six blanks
        let ghost base = out@;
        let mut lo: usize = 5;
        while lo < nobs
            invariant
                5 <= lo,
                nobs == self.observables@.len(),
                out@ + spec_obs_cont_lines(self.observables@, lo as int) =~= base
                    + spec_obs_cont_lines(self.observables@, 5),
            decreases nobs - lo,
        {
            let hi: usize = if nobs - lo >= 5 {
                lo + 5
            } else {
                nobs
            };
            let mut cont: Vec<u8> = Vec::new();
            let mut w: usize = 0;
            while w < 6
                invariant
                    0 <= w <= 6,
                    cont@ =~= Seq::new(w as nat, |x: int| 32u8),
                decreases 6 - w,
            {
                cont.push(32);
                proof {
                    assert(cont@.drop_last() + seq![32u8] =~= cont@);
                    assert(cont@ =~= Seq::new((w + 1) as nat, |x: int| 32u8));
                }
                w = w + 1;
            }
            let ghost chead = cont@;
            let mut q: usize = lo;
            while q < hi
                invariant
                    lo <= q <= hi,
                    hi <= nobs,
                    nobs == self.observables@.len(),
                    cont@ =~= chead + spec_obs_codes_text(
                        self.observables@,
                        lo as int,
                        q as int,
                    ),
                decreases hi - q,
            {
                cont.push(32);
                let mut c = self.observables[q].format_code();
                cont.append(&mut c);
                proof {
                    assert(cont@ =~= chead + spec_obs_codes_text(
                        self.observables@,
                        lo as int,
                        q + 1,
                    ));
                }
                q = q + 1;
            }
            let mut l = fmt_doris(cont.as_slice(), marker_sys_obs_types().as_slice());
            let ghost before = out@;
            out.append(&mut l);
            out.push(10);
            proof {
                let obs = self.observables@;
                assert(hi as int == spec_obs_cut(obs, lo as int));
                let line = spec_fmt_doris(
                    Seq::new(6, |x: int| 32u8) + spec_obs_codes_text(obs, lo as int, hi as int),
                    spec_marker_sys_obs_types(),
                ) + seq![10u8];
                assert(chead =~= Seq::new(6, |x: int| 32u8));
                assert(out@ =~= before + line);
                assert(spec_obs_cont_lines(obs, lo as int) == line + spec_obs_cont_lines(
                    obs,
                    hi as int,
                ));
                assert(out@ + spec_obs_cont_lines(obs, hi as int) =~= before
                    + spec_obs_cont_lines(obs, lo as int));
            }
            lo = hi;
        }
        proof {
            assert(spec_obs_cont_lines(self.observables@, lo as int) =~= Seq::<u8>::empty());
            assert(out@ + spec_obs_cont_lines(self.observables@, lo as int) =~= out@);
            assert(out@ =~= base + spec_obs_cont_lines(self.observables@, 5));
            assert(out@ =~= spec_format_header_head(self@));
        }
        out
    }

    /// Formats the header into its standard lines: version, satellite
    /// name, launch number, production and observer lines, the
    /// observable schema, the times of observation, the station count
    /// and roster, and the closing marker.
    #[verifier::rlimit(100)]
    pub fn format(&self) -> (r: Vec<u8>)
        requires
            self@.cospar matches Some(c) ==> c.wf(),
            self@.time_of_first_observation matches Some(e) ==> e.valid(),
            self@.time_of_last_observation matches Some(e) ==> e.valid(),
            forall|i: int|
                0 <= i < self@.ground_stations.len() ==> (#[trigger] self@.ground_stations[i]).domes.wf(),
        ensures
            r@ == spec_format_header(self@),
    {
        let mut out: Vec<u8> = self.format_head();
        // times of observation
        if let Some(e) = &self.time_of_first_observation {
            let body = fmt_timeobs(e);
            let mut l = fmt_doris(body.as_slice(), marker_time_of_first_obs().as_slice());
            out.append(&mut l);
            out.push(10);
        }
        if let Some(e) = &self.time_of_last_observation {
            let body = fmt_timeobs(e);
            let mut l = fmt_doris(body.as_slice(), marker_time_of_last_obs().as_slice());
            out.append(&mut l);
            out.push(10);
        }
        // station count and roster
        let body = crate::text::pad_left(
            crate::text::fmt_u64(self.ground_stations.len() as u64),
            6,
            32,
        );
        let mut l = fmt_doris(body.as_slice(), marker_nb_stations().as_slice());
        out.append(&mut l);
        out.push(10);
        let ghost prefix = out@;
        let mut q: usize = 0;
        while q < self.ground_stations.len()
            invariant
                0 <= q <= self.ground_stations@.len(),
                forall|i: int|
                    0 <= i < self@.ground_stations.len() ==> (
                    #[trigger] self@.ground_stations[i]).domes.wf(),
                self@.ground_stations.len() == self.ground_stations@.len(),
                forall|i: int|
                    0 <= i < self.ground_stations@.len() ==> #[trigger] self@.ground_stations[i]
                        == self.ground_stations@[i]@,
                out@ =~= prefix + spec_station_lines(self@.ground_stations, q as int),
            decreases self.ground_stations@.len() - q,
        {
            proof {
                assert(self@.ground_stations[q as int].domes.wf());
                assert(self@.ground_stations[q as int] == self.ground_stations@[q as int]@);
            }
            let body = self.ground_stations[q].format();
            let mut l = fmt_doris(body.as_slice(), marker_station_reference().as_slice());
            out.append(&mut l);
            out.push(10);
            proof {
                assert(out@ =~= prefix + spec_station_lines(self@.ground_stations, q + 1));
            }
            q = q + 1;
        }
        // closing marker
        let empty: Vec<u8> = Vec::new();
        let mut l = fmt_doris(empty.as_slice(), marker_end_of_header().as_slice());
        out.append(&mut l);
        out.push(10);
        proof {
            assert(out@ =~= spec_format_header(self@));
        }
        out
    }

    /// Formats all comments as comment lines, each with its newline.
    pub fn format_comments(&self) -> (r: Vec<u8>)
        ensures
            r@ == spec_comment_lines(self@.comments, self@.comments.len() as int),
    {
        let mut out: Vec<u8> = Vec::new();
        let mut q: usize = 0;
        while q < self.comments.len()
            invariant
                0 <= q <= self.comments@.len(),
                self@.comments.len() == self.comments@.len(),
                forall|i: int|
                    0 <= i < self.comments@.len() ==> #[trigger] self@.comments[i]
                        == self.comments@[i]@,
                out@ =~= spec_comment_lines(self@.comments, q as int),
            decreases self.comments@.len() - q,
        {
            let mut l = crate::lines::fmt_comment(self.comments[q].as_slice());
            out.append(&mut l);
            out.push(10);
            proof {
                assert(out@ =~= spec_comment_lines(self@.comments, q + 1));
            }
            q = q + 1;
        }
        out
    }
}

/// The comment lines of the first `i` comments.
pub open spec fn spec_comment_lines(cs: Seq<Seq<u8>>, i: int) -> Seq<u8>
    decreases i,
{
    if i <= 0 {
        Seq::empty()
    } else {
        spec_comment_lines(cs, i - 1) + spec_fmt_doris(
            cs[i - 1],
            crate::lines::spec_comment_marker(),
        ) + seq![10u8]
    }
}

/// The bytes of an optional field, or nothing.
fn opt_or_empty(o: &Option<Vec<u8>>) -> (r: Vec<u8>)
    ensures
        r@ == spec_or_empty(spec_opt_view(*o)),
{
    match o {
        Some(v) => vstd::slice::slice_to_vec(v.as_slice()),
        None => Vec::new(),
    }
}

/// Formats a time-of-observation content field.
fn fmt_timeobs(e: &Epoch) -> (r: Vec<u8>)
    requires
        e.valid(),
    ensures
        r@ == spec_timeobs_content(*e),
{
    let mut out = crate::text::pad_left(crate::text::fmt_u64(e.year as u64), 6, 32);
    out.push(32);
    let mut p = crate::text::pad_left(crate::text::fmt_u64(e.month as u64), 5, 32);
    out.append(&mut p);
    out.push(32);
    let mut p = crate::text::pad_left(crate::text::fmt_u64(e.day as u64), 5, 32);
    out.append(&mut p);
    out.push(32);
    let mut p = crate::text::pad_left(crate::text::fmt_u64(e.hour as u64), 5, 32);
    out.append(&mut p);
    out.push(32);
    let mut p = crate::text::pad_left(crate::text::fmt_u64(e.minute as u64), 5, 32);
    out.append(&mut p);
    out.push(32);
    let mut p = crate::text::pad_left(crate::text::fmt_u64(e.second as u64), 4, 32);
    out.append(&mut p);
    out.push(46);
    let mut p = crate::text::pad_left(crate::text::fmt_u64((e.nanos / 100) as u64), 7, 48);
    out.append(&mut p);
    out.push(32);
    out.push(32);
    out.push(32);
    out.push(32);
    let scale_is_tai: bool = match e.time_scale {
        TimeScale::TAI => true,
        _ => false,
    };
    if scale_is_tai {
        out.push(68);
        out.push(79);
        out.push(82);
    } else {
        let mut t = e.time_scale.tag();
        out.append(&mut t);
    }
    proof {
        assert(out@ =~= spec_timeobs_content(*e));
    }
    out
}


/// The first roster station carrying the given code, if any.
pub open spec fn spec_find_station(sts: Seq<GroundStationView>, code: u16) -> Option<
    GroundStationView,
>
    decreases sts.len(),
{
    if sts.len() == 0 {
        None
    } else if sts[0].code == code {
        Some(sts[0])
    } else {
        spec_find_station(sts.subrange(1, sts.len() as int), code)
    }
}

impl Header {
    /// An equal header, copied field by field.
    pub(crate) fn duplicate(&self) -> (r: Header)
        ensures
            r@ == self@,
    {
        let mut comments: Vec<Vec<u8>> = Vec::new();
        let mut q: usize = 0;
        while q < self.comments.len()
            invariant
                0 <= q <= self.comments@.len(),
                comments@.len() == q,
                forall|i: int| 0 <= i < q ==> #[trigger] comments@[i]@ == self.comments@[i]@,
            decreases self.comments@.len() - q,
        {
            comments.push(vstd::slice::slice_to_vec(self.comments[q].as_slice()));
            q = q + 1;
        }
        let mut ground_stations: Vec<GroundStation> = Vec::new();
        let mut q: usize = 0;
        while q < self.ground_stations.len()
            invariant
                0 <= q <= self.ground_stations@.len(),
                ground_stations@.len() == q,
                forall|i: int|
                    0 <= i < q ==> #[trigger] ground_stations@[i]@ == self.ground_stations@[i]@,
            decreases self.ground_stations@.len() - q,
        {
            ground_stations.push(self.ground_stations[q].duplicate());
            q = q + 1;
        }
        let r = Header {
            version: self.version,
            comments,
            satellite: vstd::slice::slice_to_vec(self.satellite.as_slice()),
            program: opt_dup(&self.program),
            run_by: opt_dup(&self.run_by),
            date: opt_dup(&self.date),
            observer: opt_dup(&self.observer),
            agency: opt_dup(&self.agency),
            cospar: match &self.cospar {
                Some(c) => Some(
                    COSPAR {
                        year: c.year,
                        launch: c.launch,
                        piece: vstd::slice::slice_to_vec(c.piece.as_slice()),
                    },
                ),
                None => None,
            },
            receiver: match &self.receiver {
                Some(rx) => Some(rx.duplicate()),
                None => None,
            },
            antenna: match &self.antenna {
                Some(a) => Some(a.duplicate()),
                None => None,
            },
            license: opt_dup(&self.license),
            doi: opt_dup(&self.doi),
            observables: vstd::slice::slice_to_vec(self.observables.as_slice()),
            observables_count: self.observables_count,
            l1_l2_date_offset: self.l1_l2_date_offset,
            ground_stations,
            time_of_first_observation: self.time_of_first_observation,
            time_of_last_observation: self.time_of_last_observation,
        };
        proof {
            assert(r@.comments =~= self@.comments);
            assert(r@.ground_stations =~= self@.ground_stations);
            assert(r@ =~~= self@);
        }
        r
    }

    /// Identifies a ground station by its file-dependent code: the
    /// first roster entry with that code.
    pub fn ground_station(&self, station_code: u16) -> (r: Option<GroundStation>)
        ensures
            match r {
                Some(st) => spec_find_station(self@.ground_stations, station_code) == Some(st@),
                None => spec_find_station(self@.ground_stations, station_code) is None,
            },
    {
        let n: usize = self.ground_stations.len();
        let mut q: usize = 0;
        while q < n
            invariant
                0 <= q <= n,
                n == self.ground_stations@.len(),
                forall|i: int|
                    0 <= i < q ==> #[trigger] self.ground_stations@[i]@.code != station_code,
            decreases n - q,
        {
            if self.ground_stations[q].code == station_code {
                proof {
                    lemma_find_station_at(self@.ground_stations, station_code, q as int);
                }
                return Some(self.ground_stations[q].duplicate());
            }
            q = q + 1;
        }
        proof {
            lemma_find_station_none(self@.ground_stations, station_code);
        }
        None
    }

    /// Copies and returns the header with the given revision.
    pub fn with_version(&self, version: Version) -> (r: Self)
        ensures
            r@ == (HeaderView { version: version, ..self@ }),
    {
        let mut s = self.duplicate();
        s.version = version;
        proof {
            assert(s@ =~~= (HeaderView { version: version, ..self@ }));
        }
        s
    }

    /// Copies and returns the header with the given operator name.
    pub fn with_run_by(&self, run_by: &[u8]) -> (r: Self)
        ensures
            r@ == (HeaderView { run_by: Some(run_by@), ..self@ }),
    {
        let mut s = self.duplicate();
        s.run_by = Some(vstd::slice::slice_to_vec(run_by));
        proof {
            assert(s@ =~~= (HeaderView { run_by: Some(run_by@), ..self@ }));
        }
        s
    }

    /// Copies and returns the header with the given receiver.
    pub fn with_receiver(&self, receiver: Receiver) -> (r: Self)
        ensures
            r@ == (HeaderView { receiver: Some(receiver@), ..self@ }),
    {
        let mut s = self.duplicate();
        s.receiver = Some(receiver);
        proof {
            assert(s@ =~~= (HeaderView { receiver: Some(receiver@), ..self@ }));
        }
        s
    }

    /// Adds one comment in place.
    pub fn push_comment(&mut self, comment: &[u8])
        ensures
            final(self)@ == (HeaderView {
                comments: old(self)@.comments.push(comment@),
                ..old(self)@
            }),
    {
        self.comments.push(vstd::slice::slice_to_vec(comment));
        proof {
            assert(self@.comments =~= old(self)@.comments.push(comment@));
            assert(self@ =~~= (HeaderView {
                comments: old(self)@.comments.push(comment@),
                ..old(self)@
            }));
        }
    }

    /// Copies and returns the header with one more comment.
    pub fn with_comment(&self, comment: &[u8]) -> (r: Self)
        ensures
            r@ == (HeaderView { comments: self@.comments.push(comment@), ..self@ }),
    {
        let mut s = self.duplicate();
        s.push_comment(comment);
        s
    }
}

fn opt_dup(o: &Option<Vec<u8>>) -> (r: Option<Vec<u8>>)
    ensures
        spec_opt_view(r) == spec_opt_view(*o),
{
    match o {
        Some(v) => Some(vstd::slice::slice_to_vec(v.as_slice())),
        None => None,
    }
}

proof fn lemma_find_station_at(sts: Seq<GroundStationView>, code: u16, q: int)
    requires
        0 <= q < sts.len(),
        sts[q].code == code,
        forall|i: int| 0 <= i < q ==> #[trigger] sts[i].code != code,
    ensures
        spec_find_station(sts, code) == Some(sts[q]),
    decreases q,
{
    if q == 0 {
    } else {
        let s1 = sts.subrange(1, sts.len() as int);
        assert forall|i: int| 0 <= i < q - 1 implies #[trigger] s1[i].code != code by {
            assert(s1[i] == sts[i + 1]);
        }
        lemma_find_station_at(s1, code, q - 1);
    }
}

proof fn lemma_find_station_none(sts: Seq<GroundStationView>, code: u16)
    requires
        forall|i: int| 0 <= i < sts.len() ==> #[trigger] sts[i].code != code,
    ensures
        spec_find_station(sts, code) is None,
    decreases sts.len(),
{
    if sts.len() > 0 {
        let s1 = sts.subrange(1, sts.len() as int);
        assert forall|i: int| 0 <= i < s1.len() implies #[trigger] s1[i].code != code by {
            assert(s1[i] == sts[i + 1]);
        }
        lemma_find_station_none(s1, code);
    }
}

/// One header step preserves well-formed DOMES numbers across the
/// roster: it keeps the roster or appends a parsed station.
proof fn lemma_step_stations_wf(h: HeaderView, line: Seq<u8>)
    requires
        forall|q: int|
            0 <= q < h.ground_stations.len() ==> (#[trigger] h.ground_stations[q]).domes.wf(),
    ensures
        spec_header_step(h, line) matches Ok(h2) ==> forall|q: int|
            0 <= q < h2.ground_stations.len() ==> (#[trigger] h2.ground_stations[q]).domes.wf(),
{
    if spec_header_step(h, line) is Ok {
        let h2 = spec_header_step(h, line)->Ok_0;
        let content = line.subrange(0, 60);
        crate::domes::lemma_spec_parse_domes_wf(
            spec_trim(spec_trim(content).subrange(40, 50)),
        );
        if h2.ground_stations != h.ground_stations {
            assert forall|q: int|
                0 <= q < h2.ground_stations.len() implies (
            #[trigger] h2.ground_stations[q]).domes.wf() by {
                if q < h.ground_stations.len() {
                } else {
                    assert(h2.ground_stations[q] == (spec_parse_station(
                        spec_trim(content),
                    )->Ok_0));
                }
            }
        }
    }
}

/// Every station of a parsed header carries a well-formed DOMES
/// number.
pub proof fn lemma_parsed_header_stations_wf(lines: Seq<Seq<u8>>, i: int, h: HeaderView)
    requires
        forall|q: int|
            0 <= q < h.ground_stations.len() ==> (#[trigger] h.ground_stations[q]).domes.wf(),
    ensures
        spec_parse_header_loop(lines, i, h) matches Ok((h2, n)) ==> forall|q: int|
            0 <= q < h2.ground_stations.len() ==> (#[trigger] h2.ground_stations[q]).domes.wf(),
    decreases lines.len() - i,
{
    if i < 0 || i >= lines.len() {
    } else if lines[i].len() < 60 {
        lemma_parsed_header_stations_wf(lines, i + 1, h);
    } else if spec_trim(lines[i].subrange(60, lines[i].len() as int))
        == spec_marker_end_of_header() {
    } else {
        match spec_header_step(h, lines[i]) {
            Err(_) => {},
            Ok(h2) => {
                lemma_step_stations_wf(h, lines[i]);
                lemma_parsed_header_stations_wf(lines, i + 1, h2);
            },
        }
    }
}


/// The shortened third part of a package revision: each dash-piece
/// kept whole when it spells `rc`, else clipped to its first byte,
/// for the first `i` pieces.
pub open spec fn spec_pkg_short(parts: Seq<Seq<u8>>, i: int) -> Seq<u8>
    decreases i,
{
    if i <= 0 {
        Seq::empty()
    } else {
        spec_pkg_short(parts, i - 1) + (if parts[i - 1] == seq![114u8, 99] {
            seq![114u8, 99]
        } else if parts[i - 1].len() > 0 {
            seq![parts[i - 1][0]]
        } else {
            Seq::empty()
        })
    }
}

/// A package revision shortened to fit a comment: its first two
/// dot-parts whole, the third clipped piece-wise, later parts
/// dropped.
pub open spec fn spec_fmt_pkg_version(s: Seq<u8>) -> Seq<u8> {
    let parts = crate::lines::spec_split(s, 46);
    if parts.len() == 1 {
        parts[0]
    } else if parts.len() == 2 {
        parts[0] + seq![46u8] + parts[1]
    } else {
        let inner = crate::lines::spec_split(parts[2], 45);
        parts[0] + seq![46u8] + parts[1] + seq![46u8] + spec_pkg_short(
            inner,
            inner.len() as int,
        )
    }
}

impl Header {
    /// Shortens a package revision string so a FILE MERGE comment
    /// stays within its columns.
    pub fn format_pkg_version(version: &[u8]) -> (r: Vec<u8>)
        ensures
            r@ == spec_fmt_pkg_version(version@),
    {
        let parts: Vec<Vec<u8>> = crate::lines::split_byte(version, 46);
        let mut out: Vec<u8> = vstd::slice::slice_to_vec(parts[0].as_slice());
        if parts.len() == 1 {
            return out;
        }
        out.push(46);
        let mut p = vstd::slice::slice_to_vec(parts[1].as_slice());
        out.append(&mut p);
        if parts.len() == 2 {
            return out;
        }
        out.push(46);
        let inner: Vec<Vec<u8>> = crate::lines::split_byte(parts[2].as_slice(), 45);
        let ghost innv = crate::lines::spec_split(parts@[2]@, 45);
        let ghost head = out@;
        let n: usize = inner.len();
        let mut q: usize = 0;
        while q < n
            invariant
                0 <= q <= n,
                n == inner@.len(),
                n == innv.len(),
                forall|i: int| 0 <= i < n ==> #[trigger] inner@[i]@ == innv[i],
                out@ =~= head + spec_pkg_short(innv, q as int),
            decreases n - q,
        {
            let piece: &[u8] = inner[q].as_slice();
            if piece.len() == 2 && piece[0] == 114 && piece[1] == 99 {
                proof {
                    assert(innv[q as int] =~= seq![114u8, 99]);
                }
                out.push(114);
                out.push(99);
            } else if piece.len() > 0 {
                proof {
                    if innv[q as int] == seq![114u8, 99] {
                        assert(piece@[0] == 114 && piece@[1] == 99);
                    }
                }
                out.push(piece[0]);
            } else {
                proof {
                    assert(innv[q as int] != seq![114u8, 99]);
                }
            }
            proof {
                assert(out@ =~= head + spec_pkg_short(innv, q + 1));
            }
            q = q + 1;
        }
        out
    }

    /// Builds the FILE MERGE comment body: the shortened package
    /// revision, the right-aligned merge tag, and the timestamp.
    #[verifier::rlimit(100)]
    #[verifier::spinoff_prover]
    pub fn merge_comment(pkg_version: &[u8], timestamp: &Epoch) -> (r: Vec<u8>)
        requires
            timestamp.valid(),
            spec_fmt_pkg_version(pkg_version@).len() <= 19,
        ensures
            r@ == spec_merge_comment(spec_fmt_pkg_version(pkg_version@), *timestamp),
    {
        let mut out: Vec<u8> = Vec::new();
        // "doris-rs v"
        out.push(100);
        out.push(111);
        out.push(114);
        out.push(105);
        out.push(115);
        out.push(45);
        out.push(114);
        out.push(115);
        out.push(32);
        out.push(118);
        let mut fv = Self::format_pkg_version(pkg_version);
        let fvlen: usize = fv.len();
        out.append(&mut fv);
        out.push(32);
        // the merge tag, right-aligned to the remaining width
        let mut tag: Vec<u8> = Vec::new();
        tag.push(70);
        tag.push(73);
        tag.push(76);
        tag.push(69);
        tag.push(32);
        tag.push(77);
        tag.push(69);
        tag.push(82);
        tag.push(71);
        tag.push(69);
        let mut p = crate::text::pad_left(tag, 19 - fvlen, 32);
        out.append(&mut p);
        // ten spaces, then the timestamp
        let ghost mid = out@;
        let mut q: usize = 0;
        while q < 10
            invariant
                0 <= q <= 10,
                out@ =~= mid + Seq::new(q as nat, |x: int| 32u8),
            decreases 10 - q,
        {
            out.push(32);
            q = q + 1;
        }
        let mut p = crate::text::fmt_u64(timestamp.year as u64);
        out.append(&mut p);
        let mut p = crate::text::pad_left(crate::text::fmt_u64(timestamp.month as u64), 2, 48);
        out.append(&mut p);
        let mut p = crate::text::pad_left(crate::text::fmt_u64(timestamp.day as u64), 2, 48);
        out.append(&mut p);
        out.push(32);
        let mut p = crate::text::pad_left(crate::text::fmt_u64(timestamp.hour as u64), 2, 48);
        out.append(&mut p);
        let mut p = crate::text::pad_left(crate::text::fmt_u64(timestamp.minute as u64), 2, 48);
        out.append(&mut p);
        let mut p = crate::text::pad_left(crate::text::fmt_u64(timestamp.second as u64), 2, 48);
        out.append(&mut p);
        out.push(32);
        let mut p = timestamp.time_scale.tag();
        out.append(&mut p);
        proof {
            assert(out@ =~= spec_merge_comment(spec_fmt_pkg_version(pkg_version@), *timestamp));
        }
        out
    }
}

/// The FILE MERGE comment text: the tool tag and shortened revision,
/// the right-aligned merge tag, and the timestamp with its scale.
pub open spec fn spec_merge_comment(fv: Seq<u8>, t: Epoch) -> Seq<u8> {
    seq![100u8, 111, 114, 105, 115, 45, 114, 115, 32, 118] + fv + seq![32u8]
        + crate::text::spec_pad_left(
        seq![70u8, 73, 76, 69, 32, 77, 69, 82, 71, 69],
        (19 - fv.len()) as nat,
        32,
    ) + Seq::new(10, |x: int| 32u8) + crate::text::spec_digits(t.year as nat)
        + crate::text::spec_pad_left(crate::text::spec_digits(t.month as nat), 2, 48)
        + crate::text::spec_pad_left(crate::text::spec_digits(t.day as nat), 2, 48) + seq![32u8]
        + crate::text::spec_pad_left(crate::text::spec_digits(t.hour as nat), 2, 48)
        + crate::text::spec_pad_left(crate::text::spec_digits(t.minute as nat), 2, 48)
        + crate::text::spec_pad_left(crate::text::spec_digits(t.second as nat), 2, 48)
        + seq![32u8] + crate::epoch::spec_timescale_tag(t.time_scale)
}

/// Header-epoch round-trip: formatting a valid time of observation
/// with a four-digit year at 100 ns resolution and parsing the field
/// back returns the same epoch.
#[verifier::rlimit(100)]
pub proof fn lemma_time_of_obs_round_trip(e: Epoch)
    requires
        e.valid(),
        e.year >= 100,
        e.nanos % 100 == 0,
    ensures
        spec_parse_time_of_obs(spec_timeobs_content(e)) == Ok::<Epoch, ParsingError>(e),
{
    crate::text::lemma_pow10_small();
    let f = spec_timeobs_content(e);
    let py = crate::text::spec_pad_left(crate::text::spec_digits(e.year as nat), 6, 32);
    let pmo = crate::text::spec_pad_left(crate::text::spec_digits(e.month as nat), 5, 32);
    let pd = crate::text::spec_pad_left(crate::text::spec_digits(e.day as nat), 5, 32);
    let ph = crate::text::spec_pad_left(crate::text::spec_digits(e.hour as nat), 5, 32);
    let pmi = crate::text::spec_pad_left(crate::text::spec_digits(e.minute as nat), 5, 32);
    let ps = crate::text::spec_pad_left(crate::text::spec_digits(e.second as nat), 4, 32);
    let pns = crate::text::spec_pad_left(crate::text::spec_digits((e.nanos / 100) as nat), 7, 48);
    let tag = if e.time_scale == TimeScale::TAI {
        seq![68u8, 79, 82]
    } else {
        crate::epoch::spec_timescale_tag(e.time_scale)
    };
    crate::text::lemma_spec_digits(e.year as nat);
    crate::text::lemma_spec_digits(e.month as nat);
    crate::text::lemma_spec_digits(e.day as nat);
    crate::text::lemma_spec_digits(e.hour as nat);
    crate::text::lemma_spec_digits(e.minute as nat);
    crate::text::lemma_spec_digits(e.second as nat);
    crate::text::lemma_spec_digits_len(e.year as nat, 4);
    crate::text::lemma_spec_digits_len(e.month as nat, 2);
    crate::text::lemma_spec_digits_len(e.day as nat, 2);
    crate::text::lemma_spec_digits_len(e.hour as nat, 2);
    crate::text::lemma_spec_digits_len(e.minute as nat, 2);
    crate::text::lemma_spec_digits_len(e.second as nat, 2);
    crate::text::lemma_zero_padded_value((e.nanos / 100) as nat, 7);
    crate::text::lemma_spec_digits_len((e.nanos / 100) as nat, 7);
    crate::epoch::lemma_timescale_tag_round_trip(e.time_scale);
    assert(py.len() == 6 && pmo.len() == 5 && pd.len() == 5 && ph.len() == 5 && pmi.len() == 5
        && ps.len() == 4 && pns.len() == 7);
    assert(f.len() == 47 + tag.len());
    // each trimmed column group is the bare digit rendering
    let dy = crate::text::spec_digits(e.year as nat);
    let dmo = crate::text::spec_digits(e.month as nat);
    let dd = crate::text::spec_digits(e.day as nat);
    let dh = crate::text::spec_digits(e.hour as nat);
    let dmi = crate::text::spec_digits(e.minute as nat);
    let ds = crate::text::spec_digits(e.second as nat);
    assert(f.subrange(2, 6) =~= py.subrange(2, 6));
    let sy = py.subrange(2, 6);
    assert(sy.subrange(4 - dy.len(), 4) =~= dy);
    assert(forall|i: int| 0 <= i < 4 - dy.len() ==> #[trigger] sy[i] == 32);
    lemma_trim_space_digits(sy, dy);
    assert(f.subrange(6, 12) =~= seq![32u8] + pmo);
    let smo = seq![32u8] + pmo;
    assert(smo.subrange(6 - dmo.len(), 6) =~= dmo);
    assert(forall|i: int| 0 <= i < 6 - dmo.len() ==> #[trigger] smo[i] == 32);
    lemma_trim_space_digits(smo, dmo);
    assert(f.subrange(12, 18) =~= seq![32u8] + pd);
    let sd = seq![32u8] + pd;
    assert(sd.subrange(6 - dd.len(), 6) =~= dd);
    assert(forall|i: int| 0 <= i < 6 - dd.len() ==> #[trigger] sd[i] == 32);
    lemma_trim_space_digits(sd, dd);
    assert(f.subrange(18, 24) =~= seq![32u8] + ph);
    let sh = seq![32u8] + ph;
    assert(sh.subrange(6 - dh.len(), 6) =~= dh);
    assert(forall|i: int| 0 <= i < 6 - dh.len() ==> #[trigger] sh[i] == 32);
    lemma_trim_space_digits(sh, dh);
    assert(f.subrange(24, 30) =~= seq![32u8] + pmi);
    let smi = seq![32u8] + pmi;
    assert(smi.subrange(6 - dmi.len(), 6) =~= dmi);
    assert(forall|i: int| 0 <= i < 6 - dmi.len() ==> #[trigger] smi[i] == 32);
    lemma_trim_space_digits(smi, dmi);
    assert(f.subrange(30, 35) =~= seq![32u8] + ps);
    let ss = seq![32u8] + ps;
    assert(ss.subrange(5 - ds.len(), 5) =~= ds);
    assert(forall|i: int| 0 <= i < 5 - ds.len() ==> #[trigger] ss[i] == 32);
    lemma_trim_space_digits(ss, ds);
    assert(f.subrange(36, 44) =~= pns + seq![32u8]);
    assert(crate::text::all_digits(pns) && pns.len() == 7);
    assert((pns + seq![32u8]).subrange(0, 7) =~= pns);
    lemma_trim_digits_space(pns + seq![32u8], pns);
    // the tag group: three pad spaces then the non-blank tag
    assert(f.subrange(44, f.len() as int) =~= seq![32u8, 32, 32] + tag);
    assert(tag.len() >= 2 && !crate::text::spec_is_ws(tag[0]) && !crate::text::spec_is_ws(
        tag[tag.len() - 1],
    )) by {
        if e.time_scale == TimeScale::TAI {
            assert(tag =~= seq![68u8, 79, 82]);
        }
    }
    crate::text::lemma_trim_char(seq![32u8, 32, 32] + tag, 3, 3 + tag.len() as int);
    assert((seq![32u8, 32, 32] + tag).subrange(3, 3 + tag.len() as int) =~= tag);
    // the digit fields parse back to the epoch's values
    lemma_bare_digits_value(e.year as nat);
    lemma_bare_digits_value(e.month as nat);
    lemma_bare_digits_value(e.day as nat);
    lemma_bare_digits_value(e.hour as nat);
    lemma_bare_digits_value(e.minute as nat);
    lemma_bare_digits_value(e.second as nat);
    assert(crate::text::uint_text_val(pns) * crate::text::pow10((9 - pns.len()) as nat)
        == e.nanos) by {
        assert(pns.len() == 7);
        assert(crate::text::pow10(2) == 100);
        assert((e.nanos / 100) * 100 == e.nanos as int) by {
            vstd::arithmetic::div_mod::lemma_fundamental_div_mod(e.nanos as int, 100);
        }
    }
    // the two-digit-year rule leaves a full year unchanged
    assert(e.year as int >= 100);
    assert(spec_parse_time_of_obs(f) == Ok::<Epoch, ParsingError>(e));
}

/// Trimming spaces followed by bare digits leaves the digits.
proof fn lemma_trim_space_digits(s: Seq<u8>, d: Seq<u8>)
    requires
        d.len() >= 1,
        crate::text::all_digits(d),
        d.len() <= s.len(),
        s.subrange(s.len() - d.len(), s.len() as int) == d,
        forall|i: int| 0 <= i < s.len() - d.len() ==> #[trigger] s[i] == 32,
    ensures
        crate::text::spec_trim(s) == d,
{
    assert forall|i: int|
        s.len() - d.len() <= i < s.len() implies !crate::text::spec_is_ws(#[trigger] s[i]) by {
        assert(s[i] == d[i - (s.len() - d.len())]);
        assert(crate::text::spec_is_digit(d[i - (s.len() - d.len())]));
    }
    crate::text::lemma_trim_char(s, s.len() - d.len(), s.len() as int);
}

/// Trimming a digit rendering followed by spaces leaves the digits.
proof fn lemma_trim_digits_space(s: Seq<u8>, d: Seq<u8>)
    requires
        d.len() >= 1,
        crate::text::all_digits(d),
        d.len() <= s.len(),
        s.subrange(0, d.len() as int) == d,
        forall|i: int| d.len() <= i < s.len() ==> #[trigger] s[i] == 32,
    ensures
        crate::text::spec_trim(s) == d,
{
    assert forall|i: int| 0 <= i < d.len() implies !crate::text::spec_is_ws(#[trigger] s[i]) by {
        assert(s[i] == d[i]);
        assert(crate::text::spec_is_digit(d[i]));
    }
    crate::text::lemma_trim_char(s, 0, d.len() as int);
}

/// Bare digit text is unsigned integer text with the digits' value.
proof fn lemma_bare_digits_value(v: nat)
    ensures
        crate::text::is_uint_text(crate::text::spec_digits(v)),
        crate::text::uint_text_val(crate::text::spec_digits(v)) == v,
{
    crate::text::lemma_spec_digits(v);
    let d = crate::text::spec_digits(v);
    assert(d[0] != 43);
}

} // verus!
