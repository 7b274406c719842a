//! The header markers: the right-anchored tags that name every
//! header line kind.

use vstd::prelude::*;

verus! {

/// Marker bytes: `END OF HEADER`.
pub open spec fn spec_marker_end_of_header() -> Seq<u8> {
    seq![69u8, 78, 68, 32, 79, 70, 32, 72, 69, 65, 68, 69, 82]
}

/// Marker bytes: `COMMENT`.
pub open spec fn spec_marker_comment() -> Seq<u8> {
    seq![67u8, 79, 77, 77, 69, 78, 84]
}

/// Marker bytes: `RINEX VERSION / TYPE`.
pub open spec fn spec_marker_version_type() -> Seq<u8> {
    seq![82u8, 73, 78, 69, 88, 32, 86, 69, 82, 83, 73, 79, 78, 32, 47, 32, 84, 89, 80, 69]
}

/// Marker bytes: `PGM / RUN BY / DATE`.
pub open spec fn spec_marker_pgm_run_by_date() -> Seq<u8> {
    seq![80u8, 71, 77, 32, 47, 32, 82, 85, 78, 32, 66, 89, 32, 47, 32, 68, 65, 84, 69]
}

/// Marker bytes: `SATELLITE NAME`.
pub open spec fn spec_marker_satellite_name() -> Seq<u8> {
    seq![83u8, 65, 84, 69, 76, 76, 73, 84, 69, 32, 78, 65, 77, 69]
}

/// Marker bytes: `OBSERVER / AGENCY`.
pub open spec fn spec_marker_observer_agency() -> Seq<u8> {
    seq![79u8, 66, 83, 69, 82, 86, 69, 82, 32, 47, 32, 65, 71, 69, 78, 67, 89]
}

/// Marker bytes: `REC # / TYPE / VERS`.
pub open spec fn spec_marker_rec_type_vers() -> Seq<u8> {
    seq![82u8, 69, 67, 32, 35, 32, 47, 32, 84, 89, 80, 69, 32, 47, 32, 86, 69, 82, 83]
}

/// Marker bytes: `SYS / SCALE FACTOR`.
pub open spec fn spec_marker_sys_scale_factor() -> Seq<u8> {
    seq![83u8, 89, 83, 32, 47, 32, 83, 67, 65, 76, 69, 32, 70, 65, 67, 84, 79, 82]
}

/// Marker bytes: `LICENSE OF USE`.
pub open spec fn spec_marker_license_of_use() -> Seq<u8> {
    seq![76u8, 73, 67, 69, 78, 83, 69, 32, 79, 70, 32, 85, 83, 69]
}

/// Marker bytes: `ANT # / TYPE`.
pub open spec fn spec_marker_ant_type() -> Seq<u8> {
    seq![65u8, 78, 84, 32, 35, 32, 47, 32, 84, 89, 80, 69]
}

/// Marker bytes: `# OF STATIONS`.
pub open spec fn spec_marker_nb_stations() -> Seq<u8> {
    seq![35u8, 32, 79, 70, 32, 83, 84, 65, 84, 73, 79, 78, 83]
}

/// Marker bytes: `TIME OF FIRST OBS`.
pub open spec fn spec_marker_time_of_first_obs() -> Seq<u8> {
    seq![84u8, 73, 77, 69, 32, 79, 70, 32, 70, 73, 82, 83, 84, 32, 79, 66, 83]
}

/// Marker bytes: `TIME OF LAST OBS`.
pub open spec fn spec_marker_time_of_last_obs() -> Seq<u8> {
    seq![84u8, 73, 77, 69, 32, 79, 70, 32, 76, 65, 83, 84, 32, 79, 66, 83]
}

/// Marker bytes: `SYS / # / OBS TYPES`.
pub open spec fn spec_marker_sys_obs_types() -> Seq<u8> {
    seq![83u8, 89, 83, 32, 47, 32, 35, 32, 47, 32, 79, 66, 83, 32, 84, 89, 80, 69, 83]
}

/// Marker bytes: `COSPAR NUMBER`.
pub open spec fn spec_marker_cospar_number() -> Seq<u8> {
    seq![67u8, 79, 83, 80, 65, 82, 32, 78, 85, 77, 66, 69, 82]
}

/// Marker bytes: `L2 / L1 DATE OFFSET`.
pub open spec fn spec_marker_l2_l1_date_offset() -> Seq<u8> {
    seq![76u8, 50, 32, 47, 32, 76, 49, 32, 68, 65, 84, 69, 32, 79, 70, 70, 83, 69, 84]
}

/// Marker bytes: `STATION REFERENCE`.
pub open spec fn spec_marker_station_reference() -> Seq<u8> {
    seq![83u8, 84, 65, 84, 73, 79, 78, 32, 82, 69, 70, 69, 82, 69, 78, 67, 69]
}

/// The marker bytes of `END OF HEADER`.
pub fn marker_end_of_header() -> (r: Vec<u8>)
    ensures
        r@ == spec_marker_end_of_header(),
{
    let mut m: Vec<u8> = Vec::new();
    m.push(69);
    m.push(78);
    m.push(68);
    m.push(32);
    m.push(79);
    m.push(70);
    m.push(32);
    m.push(72);
    m.push(69);
    m.push(65);
    m.push(68);
    m.push(69);
    m.push(82);
    proof {
        assert(m@ =~= spec_marker_end_of_header());
    }
    m
}

/// The marker bytes of `COMMENT`.
pub fn marker_comment() -> (r: Vec<u8>)
    ensures
        r@ == spec_marker_comment(),
{
    let mut m: Vec<u8> = Vec::new();
    m.push(67);
    m.push(79);
    m.push(77);
    m.push(77);
    m.push(69);
    m.push(78);
    m.push(84);
    proof {
        assert(m@ =~= spec_marker_comment());
    }
    m
}

/// The marker bytes of `RINEX VERSION / TYPE`.
pub fn marker_version_type() -> (r: Vec<u8>)
    ensures
        r@ == spec_marker_version_type(),
{
    let mut m: Vec<u8> = Vec::new();
    m.push(82);
    m.push(73);
    m.push(78);
    m.push(69);
    m.push(88);
    m.push(32);
    m.push(86);
    m.push(69);
    m.push(82);
    m.push(83);
    m.push(73);
    m.push(79);
    m.push(78);
    m.push(32);
    m.push(47);
    m.push(32);
    m.push(84);
    m.push(89);
    m.push(80);
    m.push(69);
    proof {
        assert(m@ =~= spec_marker_version_type());
    }
    m
}

/// The marker bytes of `PGM / RUN BY / DATE`.
pub fn marker_pgm_run_by_date() -> (r: Vec<u8>)
    ensures
        r@ == spec_marker_pgm_run_by_date(),
{
    let mut m: Vec<u8> = Vec::new();
    m.push(80);
    m.push(71);
    m.push(77);
    m.push(32);
    m.push(47);
    m.push(32);
    m.push(82);
    m.push(85);
    m.push(78);
    m.push(32);
    m.push(66);
    m.push(89);
    m.push(32);
    m.push(47);
    m.push(32);
    m.push(68);
    m.push(65);
    m.push(84);
    m.push(69);
    proof {
        assert(m@ =~= spec_marker_pgm_run_by_date());
    }
    m
}

/// The marker bytes of `SATELLITE NAME`.
pub fn marker_satellite_name() -> (r: Vec<u8>)
    ensures
        r@ == spec_marker_satellite_name(),
{
    let mut m: Vec<u8> = Vec::new();
    m.push(83);
    m.push(65);
    m.push(84);
    m.push(69);
    m.push(76);
    m.push(76);
    m.push(73);
    m.push(84);
    m.push(69);
    m.push(32);
    m.push(78);
    m.push(65);
    m.push(77);
    m.push(69);
    proof {
        assert(m@ =~= spec_marker_satellite_name());
    }
    m
}

/// The marker bytes of `OBSERVER / AGENCY`.
pub fn marker_observer_agency() -> (r: Vec<u8>)
    ensures
        r@ == spec_marker_observer_agency(),
{
    let mut m: Vec<u8> = Vec::new();
    m.push(79);
    m.push(66);
    m.push(83);
    m.push(69);
    m.push(82);
    m.push(86);
    m.push(69);
    m.push(82);
    m.push(32);
    m.push(47);
    m.push(32);
    m.push(65);
    m.push(71);
    m.push(69);
    m.push(78);
    m.push(67);
    m.push(89);
    proof {
        assert(m@ =~= spec_marker_observer_agency());
    }
    m
}

/// The marker bytes of `REC # / TYPE / VERS`.
pub fn marker_rec_type_vers() -> (r: Vec<u8>)
    ensures
        r@ == spec_marker_rec_type_vers(),
{
    let mut m: Vec<u8> = Vec::new();
    m.push(82);
    m.push(69);
    m.push(67);
    m.push(32);
    m.push(35);
    m.push(32);
    m.push(47);
    m.push(32);
    m.push(84);
    m.push(89);
    m.push(80);
    m.push(69);
    m.push(32);
    m.push(47);
    m.push(32);
    m.push(86);
    m.push(69);
    m.push(82);
    m.push(83);
    proof {
        assert(m@ =~= spec_marker_rec_type_vers());
    }
    m
}

/// The marker bytes of `SYS / SCALE FACTOR`.
pub fn marker_sys_scale_factor() -> (r: Vec<u8>)
    ensures
        r@ == spec_marker_sys_scale_factor(),
{
    let mut m: Vec<u8> = Vec::new();
    m.push(83);
    m.push(89);
    m.push(83);
    m.push(32);
    m.push(47);
    m.push(32);
    m.push(83);
    m.push(67);
    m.push(65);
    m.push(76);
    m.push(69);
    m.push(32);
    m.push(70);
    m.push(65);
    m.push(67);
    m.push(84);
    m.push(79);
    m.push(82);
    proof {
        assert(m@ =~= spec_marker_sys_scale_factor());
    }
    m
}

/// The marker bytes of `LICENSE OF USE`.
pub fn marker_license_of_use() -> (r: Vec<u8>)
    ensures
        r@ == spec_marker_license_of_use(),
{
    let mut m: Vec<u8> = Vec::new();
    m.push(76);
    m.push(73);
    m.push(67);
    m.push(69);
    m.push(78);
    m.push(83);
    m.push(69);
    m.push(32);
    m.push(79);
    m.push(70);
    m.push(32);
    m.push(85);
    m.push(83);
    m.push(69);
    proof {
        assert(m@ =~= spec_marker_license_of_use());
    }
    m
}

/// The marker bytes of `ANT # / TYPE`.
pub fn marker_ant_type() -> (r: Vec<u8>)
    ensures
        r@ == spec_marker_ant_type(),
{
    let mut m: Vec<u8> = Vec::new();
    m.push(65);
    m.push(78);
    m.push(84);
    m.push(32);
    m.push(35);
    m.push(32);
    m.push(47);
    m.push(32);
    m.push(84);
    m.push(89);
    m.push(80);
    m.push(69);
    proof {
        assert(m@ =~= spec_marker_ant_type());
    }
    m
}

/// The marker bytes of `# OF STATIONS`.
pub fn marker_nb_stations() -> (r: Vec<u8>)
    ensures
        r@ == spec_marker_nb_stations(),
{
    let mut m: Vec<u8> = Vec::new();
    m.push(35);
    m.push(32);
    m.push(79);
    m.push(70);
    m.push(32);
    m.push(83);
    m.push(84);
    m.push(65);
    m.push(84);
    m.push(73);
    m.push(79);
    m.push(78);
    m.push(83);
    proof {
        assert(m@ =~= spec_marker_nb_stations());
    }
    m
}

/// The marker bytes of `TIME OF FIRST OBS`.
pub fn marker_time_of_first_obs() -> (r: Vec<u8>)
    ensures
        r@ == spec_marker_time_of_first_obs(),
{
    let mut m: Vec<u8> = Vec::new();
    m.push(84);
    m.push(73);
    m.push(77);
    m.push(69);
    m.push(32);
    m.push(79);
    m.push(70);
    m.push(32);
    m.push(70);
    m.push(73);
    m.push(82);
    m.push(83);
    m.push(84);
    m.push(32);
    m.push(79);
    m.push(66);
    m.push(83);
    proof {
        assert(m@ =~= spec_marker_time_of_first_obs());
    }
    m
}

/// The marker bytes of `TIME OF LAST OBS`.
pub fn marker_time_of_last_obs() -> (r: Vec<u8>)
    ensures
        r@ == spec_marker_time_of_last_obs(),
{
    let mut m: Vec<u8> = Vec::new();
    m.push(84);
    m.push(73);
    m.push(77);
    m.push(69);
    m.push(32);
    m.push(79);
    m.push(70);
    m.push(32);
    m.push(76);
    m.push(65);
    m.push(83);
    m.push(84);
    m.push(32);
    m.push(79);
    m.push(66);
    m.push(83);
    proof {
        assert(m@ =~= spec_marker_time_of_last_obs());
    }
    m
}

/// The marker bytes of `SYS / # / OBS TYPES`.
pub fn marker_sys_obs_types() -> (r: Vec<u8>)
    ensures
        r@ == spec_marker_sys_obs_types(),
{
    let mut m: Vec<u8> = Vec::new();
    m.push(83);
    m.push(89);
    m.push(83);
    m.push(32);
    m.push(47);
    m.push(32);
    m.push(35);
    m.push(32);
    m.push(47);
    m.push(32);
    m.push(79);
    m.push(66);
    m.push(83);
    m.push(32);
    m.push(84);
    m.push(89);
    m.push(80);
    m.push(69);
    m.push(83);
    proof {
        assert(m@ =~= spec_marker_sys_obs_types());
    }
    m
}

/// The marker bytes of `COSPAR NUMBER`.
pub fn marker_cospar_number() -> (r: Vec<u8>)
    ensures
        r@ == spec_marker_cospar_number(),
{
    let mut m: Vec<u8> = Vec::new();
    m.push(67);
    m.push(79);
    m.push(83);
    m.push(80);
    m.push(65);
    m.push(82);
    m.push(32);
    m.push(78);
    m.push(85);
    m.push(77);
    m.push(66);
    m.push(69);
    m.push(82);
    proof {
        assert(m@ =~= spec_marker_cospar_number());
    }
    m
}

/// The marker bytes of `L2 / L1 DATE OFFSET`.
pub fn marker_l2_l1_date_offset() -> (r: Vec<u8>)
    ensures
        r@ == spec_marker_l2_l1_date_offset(),
{
    let mut m: Vec<u8> = Vec::new();
    m.push(76);
    m.push(50);
    m.push(32);
    m.push(47);
    m.push(32);
    m.push(76);
    m.push(49);
    m.push(32);
    m.push(68);
    m.push(65);
    m.push(84);
    m.push(69);
    m.push(32);
    m.push(79);
    m.push(70);
    m.push(70);
    m.push(83);
    m.push(69);
    m.push(84);
    proof {
        assert(m@ =~= spec_marker_l2_l1_date_offset());
    }
    m
}

/// The marker bytes of `STATION REFERENCE`.
pub fn marker_station_reference() -> (r: Vec<u8>)
    ensures
        r@ == spec_marker_station_reference(),
{
    let mut m: Vec<u8> = Vec::new();
    m.push(83);
    m.push(84);
    m.push(65);
    m.push(84);
    m.push(73);
    m.push(79);
    m.push(78);
    m.push(32);
    m.push(82);
    m.push(69);
    m.push(70);
    m.push(69);
    m.push(82);
    m.push(69);
    m.push(78);
    m.push(67);
    m.push(69);
    proof {
        assert(m@ =~= spec_marker_station_reference());
    }
    m
}

} // verus!
