use doris_rs::epoch::{parse_in_timescale, Epoch, TimeScale};
use doris_rs::errors::ParsingError;
use doris_rs::header::Header;

#[test]
fn epoch_parsing() {
    for (epoch, expected) in [
        (
            &b"2018 06 13 00 00 33.179947800"[..],
            Epoch::from_gregorian(2018, 6, 13, 0, 0, 33, 179947800, TimeScale::TAI).unwrap(),
        ),
        (
            &b"2018 06 13 00 05 13.179947800"[..],
            Epoch::from_gregorian(2018, 6, 13, 0, 5, 13, 179947800, TimeScale::TAI).unwrap(),
        ),
    ] {
        let parsed = parse_in_timescale(epoch, TimeScale::TAI).unwrap();
        assert_eq!(parsed, expected);
    }
}

#[test]
fn epoch_rejects_short_content() {
    assert_eq!(
        parse_in_timescale(b"2018 06 13 00 00", TimeScale::TAI),
        Err(ParsingError::EpochFormat)
    );
    assert_eq!(
        parse_in_timescale(b"-2000 01 01 00 00 00", TimeScale::TAI),
        Err(ParsingError::EpochFormat)
    );
    assert_eq!(
        parse_in_timescale(b"2018 13 01 00 00 00", TimeScale::TAI),
        Err(ParsingError::EpochFormat)
    );
}

#[test]
fn epoch_two_digit_years() {
    // two-digit years follow the rollover convention
    let e = parse_in_timescale(b"95 01 01 00 00 00", TimeScale::TAI).unwrap();
    assert_eq!(e.year, 1995);
    let e = parse_in_timescale(b"79 01 01 00 00 00", TimeScale::TAI).unwrap();
    assert_eq!(e.year, 1979);
    let e = parse_in_timescale(b"18 01 01 00 00 00", TimeScale::TAI).unwrap();
    assert_eq!(e.year, 2018);
}

#[test]
fn epoch_compact_round_trip() {
    // an epoch survives the compact form at 100 ns resolution
    let e = Epoch::from_gregorian(2018, 6, 13, 0, 0, 33, 179947800, TimeScale::TAI).unwrap();
    let formatted = e.format_epoch();
    assert_eq!(formatted, b"2018 06 13 00 00 33.1799478".to_vec());
    let parsed = parse_in_timescale(&formatted, TimeScale::TAI).unwrap();
    assert_eq!(parsed, e);
}

#[test]
fn parse_time_of_obs() {
    let content = &b"  2021    12    21     0     0    0.0000000     GPS"[..];
    let parsed = Header::parse_time_of_obs(content).unwrap();
    assert_eq!(
        parsed,
        Epoch::from_gregorian(2021, 12, 21, 0, 0, 0, 0, TimeScale::GPST).unwrap()
    );

    let content = &b"  1995    01    01    00    00   00.000000             "[..];
    let parsed = Header::parse_time_of_obs(content).unwrap();
    assert_eq!(
        parsed,
        Epoch::from_gregorian(1995, 1, 1, 0, 0, 0, 0, TimeScale::TAI).unwrap()
    );
}

#[test]
fn epoch_differences_count_nanoseconds() {
    let a = Epoch::from_gregorian(2018, 6, 13, 0, 0, 33, 0, TimeScale::TAI).unwrap();
    let b = Epoch::from_gregorian(2018, 6, 13, 0, 0, 36, 0, TimeScale::TAI).unwrap();
    let d = b.diff(&a);
    assert_eq!(d.femtoseconds, 3_000_000_000 * 1_000_000);

    // across a day boundary
    let c = Epoch::from_gregorian(2018, 6, 14, 0, 0, 33, 0, TimeScale::TAI).unwrap();
    let d = c.diff(&a);
    assert_eq!(d.femtoseconds, 86_400_000_000_000i128 * 1_000_000);
}
