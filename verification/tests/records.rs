use doris_rs::doris::DORIS;
use doris_rs::errors::Error;
use doris_rs::frequency::Frequency;
use doris_rs::matcher::Matcher;
use doris_rs::numeric::Decimal;
use doris_rs::observable::Observable;
use doris_rs::production::ProductionAttributes;
use doris_rs::snr::SNR;

fn padded(content: &[u8], marker: &[u8]) -> Vec<u8> {
    let mut line = content.to_vec();
    while line.len() < 60 {
        line.push(b' ');
    }
    line.extend_from_slice(marker);
    line
}

fn mini_file() -> Vec<u8> {
    let mut out: Vec<u8> = Vec::new();
    for line in [
        padded(
            b"     3.00           O                   D",
            b"RINEX VERSION / TYPE",
        ),
        padded(b"CRYOSAT-2", b"SATELLITE NAME"),
        padded(b"D          2 L1 L2", b"SYS / # / OBS TYPES"),
        padded(
            b"D01  OWFC OWENGA                        50253S002  3   0",
            b"STATION REFERENCE",
        ),
        padded(b"", b"END OF HEADER"),
    ] {
        out.extend_from_slice(&line);
        out.push(b'\n');
    }
    out.extend_from_slice(
        b"> 2018 06 13 00 00 33.179947800  0  1   -4.326631626 0\n",
    );
    out.extend_from_slice(b"D01   -677713.6687    -133531.158\n");
    out.extend_from_slice(
        b"> 2018 06 13 00 00 36.179947800  0  1   -4.326631626 0\n",
    );
    out.extend_from_slice(b"D01   -596018.152     -133520.000\n");
    out.extend_from_slice(
        b"> 2018 06 13 00 00 39.179947800  0  1   -4.326631711 0\n",
    );
    out.extend_from_slice(b"D01   -500000.100     -133510.000\n");
    out
}

#[test]
fn mini_file_parses() {
    let doris = DORIS::parse(&mini_file()).unwrap();

    assert_eq!(doris.header.version.major, 3);
    assert_eq!(doris.header.satellite, b"CRYOSAT-2".to_vec());
    assert_eq!(doris.header.observables.len(), 2);
    assert_eq!(doris.header.observables_count, 2);
    assert_eq!(doris.header.ground_stations.len(), 1);

    let st = doris.ground_station(Matcher::Site(b"OWENGA")).unwrap();
    assert_eq!(st.code, 1);
    assert_eq!(st.label, b"OWFC".to_vec());

    assert_eq!(doris.record.measurements.len(), 3);
    let (key, meas) = &doris.record.measurements[0];
    assert_eq!(key.epoch.year, 2018);
    assert_eq!(key.epoch.nanos, 179947800);

    let clock = meas.satellite_clock_offset.unwrap();
    assert!(!clock.extrapolated);
    assert_eq!(clock.offset.femtoseconds, -4_326_631_626i128 * 1_000_000);

    let l1 = Observable::UnambiguousPhaseRange(Frequency::DORIS1);
    let l2 = Observable::UnambiguousPhaseRange(Frequency::DORIS2);
    let mut found_l1 = false;
    let mut found_l2 = false;
    for (okey, obs) in meas.observations.iter() {
        if okey.observable == l1 {
            assert_eq!(obs.value, Decimal::new(-677713668, -3));
            assert_eq!(obs.snr, Some(SNR::DbHz42_47));
            found_l1 = true;
        }
        if okey.observable == l2 {
            assert_eq!(obs.value, Decimal::new(-133531158, -3));
            assert_eq!(obs.snr, None);
            found_l2 = true;
        }
    }
    assert!(found_l1 && found_l2);
}

#[test]
fn record_keys_are_chronological() {
    let doris = DORIS::parse(&mini_file()).unwrap();
    let epochs = doris.record.epochs_iter();
    assert_eq!(epochs.len(), 3);
    for w in 1..epochs.len() {
        assert!(epochs[w - 1].0.second < epochs[w].0.second);
    }
}

#[test]
fn format_and_reparse_keeps_measurements() {
    let doris = DORIS::parse(&mini_file()).unwrap();
    let formatted = doris.format();
    let reparsed = DORIS::parse(&formatted).unwrap();

    assert_eq!(reparsed.header.satellite, doris.header.satellite);
    assert_eq!(reparsed.record.measurements.len(), doris.record.measurements.len());
    for w in 0..doris.record.measurements.len() {
        let (k1, m1) = &doris.record.measurements[w];
        let (k2, m2) = &reparsed.record.measurements[w];
        assert_eq!(k1, k2);
        assert_eq!(m1.satellite_clock_offset, m2.satellite_clock_offset);
        assert_eq!(m1.observations.len(), m2.observations.len());
        for (okey, obs) in m1.observations.iter() {
            let mut matched = false;
            for (okey2, obs2) in m2.observations.iter() {
                if okey2 == okey {
                    assert_eq!(obs2.value, obs.value);
                    matched = true;
                }
            }
            assert!(matched);
        }
    }
}

#[test]
fn clock_offset_sits_in_its_columns() {
    let doris = DORIS::parse(&mini_file()).unwrap();
    let formatted = doris.format();
    let text = String::from_utf8(formatted).unwrap();
    let line = text.lines().find(|l| l.starts_with('>')).unwrap();
    // right-aligned in the fourteen columns the parser reads back
    assert_eq!(&line[38..52], "  -4.326631626");
    assert_eq!(&line[52..], " 0");
}

#[test]
fn sampling_queries() {
    let doris = DORIS::parse(&mini_file()).unwrap();
    let hist = doris.sampling_histogram();
    assert_eq!(hist.len(), 1);
    assert_eq!(hist[0].0.femtoseconds, 3_000_000_000i128 * 1_000_000);
    assert_eq!(hist[0].1, 2);

    let dominant = doris.dominant_sampling_period().unwrap();
    assert_eq!(dominant.femtoseconds, 3_000_000_000i128 * 1_000_000);

    let clocks = doris.satellite_clock_offset_iter();
    assert_eq!(clocks.len(), 3);
    assert_eq!(clocks[0].1.offset.femtoseconds, -4_326_631_626i128 * 1_000_000);
}

#[test]
fn dominant_period_is_least_span() {
    // two gaps of 3 s, one of 6 s: the least span wins
    let mut doris = DORIS::parse(&mini_file()).unwrap();
    let mut extra = doris.record.measurements[2].clone();
    extra.0.epoch.second += 6;
    doris.record.measurements.push(extra);
    let hist = doris.sampling_histogram();
    assert_eq!(hist.len(), 2);
    let dominant = doris.dominant_sampling_period().unwrap();
    assert_eq!(dominant.femtoseconds, 3_000_000_000i128 * 1_000_000);
}

#[test]
fn substract_identity() {
    // differencing a file against itself leaves only zero residuals
    let doris = DORIS::parse(&mini_file()).unwrap();
    let residual = doris.substract(&doris).unwrap();
    assert_eq!(residual.record.measurements.len(), 3);
    for (_k, m) in residual.record.measurements.iter() {
        assert!(m.observations.len() > 0);
        for (_okey, obs) in m.observations.iter() {
            assert_eq!(obs.value.mantissa, 0);
        }
    }
}

#[test]
fn substract_needs_two_epochs() {
    let mut small = DORIS::parse(&mini_file()).unwrap();
    small.record.measurements.truncate(1);
    let err = small.substract(&small).unwrap_err();
    assert_eq!(err, Error::UndeterminedSamplingRate);
}

#[test]
fn is_merged_looks_for_the_tag() {
    let mut doris = DORIS::parse(&mini_file()).unwrap();
    assert!(!doris.is_merged());
    doris.header.push_comment(b"FILE MERGE");
    assert!(doris.is_merged());
}

#[test]
fn test_prod_attributes() {
    for (filename, sat_name, year, doy, gzip_compressed) in [
        (&b"cs2rx18164"[..], &b"CS2RX"[..], 2018u32, 164u32, false),
        (&b"cs2rx18164.gz"[..], &b"CS2RX"[..], 2018, 164, true),
    ] {
        let prod = ProductionAttributes::parse(filename).unwrap();

        assert_eq!(prod.satellite, sat_name.to_vec());
        assert_eq!(prod.year, year);
        assert_eq!(prod.doy, doy);
        assert_eq!(prod.gzip_compressed, gzip_compressed);
    }
}

#[test]
fn standard_filename_from_attributes() {
    let mut doris = DORIS::parse(&mini_file()).unwrap();
    doris.production = Some(ProductionAttributes::parse(b"cs2rx18164.gz").unwrap());
    assert_eq!(doris.standard_filename(), b"CS2RX18164.gz".to_vec());

    // without attributes the name is derived from the header
    doris.production = None;
    doris.header.time_of_first_observation = Some(
        doris_rs::epoch::Epoch::from_gregorian(
            2018,
            6,
            13,
            0,
            0,
            28,
            0,
            doris_rs::epoch::TimeScale::TAI,
        )
        .unwrap(),
    );
    assert_eq!(doris.standard_filename(), b"CRYOS18164".to_vec());
}

#[test]
fn production_rejects_nonstandard_names() {
    assert!(ProductionAttributes::parse(b"whatever.txt").is_err());
}
