use doris_rs::cospar::COSPAR;
use doris_rs::epoch::{Epoch, TimeScale};
use doris_rs::frequency::Frequency;
use doris_rs::header::Header;
use doris_rs::lines::{fmt_comment, fmt_doris, split_lines};
use doris_rs::observable::Observable;
use doris_rs::receiver::Receiver;
use doris_rs::station::GroundStation;
use doris_rs::version::Version;

#[test]
fn receiver_parsing() {
    let content = &b"2090088             LEICA GR50          4.51                "[..];
    let rcvr = Receiver::parse(content).unwrap();

    assert_eq!(rcvr.model, b"LEICA GR50".to_vec());
    assert_eq!(rcvr.serial_number, b"2090088".to_vec());
    assert_eq!(rcvr.firmware, b"4.51".to_vec());
}

#[test]
fn fmt_comments_singleline() {
    for desc in [
        &b"test"[..],
        &b"just a basic comment"[..],
        &b"just another lengthy comment blahblabblah"[..],
    ] {
        let comment = String::from_utf8(fmt_comment(desc)).unwrap();
        assert!(
            comment.len() >= 60,
            "comments should be at least 60 byte long"
        );

        assert_eq!(
            comment.find("COMMENT"),
            Some(60),
            "comment marker should located @ 60"
        );
    }
}

#[test]
fn fmt_wrapped_comments() {
    for desc in [&b"just trying to form a very lengthy comment that will overflow since it does not fit in a single line"[..],
        &b"just trying to form a very very lengthy comment that will overflow since it does fit on three very meaningful lines. Imazdmazdpoakzdpoakzpdokpokddddddddddddddddddaaaaaaaaaaaaaaaaaaaaaaa"[..]] {
        let nb_lines = (desc.len() + 59) / 60;
        let comments = String::from_utf8(fmt_comment(desc)).unwrap();
        assert_eq!(comments.lines().count(), nb_lines);
        for line in comments.lines() {
            assert!(line.len() >= 60, "comment line should be at least 60 byte long");
            assert_eq!(line.find("COMMENT"), Some(60), "comment marker should located @ 60");
        }
    }
}

#[test]
fn fmt_observables_v3() {
    for (desc, expected) in [
        (
            &b"R    9 C1C L1C S1C C2C C2P L2C L2P S2C S2P"[..],
            &b"R    9 C1C L1C S1C C2C C2P L2C L2P S2C S2P                  SYS / # / OBS TYPES"[..],
        ),
        (
            &b"G   18 C1C L1C S1C C2P C2W C2S C2L C2X L2P L2W L2S L2L L2X         S2P S2W S2S S2L S2X"[..],
            &b"G   18 C1C L1C S1C C2P C2W C2S C2L C2X L2P L2W L2S L2L L2X  SYS / # / OBS TYPES\n       S2P S2W S2S S2L S2X                                  SYS / # / OBS TYPES"[..],
        ),
    ] {
        assert_eq!(fmt_doris(desc, b"SYS / # / OBS TYPES"), expected.to_vec());
    }
}

#[test]
fn header_format_parse_round_trip() {
    let header = Header::default()
        .with_version(Version { major: 3, minor: 0 })
        .with_run_by(b"CNES");
    let mut header = header;
    header.satellite = b"CRYOSAT-2".to_vec();
    header.program = Some(b"Expert".to_vec());
    header.date = Some(b"20180614 090016 UTC".to_vec());
    header.observer = Some(b"SPA_BN1_4.7P1".to_vec());
    header.agency = Some(b"CNES".to_vec());
    header.cospar = Some(COSPAR::parse(b"2010-013A").unwrap());
    header.observables = vec![
        Observable::UnambiguousPhaseRange(Frequency::DORIS1),
        Observable::UnambiguousPhaseRange(Frequency::DORIS2),
        Observable::Pressure,
    ];
    header.observables_count = 3;
    header.ground_stations = vec![
        GroundStation::parse(b"D01  OWFC OWENGA                        50253S002  3   0")
            .unwrap(),
        GroundStation::parse(b"D17  GRFB GREENBELT                     40451S178  3   0")
            .unwrap(),
    ];
    header.time_of_first_observation = Some(
        Epoch::from_gregorian(2018, 6, 13, 0, 0, 28, 0, TimeScale::TAI).unwrap(),
    );

    let formatted = header.format();
    let lines = split_lines(&formatted);
    let (parsed, _next) = Header::parse(&lines, 0).unwrap();

    assert_eq!(parsed.version, header.version);
    assert_eq!(parsed.satellite, header.satellite);
    assert_eq!(parsed.program, header.program);
    assert_eq!(parsed.run_by, header.run_by);
    assert_eq!(parsed.date, header.date);
    assert_eq!(parsed.observer, header.observer);
    assert_eq!(parsed.agency, header.agency);
    assert_eq!(parsed.cospar, header.cospar);
    assert_eq!(parsed.observables, header.observables);
    assert_eq!(parsed.observables_count, header.observables_count);
    assert_eq!(parsed.ground_stations, header.ground_stations);
    assert_eq!(
        parsed.time_of_first_observation,
        header.time_of_first_observation
    );
}

#[test]
fn observable_schema_wraps_every_five() {
    let mut header = Header::default();
    header.version = Version { major: 3, minor: 0 };
    header.satellite = b"CRYOSAT-2".to_vec();
    header.observables = vec![
        Observable::UnambiguousPhaseRange(Frequency::DORIS1),
        Observable::UnambiguousPhaseRange(Frequency::DORIS2),
        Observable::PseudoRange(Frequency::DORIS1),
        Observable::PseudoRange(Frequency::DORIS2),
        Observable::Power(Frequency::DORIS1),
        Observable::Power(Frequency::DORIS2),
        Observable::Temperature,
        Observable::Pressure,
        Observable::HumidityRate,
        Observable::FrequencyRatio,
    ];
    header.observables_count = 10;

    let formatted = header.format();
    let text = String::from_utf8(formatted.clone()).unwrap();
    let schema: Vec<&str> = text
        .lines()
        .filter(|l| l.len() >= 60 && l[60..].trim() == "SYS / # / OBS TYPES")
        .collect();
    assert_eq!(schema.len(), 2);
    assert_eq!(schema[0][..60].trim_end(), "D         10 L1 L2 C1 C2 W1");
    assert!(schema[1].starts_with("      "));
    assert_eq!(schema[1][..60].trim_end(), "       W2 T P H F");

    let lines = split_lines(&formatted);
    let (parsed, _next) = Header::parse(&lines, 0).unwrap();
    assert_eq!(parsed.observables, header.observables);
    assert_eq!(parsed.observables_count, 10);
}

#[test]
fn header_rejects_non_doris_files() {
    let mut line = Vec::new();
    line.extend_from_slice(b"     3.00           N                   D");
    while line.len() < 60 {
        line.push(b' ');
    }
    line.extend_from_slice(b"RINEX VERSION / TYPE");
    let lines = vec![line];
    match Header::parse(&lines, 0) {
        Err(e) => assert_eq!(e, doris_rs::errors::ParsingError::InvalidDoris),
        Ok(_) => panic!("a non-observation file type must be rejected"),
    }
}

#[test]
fn header_checks_declared_observable_count() {
    fn padded(content: &[u8], marker: &[u8]) -> Vec<u8> {
        let mut line = content.to_vec();
        while line.len() < 60 {
            line.push(b' ');
        }
        line.extend_from_slice(marker);
        line
    }
    // the declared count disagrees with the parsed schema
    let lines = vec![
        padded(b"D          3 L1 L2", b"SYS / # / OBS TYPES"),
        padded(b"", b"END OF HEADER"),
    ];
    match Header::parse(&lines, 0) {
        Err(e) => assert_eq!(e, doris_rs::errors::ParsingError::Observable),
        Ok(_) => panic!("a mismatching observable count must be rejected"),
    }
    // a matching count closes the header
    let lines = vec![
        padded(b"D          2 L1 L2", b"SYS / # / OBS TYPES"),
        padded(b"", b"END OF HEADER"),
    ];
    let (parsed, _next) = Header::parse(&lines, 0).unwrap();
    assert_eq!(parsed.observables_count, 2);
    assert_eq!(parsed.observables.len(), 2);
}

#[test]
fn pkg_version_shortening() {
    assert_eq!(Header::format_pkg_version(b"1.2.3"), b"1.2.3".to_vec());
    assert_eq!(Header::format_pkg_version(b"1.2.3-rc4"), b"1.2.3r".to_vec());
    assert_eq!(Header::format_pkg_version(b"1.2.3-rc"), b"1.2.3rc".to_vec());
    assert_eq!(Header::format_pkg_version(b"0.17"), b"0.17".to_vec());
}

#[test]
fn merge_comment_layout() {
    let e = Epoch::from_gregorian(2018, 6, 14, 9, 0, 16, 0, TimeScale::UTC).unwrap();
    let c = String::from_utf8(Header::merge_comment(b"1.2.3", &e)).unwrap();
    assert!(c.starts_with("doris-rs v1.2.3"));
    assert!(c.contains("FILE MERGE"));
    assert!(c.contains("20180614 090016 UTC"));
}
