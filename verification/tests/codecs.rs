use doris_rs::domes::{DOMES, DOMESTrackingPoint};
use doris_rs::errors::ParsingError;
use doris_rs::frequency::Frequency;
use doris_rs::numeric::Decimal;
use doris_rs::observable::Observable;
use doris_rs::snr::SNR;
use doris_rs::version::Version;

#[test]
fn frequency_parsing() {
    for (value, expected) in [(b"1", Frequency::DORIS1), (b"2", Frequency::DORIS2)] {
        let freq = Frequency::parse(value).unwrap();
        assert_eq!(freq, expected, "wrong value for {:?}", value);
    }
}

#[test]
fn frequency_rejects_unknown_code() {
    assert_eq!(Frequency::parse(b"3"), Err(ParsingError::Frequency));
    assert_eq!(Frequency::parse(b""), Err(ParsingError::Frequency));
}

#[test]
fn snr_parsing() {
    for (value, expected) in [(b"0", SNR::DbHz0), (b"8", SNR::DbHz48_53), (b"9", SNR::DbHz54)] {
        let parsed = SNR::parse(value).unwrap();
        assert_eq!(parsed, expected);
        assert_eq!(parsed.code(), value[0]);
    }

    assert!(SNR::DbHz0.bad());
    assert!(SNR::DbHz12.weak());
    assert!(SNR::DbHz30_35.strong());
    assert!(SNR::DbHz54.excellent());
}

#[test]
fn snr_digit_round_trip() {
    for d in b'0'..=b'9' {
        let parsed = SNR::parse(&[d]).unwrap();
        assert_eq!(parsed.code(), d);
    }
}

#[test]
fn snr_synonyms_and_errors() {
    assert_eq!(SNR::parse(b"bad"), Ok(SNR::DbHz18_23));
    assert_eq!(SNR::parse(b"weak"), Ok(SNR::DbHz24_29));
    assert_eq!(SNR::parse(b"strong"), Ok(SNR::DbHz30_35));
    assert_eq!(SNR::parse(b"excellent"), Ok(SNR::DbHz48_53));
    assert_eq!(SNR::parse(b"poor"), Err(ParsingError::SNR));
}

#[test]
fn snr_quantizer() {
    // measured dB-Hz ratios fall into their buckets
    assert_eq!(SNR::quantize(Decimal::new(0, 0)), SNR::DbHz12);
    assert_eq!(SNR::quantize(Decimal::new(119, -1)), SNR::DbHz12);
    assert_eq!(SNR::quantize(Decimal::new(170, -1)), SNR::DbHz12_17);
    assert_eq!(SNR::quantize(Decimal::new(300, -1)), SNR::DbHz30_35);
    assert_eq!(SNR::quantize(Decimal::new(541, -1)), SNR::DbHz54);
}

#[test]
fn test_default_observable() {
    let default = Observable::default();

    assert_eq!(default, Observable::PseudoRange(Frequency::DORIS1));

    let formatted = default.format_verbose();
    let parsed = Observable::parse(&formatted).unwrap();

    assert_eq!(parsed, default);
}

#[test]
fn observable_parsing() {
    for (observable, expected, formatted) in [
        (
            &b"L1"[..],
            Observable::UnambiguousPhaseRange(Frequency::DORIS1),
            &b"L1"[..],
        ),
        (
            &b"L2"[..],
            Observable::UnambiguousPhaseRange(Frequency::DORIS2),
            &b"L2"[..],
        ),
        (&b"C1"[..], Observable::PseudoRange(Frequency::DORIS1), &b"C1"[..]),
        (&b"C2"[..], Observable::PseudoRange(Frequency::DORIS2), &b"C2"[..]),
        (&b"W1"[..], Observable::Power(Frequency::DORIS1), &b"W1"[..]),
        (&b"W2"[..], Observable::Power(Frequency::DORIS2), &b"W2"[..]),
        (&b"T"[..], Observable::Temperature, &b"Temperature"[..]),
        (&b"P"[..], Observable::Pressure, &b"Pressure"[..]),
        (&b"H"[..], Observable::HumidityRate, &b"Moisture rate"[..]),
    ] {
        let parsed = Observable::parse(observable).unwrap();
        assert_eq!(parsed, expected);
        assert_eq!(parsed.format_verbose(), formatted.to_vec());
    }

    let l1 = Observable::UnambiguousPhaseRange(Frequency::DORIS1);
    let l2 = Observable::UnambiguousPhaseRange(Frequency::DORIS2);
    let c1 = Observable::PseudoRange(Frequency::DORIS1);
    let c2 = Observable::PseudoRange(Frequency::DORIS2);

    assert!(l1.same_physics(&l1));
    assert!(l1.same_physics(&l2));

    assert!(c1.same_physics(&c1));
    assert!(c1.same_physics(&c2));

    assert!(!l1.same_physics(&c1));
    assert!(!l1.same_physics(&c2));
}

#[test]
fn observable_code_round_trip() {
    for code in [
        &b"L1"[..],
        &b"L2"[..],
        &b"C1"[..],
        &b"C2"[..],
        &b"W1"[..],
        &b"W2"[..],
        &b"T"[..],
        &b"P"[..],
        &b"H"[..],
        &b"F"[..],
    ] {
        let parsed = Observable::parse(code).unwrap();
        let reparsed = Observable::parse(&parsed.format_code()).unwrap();
        assert_eq!(parsed, reparsed);
        assert_eq!(parsed.format_code(), code.to_vec());
    }
}

#[test]
fn observable_errors_mirror_the_bad_field() {
    assert_eq!(Observable::parse(b"L3"), Err(ParsingError::Frequency));
    assert_eq!(Observable::parse(b"X1"), Err(ParsingError::Observable));
    assert_eq!(Observable::parse(b""), Err(ParsingError::Observable));
}

#[test]
fn domes_round_trip() {
    let d = DOMES::parse(b"40451S178").unwrap();
    assert_eq!(d.area, 404);
    assert_eq!(d.site, 51);
    assert_eq!(d.sequential, 178);
    assert_eq!(d.point, DOMESTrackingPoint::Instrument);
    assert_eq!(d.format(), b"40451S178".to_vec());

    assert_eq!(DOMES::parse(b"4045S1178"), Err(ParsingError::DOMES));
    assert_eq!(DOMES::parse(b"40451X178"), Err(ParsingError::DOMES));
    assert_eq!(DOMES::parse(b"40451S17"), Err(ParsingError::DOMES));
}

#[test]
fn version_parsing() {
    let v = Version::parse(b"3.00").unwrap();
    assert_eq!(v, Version { major: 3, minor: 0 });
    assert_eq!(Version::parse(b"300"), Err(ParsingError::Version));
}

#[test]
fn decimal_cells_are_exact() {
    let d = Decimal::parse(b"-4.326631626").unwrap();
    assert_eq!(d, Decimal::new(-4326631626, -9));

    let e = Decimal::parse(b"169.370E-11").unwrap();
    assert_eq!(e, Decimal::new(169370, -14));

    assert_eq!(Decimal::parse(b""), None);
    assert_eq!(Decimal::parse(b"abc"), None);

    // difference of a value with itself is zero (residual identity)
    let z = d.sub(d);
    assert_eq!(z.mantissa, 0);
}

#[test]
fn decimal_fixed_point_formatting() {
    let d = Decimal::parse(b"1003.702").unwrap();
    assert_eq!(d.fmt_fixed(3, 14), b"      1003.702".to_vec());

    let n = Decimal::parse(b"-128.150").unwrap();
    assert_eq!(n.fmt_fixed(3, 14), b"      -128.150".to_vec());
}
