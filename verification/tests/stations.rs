use doris_rs::domes::{DOMES, DOMESTrackingPoint};
use doris_rs::matcher::Matcher;
use doris_rs::station::GroundStation;

#[test]
fn default_station() {
    let _ = GroundStation::default();
}

#[test]
fn station_parsing() {
    for (desc, expected) in [
        (
            &b"D01  OWFC OWENGA                        50253S002  3   0"[..],
            GroundStation {
                label: b"OWFC".to_vec(),
                site: b"OWENGA".to_vec(),
                domes: DOMES {
                    area: 502,
                    site: 53,
                    sequential: 2,
                    point: DOMESTrackingPoint::Instrument,
                },
                beacon_revision: 3,
                k_frequency_shift: 0,
                code: 1,
            },
        ),
        (
            &b"D17  GRFB GREENBELT                     40451S178  3   0"[..],
            GroundStation {
                label: b"GRFB".to_vec(),
                site: b"GREENBELT".to_vec(),
                domes: DOMES {
                    area: 404,
                    site: 51,
                    sequential: 178,
                    point: DOMESTrackingPoint::Instrument,
                },
                beacon_revision: 3,
                k_frequency_shift: 0,
                code: 17,
            },
        ),
        (
            &b"D12  GR4B GRASSE                        10002S019  3 -15"[..],
            GroundStation {
                label: b"GR4B".to_vec(),
                site: b"GRASSE".to_vec(),
                domes: DOMES {
                    area: 100,
                    site: 2,
                    sequential: 19,
                    point: DOMESTrackingPoint::Instrument,
                },
                beacon_revision: 3,
                k_frequency_shift: -15,
                code: 12,
            },
        ),
    ] {
        let station = GroundStation::parse(desc).unwrap();
        assert_eq!(station, expected, "station parsing error");

        let formatted = station.format();
        assert_eq!(formatted, desc.to_vec(), "station reciprocal error");
    }
}

#[test]
fn station_rejects_short_lines() {
    assert!(GroundStation::parse(b"D01  OWFC OWENGA").is_err());
}

#[test]
fn station_matchers() {
    let st = GroundStation::default()
        .with_domes(DOMES {
            area: 100,
            site: 3,
            sequential: 5,
            point: DOMESTrackingPoint::Instrument,
        })
        .with_site_name(b"TOULOUSE")
        .with_site_label(b"TLSB")
        .with_unique_id(13)
        .with_frequency_shift(0)
        .with_beacon_revision(3);

    assert!(st.matches(&Matcher::ID(13)));
    assert!(st.matches(&Matcher::Site(b"TOULOUSE")));
    assert!(st.matches(&Matcher::Label(b"TLSB")));
    assert!(st.matches(&Matcher::DOMES(DOMES {
        area: 100,
        site: 3,
        sequential: 5,
        point: DOMESTrackingPoint::Instrument,
    })));
    assert!(!st.matches(&Matcher::ID(14)));
    assert!(!st.matches(&Matcher::Site(b"toulouse")));
}
