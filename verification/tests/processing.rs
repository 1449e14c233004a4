use rinex::constellation::Constellation;
use rinex::epoch::Duration;
use rinex::epoch::Epoch;
use rinex::processing::masking::MaskFilter;
use rinex::processing::masking::MaskOperand;
use rinex::processing::resampling::DecimationFilter;
use rinex::processing::resampling::ResamplingFilter;
use rinex::processing::resampling::ResamplingOps;
use rinex::processing::token::DomesTrackingPoint;
use rinex::processing::token::MaskToken;
use rinex::processing::token::DOMES;
use rinex::processing::Error;
use rinex::processing::Filter;

fn operand_cases() -> [(&'static str, MaskOperand, MaskOperand); 6] {
    [
        ("=", MaskOperand::Equals, MaskOperand::NotEquals),
        ("!=", MaskOperand::NotEquals, MaskOperand::Equals),
        ("<", MaskOperand::LowerThan, MaskOperand::GreaterEquals),
        ("<=", MaskOperand::LowerEquals, MaskOperand::GreaterThan),
        (">", MaskOperand::GreaterThan, MaskOperand::LowerEquals),
        (">=", MaskOperand::GreaterEquals, MaskOperand::LowerThan),
    ]
}

#[test]
fn processing_operand_parsing() {
    for (desc, operand, not) in operand_cases() {
        let op = MaskOperand::from_str(desc).unwrap();
        assert_eq!(op, operand, "failed to parse \"{}\" operand", desc);
        assert_eq!(!op, not);
        assert_eq!(desc, operand.to_string(), "operand::to_string reciprocal");
    }
}

#[test]
fn masking_operand_parsing() {
    for (desc, operand, not) in operand_cases() {
        let op = MaskOperand::from_str(desc).unwrap();
        assert_eq!(op, operand, "failed to parse \"{}\" operand", desc);
        assert_eq!(!op, not);
        assert_eq!(desc, operand.to_string(), "operand::to_string reciprocal");
    }
}

fn dt_cases() -> Vec<(&'static str, MaskFilter)> {
    vec![
        (
            "dt=1 hour",
            MaskFilter {
                operand: MaskOperand::Equals,
                token: MaskToken::Duration(Duration::from_seconds(3600)),
            },
        ),
        (
            "dt=30 s",
            MaskFilter {
                operand: MaskOperand::Equals,
                token: MaskToken::Duration(Duration::from_seconds(30)),
            },
        ),
        (
            "dt>30 s",
            MaskFilter {
                operand: MaskOperand::GreaterThan,
                token: MaskToken::Duration(Duration::from_seconds(30)),
            },
        ),
        (
            "dt<1 min",
            MaskFilter {
                operand: MaskOperand::LowerThan,
                token: MaskToken::Duration(Duration::from_seconds(60)),
            },
        ),
        (
            "dt<=1 min",
            MaskFilter {
                operand: MaskOperand::LowerEquals,
                token: MaskToken::Duration(Duration::from_seconds(60)),
            },
        ),
    ]
}

#[test]
fn processing_dt_mask_parsing() {
    for (desc, mask) in dt_cases() {
        let parsed = MaskFilter::from_str(desc).unwrap();
        assert_eq!(parsed, mask, "failed to parse \"{}\"", desc);
    }
}

#[test]
fn masking_dt_mask_parsing() {
    for (desc, mask) in dt_cases() {
        let parsed = MaskFilter::from_str(desc).unwrap();
        assert_eq!(parsed, mask, "failed to parse \"{}\"", desc);
    }
}

fn epoch_cases() -> Vec<(&'static str, MaskFilter)> {
    vec![
        (
            "t=2020-01-01T00:00:00 UTC",
            MaskFilter {
                operand: MaskOperand::Equals,
                token: MaskToken::Epoch(Epoch::from_str("2020-01-01T00:00:00 UTC").unwrap()),
            },
        ),
        (
            "t<JD 2452312.500372511 TAI",
            MaskFilter {
                operand: MaskOperand::LowerThan,
                token: MaskToken::Epoch(Epoch::from_str("JD 2452312.500372511 TAI").unwrap()),
            },
        ),
        (
            "t>2030-01-01T01:01:01 GPST",
            MaskFilter {
                operand: MaskOperand::GreaterThan,
                token: MaskToken::Epoch(Epoch::from_str("2030-01-01T01:01:01 GPST").unwrap()),
            },
        ),
    ]
}

#[test]
fn processing_epoch_mask_parsing() {
    for (desc, mask) in epoch_cases() {
        let parsed = MaskFilter::from_str(desc).unwrap();
        assert_eq!(parsed, mask, "failed to parse \"{}\"", desc);
    }
}

#[test]
fn masking_epoch_mask_parsing() {
    for (desc, mask) in epoch_cases() {
        let parsed = MaskFilter::from_str(desc).unwrap();
        assert_eq!(parsed, mask, "failed to parse \"{}\"", desc);
    }
}

#[test]
fn processing_elevation_mask_parsing() {
    for (desc, mask) in [(
        "e> 30",
        MaskFilter { operand: MaskOperand::GreaterThan, token: MaskToken::Elevation(30_000) },
    )] {
        let parsed = MaskFilter::from_str(desc).unwrap();
        assert_eq!(parsed, mask, "failed to parse \"{}\"", desc);
    }
}

#[test]
fn masking_elevation_mask_parsing() {
    for (desc, mask) in [(
        "e> 30",
        MaskFilter { operand: MaskOperand::GreaterThan, token: MaskToken::Elevation(30_000) },
    )] {
        let parsed = MaskFilter::from_str(desc).unwrap();
        assert_eq!(parsed, mask, "failed to parse \"{}\"", desc);
    }
}

#[test]
fn processing_azimuth_mask_parsing() {
    for (desc, mask) in [(
        "az< 10",
        MaskFilter { operand: MaskOperand::LowerThan, token: MaskToken::Azimuth(10_000) },
    )] {
        let parsed = MaskFilter::from_str(desc).unwrap();
        assert_eq!(parsed, mask, "failed to parse \"{}\"", desc);
    }
}

#[test]
fn masking_azimuth_mask_parsing() {
    for (desc, mask) in [(
        "az< 10",
        MaskFilter { operand: MaskOperand::LowerThan, token: MaskToken::Azimuth(10_000) },
    )] {
        let parsed = MaskFilter::from_str(desc).unwrap();
        assert_eq!(parsed, mask, "failed to parse \"{}\"", desc);
    }
}

#[test]
fn processing_observable_mask_parsing() {
    for (desc, mask) in [(
        "o=L1,L2",
        MaskFilter {
            operand: MaskOperand::Equals,
            token: MaskToken::Observables(vec!["L1".to_string(), "L2".to_string()]),
        },
    )] {
        let parsed = MaskFilter::from_str(desc).unwrap();
        assert_eq!(parsed, mask, "failed to parse \"{}\"", desc);
    }
}

#[test]
fn masking_observable_mask_parsing() {
    for (desc, mask) in [(
        "o=L1,L2",
        MaskFilter {
            operand: MaskOperand::Equals,
            token: MaskToken::Observables(vec!["L1".to_string(), "L2".to_string()]),
        },
    )] {
        let parsed = MaskFilter::from_str(desc).unwrap();
        assert_eq!(parsed, mask, "failed to parse \"{}\"", desc);
    }
}

#[test]
fn station_mask_parsing() {
    for (desc, mask) in [(
        "sta=ESBCDNK",
        MaskFilter {
            operand: MaskOperand::Equals,
            token: MaskToken::Stations(vec!["ESBCDNK".to_string()]),
        },
    )] {
        let parsed = MaskFilter::from_str(desc).unwrap();
        assert_eq!(parsed, mask, "failed to parse \"{}\"", desc);
    }
}

#[test]
fn domes_mask_parsing() {
    for (desc, mask) in [(
        "dom=10002M006",
        MaskFilter {
            operand: MaskOperand::Equals,
            token: MaskToken::DOMES(vec![DOMES {
                area: 100,
                site: 2,
                sequential: 6,
                point: DomesTrackingPoint::Monument,
            }]),
        },
    )] {
        let parsed = MaskFilter::from_str(desc).unwrap();
        assert_eq!(parsed, mask, "failed to parse \"{}\"", desc);
    }
}

#[test]
fn decimation_simple_parsing() {
    for (desc, expected) in [
        ("d:3", DecimationFilter::ByRatio(3)),
        ("d:10", DecimationFilter::ByRatio(10)),
        ("d:30", DecimationFilter::ByRatio(30)),
        ("d:50", DecimationFilter::ByRatio(50)),
    ] {
        let decim = Filter::from_str(desc);
        assert!(decim.is_ok(), "failed to parse decim filter \"{}\"", desc);
        let decim = decim.unwrap();
        assert_eq!(
            decim,
            Filter::Resampling(ResamplingFilter {
                mask: None,
                ops: ResamplingOps::Decimation(expected),
            })
        );
    }
}

#[test]
fn decimation_complex_parsing() {
    for (desc, mask, expected) in [
        (
            "d:sta=ESBCDNK*3",
            MaskFilter {
                operand: MaskOperand::Equals,
                token: MaskToken::Stations(vec!["ESBCDNK".to_string()]),
            },
            DecimationFilter::ByRatio(3),
        ),
        (
            "d:t>2020-01-01T00:00:00 GPST*5",
            MaskFilter {
                operand: MaskOperand::GreaterThan,
                token: MaskToken::Epoch(Epoch::from_str("2020-01-01T00:00:00 GPST").unwrap()),
            },
            DecimationFilter::ByRatio(5),
        ),
    ] {
        let decim = Filter::from_str(desc);
        assert!(
            decim.is_ok(),
            "failed to parse decim filter \"{}\": {:?}",
            desc,
            decim.err().unwrap()
        );
        let decim = decim.unwrap();
        assert_eq!(
            decim,
            Filter::Resampling(ResamplingFilter {
                mask: Some(mask),
                ops: ResamplingOps::Decimation(expected),
            })
        );
    }
}

#[test]
fn operand_negation_is_logical_and_text_reads_back() {
    for op in [
        MaskOperand::Equals,
        MaskOperand::NotEquals,
        MaskOperand::GreaterThan,
        MaskOperand::GreaterEquals,
        MaskOperand::LowerThan,
        MaskOperand::LowerEquals,
    ] {
        assert_eq!(!!op, op);
        assert_ne!(!op, op);
        assert_eq!(MaskOperand::from_str(&op.to_string()), Ok(op));
        assert_eq!(op.to_string().len(), op.formatted_len());
        for (a, b) in [(1i128, 2i128), (2, 2), (3, 2)] {
            assert_eq!((!op).test(a, b), !op.test(a, b));
        }
    }
    assert_eq!(MaskOperand::from_str("<="), Ok(MaskOperand::LowerEquals));
    assert_eq!(!MaskOperand::GreaterThan, MaskOperand::LowerEquals);
    assert_eq!(MaskOperand::LowerEquals.to_string(), "<=");
}

#[test]
fn mask_descriptions_that_are_refused() {
    assert_eq!(MaskOperand::from_str("~"), Err(Error::InvalidOperand));
    assert_eq!(MaskFilter::from_str("x=1").err(), Some(Error::InvalidMask));
    assert_eq!(MaskFilter::from_str("sta=Z\u{fc}rich").err(), Some(Error::InvalidMask));
    assert_eq!(MaskFilter::from_str("t 2020").err(), Some(Error::InvalidOperand));
    assert_eq!(MaskFilter::from_str("t=yesterday").err(), Some(Error::InvalidEpoch));
    assert_eq!(MaskFilter::from_str("dt=soon").err(), Some(Error::InvalidDuration));
    assert_eq!(MaskFilter::from_str("e>91").err(), Some(Error::InvalidElevation));
    assert_eq!(MaskFilter::from_str("e>-1").err(), Some(Error::InvalidElevation));
    assert_eq!(MaskFilter::from_str("az<360.001").err(), Some(Error::InvalidAzimuth));
    assert_eq!(MaskFilter::from_str("c=nothing").err(), Some(Error::InvalidConstellation));
    assert_eq!(MaskFilter::from_str("dom=123").err(), Some(Error::InvalidDOMES));
    assert_eq!(MaskFilter::from_str("f=high").err(), Some(Error::InvalidFrequency));
    assert_eq!(Filter::from_str("d:often").err(), Some(Error::InvalidDecimationRatio));
    assert_eq!(MaskToken::parse_stations("Z\u{fc}rich".as_bytes()).err(), Some(Error::InvalidToken));
}

#[test]
fn mask_tokens_keep_what_they_can_read() {
    assert_eq!(
        MaskFilter::from_str("c=GPS, nothing ,GAL").unwrap().token,
        MaskToken::Constellations(vec![Constellation::GPS, Constellation::Galileo])
    );
    assert_eq!(
        MaskFilter::from_str("f=1575.42, x, 1227.6").unwrap().token,
        MaskToken::Frequencies(vec![1_575_420, 1_227_600])
    );
    assert_eq!(MaskFilter::from_str("e=90").unwrap().token, MaskToken::Elevation(90_000));
    assert_eq!(MaskFilter::from_str("az=360").unwrap().token, MaskToken::Azimuth(360_000));
    assert_eq!(
        MaskFilter::from_str("sta= a , b").unwrap().token,
        MaskToken::Stations(vec!["a".to_string(), "b".to_string()])
    );
    assert_eq!(
        MaskFilter::from_str("dom=10002M006,40405S031").unwrap().token,
        MaskToken::DOMES(vec![
            DOMES { area: 100, site: 2, sequential: 6, point: DomesTrackingPoint::Monument },
            DOMES { area: 404, site: 5, sequential: 31, point: DomesTrackingPoint::Instrument },
        ])
    );
    assert_eq!(DecimationFilter::default(), DecimationFilter::ByRatio(0));
}

#[test]
fn site_numbers_are_read_field_by_field() {
    let site = |area, site, point, sequential| Some(DOMES { area, site, point, sequential });
    assert_eq!(DOMES::from_bytes(b"10002M006"), site(100, 2, DomesTrackingPoint::Monument, 6));
    assert_eq!(DOMES::from_bytes(b"40405S031"), site(404, 5, DomesTrackingPoint::Instrument, 31));
    assert_eq!(DOMES::from_bytes(b"+1+2M+03"), None);
    assert_eq!(DOMES::from_bytes(b"+12+3M+45"), site(12, 3, DomesTrackingPoint::Monument, 45));
    assert_eq!(DOMES::from_bytes(b"00000S000"), site(0, 0, DomesTrackingPoint::Instrument, 0));
    assert_eq!(DOMES::from_bytes(b"99999M999"), site(999, 99, DomesTrackingPoint::Monument, 999));
    for text in [
        &b"10002X006"[..],
        b"10002m006",
        b"1000 M006",
        b"-1002M006",
        b"10002M00",
        b"10002M0066",
        b"1 002M006",
        b"10002M 06",
        b"10002M+ 6",
        b"",
        b"10002M\xc3\xa96",
    ] {
        assert_eq!(DOMES::from_bytes(text), None);
    }
}
