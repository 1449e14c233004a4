use rinex::constellation::Constellation;
use rinex::constellation::GnssError;
use rinex::constellation::SV;
use rinex::epoch::Duration;
use rinex::epoch::Epoch;
use rinex::epoch::EpochParsingError;
use rinex::epoch::Gregorian;
use rinex::epoch::TimeScale;
use rinex::header::Header;
use rinex::header::HeaderFields;
use rinex::header::Version;
use rinex::observable::Observable;
use rinex::observable::ObservableError;
use rinex::observation::formatting::fmt_epoch_v2;
use rinex::observation::formatting::fmt_epoch_v3;
use rinex::observation::parsing::parse_head;
use rinex::observation::parsing::parse_slot;
use rinex::observation::record::fmt_epoch;
use rinex::observation::record::is_new_epoch;
use rinex::observation::record::parse_epoch;
use rinex::observation::record::Error;
use rinex::observation::record::ObservationKey;
use rinex::observation::record::Observations;
use rinex::observation::record::RecordEntry;
use rinex::observation::record::RecordKey;
use rinex::observation::EpochFlag;
use rinex::observation::LliFlags;
use rinex::observation::ObservationData;
use rinex::observation::SNR;

fn observable(code: &str) -> Observable {
    Observable::from_str(code).unwrap()
}

fn sv(text: &str) -> SV {
    SV::from_str(text).unwrap()
}

fn header(major: u8, constellation: Constellation, tables: &[(Constellation, &[&str])]) -> Header {
    let mut fields = HeaderFields::default();
    for (c, codes) in tables {
        for code in codes.iter() {
            fields.push_code(*c, observable(code));
        }
    }
    Header::default()
        .with_version(Version { major, minor: 0 })
        .with_constellation(constellation)
        .with_observation_fields(fields)
}

fn data(value: i64, lli: Option<u8>, snr: Option<SNR>) -> ObservationData {
    ObservationData::new(value, lli.map(|b| LliFlags::from_bits(b).unwrap()), snr)
}

fn rtrim_lines(text: &str) -> String {
    text.lines().map(|l| l.trim_end()).collect::<Vec<_>>().join("\n").trim_end().to_string()
}

#[test]
fn v2_single_vehicle_epoch_end_to_end() {
    let h = header(2, Constellation::GPS, &[(Constellation::GPS, &["C1", "L1"])]);
    let block = " 21 12 21  0  0  0.0000000  0  1G07\n  25091572.300   131857102.1336";
    let (key, entry) = parse_epoch(&h, block, TimeScale::GPST).unwrap();
    assert_eq!(key.epoch, Epoch::from_str("2021-12-21T00:00:00 GPST").unwrap());
    assert_eq!(key.flag, EpochFlag::Okay);
    assert_eq!(entry.clock_offset, None);
    assert_eq!(entry.observations.len(), 2);
    assert_eq!(entry.observations.vehicles(), vec![sv("G07")]);
    let c1 = ObservationKey::new(sv("G07"), observable("C1"));
    let l1 = ObservationKey::new(sv("G07"), observable("L1"));
    assert_eq!(entry.observations.get(&c1), Some(data(25_091_572_300, None, None)));
    assert_eq!(entry.observations.get(&l1), Some(data(131_857_102_133, Some(6), None)));
    assert_eq!(entry.observations.get(&l1).unwrap().value as f64 / 1000.0, 131857102.133);
    assert_eq!(fmt_epoch(&h, &key, &entry).unwrap(), block);
}

#[test]
fn v3_block_is_written_back_as_it_was_read() {
    let h = header(
        3,
        Constellation::Mixed,
        &[(Constellation::GPS, &["C1C", "L1C", "S1C"]), (Constellation::Glonass, &["C1C", "L1C"])],
    );
    let block = "> 2022 01 09 00 00  0.0000000  0  3\n\
G01  22345079.240   117424213.48008        48.850  \n\
G03  25106377.9801                         43.000 7\n\
R01  20207718.320   108021892.15008";
    let (key, entry) = parse_epoch(&h, block, TimeScale::GPST).unwrap();
    assert_eq!(key.flag, EpochFlag::Okay);
    assert_eq!(entry.observations.vehicles(), vec![sv("G01"), sv("G03"), sv("R01")]);
    assert_eq!(entry.observations.len(), 7);
    assert_eq!(
        entry.observations.get(&ObservationKey::new(sv("G03"), observable("C1C"))),
        Some(data(25_106_377_980, Some(1), None))
    );
    assert_eq!(
        entry.observations.get(&ObservationKey::new(sv("G03"), observable("S1C"))),
        Some(data(43_000, None, Some(SNR::DbHz42_47)))
    );
    assert_eq!(
        entry.observations.get(&ObservationKey::new(sv("R01"), observable("L1C"))),
        Some(data(108_021_892_150, Some(0), Some(SNR::DbHz48_53)))
    );
    assert_eq!(fmt_epoch_v3(&h, &key, &entry).unwrap(), block);
    assert_eq!(fmt_epoch(&h, &key, &entry).unwrap(), block);
}

#[test]
fn v3_clock_offset_is_read_and_written() {
    let h = header(3, Constellation::GPS, &[(Constellation::GPS, &["C1C"])]);
    let block = "> 2022 01 09 00 00 30.0000000  0  1      -0.1235\nG01  22345079.240";
    let (key, entry) = parse_epoch(&h, block, TimeScale::GPST).unwrap();
    assert_eq!(entry.clock_offset, Some(-123_500_000_000));
    assert_eq!(fmt_epoch(&h, &key, &entry).unwrap(), block);
    let fine = "> 2022 01 09 00 00 30.0000000  0  1 0.000123456789\nG01  22345079.240";
    let (key, entry) = parse_epoch(&h, fine, TimeScale::GPST).unwrap();
    assert_eq!(entry.clock_offset, Some(123_456_789));
    assert_eq!(
        fmt_epoch(&h, &key, &entry).unwrap(),
        "> 2022 01 09 00 00 30.0000000  0  1       0.0001\nG01  22345079.240"
    );
    let odd = "> 2022 01 09 00 00 30.0000000  0  1   soon\nG01  22345079.240";
    assert_eq!(parse_epoch(&h, odd, TimeScale::GPST).unwrap().1.clock_offset, None);
}

#[test]
fn v2_block_with_two_lines_of_vehicles_is_written_back_as_it_was_read() {
    let h = header(
        2,
        Constellation::Mixed,
        &[
            (Constellation::GPS, &["C1", "L1", "L2", "P2", "S1", "S2"]),
            (Constellation::Glonass, &["C1"]),
        ],
    );
    let mut block = String::from(
        " 21 12 21  0 47 30.0000000  0 13G01G08G10G16G21G23G32R04R05R06R12R20 0.000000125\n",
    );
    block.push_str("                                R21\n");
    for i in 0..7 {
        block.push_str(&format!(
            "  2499348{}.334   131341646.26201                                        33.000  \n",
            i
        ));
        block.push_str("        43.000 8\n");
    }
    for i in 0..6 {
        block.push_str(&format!("  2330958{}.108  \n", i));
    }
    let block = block.trim_end().to_string();
    let (key, entry) = parse_epoch(&h, &block, TimeScale::GPST).unwrap();
    assert_eq!(key.epoch, Epoch::from_str("2021-12-21T00:47:30 GPST").unwrap());
    assert_eq!(entry.clock_offset, Some(125_000));
    assert_eq!(entry.observations.vehicles().len(), 13);
    assert_eq!(entry.observations.len(), 7 * 4 + 6);
    assert_eq!(
        entry.observations.get(&ObservationKey::new(sv("G32"), observable("S2"))),
        Some(data(43_000, None, Some(SNR::DbHz48_53)))
    );
    assert_eq!(
        entry.observations.get(&ObservationKey::new(sv("R21"), observable("C1"))),
        Some(data(23_309_585_108, None, None))
    );
    assert_eq!(fmt_epoch_v2(&h, &key, &entry).unwrap(), block);
    assert_eq!(fmt_epoch(&h, &key, &entry).unwrap(), block);
}

#[test]
fn blocks_of_the_field_are_written_back_up_to_blanks_at_line_ends() {
    let h = header(
        3,
        Constellation::Mixed,
        &[
            (
                Constellation::GPS,
                &[
                    "C1C", "L1C", "S1C", "C2S", "L2S", "S2S", "C2W", "L2W", "S2W", "C5Q", "L5Q",
                    "S5Q",
                ],
            ),
            (
                Constellation::Glonass,
                &[
                    "C1C", "L1C", "S1C", "C2S", "L2S", "S2S", "C2W", "L2W", "S2W", "C5Q", "L5Q",
                    "S5Q",
                ],
            ),
        ],
    );
    let block = "> 2022 01 09 00 00  0.0000000  0  2
G01  22345079.240   117424213.48008        48.850    22345080.640    91499404.57507        46.950    22345080.580    91499412.56807        44.500    22345078.900    87686944.70808        49.550
R01  20207718.320   108021892.15508        49.200    20207720.980    84017055.40007        43.700    20207720.080    84017060.40107        44.650";
    let (key, entry) = parse_epoch(&h, block, TimeScale::GPST).unwrap();
    assert_eq!(entry.observations.len(), 12 + 9);
    assert_eq!(rtrim_lines(&fmt_epoch(&h, &key, &entry).unwrap()), block);
}

#[test]
fn a_blank_slot_gives_no_entry() {
    assert_eq!(parse_slot(b"                "), None);
    assert_eq!(parse_slot(b""), None);
    assert_eq!(parse_slot(b"             . 1"), None);
    assert_eq!(parse_slot(b"         0.000  "), Some(data(0, None, None)));
    let h = header(3, Constellation::GPS, &[(Constellation::GPS, &["C1C", "L1C", "S1C"])]);
    let block = "> 2022 01 09 00 00  0.0000000  0  1\nG01  22345079.240                          48.850";
    let (key, entry) = parse_epoch(&h, block, TimeScale::GPST).unwrap();
    assert_eq!(entry.observations.len(), 2);
    assert!(!entry.observations.contains_key(&ObservationKey::new(sv("G01"), observable("L1C"))));
    assert_eq!(entry.observations.get(&ObservationKey::new(sv("G01"), observable("L1C"))), None);
    assert!(entry.observations.contains_key(&ObservationKey::new(sv("G01"), observable("S1C"))));
    assert_eq!(fmt_epoch(&h, &key, &entry).unwrap(), block);
}

#[test]
fn slots_read_value_then_flags() {
    assert_eq!(parse_slot(b"  24178026.635 6"), Some(data(24_178_026_635, None, Some(SNR::DbHz36_41))));
    assert_eq!(parse_slot(b"  24178026.63516"), Some(data(24_178_026_635, Some(1), Some(SNR::DbHz36_41))));
    assert_eq!(parse_slot(b"  24178026.6357 "), Some(data(24_178_026_635, Some(7), None)));
    assert_eq!(parse_slot(b"  24178026.6358x"), Some(data(24_178_026_635, None, None)));
    assert_eq!(parse_slot(b"      -411.138"), Some(data(-411_138, None, None)));
    assert_eq!(parse_slot(b"       411.1389"), Some(data(411_138, None, None)));
    assert_eq!(parse_slot(b"          12"), Some(data(12_000, None, None)));
    assert_eq!(parse_slot(b"          +.5"), Some(data(500, None, None)));
    assert_eq!(parse_slot(b"           1e3"), None);
    assert_eq!(parse_slot(b"          nan"), None);
    assert_eq!(parse_slot(b"        1 2"), None);
    assert_eq!(parse_slot(b"99999999999999"), Some(data(99_999_999_999_999_000, None, None)));
}

#[test]
fn each_reading_error_has_its_input() {
    let h = header(3, Constellation::GPS, &[(Constellation::GPS, &["C1C"])]);
    let h2 = header(2, Constellation::GPS, &[(Constellation::GPS, &["C1"])]);
    let none2 = Header::default().with_version(Version { major: 2, minor: 0 }).with_observation_fields(
        HeaderFields::default(),
    );
    let ts = TimeScale::GPST;
    assert_eq!(parse_epoch(&h, "", ts).err(), Some(Error::EmptyLine));
    assert_eq!(parse_epoch(&h, ">", ts).err(), Some(Error::NumSatParsing));
    assert_eq!(parse_epoch(&h2, " 21 12 21", ts).err(), Some(Error::NumSatParsing));
    assert_eq!(
        parse_epoch(&h2, " 21 12 21  0  0  0.0000000  4  ", ts).err(),
        Some(Error::NumSatParsing)
    );
    assert_eq!(
        parse_epoch(&h2, " 21 12 21  0  0  0.0000000  4 ", ts).err(),
        Some(Error::NumSatParsing)
    );
    assert_eq!(
        parse_epoch(&h, "> 2022 01 09 00 00  0.0000000  4 ", ts).err(),
        Some(Error::NumSatParsing)
    );
    assert_eq!(
        parse_epoch(&h2, " 21 12 21  0  0  0.0000000  4  0", ts).unwrap().0.flag,
        EpochFlag::HeaderInformationFollows
    );
    assert_eq!(
        parse_epoch(&h, "> 2022 xx 09 00 00  0.0000000  0  1", ts).err(),
        Some(Error::EpochError)
    );
    assert_eq!(
        parse_epoch(&h, "> 2022 13 09 00 00  0.0000000  0  1", ts).err(),
        Some(Error::EpochError)
    );
    assert_eq!(
        parse_epoch(&h, "> 2022 01 09 00 00  0.0000000  7  1", ts).err(),
        Some(Error::EpochFlag)
    );
    assert_eq!(
        parse_epoch(&h, "> 2022 01 09 00 00  0.0000000  0  x", ts).err(),
        Some(Error::NumSatParsing)
    );
    assert_eq!(
        parse_epoch(&h, "> 2022 01 09 00 00  0.0000000  0", ts).err(),
        Some(Error::NumSatParsing)
    );
    assert_eq!(
        parse_epoch(&h, "> 2022 01 09 00 00  0.0000000  0  1\nX01  22345079.240", ts).err(),
        Some(Error::SvParsing)
    );
    assert_eq!(
        parse_epoch(&h, "> 2022 01 09 00 00  0.0000000  0  1\n", ts).unwrap().1.observations.len(),
        0
    );
    assert_eq!(
        parse_epoch(&h, "> 2022 01 09 00 00  0.0000000  0  1\nR01  22345079.240", ts).err(),
        Some(Error::MissingObservationDescription)
    );
    assert_eq!(
        parse_epoch(&h2, " 21 12 21  0  0  0.0000000  0 13G01G08G10G16G21G23G32G04G05G06G12G20", ts)
            .err(),
        Some(Error::MissingSvDescription)
    );
    assert_eq!(
        parse_epoch(&h2, " 21 12 21  0  0  0.0000000  0  1", ts).err(),
        Some(Error::EmptyLine)
    );
    assert_eq!(
        parse_epoch(&h2, " 21 12 21  0  0  0.0000000  0  1R07\n  25091572.300", ts).err(),
        Some(Error::MissingObservationDescription)
    );
    assert_eq!(
        parse_epoch(&none2, " 21 12 21  0  0  0.0000000  0  2 07 08\n  25091572.300", ts).err(),
        Some(Error::InvalidConstellationDefinition)
    );
    let mixed = header(2, Constellation::Mixed, &[(Constellation::GPS, &["C1"])]);
    assert_eq!(
        parse_epoch(&mixed, " 21 12 21  0  0  0.0000000  0  2 07 08\n  25091572.300", ts).err(),
        Some(Error::InvalidConstellationDefinition)
    );
    assert_eq!(parse_head(3, b"> 2022 01 09 00 00  0.0000000  0+70", ts).unwrap().n_sat, 70);
    assert_eq!(
        parse_head(3, b"> 2022 01 09 00 00  0.0000000  0-70", ts).err(),
        Some(Error::NumSatParsing)
    );
}

#[test]
fn old_files_name_their_vehicles_by_prn() {
    let h = header(2, Constellation::Glonass, &[(Constellation::Glonass, &["C1", "L1"])]);
    let block = " 95  1  1  0  0  0.0000000  0  2 07 12\n  25091572.300   131857102.133  \n  25091573.300";
    let (key, entry) = parse_epoch(&h, block, TimeScale::UTC).unwrap();
    assert_eq!(key.epoch, Epoch::from_str("1995-01-01T00:00:00 UTC").unwrap());
    assert_eq!(entry.observations.vehicles(), vec![sv("R07"), sv("R12")]);
    assert_eq!(entry.observations.len(), 3);
    assert_eq!(
        fmt_epoch(&h, &key, &entry).unwrap(),
        " 95  1  1  0  0  0.0000000  0  2R07R12\n  25091572.300   131857102.133  \n  25091573.300"
    );
}

#[test]
fn a_vehicle_that_cannot_be_named_is_left_out() {
    let h = header(2, Constellation::GPS, &[(Constellation::GPS, &["C1"])]);
    let block = " 21 12 21  0  0  0.0000000  0  3G07G??G09\n  25091572.300\n  25091573.300\n  25091574.300";
    let (_, entry) = parse_epoch(&h, block, TimeScale::GPST).unwrap();
    assert_eq!(entry.observations.vehicles(), vec![sv("G07"), sv("G09")]);
    assert_eq!(
        entry.observations.get(&ObservationKey::new(sv("G09"), observable("C1"))),
        Some(data(25_091_574_300, None, None))
    );
}

#[test]
fn events_come_without_observations() {
    let h = header(3, Constellation::GPS, &[(Constellation::GPS, &["C1C"])]);
    let block = "> 2022 01 09 00 00  0.0000000  4  1\nG01  22345079.240";
    let (key, entry) = parse_epoch(&h, block, TimeScale::GPST).unwrap();
    assert_eq!(key.flag, EpochFlag::HeaderInformationFollows);
    assert!(entry.observations.is_empty());
    for (digit, flag) in [
        ("1", EpochFlag::PowerFailure),
        ("2", EpochFlag::AntennaBeingMoved),
        ("3", EpochFlag::NewSiteOccupation),
        ("5", EpochFlag::ExternalEvent),
        ("6", EpochFlag::CycleSlip),
    ] {
        let block = format!("> 2022 01 09 00 00  0.0000000  {}  1\nG01  22345079.240", digit);
        let (key, entry) = parse_epoch(&h, &block, TimeScale::GPST).unwrap();
        assert_eq!(key.flag, flag);
        assert_eq!(entry.observations.len(), if flag.has_observations() { 1 } else { 0 });
    }
}

#[test]
fn lines_that_open_an_epoch() {
    let v2 = Version { major: 2, minor: 11 };
    let v3 = Version { major: 3, minor: 4 };
    assert!(is_new_epoch(" 21 12 21  0  0  0.0000000  0  1G07", v2));
    assert!(is_new_epoch(" 21 12 21  0  0  0.0000000  0  1", v2));
    assert!(!is_new_epoch(" 21 12 21  0  0  0.0000000  0", v2));
    assert!(!is_new_epoch(" 21 12 21  0  0  0.0000000  9  1G07", v2));
    assert!(!is_new_epoch(" 21 13 21  0  0  0.0000000  0  1G07", v2));
    assert!(!is_new_epoch("  24178026.635 6  24178024.891 6                 127056391.69906", v2));
    assert!(is_new_epoch("                            4  1", v2));
    assert!(is_new_epoch("                            2  1", v2));
    assert!(!is_new_epoch("                            0  1", v2));
    assert!(!is_new_epoch("                            6  1", v2));
    assert!(!is_new_epoch("                               1", v2));
    assert!(!is_new_epoch("> 2022 01 09 00 00  0.0000000  0  9", v2));
    assert!(is_new_epoch("> 2022 01 09 00 00  0.0000000  0  9", v3));
    assert!(is_new_epoch(">", v3));
    assert!(!is_new_epoch("", v3));
    assert!(!is_new_epoch("G01  22345079.240", v3));
    assert!(!is_new_epoch(" 21 12 21  0  0  0.0000000  0  1G07", v3));
}

#[test]
fn writing_fails_only_for_want_of_a_table_or_of_a_letter() {
    let h = header(3, Constellation::GPS, &[(Constellation::GPS, &["C1C"])]);
    let key = RecordKey {
        epoch: Epoch::from_str("2022-01-09T00:00:00 GPST").unwrap(),
        flag: EpochFlag::Okay,
    };
    let mut observations = Observations::new();
    observations.insert(ObservationKey::new(sv("E01"), observable("C1C")), data(1_000, None, None));
    let entry = RecordEntry::new(None, observations);
    assert_eq!(fmt_epoch(&h, &key, &entry).err(), Some(Error::MissingObservationDescription));
    let mut observations = Observations::new();
    observations.insert(
        ObservationKey::new(SV::new(Constellation::GBAS, 1), observable("C1C")),
        data(1_000, None, None),
    );
    let entry = RecordEntry::new(None, observations);
    assert_eq!(fmt_epoch(&h, &key, &entry).err(), Some(Error::InvalidConstellationDefinition));
    let entry = RecordEntry::new(Some(1_000_000_000_000), Observations::new());
    assert_eq!(fmt_epoch(&h, &key, &entry).unwrap(), "> 2022 01 09 00 00  0.0000000  0  0       1.0000");
    let h2 = header(2, Constellation::GPS, &[(Constellation::GPS, &["C1"])]);
    assert_eq!(fmt_epoch(&h2, &key, &entry).unwrap(), " 22  1  9  0  0  0.0000000  0  0");
}

#[test]
fn augmentation_vehicles_share_the_table_of_sbas() {
    let h = header(
        3,
        Constellation::Mixed,
        &[(Constellation::GPS, &["C1C"]), (Constellation::SBAS, &["C1C", "L1C"])],
    );
    let block = "> 2022 01 09 00 00  0.0000000  0  2\nG01  22345079.240  \nS23  38000000.000   199000000.000";
    let (key, entry) = parse_epoch(&h, block, TimeScale::GPST).unwrap();
    let s23 = sv("S23");
    assert_eq!(s23.constellation, Constellation::EGNOS);
    assert!(s23.constellation.is_sbas());
    assert_ne!(s23.constellation, Constellation::SBAS);
    assert_eq!(entry.observations.vehicles(), vec![sv("G01"), s23]);
    assert_eq!(
        entry.observations.get(&ObservationKey::new(s23, observable("L1C"))),
        Some(data(199_000_000_000, None, None))
    );
    assert_eq!(fmt_epoch(&h, &key, &entry).unwrap(), block);
}

#[test]
fn outside_readers_are_reached() {
    assert_eq!(sv("G01"), SV::new(Constellation::GPS, 1));
    assert_eq!(sv("R 9"), SV::new(Constellation::Glonass, 9));
    assert_eq!(sv("C254"), SV::new(Constellation::BeiDou, 254));
    assert_eq!(sv("S 3"), SV::new(Constellation::SBAS, 3));
    assert_eq!(SV::from_str("X01"), Err(GnssError::Vehicle));
    assert_eq!(SV::from_str("G"), Err(GnssError::Vehicle));
    assert_eq!(SV::from_str(""), Err(GnssError::Vehicle));
    assert_eq!(SV::from_str("\u{e9}01"), Err(GnssError::Vehicle));
    assert_eq!(Constellation::from_str("GPS"), Ok(Constellation::GPS));
    assert_eq!(Constellation::from_str(" gal "), Ok(Constellation::Galileo));
    assert_eq!(Constellation::from_str("Mixed"), Ok(Constellation::Mixed));
    assert_eq!(Constellation::from_str("BDSBAS"), Ok(Constellation::BDSBAS));
    assert_eq!(Constellation::from_str("nothing"), Err(GnssError::Constellation));
    assert_eq!(Duration::from_str("30 s"), Ok(Duration::from_seconds(30)));
    assert_eq!(Duration::from_str("1 d"), Ok(Duration::from_seconds(86400)));
    assert_eq!(Duration::from_str("soon"), Err(EpochParsingError::Description));
    let t = Epoch::from_str("2020-01-01T00:00:00 UTC").unwrap();
    assert_eq!(t.time_scale, TimeScale::UTC);
    let date = Gregorian { year: 2020, month: 1, day: 1, hour: 0, minute: 0, second: 0, nanos: 0 };
    assert_eq!(t.gregorian(), date);
    assert_eq!(Epoch::from_gregorian(date, TimeScale::UTC), Some(t));
    let g = Epoch::from_gregorian(date, TimeScale::GPST).unwrap();
    assert_eq!(g.gregorian(), date);
    assert_eq!(t.since(&g), Duration::from_seconds(37));
    assert_eq!(g.since(&t), Duration::from_seconds(-37));
    assert_eq!(
        Epoch::from_gregorian(Gregorian { month: 13, day: 30, ..date }, TimeScale::UTC),
        None
    );
    assert_eq!(Epoch::from_str("never"), Err(EpochParsingError::Description));
    assert_eq!(
        Epoch::parse_datetime(b" 21 12 21  0  0 30.5000000", TimeScale::GPST),
        Ok(Epoch::from_str("2021-12-21T00:00:30.5 GPST").unwrap())
    );
    assert_eq!(
        Epoch::parse_datetime(b"1985 1 2 3 4 5", TimeScale::UTC),
        Ok(Epoch::from_str("1985-01-02T03:04:05 UTC").unwrap())
    );
    assert_eq!(
        Epoch::parse_datetime(b"85 1 2 3 4 5", TimeScale::UTC),
        Ok(Epoch::from_str("1985-01-02T03:04:05 UTC").unwrap())
    );
    assert_eq!(Epoch::parse_datetime(b"21 12 21 0 0", TimeScale::UTC), Err(EpochParsingError::Format));
    assert_eq!(Epoch::parse_datetime(b"x 12 21 0 0 0", TimeScale::UTC), Err(EpochParsingError::Year));
    assert_eq!(Epoch::parse_datetime(b"21 x 21 0 0 0", TimeScale::UTC), Err(EpochParsingError::Month));
    assert_eq!(Epoch::parse_datetime(b"21 12 x 0 0 0", TimeScale::UTC), Err(EpochParsingError::Day));
    assert_eq!(Epoch::parse_datetime(b"21 12 21 x 0 0", TimeScale::UTC), Err(EpochParsingError::Hours));
    assert_eq!(
        Epoch::parse_datetime(b"21 12 21 0 x 0", TimeScale::UTC),
        Err(EpochParsingError::Minutes)
    );
    assert_eq!(
        Epoch::parse_datetime(b"21 12 21 0 0 -1", TimeScale::UTC),
        Err(EpochParsingError::Seconds)
    );
    assert_eq!(Epoch::parse_datetime(b"21 12 32 0 0 0", TimeScale::UTC), Err(EpochParsingError::Date));
}

#[test]
fn observables_go_by_their_first_letter() {
    assert_eq!(observable("L1C"), Observable::Phase("L1C".to_string()));
    assert_eq!(observable(" l1 "), Observable::Phase("L1".to_string()));
    assert_eq!(observable("C1"), Observable::PseudoRange("C1".to_string()));
    assert_eq!(observable("P2"), Observable::PseudoRange("P2".to_string()));
    assert_eq!(observable("S1C"), Observable::SSI("S1C".to_string()));
    assert_eq!(observable("D1"), Observable::Doppler("D1".to_string()));
    assert_eq!(observable("W1"), Observable::Power("W1".to_string()));
    assert_eq!(observable("PR"), Observable::Pressure);
    assert_eq!(observable("TD"), Observable::Temperature);
    assert_eq!(observable("HR"), Observable::HumidityRate);
    assert_eq!(observable("ZW"), Observable::ZenithWetDelay);
    assert_eq!(observable("ZD"), Observable::ZenithDryDelay);
    assert_eq!(observable("ZT"), Observable::ZenithTotalDelay);
    assert_eq!(observable("WD"), Observable::WindDirection);
    assert_eq!(observable("WS"), Observable::WindSpeed);
    assert_eq!(observable("RI"), Observable::RainIncrement);
    assert_eq!(observable("HI"), Observable::HailIndicator);
    assert_eq!(Observable::from_str("X1"), Err(ObservableError::Unknown));
    assert_eq!(Observable::from_str("L"), Err(ObservableError::Malformed));
    assert_eq!(Observable::from_str("L1CX"), Err(ObservableError::Malformed));
    assert_eq!(Observable::default(), observable("L1C"));
    assert!(observable("L1C").is_phase_observable());
    assert!(observable("C1C").is_pseudorange_observable());
    assert!(observable("D1C").is_doppler_observable());
    assert!(observable("S1C").is_ssi_observable());
    assert_eq!(observable("L1C").code(), "L1C");
    assert_eq!(observable("PR").code(), "");
}

#[test]
fn observations_are_ok_without_perturbation() {
    assert!(data(1, None, Some(SNR::DbHz30_35)).is_ok());
    assert!(data(1, Some(0), Some(SNR::DbHz54)).is_ok());
    assert!(!data(1, Some(1), Some(SNR::DbHz54)).is_ok());
    assert!(!data(1, None, Some(SNR::DbHz24_29)).is_ok());
    assert!(!data(1, None, None).is_ok());
    assert_eq!(LliFlags::from_bits(8), None);
    assert_eq!(LliFlags::from_bits(7).unwrap().bits(), 7);
    assert!(LliFlags::from_bits(3).unwrap().intersects(LliFlags::from_bits(2).unwrap()));
    assert!(!LliFlags::from_bits(1).unwrap().intersects(LliFlags::from_bits(6).unwrap()));
    assert!(!LliFlags::from_bits(1).unwrap().intersects(LliFlags::empty()));
    assert_eq!(SNR::default(), SNR::DbHz24_29);
    assert!(SNR::DbHz48_53.excellent() && SNR::DbHz48_53.strong() && !SNR::DbHz48_53.weak());
    assert!(SNR::DbHz12.weak() && !SNR::DbHz12.strong());
    assert_eq!(SNR::DbHz36_41.db(), 41);
    assert_eq!(EpochFlag::default(), EpochFlag::Okay);
    assert!(EpochFlag::Okay.is_ok() && !EpochFlag::CycleSlip.is_ok());
}

#[test]
fn instants_that_the_outside_reader_would_not_survive_are_refused() {
    let refused = Err(EpochParsingError::Description);
    for text in [
        "JD NaN TAI",
        "JD nan TAI",
        "SEC inf TAI",
        "SEC -inf TAI",
        "MJD infinity UTC",
        "SEC INFTAI",
        "JD 1e400 TAI",
        "JD 2452312.5e3 TAI",
        "JD 12345678901 TAI",
        "SEC 12345678901234567 TAI",
        "2020-01-01T00:00:00.0000000001 UTC",
        "2020-01-01T00:00:00.12345678901234567890 UTC",
        "20200-01-01T00:00:00 UTC",
        "202001010000000 UTC",
        "2020-01-01T00:00:00+:00",
        "2020-01-01T00:00:00- 05:00",
        "2020-01-01T00:00:00.5-Z",
        "2020-01-01T00:00:00+ UTC",
        "2020-01-01T00:00:00 \u{e9}",
    ] {
        assert_eq!(Epoch::from_str(text), refused, "{}", text);
    }
    let day = Epoch::from_str("2020-01-01T00:00:00 UTC").unwrap();
    assert_eq!(Epoch::from_str("2020-01-01T00:00:00.000000000 UTC"), Ok(day));
    assert_eq!(Epoch::from_str("  2020-01-01 00:00:00 UTC "), Ok(day));
    assert_eq!(Epoch::from_str("2020-01-01T00:00:00"), Ok(day));
    let julian = Epoch::from_str("JD 2452312.500372511 TAI").unwrap();
    assert_eq!(julian.time_scale, TimeScale::TAI);
    let modified = Epoch::from_str("MJD 51544.5 TAI").unwrap();
    assert_eq!(modified, Epoch::from_str("2000-01-01T12:00:00 TAI").unwrap());
    let seconds = Epoch::from_str("SEC 0.5 TAI").unwrap();
    assert_eq!(seconds.tai_nanos, 500_000_000);
    assert_eq!(
        Epoch::from_str("SEC 3900000000 TAI").unwrap().tai_nanos,
        3_900_000_000_000_000_000
    );
    assert_eq!(Epoch::from_str("JD x TAI"), refused);
    for text in [
        "2020-01-01T00:00:00-05:00",
        "2020-01-01T00:00:00+01:00 UTC",
        "2020-01-01T00:00:00+",
        "2020-01-01T00:00:00.5+5",
        "2020-01-01T00:00:00Z",
        "2020-01-01T00:00",
        "2020-01-01",
        "0000-00-00T00:00:00",
        "9999-12-31T23:59:60.999999999 TAI",
        "JD 999999999 TAI",
        "JD -99999999 UTC",
        "MJD 0 GPST",
        "MJD 51544.5 GPS",
        "SEC 9999999999999 TT",
        "SEC -999999999999 ET",
        "SEC 1.5 ET",
        "JD 1 . 5 TAI",
        "JD +-1.5 TDB",
        "SEC 1.5 XYZ",
        "JD 2452312.5",
    ] {
        let _ = Epoch::from_str(text);
    }
    assert_eq!(Epoch::from_str("short"), refused);
}

#[test]
fn dates_have_a_year_of_four_digits_at_most() {
    let g = Gregorian { year: 2020, month: 1, day: 1, hour: 0, minute: 0, second: 0, nanos: 0 };
    assert!(Epoch::from_gregorian(g, TimeScale::UTC).is_some());
    assert_eq!(Epoch::from_gregorian(Gregorian { year: 10_000, ..g }, TimeScale::UTC), None);
    assert_eq!(Epoch::from_gregorian(Gregorian { year: -1, ..g }, TimeScale::UTC), None);
    assert_eq!(Epoch::from_gregorian(Gregorian { year: i32::MAX, ..g }, TimeScale::UTC), None);
    assert!(Epoch::from_gregorian(Gregorian { year: 9999, ..g }, TimeScale::UTC).is_some());
    assert!(Epoch::from_gregorian(Gregorian { year: 0, ..g }, TimeScale::UTC).is_some());
    assert_eq!(Epoch::from_gregorian(Gregorian { month: 13, ..g }, TimeScale::UTC), None);
}

#[test]
fn constellations_are_read_by_letter_name_or_hint() {
    for (text, expected) in [
        ("G", Constellation::GPS),
        ("g", Constellation::GPS),
        (" GPS ", Constellation::GPS),
        ("C", Constellation::BeiDou),
        ("bds", Constellation::BeiDou),
        ("E", Constellation::Galileo),
        ("GAL", Constellation::Galileo),
        ("R", Constellation::Glonass),
        ("Glo", Constellation::Glonass),
        ("J", Constellation::QZSS),
        ("qzss", Constellation::QZSS),
        ("I", Constellation::IRNSS),
        ("IRNSS", Constellation::IRNSS),
        ("S", Constellation::SBAS),
        ("sbas", Constellation::SBAS),
        ("M", Constellation::Mixed),
        ("Mixed", Constellation::Mixed),
        ("AusNZ", Constellation::AusNZ),
        ("EGNOS", Constellation::EGNOS),
        ("WAAS", Constellation::WAAS),
        ("KASS", Constellation::KASS),
        ("GAGAN", Constellation::GAGAN),
        ("ASBAS", Constellation::ASBAS),
        ("NSAS", Constellation::NSAS),
        ("ASAL", Constellation::ASAL),
        ("MSAS", Constellation::MSAS),
        ("SPAN", Constellation::SPAN),
        ("GBAS", Constellation::GBAS),
        ("SDCM", Constellation::SDCM),
        ("BDSBAS", Constellation::BDSBAS),
        ("the GPS of old", Constellation::GPS),
        ("GLONASS", Constellation::Glonass),
        ("BeiDou", Constellation::BeiDou),
        ("Galileo", Constellation::Galileo),
        ("QZSS (Japan)", Constellation::QZSS),
        ("x-sbas", Constellation::SBAS),
        ("GEO", Constellation::SBAS),
        ("NavIC", Constellation::IRNSS),
        ("irnss-1", Constellation::IRNSS),
        ("mix", Constellation::Mixed),
        ("gps and glonass", Constellation::GPS),
        ("geo of irnss", Constellation::SBAS),
    ] {
        assert_eq!(Constellation::from_str(text), Ok(expected), "{}", text);
    }
    for text in ["", " ", "x", "gp", "gl", "galile", "7", "G 1"] {
        assert_eq!(Constellation::from_str(text), Err(GnssError::Constellation), "{}", text);
    }
}

#[test]
fn plain_identifiers_give_their_letter_and_their_number() {
    for (letter, c) in [
        ('G', Constellation::GPS),
        ('R', Constellation::Glonass),
        ('E', Constellation::Galileo),
        ('C', Constellation::BeiDou),
        ('J', Constellation::QZSS),
        ('I', Constellation::IRNSS),
        ('M', Constellation::Mixed),
    ] {
        for prn in [0u8, 1, 9, 10, 23, 99, 100, 255] {
            let expected = Ok(SV::new(c, prn));
            assert_eq!(SV::from_str(&format!("{}{:02}", letter, prn)), expected);
            assert_eq!(SV::from_str(&format!("{}{}", letter.to_ascii_lowercase(), prn)), expected);
            assert_eq!(SV::from_str(&format!("{} {} ", letter, prn)), expected);
            assert_eq!(SV::from_str(&format!("{}+{}", letter, prn)), expected);
            let mut id = Vec::new();
            assert!(SV::new(c, prn).push_identifier(&mut id));
            assert_eq!(SV::from_bytes(&id), expected);
        }
        assert_eq!(SV::from_str(&format!("{}256", letter)), Err(GnssError::Vehicle));
        assert_eq!(SV::from_str(&format!("{}-1", letter)), Err(GnssError::Vehicle));
        assert_eq!(SV::from_str(&format!("{}", letter)), Err(GnssError::Vehicle));
        assert_eq!(SV::from_str(&format!("{}1 2", letter)), Err(GnssError::Vehicle));
    }
    assert_eq!(SV::from_str("X01"), Err(GnssError::Vehicle));
    assert!(SV::from_str("S23").unwrap().constellation.is_sbas());
}
