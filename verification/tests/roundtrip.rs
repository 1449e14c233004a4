use rinex::constellation::Constellation;
use rinex::constellation::SV;
use rinex::epoch::Epoch;
use rinex::epoch::Gregorian;
use rinex::epoch::TimeScale;
use rinex::header::Header;
use rinex::header::HeaderFields;
use rinex::header::Version;
use rinex::observable::Observable;
use rinex::observation::parsing::parse_head;
use rinex::observation::record::fmt_epoch;
use rinex::observation::record::parse_epoch;
use rinex::observation::record::ObservationKey;
use rinex::observation::record::Observations;
use rinex::observation::record::RecordEntry;
use rinex::observation::record::RecordKey;
use rinex::observation::EpochFlag;
use rinex::observation::LliFlags;
use rinex::observation::ObservationData;
use rinex::observation::SNR;

const GPS_CODES: [&str; 7] = ["C1", "L1", "L2", "P2", "S1", "S2", "D1"];
const GLONASS_CODES: [&str; 2] = ["C1", "L1"];

fn head(major: u8) -> Header {
    let mut fields = HeaderFields::default();
    for code in GPS_CODES.iter() {
        fields.push_code(Constellation::GPS, Observable::from_str(code).unwrap());
    }
    for code in GLONASS_CODES.iter() {
        fields.push_code(Constellation::Glonass, Observable::from_str(code).unwrap());
    }
    Header::default()
        .with_version(Version { major, minor: 0 })
        .with_constellation(Constellation::Mixed)
        .with_observation_fields(fields)
}

fn instant(year: i32, second: u8, nanos: u32) -> Epoch {
    let g = Gregorian { year, month: 3, day: 9, hour: 7, minute: 5, second, nanos };
    Epoch::from_gregorian(g, TimeScale::GPST).unwrap()
}

fn hold(obs: &mut Observations, sv: SV, code: &str, d: ObservationData) {
    obs.insert(ObservationKey::new(sv, Observable::from_str(code).unwrap()), d);
}

fn read_back(h: &Header, key: RecordKey, entry: &RecordEntry) -> (RecordKey, RecordEntry) {
    let text = fmt_epoch(h, &key, entry).unwrap();
    parse_epoch(h, &text, TimeScale::GPST).unwrap()
}

fn some_observations(vehicles: u8) -> Observations {
    let mut obs = Observations::new();
    for prn in 1..=vehicles {
        let sv = SV::new(Constellation::GPS, prn);
        hold(&mut obs, sv, "C1", ObservationData::new(20_000_000_123 + prn as i64, None, None));
        hold(
            &mut obs,
            sv,
            "L1",
            ObservationData::new(-105_000_000_001, LliFlags::from_bits(4), Some(SNR::DbHz36_41)),
        );
        if prn % 2 == 0 {
            hold(&mut obs, sv, "S2", ObservationData::new(7, None, Some(SNR::DbHz0)));
        }
    }
    hold(
        &mut obs,
        SV::new(Constellation::Glonass, 24),
        "C1",
        ObservationData::new(0, LliFlags::from_bits(0), None),
    );
    obs
}

#[test]
fn what_is_written_in_revision_3_is_read_back() {
    let h = head(3);
    let key = RecordKey { epoch: instant(2021, 59, 999_999_900), flag: EpochFlag::PowerFailure };
    let entry = RecordEntry::new(Some(-1_234_500_000_000), some_observations(3));
    let (k, e) = read_back(&h, key, &entry);
    assert_eq!(k, key);
    assert_eq!(e, entry);
    let entry = RecordEntry::new(None, some_observations(14));
    let (k, e) = read_back(&h, key, &entry);
    assert_eq!(k, key);
    assert_eq!(e, entry);
}

#[test]
fn what_is_written_in_revision_2_is_read_back() {
    let h = head(2);
    let key = RecordKey { epoch: instant(1998, 0, 100), flag: EpochFlag::CycleSlip };
    let entry = RecordEntry::new(None, some_observations(3));
    let (k, e) = read_back(&h, key, &entry);
    assert_eq!(k, key);
    assert_eq!(e, entry);
    let key = RecordKey { epoch: instant(2079, 30, 0), flag: EpochFlag::Okay };
    let entry = RecordEntry::new(Some(-42_000), some_observations(12));
    assert_eq!(entry.observations.vehicles().len(), 13);
    let (k, e) = read_back(&h, key, &entry);
    assert_eq!(k, key);
    assert_eq!(e, entry);
    let entry = RecordEntry::new(Some(999_999_999_000), some_observations(30));
    let (k, e) = read_back(&h, key, &entry);
    assert_eq!(k, key);
    assert_eq!(e, entry);
}

#[test]
fn blank_lines_at_the_end_of_an_epoch_are_not_missed() {
    let h = head(2);
    let key = RecordKey { epoch: instant(2005, 15, 0), flag: EpochFlag::Okay };
    let mut obs = Observations::new();
    hold(&mut obs, SV::new(Constellation::GPS, 7), "D1", ObservationData::new(-1, None, None));
    hold(&mut obs, SV::new(Constellation::GPS, 9), "C1", ObservationData::new(1_000, None, None));
    let entry = RecordEntry::new(None, obs);
    let text = fmt_epoch(&h, &key, &entry).unwrap();
    assert_eq!(text.lines().count(), 4);
    assert_eq!(text.lines().nth(1).unwrap().len(), 80);
    assert_eq!(text.lines().nth(3).unwrap(), "         1.000");
    let (k, e) = parse_epoch(&h, &text, TimeScale::GPST).unwrap();
    assert_eq!(k, key);
    assert_eq!(e, entry);
}

#[test]
fn what_the_text_cannot_tell_is_not_read_back() {
    let h = head(2);
    let key = RecordKey { epoch: instant(2005, 15, 0), flag: EpochFlag::Okay };
    let entry = RecordEntry::new(Some(5_000), some_observations(3));
    let (k, e) = read_back(&h, key, &entry);
    assert_eq!(k, key);
    assert_eq!(e.clock_offset, None);
    assert_eq!(e.observations, entry.observations);
    let h = head(3);
    let entry = RecordEntry::new(Some(123_456_789), some_observations(1));
    let (_, e) = read_back(&h, key, &entry);
    assert_eq!(e.clock_offset, Some(100_000_000));
    let fine = RecordKey { epoch: instant(2005, 15, 150), flag: EpochFlag::Okay };
    let (k, _) = read_back(&h, fine, &entry);
    assert_eq!(k.epoch, instant(2005, 15, 100));
    let event = RecordKey { epoch: instant(2005, 15, 0), flag: EpochFlag::ExternalEvent };
    let (k, e) = read_back(&h, event, &entry);
    assert_eq!(k, event);
    assert_eq!(e.observations.len(), 0);
}

#[test]
fn written_blocks_declare_their_vehicles() {
    for major in [2u8, 3u8] {
        let h = head(major);
        let key = RecordKey { epoch: instant(2010, 1, 0), flag: EpochFlag::Okay };
        for vehicles in [1u8, 11, 12, 13, 25] {
            let entry = RecordEntry::new(None, some_observations(vehicles));
            let text = fmt_epoch(&h, &key, &entry).unwrap();
            let first = text.lines().next().unwrap();
            let declared = parse_head(major, first.as_bytes(), TimeScale::GPST).unwrap();
            assert_eq!(declared.n_sat as usize, vehicles as usize + 1);
            let (_, read) = parse_epoch(&h, &text, TimeScale::GPST).unwrap();
            assert_eq!(read.observations.vehicles().len(), declared.n_sat as usize);
            assert_eq!(fmt_epoch(&h, &key, &read).unwrap(), text);
        }
    }
}

#[test]
fn a_block_may_hold_fewer_vehicles_than_it_declares() {
    let h = head(3);
    let block = "> 2022 01 09 00 00  0.0000000  0  9\nG01  22345079.240";
    let declared = parse_head(3, block.lines().next().unwrap().as_bytes(), TimeScale::GPST).unwrap();
    assert_eq!(declared.n_sat, 9);
    let (_, read) = parse_epoch(&h, block, TimeScale::GPST).unwrap();
    assert_eq!(read.observations.vehicles().len(), 1);
}
