use rinex::constellation::Constellation;
use rinex::constellation::SV;
use rinex::epoch::Duration;
use rinex::epoch::Epoch;
use rinex::epoch::TimeScale;
use rinex::header::Crinex;
use rinex::header::Header;
use rinex::header::HeaderFields;
use rinex::header::IonexFields;
use rinex::header::RinexType;
use rinex::header::Version;
use rinex::observable::Observable;
use rinex::observation::merging::MergeError;
use rinex::observation::record::parse_epoch;
use rinex::observation::record::ObservationKey;
use rinex::observation::record::Observations;
use rinex::observation::record::Record;
use rinex::observation::record::RecordEntry;
use rinex::observation::record::RecordKey;
use rinex::observation::EpochFlag;
use rinex::observation::ObservationData;
use rinex::observation::SNR;
use rinex::processing::masking::MaskFilter;
use rinex::processing::masking::MaskOperand;
use rinex::processing::token::MaskToken;
use rinex::Rinex;

fn observable(code: &str) -> Observable {
    Observable::from_str(code).unwrap()
}

fn sv(text: &str) -> SV {
    SV::from_str(text).unwrap()
}

fn header() -> Header {
    let mut fields = HeaderFields::default();
    for c in [Constellation::GPS, Constellation::Glonass, Constellation::SBAS] {
        for code in ["C1C", "L1C", "S1C"] {
            fields.push_code(c, observable(code));
        }
    }
    Header::default()
        .with_version(Version { major: 3, minor: 0 })
        .with_constellation(Constellation::Mixed)
        .with_observation_fields(fields)
}

fn at(seconds: i64) -> Epoch {
    let t0 = Epoch::from_str("2022-01-09T00:00:00 GPST").unwrap();
    Epoch { tai_nanos: t0.tai_nanos + seconds as i128 * 1_000_000_000, time_scale: TimeScale::GPST }
}

fn key(seconds: i64) -> RecordKey {
    RecordKey { epoch: at(seconds), flag: EpochFlag::Okay }
}

fn entry(clock: Option<i64>, rows: &[(&str, &str, i64, Option<SNR>)]) -> RecordEntry {
    let mut observations = Observations::new();
    for (vehicle, code, value, snr) in rows {
        observations.insert(
            ObservationKey::new(sv(vehicle), observable(code)),
            ObservationData::new(*value, None, *snr),
        );
    }
    RecordEntry::new(clock, observations)
}

fn record() -> Record {
    let mut r = Record::new();
    r.insert(
        key(60),
        entry(
            None,
            &[
                ("R02", "C1C", 5, Some(SNR::DbHz24_29)),
                ("G01", "L1C", 2, Some(SNR::DbHz42_47)),
                ("G01", "C1C", 1, None),
                ("G03", "C1C", 3, Some(SNR::DbHz30_35)),
                ("S23", "C1C", 6, Some(SNR::DbHz54)),
                ("G12", "C1C", 4, Some(SNR::DbHz12)),
            ],
        ),
    );
    r.insert(key(0), entry(Some(7), &[("G01", "C1C", 10, Some(SNR::DbHz48_53))]));
    r.insert(key(30), entry(None, &[("R02", "S1C", 20, None)]));
    r.insert(key(90), entry(Some(8), &[]));
    r
}

fn keys_of(r: &Record) -> Vec<RecordKey> {
    (0..r.len()).map(|i| r.key_at(i)).collect()
}

fn rows_of(e: &RecordEntry) -> Vec<(SV, Observable, i64)> {
    (0..e.observations.len())
        .map(|i| {
            let k = e.observations.key_at(i);
            (k.sv, k.observable.clone(), e.observations.data_at(i).value)
        })
        .collect()
}

fn mask(token: MaskToken, operand: MaskOperand) -> MaskFilter {
    MaskFilter { token, operand }
}

#[test]
fn the_record_keeps_its_epochs_and_observations_in_order() {
    let r = record();
    assert_eq!(keys_of(&r), vec![key(0), key(30), key(60), key(90)]);
    assert_eq!(
        rows_of(r.get(&key(60)).unwrap()),
        vec![
            (sv("G01"), observable("L1C"), 2),
            (sv("G01"), observable("C1C"), 1),
            (sv("G03"), observable("C1C"), 3),
            (sv("G12"), observable("C1C"), 4),
            (sv("R02"), observable("C1C"), 5),
            (sv("S23"), observable("C1C"), 6),
        ]
    );
    assert_eq!(
        r.get(&key(60)).unwrap().observations.vehicles(),
        vec![sv("G01"), sv("G03"), sv("G12"), sv("R02"), sv("S23")]
    );
    assert!(r.contains_key(&key(30)));
    assert!(!r.contains_key(&key(31)));
    assert!(r.get(&RecordKey { epoch: at(30), flag: EpochFlag::CycleSlip }).is_none());
    let mut again = record();
    again.insert(key(30), entry(None, &[("G01", "C1C", 99, None)]));
    assert_eq!(again.len(), 4);
    assert_eq!(rows_of(again.get(&key(30)).unwrap()), vec![(sv("G01"), observable("C1C"), 99)]);
    let e = r.entry_at(0).clone();
    assert_eq!(&e, r.entry_at(0));
    let mut o = e.observations.clone();
    o.insert(ObservationKey::new(sv("G01"), observable("C1C")), ObservationData::new(11, None, None));
    assert_eq!(o.len(), 1);
    assert_eq!(o.data_at(0).value, 11);
    o.insert_new(ObservationKey::new(sv("G01"), observable("C1C")), ObservationData::new(12, None, None));
    assert_eq!(o.data_at(0).value, 11);
    assert_eq!(Record::default(), Record::new());
    assert_eq!(r.clone(), r);
}

#[test]
fn masking_twice_is_masking_once() {
    let masks = vec![
        mask(MaskToken::Epoch(at(30)), MaskOperand::GreaterThan),
        mask(MaskToken::Epoch(at(30)), MaskOperand::Equals),
        mask(MaskToken::SNR(30_000), MaskOperand::GreaterEquals),
        mask(MaskToken::SNR(41_000), MaskOperand::LowerThan),
        mask(MaskToken::SV(vec![sv("G03"), sv("R02")]), MaskOperand::Equals),
        mask(MaskToken::SV(vec![sv("G03"), sv("R02")]), MaskOperand::NotEquals),
        mask(MaskToken::SV(vec![sv("G03"), sv("G12")]), MaskOperand::GreaterThan),
        mask(MaskToken::SV(vec![sv("G03"), sv("G12")]), MaskOperand::LowerEquals),
        mask(MaskToken::Observables(vec!["C1C".to_string()]), MaskOperand::Equals),
        mask(MaskToken::Observables(vec!["C1C".to_string()]), MaskOperand::NotEquals),
        mask(MaskToken::Observables(vec!["C1C".to_string()]), MaskOperand::GreaterThan),
        mask(MaskToken::Constellations(vec![Constellation::GPS]), MaskOperand::Equals),
        mask(MaskToken::Constellations(vec![Constellation::SBAS]), MaskOperand::NotEquals),
        mask(MaskToken::Duration(Duration::from_seconds(30)), MaskOperand::Equals),
        mask(MaskToken::Elevation(10_000), MaskOperand::GreaterThan),
    ];
    for m in masks.iter() {
        let once = record().mask(m);
        let twice = once.mask(m);
        assert_eq!(once, twice, "{:?}", m);
    }
}

#[test]
fn masks_on_instants_retain_whole_epochs() {
    let r = record();
    assert_eq!(keys_of(&r.mask(&mask(MaskToken::Epoch(at(30)), MaskOperand::Equals))), vec![key(30)]);
    assert_eq!(
        keys_of(&r.mask(&mask(MaskToken::Epoch(at(30)), MaskOperand::NotEquals))),
        vec![key(0), key(60), key(90)]
    );
    assert_eq!(
        keys_of(&r.mask(&mask(MaskToken::Epoch(at(30)), MaskOperand::GreaterThan))),
        vec![key(60), key(90)]
    );
    assert_eq!(
        keys_of(&r.mask(&mask(MaskToken::Epoch(at(30)), MaskOperand::GreaterEquals))),
        vec![key(30), key(60), key(90)]
    );
    assert_eq!(keys_of(&r.mask(&mask(MaskToken::Epoch(at(30)), MaskOperand::LowerThan))), vec![key(0)]);
    assert_eq!(
        keys_of(&r.mask(&mask(MaskToken::Epoch(at(30)), MaskOperand::LowerEquals))),
        vec![key(0), key(30)]
    );
    let kept = r.mask(&mask(MaskToken::Epoch(at(60)), MaskOperand::Equals));
    assert_eq!(kept.get(&key(60)), r.get(&key(60)));
}

#[test]
fn masks_on_signal_strength_need_a_strength() {
    let r = record().mask(&mask(MaskToken::SNR(35_000), MaskOperand::GreaterEquals));
    assert_eq!(keys_of(&r), vec![key(0), key(60), key(90)]);
    assert_eq!(
        rows_of(r.get(&key(60)).unwrap()),
        vec![
            (sv("G01"), observable("L1C"), 2),
            (sv("G03"), observable("C1C"), 3),
            (sv("S23"), observable("C1C"), 6),
        ]
    );
    assert_eq!(r.get(&key(90)).unwrap().clock_offset, Some(8));
    assert!(r.get(&key(90)).unwrap().observations.is_empty());
    let r = record().mask(&mask(MaskToken::SNR(12_000), MaskOperand::Equals));
    assert_eq!(rows_of(r.get(&key(60)).unwrap()), vec![(sv("G12"), observable("C1C"), 4)]);
    assert_eq!(rows_of(r.get(&key(0)).unwrap()), vec![]);
}

#[test]
fn masks_on_vehicles() {
    let list = vec![sv("G03"), sv("G12"), sv("R02")];
    let r = record().mask(&mask(MaskToken::SV(list.clone()), MaskOperand::Equals));
    assert_eq!(keys_of(&r), vec![key(0), key(30), key(60), key(90)]);
    assert_eq!(r.get(&key(60)).unwrap().observations.vehicles(), list);
    assert!(r.get(&key(0)).unwrap().observations.is_empty());
    let r = record().mask(&mask(MaskToken::SV(list.clone()), MaskOperand::NotEquals));
    assert_eq!(keys_of(&r), vec![key(0), key(60), key(90)]);
    assert_eq!(r.get(&key(60)).unwrap().observations.vehicles(), vec![sv("G01"), sv("S23")]);
    // the first vehicle of a constellation gives the PRN that the others are compared with
    let r = record().mask(&mask(MaskToken::SV(list.clone()), MaskOperand::GreaterThan));
    assert_eq!(r.get(&key(60)).unwrap().observations.vehicles(), vec![sv("G12"), sv("S23")]);
    let r = record().mask(&mask(MaskToken::SV(list.clone()), MaskOperand::GreaterEquals));
    assert_eq!(
        r.get(&key(60)).unwrap().observations.vehicles(),
        vec![sv("G03"), sv("G12"), sv("R02"), sv("S23")]
    );
    let r = record().mask(&mask(MaskToken::SV(list.clone()), MaskOperand::LowerThan));
    assert_eq!(r.get(&key(60)).unwrap().observations.vehicles(), vec![sv("G01"), sv("S23")]);
    let r = record().mask(&mask(MaskToken::SV(vec![sv("G12"), sv("G03")]), MaskOperand::LowerEquals));
    assert_eq!(
        r.get(&key(60)).unwrap().observations.vehicles(),
        vec![sv("G01"), sv("G03"), sv("G12"), sv("R02"), sv("S23")]
    );
}

#[test]
fn masks_on_observables_and_constellations() {
    let r = record().mask(&mask(
        MaskToken::Observables(vec!["L1C".to_string(), "??".to_string(), "s1c".to_string()]),
        MaskOperand::Equals,
    ));
    assert_eq!(keys_of(&r), vec![key(0), key(30), key(60), key(90)]);
    assert_eq!(rows_of(r.get(&key(60)).unwrap()), vec![(sv("G01"), observable("L1C"), 2)]);
    assert_eq!(rows_of(r.get(&key(30)).unwrap()), vec![(sv("R02"), observable("S1C"), 20)]);
    let r = record().mask(&mask(
        MaskToken::Observables(vec!["C1C".to_string()]),
        MaskOperand::NotEquals,
    ));
    assert_eq!(rows_of(r.get(&key(60)).unwrap()), vec![(sv("G01"), observable("L1C"), 2)]);
    let same = record().mask(&mask(
        MaskToken::Observables(vec!["C1C".to_string()]),
        MaskOperand::LowerThan,
    ));
    assert_eq!(same, record());
    let r = record().mask(&mask(
        MaskToken::Constellations(vec![Constellation::Glonass]),
        MaskOperand::Equals,
    ));
    assert_eq!(keys_of(&r), vec![key(0), key(30), key(60), key(90)]);
    assert_eq!(r.get(&key(60)).unwrap().observations.vehicles(), vec![sv("R02")]);
    let r = record().mask(&mask(
        MaskToken::Constellations(vec![Constellation::Glonass, Constellation::GPS]),
        MaskOperand::NotEquals,
    ));
    assert_eq!(keys_of(&r), vec![key(0), key(60), key(90)]);
    assert_eq!(r.get(&key(60)).unwrap().observations.vehicles(), vec![sv("S23")]);
    let r = record().mask(&mask(
        MaskToken::Constellations(vec![Constellation::EGNOS]),
        MaskOperand::GreaterThan,
    ));
    assert_eq!(r, record());
}

#[test]
fn the_generic_sbas_stands_for_every_augmentation_system() {
    let s23 = sv("S23");
    assert_eq!(s23.constellation, Constellation::EGNOS);
    let r = record().mask(&mask(
        MaskToken::Constellations(vec![Constellation::SBAS]),
        MaskOperand::Equals,
    ));
    assert_eq!(rows_of(r.get(&key(60)).unwrap()), vec![(s23, observable("C1C"), 6)]);
    let r = record().mask(&mask(
        MaskToken::Constellations(vec![Constellation::WAAS]),
        MaskOperand::Equals,
    ));
    assert!(r.get(&key(60)).is_none());
    let r = record().mask(&mask(
        MaskToken::Constellations(vec![Constellation::SBAS]),
        MaskOperand::NotEquals,
    ));
    assert_eq!(
        r.get(&key(60)).unwrap().observations.vehicles(),
        vec![sv("G01"), sv("G03"), sv("G12"), sv("R02")]
    );
}

#[test]
fn masks_that_do_not_apply_leave_the_record_as_it_is() {
    for m in [
        mask(MaskToken::Duration(Duration::from_seconds(1)), MaskOperand::GreaterThan),
        mask(MaskToken::Frequencies(vec![1]), MaskOperand::Equals),
        mask(MaskToken::Elevation(1), MaskOperand::Equals),
        mask(MaskToken::Azimuth(1), MaskOperand::Equals),
        mask(MaskToken::Stations(vec!["x".to_string()]), MaskOperand::Equals),
        mask(MaskToken::DOMES(vec![]), MaskOperand::Equals),
        mask(MaskToken::COSPAR(vec![]), MaskOperand::Equals),
    ] {
        let mut empty = Record::new();
        empty.insert(key(0), entry(None, &[]));
        assert_eq!(empty.mask(&m).len(), 1);
        assert_eq!(record().mask(&m), record());
    }
    let mut empty = Record::new();
    empty.insert(key(0), entry(None, &[]));
    assert_eq!(
        empty.mask(&mask(MaskToken::SV(vec![]), MaskOperand::NotEquals)).len(),
        0
    );
}

#[test]
fn merging_keeps_the_left_and_takes_what_is_new_from_the_right() {
    let mut lhs = Record::new();
    lhs.insert(key(0), entry(None, &[("G01", "C1C", 1, None), ("G03", "C1C", 3, None)]));
    lhs.insert(key(60), entry(Some(5), &[("G01", "C1C", 61, None)]));
    let mut rhs = Record::new();
    rhs.insert(key(0), entry(Some(9), &[("G01", "C1C", 100, None), ("G02", "C1C", 2, None)]));
    rhs.insert(key(30), entry(None, &[("R01", "C1C", 31, None)]));
    rhs.insert(key(60), entry(Some(6), &[]));
    let merged = lhs.merge(&rhs).unwrap();
    assert_eq!(keys_of(&merged), vec![key(0), key(30), key(60)]);
    assert_eq!(
        rows_of(merged.get(&key(0)).unwrap()),
        vec![
            (sv("G01"), observable("C1C"), 1),
            (sv("G02"), observable("C1C"), 2),
            (sv("G03"), observable("C1C"), 3),
        ]
    );
    assert_eq!(merged.get(&key(0)).unwrap().clock_offset, Some(9));
    assert_eq!(merged.get(&key(30)), rhs.get(&key(30)));
    assert_eq!(merged.get(&key(60)), lhs.get(&key(60)));
    let mut in_place = lhs.clone();
    assert_eq!(in_place.merge_mut(&rhs), Ok(()));
    assert_eq!(in_place, merged);
    assert_eq!(lhs.merge(&Record::new()).unwrap(), lhs);
    assert_eq!(Record::new().merge(&rhs).unwrap(), rhs);
    assert_eq!(merged.merge(&rhs).unwrap(), merged);
}

#[test]
fn splitting_at_an_instant() {
    let r = record();
    let (before, after) = r.split(at(30)).unwrap();
    assert_eq!(keys_of(&before), vec![key(0)]);
    assert_eq!(keys_of(&after), vec![key(30), key(60), key(90)]);
    assert_eq!(after.get(&key(60)), r.get(&key(60)));
    let (before, after) = r.split(at(-1)).unwrap();
    assert!(before.is_empty());
    assert_eq!(after, r);
    let (before, after) = r.split(at(1000)).unwrap();
    assert_eq!(before, r);
    assert!(after.is_empty());
}

#[test]
fn splitting_at_gaps() {
    let mut r = Record::new();
    for t in [0, 30, 60, 300, 330, 900, 930, 960] {
        r.insert(key(t), entry(Some(t), &[]));
    }
    let parts = r.split_dt(Duration::from_seconds(120)).unwrap();
    assert_eq!(parts.len(), 3);
    assert_eq!(keys_of(&parts[0]), vec![key(0), key(30), key(60)]);
    assert_eq!(keys_of(&parts[1]), vec![key(300), key(330)]);
    assert_eq!(keys_of(&parts[2]), vec![key(900), key(930), key(960)]);
    assert_eq!(parts[1].entry_at(0).clock_offset, Some(300));
    let parts = r.split_dt(Duration::from_seconds(240)).unwrap();
    assert_eq!(parts.len(), 3);
    let parts = r.split_dt(Duration::from_seconds(241)).unwrap();
    assert_eq!(parts.len(), 2);
    assert_eq!(keys_of(&parts[0]), vec![key(0), key(30), key(60), key(300), key(330)]);
    assert_eq!(keys_of(&parts[1]), vec![key(900), key(930), key(960)]);
    let parts = r.split_dt(Duration::from_seconds(30)).unwrap();
    assert_eq!(parts.len(), 8);
    assert!(parts.iter().all(|p| p.len() == 1));
    assert_eq!(r.split_dt(Duration::from_seconds(10_000)).unwrap(), vec![r.clone()]);
    for gap in [1, 30, 31, 240, 570, 571] {
        let parts = r.split_dt(Duration::from_seconds(gap)).unwrap();
        let all: Vec<RecordKey> = parts.iter().flat_map(keys_of).collect();
        assert_eq!(all, keys_of(&r));
        assert!(parts.iter().all(|p| !p.is_empty()));
    }
    let mut one = Record::new();
    one.insert(key(5), entry(None, &[("G01", "C1C", 1, None)]));
    assert_eq!(one.split_dt(Duration::from_seconds(1)).unwrap(), vec![one.clone()]);
    assert!(Record::new().split_dt(Duration::from_seconds(1)).unwrap().is_empty());
}

fn file() -> Rinex {
    Rinex::new(header(), record())
}

#[test]
fn files_tell_their_kind() {
    let obs = file();
    assert!(obs.is_observation_rinex());
    assert!(!obs.is_navigation_rinex() && !obs.is_meteo_rinex() && !obs.is_clock_rinex());
    assert!(!obs.is_antex() && !obs.is_ionex() && !obs.is_ionex_2d() && !obs.is_ionex_3d());
    for (kind, n) in [
        (RinexType::NavigationData, 0),
        (RinexType::MeteoData, 1),
        (RinexType::ClockData, 2),
        (RinexType::IonosphereMaps, 3),
        (RinexType::AntennaData, 4),
        (RinexType::DORIS, 5),
    ] {
        let f = Rinex::new(Header::default().with_type(kind), Record::new());
        let told = [
            f.is_navigation_rinex(),
            f.is_meteo_rinex(),
            f.is_clock_rinex(),
            f.is_ionex(),
            f.is_antex(),
        ];
        for (i, t) in told.iter().enumerate() {
            assert_eq!(*t, i == n);
        }
        assert!(!f.is_observation_rinex());
    }
    let mut maps = Header::default().with_type(RinexType::IonosphereMaps);
    maps.ionex = Some(IonexFields { map_dimension: 3 });
    assert!(Rinex::new(maps, Record::new()).is_ionex_3d());
    let mut maps = Header::default().with_type(RinexType::IonosphereMaps);
    maps.ionex = Some(IonexFields { map_dimension: 2 });
    let f = Rinex::new(maps, Record::new());
    assert!(f.is_ionex_2d() && !f.is_ionex_3d());
}

#[test]
fn files_are_marked_as_compressed_and_back() {
    let f = file();
    assert!(!f.header.is_crinex());
    let c = f.rnx2crnx();
    assert!(c.header.is_crinex());
    assert_eq!(c.header.obs.as_ref().unwrap().crinex.as_ref().unwrap().version.major, 3);
    assert_eq!(c.record, f.record);
    let old = f.with_header(header().with_version(Version { major: 2, minor: 11 })).rnx2crnx();
    assert_eq!(old.header.obs.as_ref().unwrap().crinex.as_ref().unwrap().version.major, 1);
    let c1 = f.rnx2crnx1();
    assert_eq!(
        c1.header.obs.as_ref().unwrap().crinex.as_ref().unwrap().version,
        Version { major: 1, minor: 0 }
    );
    let c3 = f.rnx2crnx3();
    assert_eq!(
        c3.header.obs.as_ref().unwrap().crinex.as_ref().unwrap().version,
        Version { major: 3, minor: 0 }
    );
    assert_eq!(c3.header.obs.as_ref().unwrap().crinex.as_ref().unwrap().prog, "rust-crinex");
    let back = c3.crnx2rnx();
    assert!(!back.header.is_crinex());
    assert_eq!(back.header, f.header);
    let mut m = file();
    m.rnx2crnx1_mut();
    assert!(m.header.is_crinex());
    m.crnx2rnx_mut();
    assert_eq!(m, f);
    m.rnx2crnx3_mut();
    m.rnx2crnx_mut();
    assert_eq!(m.header.obs.as_ref().unwrap().crinex.as_ref().unwrap().prog, Crinex::default().prog);
    let nav = Rinex::new(Header::default().with_type(RinexType::NavigationData), Record::new());
    assert_eq!(nav.rnx2crnx(), nav);
    assert_eq!(nav.rnx2crnx1(), nav);
    assert_eq!(nav.rnx2crnx3(), nav);
    assert_eq!(nav.crnx2rnx(), nav);
}

#[test]
fn files_replace_header_and_record() {
    let f = file();
    let g = f.with_record(Record::new());
    assert!(g.record.is_empty());
    assert_eq!(g.header, f.header);
    let h = f.with_header(Header::basic_obs());
    assert_eq!(h.header, Header::basic_obs());
    assert_eq!(h.record, f.record);
    let mut m = file();
    m.replace_record(Record::new());
    assert_eq!(m, g);
    m.replace_header(Header::basic_obs());
    assert_eq!(m.header, Header::basic_obs());
    assert_eq!(f.observation(), &f.record);
    assert_eq!(Rinex::default().record, Record::new());
}

#[test]
fn files_tell_their_sampling() {
    let mut r = Record::new();
    for t in [0, 30, 60, 90, 150, 180, 240] {
        r.insert(key(t), entry(Some(t), &[]));
    }
    let f = Rinex::new(header(), r);
    assert_eq!(f.epoch(), vec![at(0), at(30), at(60), at(90), at(150), at(180), at(240)]);
    assert_eq!(f.first_epoch(), Some(at(0)));
    assert_eq!(f.last_epoch(), Some(at(240)));
    assert_eq!(f.duration(), Some(Duration::from_seconds(240)));
    assert_eq!(f.sample_rate(), None);
    assert_eq!(
        f.sampling_histogram(),
        vec![(Duration::from_seconds(30), 4), (Duration::from_seconds(60), 2)]
    );
    assert_eq!(f.dominant_sample_rate(), Some(Duration::from_seconds(30)));
    assert!(!f.steady_sampling());
    assert_eq!(
        f.data_gaps(None),
        vec![(at(90), Duration::from_seconds(60)), (at(180), Duration::from_seconds(60))]
    );
    assert_eq!(f.data_gaps(Some(Duration::from_seconds(60))), vec![]);
    assert_eq!(
        f.data_gaps(Some(Duration::from_seconds(29))).len(),
        6
    );
    let steady = f.split(at(91)).unwrap().0;
    assert!(steady.steady_sampling());
    assert_eq!(steady.data_gaps(None), vec![]);
    let empty = Rinex::default();
    assert_eq!(empty.epoch(), vec![]);
    assert_eq!(empty.first_epoch(), None);
    assert_eq!(empty.last_epoch(), None);
    assert_eq!(empty.duration(), None);
    assert_eq!(empty.sampling_histogram(), vec![]);
    assert_eq!(empty.dominant_sample_rate(), None);
    assert!(!empty.steady_sampling());
    assert_eq!(empty.data_gaps(None), vec![]);
    let mut two = Record::new();
    two.insert(key(0), entry(Some(1), &[]));
    two.insert(key(100), entry(Some(1), &[]));
    let mut declared = header();
    declared.sampling_interval = Some(Duration::from_seconds(10));
    let one = Rinex::new(declared, two.split(at(50)).unwrap().0);
    assert_eq!(one.sample_rate(), Some(Duration::from_seconds(10)));
    assert_eq!(one.data_gaps(None), vec![]);
    // the last of the spans that occur most often is the dominant one
    let mut tie = Record::new();
    for t in [0, 30, 90, 120, 180] {
        tie.insert(key(t), entry(Some(t), &[]));
    }
    assert_eq!(Rinex::new(header(), tie).dominant_sample_rate(), Some(Duration::from_seconds(60)));
}

#[test]
fn files_list_their_vehicles_and_observables() {
    let f = file();
    assert_eq!(f.sv(), vec![sv("G01"), sv("R02"), sv("G03"), sv("G12"), sv("S23")]);
    assert_eq!(f.observable(), vec![observable("C1C"), observable("S1C"), observable("L1C")]);
    assert_eq!(Rinex::default().sv(), vec![]);
    assert_eq!(Rinex::default().observable(), vec![]);
}

#[test]
fn files_are_masked_merged_and_split_through_their_records() {
    let f = file();
    let m = mask(MaskToken::SV(vec![sv("G01"), sv("G03")]), MaskOperand::Equals);
    let masked = f.mask(&m);
    assert_eq!(masked.record, f.record.mask(&m));
    assert_eq!(masked.sv(), vec![sv("G01"), sv("G03")]);
    assert_eq!(masked.header, f.header);
    let mut in_place = file();
    in_place.mask_mut(&m);
    assert_eq!(in_place, masked);
    let (a, b) = f.split(at(30)).unwrap();
    assert_eq!(a.record.len(), 1);
    assert_eq!(b.record.len(), 3);
    assert_eq!(a.header, f.header);
    assert_eq!(a.merge(&b).unwrap(), f);
    let mut c = a.clone();
    assert_eq!(c.merge_mut(&b), Ok(()));
    assert_eq!(c, f);
    let nav = Rinex::new(Header::default().with_type(RinexType::NavigationData), Record::new());
    assert_eq!(f.merge(&nav).err(), Some(MergeError::FileTypeMismatch));
    let files = f.split_dt(Duration::from_seconds(30)).unwrap();
    assert_eq!(files.len(), 4);
    for (i, part) in files.iter().enumerate() {
        assert_eq!(part.header, f.header);
        assert_eq!(keys_of(&part.record), vec![f.record.key_at(i)]);
    }
    assert_eq!(f.split_dt(Duration::from_seconds(31)).unwrap(), vec![f.clone()]);
}

#[test]
fn a_parsed_block_goes_through_the_record() {
    let h = header();
    let mut r = Record::new();
    for (minute, first) in [(1, "G01"), (0, "G03")] {
        let block = format!(
            "> 2022 01 09 00 0{} 00.0000000  0  2\n{}  22345079.240   117424213.48008        48.850  \nR02  20207718.320",
            minute, first
        );
        let (k, e) = parse_epoch(&h, &block, TimeScale::GPST).unwrap();
        r.insert(k, e);
    }
    assert_eq!(keys_of(&r), vec![key(0), key(60)]);
    assert_eq!(r.entry_at(0).observations.vehicles(), vec![sv("G03"), sv("R02")]);
    let f = Rinex::new(h, r);
    assert_eq!(f.sv(), vec![sv("G03"), sv("R02"), sv("G01")]);
    assert_eq!(f.dominant_sample_rate(), Some(Duration::from_seconds(60)));
}

#[test]
fn the_difference_keeps_what_both_records_hold() {
    let lhs = record();
    let mut rhs = Record::new();
    rhs.insert(
        key(60),
        entry(
            Some(1),
            &[
                ("G01", "C1C", 11, Some(SNR::DbHz0)),
                ("G03", "C1C", -3, None),
                ("G03", "L1C", 100, None),
                ("R09", "C1C", 1, None),
            ],
        ),
    );
    rhs.insert(key(30), entry(None, &[("R02", "C1C", 20, None)]));
    rhs.insert(key(45), entry(None, &[("R02", "S1C", 20, None)]));
    rhs.insert(key(90), entry(None, &[("G01", "C1C", 20, None)]));
    let d = lhs.substract(&rhs);
    assert_eq!(keys_of(&d), vec![key(60)]);
    assert_eq!(d.entry_at(0).clock_offset, None);
    assert_eq!(
        rows_of(d.entry_at(0)),
        vec![(sv("G01"), observable("C1C"), -10), (sv("G03"), observable("C1C"), 6)]
    );
    assert_eq!(d.entry_at(0).observations.data_at(1).snr, Some(SNR::DbHz30_35));
    assert_eq!(lhs.substract(&lhs).len(), 3);
    assert_eq!(rows_of(lhs.substract(&lhs).entry_at(0)), vec![(sv("G01"), observable("C1C"), 0)]);
    assert_eq!(lhs.substract(&Record::new()).len(), 0);
    let mut m = record();
    m.substract_mut(&rhs);
    assert_eq!(m, d);
    let f = file();
    let g = Rinex::new(header(), rhs);
    assert_eq!(f.substract(&g).record, d);
    assert_eq!(f.substract(&g).header, f.header);
}

#[test]
fn sums_and_differences_stay_in_range() {
    let top = ObservationData::new(i64::MAX, None, Some(SNR::DbHz54));
    let one = ObservationData::new(1, None, None);
    assert_eq!(top.add(one), top);
    assert_eq!(one.add(one), ObservationData::new(2, None, None));
    assert_eq!(one.add(top).snr, None);
    assert_eq!(rinex::observation::substracting::difference(i64::MIN, 1), i64::MIN);
    assert_eq!(rinex::observation::substracting::difference(-5, -7), 2);
    assert_eq!(rinex::observation::substracting::difference(0, i64::MIN), i64::MAX);
}

#[test]
fn a_body_is_read_epoch_by_epoch() {
    let h = header();
    let body = "> 2022 01 09 00 01  0.0000000  0  2\n\
G01  22345079.240   117424213.48008        48.850  \n\
R02  20207718.320\n\
> 2022 01 09 00 00  0.0000000  0  1\r\n\
G03  25106377.980\r\n\
> 2022 01 09 00 01  0.0000000  0  1\n\
G12         1.000\n";
    let r = Record::parse(&h, body, TimeScale::GPST).unwrap();
    assert_eq!(keys_of(&r), vec![key(0), key(60)]);
    assert_eq!(rows_of(r.entry_at(0)), vec![(sv("G03"), observable("C1C"), 25_106_377_980)]);
    assert_eq!(rows_of(r.entry_at(1)), vec![(sv("G12"), observable("C1C"), 1_000)]);
    assert_eq!(Record::parse(&h, "", TimeScale::GPST).unwrap().len(), 0);
    let lines: Vec<&[u8]> = body.lines().map(|l| l.as_bytes()).collect();
    assert_eq!(Record::parse_lines(&h, &lines, TimeScale::GPST).unwrap(), r);
    let odd = "> 2022 01 09 00 01  0.0000000  0  1\nG01  22345079.240\n> 2022 13 09 00 00  0.0000000  0  1\nG03  1.0";
    assert_eq!(
        Record::parse(&h, odd, TimeScale::GPST).err(),
        Some(rinex::observation::record::Error::EpochError)
    );
    let stray = "G01  22345079.240\n> 2022 01 09 00 01  0.0000000  0  1\nG03  1.0";
    assert!(Record::parse(&h, stray, TimeScale::GPST).is_err());
}

#[test]
fn files_give_their_signals_by_kind() {
    let mut r = Record::new();
    r.insert(
        key(30),
        entry(None, &[("G01", "C1C", 11, None), ("R02", "L1C", 8, None), ("R02", "S1C", 40, None)]),
    );
    r.insert(
        key(0),
        entry(None, &[("R02", "C1C", 5, None), ("G01", "L1C", 7, None), ("G01", "C1C", 10, None)]),
    );
    let f = Rinex::new(header(), r);
    assert_eq!(f.constellation(), vec![Constellation::GPS, Constellation::Glonass]);
    let ranges: Vec<_> = f
        .pseudo_range()
        .into_iter()
        .map(|s| (s.epoch, s.flag, s.sv, s.observable, s.value))
        .collect();
    assert_eq!(
        ranges,
        vec![
            (at(0), EpochFlag::Okay, sv("G01"), observable("C1C"), 10),
            (at(0), EpochFlag::Okay, sv("R02"), observable("C1C"), 5),
            (at(30), EpochFlag::Okay, sv("G01"), observable("C1C"), 11),
        ]
    );
    let phases: Vec<_> = f.carrier_phase().into_iter().map(|s| (s.epoch, s.sv, s.value)).collect();
    assert_eq!(phases, vec![(at(0), sv("G01"), 7), (at(30), sv("R02"), 8)]);
    let none = Rinex::new(header(), Record::new());
    assert!(none.constellation().is_empty());
    assert!(none.pseudo_range().is_empty());
}

#[test]
fn the_date_of_compression_comes_from_a_reading_of_the_clock() {
    let read = Epoch::from_reading(Some(3_900_000_000_000_000_000));
    assert_eq!(
        read,
        Some(Epoch { tai_nanos: 3_900_000_000_000_000_000, time_scale: TimeScale::UTC })
    );
    assert_eq!(Epoch::from_reading(None), None);
    assert_eq!(Rinex::date_of(Some(at(30))), at(30));
    assert_eq!(Rinex::date_of(None), Epoch { tai_nanos: 0, time_scale: TimeScale::UTC });
    if let Some(now) = Epoch::now() {
        assert_eq!(now.time_scale, TimeScale::UTC);
        assert!(now.tai_nanos > Epoch::from_str("2020-01-01T00:00:00 UTC").unwrap().tai_nanos);
    }
    for marked in [file().rnx2crnx1(), file().rnx2crnx3()] {
        let crinex = marked.header.obs.unwrap().crinex.unwrap();
        assert_eq!(crinex.date.time_scale, TimeScale::UTC);
    }
}

#[test]
fn the_header_keeps_its_observation_fields() {
    let mut fields = HeaderFields::default().with_time_of_first_obs(at(0));
    fields.clock_offset_applied = true;
    fields.time_of_last_obs = Some(at(90));
    fields.push_code(Constellation::GPS, observable("C1C"));
    let h = Header::default()
        .with_version(Version { major: 2, minor: 11 })
        .with_observation_fields(fields)
        .with_comment("kept");
    let f = Rinex::new(h, record());
    let other = f.with_record(Record::new());
    assert_eq!(other.header, f.header);
    assert_eq!(other.comments, f.comments);
    assert_eq!(other.record.len(), 0);
    assert_eq!(f.clone(), f);
    let marked = f.rnx2crnx1();
    let m = marked.header.obs.as_ref().unwrap();
    let kept = f.header.obs.as_ref().unwrap();
    assert_eq!(m.codes, kept.codes);
    assert!(m.clock_offset_applied);
    assert_eq!(m.time_of_first_obs, Some(at(0)));
    assert_eq!(m.time_of_last_obs, Some(at(90)));
    assert_eq!(marked.header.comments, f.header.comments);
    let mut back = marked.clone();
    assert_eq!(back.header.obs.as_ref().unwrap().crinex, m.crinex);
    back.crnx2rnx_mut();
    assert_eq!(back, f);
    assert_eq!(marked.crnx2rnx(), f);
    let bare = Rinex::new(Header::default(), Record::new());
    let mut same = bare.clone();
    same.crnx2rnx_mut();
    assert_eq!(same, bare);
    assert!(bare.rnx2crnx().header.obs.is_some());
}
