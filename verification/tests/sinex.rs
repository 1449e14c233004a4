use rinex::sinex::BiasType;
use rinex::sinex::Method;
use rinex::sinex::SinexError;

#[test]
fn method_parsing() {
    for (desc, expected) in [
        ("CLOCK_ANALYSIS", Method::Clock),
        ("IONOSPHERE_ANALYSIS", Method::Ionosphere),
        ("COMBINED_ANALYSIS", Method::ClockIonoCombination),
        ("INTER-FREQUENCY_BIAS_ESTIMATION", Method::InterFrequency),
        ("INTRA-FREQUENCY_BIAS_ESTIMATION", Method::IntraFrequency),
    ] {
        let method = Method::from_str(desc).unwrap();
        assert_eq!(method, expected);
    }
}

#[test]
fn method_and_bias_type_go_by_exact_names() {
    assert_eq!(Method::from_str("clock_analysis"), Err(SinexError::UnknownMethod));
    assert_eq!(Method::from_str(""), Err(SinexError::UnknownMethod));
    assert_eq!(BiasType::from_str("DSB"), Ok(BiasType::DSB));
    assert_eq!(BiasType::from_str("ISB"), Ok(BiasType::ISB));
    assert_eq!(BiasType::from_str("OSB"), Ok(BiasType::OSB));
    assert_eq!(BiasType::from_str("osb"), Err(SinexError::UnknownBiasType));
    assert_eq!(BiasType::from_str("OSBX"), Err(SinexError::UnknownBiasType));
}
