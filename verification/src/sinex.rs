//! Bias solutions of SINEX files: how they were estimated, and of what
//! kind they are.

use crate::text::same_bytes;
use vstd::prelude::*;
use vstd::string::StringSliceAdditionalSpecFns;

verus! {

/// A description that names no method or no kind of bias.
#[derive(Clone, Copy, Debug, PartialEq, Eq, Structural)]
pub enum SinexError {
    /// The text names no method.
    UnknownMethod,
    /// The text names no kind of bias.
    UnknownBiasType,
}

/// How biases were estimated.
#[derive(Clone, Copy, Debug, PartialEq, Eq, Structural)]
pub enum Method {
    /// Differences between frequencies, with a model of the ionosphere.
    IntraFrequency,
    /// Differences between observables of different frequencies, with a
    /// model of the ionosphere.
    InterFrequency,
    /// Analysis of the clocks.
    Clock,
    /// Geometry-free analysis of the ionosphere.
    Ionosphere,
    /// Analysis of the clocks and of the ionosphere combined.
    ClockIonoCombination,
}

/// Kinds of bias.
#[derive(Clone, Copy, Debug, PartialEq, Eq, Structural)]
pub enum BiasType {
    /// Differential signal bias.
    DSB,
    /// Ionosphere-free signal bias.
    ISB,
    /// Observable-specific signal bias.
    OSB,
}

/// `CLOCK_ANALYSIS`
pub open spec fn clock_analysis() -> Seq<u8> {
    seq![67u8, 76, 79, 67, 75, 95, 65, 78, 65, 76, 89, 83, 73, 83]
}

/// `INTRA-FREQUENCY_BIAS_ESTIMATION`
pub open spec fn intra_frequency() -> Seq<u8> {
    seq![
        73u8, 78, 84, 82, 65, 45, 70, 82, 69, 81, 85, 69, 78, 67, 89, 95, 66, 73, 65, 83, 95, 69,
        83, 84, 73, 77, 65, 84, 73, 79, 78,
    ]
}

/// `INTER-FREQUENCY_BIAS_ESTIMATION`
pub open spec fn inter_frequency() -> Seq<u8> {
    intra_frequency().update(3, 69u8).update(4, 82u8)
}

/// `IONOSPHERE_ANALYSIS`
pub open spec fn ionosphere_analysis() -> Seq<u8> {
    seq![73u8, 79, 78, 79, 83, 80, 72, 69, 82, 69, 95, 65, 78, 65, 76, 89, 83, 73, 83]
}

/// `COMBINED_ANALYSIS`
pub open spec fn combined_analysis() -> Seq<u8> {
    seq![67u8, 79, 77, 66, 73, 78, 69, 68, 95, 65, 78, 65, 76, 89, 83, 73, 83]
}

/// The method that a text names.
pub open spec fn method_of_text(text: Seq<u8>) -> Option<Method> {
    if text == clock_analysis() {
        Some(Method::Clock)
    } else if text == intra_frequency() {
        Some(Method::IntraFrequency)
    } else if text == inter_frequency() {
        Some(Method::InterFrequency)
    } else if text == ionosphere_analysis() {
        Some(Method::Ionosphere)
    } else if text == combined_analysis() {
        Some(Method::ClockIonoCombination)
    } else {
        None
    }
}

/// The kind of bias that a text names: `DSB`, `ISB` or `OSB`.
pub open spec fn bias_type_of_text(text: Seq<u8>) -> Option<BiasType> {
    if text == seq![68u8, 83, 66] {
        Some(BiasType::DSB)
    } else if text == seq![73u8, 83, 66] {
        Some(BiasType::ISB)
    } else if text == seq![79u8, 83, 66] {
        Some(BiasType::OSB)
    } else {
        None
    }
}

impl Method {
    /// Reads a method from its name.
    pub fn from_bytes(text: &[u8]) -> (r: Result<Self, SinexError>)
        ensures
            match r {
                Ok(m) => method_of_text(text@) == Some(m),
                Err(e) => method_of_text(text@) is None && e == SinexError::UnknownMethod,
            },
    {
        let clock: [u8; 14] = [67, 76, 79, 67, 75, 95, 65, 78, 65, 76, 89, 83, 73, 83];
        let intra: [u8; 31] = [
            73, 78, 84, 82, 65, 45, 70, 82, 69, 81, 85, 69, 78, 67, 89, 95, 66, 73, 65, 83, 95, 69,
            83, 84, 73, 77, 65, 84, 73, 79, 78,
        ];
        let inter: [u8; 31] = [
            73, 78, 84, 69, 82, 45, 70, 82, 69, 81, 85, 69, 78, 67, 89, 95, 66, 73, 65, 83, 95, 69,
            83, 84, 73, 77, 65, 84, 73, 79, 78,
        ];
        let iono: [u8; 19] = [
            73, 79, 78, 79, 83, 80, 72, 69, 82, 69, 95, 65, 78, 65, 76, 89, 83, 73, 83,
        ];
        let combined: [u8; 17] = [67, 79, 77, 66, 73, 78, 69, 68, 95, 65, 78, 65, 76, 89, 83, 73, 83];
        assert(clock@ =~= clock_analysis());
        assert(intra@ =~= intra_frequency());
        assert(inter@ =~= inter_frequency());
        assert(iono@ =~= ionosphere_analysis());
        assert(combined@ =~= combined_analysis());
        if same_bytes(text, clock.as_slice()) {
            Ok(Method::Clock)
        } else if same_bytes(text, intra.as_slice()) {
            Ok(Method::IntraFrequency)
        } else if same_bytes(text, inter.as_slice()) {
            Ok(Method::InterFrequency)
        } else if same_bytes(text, iono.as_slice()) {
            Ok(Method::Ionosphere)
        } else if same_bytes(text, combined.as_slice()) {
            Ok(Method::ClockIonoCombination)
        } else {
            Err(SinexError::UnknownMethod)
        }
    }

    /// Reads a method from its name.
    pub fn from_str(text: &str) -> (r: Result<Self, SinexError>)
        ensures
            match r {
                Ok(m) => method_of_text(text.spec_bytes()) == Some(m),
                Err(e) => method_of_text(text.spec_bytes()) is None && e
                    == SinexError::UnknownMethod,
            },
    {
        Method::from_bytes(text.as_bytes())
    }
}

impl BiasType {
    /// Reads a kind of bias from its name.
    pub fn from_bytes(text: &[u8]) -> (r: Result<Self, SinexError>)
        ensures
            match r {
                Ok(b) => bias_type_of_text(text@) == Some(b),
                Err(e) => bias_type_of_text(text@) is None && e == SinexError::UnknownBiasType,
            },
    {
        if text.len() == 3 && text[1] == 83 && text[2] == 66 {
            let first = text[0];
            assert(text@ =~= seq![first, 83u8, 66u8]);
            if first == 68 {
                return Ok(BiasType::DSB);
            } else if first == 73 {
                return Ok(BiasType::ISB);
            } else if first == 79 {
                return Ok(BiasType::OSB);
            }
        }
        Err(SinexError::UnknownBiasType)
    }

    /// Reads a kind of bias from its name.
    pub fn from_str(text: &str) -> (r: Result<Self, SinexError>)
        ensures
            match r {
                Ok(b) => bias_type_of_text(text.spec_bytes()) == Some(b),
                Err(e) => bias_type_of_text(text.spec_bytes()) is None && e
                    == SinexError::UnknownBiasType,
            },
    {
        BiasType::from_bytes(text.as_bytes())
    }
}

} // verus!
