//! Observation data: epoch flags, loss-of-lock flags, signal strength and
//! the record that holds the observations of a file.

pub mod formatting;
pub mod masking;
pub mod merging;
pub mod parsing;
pub mod reading;
pub mod record;
pub mod roundtrip;
pub mod splitting;
pub mod substracting;

use crate::text::trimmed;
use vstd::prelude::*;

verus! {

/// Status of an epoch.
#[derive(Clone, Copy, Debug, PartialEq, Eq, Structural, Hash, PartialOrd, Ord)]
pub enum EpochFlag {
    /// Nothing to report.
    Okay,
    /// Power failure since the previous epoch.
    PowerFailure,
    /// The antenna is being moved.
    AntennaBeingMoved,
    /// New site occupation, end of kinematic data.
    NewSiteOccupation,
    /// Header information follows.
    HeaderInformationFollows,
    /// External event.
    ExternalEvent,
    /// Cycle slip.
    CycleSlip,
}

impl EpochFlag {
    /// Position in the order of declaration, which is also the digit that
    /// stands for the flag in a file.
    pub open spec fn spec_index(&self) -> u8 {
        match *self {
            EpochFlag::Okay => 0u8,
            EpochFlag::PowerFailure => 1u8,
            EpochFlag::AntennaBeingMoved => 2u8,
            EpochFlag::NewSiteOccupation => 3u8,
            EpochFlag::HeaderInformationFollows => 4u8,
            EpochFlag::ExternalEvent => 5u8,
            EpochFlag::CycleSlip => 6u8,
        }
    }

    #[verifier::when_used_as_spec(spec_index)]
    pub fn index(&self) -> (r: u8)
        ensures
            r == self.spec_index(),
            r <= 6,
    {
        match *self {
            EpochFlag::Okay => 0u8,
            EpochFlag::PowerFailure => 1u8,
            EpochFlag::AntennaBeingMoved => 2u8,
            EpochFlag::NewSiteOccupation => 3u8,
            EpochFlag::HeaderInformationFollows => 4u8,
            EpochFlag::ExternalEvent => 5u8,
            EpochFlag::CycleSlip => 6u8,
        }
    }

    /// The flag that a text stands for: one digit from 0 to 6, blanks
    /// around it set aside.
    pub open spec fn of_text(text: Seq<u8>) -> Option<EpochFlag> {
        let t = trimmed(text);
        if t.len() != 1 {
            None
        } else if t[0] == 48 {
            Some(EpochFlag::Okay)
        } else if t[0] == 49 {
            Some(EpochFlag::PowerFailure)
        } else if t[0] == 50 {
            Some(EpochFlag::AntennaBeingMoved)
        } else if t[0] == 51 {
            Some(EpochFlag::NewSiteOccupation)
        } else if t[0] == 52 {
            Some(EpochFlag::HeaderInformationFollows)
        } else if t[0] == 53 {
            Some(EpochFlag::ExternalEvent)
        } else if t[0] == 54 {
            Some(EpochFlag::CycleSlip)
        } else {
            None
        }
    }

    /// Reads a flag from its digit.
    pub fn from_bytes(text: &[u8]) -> (r: Option<Self>)
        ensures
            r == EpochFlag::of_text(text@),
    {
        let t = crate::text::trim(text);
        if t.len() != 1 {
            return None;
        }
        match t[0] {
            48 => Some(EpochFlag::Okay),
            49 => Some(EpochFlag::PowerFailure),
            50 => Some(EpochFlag::AntennaBeingMoved),
            51 => Some(EpochFlag::NewSiteOccupation),
            52 => Some(EpochFlag::HeaderInformationFollows),
            53 => Some(EpochFlag::ExternalEvent),
            54 => Some(EpochFlag::CycleSlip),
            _ => None,
        }
    }

    /// True for the flag that reports nothing.
    pub open spec fn spec_is_ok(&self) -> bool {
        *self == EpochFlag::Okay
    }

    #[verifier::when_used_as_spec(spec_is_ok)]
    pub fn is_ok(&self) -> (r: bool)
        ensures
            r == self.spec_is_ok(),
    {
        matches!(*self, EpochFlag::Okay)
    }

    /// True for the flags whose epochs come with observations; the others
    /// mark events.
    pub open spec fn spec_has_observations(&self) -> bool {
        matches!(*self, EpochFlag::Okay | EpochFlag::PowerFailure | EpochFlag::CycleSlip)
    }

    #[verifier::when_used_as_spec(spec_has_observations)]
    pub fn has_observations(&self) -> (r: bool)
        ensures
            r == self.spec_has_observations(),
    {
        matches!(*self, EpochFlag::Okay | EpochFlag::PowerFailure | EpochFlag::CycleSlip)
    }

    /// True for the events that a line without a date may announce.
    pub open spec fn spec_is_event_marker(&self) -> bool {
        matches!(
            *self,
            EpochFlag::AntennaBeingMoved | EpochFlag::NewSiteOccupation
                | EpochFlag::HeaderInformationFollows | EpochFlag::ExternalEvent
        )
    }

    #[verifier::when_used_as_spec(spec_is_event_marker)]
    pub fn is_event_marker(&self) -> (r: bool)
        ensures
            r == self.spec_is_event_marker(),
    {
        matches!(
            *self,
            EpochFlag::AntennaBeingMoved | EpochFlag::NewSiteOccupation
                | EpochFlag::HeaderInformationFollows | EpochFlag::ExternalEvent
        )
    }
}

impl Default for EpochFlag {
    fn default() -> (r: Self)
        ensures
            r == EpochFlag::Okay,
    {
        EpochFlag::Okay
    }
}

/// Loss-of-lock indication: a set of the bits `LOCK_LOSS`,
/// `HALF_CYCLE_SLIP` and `UNDER_ANTI_SPOOFING`.
#[derive(Clone, Copy, Debug, PartialEq, Eq, Structural, Hash, PartialOrd, Ord)]
pub struct LliFlags {
    /// The bits of the set.
    pub bits: u8,
}

/// Nothing to report, or nothing known.
pub const OK_OR_UNKNOWN: u8 = 0x00;

/// Lock was lost since the previous observation: a cycle slip is possible.
pub const LOCK_LOSS: u8 = 0x01;

/// Half cycle slip.
pub const HALF_CYCLE_SLIP: u8 = 0x02;

/// Observed under anti spoofing.
pub const UNDER_ANTI_SPOOFING: u8 = 0x04;

impl LliFlags {
    pub open spec fn spec_bits(&self) -> u8 {
        self.bits
    }

    /// The bits of the set.
    #[verifier::when_used_as_spec(spec_bits)]
    pub fn bits(&self) -> (r: u8)
        ensures
            r == self.spec_bits(),
    {
        self.bits
    }

    /// The set that `bits` spells, unless a bit of it has no meaning.
    pub fn from_bits(bits: u8) -> (r: Option<Self>)
        ensures
            match r {
                Some(f) => bits <= 7 && f.spec_bits() == bits,
                None => bits > 7,
            },
    {
        if bits <= 7 {
            Some(LliFlags { bits })
        } else {
            None
        }
    }

    /// The empty set.
    pub fn empty() -> (r: Self)
        ensures
            r.spec_bits() == 0,
    {
        LliFlags { bits: 0 }
    }

    /// True when the two sets share a bit.
    pub fn intersects(&self, other: Self) -> (r: bool)
        ensures
            r == (self.spec_bits() & other.spec_bits() != 0),
    {
        self.bits & other.bits != 0
    }

    /// True when nothing is reported.
    pub fn is_ok(&self) -> (r: bool)
        ensures
            r == (self.spec_bits() == 0),
    {
        self.bits == 0
    }
}

/// Signal strength, in the ten classes of the standard.
#[derive(Clone, Copy, Debug, PartialEq, Eq, Structural, Hash, PartialOrd, Ord)]
pub enum SNR {
    /// About 0 dB/Hz.
    DbHz0,
    /// Below 12 dB/Hz.
    DbHz12,
    /// From 12 to 17 dB/Hz.
    DbHz12_17,
    /// From 18 to 23 dB/Hz.
    DbHz18_23,
    /// From 24 to 29 dB/Hz.
    DbHz24_29,
    /// From 30 to 35 dB/Hz.
    DbHz30_35,
    /// From 36 to 41 dB/Hz.
    DbHz36_41,
    /// From 42 to 47 dB/Hz.
    DbHz42_47,
    /// From 48 to 53 dB/Hz.
    DbHz48_53,
    /// 54 dB/Hz and more.
    DbHz54,
}

impl SNR {
    /// Position in the order of declaration, which is also the digit that
    /// stands for the class in a file.
    pub open spec fn spec_index(&self) -> u8 {
        match *self {
            SNR::DbHz0 => 0u8,
            SNR::DbHz12 => 1u8,
            SNR::DbHz12_17 => 2u8,
            SNR::DbHz18_23 => 3u8,
            SNR::DbHz24_29 => 4u8,
            SNR::DbHz30_35 => 5u8,
            SNR::DbHz36_41 => 6u8,
            SNR::DbHz42_47 => 7u8,
            SNR::DbHz48_53 => 8u8,
            SNR::DbHz54 => 9u8,
        }
    }

    #[verifier::when_used_as_spec(spec_index)]
    pub fn index(&self) -> (r: u8)
        ensures
            r == self.spec_index(),
            r <= 9,
    {
        match *self {
            SNR::DbHz0 => 0u8,
            SNR::DbHz12 => 1u8,
            SNR::DbHz12_17 => 2u8,
            SNR::DbHz18_23 => 3u8,
            SNR::DbHz24_29 => 4u8,
            SNR::DbHz30_35 => 5u8,
            SNR::DbHz36_41 => 6u8,
            SNR::DbHz42_47 => 7u8,
            SNR::DbHz48_53 => 8u8,
            SNR::DbHz54 => 9u8,
        }
    }

    /// The class of a digit.
    pub open spec fn of_digit(b: u8) -> Option<SNR> {
        if b == 48 {
            Some(SNR::DbHz0)
        } else if b == 49 {
            Some(SNR::DbHz12)
        } else if b == 50 {
            Some(SNR::DbHz12_17)
        } else if b == 51 {
            Some(SNR::DbHz18_23)
        } else if b == 52 {
            Some(SNR::DbHz24_29)
        } else if b == 53 {
            Some(SNR::DbHz30_35)
        } else if b == 54 {
            Some(SNR::DbHz36_41)
        } else if b == 55 {
            Some(SNR::DbHz42_47)
        } else if b == 56 {
            Some(SNR::DbHz48_53)
        } else if b == 57 {
            Some(SNR::DbHz54)
        } else {
            None
        }
    }

    /// Reads a class from its digit.
    pub fn from_digit(b: u8) -> (r: Option<Self>)
        ensures
            r == SNR::of_digit(b),
    {
        match b {
            48 => Some(SNR::DbHz0),
            49 => Some(SNR::DbHz12),
            50 => Some(SNR::DbHz12_17),
            51 => Some(SNR::DbHz18_23),
            52 => Some(SNR::DbHz24_29),
            53 => Some(SNR::DbHz30_35),
            54 => Some(SNR::DbHz36_41),
            55 => Some(SNR::DbHz42_47),
            56 => Some(SNR::DbHz48_53),
            57 => Some(SNR::DbHz54),
            _ => None,
        }
    }

    /// The strength that the class stands for in comparisons, in dB/Hz:
    /// the upper end of the class.
    pub open spec fn spec_db(&self) -> u8 {
        match *self {
            SNR::DbHz0 => 0u8,
            SNR::DbHz12 => 12u8,
            SNR::DbHz12_17 => 17u8,
            SNR::DbHz18_23 => 23u8,
            SNR::DbHz24_29 => 29u8,
            SNR::DbHz30_35 => 35u8,
            SNR::DbHz36_41 => 41u8,
            SNR::DbHz42_47 => 47u8,
            SNR::DbHz48_53 => 53u8,
            SNR::DbHz54 => 54u8,
        }
    }

    #[verifier::when_used_as_spec(spec_db)]
    pub fn db(&self) -> (r: u8)
        ensures
            r == self.spec_db(),
    {
        match *self {
            SNR::DbHz0 => 0u8,
            SNR::DbHz12 => 12u8,
            SNR::DbHz12_17 => 17u8,
            SNR::DbHz18_23 => 23u8,
            SNR::DbHz24_29 => 29u8,
            SNR::DbHz30_35 => 35u8,
            SNR::DbHz36_41 => 41u8,
            SNR::DbHz42_47 => 47u8,
            SNR::DbHz48_53 => 53u8,
            SNR::DbHz54 => 54u8,
        }
    }

    /// True from 30 dB/Hz on.
    pub fn strong(&self) -> (r: bool)
        ensures
            r == (self.spec_index() >= 5),
    {
        self.index() >= 5
    }

    /// True below 30 dB/Hz.
    pub fn weak(&self) -> (r: bool)
        ensures
            r == (self.spec_index() < 5),
    {
        self.index() < 5
    }

    /// True from 42 dB/Hz on.
    pub fn excellent(&self) -> (r: bool)
        ensures
            r == (self.spec_index() >= 7),
    {
        self.index() >= 7
    }
}

impl Default for SNR {
    fn default() -> (r: Self)
        ensures
            r == SNR::DbHz24_29,
    {
        SNR::DbHz24_29
    }
}

/// One observation.
#[derive(Clone, Copy, Debug, PartialEq, Eq, Structural, Hash)]
pub struct ObservationData {
    /// What was observed, in thousandths of the unit of the observable.
    pub value: i64,
    /// Loss-of-lock indication.
    pub lli: Option<LliFlags>,
    /// Signal strength.
    pub snr: Option<SNR>,
}

impl ObservationData {
    pub fn new(value: i64, lli: Option<LliFlags>, snr: Option<SNR>) -> (r: Self)
        ensures
            r == (ObservationData { value, lli, snr }),
    {
        ObservationData { value, lli, snr }
    }

    /// True when no perturbation is reported: the loss-of-lock
    /// indication, if there is one, is empty, and the signal, if its
    /// strength is told, is strong. A strength that is not told counts as
    /// the class from 24 to 29 dB/Hz, which is not strong.
    pub open spec fn spec_is_ok(&self) -> bool {
        &&& (self.lli matches Some(f) ==> f.spec_bits() == 0)
        &&& (self.snr matches Some(s) && s.spec_index() >= 5)
    }

    #[verifier::when_used_as_spec(spec_is_ok)]
    pub fn is_ok(&self) -> (r: bool)
        ensures
            r == self.spec_is_ok(),
    {
        let lli_ok = match self.lli {
            Some(f) => f.is_ok(),
            None => true,
        };
        let snr_ok = match self.snr {
            Some(s) => s.strong(),
            None => false,
        };
        lli_ok && snr_ok
    }
}

} // verus!
