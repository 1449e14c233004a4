//! GNSS constellations and satellite vehicles.
//!
//! The types of this module hold as plain values what `gnss_rs` tells of a
//! constellation or a vehicle; reading them from text is left to `gnss_rs`.

use crate::has_part;
use crate::text::all_ascii;
use crate::text::digits_of;
use crate::text::is_ascii_bytes;
use crate::text::pad_left;
use crate::text::push_number;
use crate::text::trimmed;
use crate::text::unsigned_value;
use vstd::prelude::*;
use vstd::string::StringSliceAdditionalSpecFns;

verus! {

/// `gnss_rs::sv::ParsingError`: why `gnss_rs` reads no vehicle in a
/// text. Nothing is said of what it holds.
#[verifier::external_type_specification]
#[verifier::external_body]
pub struct ExSvParsingError(gnss_rs::sv::ParsingError);

/// `gnss_rs::constellation::ParsingError`: why `gnss_rs` reads no
/// constellation in a text. Nothing is said of what it holds.
#[verifier::external_type_specification]
#[verifier::external_body]
pub struct ExConstellationParsingError(gnss_rs::constellation::ParsingError);

/// GNSS constellations, in the order in which `gnss_rs` declares them.
#[derive(Clone, Copy, Debug, PartialEq, Eq, Structural, Hash, PartialOrd, Ord)]
pub enum Constellation {
    GPS,
    Glonass,
    BeiDou,
    QZSS,
    Galileo,
    IRNSS,
    WAAS,
    EGNOS,
    MSAS,
    GAGAN,
    BDSBAS,
    KASS,
    SDCM,
    ASBAS,
    SPAN,
    /// Augmentation vehicle of no identified system.
    SBAS,
    AusNZ,
    GBAS,
    NSAS,
    ASAL,
    /// Several constellations at once, as a file header may declare.
    Mixed,
}

/// A constellation or vehicle description that `gnss_rs` does not accept.
#[derive(Clone, Copy, Debug, PartialEq, Eq, Structural)]
pub enum GnssError {
    /// The text names no constellation.
    Constellation,
    /// The text names no vehicle.
    Vehicle,
}

/// The lower case of a letter; any other byte as it is.
pub open spec fn lower(b: u8) -> u8 {
    if 65 <= b <= 90 {
        (b + 32) as u8
    } else {
        b
    }
}

/// A text in lower case.
pub open spec fn lowered(s: Seq<u8>) -> Seq<u8> {
    Seq::new(s.len(), |i: int| lower(s[i]))
}

/// The letters and names of the constellations, in lower case: `g`,
/// `gps`, `c`, `bds`, `e`, `gal`, `r`, `glo`, `j`, `qzss`, `i`, `irnss`,
/// `s`, `sbas`, `m`, `mixed`, then the names of the augmentation
/// systems.
pub open spec fn constellation_names() -> Seq<(Seq<u8>, Constellation)> {
    seq![
        (seq![103u8], Constellation::GPS),
        (seq![103u8, 112, 115], Constellation::GPS),
        (seq![99u8], Constellation::BeiDou),
        (seq![98u8, 100, 115], Constellation::BeiDou),
        (seq![101u8], Constellation::Galileo),
        (seq![103u8, 97, 108], Constellation::Galileo),
        (seq![114u8], Constellation::Glonass),
        (seq![103u8, 108, 111], Constellation::Glonass),
        (seq![106u8], Constellation::QZSS),
        (seq![113u8, 122, 115, 115], Constellation::QZSS),
        (seq![105u8], Constellation::IRNSS),
        (seq![105u8, 114, 110, 115, 115], Constellation::IRNSS),
        (seq![115u8], Constellation::SBAS),
        (seq![115u8, 98, 97, 115], Constellation::SBAS),
        (seq![109u8], Constellation::Mixed),
        (seq![109u8, 105, 120, 101, 100], Constellation::Mixed),
        (seq![97u8, 117, 115, 110, 122], Constellation::AusNZ),
        (seq![101u8, 103, 110, 111, 115], Constellation::EGNOS),
        (seq![119u8, 97, 97, 115], Constellation::WAAS),
        (seq![107u8, 97, 115, 115], Constellation::KASS),
        (seq![103u8, 97, 103, 97, 110], Constellation::GAGAN),
        (seq![97u8, 115, 98, 97, 115], Constellation::ASBAS),
        (seq![110u8, 115, 97, 115], Constellation::NSAS),
        (seq![97u8, 115, 97, 108], Constellation::ASAL),
        (seq![109u8, 115, 97, 115], Constellation::MSAS),
        (seq![115u8, 112, 97, 110], Constellation::SPAN),
        (seq![103u8, 98, 97, 115], Constellation::GBAS),
        (seq![115u8, 100, 99, 109], Constellation::SDCM),
        (seq![98u8, 100, 115, 98, 97, 115], Constellation::BDSBAS),
    ]
}

/// What a longer description may hold of a constellation, in the order
/// in which it is looked for: `gps`, `glonass`, `beidou`, `galileo`,
/// `qzss`, `sbas`, `geo`, `irnss`, `navic`, `mix`.
pub open spec fn constellation_hints() -> Seq<(Seq<u8>, Constellation)> {
    seq![
        (seq![103u8, 112, 115], Constellation::GPS),
        (seq![103u8, 108, 111, 110, 97, 115, 115], Constellation::Glonass),
        (seq![98u8, 101, 105, 100, 111, 117], Constellation::BeiDou),
        (seq![103u8, 97, 108, 105, 108, 101, 111], Constellation::Galileo),
        (seq![113u8, 122, 115, 115], Constellation::QZSS),
        (seq![115u8, 98, 97, 115], Constellation::SBAS),
        (seq![103u8, 101, 111], Constellation::SBAS),
        (seq![105u8, 114, 110, 115, 115], Constellation::IRNSS),
        (seq![110u8, 97, 118, 105, 99], Constellation::IRNSS),
        (seq![109u8, 105, 120], Constellation::Mixed),
    ]
}

/// The constellation of the first of the first `n` names of a table
/// that a text is.
pub open spec fn named(table: Seq<(Seq<u8>, Constellation)>, s: Seq<u8>, n: nat) -> Option<
    Constellation,
>
    decreases n,
{
    if n == 0 {
        None
    } else {
        match named(table, s, (n - 1) as nat) {
            Some(c) => Some(c),
            None => if table[n - 1].0 == s {
                Some(table[n - 1].1)
            } else {
                None
            },
        }
    }
}

/// The constellation of the first of the first `n` hints of a table
/// that stand in a text.
pub open spec fn hinted(table: Seq<(Seq<u8>, Constellation)>, s: Seq<u8>, n: nat) -> Option<
    Constellation,
>
    decreases n,
{
    if n == 0 {
        None
    } else {
        match hinted(table, s, (n - 1) as nat) {
            Some(c) => Some(c),
            None => if has_part(s, table[n - 1].0) {
                Some(table[n - 1].1)
            } else {
                None
            },
        }
    }
}

/// The constellation that a text names, as its position in the order
/// of declaration: blanks around the text and the case of its letters
/// set aside, the text is a letter or a name of a constellation, or
/// else holds a hint of one.
pub open spec fn constellation_text_value(text: Seq<u8>) -> Option<u8> {
    let s = lowered(trimmed(text));
    match named(constellation_names(), s, constellation_names().len()) {
        Some(c) => Some(c.index() as u8),
        None => match hinted(constellation_hints(), s, constellation_hints().len()) {
            Some(c) => Some(c.index() as u8),
            None => None,
        },
    }
}

/// What `gnss_rs::sv::SV::from_str` makes of an ASCII text: the position
/// of the constellation in declaration order, and the PRN.
pub uninterp spec fn sv_text_value(text: Seq<u8>) -> Option<(u8, u8)>;

/// `gnss_rs::constellation::Constellation::from_str`. The text is ASCII,
/// hence valid UTF-8. The outside function trims the text, puts it in
/// lower case, matches it against the letters and names, and then looks
/// for the hints in their order. The constellation comes back as its
/// position in the order of declaration, which stays below 21.
#[verifier::external_body]
fn constellation_from_text(text: &[u8]) -> (r: Result<
    u8,
    gnss_rs::constellation::ParsingError,
>)
    requires
        all_ascii(text@),
    ensures
        match r {
            Ok(c) => constellation_text_value(text@) == Some(c) && c <= 20,
            Err(_) => constellation_text_value(text@) is None,
        },
{
    let parsed: Result<gnss_rs::constellation::Constellation, _> = std::str::FromStr::from_str(
        std::str::from_utf8(text).unwrap_or(""),
    );
    parsed.map(|c| c as u8)
}

/// The constellation that a letter stands for at the head of a vehicle
/// identifier, in either case: GPS, Glonass, Galileo, BeiDou, QZSS,
/// IRNSS, or several at once. The letter of the augmentation systems is
/// not among them.
pub open spec fn plain_letter(b: u8) -> Option<Constellation> {
    if b == 71 || b == 103 {
        Some(Constellation::GPS)
    } else if b == 82 || b == 114 {
        Some(Constellation::Glonass)
    } else if b == 69 || b == 101 {
        Some(Constellation::Galileo)
    } else if b == 67 || b == 99 {
        Some(Constellation::BeiDou)
    } else if b == 74 || b == 106 {
        Some(Constellation::QZSS)
    } else if b == 73 || b == 105 {
        Some(Constellation::IRNSS)
    } else if b == 77 || b == 109 {
        Some(Constellation::Mixed)
    } else {
        None
    }
}

/// The vehicle that a plain identifier names: one of these letters,
/// then a PRN below 256 with blanks around it set aside.
pub open spec fn plain_vehicle(text: Seq<u8>) -> Option<SV> {
    if text.len() >= 1 {
        match (plain_letter(text[0]), unsigned_value(trimmed(text.skip(1)))) {
            (Some(c), Some(n)) => if n <= 255 {
                Some(SV { constellation: c, prn: n as u8 })
            } else {
                None
            },
            _ => None,
        }
    } else {
        None
    }
}

/// `gnss_rs::sv::SV::from_str`, which slices its argument after the first
/// byte: the text is not empty and is ASCII. The constellation comes back
/// as its position in the order of declaration, which stays below 21.
/// The outside function reads the constellation in the first letter and
/// the PRN in the rest, and looks a vehicle up in its table of
/// augmentation vehicles only under the letter of these systems: a
/// plain identifier gives its letter's constellation and its PRN.
#[verifier::external_body]
fn sv_from_text(text: &[u8]) -> (r: Result<(u8, u8), gnss_rs::sv::ParsingError>)
    requires
        text@.len() >= 1,
        all_ascii(text@),
    ensures
        match r {
            Ok(v) => sv_text_value(text@) == Some(v) && v.0 <= 20 && (plain_vehicle(text@)
                matches Some(sv) ==> v.0 == sv.constellation.index() && v.1 == sv.prn),
            Err(_) => sv_text_value(text@) is None && plain_vehicle(text@) is None,
        },
{
    let parsed: Result<gnss_rs::sv::SV, _> = std::str::FromStr::from_str(
        std::str::from_utf8(text).unwrap_or("?"),
    );
    parsed.map(|sv| (sv.constellation as u8, sv.prn))
}

impl Constellation {
    /// Position in the order of declaration.
    pub open spec fn index(self) -> int {
        match self {
            Constellation::GPS => 0,
            Constellation::Glonass => 1,
            Constellation::BeiDou => 2,
            Constellation::QZSS => 3,
            Constellation::Galileo => 4,
            Constellation::IRNSS => 5,
            Constellation::WAAS => 6,
            Constellation::EGNOS => 7,
            Constellation::MSAS => 8,
            Constellation::GAGAN => 9,
            Constellation::BDSBAS => 10,
            Constellation::KASS => 11,
            Constellation::SDCM => 12,
            Constellation::ASBAS => 13,
            Constellation::SPAN => 14,
            Constellation::SBAS => 15,
            Constellation::AusNZ => 16,
            Constellation::GBAS => 17,
            Constellation::NSAS => 18,
            Constellation::ASAL => 19,
            Constellation::Mixed => 20,
        }
    }

    /// The constellation at a position of the order of declaration.
    pub open spec fn at(i: int) -> Constellation {
        if i == 0 {
            Constellation::GPS
        } else if i == 1 {
            Constellation::Glonass
        } else if i == 2 {
            Constellation::BeiDou
        } else if i == 3 {
            Constellation::QZSS
        } else if i == 4 {
            Constellation::Galileo
        } else if i == 5 {
            Constellation::IRNSS
        } else if i == 6 {
            Constellation::WAAS
        } else if i == 7 {
            Constellation::EGNOS
        } else if i == 8 {
            Constellation::MSAS
        } else if i == 9 {
            Constellation::GAGAN
        } else if i == 10 {
            Constellation::BDSBAS
        } else if i == 11 {
            Constellation::KASS
        } else if i == 12 {
            Constellation::SDCM
        } else if i == 13 {
            Constellation::ASBAS
        } else if i == 14 {
            Constellation::SPAN
        } else if i == 15 {
            Constellation::SBAS
        } else if i == 16 {
            Constellation::AusNZ
        } else if i == 17 {
            Constellation::GBAS
        } else if i == 18 {
            Constellation::NSAS
        } else if i == 19 {
            Constellation::ASAL
        } else {
            Constellation::Mixed
        }
    }

    pub fn to_index(self) -> (r: u8)
        ensures
            r == self.index(),
            r <= 20,
    {
        match self {
            Constellation::GPS => 0,
            Constellation::Glonass => 1,
            Constellation::BeiDou => 2,
            Constellation::QZSS => 3,
            Constellation::Galileo => 4,
            Constellation::IRNSS => 5,
            Constellation::WAAS => 6,
            Constellation::EGNOS => 7,
            Constellation::MSAS => 8,
            Constellation::GAGAN => 9,
            Constellation::BDSBAS => 10,
            Constellation::KASS => 11,
            Constellation::SDCM => 12,
            Constellation::ASBAS => 13,
            Constellation::SPAN => 14,
            Constellation::SBAS => 15,
            Constellation::AusNZ => 16,
            Constellation::GBAS => 17,
            Constellation::NSAS => 18,
            Constellation::ASAL => 19,
            Constellation::Mixed => 20,
        }
    }

    pub fn from_index(i: u8) -> (r: Self)
        requires
            i <= 20,
        ensures
            r == Constellation::at(i as int),
            r.index() == i,
    {
        match i {
            0 => Constellation::GPS,
            1 => Constellation::Glonass,
            2 => Constellation::BeiDou,
            3 => Constellation::QZSS,
            4 => Constellation::Galileo,
            5 => Constellation::IRNSS,
            6 => Constellation::WAAS,
            7 => Constellation::EGNOS,
            8 => Constellation::MSAS,
            9 => Constellation::GAGAN,
            10 => Constellation::BDSBAS,
            11 => Constellation::KASS,
            12 => Constellation::SDCM,
            13 => Constellation::ASBAS,
            14 => Constellation::SPAN,
            15 => Constellation::SBAS,
            16 => Constellation::AusNZ,
            17 => Constellation::GBAS,
            18 => Constellation::NSAS,
            19 => Constellation::ASAL,
            _ => Constellation::Mixed,
        }
    }

    /// True for the augmentation systems, the generic `SBAS` included.
    pub open spec fn spec_is_sbas(&self) -> bool {
        matches!(
            *self,
            Constellation::WAAS | Constellation::KASS | Constellation::BDSBAS
                | Constellation::EGNOS | Constellation::GAGAN | Constellation::SDCM
                | Constellation::ASBAS | Constellation::SPAN | Constellation::MSAS
                | Constellation::NSAS | Constellation::ASAL | Constellation::AusNZ
                | Constellation::SBAS
        )
    }

    #[verifier::when_used_as_spec(spec_is_sbas)]
    pub fn is_sbas(&self) -> (r: bool)
        ensures
            r == self.spec_is_sbas(),
    {
        matches!(
            *self,
            Constellation::WAAS | Constellation::KASS | Constellation::BDSBAS
                | Constellation::EGNOS | Constellation::GAGAN | Constellation::SDCM
                | Constellation::ASBAS | Constellation::SPAN | Constellation::MSAS
                | Constellation::NSAS | Constellation::ASAL | Constellation::AusNZ
                | Constellation::SBAS
        )
    }

    /// The table of observables that serves this constellation: every
    /// augmentation system shares the one of the generic `SBAS`.
    pub open spec fn spec_table_key(&self) -> Constellation {
        if self.spec_is_sbas() {
            Constellation::SBAS
        } else {
            *self
        }
    }

    #[verifier::when_used_as_spec(spec_table_key)]
    pub fn table_key(&self) -> (r: Constellation)
        ensures
            r == self.spec_table_key(),
    {
        if self.is_sbas() {
            Constellation::SBAS
        } else {
            *self
        }
    }

    /// The letter that stands for the constellation in a vehicle
    /// identifier; `GBAS` has none.
    pub open spec fn spec_letter(&self) -> Option<u8> {
        match *self {
            Constellation::GPS => Some(71u8),
            Constellation::Glonass => Some(82u8),
            Constellation::Galileo => Some(69u8),
            Constellation::BeiDou => Some(67u8),
            Constellation::QZSS => Some(74u8),
            Constellation::IRNSS => Some(73u8),
            Constellation::Mixed => Some(77u8),
            Constellation::GBAS => None,
            _ => Some(83u8),
        }
    }

    #[verifier::when_used_as_spec(spec_letter)]
    pub fn letter(&self) -> (r: Option<u8>)
        ensures
            r == self.spec_letter(),
    {
        match *self {
            Constellation::GPS => Some(71u8),
            Constellation::Glonass => Some(82u8),
            Constellation::Galileo => Some(69u8),
            Constellation::BeiDou => Some(67u8),
            Constellation::QZSS => Some(74u8),
            Constellation::IRNSS => Some(73u8),
            Constellation::Mixed => Some(77u8),
            Constellation::GBAS => None,
            _ => Some(83u8),
        }
    }

    /// The constellation that an ASCII text names.
    pub open spec fn of_text(text: Seq<u8>) -> Option<Constellation> {
        match constellation_text_value(text) {
            Some(c) => Some(Constellation::at(c as int)),
            None => None,
        }
    }

    /// Reads a constellation from its letter or its name.
    pub fn from_bytes(text: &[u8]) -> (r: Result<Self, GnssError>)
        requires
            all_ascii(text@),
        ensures
            match r {
                Ok(c) => Constellation::of_text(text@) == Some(c),
                Err(e) => Constellation::of_text(text@) is None && e == GnssError::Constellation,
            },
    {
        match constellation_from_text(text) {
            Ok(c) => Ok(Constellation::from_index(c)),
            Err(_) => Err(GnssError::Constellation),
        }
    }
}

impl Constellation {
    /// Reads a constellation from its letter or its name, which is ASCII.
    pub fn from_str(text: &str) -> (r: Result<Self, GnssError>)
        ensures
            match r {
                Ok(c) => all_ascii(text.spec_bytes()) && Constellation::of_text(text.spec_bytes())
                    == Some(c),
                Err(e) => e == GnssError::Constellation && (!all_ascii(text.spec_bytes())
                    || Constellation::of_text(text.spec_bytes()) is None),
            },
    {
        let bytes = text.as_bytes();
        if is_ascii_bytes(bytes) {
            Constellation::from_bytes(bytes)
        } else {
            Err(GnssError::Constellation)
        }
    }
}

impl Default for Constellation {
    fn default() -> (r: Self)
        ensures
            r == Constellation::GPS,
    {
        Constellation::GPS
    }
}

/// A satellite vehicle: its constellation and its PRN number.
#[derive(Clone, Copy, Debug, PartialEq, Eq, Structural, Hash, PartialOrd, Ord)]
pub struct SV {
    /// Constellation that the vehicle belongs to.
    pub constellation: Constellation,
    /// PRN number of the vehicle.
    pub prn: u8,
}

impl SV {
    pub fn new(constellation: Constellation, prn: u8) -> (r: Self)
        ensures
            r.constellation == constellation,
            r.prn == prn,
    {
        SV { constellation, prn }
    }

    /// Vehicles are ordered by constellation, then by PRN.
    pub open spec fn rank(self) -> int {
        self.constellation.index() * 256 + self.prn as int
    }

    /// The vehicle that an ASCII text names: the vehicle of a plain
    /// identifier, else what `gnss_rs` reads.
    pub open spec fn of_text(text: Seq<u8>) -> Option<SV> {
        match plain_vehicle(text) {
            Some(sv) => Some(sv),
            None => match sv_text_value(text) {
                Some(v) => Some(SV { constellation: Constellation::at(v.0 as int), prn: v.1 }),
                None => None,
            },
        }
    }

    /// Reads a vehicle from its identifier: a constellation letter and a PRN.
    pub fn from_bytes(text: &[u8]) -> (r: Result<Self, GnssError>)
        requires
            text@.len() >= 1,
            all_ascii(text@),
        ensures
            match r {
                Ok(sv) => SV::of_text(text@) == Some(sv),
                Err(e) => SV::of_text(text@) is None && e == GnssError::Vehicle,
            },
    {
        match sv_from_text(text) {
            Ok(v) => Ok(SV { constellation: Constellation::from_index(v.0), prn: v.1 }),
            Err(_) => Err(GnssError::Vehicle),
        }
    }

    /// Reads a vehicle from its identifier, which is ASCII and not empty.
    pub fn from_str(text: &str) -> (r: Result<Self, GnssError>)
        ensures
            match r {
                Ok(sv) => text.spec_bytes().len() >= 1 && all_ascii(text.spec_bytes())
                    && SV::of_text(text.spec_bytes()) == Some(sv),
                Err(e) => e == GnssError::Vehicle && (text.spec_bytes().len() == 0 || !all_ascii(
                    text.spec_bytes(),
                ) || SV::of_text(text.spec_bytes()) is None),
            },
    {
        let bytes = text.as_bytes();
        if bytes.len() >= 1 && is_ascii_bytes(bytes) {
            SV::from_bytes(bytes)
        } else {
            Err(GnssError::Vehicle)
        }
    }

    /// The identifier of the vehicle: the letter of its constellation and
    /// its PRN on two digits at least. A vehicle of `GBAS` has none.
    pub open spec fn spec_identifier(&self) -> Option<Seq<u8>> {
        match self.constellation.spec_letter() {
            Some(l) => Some(seq![l] + pad_left(digits_of(self.prn as nat), 2, 48)),
            None => None,
        }
    }

    /// Appends the identifier of the vehicle, and tells whether it has one.
    pub fn push_identifier(&self, out: &mut Vec<u8>) -> (r: bool)
        ensures
            r == self.spec_identifier() is Some,
            match self.spec_identifier() {
                Some(id) => final(out)@ == old(out)@ + id,
                None => final(out)@ == old(out)@,
            },
            all_ascii(old(out)@) ==> all_ascii(final(out)@),
    {
        match self.constellation.letter() {
            Some(l) => {
                out.push(l);
                push_number(out, self.prn as u64, 2, 48);
                assert(final(out)@ =~= old(out)@ + self.spec_identifier()->0);
                true
            },
            None => false,
        }
    }
}

} // verus!
