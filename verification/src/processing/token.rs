//! What a mask aims at.

use crate::constellation::Constellation;
use crate::constellation::SV;
use crate::epoch::Duration;
use crate::epoch::Epoch;
use crate::processing::Error;
use crate::text::all_ascii;
use crate::text::ascii_chars;
use crate::text::decimal_value;
use crate::text::fits_i64;
use crate::text::is_ascii_bytes;
use crate::text::lemma_ascii_split;
use crate::text::lemma_ascii_trimmed;
use crate::text::parse_decimal;
use crate::text::push_all;
use crate::text::slices_view;
use crate::text::split;
use crate::text::split_on;
use crate::text::string_from_ascii;
use crate::text::trim;
use crate::text::trimmed;
use crate::text::unsigned_value;
use vstd::prelude::*;

verus! {

/// Reference point of a site.
#[derive(Clone, Copy, Debug, PartialEq, Eq, Structural, Hash)]
pub enum DomesTrackingPoint {
    /// A monument: pole, pillar, geodetic marker.
    Monument,
    /// The reference point of an instrument.
    Instrument,
}

/// Identification number of a site.
#[derive(Clone, Copy, Debug, PartialEq, Eq, Structural, Hash)]
pub struct DOMES {
    /// Area or country, on three digits.
    pub area: u16,
    /// Site within the area, on two digits.
    pub site: u8,
    /// Reference point.
    pub point: DomesTrackingPoint,
    /// Sequential number, on three digits.
    pub sequential: u16,
}

/// Launch number of a vehicle.
#[derive(Debug, PartialEq, Eq)]
pub struct COSPAR {
    /// Year of the launch.
    pub year: u16,
    /// Number of the launch within its year.
    pub launch: u16,
    /// Letters that tell the piece of the launch.
    pub code: String,
}

/// A launch number as contracts see it.
pub struct CosparView {
    pub year: u16,
    pub launch: u16,
    pub code: Seq<char>,
}

impl View for COSPAR {
    type V = CosparView;

    open spec fn view(&self) -> CosparView {
        CosparView { year: self.year, launch: self.launch, code: self.code@ }
    }
}

/// What a site number of nine characters tells: the area in three
/// characters, the site in two, `M` for a monument or `S` for an
/// instrument, and the sequential number in three. Each number is
/// digits, which a `+` may precede.
pub open spec fn domes_text_value(text: Seq<u8>) -> Option<(u16, u8, bool, u16)> {
    if text.len() == 9 && (text[5] == 77 || text[5] == 83) {
        match (
            unsigned_value(text.subrange(0, 3)),
            unsigned_value(text.subrange(3, 5)),
            unsigned_value(text.subrange(6, 9)),
        ) {
            (Some(area), Some(site), Some(sequential)) => if area <= 65535 && site <= 255
                && sequential <= 65535 {
                Some((area as u16, site as u8, text[5] == 77, sequential as u16))
            } else {
                None
            },
            _ => None,
        }
    } else {
        None
    }
}

/// `gnss_rs::domes::DOMES::from_str`, which slices its argument by
/// bytes: the text is ASCII. The outside function wants nine
/// characters, reads the point in the sixth and the three numbers with
/// the integer reader of the standard library.
#[verifier::external_body]
fn domes_from_text(text: &[u8]) -> (r: Option<(u16, u8, bool, u16)>)
    requires
        all_ascii(text@),
    ensures
        r == domes_text_value(text@),
{
    let parsed: Result<gnss_rs::domes::DOMES, _> = std::str::FromStr::from_str(
        std::str::from_utf8(text).unwrap_or(""),
    );
    parsed.ok().map(
        |d|
            (
                d.area,
                d.site,
                matches!(d.point, gnss_rs::domes::TrackingPoint::Monument),
                d.sequential,
            ),
    )
}

impl DOMES {
    /// The site that an ASCII text names.
    pub open spec fn of_text(text: Seq<u8>) -> Option<DOMES> {
        if all_ascii(text) {
            match domes_text_value(text) {
                Some(v) => Some(
                    DOMES {
                        area: v.0,
                        site: v.1,
                        point: if v.2 {
                            DomesTrackingPoint::Monument
                        } else {
                            DomesTrackingPoint::Instrument
                        },
                        sequential: v.3,
                    },
                ),
                None => None,
            }
        } else {
            None
        }
    }

    /// Reads a site from its number, such as `10002M006`.
    pub fn from_bytes(text: &[u8]) -> (r: Option<Self>)
        ensures
            r == DOMES::of_text(text@),
    {
        if !is_ascii_bytes(text) {
            return None;
        }
        match domes_from_text(text) {
            Some(v) => Some(
                DOMES {
                    area: v.0,
                    site: v.1,
                    point: if v.2 {
                        DomesTrackingPoint::Monument
                    } else {
                        DomesTrackingPoint::Instrument
                    },
                    sequential: v.3,
                },
            ),
            None => None,
        }
    }
}

/// What a mask aims at.
#[derive(Debug, PartialEq)]
pub enum MaskToken {
    /// An instant.
    Epoch(Epoch),
    /// A span of time.
    Duration(Duration),
    /// An elevation angle, in thousandths of a degree.
    Elevation(i64),
    /// An azimuth angle, in thousandths of a degree.
    Azimuth(i64),
    /// Signal frequencies, in thousandths of a hertz.
    Frequencies(Vec<i64>),
    /// A signal strength, in thousandths of a dB.
    SNR(i64),
    /// Vehicles.
    SV(Vec<SV>),
    /// Vehicles by launch number.
    COSPAR(Vec<COSPAR>),
    /// Observables, by their codes.
    Observables(Vec<String>),
    /// Constellations.
    Constellations(Vec<Constellation>),
    /// Sites by identification number.
    DOMES(Vec<DOMES>),
    /// Stations or agencies by name.
    Stations(Vec<String>),
}

/// What a mask aims at, as contracts see it.
pub enum MaskTokenView {
    Epoch(Epoch),
    Duration(Duration),
    Elevation(i64),
    Azimuth(i64),
    Frequencies(Seq<i64>),
    SNR(i64),
    SV(Seq<SV>),
    COSPAR(Seq<CosparView>),
    Observables(Seq<Seq<char>>),
    Constellations(Seq<Constellation>),
    DOMES(Seq<DOMES>),
    Stations(Seq<Seq<char>>),
}

/// The texts of a list of strings.
pub open spec fn strings_view(s: Seq<String>) -> Seq<Seq<char>> {
    Seq::new(s.len(), |i: int| s[i]@)
}

/// The views of a list of launch numbers.
pub open spec fn cospars_view(s: Seq<COSPAR>) -> Seq<CosparView> {
    Seq::new(s.len(), |i: int| s[i]@)
}

impl View for MaskToken {
    type V = MaskTokenView;

    open spec fn view(&self) -> MaskTokenView {
        match self {
            MaskToken::Epoch(e) => MaskTokenView::Epoch(*e),
            MaskToken::Duration(d) => MaskTokenView::Duration(*d),
            MaskToken::Elevation(e) => MaskTokenView::Elevation(*e),
            MaskToken::Azimuth(a) => MaskTokenView::Azimuth(*a),
            MaskToken::Frequencies(f) => MaskTokenView::Frequencies(f@),
            MaskToken::SNR(s) => MaskTokenView::SNR(*s),
            MaskToken::SV(l) => MaskTokenView::SV(l@),
            MaskToken::COSPAR(l) => MaskTokenView::COSPAR(cospars_view(l@)),
            MaskToken::Observables(l) => MaskTokenView::Observables(strings_view(l@)),
            MaskToken::Constellations(l) => MaskTokenView::Constellations(l@),
            MaskToken::DOMES(l) => MaskTokenView::DOMES(l@),
            MaskToken::Stations(l) => MaskTokenView::Stations(strings_view(l@)),
        }
    }
}

/// The instant that a text describes, blanks around it set aside.
pub open spec fn epoch_token(text: Seq<u8>) -> Result<MaskTokenView, Error> {
    if all_ascii(trimmed(text)) {
        match Epoch::of_text(trimmed(text)) {
            Some(e) => Ok(MaskTokenView::Epoch(e)),
            None => Err(Error::InvalidEpoch),
        }
    } else {
        Err(Error::InvalidEpoch)
    }
}

/// The span of time that a text describes, blanks around it set aside.
pub open spec fn duration_token(text: Seq<u8>) -> Result<MaskTokenView, Error> {
    if all_ascii(trimmed(text)) {
        match Duration::of_text(trimmed(text)) {
            Some(d) => Ok(MaskTokenView::Duration(d)),
            None => Err(Error::InvalidDuration),
        }
    } else {
        Err(Error::InvalidDuration)
    }
}

/// The angle that a text spells, in thousandths of a degree.
pub open spec fn angle_of(text: Seq<u8>, max: int) -> Option<i64> {
    match decimal_value(trimmed(text), 3) {
        Some(v) => if 0 <= v <= max {
            Some(v as i64)
        } else {
            None
        },
        None => None,
    }
}

/// The elevation that a text spells: an angle between 0 and 90 degrees.
pub open spec fn elevation_token(text: Seq<u8>) -> Result<MaskTokenView, Error> {
    match angle_of(text, 90_000) {
        Some(v) => Ok(MaskTokenView::Elevation(v)),
        None => Err(Error::InvalidElevation),
    }
}

/// The azimuth that a text spells: an angle between 0 and 360 degrees.
pub open spec fn azimuth_token(text: Seq<u8>) -> Result<MaskTokenView, Error> {
    match angle_of(text, 360_000) {
        Some(v) => Ok(MaskTokenView::Azimuth(v)),
        None => Err(Error::InvalidAzimuth),
    }
}

/// The sites that the first `n` pieces of a list name; pieces that name
/// no site are passed over.
pub open spec fn sites_of(pieces: Seq<Seq<u8>>, n: nat) -> Seq<DOMES>
    decreases n,
{
    if n == 0 {
        Seq::empty()
    } else {
        match DOMES::of_text(trimmed(pieces[n - 1])) {
            Some(d) => sites_of(pieces, (n - 1) as nat).push(d),
            None => sites_of(pieces, (n - 1) as nat),
        }
    }
}

/// The sites that a list names, commas between them.
pub open spec fn domes_token(text: Seq<u8>) -> Result<MaskTokenView, Error> {
    let pieces = split_on(trimmed(text), 44);
    let sites = sites_of(pieces, pieces.len());
    if sites.len() == 0 {
        Err(Error::InvalidDOMES)
    } else {
        Ok(MaskTokenView::DOMES(sites))
    }
}

/// The frequency that a piece of a list spells.
pub open spec fn frequency_of(piece: Seq<u8>) -> Option<i64> {
    match decimal_value(trimmed(piece), 3) {
        Some(v) => if fits_i64(v) {
            Some(v as i64)
        } else {
            None
        },
        None => None,
    }
}

/// The frequencies that the first `n` pieces of a list spell; pieces
/// that spell no number are passed over.
pub open spec fn frequencies_of(pieces: Seq<Seq<u8>>, n: nat) -> Seq<i64>
    decreases n,
{
    if n == 0 {
        Seq::empty()
    } else {
        match frequency_of(pieces[n - 1]) {
            Some(f) => frequencies_of(pieces, (n - 1) as nat).push(f),
            None => frequencies_of(pieces, (n - 1) as nat),
        }
    }
}

/// The frequencies that a list spells, commas between them.
pub open spec fn frequencies_token(text: Seq<u8>) -> Result<MaskTokenView, Error> {
    let pieces = split_on(text, 44);
    let list = frequencies_of(pieces, pieces.len());
    if list.len() == 0 {
        Err(Error::InvalidFrequency)
    } else {
        Ok(MaskTokenView::Frequencies(list))
    }
}

/// The constellation that a piece of a list names.
pub open spec fn constellation_of(piece: Seq<u8>) -> Option<Constellation> {
    if all_ascii(trimmed(piece)) {
        Constellation::of_text(trimmed(piece))
    } else {
        None
    }
}

/// The constellations that the first `n` pieces of a list name; pieces
/// that name none are passed over.
pub open spec fn constellations_of(pieces: Seq<Seq<u8>>, n: nat) -> Seq<Constellation>
    decreases n,
{
    if n == 0 {
        Seq::empty()
    } else {
        match constellation_of(pieces[n - 1]) {
            Some(c) => constellations_of(pieces, (n - 1) as nat).push(c),
            None => constellations_of(pieces, (n - 1) as nat),
        }
    }
}

/// The constellations that a list names, commas between them.
pub open spec fn constellations_token(text: Seq<u8>) -> Result<MaskTokenView, Error> {
    let pieces = split_on(trimmed(text), 44);
    let list = constellations_of(pieces, pieces.len());
    if list.len() == 0 {
        Err(Error::InvalidConstellation)
    } else {
        Ok(MaskTokenView::Constellations(list))
    }
}

/// The names of a list, commas between them. With `tight` the blanks
/// around each name are set aside.
pub open spec fn names_of(text: Seq<u8>, tight: bool) -> Seq<Seq<char>> {
    let pieces = split_on(trimmed(text), 44);
    Seq::new(
        pieces.len(),
        |i: int|
            ascii_chars(
                if tight {
                    trimmed(pieces[i])
                } else {
                    pieces[i]
                },
            ),
    )
}

/// The stations that a list names. The names are ASCII.
pub open spec fn stations_token(text: Seq<u8>) -> Result<MaskTokenView, Error> {
    if all_ascii(text) {
        Ok(MaskTokenView::Stations(names_of(text, true)))
    } else {
        Err(Error::InvalidToken)
    }
}

/// The observables that a list names by their codes. The codes are ASCII.
pub open spec fn observables_token(text: Seq<u8>) -> Result<MaskTokenView, Error> {
    if all_ascii(text) {
        Ok(MaskTokenView::Observables(names_of(text, false)))
    } else {
        Err(Error::InvalidToken)
    }
}

/// A part of an ASCII text is ASCII.
pub proof fn lemma_ascii_part(s: Seq<u8>, from: int, to: int)
    requires
        all_ascii(s),
        0 <= from <= to <= s.len(),
    ensures
        all_ascii(s.subrange(from, to)),
{
    assert forall|i: int| 0 <= i < to - from implies #[trigger] s.subrange(from, to)[i] < 128 by {
        assert(s.subrange(from, to)[i] == s[from + i]);
    }
}

/// Reads the names of a list.
pub fn parse_names(text: &[u8], tight: bool) -> (r: Vec<String>)
    requires
        all_ascii(text@),
    ensures
        strings_view(r@) == names_of(text@, tight),
{
    let pieces = split(trim(text), 44);
    let mut out: Vec<String> = Vec::new();
    let mut i: usize = 0;
    while i < pieces.len()
        invariant
            i <= pieces.len(),
            out@.len() == i,
            all_ascii(text@),
            slices_view(pieces@) == split_on(trimmed(text@), 44),
            forall|j: int|
                0 <= j < i ==> (#[trigger] out@[j])@ == ascii_chars(
                    if tight {
                        trimmed(pieces@[j]@)
                    } else {
                        pieces@[j]@
                    },
                ),
        decreases pieces.len() - i,
    {
        assert(slices_view(pieces@).len() == pieces@.len());
        let piece = if tight {
            trim(pieces[i])
        } else {
            pieces[i]
        };
        proof {
            lemma_ascii_trimmed(text@);
            assert(slices_view(pieces@)[i as int] == pieces@[i as int]@);
            lemma_ascii_split(trimmed(text@), 44, i as int);
            lemma_ascii_trimmed(pieces@[i as int]@);
        }
        let mut copy: Vec<u8> = Vec::new();
        push_all(&mut copy, piece);
        assert(copy@ =~= piece@);
        out.push(string_from_ascii(copy));
        i += 1;
    }
    assert(strings_view(out@) =~= names_of(text@, tight)) by {
        assert(slices_view(pieces@).len() == pieces@.len());
        assert forall|j: int| 0 <= j < out@.len() implies strings_view(out@)[j] == names_of(
            text@,
            tight,
        )[j] by {
            assert(slices_view(pieces@)[j] == pieces@[j]@);
        }
    }
    out
}

impl MaskToken {
    /// Reads an instant.
    pub fn parse_epoch(text: &[u8]) -> (r: Result<Self, Error>)
        ensures
            match r {
                Ok(t) => epoch_token(text@) == Ok::<MaskTokenView, Error>(t@),
                Err(e) => epoch_token(text@) == Err::<MaskTokenView, Error>(e),
            },
    {
        let t = trim(text);
        if !is_ascii_bytes(t) {
            return Err(Error::InvalidEpoch);
        }
        match Epoch::from_bytes(t) {
            Ok(e) => Ok(MaskToken::Epoch(e)),
            Err(_) => Err(Error::InvalidEpoch),
        }
    }

    /// Reads a span of time.
    pub fn parse_duration(text: &[u8]) -> (r: Result<Self, Error>)
        ensures
            match r {
                Ok(t) => duration_token(text@) == Ok::<MaskTokenView, Error>(t@),
                Err(e) => duration_token(text@) == Err::<MaskTokenView, Error>(e),
            },
    {
        let t = trim(text);
        if !is_ascii_bytes(t) {
            return Err(Error::InvalidDuration);
        }
        match Duration::from_bytes(t) {
            Ok(d) => Ok(MaskToken::Duration(d)),
            Err(_) => Err(Error::InvalidDuration),
        }
    }

    /// Reads a list of sites.
    pub fn parse_domes_sites(text: &[u8]) -> (r: Result<Self, Error>)
        ensures
            match r {
                Ok(t) => domes_token(text@) == Ok::<MaskTokenView, Error>(t@),
                Err(e) => domes_token(text@) == Err::<MaskTokenView, Error>(e),
            },
    {
        let pieces = split(trim(text), 44);
        let mut sites: Vec<DOMES> = Vec::new();
        let mut i: usize = 0;
        while i < pieces.len()
            invariant
                i <= pieces.len(),
                sites@ == sites_of(slices_view(pieces@), i as nat),
            decreases pieces.len() - i,
        {
            assert(slices_view(pieces@)[i as int] == pieces@[i as int]@);
            match DOMES::from_bytes(trim(pieces[i])) {
                Some(d) => {
                    sites.push(d);
                },
                None => {},
            }
            i += 1;
        }
        if sites.len() == 0 {
            Err(Error::InvalidDOMES)
        } else {
            Ok(MaskToken::DOMES(sites))
        }
    }

    /// Reads a list of stations.
    pub fn parse_stations(text: &[u8]) -> (r: Result<Self, Error>)
        ensures
            match r {
                Ok(t) => stations_token(text@) == Ok::<MaskTokenView, Error>(t@),
                Err(e) => stations_token(text@) == Err::<MaskTokenView, Error>(e),
            },
    {
        if !is_ascii_bytes(text) {
            return Err(Error::InvalidToken);
        }
        Ok(MaskToken::Stations(parse_names(text, true)))
    }

    /// Reads a list of observables.
    pub fn parse_observables(text: &[u8]) -> (r: Result<Self, Error>)
        ensures
            match r {
                Ok(t) => observables_token(text@) == Ok::<MaskTokenView, Error>(t@),
                Err(e) => observables_token(text@) == Err::<MaskTokenView, Error>(e),
            },
    {
        if !is_ascii_bytes(text) {
            return Err(Error::InvalidToken);
        }
        Ok(MaskToken::Observables(parse_names(text, false)))
    }

    /// Reads an elevation angle.
    pub fn parse_elevation(text: &[u8]) -> (r: Result<Self, Error>)
        ensures
            match r {
                Ok(t) => elevation_token(text@) == Ok::<MaskTokenView, Error>(t@),
                Err(e) => elevation_token(text@) == Err::<MaskTokenView, Error>(e),
            },
    {
        match parse_decimal(trim(text), 3) {
            Some(v) => if 0 <= v && v <= 90_000 {
                Ok(MaskToken::Elevation(v))
            } else {
                Err(Error::InvalidElevation)
            },
            None => Err(Error::InvalidElevation),
        }
    }

    /// Reads an azimuth angle.
    pub fn parse_azimuth(text: &[u8]) -> (r: Result<Self, Error>)
        ensures
            match r {
                Ok(t) => azimuth_token(text@) == Ok::<MaskTokenView, Error>(t@),
                Err(e) => azimuth_token(text@) == Err::<MaskTokenView, Error>(e),
            },
    {
        match parse_decimal(trim(text), 3) {
            Some(v) => if 0 <= v && v <= 360_000 {
                Ok(MaskToken::Azimuth(v))
            } else {
                Err(Error::InvalidAzimuth)
            },
            None => Err(Error::InvalidAzimuth),
        }
    }

    /// Reads a list of frequencies.
    pub fn parse_frequencies(text: &[u8]) -> (r: Result<Self, Error>)
        ensures
            match r {
                Ok(t) => frequencies_token(text@) == Ok::<MaskTokenView, Error>(t@),
                Err(e) => frequencies_token(text@) == Err::<MaskTokenView, Error>(e),
            },
    {
        let pieces = split(text, 44);
        let mut list: Vec<i64> = Vec::new();
        let mut i: usize = 0;
        while i < pieces.len()
            invariant
                i <= pieces.len(),
                list@ == frequencies_of(slices_view(pieces@), i as nat),
            decreases pieces.len() - i,
        {
            assert(slices_view(pieces@)[i as int] == pieces@[i as int]@);
            match parse_decimal(trim(pieces[i]), 3) {
                Some(f) => {
                    list.push(f);
                },
                None => {},
            }
            i += 1;
        }
        if list.len() == 0 {
            Err(Error::InvalidFrequency)
        } else {
            Ok(MaskToken::Frequencies(list))
        }
    }

    /// Reads a list of constellations.
    pub fn parse_constellations(text: &[u8]) -> (r: Result<Self, Error>)
        ensures
            match r {
                Ok(t) => constellations_token(text@) == Ok::<MaskTokenView, Error>(t@),
                Err(e) => constellations_token(text@) == Err::<MaskTokenView, Error>(e),
            },
    {
        let pieces = split(trim(text), 44);
        let mut list: Vec<Constellation> = Vec::new();
        let mut i: usize = 0;
        while i < pieces.len()
            invariant
                i <= pieces.len(),
                list@ == constellations_of(slices_view(pieces@), i as nat),
            decreases pieces.len() - i,
        {
            assert(slices_view(pieces@)[i as int] == pieces@[i as int]@);
            let piece = trim(pieces[i]);
            if is_ascii_bytes(piece) {
                match Constellation::from_bytes(piece) {
                    Ok(c) => {
                        list.push(c);
                    },
                    Err(_) => {},
                }
            }
            i += 1;
        }
        if list.len() == 0 {
            Err(Error::InvalidConstellation)
        } else {
            Ok(MaskToken::Constellations(list))
        }
    }
}

} // verus!
