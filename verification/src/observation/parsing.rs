//! Reading epochs: the line that opens an epoch, then the observations
//! of each vehicle, in the layouts of revisions 2 and 3.

use crate::assoc::put;
use crate::constellation::Constellation;
use crate::constellation::SV;
use crate::epoch::Epoch;
use crate::epoch::TimeScale;
use crate::header::Header;
use crate::header::HeaderView;
use crate::header::Tables;
use crate::header::Version;
use crate::header::table_of;
use crate::observable::Observable;
use crate::observable::ObservableView;
use crate::observable::observable_views;
use crate::observation::EpochFlag;
use crate::observation::LliFlags;
use crate::observation::ObservationData;
use crate::observation::SNR;
use crate::observation::record::Error;
use crate::observation::record::ObservationKey;
use crate::observation::record::ObservationKeyView;
use crate::observation::record::Observations;
use crate::observation::record::ObservationsView;
use crate::observation::record::RecordEntry;
use crate::observation::record::RecordEntryView;
use crate::observation::record::RecordKey;
use crate::text::all_ascii;
use crate::text::all_spaces;
use crate::text::ceil_div;
use crate::text::clip;
use crate::text::clip_slice;
use crate::text::decimal_value;
use crate::text::div_ceil;
use crate::text::fits_i64;
use crate::text::is_ascii_bytes;
use crate::text::is_blank;
use crate::text::lines_of;
use crate::text::parse_decimal;
use crate::text::parse_unsigned;
use crate::text::push_all;
use crate::text::slices_view;
use crate::text::split_lines;
use crate::text::trim;
use crate::text::trimmed;
use crate::text::unsigned_value;
use vstd::prelude::*;
use vstd::slice::slice_subrange;
use vstd::string::StringSliceAdditionalSpecFns;

verus! {

/// Columns of a slot: 14 for the value, one for the loss-of-lock
/// indication, one for the signal strength.
pub const SLOT_WIDTH: usize = 16;

/// Columns of the value of a slot.
pub const VALUE_WIDTH: usize = 14;

/// Columns that the first slot of a line of revision 2 may take.
pub const FIRST_SLOT_WIDTH: usize = 17;

/// Slots on a line of revision 2.
pub const SLOTS_PER_LINE: usize = 5;

/// Columns of a vehicle identifier.
pub const SV_WIDTH: usize = 3;

/// Vehicle identifiers on a line of revision 2.
pub const SV_PER_LINE: usize = 12;

/// Columns below which a line of revision 2 counts as blank.
pub const BLANK_LINE_WIDTH: usize = 10;

/// Columns of the date of an epoch of revision 2.
pub const V2_DATE_WIDTH: usize = 26;

/// Columns of the date of an epoch of revision 3.
pub const V3_DATE_WIDTH: usize = 28;

/// Column at which the identifiers of revision 2 end and the clock offset
/// starts.
pub const V2_CLOCK_COLUMN: usize = 68;

/// Column at which the clock offset of revision 3 starts.
pub const V3_CLOCK_COLUMN: usize = 35;

/// Decimals that a clock offset keeps: it is counted in picoseconds.
pub const CLOCK_DECIMALS: u32 = 12;

/// Decimals of an observation: it is counted in thousandths.
pub const VALUE_DECIMALS: u32 = 3;

/// The loss-of-lock indication of a slot: its 15th character, when that
/// is a digit below 8.
pub open spec fn slot_lli(slot: Seq<u8>) -> Option<LliFlags> {
    if slot.len() > 14 && 48 <= slot[14] && slot[14] <= 55 {
        Some(LliFlags { bits: (slot[14] - 48) as u8 })
    } else {
        None
    }
}

/// The signal strength of a slot: its 16th character, when that is a digit.
pub open spec fn slot_snr(slot: Seq<u8>) -> Option<SNR> {
    if slot.len() > 15 {
        SNR::of_digit(slot[15])
    } else {
        None
    }
}

/// The observation that a slot holds. The first 14 characters, without
/// the blanks around them, are the value; a slot whose value is no
/// number holds nothing, whatever follows.
pub open spec fn slot_value(slot: Seq<u8>) -> Option<ObservationData> {
    match decimal_value(trimmed(clip(slot, 0, 14)), 3) {
        Some(v) => if fits_i64(v) {
            Some(ObservationData { value: v as i64, lli: slot_lli(slot), snr: slot_snr(slot) })
        } else {
            None
        },
        None => None,
    }
}

/// Reads the observation of a slot.
pub fn parse_slot(slot: &[u8]) -> (r: Option<ObservationData>)
    ensures
        r == slot_value(slot@),
{
    let value = match parse_decimal(trim(clip_slice(slot, 0, VALUE_WIDTH)), VALUE_DECIMALS) {
        Some(v) => v,
        None => {
            return None;
        },
    };
    let lli = if slot.len() > 14 && 48 <= slot[14] && slot[14] <= 55 {
        LliFlags::from_bits(slot[14] - 48)
    } else {
        None
    };
    let snr = if slot.len() > 15 {
        SNR::from_digit(slot[15])
    } else {
        None
    };
    Some(ObservationData { value, lli, snr })
}

/// The text of the `i`-th slot of a line. In revision 2 the first slot
/// of a line may take a column more than the others.
pub open spec fn slot_text(line: Seq<u8>, i: int, v3: bool) -> Seq<u8> {
    if !v3 && i == 0 {
        clip(line, 0, 17)
    } else {
        clip(line, 16 * i, 16 * i + 16)
    }
}

/// The observations of an epoch after `count` slots of a line were read
/// for a vehicle; the slots stand for the observables of `table` from
/// `first` on. Nothing is kept for a vehicle that could not be
/// identified.
pub open spec fn with_slots(
    obs: ObservationsView,
    sv: Option<SV>,
    table: Seq<ObservableView>,
    first: int,
    count: nat,
    line: Seq<u8>,
    v3: bool,
) -> ObservationsView
    decreases count,
{
    if count == 0 {
        obs
    } else {
        let prev = with_slots(obs, sv, table, first, (count - 1) as nat, line, v3);
        match (sv, slot_value(slot_text(line, count - 1, v3))) {
            (Some(sv), Some(data)) => put(
                prev,
                ObservationKeyView { sv, observable: table[first + count - 1] },
                data,
            ),
            _ => prev,
        }
    }
}

/// Reads `count` slots of a line for a vehicle.
pub fn read_slots(
    obs: &mut Observations,
    sv: Option<SV>,
    table: &Vec<Observable>,
    first: usize,
    count: usize,
    line: &[u8],
    v3: bool,
)
    requires
        old(obs).wf(),
        first + count <= table@.len(),
        count == 0 || 16 * (count - 1) <= line@.len(),
    ensures
        final(obs).wf(),
        final(obs)@ == with_slots(
            old(obs)@,
            sv,
            observable_views(table@),
            first as int,
            count as nat,
            line@,
            v3,
        ),
{
    let mut i: usize = 0;
    while i < count
        invariant
            i <= count,
            first + count <= table@.len(),
            count == 0 || 16 * (count - 1) <= line@.len(),
            obs.wf(),
            obs@ == with_slots(
                old(obs)@,
                sv,
                observable_views(table@),
                first as int,
                i as nat,
                line@,
                v3,
            ),
        decreases count - i,
    {
        let width = line.len();
        let columns = table.len();
        let pos: usize = 16 * i;
        let end: usize = if width - pos >= 16 {
            pos + 16
        } else {
            width
        };
        let text = if !v3 && i == 0 {
            clip_slice(line, 0, FIRST_SLOT_WIDTH)
        } else {
            clip_slice(line, pos, end)
        };
        assert(text@ =~= slot_text(line@, i as int, v3));
        match (sv, parse_slot(text)) {
            (Some(sv), Some(data)) => {
                let key = ObservationKey::new(sv, table[first + i].clone());
                assert(key@.observable == observable_views(table@)[first + i]);
                obs.insert(key, data);
            },
            _ => {},
        }
        i += 1;
    }
}

/// The vehicle that an identifier names: what `gnss_rs` reads in an
/// ASCII text that is not empty.
pub open spec fn vehicle_of(id: Seq<u8>) -> Option<SV> {
    if id.len() >= 1 && all_ascii(id) {
        SV::of_text(id)
    } else {
        None
    }
}

/// Reads the vehicle that an identifier names.
pub fn parse_vehicle(id: &[u8]) -> (r: Option<SV>)
    ensures
        r == vehicle_of(id@),
{
    if id.len() >= 1 && is_ascii_bytes(id) {
        match SV::from_bytes(id) {
            Ok(sv) => Some(sv),
            Err(_) => None,
        }
    } else {
        None
    }
}

/// Number of slots that a line of revision 3 offers after the vehicle
/// identifier: the whole slots, and a last one of 14 columns at least.
pub open spec fn v3_slots(width: int) -> int {
    if width < 14 {
        0
    } else {
        (width - 14) / 16 + 1
    }
}

/// The smaller of two numbers.
pub open spec fn least(a: int, b: int) -> int {
    if a <= b {
        a
    } else {
        b
    }
}

/// The observations of an epoch after a line of revision 3 was read: three
/// columns name the vehicle, slots of 16 columns follow, one for each
/// observable of the vehicle's constellation for as long as the line
/// lasts.
pub open spec fn v3_line(tables: Tables, obs: ObservationsView, line: Seq<u8>) -> Result<
    ObservationsView,
    Error,
> {
    match vehicle_of(clip(line, 0, 3)) {
        None => Err(Error::SvParsing),
        Some(sv) => match table_of(tables, sv.constellation.spec_table_key()) {
            None => Err(Error::MissingObservationDescription),
            Some(table) => Ok(
                with_slots(
                    obs,
                    Some(sv),
                    table,
                    0,
                    least(table.len() as int, v3_slots(line.len() - 3)) as nat,
                    clip(line, 3, line.len() as int),
                    true,
                ),
            ),
        },
    }
}

/// The observations of an epoch of revision 3 after its first `n` lines.
pub open spec fn v3_observations(tables: Tables, lines: Seq<Seq<u8>>, n: nat) -> Result<
    ObservationsView,
    Error,
>
    decreases n,
{
    if n == 0 {
        Ok(Seq::empty())
    } else {
        match v3_observations(tables, lines, (n - 1) as nat) {
            Err(e) => Err(e),
            Ok(obs) => v3_line(tables, obs, lines[n - 1]),
        }
    }
}

/// Reads the observations of an epoch of revision 3 from the lines that
/// follow the one that opens the epoch.
pub fn parse_v3_observations(header: &Header, lines: &[&[u8]]) -> (r: Result<Observations, Error>)
    ensures
        match r {
            Ok(obs) => v3_observations(
                header@.tables,
                slices_view(lines@),
                lines@.len(),
            ) == Ok::<ObservationsView, Error>(obs@) && obs.wf(),
            Err(e) => v3_observations(
                header@.tables,
                slices_view(lines@),
                lines@.len(),
            ) == Err::<ObservationsView, Error>(e),
        },
{
    let mut obs = Observations::new();
    let mut n: usize = 0;
    while n < lines.len()
        invariant
            n <= lines.len(),
            obs.wf(),
            v3_observations(header@.tables, slices_view(lines@), n as nat) == Ok::<
                ObservationsView,
                Error,
            >(obs@),
        decreases lines.len() - n,
    {
        let line = lines[n];
        assert(slices_view(lines@)[n as int] == line@);
        let sv = match parse_vehicle(clip_slice(line, 0, SV_WIDTH)) {
            Some(sv) => sv,
            None => {
                proof {
                    lemma_v3_error(header@.tables, slices_view(lines@), n as nat + 1, lines@.len());
                }
                return Err(Error::SvParsing);
            },
        };
        let table = match header.observables(sv.constellation) {
            Some(t) => t,
            None => {
                proof {
                    lemma_v3_error(header@.tables, slices_view(lines@), n as nat + 1, lines@.len());
                }
                return Err(Error::MissingObservationDescription);
            },
        };
        let rest = clip_slice(line, SV_WIDTH, line.len());
        let offered: usize = if rest.len() < 14 {
            0
        } else {
            (rest.len() - 14) / 16 + 1
        };
        let count: usize = if table.len() <= offered {
            table.len()
        } else {
            offered
        };
        read_slots(&mut obs, Some(sv), table, 0, count, rest, true);
        n += 1;
    }
    Ok(obs)
}

/// An error met on a line is the outcome, whatever lines follow.
pub proof fn lemma_v3_error(tables: Tables, lines: Seq<Seq<u8>>, n: nat, m: nat)
    requires
        n <= m,
        v3_observations(tables, lines, n) is Err,
    ensures
        v3_observations(tables, lines, m) == v3_observations(tables, lines, n),
    decreases m - n,
{
    if n < m {
        lemma_v3_error(tables, lines, n, (m - 1) as nat);
    }
}

/// The vehicle of an old file that names its vehicles by PRN alone: the
/// vehicle of the constellation `c` with the PRN that `id` spells, as
/// `gnss_rs` reads its identifier. An identifier that spells no PRN
/// names nothing.
pub open spec fn legacy_vehicle(c: Constellation, id: Seq<u8>) -> Result<Option<SV>, Error> {
    match unsigned_value(trimmed(id)) {
        Some(prn) => if prn <= 255 {
            match (SV { constellation: c, prn: prn as u8 }).spec_identifier() {
                None => Err(Error::InvalidConstellationDefinition),
                Some(text) => match vehicle_of(text) {
                    Some(sv) => Ok(Some(sv)),
                    None => Err(Error::SvParsing),
                },
            }
        } else {
            Ok(None)
        },
        None => Ok(None),
    }
}

/// The vehicle that an identifier of revision 2 names, with the
/// observables of its constellation. Where the identifier bears no
/// constellation, the one that the header declares stands in.
pub open spec fn identify(h: HeaderView, id: Seq<u8>) -> Result<
    (Option<SV>, Seq<ObservableView>),
    Error,
> {
    match vehicle_of(id) {
        Some(sv) => match table_of(h.tables, sv.constellation.spec_table_key()) {
            Some(t) => Ok((Some(sv), t)),
            None => Err(Error::MissingObservationDescription),
        },
        None => match h.constellation {
            None => Err(Error::InvalidConstellationDefinition),
            Some(c) => if c == Constellation::Mixed {
                Err(Error::InvalidConstellationDefinition)
            } else {
                match legacy_vehicle(c, id) {
                    Err(e) => Err(e),
                    Ok(sv) => {
                        let of = match sv {
                            Some(sv) => sv.constellation,
                            None => c,
                        };
                        match table_of(h.tables, of.spec_table_key()) {
                            Some(t) => Ok((sv, t)),
                            None => Err(Error::MissingObservationDescription),
                        }
                    },
                }
            },
        },
    }
}

/// Reads the vehicle of an old file that names its vehicles by PRN alone.
pub fn parse_legacy_vehicle(c: Constellation, id: &[u8]) -> (r: Result<Option<SV>, Error>)
    ensures
        r == legacy_vehicle(c, id@),
{
    match parse_unsigned(trim(id), 255) {
        Some(prn) => {
            let sv = SV::new(c, prn as u8);
            let mut text: Vec<u8> = Vec::new();
            if !sv.push_identifier(&mut text) {
                return Err(Error::InvalidConstellationDefinition);
            }
            assert(text@ =~= sv.spec_identifier()->0);
            match parse_vehicle(text.as_slice()) {
                Some(sv) => Ok(Some(sv)),
                None => Err(Error::SvParsing),
            }
        },
        None => Ok(None),
    }
}

/// Reads the vehicle that an identifier of revision 2 names, and finds
/// the observables of its constellation.
pub fn parse_identifier<'a>(header: &'a Header, id: &[u8]) -> (r: Result<
    (Option<SV>, &'a Vec<Observable>),
    Error,
>)
    ensures
        match r {
            Ok(v) => identify(header@, id@) == Ok::<(Option<SV>, Seq<ObservableView>), Error>(
                (v.0, observable_views(v.1@)),
            ),
            Err(e) => identify(header@, id@) == Err::<(Option<SV>, Seq<ObservableView>), Error>(e),
        },
{
    match parse_vehicle(id) {
        Some(sv) => match header.observables(sv.constellation) {
            Some(t) => Ok((Some(sv), t)),
            None => Err(Error::MissingObservationDescription),
        },
        None => match header.constellation {
            None => Err(Error::InvalidConstellationDefinition),
            Some(c) => {
                if c == Constellation::Mixed {
                    return Err(Error::InvalidConstellationDefinition);
                }
                let sv = match parse_legacy_vehicle(c, id) {
                    Ok(sv) => sv,
                    Err(e) => {
                        return Err(e);
                    },
                };
                let of = match sv {
                    Some(sv) => sv.constellation,
                    None => c,
                };
                match header.observables(of) {
                    Some(t) => Ok((sv, t)),
                    None => Err(Error::MissingObservationDescription),
                }
            },
        },
    }
}

/// Where the reader of revision 2 stands between two lines.
pub struct V2State {
    /// Column of the identifiers at which the next vehicle starts.
    pub sv_ptr: int,
    /// Place in its table of the next observable of the vehicle.
    pub obs_ptr: int,
    /// Vehicle that is being read, unless it could not be identified.
    pub sv: Option<SV>,
    /// Observables of the vehicle.
    pub table: Seq<ObservableView>,
    /// Observations read so far.
    pub obs: ObservationsView,
    /// Set when the last vehicle has been read.
    pub done: bool,
}

/// Number of slots that a line of revision 2 holds for a vehicle: none
/// on a line of fewer than 10 columns, else one for each stretch of 16
/// columns that the line starts, but no more than 5 and no more than the
/// vehicle still has observables.
pub open spec fn v2_count(width: nat, table_len: int, obs_ptr: int) -> int {
    if width < 10 || table_len <= obs_ptr {
        0
    } else {
        least(least(5, ceil_div(width, 16) as int), table_len - obs_ptr)
    }
}

/// The state of the reader of revision 2 after one more line. A line
/// stands for the next 5 observables of the vehicle, whatever it holds.
/// After the last observable of a vehicle the next identifier is read;
/// after the last vehicle the reader is done and passes over what lines
/// are left.
pub open spec fn v2_step(h: HeaderView, systems: Seq<u8>, st: V2State, line: Seq<u8>) -> Result<
    V2State,
    Error,
> {
    if st.done {
        Ok(st)
    } else {
        let count = v2_count(line.len(), st.table.len() as int, st.obs_ptr);
        let obs = with_slots(st.obs, st.sv, st.table, st.obs_ptr, count as nat, line, false);
        if st.table.len() - st.obs_ptr > 5 {
            Ok(
                V2State {
                    sv_ptr: st.sv_ptr,
                    obs_ptr: st.obs_ptr + 5,
                    sv: st.sv,
                    table: st.table,
                    obs,
                    done: false,
                },
            )
        } else if st.sv_ptr >= systems.len() {
            Ok(
                V2State {
                    sv_ptr: st.sv_ptr,
                    obs_ptr: 0,
                    sv: st.sv,
                    table: st.table,
                    obs,
                    done: true,
                },
            )
        } else {
            match identify(h, clip(systems, st.sv_ptr, st.sv_ptr + 3)) {
                Err(e) => Err(e),
                Ok(v) => Ok(
                    V2State {
                        sv_ptr: least(st.sv_ptr + 3, systems.len() as int),
                        obs_ptr: 0,
                        sv: v.0,
                        table: v.1,
                        obs,
                        done: false,
                    },
                ),
            }
        }
    }
}

/// The state of the reader of revision 2 before the first line: the first
/// identifier has been read.
pub open spec fn v2_start(h: HeaderView, systems: Seq<u8>) -> Result<V2State, Error> {
    if systems.len() < 3 {
        Err(Error::EmptyLine)
    } else {
        match identify(h, clip(systems, 0, 3)) {
            Err(e) => Err(e),
            Ok(v) => Ok(
                V2State {
                    sv_ptr: 3,
                    obs_ptr: 0,
                    sv: v.0,
                    table: v.1,
                    obs: Seq::empty(),
                    done: false,
                },
            ),
        }
    }
}

/// The state of the reader of revision 2 after the first `n` lines.
pub open spec fn v2_run(h: HeaderView, systems: Seq<u8>, lines: Seq<Seq<u8>>, n: nat) -> Result<
    V2State,
    Error,
>
    decreases n,
{
    if n == 0 {
        v2_start(h, systems)
    } else {
        match v2_run(h, systems, lines, (n - 1) as nat) {
            Err(e) => Err(e),
            Ok(st) => v2_step(h, systems, st, lines[n - 1]),
        }
    }
}

/// The observations of an epoch of revision 2: `systems` holds the
/// identifiers of its vehicles, three columns each, and `lines` the
/// lines of observations.
pub open spec fn v2_observations(h: HeaderView, systems: Seq<u8>, lines: Seq<Seq<u8>>) -> Result<
    ObservationsView,
    Error,
> {
    match v2_run(h, systems, lines, lines.len()) {
        Err(e) => Err(e),
        Ok(st) => Ok(st.obs),
    }
}

/// An error met on a line is the outcome, whatever lines follow.
pub proof fn lemma_v2_error(h: HeaderView, systems: Seq<u8>, lines: Seq<Seq<u8>>, n: nat, m: nat)
    requires
        n <= m,
        v2_run(h, systems, lines, n) is Err,
    ensures
        v2_run(h, systems, lines, m) == v2_run(h, systems, lines, n),
    decreases m - n,
{
    if n < m {
        lemma_v2_error(h, systems, lines, n, (m - 1) as nat);
    }
}

/// Once the last vehicle is read, the lines that follow change nothing.
pub proof fn lemma_v2_done(h: HeaderView, systems: Seq<u8>, lines: Seq<Seq<u8>>, n: nat, m: nat)
    requires
        n <= m,
        v2_run(h, systems, lines, n) matches Ok(st) && st.done,
    ensures
        v2_run(h, systems, lines, m) == v2_run(h, systems, lines, n),
    decreases m - n,
{
    if n < m {
        lemma_v2_done(h, systems, lines, n, (m - 1) as nat);
    }
}

/// Reads the observations of an epoch of revision 2. `systems` holds the
/// identifiers of the vehicles, three columns each, and `lines` the lines
/// of observations.
pub fn parse_v2_observations(header: &Header, systems: &[u8], lines: &[&[u8]]) -> (r: Result<
    Observations,
    Error,
>)
    ensures
        match r {
            Ok(obs) => v2_observations(header@, systems@, slices_view(lines@)) == Ok::<
                ObservationsView,
                Error,
            >(obs@) && obs.wf(),
            Err(e) => v2_observations(header@, systems@, slices_view(lines@)) == Err::<
                ObservationsView,
                Error,
            >(e),
        },
{
    let ghost h = header@;
    let ghost all = slices_view(lines@);
    if systems.len() < SV_WIDTH {
        proof {
            lemma_v2_error(h, systems@, all, 0, all.len());
        }
        return Err(Error::EmptyLine);
    }
    let (mut sv, mut table) = match parse_identifier(header, clip_slice(systems, 0, SV_WIDTH)) {
        Ok(v) => v,
        Err(e) => {
            proof {
                lemma_v2_error(h, systems@, all, 0, all.len());
            }
            return Err(e);
        },
    };
    let mut sv_ptr: usize = SV_WIDTH;
    let mut obs_ptr: usize = 0;
    let mut obs = Observations::new();
    let mut n: usize = 0;
    while n < lines.len()
        invariant
            n <= lines.len(),
            h == header@,
            all == slices_view(lines@),
            obs.wf(),
            sv_ptr <= systems@.len(),
            v2_run(h, systems@, all, n as nat) == Ok::<V2State, Error>(
                V2State {
                    sv_ptr: sv_ptr as int,
                    obs_ptr: obs_ptr as int,
                    sv,
                    table: observable_views(table@),
                    obs: obs@,
                    done: false,
                },
            ),
        decreases lines.len() - n,
    {
        let line = lines[n];
        assert(all[n as int] == line@);
        let width = line.len();
        let columns = table.len();
        let count: usize = if width < BLANK_LINE_WIDTH || columns <= obs_ptr {
            0
        } else {
            let offered = div_ceil(width, SLOT_WIDTH);
            let wanted: usize = if offered < SLOTS_PER_LINE {
                offered
            } else {
                SLOTS_PER_LINE
            };
            if wanted <= columns - obs_ptr {
                wanted
            } else {
                columns - obs_ptr
            }
        };
        assert(count == v2_count(width as nat, columns as int, obs_ptr as int));
        read_slots(&mut obs, sv, table, obs_ptr, count, line, false);
        n += 1;
        if columns > obs_ptr && columns - obs_ptr > SLOTS_PER_LINE {
            obs_ptr = obs_ptr + SLOTS_PER_LINE;
        } else if sv_ptr >= systems.len() {
            proof {
                lemma_v2_done(h, systems@, all, n as nat, all.len());
            }
            return Ok(obs);
        } else {
            let end: usize = if systems.len() - sv_ptr >= SV_WIDTH {
                sv_ptr + SV_WIDTH
            } else {
                systems.len()
            };
            let id = clip_slice(systems, sv_ptr, end);
            assert(id@ =~= clip(systems@, sv_ptr as int, sv_ptr + 3));
            match parse_identifier(header, id) {
                Ok(v) => {
                    sv = v.0;
                    table = v.1;
                },
                Err(e) => {
                    proof {
                        lemma_v2_error(h, systems@, all, n as nat, all.len());
                    }
                    return Err(e);
                },
            }
            sv_ptr = end;
            obs_ptr = 0;
        }
    }
    Ok(obs)
}

/// What the line that opens an epoch tells.
#[derive(Clone, Copy, Debug, PartialEq, Eq, Structural)]
pub struct EpochHead {
    /// Instant and flag of the epoch.
    pub key: RecordKey,
    /// Number of vehicles that the epoch announces.
    pub n_sat: u16,
    /// Offset of the receiver's clock, in picoseconds.
    pub clock_offset: Option<i64>,
}

/// Column at which the date of an epoch starts: revision 3 opens its
/// epochs with a `>`.
pub open spec fn date_start(major: u8) -> int {
    if major < 3 {
        0
    } else {
        1
    }
}

/// Column at which the date of an epoch ends.
pub open spec fn date_end(major: u8) -> int {
    if major < 3 {
        26
    } else {
        29
    }
}

/// Column at which the clock offset starts.
pub open spec fn clock_column(major: u8) -> int {
    if major < 3 {
        68
    } else {
        35
    }
}

/// The clock offset that the line of an epoch tells, in picoseconds:
/// the number that stands from the clock column on, if the line is that
/// long and a number stands there.
pub open spec fn clock_offset_of(major: u8, line: Seq<u8>) -> Option<i64> {
    if line.len() > clock_column(major) {
        match decimal_value(trimmed(clip(line, clock_column(major), line.len() as int)), 12) {
            Some(v) => if fits_i64(v) {
                Some(v as i64)
            } else {
                None
            },
            None => None,
        }
    } else {
        None
    }
}

/// Number of columns that the date, the flag and the number of
/// vehicles take on the line that opens an epoch.
pub open spec fn head_width(major: u8) -> int {
    date_end(major) + 6
}

/// What the line that opens an epoch tells: the date, the flag in the
/// next three columns and the number of vehicles in the three after. A
/// line that ends before the last of these columns tells no number of
/// vehicles.
pub open spec fn head_of(major: u8, line: Seq<u8>, ts: TimeScale) -> Result<EpochHead, Error> {
    if line.len() < head_width(major) {
        Err(Error::NumSatParsing)
    } else {
        match Epoch::of_datetime(clip(line, date_start(major), date_end(major)), ts) {
            Err(_) => Err(Error::EpochError),
            Ok(epoch) => match EpochFlag::of_text(
                clip(line, date_end(major), date_end(major) + 3),
            ) {
                None => Err(Error::EpochFlag),
                Some(flag) => match unsigned_value(
                    trimmed(clip(line, date_end(major) + 3, date_end(major) + 6)),
                ) {
                    Some(n) => if n <= 65535 {
                        Ok(
                            EpochHead {
                                key: RecordKey { epoch, flag },
                                n_sat: n as u16,
                                clock_offset: clock_offset_of(major, line),
                            },
                        )
                    } else {
                        Err(Error::NumSatParsing)
                    },
                    None => Err(Error::NumSatParsing),
                },
            },
        }
    }
}

/// Reads the line that opens an epoch.
pub fn parse_head(major: u8, line: &[u8], ts: TimeScale) -> (r: Result<EpochHead, Error>)
    ensures
        r == head_of(major, line@, ts),
{
    let start: usize = if major < 3 {
        0
    } else {
        1
    };
    let end: usize = if major < 3 {
        V2_DATE_WIDTH
    } else {
        V3_DATE_WIDTH + 1
    };
    let column: usize = if major < 3 {
        V2_CLOCK_COLUMN
    } else {
        V3_CLOCK_COLUMN
    };
    if line.len() < end + 6 {
        return Err(Error::NumSatParsing);
    }
    let epoch = match Epoch::parse_datetime(clip_slice(line, start, end), ts) {
        Ok(e) => e,
        Err(_) => {
            return Err(Error::EpochError);
        },
    };
    let flag = match EpochFlag::from_bytes(clip_slice(line, end, end + 3)) {
        Some(f) => f,
        None => {
            return Err(Error::EpochFlag);
        },
    };
    let n_sat = match parse_unsigned(trim(clip_slice(line, end + 3, end + 6)), 65535) {
        Some(n) => n as u16,
        None => {
            return Err(Error::NumSatParsing);
        },
    };
    let clock_offset = if line.len() > column {
        parse_decimal(trim(clip_slice(line, column, line.len())), CLOCK_DECIMALS)
    } else {
        None
    };
    Ok(EpochHead { key: RecordKey { epoch, flag }, n_sat, clock_offset })
}

/// Number of lines that name the vehicles of an epoch of revision 2
/// after the first: one for every 12 vehicles past the first 12.
pub open spec fn v2_extra_lines(n_sat: int) -> int {
    if n_sat <= 12 {
        0
    } else {
        (n_sat - 1) / 12
    }
}

/// The identifiers of the vehicles of an epoch of revision 2: what
/// stands between the number of vehicles and the clock column on the
/// first line, then what stands on the `extra` lines that follow, each
/// without the blanks around it.
pub open spec fn v2_systems(lines: Seq<Seq<u8>>, extra: nat) -> Seq<u8>
    decreases extra,
{
    if extra == 0 {
        trimmed(clip(lines[0], 32, 68))
    } else {
        v2_systems(lines, (extra - 1) as nat) + trimmed(lines[extra as int])
    }
}

/// The observations of an epoch whose first line has been read. An epoch
/// whose flag marks an event has none.
pub open spec fn block_of(h: HeaderView, head: EpochHead, lines: Seq<Seq<u8>>) -> Result<
    ObservationsView,
    Error,
> {
    if !head.key.flag.spec_has_observations() {
        Ok(Seq::empty())
    } else if h.major < 3 {
        let extra = v2_extra_lines(head.n_sat as int);
        if lines.len() < 1 + extra {
            Err(Error::MissingSvDescription)
        } else {
            v2_observations(h, v2_systems(lines, extra as nat), lines.skip(1 + extra))
        }
    } else {
        v3_observations(h.tables, lines.skip(1), (lines.len() - 1) as nat)
    }
}

/// The epoch that lines hold: its key and its entry. The first line
/// opens the epoch, the others hold its vehicles.
pub open spec fn epoch_of_lines(h: HeaderView, lines: Seq<Seq<u8>>, ts: TimeScale) -> Result<
    (RecordKey, RecordEntryView),
    Error,
> {
    if lines.len() == 0 {
        Err(Error::EmptyLine)
    } else {
        match head_of(h.major, lines[0], ts) {
            Err(e) => Err(e),
            Ok(head) => match block_of(h, head, lines) {
                Err(e) => Err(e),
                Ok(obs) => Ok(
                    (
                        head.key,
                        RecordEntryView { clock_offset: head.clock_offset, observations: obs },
                    ),
                ),
            },
        }
    }
}

/// The epoch that a text holds: its key and its entry.
pub open spec fn epoch_of(h: HeaderView, content: Seq<u8>, ts: TimeScale) -> Result<
    (RecordKey, RecordEntryView),
    Error,
> {
    epoch_of_lines(h, lines_of(content), ts)
}

/// Reads the observations of an epoch whose first line has been read.
pub fn parse_observations(header: &Header, head: &EpochHead, lines: &[&[u8]]) -> (r: Result<
    Observations,
    Error,
>)
    requires
        lines@.len() > 0,
    ensures
        match r {
            Ok(obs) => block_of(header@, *head, slices_view(lines@)) == Ok::<
                ObservationsView,
                Error,
            >(obs@) && obs.wf(),
            Err(e) => block_of(header@, *head, slices_view(lines@)) == Err::<
                ObservationsView,
                Error,
            >(e),
        },
{
    let ghost all = slices_view(lines@);
    if !head.key.flag.has_observations() {
        return Ok(Observations::new());
    }
    if header.version.major < 3 {
        let extra: usize = if head.n_sat <= 12 {
            0
        } else {
            (head.n_sat as usize - 1) / SV_PER_LINE
        };
        if lines.len() - 1 < extra {
            return Err(Error::MissingSvDescription);
        }
        let mut systems: Vec<u8> = Vec::new();
        push_all(&mut systems, trim(clip_slice(lines[0], 32, V2_CLOCK_COLUMN)));
        assert(systems@ =~= v2_systems(all, 0));
        let mut k: usize = 0;
        while k < extra
            invariant
                k <= extra,
                extra < lines@.len(),
                all == slices_view(lines@),
                systems@ == v2_systems(all, k as nat),
            decreases extra - k,
        {
            k += 1;
            push_all(&mut systems, trim(lines[k]));
        }
        let rest = slice_subrange(lines, 1 + extra, lines.len());
        assert(slices_view(rest@) =~= all.skip(1 + extra));
        parse_v2_observations(header, systems.as_slice(), rest)
    } else {
        let rest = slice_subrange(lines, 1, lines.len());
        assert(slices_view(rest@) =~= all.skip(1));
        parse_v3_observations(header, rest)
    }
}

/// Reads an epoch from the lines that hold it.
pub fn parse_epoch_lines(header: &Header, lines: &[&[u8]], ts: TimeScale) -> (r: Result<
    (RecordKey, RecordEntry),
    Error,
>)
    ensures
        match r {
            Ok(v) => epoch_of_lines(header@, slices_view(lines@), ts) == Ok::<
                (RecordKey, RecordEntryView),
                Error,
            >((v.0, v.1@)) && v.1.wf(),
            Err(e) => epoch_of_lines(header@, slices_view(lines@), ts) == Err::<
                (RecordKey, RecordEntryView),
                Error,
            >(e),
        },
{
    if lines.len() == 0 {
        return Err(Error::EmptyLine);
    }
    assert(slices_view(lines@)[0] == lines@[0]@);
    let head = match parse_head(header.version.major, lines[0], ts) {
        Ok(h) => h,
        Err(e) => {
            return Err(e);
        },
    };
    match parse_observations(header, &head, lines) {
        Ok(observations) => Ok((head.key, RecordEntry::new(head.clock_offset, observations))),
        Err(e) => Err(e),
    }
}

/// Reads an epoch from the bytes of the text that holds it.
pub fn parse_epoch_bytes(header: &Header, content: &[u8], ts: TimeScale) -> (r: Result<
    (RecordKey, RecordEntry),
    Error,
>)
    ensures
        match r {
            Ok(v) => epoch_of(header@, content@, ts) == Ok::<(RecordKey, RecordEntryView), Error>(
                (v.0, v.1@),
            ) && v.1.wf(),
            Err(e) => epoch_of(header@, content@, ts) == Err::<
                (RecordKey, RecordEntryView),
                Error,
            >(e),
        },
{
    let lines = split_lines(content);
    parse_epoch_lines(header, lines.as_slice(), ts)
}

/// Reads an epoch from the text that holds it: the line that opens the
/// epoch, then the lines of its vehicles.
pub fn parse_epoch(header: &Header, content: &str, ts: TimeScale) -> (r: Result<
    (RecordKey, RecordEntry),
    Error,
>)
    ensures
        match r {
            Ok(v) => epoch_of(header@, content.spec_bytes(), ts) == Ok::<
                (RecordKey, RecordEntryView),
                Error,
            >((v.0, v.1@)) && v.1.wf(),
            Err(e) => epoch_of(header@, content.spec_bytes(), ts) == Err::<
                (RecordKey, RecordEntryView),
                Error,
            >(e),
        },
{
    parse_epoch_bytes(header, content.as_bytes(), ts)
}

/// True when a line opens an epoch. In revision 3 such a line starts
/// with `>`. In revision 2 it has 30 columns at least and a flag in
/// columns 26 to 28; its first 26 columns hold a date, or they are blank
/// and the flag marks one of the events that come without a date.
#[verifier::opaque]
pub open spec fn new_epoch(line: Seq<u8>, major: u8) -> bool {
    if major < 3 {
        if line.len() < 30 {
            false
        } else if !all_spaces(clip(line, 0, 26)) {
            Epoch::of_datetime(clip(line, 0, 26), TimeScale::UTC) is Ok && EpochFlag::of_text(
                clip(line, 26, 29),
            ) is Some
        } else {
            EpochFlag::of_text(clip(line, 26, 29)) matches Some(f) && f.spec_is_event_marker()
        }
    } else {
        line.len() > 0 && line[0] == 62
    }
}

/// True when a line opens an epoch.
pub fn is_new_epoch_bytes(line: &[u8], v: Version) -> (r: bool)
    ensures
        r == new_epoch(line@, v.major),
{
    reveal(new_epoch);
    if v.major < 3 {
        if line.len() < 30 {
            false
        } else {
            let date = clip_slice(line, 0, V2_DATE_WIDTH);
            let flag = EpochFlag::from_bytes(clip_slice(line, V2_DATE_WIDTH, V2_DATE_WIDTH + 3));
            if !is_blank(date) {
                Epoch::parse_datetime(date, TimeScale::UTC).is_ok() && flag.is_some()
            } else {
                match flag {
                    Some(f) => f.is_event_marker(),
                    None => false,
                }
            }
        }
    } else {
        line.len() > 0 && line[0] == 62
    }
}

/// True when a line opens an epoch.
pub fn is_new_epoch(line: &str, v: Version) -> (r: bool)
    ensures
        r == new_epoch(line.spec_bytes(), v.major),
{
    is_new_epoch_bytes(line.as_bytes(), v)
}

} // verus!
