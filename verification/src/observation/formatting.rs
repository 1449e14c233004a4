//! Writing epochs: the inverse of the readers, in the layouts of
//! revisions 2 and 3.

use crate::assoc::lookup;
use crate::constellation::SV;
use crate::epoch::Gregorian;
use crate::header::Header;
use crate::header::HeaderView;
use crate::header::table_of;
use crate::observable::Observable;
use crate::observable::ObservableView;
use crate::observable::observable_views;
use crate::observation::ObservationData;
use crate::observation::record::Error;
use crate::observation::record::ObservationKey;
use crate::observation::record::ObservationKeyView;
use crate::observation::record::Observations;
use crate::observation::record::ObservationsView;
use crate::observation::record::RecordEntry;
use crate::observation::record::RecordEntryView;
use crate::observation::record::RecordKey;
use crate::observation::record::vehicles_of;
use crate::text::all_ascii;
use crate::text::ascii_chars;
use crate::text::digits_of;
use crate::text::fixed_text;
use crate::text::lemma_append;
use crate::text::pad_left;
use crate::text::push_byte;
use crate::text::push_fill;
use crate::text::push_fixed;
use crate::text::push_number;
use crate::text::push_signed;
use crate::text::signed_number;
use crate::text::string_from_ascii;
use crate::text::trim_end;
use crate::text::trim_end_in_place;
use vstd::prelude::*;

verus! {

/// A run of blanks.
pub open spec fn blanks(n: nat) -> Seq<u8> {
    Seq::new(n, |i: int| 32u8)
}

/// The count of units of `unit` nearest to `v`; halves go away from zero.
pub open spec fn rounded(v: int, unit: int) -> int {
    if v < 0 {
        -((-v + unit / 2) / unit)
    } else {
        (v + unit / 2) / unit
    }
}

/// Rounds picoseconds to nanoseconds.
pub fn round_to_nanos(v: i64) -> (r: i64)
    ensures
        r == rounded(v as int, 1000),
{
    if v < 0 {
        (-((-(v as i128) + 500) / 1000)) as i64
    } else {
        ((v as i128 + 500) / 1000) as i64
    }
}

/// Rounds picoseconds to tenths of microseconds.
pub fn round_to_tenths(v: i64) -> (r: i64)
    ensures
        r == rounded(v as int, 100_000_000),
{
    if v < 0 {
        (-((-(v as i128) + 50_000_000) / 100_000_000)) as i64
    } else {
        ((v as i128 + 50_000_000) / 100_000_000) as i64
    }
}

/// The 16 columns of a slot: the value with three decimals
/// right-aligned in 14 columns, the loss-of-lock indication and the
/// signal strength, each a digit, or a blank where there is none. An
/// observation that is missing gives 16 blanks.
pub open spec fn slot_of(d: Option<ObservationData>) -> Seq<u8> {
    match d {
        None => blanks(16),
        Some(d) => pad_left(fixed_text(d.value as int, 3), 14, 32) + (match d.lli {
            Some(f) => digits_of(f.bits as nat),
            None => seq![32u8],
        }) + (match d.snr {
            Some(s) => seq![(48 + s.spec_index()) as u8],
            None => seq![32u8],
        }),
    }
}

/// Appends the 16 columns of a slot.
pub fn push_slot(out: &mut Vec<u8>, d: Option<ObservationData>)
    ensures
        final(out)@ == old(out)@ + slot_of(d),
        all_ascii(old(out)@) ==> all_ascii(final(out)@),
{
    match d {
        None => {
            push_fill(out, 16, 32);
        },
        Some(d) => {
            push_fixed(out, d.value, 3, 14);
            match d.lli {
                Some(f) => {
                    push_number(out, f.bits as u64, 0, 32);
                    assert(pad_left(digits_of(f.bits as nat), 0, 32) =~= digits_of(f.bits as nat));
                },
                None => {
                    out.push(32);
                },
            }
            match d.snr {
                Some(s) => {
                    out.push(48 + s.index());
                },
                None => {
                    out.push(32);
                },
            }
            assert(final(out)@ =~= old(out)@ + slot_of(Some(d)));
        },
    }
}

/// The slots of a vehicle for the first `count` observables of its
/// table. With `per_line` above zero a line feed precedes every
/// `per_line`-th slot, the first one included.
pub open spec fn row_text(
    obs: ObservationsView,
    sv: SV,
    table: Seq<ObservableView>,
    count: nat,
    per_line: nat,
) -> Seq<u8>
    decreases count,
{
    if count == 0 {
        Seq::empty()
    } else {
        row_text(obs, sv, table, (count - 1) as nat, per_line) + (if per_line > 0 && (count - 1)
            % (per_line as int) == 0 {
            seq![10u8]
        } else {
            Seq::empty()
        }) + slot_of(lookup(obs, ObservationKeyView { sv, observable: table[count - 1] }))
    }
}

/// Appends the slots of a vehicle.
pub fn push_row(
    out: &mut Vec<u8>,
    observations: &Observations,
    sv: SV,
    table: &Vec<Observable>,
    per_line: usize,
)
    ensures
        final(out)@ == old(out)@ + row_text(
            observations@,
            sv,
            observable_views(table@),
            table@.len(),
            per_line as nat,
        ),
        all_ascii(old(out)@) ==> all_ascii(final(out)@),
{
    let mut i: usize = 0;
    assert(out@ =~= old(out)@ + Seq::<u8>::empty());
    while i < table.len()
        invariant
            i <= table.len(),
            out@ == old(out)@ + row_text(
                observations@,
                sv,
                observable_views(table@),
                i as nat,
                per_line as nat,
            ),
            all_ascii(old(out)@) ==> all_ascii(out@),
        decreases table.len() - i,
    {
        let ghost before = out@;
        let ghost done = row_text(
            observations@,
            sv,
            observable_views(table@),
            i as nat,
            per_line as nat,
        );
        if per_line > 0 && i % per_line == 0 {
            out.push(10);
        }
        let ghost feed = if per_line > 0 && (i as int) % (per_line as int) == 0 {
            seq![10u8]
        } else {
            Seq::<u8>::empty()
        };
        assert(out@ =~= before + feed);
        let key = ObservationKey::new(sv, table[i].clone());
        assert(key@.observable == observable_views(table@)[i as int]);
        let d = observations.get(&key);
        push_slot(out, d);
        i += 1;
        assert(out@ =~= old(out)@ + (done + feed + slot_of(d)));
    }
}

/// The year, the month and the day of an epoch, a blank after each.
/// Revision 3 writes the year on four digits and fills month and day
/// with zeros; revision 2 writes the last two digits of the year and
/// fills month and day with blanks.
pub open spec fn day_text(g: Gregorian, v3: bool) -> Seq<u8> {
    (if v3 {
        signed_number(g.year as int, 4)
    } else {
        signed_number(
            if g.year - 2000 < 0 {
                g.year - 1900
            } else {
                g.year - 2000
            },
            2,
        )
    }) + seq![32u8] + pad_left(
        digits_of(g.month as nat),
        2,
        if v3 {
            48u8
        } else {
            32u8
        },
    ) + seq![32u8] + pad_left(
        digits_of(g.day as nat),
        2,
        if v3 {
            48u8
        } else {
            32u8
        },
    ) + seq![32u8]
}

/// The time of day of an epoch: hours and minutes, a blank after each,
/// then the seconds in two columns, a point and seven decimals.
/// Revision 3 fills hours and minutes with zeros, revision 2 with blanks.
pub open spec fn time_text(g: Gregorian, v3: bool) -> Seq<u8> {
    pad_left(
        digits_of(g.hour as nat),
        2,
        if v3 {
            48u8
        } else {
            32u8
        },
    ) + seq![32u8] + pad_left(
        digits_of(g.minute as nat),
        2,
        if v3 {
            48u8
        } else {
            32u8
        },
    ) + seq![32u8] + pad_left(digits_of(g.second as nat), 2, 32) + seq![46u8] + pad_left(
        digits_of((g.nanos / 100) as nat),
        7,
        48,
    )
}

/// The date and time of an epoch.
pub open spec fn date_text(g: Gregorian, v3: bool) -> Seq<u8> {
    day_text(g, v3) + time_text(g, v3)
}

/// Appends the year, the month and the day of an epoch.
pub fn push_day(out: &mut Vec<u8>, g: Gregorian, v3: bool)
    ensures
        final(out)@ == old(out)@ + day_text(g, v3),
        all_ascii(old(out)@) ==> all_ascii(final(out)@),
{
    let fill: u8 = if v3 {
        48
    } else {
        32
    };
    let ghost x = out@;
    if v3 {
        push_signed(out, g.year as i64, 4);
    } else {
        let yy: i64 = g.year as i64 - 2000;
        push_signed(out, if yy < 0 {
            yy + 100
        } else {
            yy
        }, 2);
    }
    let ghost t1 = if v3 {
        signed_number(g.year as int, 4)
    } else {
        signed_number(
            if g.year - 2000 < 0 {
                g.year - 1900
            } else {
                g.year - 2000
            },
            2,
        )
    };
    assert(out@ == x + t1);
    push_byte(out, 32);
    let ghost t2 = t1 + seq![32u8];
    proof {
        lemma_append(x, t1, seq![32u8]);
    }
    push_number(out, g.month as u64, 2, fill);
    let ghost t3 = t2 + pad_left(digits_of(g.month as nat), 2, fill);
    proof {
        lemma_append(x, t2, pad_left(digits_of(g.month as nat), 2, fill));
    }
    push_byte(out, 32);
    let ghost t4 = t3 + seq![32u8];
    proof {
        lemma_append(x, t3, seq![32u8]);
    }
    push_number(out, g.day as u64, 2, fill);
    let ghost t5 = t4 + pad_left(digits_of(g.day as nat), 2, fill);
    proof {
        lemma_append(x, t4, pad_left(digits_of(g.day as nat), 2, fill));
    }
    push_byte(out, 32);
    proof {
        lemma_append(x, t5, seq![32u8]);
    }
}

/// Appends the time of day of an epoch.
pub fn push_time(out: &mut Vec<u8>, g: Gregorian, v3: bool)
    ensures
        final(out)@ == old(out)@ + time_text(g, v3),
        all_ascii(old(out)@) ==> all_ascii(final(out)@),
{
    let fill: u8 = if v3 {
        48
    } else {
        32
    };
    let ghost x = out@;
    push_number(out, g.hour as u64, 2, fill);
    let ghost t1 = pad_left(digits_of(g.hour as nat), 2, fill);
    push_byte(out, 32);
    let ghost t2 = t1 + seq![32u8];
    proof {
        lemma_append(x, t1, seq![32u8]);
    }
    push_number(out, g.minute as u64, 2, fill);
    let ghost t3 = t2 + pad_left(digits_of(g.minute as nat), 2, fill);
    proof {
        lemma_append(x, t2, pad_left(digits_of(g.minute as nat), 2, fill));
    }
    push_byte(out, 32);
    let ghost t4 = t3 + seq![32u8];
    proof {
        lemma_append(x, t3, seq![32u8]);
    }
    push_number(out, g.second as u64, 2, 32);
    let ghost t5 = t4 + pad_left(digits_of(g.second as nat), 2, 32);
    proof {
        lemma_append(x, t4, pad_left(digits_of(g.second as nat), 2, 32));
    }
    push_byte(out, 46);
    let ghost t6 = t5 + seq![46u8];
    proof {
        lemma_append(x, t5, seq![46u8]);
    }
    push_number(out, (g.nanos / 100) as u64, 7, 48);
    proof {
        lemma_append(x, t6, pad_left(digits_of((g.nanos / 100) as nat), 7, 48));
    }
}

/// Appends the date and time of an epoch.
pub fn push_date(out: &mut Vec<u8>, g: Gregorian, v3: bool)
    ensures
        final(out)@ == old(out)@ + date_text(g, v3),
        all_ascii(old(out)@) ==> all_ascii(final(out)@),
{
    push_day(out, g, v3);
    push_time(out, g, v3);
    proof {
        lemma_append(old(out)@, day_text(g, v3), time_text(g, v3));
    }
}

/// The clock offset of an epoch as revision 3 writes it: four decimals
/// in 13 columns. Revision 2 keeps the clock offset for the end of the
/// line of the vehicles.
pub open spec fn head_clock(v3: bool, clock: Option<i64>) -> Seq<u8> {
    match clock {
        Some(c) => if v3 {
            pad_left(fixed_text(rounded(c as int, 100_000_000), 4), 13, 32)
        } else {
            Seq::empty()
        },
        None => Seq::empty(),
    }
}

/// The line that opens an epoch, without the vehicles that revision 2
/// names on it: a `>` in revision 3, the date, the flag and the number
/// of vehicles, each in three columns, and in revision 3 the clock
/// offset, if there is one.
pub open spec fn head_text(v3: bool, key: RecordKey, n: nat, clock: Option<i64>) -> Seq<u8> {
    (if v3 {
        seq![62u8] + seq![32u8]
    } else {
        seq![32u8]
    }) + date_text(key.epoch.spec_gregorian(), v3) + seq![32u8] + seq![32u8] + seq![(48
        + key.flag.spec_index()) as u8] + pad_left(digits_of(n), 3, 32) + head_clock(v3, clock)
}

/// Appends the line that opens an epoch.
pub fn push_head(out: &mut Vec<u8>, v3: bool, key: &RecordKey, n: usize, clock: Option<i64>)
    ensures
        final(out)@ == old(out)@ + head_text(v3, *key, n as nat, clock),
        all_ascii(old(out)@) ==> all_ascii(final(out)@),
{
    let ghost x = out@;
    if v3 {
        push_byte(out, 62);
        push_byte(out, 32);
        proof {
            lemma_append(x, seq![62u8], seq![32u8]);
        }
    } else {
        push_byte(out, 32);
    }
    let ghost t1 = if v3 {
        seq![62u8] + seq![32u8]
    } else {
        seq![32u8]
    };
    assert(out@ == x + t1);
    let g = key.epoch.gregorian();
    push_date(out, g, v3);
    let ghost t2 = t1 + date_text(g, v3);
    proof {
        lemma_append(x, t1, date_text(g, v3));
    }
    push_byte(out, 32);
    let ghost t3 = t2 + seq![32u8];
    proof {
        lemma_append(x, t2, seq![32u8]);
    }
    push_byte(out, 32);
    let ghost t4 = t3 + seq![32u8];
    proof {
        lemma_append(x, t3, seq![32u8]);
    }
    let flag = 48 + key.flag.index();
    push_byte(out, flag);
    let ghost t5 = t4 + seq![flag];
    proof {
        lemma_append(x, t4, seq![flag]);
    }
    push_number(out, n as u64, 3, 32);
    let ghost t6 = t5 + pad_left(digits_of(n as nat), 3, 32);
    proof {
        lemma_append(x, t5, pad_left(digits_of(n as nat), 3, 32));
    }
    assert(out@ == x + t6);
    if v3 {
        match clock {
            Some(c) => {
                push_fixed(out, round_to_tenths(c), 4, 13);
            },
            None => {
                assert(out@ =~= x + t6 + Seq::<u8>::empty());
            },
        }
    } else {
        assert(out@ =~= x + t6 + Seq::<u8>::empty());
    }
    proof {
        lemma_append(x, t6, head_clock(v3, clock));
    }
}

/// The line of a vehicle of an epoch of revision 3: the identifier of
/// the vehicle, then a slot for each observable of its constellation.
pub open spec fn v3_line_text(h: HeaderView, obs: ObservationsView, sv: SV) -> Result<
    Seq<u8>,
    Error,
> {
    match sv.spec_identifier() {
        None => Err(Error::InvalidConstellationDefinition),
        Some(id) => match table_of(h.tables, sv.constellation.spec_table_key()) {
            None => Err(Error::MissingObservationDescription),
            Some(table) => Ok(id + row_text(obs, sv, table, table.len(), 0)),
        },
    }
}

/// The lines of the first `n` vehicles of an epoch of revision 3, a
/// line feed after each.
pub open spec fn v3_lines(h: HeaderView, obs: ObservationsView, svs: Seq<SV>, n: nat) -> Result<
    Seq<u8>,
    Error,
>
    decreases n,
{
    if n == 0 {
        Ok(Seq::empty())
    } else {
        match v3_lines(h, obs, svs, (n - 1) as nat) {
            Err(e) => Err(e),
            Ok(prev) => match v3_line_text(h, obs, svs[n - 1]) {
                Err(e) => Err(e),
                Ok(line) => Ok(prev + line + seq![10u8]),
            },
        }
    }
}

pub proof fn lemma_v3_lines_error(
    h: HeaderView,
    obs: ObservationsView,
    svs: Seq<SV>,
    n: nat,
    m: nat,
)
    requires
        n <= m,
        v3_lines(h, obs, svs, n) is Err,
    ensures
        v3_lines(h, obs, svs, m) == v3_lines(h, obs, svs, n),
    decreases m - n,
{
    if n < m {
        lemma_v3_lines_error(h, obs, svs, n, (m - 1) as nat);
    }
}

/// The text of an epoch of revision 3, without the blanks and line feeds
/// at its end.
pub open spec fn v3_text(h: HeaderView, key: RecordKey, entry: RecordEntryView) -> Result<
    Seq<u8>,
    Error,
> {
    let svs = vehicles_of(entry.observations);
    match v3_lines(h, entry.observations, svs, svs.len()) {
        Err(e) => Err(e),
        Ok(lines) => Ok(
            trim_end(head_text(true, key, svs.len(), entry.clock_offset) + seq![10u8] + lines),
        ),
    }
}

/// What separates the identifier of a vehicle of revision 2 from the one
/// before: nothing, but for every 12th vehicle, which opens a line that
/// starts with 32 blanks. The clock offset, if there is one, ends the
/// first line when a second one is opened: nine decimals in 12 columns.
pub open spec fn v2_break(index: int, clock: Option<i64>) -> Seq<u8> {
    if index > 0 && index % 12 == 0 {
        (match clock {
            Some(c) => if index == 12 {
                pad_left(fixed_text(rounded(c as int, 1000), 9), 12, 32)
            } else {
                Seq::empty()
            },
            None => Seq::empty(),
        }) + seq![10u8] + blanks(32)
    } else {
        Seq::empty()
    }
}

/// The identifiers of the first `n` vehicles of an epoch of revision 2.
pub open spec fn v2_vehicles(svs: Seq<SV>, clock: Option<i64>, n: nat) -> Result<Seq<u8>, Error>
    decreases n,
{
    if n == 0 {
        Ok(Seq::empty())
    } else {
        match v2_vehicles(svs, clock, (n - 1) as nat) {
            Err(e) => Err(e),
            Ok(prev) => match svs[n - 1].spec_identifier() {
                None => Err(Error::InvalidConstellationDefinition),
                Some(id) => Ok(prev + v2_break(n - 1, clock) + id),
            },
        }
    }
}

pub proof fn lemma_v2_vehicles_error(svs: Seq<SV>, clock: Option<i64>, n: nat, m: nat)
    requires
        n <= m,
        v2_vehicles(svs, clock, n) is Err,
    ensures
        v2_vehicles(svs, clock, m) == v2_vehicles(svs, clock, n),
    decreases m - n,
{
    if n < m {
        lemma_v2_vehicles_error(svs, clock, n, (m - 1) as nat);
    }
}

/// The observations of the first `n` vehicles of an epoch of revision 2:
/// for each vehicle a slot for each observable of its constellation,
/// five to a line.
pub open spec fn v2_rows(h: HeaderView, obs: ObservationsView, svs: Seq<SV>, n: nat) -> Result<
    Seq<u8>,
    Error,
>
    decreases n,
{
    if n == 0 {
        Ok(Seq::empty())
    } else {
        match v2_rows(h, obs, svs, (n - 1) as nat) {
            Err(e) => Err(e),
            Ok(prev) => match table_of(h.tables, svs[n - 1].constellation.spec_table_key()) {
                None => Err(Error::MissingObservationDescription),
                Some(table) => Ok(prev + row_text(obs, svs[n - 1], table, table.len(), 5)),
            },
        }
    }
}

pub proof fn lemma_v2_rows_error(h: HeaderView, obs: ObservationsView, svs: Seq<SV>, n: nat, m: nat)
    requires
        n <= m,
        v2_rows(h, obs, svs, n) is Err,
    ensures
        v2_rows(h, obs, svs, m) == v2_rows(h, obs, svs, n),
    decreases m - n,
{
    if n < m {
        lemma_v2_rows_error(h, obs, svs, n, (m - 1) as nat);
    }
}

/// The text of an epoch of revision 2, without the blanks and line feeds
/// at its end.
pub open spec fn v2_text(h: HeaderView, key: RecordKey, entry: RecordEntryView) -> Result<
    Seq<u8>,
    Error,
> {
    let svs = vehicles_of(entry.observations);
    match v2_vehicles(svs, entry.clock_offset, svs.len()) {
        Err(e) => Err(e),
        Ok(ids) => match v2_rows(h, entry.observations, svs, svs.len()) {
            Err(e) => Err(e),
            Ok(rows) => Ok(
                trim_end(head_text(false, key, svs.len(), entry.clock_offset) + ids + rows),
            ),
        },
    }
}

/// The text of an epoch in the revision of the header.
pub open spec fn epoch_text(h: HeaderView, key: RecordKey, entry: RecordEntryView) -> Result<
    Seq<u8>,
    Error,
> {
    if h.major < 3 {
        v2_text(h, key, entry)
    } else {
        v3_text(h, key, entry)
    }
}

/// Writes an epoch of revision 3.
pub fn fmt_epoch_v3(header: &Header, key: &RecordKey, entry: &RecordEntry) -> (r: Result<
    String,
    Error,
>)
    ensures
        match r {
            Ok(s) => v3_text(header@, *key, entry@) matches Ok(t) && s@ == ascii_chars(t) && all_ascii(t),
            Err(e) => v3_text(header@, *key, entry@) == Err::<Seq<u8>, Error>(e),
        },
{
    let svs = entry.observations.vehicles();
    let ghost h = header@;
    let ghost obs = entry@.observations;
    let mut out: Vec<u8> = Vec::new();
    push_head(&mut out, true, key, svs.len(), entry.clock_offset);
    out.push(10);
    let ghost head = out@;
    assert(head =~= head_text(true, *key, svs@.len(), entry.clock_offset) + seq![10u8]);
    let mut n: usize = 0;
    assert(out@ =~= head + Seq::<u8>::empty());
    while n < svs.len()
        invariant
            n <= svs.len(),
            h == header@,
            obs == entry@.observations,
            svs@ == vehicles_of(obs),
            all_ascii(out@),
            v3_lines(h, obs, svs@, n as nat) matches Ok(lines) && out@ == head + lines,
        decreases svs.len() - n,
    {
        let ghost before = out@;
        let ghost lines = v3_lines(h, obs, svs@, n as nat)->Ok_0;
        let sv = svs[n];
        assert(svs@[n as int] == sv);
        if !sv.push_identifier(&mut out) {
            proof {
                assert(v3_lines(h, obs, svs@, (n + 1) as nat) == Err::<Seq<u8>, Error>(
                    Error::InvalidConstellationDefinition,
                ));
                lemma_v3_lines_error(h, obs, svs@, (n + 1) as nat, svs@.len());
            }
            return Err(Error::InvalidConstellationDefinition);
        }
        let table = match header.observables(sv.constellation) {
            Some(t) => t,
            None => {
                proof {
                    assert(v3_lines(h, obs, svs@, (n + 1) as nat) == Err::<Seq<u8>, Error>(
                        Error::MissingObservationDescription,
                    ));
                    lemma_v3_lines_error(h, obs, svs@, (n + 1) as nat, svs@.len());
                }
                return Err(Error::MissingObservationDescription);
            },
        };
        push_row(&mut out, &entry.observations, sv, table, 0);
        out.push(10);
        n += 1;
        assert(out@ =~= head + (lines + (sv.spec_identifier()->0 + row_text(
            obs,
            sv,
            observable_views(table@),
            table@.len(),
            0,
        )) + seq![10u8]));
    }
    trim_end_in_place(&mut out);
    Ok(string_from_ascii(out))
}

/// Writes an epoch of revision 2.
pub fn fmt_epoch_v2(header: &Header, key: &RecordKey, entry: &RecordEntry) -> (r: Result<
    String,
    Error,
>)
    ensures
        match r {
            Ok(s) => v2_text(header@, *key, entry@) matches Ok(t) && s@ == ascii_chars(t) && all_ascii(t),
            Err(e) => v2_text(header@, *key, entry@) == Err::<Seq<u8>, Error>(e),
        },
{
    let svs = entry.observations.vehicles();
    let ghost h = header@;
    let ghost obs = entry@.observations;
    let clock = entry.clock_offset;
    let mut out: Vec<u8> = Vec::new();
    push_head(&mut out, false, key, svs.len(), clock);
    let ghost head = out@;
    assert(head =~= head_text(false, *key, svs@.len(), clock));
    let mut n: usize = 0;
    assert(out@ =~= head + Seq::<u8>::empty());
    while n < svs.len()
        invariant
            n <= svs.len(),
            obs == entry@.observations,
            clock == entry@.clock_offset,
            svs@ == vehicles_of(obs),
            all_ascii(out@),
            v2_vehicles(svs@, clock, n as nat) matches Ok(ids) && out@ == head + ids,
        decreases svs.len() - n,
    {
        let ghost before = out@;
        let ghost ids = v2_vehicles(svs@, clock, n as nat)->Ok_0;
        if n > 0 && n % 12 == 0 {
            if n == 12 {
                match clock {
                    Some(c) => {
                        push_fixed(&mut out, round_to_nanos(c), 9, 12);
                    },
                    None => {},
                }
            }
            out.push(10);
            push_fill(&mut out, 32, 32);
        }
        assert(out@ =~= before + v2_break(n as int, clock));
        let sv = svs[n];
        assert(svs@[n as int] == sv);
        if !sv.push_identifier(&mut out) {
            proof {
                assert(v2_vehicles(svs@, clock, (n + 1) as nat) == Err::<Seq<u8>, Error>(
                    Error::InvalidConstellationDefinition,
                ));
                lemma_v2_vehicles_error(svs@, clock, (n + 1) as nat, svs@.len());
            }
            return Err(Error::InvalidConstellationDefinition);
        }
        n += 1;
        assert(out@ =~= head + (ids + v2_break(n - 1, clock) + sv.spec_identifier()->0));
    }
    let ghost ids = v2_vehicles(svs@, clock, svs@.len())->Ok_0;
    let ghost top = out@;
    let mut n: usize = 0;
    assert(out@ =~= top + Seq::<u8>::empty());
    while n < svs.len()
        invariant
            n <= svs.len(),
            h == header@,
            obs == entry@.observations,
            clock == entry@.clock_offset,
            svs@ == vehicles_of(obs),
            v2_vehicles(svs@, clock, svs@.len()) is Ok,
            all_ascii(out@),
            v2_rows(h, obs, svs@, n as nat) matches Ok(rows) && out@ == top + rows,
        decreases svs.len() - n,
    {
        let ghost rows = v2_rows(h, obs, svs@, n as nat)->Ok_0;
        let sv = svs[n];
        assert(svs@[n as int] == sv);
        let table = match header.observables(sv.constellation) {
            Some(t) => t,
            None => {
                proof {
                    assert(v2_rows(h, obs, svs@, (n + 1) as nat) == Err::<Seq<u8>, Error>(
                        Error::MissingObservationDescription,
                    ));
                    lemma_v2_rows_error(h, obs, svs@, (n + 1) as nat, svs@.len());
                }
                return Err(Error::MissingObservationDescription);
            },
        };
        push_row(&mut out, &entry.observations, sv, table, 5);
        n += 1;
        assert(out@ =~= top + (rows + row_text(
            obs,
            sv,
            observable_views(table@),
            table@.len(),
            5,
        )));
    }
    let ghost rows = v2_rows(h, obs, svs@, svs@.len())->Ok_0;
    assert(out@ =~= head + ids + rows);
    trim_end_in_place(&mut out);
    Ok(string_from_ascii(out))
}

/// Writes an epoch in the revision of the header.
pub fn fmt_epoch(header: &Header, key: &RecordKey, entry: &RecordEntry) -> (r: Result<
    String,
    Error,
>)
    ensures
        match r {
            Ok(s) => epoch_text(header@, *key, entry@) matches Ok(t) && s@ == ascii_chars(t) && all_ascii(t),
            Err(e) => epoch_text(header@, *key, entry@) == Err::<Seq<u8>, Error>(e),
        },
{
    if header.version.major < 3 {
        fmt_epoch_v2(header, key, entry)
    } else {
        fmt_epoch_v3(header, key, entry)
    }
}

} // verus!
