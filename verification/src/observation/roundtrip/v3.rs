//! An epoch of revision 3 is read back from its text.

use crate::assoc::lookup;
use crate::assoc::sorted;
use crate::constellation::SV;
use crate::header::HeaderView;
use crate::observable::ObservableView;
use crate::observation::ObservationData;
use crate::observation::formatting::blanks;
use crate::observation::formatting::head_clock;
use crate::observation::formatting::head_text;
use crate::observation::formatting::row_text;
use crate::observation::formatting::slot_of;
use crate::observation::formatting::v3_line_text;
use crate::observation::formatting::v3_lines;
use crate::observation::formatting::v3_text;
use crate::observation::parsing::EpochHead;
use crate::observation::parsing::block_of;
use crate::observation::parsing::epoch_of;
use crate::observation::parsing::epoch_of_lines;
use crate::observation::parsing::head_of;
use crate::observation::parsing::least;
use crate::observation::parsing::slot_lli;
use crate::observation::parsing::slot_snr;
use crate::observation::parsing::slot_text;
use crate::observation::parsing::slot_value;
use crate::observation::parsing::v3_line;
use crate::observation::parsing::v3_observations;
use crate::observation::parsing::v3_slots;
use crate::observation::parsing::with_slots;
use crate::observation::record::Error;
use crate::observation::record::ObservationKeyView;
use crate::observation::record::ObservationsView;
use crate::observation::record::RecordEntryView;
use crate::observation::record::RecordKey;
use crate::observation::record::vehicles_of;
use crate::observation::roundtrip::all_fit;
use crate::observation::roundtrip::all_read_back;
use crate::observation::roundtrip::covered;
use crate::observation::roundtrip::fields::lemma_zero_filled;
use crate::observation::roundtrip::fits_slot;
use crate::observation::roundtrip::framing::joined;
use crate::observation::roundtrip::framing::lemma_lines_of_joined;
use crate::observation::roundtrip::framing::lemma_lines_of_last;
use crate::observation::roundtrip::framing::lemma_lines_of_line;
use crate::observation::roundtrip::framing::lemma_one_line_fixed;
use crate::observation::roundtrip::framing::lemma_one_line_joined;
use crate::observation::roundtrip::framing::lemma_one_line_number;
use crate::observation::roundtrip::framing::lemma_one_line_padded;
use crate::observation::roundtrip::framing::lemma_trim_end_last_line;
use crate::observation::roundtrip::framing::one_line;
use crate::observation::roundtrip::head::clock_told;
use crate::observation::roundtrip::head::told;
use crate::observation::roundtrip::held_by;
use crate::observation::roundtrip::lemma_held_by_all;
use crate::observation::roundtrip::lemma_held_fits;
use crate::observation::roundtrip::lemma_identifier_width;
use crate::observation::roundtrip::lemma_missing_slot_round_trip;
use crate::observation::roundtrip::lemma_row_layout;
use crate::observation::roundtrip::lemma_row_slot;
use crate::observation::roundtrip::lemma_slot_round_trip;
use crate::observation::roundtrip::lemma_v3_lines_held;
use crate::observation::roundtrip::lemma_vehicle_held;
use crate::observation::roundtrip::reads_back;
use crate::observation::roundtrip::table_for;
use crate::observation::roundtrip::v3_line_list;
use crate::observation::roundtrip::with_held;
use crate::text::clip;
use crate::text::digits_of;
use crate::text::fixed_text;
use crate::text::is_space;
use crate::text::lemma_fixed_text_value;
use crate::text::lines_of;
use crate::text::pad_left;
use crate::text::trim_end;
use vstd::prelude::*;

verus! {

/// The last column of the value of an observation is no blank.
pub proof fn lemma_held_slot_mark(d: ObservationData)
    requires
        fits_slot(d),
    ensures
        slot_of(Some(d)).len() == 16,
        !is_space(slot_of(Some(d))[13]),
{
    lemma_slot_round_trip(d);
    let text = fixed_text(d.value as int, 3);
    lemma_fixed_text_value(d.value as int, 3);
    let field = pad_left(text, 14, 32);
    assert(field.len() == 14);
    assert(field[13] == text.last());
    assert(slot_of(Some(d))[13] == field[13]);
}

/// A slot that lost blanks after its value is read as the whole slot.
pub proof fn lemma_slot_cut(s: Seq<u8>, p: int)
    requires
        14 <= p <= s.len(),
        forall|i: int| p <= i < s.len() ==> is_space(#[trigger] s[i]),
    ensures
        slot_value(s.take(p)) == slot_value(s),
{
    let t = s.take(p);
    assert(clip(t, 0, 14) =~= clip(s, 0, 14));
    if p > 14 {
        assert(t[14] == s[14]);
    } else if s.len() > 14 {
        assert(is_space(s[14]));
    }
    if p > 15 {
        assert(t[15] == s[15]);
    } else if s.len() > 15 {
        assert(is_space(s[15]));
    }
    assert(slot_lli(t) == slot_lli(s));
    assert(slot_snr(t) == slot_snr(s));
}

/// The slots that are left of a row that lost blanks at its end are
/// read as what the epoch holds: of each slot the 14 columns of the
/// value are left.
pub proof fn lemma_row_trimmed_slots(
    base: ObservationsView,
    obs: ObservationsView,
    sv: SV,
    table: Seq<ObservableView>,
    n: nat,
    w: int,
    count: nat,
)
    requires
        all_fit(obs),
        0 <= w <= 16 * n,
        forall|i: int| w <= i < 16 * n ==> is_space(#[trigger] row_text(obs, sv, table, n, 0)[i]),
        count <= n,
        count > 0 ==> 16 * (count - 1) + 14 <= w,
    ensures
        with_slots(base, Some(sv), table, 0, count, row_text(obs, sv, table, n, 0).take(w), true)
            == with_held(base, obs, sv, table, count),
    decreases count,
{
    if count > 0 {
        lemma_row_trimmed_slots(base, obs, sv, table, n, w, (count - 1) as nat);
        let row = row_text(obs, sv, table, n, 0);
        let j = count - 1;
        let k = ObservationKeyView { sv, observable: table[j] };
        lemma_row_layout(obs, sv, table, 0, n);
        lemma_row_slot(obs, sv, table, n, j);
        lemma_held_fits(obs, k);
        let full = slot_text(row, j, true);
        let p = if w - 16 * j >= 16 {
            16
        } else {
            w - 16 * j
        };
        assert(p >= 14);
        match lookup(obs, k) {
            Some(d) => {
                lemma_slot_round_trip(d);
            },
            None => {
                lemma_missing_slot_round_trip();
            },
        }
        assert(full.len() == 16);
        assert(slot_text(row.take(w), j, true) =~= full.take(p));
        assert forall|i: int| p <= i < full.len() implies is_space(#[trigger] full[i]) by {
            assert(full[i] == row[16 * j + i]);
        }
        lemma_slot_cut(full, p);
    }
}

/// Nothing is held for an observable whose slot is blank where the
/// value ends.
pub proof fn lemma_blank_slot_held(
    obs: ObservationsView,
    sv: SV,
    table: Seq<ObservableView>,
    n: nat,
    j: int,
)
    requires
        all_fit(obs),
        0 <= j < n,
        is_space(row_text(obs, sv, table, n, 0)[16 * j + 13]),
    ensures
        lookup(obs, ObservationKeyView { sv, observable: table[j] }) is None,
{
    let row = row_text(obs, sv, table, n, 0);
    let k = ObservationKeyView { sv, observable: table[j] };
    lemma_row_layout(obs, sv, table, 0, n);
    lemma_row_slot(obs, sv, table, n, j);
    lemma_held_fits(obs, k);
    match lookup(obs, k) {
        Some(d) => {
            lemma_held_slot_mark(d);
            let full = slot_text(row, j, true);
            assert(full[13] == row[16 * j + 13]);
        },
        None => {},
    }
}

/// Observables for which nothing is held change nothing.
pub proof fn lemma_with_held_rest(
    base: ObservationsView,
    obs: ObservationsView,
    sv: SV,
    table: Seq<ObservableView>,
    from: nat,
    to: nat,
)
    requires
        from <= to,
        forall|j: int|
            from <= j < to ==> lookup(obs, ObservationKeyView { sv, observable: #[trigger] table[j] })
                is None,
    ensures
        with_held(base, obs, sv, table, to) == with_held(base, obs, sv, table, from),
    decreases to,
{
    if from < to {
        lemma_with_held_rest(base, obs, sv, table, from, (to - 1) as nat);
        assert(lookup(obs, ObservationKeyView { sv, observable: table[to - 1] }) is None);
    }
}

/// The identifier of a vehicle holds no blank.
pub proof fn lemma_identifier_tight(sv: SV)
    requires
        sv.spec_identifier() is Some,
    ensures
        forall|i: int|
            0 <= i < sv.spec_identifier()->0.len() ==> !is_space(
                #[trigger] sv.spec_identifier()->0[i],
            ),
        one_line(sv.spec_identifier()->0),
{
    let id = sv.spec_identifier()->0;
    let l = sv.constellation.spec_letter()->0;
    let d = pad_left(digits_of(sv.prn as nat), 2, 48);
    lemma_zero_filled(sv.prn as nat, 2);
    assert forall|i: int| 0 <= i < id.len() implies !is_space(#[trigger] id[i]) by {
        if i > 0 {
            assert(id[i] == d[i - 1]);
        }
    }
}

/// The line that the writer lays out for a vehicle is read as what the
/// epoch holds for the vehicle when it has lost the blanks at its end.
pub proof fn lemma_v3_line_trimmed(
    h: HeaderView,
    base: ObservationsView,
    obs: ObservationsView,
    sv: SV,
)
    requires
        all_fit(obs),
        reads_back(sv),
        table_for(h.tables, sv) is Some,
    ensures
        v3_line_text(h, obs, sv) matches Ok(line) && v3_line(h.tables, base, trim_end(line))
            == Ok::<ObservationsView, Error>(
            with_held(base, obs, sv, table_for(h.tables, sv)->0, table_for(h.tables, sv)->0.len()),
        ),
{
    let table = table_for(h.tables, sv)->0;
    let id = sv.spec_identifier()->0;
    let row = row_text(obs, sv, table, table.len(), 0);
    let line = id + row;
    lemma_identifier_width(sv);
    lemma_identifier_tight(sv);
    lemma_row_layout(obs, sv, table, 0, table.len());
    assert(line[2] == id[2]);
    lemma_trim_end_last_line(Seq::empty(), line, 2);
    let t = trim_end(line);
    let w = t.len() - 3;
    assert(t == line.take(t.len() as int));
    assert(t.len() <= line.len());
    assert forall|i: int| 0 <= i < 3 implies clip(t, 0, 3)[i] == id[i] by {
        assert(t[i] == line[i]);
    }
    assert(clip(t, 0, 3) =~= id);
    assert forall|i: int| 0 <= i < w implies clip(t, 3, t.len() as int)[i] == row.take(w)[i] by {
        assert(t[i + 3] == line[i + 3]);
    }
    assert(clip(t, 3, t.len() as int) =~= row.take(w));
    assert forall|i: int| w <= i < 16 * table.len() implies is_space(#[trigger] row[i]) by {
        assert(row[i] == line[i + 3]);
    }
    let count = least(table.len() as int, v3_slots(w)) as nat;
    lemma_row_trimmed_slots(base, obs, sv, table, table.len(), w, count);
    assert forall|j: int| count <= j < table.len() implies lookup(
        obs,
        ObservationKeyView { sv, observable: #[trigger] table[j] },
    ) is None by {
        assert(16 * j + 13 >= w);
        lemma_blank_slot_held(obs, sv, table, table.len(), j);
    }
    lemma_with_held_rest(base, obs, sv, table, count, table.len());
}

/// A slot is written on one line.
pub proof fn lemma_one_line_slot(d: Option<ObservationData>)
    ensures
        one_line(slot_of(d)),
{
    match d {
        None => {
            assert(one_line(blanks(16)));
        },
        Some(d) => {
            lemma_one_line_fixed(d.value as int, 3);
            lemma_one_line_padded(fixed_text(d.value as int, 3), 14, 32);
            let value = pad_left(fixed_text(d.value as int, 3), 14, 32);
            let lli = match d.lli {
                Some(f) => digits_of(f.bits as nat),
                None => seq![32u8],
            };
            let snr = match d.snr {
                Some(s) => seq![(48 + s.spec_index()) as u8],
                None => seq![32u8],
            };
            match d.lli {
                Some(f) => {
                    lemma_one_line_number(f.bits as nat, 0, 32);
                    assert(pad_left(digits_of(f.bits as nat), 0, 32) == digits_of(f.bits as nat));
                },
                None => {},
            }
            assert(one_line(lli));
            assert(one_line(snr));
            lemma_one_line_joined(value, lli);
            lemma_one_line_joined(value + lli, snr);
        },
    }
}

/// The slots of a vehicle are written on one line.
pub proof fn lemma_one_line_row(
    obs: ObservationsView,
    sv: SV,
    table: Seq<ObservableView>,
    n: nat,
)
    ensures
        one_line(row_text(obs, sv, table, n, 0)),
    decreases n,
{
    if n > 0 {
        lemma_one_line_row(obs, sv, table, (n - 1) as nat);
        let slot = slot_of(lookup(obs, ObservationKeyView { sv, observable: table[n - 1] }));
        lemma_one_line_slot(lookup(obs, ObservationKeyView { sv, observable: table[n - 1] }));
        let prev = row_text(obs, sv, table, (n - 1) as nat, 0);
        lemma_one_line_joined(prev, Seq::empty());
        lemma_one_line_joined(prev + Seq::<u8>::empty(), slot);
    }
}

/// The line of a vehicle is one line.
pub proof fn lemma_one_line_vehicle(h: HeaderView, obs: ObservationsView, sv: SV)
    requires
        v3_line_text(h, obs, sv) is Ok,
    ensures
        one_line(v3_line_text(h, obs, sv)->Ok_0),
{
    let table = table_for(h.tables, sv)->0;
    lemma_identifier_tight(sv);
    lemma_one_line_row(obs, sv, table, table.len());
    lemma_one_line_joined(sv.spec_identifier()->0, row_text(obs, sv, table, table.len(), 0));
}

/// The lines of the vehicles as the writer joins them.
pub proof fn lemma_v3_lines_joined(h: HeaderView, obs: ObservationsView, svs: Seq<SV>, n: nat)
    requires
        n <= svs.len(),
        forall|i: int| 0 <= i < svs.len() ==> v3_line_text(h, obs, #[trigger] svs[i]) is Ok,
    ensures
        v3_lines(h, obs, svs, n) == Ok::<Seq<u8>, Error>(
            joined(v3_line_list(h, obs, svs, svs.len()), n),
        ),
    decreases n,
{
    if n > 0 {
        lemma_v3_lines_joined(h, obs, svs, (n - 1) as nat);
        assert(v3_line_text(h, obs, svs[n - 1]) is Ok);
    }
}

/// Only the lines gone through count.
pub proof fn lemma_v3_observations_prefix(
    tables: crate::header::Tables,
    a: Seq<Seq<u8>>,
    b: Seq<Seq<u8>>,
    n: nat,
)
    requires
        n <= a.len(),
        n <= b.len(),
        forall|i: int| 0 <= i < n ==> a[i] == b[i],
    ensures
        v3_observations(tables, a, n) == v3_observations(tables, b, n),
    decreases n,
{
    if n > 0 {
        lemma_v3_observations_prefix(tables, a, b, (n - 1) as nat);
    }
}

/// The start of a line is one line.
pub proof fn lemma_one_line_start(s: Seq<u8>, n: int)
    requires
        one_line(s),
        0 <= n <= s.len(),
    ensures
        one_line(s.take(n)),
{
    let t = s.take(n);
    assert forall|i: int| 0 <= i < t.len() implies (#[trigger] t[i]) != 10 && t[i] != 13 by {
        assert(t[i] == s[i]);
    }
}

/// An epoch that a text of revision 3 tells as it is: the instant and
/// the clock offset fall on what the line that opens the epoch can
/// tell, the observations fit their slots and are of observables that
/// the header names, the vehicles are read back from their identifiers
/// and are fewer than 1000, and an epoch whose flag marks an event
/// holds no observation.
pub open spec fn told_v3(h: HeaderView, key: RecordKey, entry: RecordEntryView) -> bool {
    &&& h.major >= 3
    &&& told(key.epoch, true)
    &&& clock_told(entry.clock_offset)
    &&& (key.flag.spec_has_observations() || entry.observations.len() == 0)
    &&& sorted(entry.observations)
    &&& all_fit(entry.observations)
    &&& covered(h.tables, entry.observations)
    &&& all_read_back(vehicles_of(entry.observations))
    &&& vehicles_of(entry.observations).len() <= 999
}

/// The line that opens an epoch of revision 3 is read back.
pub proof fn lemma_v3_head(major: u8, key: RecordKey, n: nat, clock: Option<i64>)
    requires
        major >= 3,
        told(key.epoch, true),
        clock_told(clock),
        n <= 999,
    ensures
        head_of(major, head_text(true, key, n, clock), key.epoch.time_scale) == Ok::<
            EpochHead,
            Error,
        >(EpochHead { key, n_sat: n as u16, clock_offset: clock }),
{
    crate::observation::roundtrip::head::lemma_head_round_trip(
        major,
        key,
        n,
        head_clock(true, clock),
    );
    crate::observation::roundtrip::head::lemma_clock_round_trip(major, key, n, clock);
}

/// Every vehicle of an epoch that is told as it is has its line.
pub proof fn lemma_v3_vehicles(h: HeaderView, obs: ObservationsView)
    requires
        covered(h.tables, obs),
        all_read_back(vehicles_of(obs)),
    ensures
        forall|i: int|
            0 <= i < vehicles_of(obs).len() ==> table_for(h.tables, #[trigger] vehicles_of(obs)[i])
                is Some,
        forall|i: int|
            0 <= i < vehicles_of(obs).len() ==> v3_line_text(
                h,
                obs,
                #[trigger] vehicles_of(obs)[i],
            ) is Ok,
{
    let svs = vehicles_of(obs);
    assert forall|i: int| 0 <= i < svs.len() implies table_for(h.tables, #[trigger] svs[i])
        is Some by {
        lemma_vehicle_held(obs, i);
        let j = choose|j: int| 0 <= j < obs.len() && obs[j].0.sv == svs[i];
        assert(table_for(h.tables, obs[j].0.sv) is Some);
    }
    assert forall|i: int| 0 <= i < svs.len() implies v3_line_text(h, obs, #[trigger] svs[i])
        is Ok by {
        assert(reads_back(svs[i]));
        assert(table_for(h.tables, svs[i]) is Some);
    }
}

/// The lines of the text of an epoch of revision 3: the line that opens
/// the epoch, then lines that are read as the observations of the
/// epoch.
pub proof fn lemma_v3_lines_of_text(h: HeaderView, key: RecordKey, entry: RecordEntryView)
    requires
        told_v3(h, key, entry),
    ensures
        v3_text(h, key, entry) is Ok,
        lines_of(v3_text(h, key, entry)->Ok_0).len() >= 1,
        lines_of(v3_text(h, key, entry)->Ok_0)[0] == head_text(
            true,
            key,
            vehicles_of(entry.observations).len(),
            entry.clock_offset,
        ),
        v3_observations(
            h.tables,
            lines_of(v3_text(h, key, entry)->Ok_0).skip(1),
            (lines_of(v3_text(h, key, entry)->Ok_0).len() - 1) as nat,
        ) == Ok::<ObservationsView, Error>(entry.observations),
{
    let obs = entry.observations;
    let svs = vehicles_of(obs);
    let n = svs.len();
    let list = v3_line_list(h, obs, svs, n);
    let head = head_text(true, key, n, entry.clock_offset);
    let feed = seq![10u8];
    lemma_v3_vehicles(h, obs);
    lemma_v3_lines_joined(h, obs, svs, n);
    crate::observation::roundtrip::head::lemma_head_line(true, key, n, entry.clock_offset);
    let whole = head + feed + joined(list, n);
    assert(v3_text(h, key, entry) == Ok::<Seq<u8>, Error>(trim_end(whole)));
    let text = trim_end(whole);
    if n == 0 {
        assert(joined(list, 0) =~= Seq::<u8>::empty());
        assert(whole =~= Seq::<u8>::empty() + head + feed);
        lemma_trim_end_last_line(Seq::empty(), head, 0);
        crate::text::lemma_trailing_spaces_is(head, 0);
        assert(trim_end(head) =~= head);
        assert(text =~= head);
        lemma_lines_of_last(head);
        if obs.len() > 0 {
            crate::observation::roundtrip::lemma_vehicle_listed(obs, 0);
        }
        assert(obs =~= Seq::empty());
        assert(lines_of(text).skip(1).len() == 0);
    } else {
        if obs.len() == 0 {
            assert(vehicles_of(obs).len() == 0);
        }
        let last = list[n - 1];
        let sv = svs[n - 1];
        assert(last == v3_line_text(h, obs, sv)->Ok_0);
        assert(reads_back(sv));
        lemma_identifier_width(sv);
        lemma_identifier_tight(sv);
        assert(last[2] == sv.spec_identifier()->0[2]);
        let x = head + feed + joined(list, (n - 1) as nat);
        assert(whole =~= x + last + feed);
        lemma_trim_end_last_line(x, last, 2);
        let tl = trim_end(last);
        let more = joined(list, (n - 1) as nat) + tl;
        assert(text =~= head + feed + more);
        lemma_lines_of_line(head, more);
        assert forall|i: int| 0 <= i < n implies one_line(#[trigger] list[i]) by {
            lemma_one_line_vehicle(h, obs, svs[i]);
        }
        lemma_lines_of_joined(list, (n - 1) as nat, tl);
        lemma_one_line_start(last, tl.len() as int);
        lemma_lines_of_last(tl);
        let rest = list.take(n - 1) + seq![tl];
        assert(lines_of(text) == seq![head] + rest);
        assert((seq![head] + rest).skip(1) =~= rest);
        assert(rest.len() == n);
        lemma_v3_observations_prefix(h.tables, rest, list, (n - 1) as nat);
        lemma_v3_lines_held(h, obs, svs, (n - 1) as nat);
        let base = held_by(obs, svs, h.tables, (n - 1) as nat);
        lemma_v3_line_trimmed(h, base, obs, sv);
        assert(rest[n - 1] == tl);
        lemma_held_by_all(obs, h.tables);
    }
}

/// Round trip in revision 3: the text that the writer makes of an
/// epoch is read back as the epoch, when the text tells the epoch as
/// it is.
pub proof fn lemma_v3_round_trip(h: HeaderView, key: RecordKey, entry: RecordEntryView)
    requires
        told_v3(h, key, entry),
    ensures
        crate::observation::formatting::epoch_text(h, key, entry) matches Ok(text) && epoch_of(
            h,
            text,
            key.epoch.time_scale,
        ) == Ok::<(RecordKey, RecordEntryView), Error>((key, entry)) && lines_of(text).len() >= 1
            && head_of(h.major, lines_of(text)[0], key.epoch.time_scale) == Ok::<EpochHead, Error>(
            EpochHead {
                key,
                n_sat: vehicles_of(entry.observations).len() as u16,
                clock_offset: entry.clock_offset,
            },
        ),
{
    let obs = entry.observations;
    let n = vehicles_of(obs).len();
    lemma_v3_lines_of_text(h, key, entry);
    lemma_v3_head(h.major, key, n, entry.clock_offset);
    let text = v3_text(h, key, entry)->Ok_0;
    let lines = lines_of(text);
    let head = EpochHead { key, n_sat: n as u16, clock_offset: entry.clock_offset };
    assert(head_of(h.major, lines[0], key.epoch.time_scale) == Ok::<EpochHead, Error>(head));
    if !key.flag.spec_has_observations() {
        assert(obs =~= Seq::empty());
    }
    assert(block_of(h, head, lines) == Ok::<ObservationsView, Error>(obs));
    assert(epoch_of_lines(h, lines, key.epoch.time_scale) == Ok::<
        (RecordKey, RecordEntryView),
        Error,
    >((key, entry)));
}

} // verus!
