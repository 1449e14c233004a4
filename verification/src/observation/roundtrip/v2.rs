//! An epoch of revision 2 is read back from its text.

use crate::assoc::lemma_rank_of_member;
use crate::assoc::lookup;
use crate::assoc::sorted;
use crate::constellation::SV;
use crate::header::HeaderView;
use crate::observable::ObservableView;
use crate::observation::formatting::blanks;
use crate::observation::formatting::epoch_text;
use crate::observation::formatting::head_clock;
use crate::observation::formatting::head_text;
use crate::observation::formatting::rounded;
use crate::observation::formatting::row_text;
use crate::observation::formatting::v2_break;
use crate::observation::formatting::v2_rows;
use crate::observation::formatting::v2_text;
use crate::observation::formatting::v2_vehicles;
use crate::observation::parsing::EpochHead;
use crate::observation::parsing::V2State;
use crate::observation::parsing::block_of;
use crate::observation::parsing::clock_column;
use crate::observation::parsing::clock_offset_of;
use crate::observation::parsing::epoch_of;
use crate::observation::parsing::head_of;
use crate::observation::parsing::least;
use crate::observation::parsing::slot_text;
use crate::observation::parsing::v2_count;
use crate::observation::parsing::v2_extra_lines;
use crate::observation::parsing::v2_observations;
use crate::observation::parsing::v2_run;
use crate::observation::parsing::v2_start;
use crate::observation::parsing::v2_step;
use crate::observation::parsing::v2_systems;
use crate::observation::parsing::with_slots;
use crate::observation::record::Error;
use crate::observation::record::ObservationKeyView;
use crate::observation::record::ObservationsView;
use crate::observation::record::RecordEntryView;
use crate::observation::record::RecordKey;
use crate::observation::record::vehicles_of;
use crate::observation::roundtrip::all_fit;
use crate::observation::roundtrip::all_read_back;
use crate::observation::roundtrip::among;
use crate::observation::roundtrip::chunk_count;
use crate::observation::roundtrip::covered;
use crate::observation::roundtrip::fields::lemma_fixed_text_scaled;
use crate::observation::roundtrip::framing::joined;
use crate::observation::roundtrip::framing::last_marked;
use crate::observation::roundtrip::framing::lemma_last_marked;
use crate::observation::roundtrip::framing::lemma_last_marked_after;
use crate::observation::roundtrip::framing::lemma_lines_of_joined;
use crate::observation::roundtrip::framing::lemma_lines_of_last;
use crate::observation::roundtrip::framing::lemma_one_line_fixed;
use crate::observation::roundtrip::framing::lemma_one_line_joined;
use crate::observation::roundtrip::framing::lemma_one_line_padded;
use crate::observation::roundtrip::framing::lemma_trim_end_blank_tail;
use crate::observation::roundtrip::framing::lemma_trim_end_tail;
use crate::observation::roundtrip::framing::marked;
use crate::observation::roundtrip::framing::one_line;
use crate::observation::roundtrip::head::lemma_head_line;
use crate::observation::roundtrip::head::lemma_head_round_trip;
use crate::observation::roundtrip::head::told;
use crate::observation::roundtrip::held_by;
use crate::observation::roundtrip::identifiers;
use crate::observation::roundtrip::lemma_held_by_all;
use crate::observation::roundtrip::lemma_held_fits;
use crate::observation::roundtrip::lemma_identifier_width;
use crate::observation::roundtrip::lemma_identifiers;
use crate::observation::roundtrip::lemma_identifiers_width;
use crate::observation::roundtrip::lemma_identify;
use crate::observation::roundtrip::lemma_row_layout;
use crate::observation::roundtrip::lemma_row_slot;
use crate::observation::roundtrip::lemma_v2_from_append;
use crate::observation::roundtrip::lemma_v2_from_prefix;
use crate::observation::roundtrip::lemma_v2_lines_held;
use crate::observation::roundtrip::lemma_v2_run_from;
use crate::observation::roundtrip::lemma_v2_vehicle_lines;
use crate::observation::roundtrip::lemma_vehicle_held;
use crate::observation::roundtrip::lemma_vehicle_listed;
use crate::observation::roundtrip::lemma_with_held_split;
use crate::observation::roundtrip::lemma_with_slots_alike;
use crate::observation::roundtrip::lemma_with_slots_shift;
use crate::observation::roundtrip::reads_back;
use crate::observation::roundtrip::table_for;
use crate::observation::roundtrip::v2_line_list;
use crate::observation::roundtrip::v2_row_lines;
use crate::observation::roundtrip::v2_state_at;
use crate::observation::roundtrip::v3::lemma_blank_slot_held;
use crate::observation::roundtrip::v3::lemma_held_slot_mark;
use crate::observation::roundtrip::v3::lemma_identifier_tight;
use crate::observation::roundtrip::v3::lemma_one_line_row;
use crate::observation::roundtrip::v3::lemma_one_line_start;
use crate::observation::roundtrip::v3::lemma_row_trimmed_slots;
use crate::observation::roundtrip::v3::lemma_with_held_rest;
use crate::observation::roundtrip::with_held;
use crate::text::all_spaces;
use crate::text::ceil_div;
use crate::text::clip;
use crate::text::decimal_value;
use crate::text::fixed_text;
use crate::text::is_space;
use crate::text::lemma_fixed_text_value;
use crate::text::lemma_trimmed_of_padded;
use crate::text::lemma_trimmed_of_tight;
use crate::text::lines_of;
use crate::text::pad_left;
use crate::text::pow10;
use crate::text::trim_end;
use crate::text::trimmed;
use vstd::prelude::*;

verus! {

/// The first `k` lines of a list, a line feed before each.
pub open spec fn led(lines: Seq<Seq<u8>>, k: nat) -> Seq<u8>
    decreases k,
{
    if k == 0 {
        Seq::empty()
    } else {
        led(lines, (k - 1) as nat) + seq![10u8] + lines[k - 1]
    }
}

/// Only the lines gone through count.
pub proof fn lemma_led_prefix(a: Seq<Seq<u8>>, b: Seq<Seq<u8>>, k: nat)
    requires
        k <= a.len(),
        k <= b.len(),
        forall|i: int| 0 <= i < k ==> a[i] == b[i],
    ensures
        led(a, k) == led(b, k),
    decreases k,
{
    if k > 0 {
        lemma_led_prefix(a, b, (k - 1) as nat);
    }
}

/// The lines of two lists, one list after the other.
pub proof fn lemma_led_append(a: Seq<Seq<u8>>, b: Seq<Seq<u8>>, k: nat)
    requires
        k <= b.len(),
    ensures
        led(a + b, a.len() + k) == led(a, a.len()) + led(b, k),
    decreases k,
{
    if k > 0 {
        lemma_led_append(a, b, (k - 1) as nat);
        assert((a + b)[a.len() + k - 1] == b[k - 1]);
        let x = led(a, a.len());
        let y = led(b, (k - 1) as nat);
        assert((x + y) + seq![10u8] + b[k - 1] =~= x + (y + seq![10u8] + b[k - 1]));
    } else {
        lemma_led_prefix(a + b, a, a.len());
        assert(led(a, a.len()) + led(b, 0) =~= led(a, a.len()));
    }
}

/// The slots of a vehicle, five to a line: the slots of one more line.
pub proof fn lemma_row_chunk(
    obs: ObservationsView,
    sv: SV,
    table: Seq<ObservableView>,
    m: nat,
    c: nat,
)
    requires
        1 <= c <= 5,
        5 * m + c <= table.len(),
    ensures
        row_text(obs, sv, table, 5 * m + c, 5) == row_text(obs, sv, table, 5 * m, 5) + seq![10u8]
            + row_text(obs, sv, table.skip(5 * (m as int)), c, 0),
    decreases c,
{
    let start = row_text(obs, sv, table, 5 * m, 5);
    let rest = table.skip(5 * (m as int));
    assert(rest[c - 1] == table[5 * m + c - 1]);
    let slot = crate::observation::formatting::slot_of(
        lookup(obs, ObservationKeyView { sv, observable: table[5 * m + c - 1] }),
    );
    if c == 1 {
        assert(row_text(obs, sv, rest, 0, 0) =~= Seq::<u8>::empty());
        assert(row_text(obs, sv, rest, 1, 0) =~= slot);
        assert((5 * m + 1 - 1) % 5 == 0);
        assert(row_text(obs, sv, table, 5 * m + 1, 5) == start + seq![10u8] + slot);
    } else {
        lemma_row_chunk(obs, sv, table, m, (c - 1) as nat);
        let before = row_text(obs, sv, rest, (c - 1) as nat, 0);
        assert((5 * m + c - 1) % 5 != 0);
        assert(row_text(obs, sv, rest, c, 0) =~= before + slot);
        assert(row_text(obs, sv, table, 5 * m + c, 5) =~= row_text(
            obs,
            sv,
            table,
            (5 * m + c - 1) as nat,
            5,
        ) + slot);
        assert((start + seq![10u8] + before) + slot =~= start + seq![10u8] + (before + slot));
    }
}

/// The slots of a vehicle, five to a line, are the lines of the
/// vehicle, a line feed before each.
pub proof fn lemma_row_lines(obs: ObservationsView, sv: SV, table: Seq<ObservableView>, m: nat)
    requires
        m <= ceil_div(table.len(), 5),
    ensures
        row_text(obs, sv, table, least(5 * (m as int), table.len() as int) as nat, 5) == led(
            v2_row_lines(obs, sv, table),
            m,
        ),
    decreases m,
{
    if m > 0 {
        lemma_row_lines(obs, sv, table, (m - 1) as nat);
        let c = chunk_count(table.len(), (m - 1) as nat);
        assert(5 * (m - 1) < table.len());
        lemma_row_chunk(obs, sv, table, (m - 1) as nat, c);
        assert(least(5 * (m as int), table.len() as int) == 5 * (m - 1) + c);
    }
}

/// The slots of the vehicles of an epoch of revision 2 are the lines of
/// the vehicles, a line feed before each.
pub proof fn lemma_v2_rows_led(h: HeaderView, obs: ObservationsView, svs: Seq<SV>, n: nat)
    requires
        n <= svs.len(),
        forall|i: int| 0 <= i < svs.len() ==> table_for(h.tables, #[trigger] svs[i]) is Some,
    ensures
        v2_rows(h, obs, svs, n) == Ok::<Seq<u8>, Error>(
            led(v2_line_list(h, obs, svs, n), v2_line_list(h, obs, svs, n).len()),
        ),
    decreases n,
{
    if n > 0 {
        lemma_v2_rows_led(h, obs, svs, (n - 1) as nat);
        assert(table_for(h.tables, svs[n - 1]) is Some);
        let table = table_for(h.tables, svs[n - 1])->0;
        let a = v2_line_list(h, obs, svs, (n - 1) as nat);
        let b = v2_row_lines(obs, svs[n - 1], table);
        lemma_row_lines(obs, svs[n - 1], table, b.len());
        lemma_led_append(a, b, b.len());
        assert(least(5 * (b.len() as int), table.len() as int) == table.len());
    }
}

/// The identifiers of the vehicles of a list from one place up to
/// another.
pub open spec fn ids_between(svs: Seq<SV>, from: int, to: int) -> Seq<u8>
    decreases to - from,
{
    if to <= from {
        Seq::empty()
    } else {
        ids_between(svs, from, to - 1) + svs[to - 1].spec_identifier()->0
    }
}

/// The clock offset as the first line of an epoch of revision 2 tells
/// it: nine decimals in 12 columns.
pub open spec fn clock_field(clock: Option<i64>) -> Seq<u8> {
    match clock {
        Some(c) => pad_left(fixed_text(rounded(c as int, 1000), 9), 12, 32),
        None => Seq::empty(),
    }
}

/// The `k`-th of the lines that name the `n` vehicles of an epoch of
/// revision 2: the first starts with `front` and ends with the clock
/// offset when another line follows, the others start with 32 blanks;
/// each names 12 vehicles at most.
pub open spec fn head_line_at(
    front: Seq<u8>,
    svs: Seq<SV>,
    clock: Option<i64>,
    n: nat,
    k: int,
) -> Seq<u8> {
    if k == 0 {
        front + ids_between(svs, 0, least(n as int, 12)) + if n > 12 {
            clock_field(clock)
        } else {
            Seq::empty()
        }
    } else {
        blanks(32) + ids_between(svs, 12 * k, least(n as int, 12 * k + 12))
    }
}

/// The lines that name the `n` vehicles of an epoch of revision 2.
pub open spec fn head_lines(front: Seq<u8>, svs: Seq<SV>, clock: Option<i64>, n: nat) -> Seq<
    Seq<u8>,
> {
    Seq::new((1 + v2_extra_lines(n as int)) as nat, |k: int| head_line_at(front, svs, clock, n, k))
}

/// Only the lines gone through count.
pub proof fn lemma_joined_prefix(a: Seq<Seq<u8>>, b: Seq<Seq<u8>>, k: nat)
    requires
        k <= a.len(),
        k <= b.len(),
        forall|i: int| 0 <= i < k ==> a[i] == b[i],
    ensures
        joined(a, k) == joined(b, k),
    decreases k,
{
    if k > 0 {
        lemma_joined_prefix(a, b, (k - 1) as nat);
    }
}

/// Pieces of a text taken together in another way.
proof fn lemma_regroup(x: Seq<u8>, y: Seq<u8>, a: Seq<u8>, b: Seq<u8>, c: Seq<u8>, d: Seq<u8>)
    ensures
        x + y + (a + b + c) + d == (x + (y + a) + b) + (c + d),
        x + y + d == x + (y + d),
{
    assert(x + y + (a + b + c) + d =~= (x + (y + a) + b) + (c + d));
    assert(x + y + d =~= x + (y + d));
}

/// The first line of an epoch of revision 2 and the identifiers of its
/// vehicles, as the writer lays them out, are the lines that name the
/// vehicles, a line feed between them.
pub proof fn lemma_head_lines(front: Seq<u8>, svs: Seq<SV>, clock: Option<i64>, n: nat)
    requires
        1 <= n <= svs.len(),
        forall|i: int| 0 <= i < svs.len() ==> (#[trigger] svs[i]).spec_identifier() is Some,
    ensures
        v2_vehicles(svs, clock, n) is Ok,
        front + v2_vehicles(svs, clock, n)->Ok_0 == joined(
            head_lines(front, svs, clock, n),
            v2_extra_lines(n as int) as nat,
        ) + head_lines(front, svs, clock, n)[v2_extra_lines(n as int)],
    decreases n,
{
    let i = n - 1;
    assert(svs[i].spec_identifier() is Some);
    let id = svs[i].spec_identifier()->0;
    let now = head_lines(front, svs, clock, n);
    let e = v2_extra_lines(n as int);
    if i == 0 {
        assert(ids_between(svs, 0, 0) =~= Seq::<u8>::empty());
        assert(ids_between(svs, 0, 1) =~= id);
        assert(v2_vehicles(svs, clock, 0) == Ok::<Seq<u8>, Error>(Seq::empty()));
        assert(v2_break(0, clock) =~= Seq::<u8>::empty());
        assert(v2_vehicles(svs, clock, 1)->Ok_0 =~= id);
        assert(joined(now, 0) =~= Seq::<u8>::empty());
        assert(front + id =~= joined(now, 0) + now[0]);
    } else {
        lemma_head_lines(front, svs, clock, (n - 1) as nat);
        let before = head_lines(front, svs, clock, (n - 1) as nat);
        let p = v2_extra_lines(n - 1);
        let text = v2_vehicles(svs, clock, (n - 1) as nat)->Ok_0;
        assert(v2_vehicles(svs, clock, n)->Ok_0 == text + v2_break(i, clock) + id);
        if i % 12 != 0 {
            assert(p == e);
            assert(v2_break(i, clock) =~= Seq::<u8>::empty());
            assert forall|k: int| 0 <= k < e implies now[k] == before[k] by {
                if k > 0 {
                    assert(12 * k + 12 <= n - 1);
                }
            }
            lemma_joined_prefix(now, before, e as nat);
            if e == 0 {
                assert(ids_between(svs, 0, n as int) == ids_between(svs, 0, n - 1) + id);
                assert(now[0] =~= before[0] + id);
            } else {
                assert(least(n as int, 12 * e + 12) == n);
                assert(least(n - 1, 12 * e + 12) == n - 1);
                assert(now[e] =~= before[e] + id);
            }
            lemma_regroup(
                joined(before, e as nat),
                before[e],
                Seq::empty(),
                Seq::empty(),
                Seq::empty(),
                id,
            );
            assert(front + (text + v2_break(i, clock) + id) =~= (front + text) + id);
        } else {
            assert(e == i / 12);
            assert(p == e - 1);
            assert forall|k: int| 0 <= k < p implies now[k] == before[k] by {
                if k > 0 {
                    assert(12 * k + 12 <= n - 1);
                }
            }
            lemma_joined_prefix(now, before, p as nat);
            let tail = if i == 12 {
                clock_field(clock)
            } else {
                Seq::<u8>::empty()
            };
            assert(v2_break(i, clock) =~= tail + seq![10u8] + blanks(32));
            if p == 0 {
                assert(now[0] =~= before[0] + tail);
            } else {
                assert(now[p] =~= before[p] + tail);
            }
            assert(ids_between(svs, 12 * e, 12 * e) =~= Seq::<u8>::empty());
            assert(ids_between(svs, 12 * e, 12 * e + 1) =~= id);
            assert(now[e] =~= blanks(32) + id);
            assert(joined(now, e as nat) == joined(now, p as nat) + now[p] + seq![10u8]);
            lemma_regroup(joined(before, p as nat), before[p], tail, seq![10u8], blanks(32), id);
            assert(front + (text + v2_break(i, clock) + id) =~= (front + text) + (tail + seq![
                10u8,
            ] + blanks(32)) + id);
        }
    }
}

/// Of a text that ends with lines, the blank lines at the end and the
/// blanks that end the last marked line are all that goes when the text
/// is trimmed.
pub proof fn lemma_trim_end_led(x: Seq<u8>, lines: Seq<Seq<u8>>, k: nat)
    requires
        k <= lines.len(),
        last_marked(lines, k) >= 0,
    ensures
        trim_end(x + led(lines, k)) == x + led(lines, last_marked(lines, k) as nat) + seq![10u8]
            + trim_end(lines[last_marked(lines, k)]),
    decreases k,
{
    let l = lines[k - 1];
    let before = led(lines, (k - 1) as nat);
    let feed = seq![10u8];
    if marked(l) {
        let at = choose|i: int| 0 <= i < l.len() && !is_space(#[trigger] l[i]);
        lemma_trim_end_tail(x + before + feed, l, at);
        assert(x + led(lines, k) =~= (x + before + feed) + l);
    } else {
        lemma_trim_end_led(x, lines, (k - 1) as nat);
        assert forall|j: int| 0 <= j < l.len() implies is_space(#[trigger] l[j]) by {}
        let tail = feed + l;
        assert forall|j: int| 0 <= j < tail.len() implies is_space(#[trigger] tail[j]) by {
            if j > 0 {
                assert(tail[j] == l[j - 1]);
            }
        }
        lemma_trim_end_blank_tail(x + before, tail);
        assert(x + led(lines, k) =~= (x + before) + tail);
    }
}

/// Lines with a line feed between them, then lines with a line feed
/// before each, are the lines of both lists with a line feed between
/// them.
pub proof fn lemma_joined_led(a: Seq<Seq<u8>>, d: Seq<Seq<u8>>, k: nat)
    requires
        a.len() >= 1,
        k <= d.len(),
    ensures
        joined(a, (a.len() - 1) as nat) + a.last() + led(d, k) == joined(
            a + d,
            (a.len() + k - 1) as nat,
        ) + (a + d)[a.len() + k - 1],
    decreases k,
{
    let all = a + d;
    if k > 0 {
        lemma_joined_led(a, d, (k - 1) as nat);
        let x = joined(a, (a.len() - 1) as nat) + a.last();
        let y = led(d, (k - 1) as nat);
        assert(all[a.len() + k - 1] == d[k - 1]);
        assert(x + (y + seq![10u8] + d[k - 1]) =~= (x + y) + seq![10u8] + d[k - 1]);
    } else {
        lemma_joined_prefix(all, a, (a.len() - 1) as nat);
        assert(all[a.len() - 1] == a.last());
        assert(joined(a, (a.len() - 1) as nat) + a.last() + led(d, 0) =~= joined(
            a,
            (a.len() - 1) as nat,
        ) + a.last());
    }
}

/// Lines with a line feed between them, the last one not empty, are
/// the lines of their text.
pub proof fn lemma_lines_of_all(all: Seq<Seq<u8>>)
    requires
        all.len() >= 1,
        forall|i: int| 0 <= i < all.len() ==> one_line(#[trigger] all[i]),
        all.last().len() > 0,
    ensures
        lines_of(joined(all, (all.len() - 1) as nat) + all.last()) == all,
{
    lemma_lines_of_joined(all, (all.len() - 1) as nat, all.last());
    lemma_lines_of_last(all.last());
    assert(all.take(all.len() - 1) + seq![all.last()] =~= all);
}

/// The identifiers of vehicles take three columns each and hold no
/// blank.
pub proof fn lemma_ids_between(svs: Seq<SV>, from: int, to: int)
    requires
        0 <= from <= to <= svs.len(),
        all_read_back(svs),
    ensures
        ids_between(svs, from, to).len() == 3 * (to - from),
        forall|i: int|
            0 <= i < 3 * (to - from) ==> !is_space(#[trigger] ids_between(svs, from, to)[i]),
        one_line(ids_between(svs, from, to)),
    decreases to - from,
{
    if from < to {
        lemma_ids_between(svs, from, to - 1);
        assert(reads_back(svs[to - 1]));
        lemma_identifier_width(svs[to - 1]);
        lemma_identifier_tight(svs[to - 1]);
        let a = ids_between(svs, from, to - 1);
        let id = svs[to - 1].spec_identifier()->0;
        let t = ids_between(svs, from, to);
        assert forall|i: int| 0 <= i < 3 * (to - from) implies !is_space(#[trigger] t[i]) by {
            if i < a.len() {
                assert(t[i] == a[i]);
            } else {
                assert(t[i] == id[i - a.len()]);
            }
        }
        lemma_one_line_joined(a, id);
    }
}

/// The identifiers of vehicles, one stretch after the other.
pub proof fn lemma_ids_joined(svs: Seq<SV>, from: int, mid: int, to: int)
    requires
        from <= mid <= to,
    ensures
        ids_between(svs, from, mid) + ids_between(svs, mid, to) == ids_between(svs, from, to),
    decreases to - mid,
{
    if mid < to {
        lemma_ids_joined(svs, from, mid, to - 1);
        let id = svs[to - 1].spec_identifier()->0;
        assert(ids_between(svs, from, mid) + (ids_between(svs, mid, to - 1) + id) =~= (ids_between(
            svs,
            from,
            mid,
        ) + ids_between(svs, mid, to - 1)) + id);
    } else {
        assert(ids_between(svs, from, mid) + ids_between(svs, mid, to) =~= ids_between(
            svs,
            from,
            to,
        ));
    }
}

/// The identifiers of the first vehicles of a list.
pub proof fn lemma_ids_first(svs: Seq<SV>, n: nat)
    ensures
        ids_between(svs, 0, n as int) == identifiers(svs, n),
    decreases n,
{
    if n > 0 {
        lemma_ids_first(svs, (n - 1) as nat);
    }
}

/// The identifiers are read back from the lines that name the vehicles
/// of an epoch of revision 2.
pub proof fn lemma_v2_systems(
    lines: Seq<Seq<u8>>,
    front: Seq<u8>,
    svs: Seq<SV>,
    clock: Option<i64>,
    n: nat,
    k: nat,
)
    requires
        1 <= n <= svs.len(),
        all_read_back(svs),
        front.len() == 32,
        k <= v2_extra_lines(n as int) < lines.len(),
        forall|j: int|
            0 <= j <= v2_extra_lines(n as int) ==> #[trigger] lines[j] == head_line_at(
                front,
                svs,
                clock,
                n,
                j,
            ),
    ensures
        v2_systems(lines, k) == ids_between(svs, 0, least(n as int, 12 * (k as int) + 12)),
    decreases k,
{
    let to = least(n as int, 12 * (k as int) + 12);
    if k == 0 {
        let ids = ids_between(svs, 0, to);
        lemma_ids_between(svs, 0, to);
        let line = lines[0];
        assert(line == head_line_at(front, svs, clock, n, 0));
        assert(clip(line, 32, 68) =~= ids);
        assert(!is_space(ids[0]));
        assert(!is_space(ids.last()));
        lemma_trimmed_of_tight(ids);
    } else {
        lemma_v2_systems(lines, front, svs, clock, n, (k - 1) as nat);
        let ids = ids_between(svs, 12 * (k as int), to);
        lemma_ids_between(svs, 12 * (k as int), to);
        let line = lines[k as int];
        assert(line == head_line_at(front, svs, clock, n, k as int));
        assert(line =~= blanks(32) + ids + Seq::<u8>::empty());
        assert(!is_space(ids[0]));
        assert(!is_space(ids.last()));
        lemma_trimmed_of_padded(blanks(32), ids, Seq::empty());
        lemma_ids_joined(svs, 0, 12 * (k as int), to);
    }
}

/// Something is held for the observable whose slot holds a character
/// that is no blank.
pub proof fn lemma_marked_slot_held(
    obs: ObservationsView,
    sv: SV,
    table: Seq<ObservableView>,
    n: nat,
    i: int,
)
    requires
        all_fit(obs),
        0 <= i < 16 * n,
        !is_space(row_text(obs, sv, table, n, 0)[i]),
    ensures
        lookup(obs, ObservationKeyView { sv, observable: table[i / 16] }) is Some,
        !is_space(row_text(obs, sv, table, n, 0)[16 * (i / 16) + 13]),
{
    let row = row_text(obs, sv, table, n, 0);
    let j = i / 16;
    let k = ObservationKeyView { sv, observable: table[j] };
    lemma_row_layout(obs, sv, table, 0, n);
    lemma_row_slot(obs, sv, table, n, j);
    lemma_held_fits(obs, k);
    let full = slot_text(row, j, true);
    assert(full[i - 16 * j] == row[i]);
    match lookup(obs, k) {
        Some(d) => {
            lemma_held_slot_mark(d);
            assert(full[13] == row[16 * j + 13]);
        },
        None => {},
    }
}

/// The line of a vehicle that holds the slot of something held is
/// marked.
pub proof fn lemma_held_line_marked(
    obs: ObservationsView,
    sv: SV,
    table: Seq<ObservableView>,
    j: int,
)
    requires
        all_fit(obs),
        0 <= j < table.len(),
        lookup(obs, ObservationKeyView { sv, observable: table[j] }) is Some,
    ensures
        j / 5 < v2_row_lines(obs, sv, table).len(),
        marked(v2_row_lines(obs, sv, table)[j / 5]),
{
    let q = j / 5;
    let c = chunk_count(table.len(), q as nat);
    let rest = table.skip(5 * q);
    let row = row_text(obs, sv, rest, c, 0);
    let p = j - 5 * q;
    assert(rest[p] == table[j]);
    let k = ObservationKeyView { sv, observable: table[j] };
    lemma_row_layout(obs, sv, rest, 0, c);
    lemma_row_slot(obs, sv, rest, c, p);
    lemma_held_fits(obs, k);
    lemma_held_slot_mark(lookup(obs, k)->0);
    let full = slot_text(row, p, true);
    assert(full[13] == row[16 * p + 13]);
    assert(v2_row_lines(obs, sv, table)[q] == row);
}

/// An observable that is among those of a table has its place there.
pub proof fn lemma_among_place(table: Seq<ObservableView>, count: nat, o: ObservableView) -> (j:
    int)
    requires
        among(table, count, o),
    ensures
        0 <= j < count,
        table[j] == o,
    decreases count,
{
    if table[count - 1] == o {
        count - 1
    } else {
        lemma_among_place(table, (count - 1) as nat, o)
    }
}

/// Something is held for every vehicle of an epoch, of an observable
/// that the header names.
pub proof fn lemma_vehicle_holds(h: HeaderView, obs: ObservationsView, i: int) -> (j: int)
    requires
        sorted(obs),
        covered(h.tables, obs),
        0 <= i < vehicles_of(obs).len(),
    ensures
        table_for(h.tables, vehicles_of(obs)[i]) is Some,
        0 <= j < table_for(h.tables, vehicles_of(obs)[i])->0.len(),
        lookup(
            obs,
            ObservationKeyView {
                sv: vehicles_of(obs)[i],
                observable: table_for(h.tables, vehicles_of(obs)[i])->0[j],
            },
        ) is Some,
{
    lemma_vehicle_held(obs, i);
    let x = choose|x: int| 0 <= x < obs.len() && obs[x].0.sv == vehicles_of(obs)[i];
    lemma_rank_of_member(obs, x);
    assert(table_for(h.tables, obs[x].0.sv) is Some);
    let table = table_for(h.tables, obs[x].0.sv)->0;
    let j = lemma_among_place(table, table.len(), obs[x].0.observable);
    assert(obs[x].0 == ObservationKeyView { sv: vehicles_of(obs)[i], observable: table[j] });
    j
}

/// The last marked line of a vehicle that lost the blanks at its end
/// is read as what the epoch holds for the whole vehicle: the lines
/// after it are blank.
pub proof fn lemma_v2_trimmed_line(
    base: ObservationsView,
    obs: ObservationsView,
    sv: SV,
    table: Seq<ObservableView>,
    mm: nat,
    w: int,
)
    requires
        all_fit(obs),
        mm < ceil_div(table.len(), 5),
        1 <= w <= v2_row_lines(obs, sv, table)[mm as int].len(),
        !is_space(v2_row_lines(obs, sv, table)[mm as int][w - 1]),
        forall|x: int|
            w <= x < v2_row_lines(obs, sv, table)[mm as int].len() ==> is_space(
                #[trigger] v2_row_lines(obs, sv, table)[mm as int][x],
            ),
        forall|q: int|
            mm < q < ceil_div(table.len(), 5) ==> all_spaces(
                #[trigger] v2_row_lines(obs, sv, table)[q],
            ),
    ensures
        w >= 10,
        with_slots(
            with_held(base, obs, sv, table, 5 * mm),
            Some(sv),
            table,
            5 * (mm as int),
            v2_count(w as nat, table.len() as int, 5 * (mm as int)) as nat,
            v2_row_lines(obs, sv, table)[mm as int].take(w),
            false,
        ) == with_held(base, obs, sv, table, table.len()),
{
    let lines = v2_row_lines(obs, sv, table);
    let c = chunk_count(table.len(), mm);
    let rest = table.skip(5 * (mm as int));
    let row = row_text(obs, sv, rest, c, 0);
    assert(lines[mm as int] == row);
    lemma_row_layout(obs, sv, rest, 0, c);
    lemma_marked_slot_held(obs, sv, rest, c, w - 1);
    let jt = (w - 1) / 16;
    assert(16 * jt + 13 < w);
    let count = v2_count(w as nat, table.len() as int, 5 * (mm as int));
    assert(ceil_div(w as nat, 16) == jt + 1);
    assert(count == jt + 1);
    let start = with_held(base, obs, sv, table, 5 * mm);
    lemma_with_slots_alike(start, Some(sv), table, 5 * (mm as int), count as nat, row.take(w));
    lemma_with_slots_shift(
        start,
        Some(sv),
        table,
        5 * (mm as int),
        count as nat,
        row.take(w),
        true,
    );
    lemma_row_trimmed_slots(start, obs, sv, rest, c, w, count as nat);
    lemma_with_held_split(base, obs, sv, table, 5 * mm, count as nat);
    let upto = (5 * mm + count) as nat;
    assert forall|j: int| upto <= j < table.len() implies lookup(
        obs,
        ObservationKeyView { sv, observable: #[trigger] table[j] },
    ) is None by {
        if j < 5 * mm + c {
            let p = j - 5 * mm;
            assert(rest[p] == table[j]);
            assert(16 * p + 13 >= w);
            assert(is_space(row[16 * p + 13]));
            lemma_blank_slot_held(obs, sv, rest, c, p);
        } else {
            let q = j / 5;
            let cq = chunk_count(table.len(), q as nat);
            let later = table.skip(5 * q);
            let line = row_text(obs, sv, later, cq, 0);
            let p = j - 5 * q;
            assert(later[p] == table[j]);
            assert(lines[q] == line);
            assert(all_spaces(lines[q]));
            lemma_row_layout(obs, sv, later, 0, cq);
            assert(is_space(line[16 * p + 13]));
            lemma_blank_slot_held(obs, sv, later, cq, p);
        }
    }
    lemma_with_held_rest(base, obs, sv, table, upto, table.len());
}

/// Every vehicle of an epoch has observables that the header names.
pub proof fn lemma_v2_tables(h: HeaderView, obs: ObservationsView)
    requires
        covered(h.tables, obs),
    ensures
        forall|i: int|
            0 <= i < vehicles_of(obs).len() ==> (table_for(
                h.tables,
                #[trigger] vehicles_of(obs)[i],
            ) matches Some(t) && t.len() > 0),
{
    let svs = vehicles_of(obs);
    assert forall|i: int| 0 <= i < svs.len() implies (table_for(
        h.tables,
        #[trigger] svs[i],
    ) matches Some(t) && t.len() > 0) by {
        lemma_vehicle_held(obs, i);
        let j = choose|j: int| 0 <= j < obs.len() && obs[j].0.sv == svs[i];
        assert(table_for(h.tables, obs[j].0.sv) is Some);
    }
}

/// The lines of observations that are left of an epoch of revision 2
/// whose text lost the blanks at its end: the lines up to the last
/// marked one, which lost the blanks at its end.
pub open spec fn v2_lines_left(h: HeaderView, obs: ObservationsView) -> Seq<Seq<u8>> {
    let svs = vehicles_of(obs);
    let d = v2_line_list(h, obs, svs, svs.len());
    let m = last_marked(d, d.len());
    d.take(m) + seq![trim_end(d[m])]
}

/// The lines of observations of an epoch of revision 2.
pub open spec fn v2_all_lines(h: HeaderView, obs: ObservationsView) -> Seq<Seq<u8>> {
    v2_line_list(h, obs, vehicles_of(obs), vehicles_of(obs).len())
}

/// The lines of observations of all the vehicles of an epoch of
/// revision 2 but the last.
pub open spec fn v2_earlier_lines(h: HeaderView, obs: ObservationsView) -> Seq<Seq<u8>> {
    v2_line_list(h, obs, vehicles_of(obs), (vehicles_of(obs).len() - 1) as nat)
}

/// The observables of the last vehicle of an epoch.
pub open spec fn v2_last_table(h: HeaderView, obs: ObservationsView) -> Seq<ObservableView> {
    table_for(h.tables, vehicles_of(obs).last())->0
}

/// The place of the last marked line of observations of an epoch of
/// revision 2.
pub open spec fn v2_last_place(h: HeaderView, obs: ObservationsView) -> int {
    last_marked(v2_all_lines(h, obs), v2_all_lines(h, obs).len())
}

/// The last marked line of an epoch of revision 2 is a line of its last
/// vehicle, and the lines after it are blank.
pub proof fn lemma_v2_last_place(h: HeaderView, obs: ObservationsView)
    requires
        sorted(obs),
        obs.len() > 0,
        all_fit(obs),
        covered(h.tables, obs),
    ensures
        vehicles_of(obs).len() > 0,
        v2_all_lines(h, obs) == v2_earlier_lines(h, obs) + v2_row_lines(
            obs,
            vehicles_of(obs).last(),
            v2_last_table(h, obs),
        ),
        v2_earlier_lines(h, obs).len() <= v2_last_place(h, obs) < v2_all_lines(h, obs).len(),
        marked(v2_all_lines(h, obs)[v2_last_place(h, obs)]),
        forall|q: int|
            v2_last_place(h, obs) < q < v2_all_lines(h, obs).len() ==> all_spaces(
                #[trigger] v2_all_lines(h, obs)[q],
            ),
{
    let svs = vehicles_of(obs);
    lemma_vehicle_listed(obs, 0);
    let n = svs.len();
    assert(n > 0);
    lemma_v2_tables(h, obs);
    let i = n - 1;
    let sv = svs[i];
    assert(sv == svs.last());
    let table = table_for(h.tables, sv)->0;
    let a = v2_earlier_lines(h, obs);
    let b = v2_row_lines(obs, sv, table);
    let d = v2_all_lines(h, obs);
    assert(d == a + b);
    let j = lemma_vehicle_holds(h, obs, i);
    lemma_held_line_marked(obs, sv, table, j);
    assert(d[a.len() + j / 5] == b[j / 5]);
    lemma_last_marked_after(d, d.len(), a.len() + j / 5);
    lemma_last_marked(d, d.len());
}

/// The reader of revision 2 before the last marked line of an epoch:
/// it reads the last vehicle, and has put in what the epoch holds for
/// the vehicles before and for the lines gone through.
pub proof fn lemma_v2_before_last(h: HeaderView, obs: ObservationsView, lines: Seq<Seq<u8>>)
    requires
        sorted(obs),
        obs.len() > 0,
        all_fit(obs),
        covered(h.tables, obs),
        all_read_back(vehicles_of(obs)),
        lines.len() >= v2_last_place(h, obs),
        forall|k: int| 0 <= k < v2_last_place(h, obs) ==> lines[k] == v2_all_lines(h, obs)[k],
    ensures
        v2_run(
            h,
            identifiers(vehicles_of(obs), vehicles_of(obs).len()),
            lines,
            v2_last_place(h, obs) as nat,
        ) == Ok::<V2State, Error>(
            v2_state_at(
                h,
                obs,
                vehicles_of(obs),
                vehicles_of(obs).len() - 1,
                (v2_last_place(h, obs) - v2_earlier_lines(h, obs).len()) as nat,
            ),
        ),
{
    let svs = vehicles_of(obs);
    let n = svs.len();
    lemma_v2_last_place(h, obs);
    lemma_v2_tables(h, obs);
    let i = n - 1;
    let table = v2_last_table(h, obs);
    let a = v2_earlier_lines(h, obs);
    let b = v2_row_lines(obs, svs[i], table);
    let d = v2_all_lines(h, obs);
    let m = v2_last_place(h, obs);
    let mm = (m - a.len()) as nat;
    let systems = identifiers(svs, n);
    let start = v2_state_at(h, obs, svs, 0, 0);
    lemma_v2_lines_held(h, obs, svs, (n - 1) as nat);
    lemma_v2_from_append(h, systems, start, a, b, mm);
    lemma_v2_vehicle_lines(h, obs, svs, i, mm);
    lemma_v2_from_prefix(h, systems, start, lines, d, m as nat);
    lemma_v2_run_from(h, systems, lines, m as nat);
    lemma_identifiers(svs, n, 0);
    assert(reads_back(svs[0]));
    lemma_identify(h, svs[0]);
    assert(v2_start(h, systems) == Ok::<V2State, Error>(start));
}

/// The reader of revision 2 takes the last marked line of an epoch,
/// which lost the blanks at its end, and has read the epoch.
pub proof fn lemma_v2_last_step(h: HeaderView, obs: ObservationsView)
    requires
        sorted(obs),
        obs.len() > 0,
        all_fit(obs),
        covered(h.tables, obs),
        all_read_back(vehicles_of(obs)),
    ensures
        v2_step(
            h,
            identifiers(vehicles_of(obs), vehicles_of(obs).len()),
            v2_state_at(
                h,
                obs,
                vehicles_of(obs),
                vehicles_of(obs).len() - 1,
                (v2_last_place(h, obs) - v2_earlier_lines(h, obs).len()) as nat,
            ),
            trim_end(v2_all_lines(h, obs)[v2_last_place(h, obs)]),
        ) matches Ok(st) && st.obs == obs,
{
    let svs = vehicles_of(obs);
    let n = svs.len();
    lemma_v2_last_place(h, obs);
    lemma_v2_tables(h, obs);
    let i = n - 1;
    let sv = svs[i];
    let table = v2_last_table(h, obs);
    let a = v2_earlier_lines(h, obs);
    let b = v2_row_lines(obs, sv, table);
    let d = v2_all_lines(h, obs);
    let m = v2_last_place(h, obs);
    let mm = (m - a.len()) as nat;
    assert(d[m] == b[mm as int]);
    let at = choose|x: int| 0 <= x < d[m].len() && !is_space(#[trigger] d[m][x]);
    lemma_trim_end_tail(Seq::empty(), d[m], at);
    let tl = trim_end(d[m]);
    let w = tl.len() as int;
    assert(tl.last() == d[m][w - 1]);
    assert forall|q: int| mm < q < ceil_div(table.len(), 5) implies all_spaces(#[trigger] b[q]) by {
        assert(d[a.len() + q] == b[q]);
    }
    let base = held_by(obs, svs, h.tables, (n - 1) as nat);
    lemma_v2_trimmed_line(base, obs, sv, table, mm, w);
    lemma_identifiers_width(svs, n);
    lemma_held_by_all(obs, h.tables);
    assert(held_by(obs, svs, h.tables, n) == with_held(base, obs, sv, table, table.len()));
}

/// The lines of observations that are left of an epoch of revision 2
/// are read as the observations of the epoch.
pub proof fn lemma_v2_lines_left(h: HeaderView, obs: ObservationsView)
    requires
        sorted(obs),
        obs.len() > 0,
        all_fit(obs),
        covered(h.tables, obs),
        all_read_back(vehicles_of(obs)),
    ensures
        0 <= last_marked(
            v2_line_list(h, obs, vehicles_of(obs), vehicles_of(obs).len()),
            v2_line_list(h, obs, vehicles_of(obs), vehicles_of(obs).len()).len(),
        ),
        v2_observations(
            h,
            identifiers(vehicles_of(obs), vehicles_of(obs).len()),
            v2_lines_left(h, obs),
        ) == Ok::<ObservationsView, Error>(obs),
{
    let svs = vehicles_of(obs);
    let systems = identifiers(svs, svs.len());
    let d = v2_all_lines(h, obs);
    let m = v2_last_place(h, obs);
    let left = v2_lines_left(h, obs);
    lemma_v2_last_place(h, obs);
    assert(left == d.take(m) + seq![trim_end(d[m])]);
    assert(left.len() == m + 1);
    assert(left[m] == trim_end(d[m]));
    assert forall|k: int| 0 <= k < m implies left[k] == d[k] by {}
    lemma_v2_before_last(h, obs, left);
    lemma_v2_last_step(h, obs);
    assert(v2_run(h, systems, left, (m + 1) as nat) == v2_step(
        h,
        systems,
        v2_run(h, systems, left, m as nat)->Ok_0,
        left[m],
    ));
}

/// A clock offset that the first line of an epoch of revision 2 tells
/// as it is: a multiple of the nanosecond, and only when more than 12
/// vehicles open a second line.
pub open spec fn clock_told_v2(clock: Option<i64>, n: nat) -> bool {
    clock matches Some(c) ==> n > 12 && c % 1000 == 0
}

/// The clock offset of revision 2 is read back from its field.
pub proof fn lemma_clock_field_v2(c: i64)
    requires
        c % 1000 == 0,
    ensures
        decimal_value(trimmed(clock_field(Some(c))), 12) == Some(c as int),
        clock_field(Some(c)).len() >= 12,
        one_line(clock_field(Some(c))),
{
    let r = rounded(c as int, 1000);
    assert(r * 1000 == c);
    let t = fixed_text(r, 9);
    lemma_fixed_text_value(r, 9);
    lemma_fixed_text_scaled(r, 9, 3);
    assert(pow10(3) == 1000) by {
        reveal_with_fuel(pow10, 4);
    }
    let field = pad_left(t, 12, 32);
    if t.len() < 12 {
        let pad = Seq::new((12 - t.len()) as nat, |i: int| 32u8);
        assert(field =~= pad + t + Seq::<u8>::empty());
        lemma_trimmed_of_padded(pad, t, Seq::empty());
    } else {
        lemma_trimmed_of_tight(t);
    }
    lemma_one_line_fixed(r, 9);
    lemma_one_line_padded(t, 12, 32);
}

/// The clock offset is read back from the first line of an epoch of
/// revision 2.
pub proof fn lemma_clock_round_trip_v2(
    major: u8,
    front: Seq<u8>,
    svs: Seq<SV>,
    clock: Option<i64>,
    n: nat,
)
    requires
        major < 3,
        front.len() == 32,
        n <= svs.len(),
        all_read_back(svs),
        clock_told_v2(clock, n),
    ensures
        clock_offset_of(major, head_line_at(front, svs, clock, n, 0)) == clock,
        one_line(front) ==> one_line(head_line_at(front, svs, clock, n, 0)),
{
    let to = least(n as int, 12);
    let ids = ids_between(svs, 0, to);
    lemma_ids_between(svs, 0, to);
    let line = head_line_at(front, svs, clock, n, 0);
    let tail = if n > 12 {
        clock_field(clock)
    } else {
        Seq::<u8>::empty()
    };
    assert(line == front + ids + tail);
    match clock {
        Some(c) => {
            lemma_clock_field_v2(c);
            assert(clip(line, clock_column(major), line.len() as int) =~= tail);
        },
        None => {
            assert(line.len() <= 68);
        },
    }
    if one_line(front) {
        lemma_one_line_joined(front, ids);
        assert(one_line(tail));
        lemma_one_line_joined(front + ids, tail);
    }
}

/// The lines that name the vehicles of an epoch of revision 2 are
/// lines.
pub proof fn lemma_one_line_head_lines(
    front: Seq<u8>,
    svs: Seq<SV>,
    clock: Option<i64>,
    n: nat,
    k: int,
)
    requires
        one_line(front),
        front.len() == 32,
        1 <= n <= svs.len(),
        all_read_back(svs),
        clock_told_v2(clock, n),
        0 <= k <= v2_extra_lines(n as int),
    ensures
        one_line(head_line_at(front, svs, clock, n, k)),
        head_line_at(front, svs, clock, n, k).len() > 0,
{
    if k == 0 {
        lemma_clock_round_trip_v2(2, front, svs, clock, n);
    } else {
        let to = least(n as int, 12 * k + 12);
        lemma_ids_between(svs, 12 * k, to);
        assert(one_line(blanks(32)));
        lemma_one_line_joined(blanks(32), ids_between(svs, 12 * k, to));
    }
}

/// The lines of observations of an epoch of revision 2 are lines.
pub proof fn lemma_one_line_data(
    h: HeaderView,
    obs: ObservationsView,
    svs: Seq<SV>,
    n: nat,
    i: int,
)
    requires
        0 <= i < v2_line_list(h, obs, svs, n).len(),
    ensures
        one_line(v2_line_list(h, obs, svs, n)[i]),
    decreases n,
{
    if n > 0 {
        let a = v2_line_list(h, obs, svs, (n - 1) as nat);
        let table = table_for(h.tables, svs[n - 1])->0;
        let b = v2_row_lines(obs, svs[n - 1], table);
        if i < a.len() {
            lemma_one_line_data(h, obs, svs, (n - 1) as nat, i);
        } else {
            let q = i - a.len();
            lemma_one_line_row(
                obs,
                svs[n - 1],
                table.skip(5 * q),
                chunk_count(table.len(), q as nat),
            );
        }
    }
}

/// An epoch that a text of revision 2 tells as it is: the instant and
/// the clock offset fall on what the first line can tell, the
/// observations fit their slots and are of observables that the header
/// names, the vehicles are read back from their identifiers and are
/// fewer than 1000, and the epoch holds no observation if and only if
/// its flag marks an event.
pub open spec fn told_v2(h: HeaderView, key: RecordKey, entry: RecordEntryView) -> bool {
    &&& h.major < 3
    &&& told(key.epoch, false)
    &&& clock_told_v2(entry.clock_offset, vehicles_of(entry.observations).len())
    &&& key.flag.spec_has_observations() == (entry.observations.len() > 0)
    &&& sorted(entry.observations)
    &&& all_fit(entry.observations)
    &&& covered(h.tables, entry.observations)
    &&& all_read_back(vehicles_of(entry.observations))
    &&& vehicles_of(entry.observations).len() <= 999
}

/// The lines of a text that lost the blanks at its end: the text was
/// made of lines with a line feed between them, then of lines with a
/// line feed before each, one of which is marked.
pub proof fn lemma_lines_left(hl: Seq<Seq<u8>>, d: Seq<Seq<u8>>)
    requires
        hl.len() >= 1,
        last_marked(d, d.len()) >= 0,
        forall|i: int| 0 <= i < hl.len() ==> one_line(#[trigger] hl[i]),
        forall|i: int| 0 <= i < d.len() ==> one_line(#[trigger] d[i]),
    ensures
        lines_of(trim_end(joined(hl, (hl.len() - 1) as nat) + hl.last() + led(d, d.len()))) == hl
            + (d.take(last_marked(d, d.len())) + seq![trim_end(d[last_marked(d, d.len())])]),
{
    let x = joined(hl, (hl.len() - 1) as nat) + hl.last();
    lemma_last_marked(d, d.len());
    let m = last_marked(d, d.len());
    lemma_trim_end_led(x, d, d.len());
    let tl = trim_end(d[m]);
    let left = d.take(m) + seq![tl];
    lemma_led_prefix(left, d, m as nat);
    assert(left[m] == tl);
    assert(led(left, (m + 1) as nat) == led(d, m as nat) + seq![10u8] + tl);
    lemma_joined_led(hl, left, (m + 1) as nat);
    let all = hl + left;
    let text = trim_end(x + led(d, d.len()));
    assert(x + led(d, m as nat) + seq![10u8] + tl =~= x + (led(d, m as nat) + seq![10u8] + tl));
    assert(all.last() == tl);
    assert(text == joined(all, (all.len() - 1) as nat) + all.last());
    let at = choose|i: int| 0 <= i < d[m].len() && !is_space(#[trigger] d[m][i]);
    lemma_trim_end_tail(Seq::empty(), d[m], at);
    assert(one_line(d[m]));
    lemma_one_line_start(d[m], tl.len() as int);
    assert forall|i: int| 0 <= i < all.len() implies one_line(#[trigger] all[i]) by {
        if i < hl.len() {
            assert(all[i] == hl[i]);
        } else if i < hl.len() + m {
            assert(all[i] == d[i - hl.len()]);
        } else {
            assert(all[i] == tl);
        }
    }
    lemma_lines_of_all(all);
}

/// The first line of an epoch of revision 2, up to the identifiers.
pub proof fn lemma_v2_front(major: u8, key: RecordKey, n: nat, clock: Option<i64>)
    requires
        major < 3,
        told(key.epoch, false),
        n <= 999,
    ensures
        head_text(false, key, n, clock) == crate::observation::roundtrip::head::head_front(
            false,
            key,
            n,
        ),
        head_text(false, key, n, clock).len() == 32,
        one_line(head_text(false, key, n, clock)),
        !is_space(head_text(false, key, n, clock).last()),
{
    lemma_head_line(false, key, n, clock);
    lemma_head_round_trip(major, key, n, Seq::empty());
    assert(head_clock(false, clock) =~= Seq::<u8>::empty());
    assert(head_clock(false, None) =~= Seq::<u8>::empty());
    assert(head_text(false, key, n, clock) =~= crate::observation::roundtrip::head::head_front(
        false,
        key,
        n,
    ));
}

/// The lines of the text of an epoch of revision 2 that holds
/// observations: the lines that name the vehicles, then the lines of
/// observations that are left when the text lost the blanks at its
/// end.
pub proof fn lemma_v2_lines_of_text(h: HeaderView, key: RecordKey, entry: RecordEntryView)
    requires
        told_v2(h, key, entry),
        entry.observations.len() > 0,
    ensures
        v2_text(h, key, entry) is Ok,
        lines_of(v2_text(h, key, entry)->Ok_0) == head_lines(
            head_text(
                false,
                key,
                vehicles_of(entry.observations).len(),
                entry.clock_offset,
            ),
            vehicles_of(entry.observations),
            entry.clock_offset,
            vehicles_of(entry.observations).len(),
        ) + v2_lines_left(h, entry.observations),
{
    let obs = entry.observations;
    let clock = entry.clock_offset;
    let svs = vehicles_of(obs);
    let n = svs.len();
    lemma_vehicle_listed(obs, 0);
    assert(n >= 1);
    lemma_v2_tables(h, obs);
    let front = head_text(false, key, n, clock);
    lemma_v2_front(h.major, key, n, clock);
    assert forall|i: int| 0 <= i < svs.len() implies (#[trigger] svs[i]).spec_identifier()
        is Some by {
        assert(reads_back(svs[i]));
    }
    lemma_head_lines(front, svs, clock, n);
    lemma_v2_rows_led(h, obs, svs, n);
    let hl = head_lines(front, svs, clock, n);
    let d = v2_line_list(h, obs, svs, n);
    let x = front + v2_vehicles(svs, clock, n)->Ok_0;
    assert(v2_text(h, key, entry) == Ok::<Seq<u8>, Error>(trim_end(x + led(d, d.len()))));
    lemma_v2_lines_left(h, obs);
    assert forall|i: int| 0 <= i < hl.len() implies one_line(#[trigger] hl[i]) by {
        lemma_one_line_head_lines(front, svs, clock, n, i);
    }
    assert forall|i: int| 0 <= i < d.len() implies one_line(#[trigger] d[i]) by {
        lemma_one_line_data(h, obs, svs, n, i);
    }
    assert(hl.last() == hl[v2_extra_lines(n as int)]);
    lemma_lines_left(hl, d);
}

/// Round trip in revision 2: the text that the writer makes of an
/// epoch is read back as the epoch, when the text tells the epoch as
/// it is.
pub proof fn lemma_v2_round_trip(h: HeaderView, key: RecordKey, entry: RecordEntryView)
    requires
        told_v2(h, key, entry),
    ensures
        epoch_text(h, key, entry) matches Ok(text) && epoch_of(h, text, key.epoch.time_scale)
            == Ok::<(RecordKey, RecordEntryView), Error>((key, entry)) && lines_of(text).len() >= 1
            && head_of(h.major, lines_of(text)[0], key.epoch.time_scale) == Ok::<EpochHead, Error>(
            EpochHead {
                key,
                n_sat: vehicles_of(entry.observations).len() as u16,
                clock_offset: entry.clock_offset,
            },
        ),
{
    let obs = entry.observations;
    let clock = entry.clock_offset;
    let svs = vehicles_of(obs);
    let n = svs.len();
    let front = head_text(false, key, n, clock);
    lemma_head_line(false, key, n, clock);
    assert(head_clock(false, clock) =~= Seq::<u8>::empty());
    assert(head_clock(false, None) =~= Seq::<u8>::empty());
    assert(front =~= crate::observation::roundtrip::head::head_front(false, key, n));
    if obs.len() == 0 {
        assert(n == 0);
        assert(obs =~= Seq::empty());
        lemma_head_round_trip(h.major, key, n, Seq::empty());
        assert(front + Seq::<u8>::empty() =~= front);
        assert(v2_text(h, key, entry) == Ok::<Seq<u8>, Error>(
            trim_end(front + Seq::<u8>::empty() + Seq::<u8>::empty()),
        ));
        crate::text::lemma_trailing_spaces_is(front, 0);
        assert(trim_end(front) =~= front);
        lemma_lines_of_last(front);
        let head = EpochHead { key, n_sat: 0, clock_offset: None };
        assert(clock_offset_of(h.major, front) == None::<i64>);
        assert(head_of(h.major, front, key.epoch.time_scale) == Ok::<EpochHead, Error>(head));
        assert(block_of(h, head, seq![front]) == Ok::<ObservationsView, Error>(obs));
    } else {
        lemma_vehicle_listed(obs, 0);
        lemma_v2_lines_of_text(h, key, entry);
        lemma_v2_lines_left(h, obs);
        let text = v2_text(h, key, entry)->Ok_0;
        let hl = head_lines(front, svs, clock, n);
        let left = v2_lines_left(h, obs);
        let all = hl + left;
        let e = v2_extra_lines(n as int);
        let tail = ids_between(svs, 0, least(n as int, 12)) + if n > 12 {
            clock_field(clock)
        } else {
            Seq::<u8>::empty()
        };
        assert(all[0] == hl[0]);
        assert(hl[0] =~= front + tail);
        lemma_head_round_trip(h.major, key, n, tail);
        lemma_clock_round_trip_v2(h.major, front, svs, clock, n);
        let head = EpochHead { key, n_sat: n as u16, clock_offset: clock };
        assert(head_of(h.major, all[0], key.epoch.time_scale) == Ok::<EpochHead, Error>(head));
        assert forall|j: int| 0 <= j <= e implies #[trigger] all[j] == head_line_at(
            front,
            svs,
            clock,
            n,
            j,
        ) by {
            assert(all[j] == hl[j]);
        }
        lemma_v2_systems(all, front, svs, clock, n, e as nat);
        lemma_ids_first(svs, n);
        assert(least(n as int, 12 * e + 12) == n);
        assert(all.skip(1 + e) =~= left);
        assert(block_of(h, head, all) == Ok::<ObservationsView, Error>(obs));
    }
}

} // verus!
