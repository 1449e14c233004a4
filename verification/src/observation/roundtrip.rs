//! What is written is read back: the laws that tie the writers to the
//! readers.

pub mod fields;
pub mod framing;
pub mod head;
pub mod v2;
pub mod v3;

use crate::assoc::Ordered;
use crate::assoc::has_key;
use crate::assoc::lemma_put_lookup;
use crate::assoc::lemma_put_sorted;
use crate::assoc::lemma_rank_bounds;
use crate::assoc::lemma_rank_of_member;
use crate::assoc::lookup;
use crate::assoc::put;
use crate::assoc::rank;
use crate::assoc::sorted;
use crate::constellation::SV;
use crate::constellation::plain_letter;
use crate::constellation::plain_vehicle;
use crate::header::HeaderView;
use crate::header::Tables;
use crate::header::table_of;
use crate::observable::ObservableView;
use crate::observation::ObservationData;
use crate::observation::SNR;
use crate::observation::formatting::blanks;
use crate::observation::formatting::epoch_text;
use crate::observation::formatting::row_text;
use crate::observation::formatting::slot_of;
use crate::observation::formatting::v3_line_text;
use crate::observation::parsing::V2State;
use crate::observation::parsing::epoch_of;
use crate::observation::parsing::head_of;
use crate::text::lines_of;
use crate::observation::parsing::identify;
use crate::observation::parsing::least;
use crate::observation::parsing::slot_lli;
use crate::observation::parsing::slot_snr;
use crate::observation::parsing::slot_text;
use crate::observation::parsing::slot_value;
use crate::observation::parsing::v2_count;
use crate::observation::parsing::v2_observations;
use crate::observation::parsing::v2_run;
use crate::observation::parsing::v2_start;
use crate::observation::parsing::v2_step;
use crate::observation::parsing::v3_line;
use crate::observation::parsing::v3_observations;
use crate::observation::parsing::v3_slots;
use crate::observation::parsing::vehicle_of;
use crate::observation::parsing::with_slots;
use crate::observation::record::Error;
use crate::observation::record::ObservationKeyView;
use crate::observation::record::ObservationsView;
use crate::observation::record::RecordEntryView;
use crate::observation::record::RecordKey;
use crate::observation::record::vehicles_of;
use crate::observation::roundtrip::v2::lemma_v2_round_trip;
use crate::observation::roundtrip::v2::told_v2;
use crate::observation::roundtrip::v3::lemma_v3_round_trip;
use crate::observation::roundtrip::v3::told_v3;
use crate::text::all_spaces;
use crate::text::ceil_div;
use crate::text::clip;
use crate::text::digits_of;
use crate::text::fits_i64;
use crate::text::fixed_text;
use crate::text::lemma_fixed_text_value;
use crate::text::lemma_trimmed_of_blank;
use crate::text::lemma_trimmed_of_padded;
use crate::text::lemma_trimmed_of_tight;
use crate::text::pad_left;
use crate::text::trimmed;
use vstd::prelude::*;

verus! {

/// An observation that a slot can hold: its value takes no more than the
/// 14 columns of the field, and its loss-of-lock indication is one digit.
pub open spec fn fits_slot(d: ObservationData) -> bool {
    &&& fixed_text(d.value as int, 3).len() <= 14
    &&& (d.lli matches Some(f) ==> f.bits <= 7)
}

/// A slot whose first 14 columns are blank holds no observation: a
/// missing observation is no entry, not a zero.
pub proof fn lemma_blank_slot_is_missing(slot: Seq<u8>)
    requires
        all_spaces(clip(slot, 0, 14)),
    ensures
        slot_value(slot) is None,
{
    lemma_trimmed_of_blank(clip(slot, 0, 14));
    let t = trimmed(clip(slot, 0, 14));
    assert(crate::text::decimal_body(t) =~= t);
    assert(crate::text::decimal_int_part(t).len() == 0);
    assert(crate::text::decimal_frac_part(t).len() == 0);
}

/// The 16 blanks that stand for a missing observation are read as a
/// missing observation.
pub proof fn lemma_missing_slot_round_trip()
    ensures
        slot_value(slot_of(None)) is None,
{
    lemma_blank_slot_is_missing(blanks(16));
}

/// The least number of 64 bits takes more than 14 columns.
proof fn lemma_least_value_is_wide()
    ensures
        fixed_text(-0x8000_0000_0000_0000, 3).len() > 14,
{
    let (i, f) = crate::text::lemma_fixed_digits(0x8000_0000_0000_0000, 3);
    assert(crate::text::pow10(3) == 1000) by {
        reveal_with_fuel(crate::text::pow10, 4);
    }
    assert(crate::text::pow10(12) == 1_000_000_000_000) by {
        reveal_with_fuel(crate::text::pow10, 13);
    }
    assert(crate::text::frac_value(f, 3) < 1000) by {
        reveal_with_fuel(crate::text::frac_value, 4);
        assert(crate::text::is_digit(f[0]));
        assert(crate::text::is_digit(f[1]));
        assert(crate::text::is_digit(f[2]));
    }
    lemma_digits_outgrow(i, 12);
}

/// A run of digits that is worth `10^k` at least has more than `k` digits.
proof fn lemma_digits_outgrow(s: Seq<u8>, k: nat)
    requires
        crate::text::all_digits(s),
        crate::text::digits_value(s) >= crate::text::pow10(k),
    ensures
        s.len() > k,
    decreases k,
{
    crate::text::lemma_pow10_positive(k);
    if k > 0 {
        let t = s.drop_last();
        assert(crate::text::is_digit(s.last()));
        assert forall|i: int| 0 <= i < t.len() implies crate::text::is_digit(#[trigger] t[i]) by {
            assert(t[i] == s[i]);
        }
        lemma_digits_outgrow(t, (k - 1) as nat);
    }
}

/// The slot that the writer makes of an observation is read back as
/// the same observation.
pub proof fn lemma_slot_round_trip(d: ObservationData)
    requires
        fits_slot(d),
    ensures
        slot_of(Some(d)).len() == 16,
        slot_value(slot_of(Some(d))) == Some(d),
{
    let text = fixed_text(d.value as int, 3);
    lemma_fixed_text_value(d.value as int, 3);
    assert(fits_i64(d.value as int)) by {
        lemma_least_value_is_wide();
    }
    let field = pad_left(text, 14, 32);
    let lli = match d.lli {
        Some(f) => digits_of(f.bits as nat),
        None => seq![32u8],
    };
    let snr = match d.snr {
        Some(s) => seq![(48 + s.spec_index()) as u8],
        None => seq![32u8],
    };
    let slot = slot_of(Some(d));
    assert(slot == field + lli + snr);
    assert(field.len() == 14);
    assert(lli.len() == 1);
    assert(clip(slot, 0, 14) =~= field);
    if text.len() < 14 {
        let pre = Seq::new((14 - text.len()) as nat, |i: int| 32u8);
        assert(field =~= pre + text + Seq::<u8>::empty());
        lemma_trimmed_of_padded(pre, text, Seq::<u8>::empty());
    } else {
        lemma_trimmed_of_tight(text);
    }
    assert(trimmed(field) == text);
    assert(slot[14] == lli[0]);
    assert(slot[15] == snr[0]);
    match d.lli {
        Some(f) => {
            assert(digits_of(f.bits as nat) == seq![(48 + f.bits) as u8]);
            assert(slot_lli(slot) == Some(f));
        },
        None => {},
    }
    match d.snr {
        Some(s) => {
            assert(SNR::of_digit((48 + s.spec_index()) as u8) == Some(s));
        },
        None => {},
    }
    assert(slot_snr(slot) == d.snr);
}

/// Every observation of an epoch fits a slot.
pub open spec fn all_fit(obs: ObservationsView) -> bool {
    forall|i: int| 0 <= i < obs.len() ==> fits_slot((#[trigger] obs[i]).1)
}

/// What an epoch holds for a key fits a slot when every observation of
/// the epoch does.
pub proof fn lemma_held_fits(obs: ObservationsView, k: ObservationKeyView)
    requires
        all_fit(obs),
    ensures
        lookup(obs, k) matches Some(d) ==> fits_slot(d),
{
    lemma_rank_bounds(obs, k);
    if has_key(obs, k) {
        assert(fits_slot(obs[rank(obs, k)].1));
    }
}

/// A slot takes 16 columns.
pub proof fn lemma_slot_width(d: Option<ObservationData>)
    requires
        d matches Some(x) ==> fits_slot(x),
    ensures
        slot_of(d).len() == 16,
{
    match d {
        Some(x) => {
            lemma_slot_round_trip(x);
        },
        None => {},
    }
}

/// The row of a vehicle on one line: 16 columns for each observable, and
/// the slots of the first observables at the start of the row.
pub proof fn lemma_row_layout(
    obs: ObservationsView,
    sv: SV,
    table: Seq<ObservableView>,
    count: nat,
    n: nat,
)
    requires
        all_fit(obs),
        count <= n,
    ensures
        row_text(obs, sv, table, n, 0).len() == 16 * n,
        row_text(obs, sv, table, n, 0).take(16 * (count as int)) == row_text(obs, sv, table, count, 0),
    decreases n,
{
    if n > 0 {
        let k = ObservationKeyView { sv, observable: table[n - 1] };
        lemma_held_fits(obs, k);
        lemma_slot_width(lookup(obs, k));
        let prev = row_text(obs, sv, table, (n - 1) as nat, 0);
        let row = row_text(obs, sv, table, n, 0);
        assert(row =~= prev + slot_of(lookup(obs, k)));
        if count < n {
            lemma_row_layout(obs, sv, table, count, (n - 1) as nat);
            assert(row.take(16 * (count as int)) =~= prev.take(16 * (count as int)));
        } else {
            lemma_row_layout(obs, sv, table, (n - 1) as nat, (n - 1) as nat);
            assert(row.take(16 * (count as int)) =~= row);
        }
    } else {
        assert(row_text(obs, sv, table, n, 0).take(0) =~= row_text(obs, sv, table, 0, 0));
    }
}

/// The `j`-th slot of the row of a vehicle is the slot of what the epoch
/// holds for the `j`-th observable.
pub proof fn lemma_row_slot(
    obs: ObservationsView,
    sv: SV,
    table: Seq<ObservableView>,
    n: nat,
    j: int,
)
    requires
        all_fit(obs),
        0 <= j < n,
    ensures
        slot_text(row_text(obs, sv, table, n, 0), j, true) == slot_of(
            lookup(obs, ObservationKeyView { sv, observable: table[j] }),
        ),
{
    let row = row_text(obs, sv, table, n, 0);
    let k = ObservationKeyView { sv, observable: table[j] };
    lemma_row_layout(obs, sv, table, j as nat, n);
    lemma_row_layout(obs, sv, table, (j + 1) as nat, n);
    lemma_held_fits(obs, k);
    lemma_slot_width(lookup(obs, k));
    let upto = row_text(obs, sv, table, (j + 1) as nat, 0);
    let before = row_text(obs, sv, table, j as nat, 0);
    assert(upto =~= before + slot_of(lookup(obs, k)));
    assert(clip(row, 16 * j, 16 * j + 16) =~= row.take(16 * (j + 1)).skip(16 * j));
    assert(upto.skip(16 * j) =~= slot_of(lookup(obs, k)));
}

/// The observations of an epoch after those that another epoch holds for
/// a vehicle and the first `count` observables of its table were put in.
pub open spec fn with_held(
    base: ObservationsView,
    obs: ObservationsView,
    sv: SV,
    table: Seq<ObservableView>,
    count: nat,
) -> ObservationsView
    decreases count,
{
    if count == 0 {
        base
    } else {
        let prev = with_held(base, obs, sv, table, (count - 1) as nat);
        match lookup(obs, ObservationKeyView { sv, observable: table[count - 1] }) {
            Some(d) => put(prev, ObservationKeyView { sv, observable: table[count - 1] }, d),
            None => prev,
        }
    }
}

/// Reading the row that the writer lays out for a vehicle puts in what
/// the epoch holds for the vehicle, observable by observable.
pub proof fn lemma_row_round_trip(
    base: ObservationsView,
    obs: ObservationsView,
    sv: SV,
    table: Seq<ObservableView>,
    count: nat,
    n: nat,
)
    requires
        all_fit(obs),
        count <= n,
    ensures
        with_slots(base, Some(sv), table, 0, count, row_text(obs, sv, table, n, 0), true)
            == with_held(base, obs, sv, table, count),
    decreases count,
{
    if count > 0 {
        lemma_row_round_trip(base, obs, sv, table, (count - 1) as nat, n);
        let k = ObservationKeyView { sv, observable: table[count - 1] };
        lemma_row_slot(obs, sv, table, n, count - 1);
        lemma_held_fits(obs, k);
        match lookup(obs, k) {
            Some(d) => {
                lemma_slot_round_trip(d);
            },
            None => {
                lemma_missing_slot_round_trip();
            },
        }
    }
}

/// A vehicle whose identifier takes three columns and is read back as
/// the vehicle.
pub open spec fn reads_back(sv: SV) -> bool {
    &&& sv.prn <= 99
    &&& sv.spec_identifier() matches Some(id)
    &&& vehicle_of(id) == Some(sv)
}

/// The observables of a vehicle: the table that serves its constellation.
pub open spec fn table_for(tables: Tables, sv: SV) -> Option<Seq<ObservableView>> {
    table_of(tables, sv.constellation.spec_table_key())
}

/// An observable is among the first `count` of a table.
pub open spec fn among(table: Seq<ObservableView>, count: nat, o: ObservableView) -> bool
    decreases count,
{
    count > 0 && (table[count - 1] == o || among(table, (count - 1) as nat, o))
}

/// A vehicle is among the first `n` of a list.
pub open spec fn listed(svs: Seq<SV>, n: nat, sv: SV) -> bool
    decreases n,
{
    n > 0 && (svs[n - 1] == sv || listed(svs, (n - 1) as nat, sv))
}

/// Every observation of the epoch is of an observable that the header
/// names for its vehicle.
pub open spec fn covered(tables: Tables, obs: ObservationsView) -> bool {
    forall|i: int|
        0 <= i < obs.len() ==> (table_for(tables, (#[trigger] obs[i]).0.sv) matches Some(t)
            && among(t, t.len(), obs[i].0.observable))
}

/// Every vehicle of a list is read back from its identifier.
pub open spec fn all_read_back(svs: Seq<SV>) -> bool {
    forall|i: int| 0 <= i < svs.len() ==> reads_back(#[trigger] svs[i])
}

/// Putting in what an epoch holds keeps the order, and changes what is
/// held for the keys of the vehicle and of the observables gone through.
pub proof fn lemma_with_held(
    base: ObservationsView,
    obs: ObservationsView,
    sv: SV,
    table: Seq<ObservableView>,
    count: nat,
    k: ObservationKeyView,
)
    requires
        sorted(base),
    ensures
        sorted(with_held(base, obs, sv, table, count)),
        lookup(with_held(base, obs, sv, table, count), k) == if k.sv == sv && among(
            table,
            count,
            k.observable,
        ) && lookup(obs, k) is Some {
            lookup(obs, k)
        } else {
            lookup(base, k)
        },
    decreases count,
{
    if count > 0 {
        let prev = with_held(base, obs, sv, table, (count - 1) as nat);
        lemma_with_held(base, obs, sv, table, (count - 1) as nat, k);
        let kj = ObservationKeyView { sv, observable: table[count - 1] };
        match lookup(obs, kj) {
            Some(d) => {
                lemma_put_sorted(prev, kj, d);
                lemma_put_lookup(prev, kj, d, k);
            },
            None => {},
        }
    }
}

/// The observations of an epoch after what another epoch holds for the
/// first `n` vehicles of a list was put in.
pub open spec fn held_by(obs: ObservationsView, svs: Seq<SV>, tables: Tables, n: nat) -> ObservationsView
    decreases n,
{
    if n == 0 {
        Seq::empty()
    } else {
        match table_for(tables, svs[n - 1]) {
            Some(table) => with_held(
                held_by(obs, svs, tables, (n - 1) as nat),
                obs,
                svs[n - 1],
                table,
                table.len(),
            ),
            None => held_by(obs, svs, tables, (n - 1) as nat),
        }
    }
}

/// What is held after the vehicles of a list were gone through.
pub proof fn lemma_held_by(
    obs: ObservationsView,
    svs: Seq<SV>,
    tables: Tables,
    n: nat,
    k: ObservationKeyView,
)
    ensures
        sorted(held_by(obs, svs, tables, n)),
        lookup(held_by(obs, svs, tables, n), k) == if listed(svs, n, k.sv) && (table_for(
            tables,
            k.sv,
        ) matches Some(t) && among(t, t.len(), k.observable)) && lookup(obs, k) is Some {
            lookup(obs, k)
        } else {
            None
        },
    decreases n,
{
    if n > 0 {
        lemma_held_by(obs, svs, tables, (n - 1) as nat, k);
        match table_for(tables, svs[n - 1]) {
            Some(table) => {
                lemma_with_held(
                    held_by(obs, svs, tables, (n - 1) as nat),
                    obs,
                    svs[n - 1],
                    table,
                    table.len(),
                    k,
                );
            },
            None => {},
        }
    } else {
        assert(rank(Seq::<(ObservationKeyView, ObservationData)>::empty(), k) == 0);
    }
}

/// The vehicle of every observation is among the vehicles of the epoch.
pub proof fn lemma_vehicle_listed(obs: ObservationsView, i: int)
    requires
        0 <= i < obs.len(),
    ensures
        listed(vehicles_of(obs), vehicles_of(obs).len(), obs[i].0.sv),
    decreases obs.len(),
{
    let t = obs.drop_last();
    let rest = vehicles_of(t);
    let svs = vehicles_of(obs);
    if i < obs.len() - 1 {
        lemma_vehicle_listed(t, i);
        assert(t[i] == obs[i]);
        lemma_listed_grows(rest, svs, obs[i].0.sv);
    } else {
        if rest.len() > 0 && rest.last() == obs.last().0.sv {
            assert(svs == rest);
            assert(svs[svs.len() - 1] == obs[i].0.sv);
        } else {
            assert(svs[svs.len() - 1] == obs[i].0.sv);
        }
    }
}

/// A vehicle of a list is a vehicle of the list grown by one.
pub proof fn lemma_listed_grows(a: Seq<SV>, b: Seq<SV>, sv: SV)
    requires
        listed(a, a.len(), sv),
        b == a || exists|x: SV| b == a.push(x),
    ensures
        listed(b, b.len(), sv),
{
    if b != a {
        let x = choose|x: SV| b == a.push(x);
        lemma_listed_same(a, b, a.len(), sv);
    }
}

/// Lists that agree on their first `n` vehicles list the same vehicles
/// among them.
pub proof fn lemma_listed_same(a: Seq<SV>, b: Seq<SV>, n: nat, sv: SV)
    requires
        n <= a.len(),
        n <= b.len(),
        forall|i: int| 0 <= i < n ==> a[i] == b[i],
    ensures
        listed(a, n, sv) == listed(b, n, sv),
    decreases n,
{
    if n > 0 {
        lemma_listed_same(a, b, (n - 1) as nat, sv);
    }
}

/// Two sorted lists that hold the same value for every key are the same.
pub proof fn lemma_same_lookups(a: ObservationsView, b: ObservationsView)
    requires
        sorted(a),
        sorted(b),
        forall|k: ObservationKeyView| lookup(a, k) == lookup(b, k),
    ensures
        a == b,
    decreases a.len(),
{
    if a.len() == 0 {
        if b.len() > 0 {
            lemma_rank_of_member(b, 0);
            assert(lookup(a, b[0].0) is None);
        }
        assert(a =~= b);
    } else {
        lemma_rank_of_member(a, 0);
        assert(lookup(b, a[0].0) == Some(a[0].1));
        lemma_rank_bounds(b, a[0].0);
        let r = rank(b, a[0].0);
        if r > 0 {
            lemma_rank_of_member(b, 0);
            assert(b[0].0.before(a[0].0));
            lemma_rank_bounds(a, b[0].0);
            let q = rank(a, b[0].0);
            assert(lookup(a, b[0].0) == Some(b[0].1));
            if q > 0 {
                assert(a[0].0.before(b[0].0));
                ObservationKeyView::lemma_transitive(a[0].0, b[0].0, a[0].0);
            } else {
                assert(a[0].0 == b[0].0);
            }
            ObservationKeyView::lemma_irreflexive(a[0].0);
        }
        assert(b[0] == a[0]);
        let ta = a.drop_first();
        let tb = b.drop_first();
        lemma_tail_sorted(a);
        lemma_tail_sorted(b);
        assert forall|k: ObservationKeyView| lookup(ta, k) == lookup(tb, k) by {
            lemma_tail_lookup(a, k);
            lemma_tail_lookup(b, k);
        }
        lemma_same_lookups(ta, tb);
        assert(a =~= seq![a[0]] + ta);
        assert(b =~= seq![b[0]] + tb);
    }
}

/// What is left of a sorted list without its first pair is sorted.
pub proof fn lemma_tail_sorted(s: ObservationsView)
    requires
        sorted(s),
        s.len() > 0,
    ensures
        sorted(s.drop_first()),
{
    let t = s.drop_first();
    assert forall|i: int, j: int| 0 <= i < j < t.len() implies (#[trigger] t[i]).0.before(
        (#[trigger] t[j]).0,
    ) by {
        assert(t[i] == s[i + 1] && t[j] == s[j + 1]);
    }
}

/// What a sorted list holds apart from its first pair.
pub proof fn lemma_tail_lookup(s: ObservationsView, k: ObservationKeyView)
    requires
        sorted(s),
        s.len() > 0,
    ensures
        lookup(s.drop_first(), k) == if k == s[0].0 {
            None
        } else {
            lookup(s, k)
        },
{
    let t = s.drop_first();
    lemma_tail_sorted(s);
    lemma_rank_bounds(s, k);
    lemma_rank_bounds(t, k);
    if k == s[0].0 {
        ObservationKeyView::lemma_irreflexive(k);
        if has_key(t, k) {
            assert(t[rank(t, k)] == s[rank(t, k) + 1]);
            assert(s[0].0.before(s[rank(t, k) + 1].0));
        }
    } else if s[0].0.before(k) {
        if rank(t, k) < t.len() {
            assert(t[rank(t, k)] == s[rank(t, k) + 1]);
        }
    } else {
        ObservationKeyView::lemma_total(s[0].0, k);
        if has_key(t, k) {
            let r = rank(t, k);
            assert(t[r] == s[r + 1]);
            assert(s[0].0.before(s[r + 1].0));
            ObservationKeyView::lemma_transitive(k, s[0].0, k);
            ObservationKeyView::lemma_irreflexive(k);
        }
    }
}

/// Putting in, vehicle by vehicle, what an epoch holds gives the epoch
/// back, when the header names the observables of every observation.
pub proof fn lemma_held_by_all(obs: ObservationsView, tables: Tables)
    requires
        sorted(obs),
        covered(tables, obs),
    ensures
        held_by(obs, vehicles_of(obs), tables, vehicles_of(obs).len()) == obs,
{
    let svs = vehicles_of(obs);
    let r = held_by(obs, svs, tables, svs.len());
    assert forall|k: ObservationKeyView| lookup(r, k) == lookup(obs, k) by {
        lemma_held_by(obs, svs, tables, svs.len(), k);
        lemma_rank_bounds(obs, k);
        if has_key(obs, k) {
            let i = rank(obs, k);
            lemma_vehicle_listed(obs, i);
            assert(table_for(tables, obs[i].0.sv) is Some);
        }
    }
    lemma_held_by(obs, svs, tables, svs.len(), obs[0].0);
    lemma_same_lookups(r, obs);
}

/// The identifier of a vehicle that is read back takes three columns.
pub proof fn lemma_identifier_width(sv: SV)
    requires
        reads_back(sv),
    ensures
        sv.spec_identifier()->0.len() == 3,
{
    reveal_with_fuel(crate::text::digits_of, 3);
}

/// The line that the writer lays out for a vehicle is read as what the
/// epoch holds for the vehicle.
pub proof fn lemma_v3_line_round_trip(
    h: HeaderView,
    base: ObservationsView,
    obs: ObservationsView,
    sv: SV,
)
    requires
        all_fit(obs),
        reads_back(sv),
        table_for(h.tables, sv) is Some,
    ensures
        v3_line_text(h, obs, sv) matches Ok(line) && v3_line(h.tables, base, line) == Ok::<
            ObservationsView,
            Error,
        >(with_held(base, obs, sv, table_for(h.tables, sv)->0, table_for(h.tables, sv)->0.len())),
{
    let table = table_for(h.tables, sv)->0;
    let id = sv.spec_identifier()->0;
    let row = row_text(obs, sv, table, table.len(), 0);
    let line = id + row;
    lemma_identifier_width(sv);
    lemma_row_layout(obs, sv, table, 0, table.len());
    assert(clip(line, 0, 3) =~= id);
    assert(clip(line, 3, line.len() as int) =~= row);
    assert(least(table.len() as int, v3_slots(line.len() - 3)) == table.len());
    lemma_row_round_trip(base, obs, sv, table, table.len(), table.len());
}

/// The lines that the writer lays out for the first `n` vehicles of a list.
pub open spec fn v3_line_list(h: HeaderView, obs: ObservationsView, svs: Seq<SV>, n: nat) -> Seq<
    Seq<u8>,
> {
    Seq::new(n, |i: int| v3_line_text(h, obs, svs[i])->Ok_0)
}

/// The lines that the writer lays out for vehicles are read as what the
/// epoch holds for these vehicles.
pub proof fn lemma_v3_lines_held(h: HeaderView, obs: ObservationsView, svs: Seq<SV>, n: nat)
    requires
        all_fit(obs),
        all_read_back(svs),
        n <= svs.len(),
        forall|i: int| 0 <= i < svs.len() ==> table_for(h.tables, #[trigger] svs[i]) is Some,
    ensures
        v3_observations(h.tables, v3_line_list(h, obs, svs, svs.len()), n) == Ok::<
            ObservationsView,
            Error,
        >(held_by(obs, svs, h.tables, n)),
    decreases n,
{
    if n > 0 {
        lemma_v3_lines_held(h, obs, svs, (n - 1) as nat);
        let base = held_by(obs, svs, h.tables, (n - 1) as nat);
        assert(reads_back(svs[n - 1]));
        lemma_v3_line_round_trip(h, base, obs, svs[n - 1]);
    }
}

/// The lines that the writer lays out for the vehicles of an epoch are
/// read back as the observations of the epoch: every observation fits
/// its slot, the header names the observables, and every vehicle is read
/// back from its identifier.
pub proof fn lemma_v3_lines_round_trip(h: HeaderView, obs: ObservationsView)
    requires
        sorted(obs),
        all_fit(obs),
        covered(h.tables, obs),
        all_read_back(vehicles_of(obs)),
    ensures
        v3_observations(
            h.tables,
            v3_line_list(h, obs, vehicles_of(obs), vehicles_of(obs).len()),
            vehicles_of(obs).len(),
        ) == Ok::<ObservationsView, Error>(obs),
{
    let svs = vehicles_of(obs);
    assert forall|i: int| 0 <= i < svs.len() implies table_for(h.tables, #[trigger] svs[i])
        is Some by {
        lemma_vehicle_held(obs, i);
        let j = choose|j: int| 0 <= j < obs.len() && obs[j].0.sv == svs[i];
        assert(table_for(h.tables, obs[j].0.sv) is Some);
    }
    lemma_v3_lines_held(h, obs, svs, svs.len());
    lemma_held_by_all(obs, h.tables);
}

/// Every vehicle of an epoch is the vehicle of one of its observations.
pub proof fn lemma_vehicle_held(obs: ObservationsView, i: int)
    requires
        0 <= i < vehicles_of(obs).len(),
    ensures
        exists|j: int| 0 <= j < obs.len() && obs[j].0.sv == vehicles_of(obs)[i],
    decreases obs.len(),
{
    let t = obs.drop_last();
    let rest = vehicles_of(t);
    if i < rest.len() {
        lemma_vehicle_held(t, i);
        let j = choose|j: int| 0 <= j < t.len() && t[j].0.sv == rest[i];
        assert(obs[j] == t[j]);
        assert(vehicles_of(obs)[i] == rest[i]);
    } else {
        assert(obs[obs.len() - 1].0.sv == vehicles_of(obs)[i]);
    }
}

/// A slot is read from its first 16 columns.
pub proof fn lemma_slot_value_clip(slot: Seq<u8>)
    ensures
        slot_value(clip(slot, 0, 16)) == slot_value(slot),
{
    let c = clip(slot, 0, 16);
    assert(clip(c, 0, 14) =~= clip(slot, 0, 14));
    if slot.len() > 14 {
        assert(c[14] == slot[14]);
    }
    if slot.len() > 15 {
        assert(c[15] == slot[15]);
    }
}

/// The slots of a line are read alike in the two revisions: the column
/// that the first slot of revision 2 may take more does not count.
pub proof fn lemma_with_slots_alike(
    base: ObservationsView,
    sv: Option<SV>,
    table: Seq<ObservableView>,
    first: int,
    count: nat,
    line: Seq<u8>,
)
    ensures
        with_slots(base, sv, table, first, count, line, false) == with_slots(
            base,
            sv,
            table,
            first,
            count,
            line,
            true,
        ),
    decreases count,
{
    if count > 0 {
        lemma_with_slots_alike(base, sv, table, first, (count - 1) as nat, line);
        if count == 1 {
            lemma_slot_value_clip(clip(line, 0, 17));
            lemma_slot_value_clip(clip(line, 0, 16));
            assert(clip(clip(line, 0, 17), 0, 16) =~= clip(clip(line, 0, 16), 0, 16));
        }
    }
}

/// Reading slots for the observables of a table from `first` on is
/// reading them for the table without its first observables.
pub proof fn lemma_with_slots_shift(
    base: ObservationsView,
    sv: Option<SV>,
    table: Seq<ObservableView>,
    first: int,
    count: nat,
    line: Seq<u8>,
    v3: bool,
)
    requires
        0 <= first,
        first + count <= table.len(),
    ensures
        with_slots(base, sv, table, first, count, line, v3) == with_slots(
            base,
            sv,
            table.skip(first),
            0,
            count,
            line,
            v3,
        ),
    decreases count,
{
    if count > 0 {
        lemma_with_slots_shift(base, sv, table, first, (count - 1) as nat, line, v3);
        assert(table.skip(first)[count - 1] == table[first + count - 1]);
    }
}

/// Going through a table in two stretches is going through it at once.
pub proof fn lemma_with_held_split(
    base: ObservationsView,
    obs: ObservationsView,
    sv: SV,
    table: Seq<ObservableView>,
    first: nat,
    count: nat,
)
    requires
        first + count <= table.len(),
    ensures
        with_held(
            with_held(base, obs, sv, table, first),
            obs,
            sv,
            table.skip(first as int),
            count,
        ) == with_held(base, obs, sv, table, first + count),
    decreases count,
{
    if count > 0 {
        lemma_with_held_split(base, obs, sv, table, first, (count - 1) as nat);
        assert(table.skip(first as int)[count - 1] == table[first + count - 1]);
    }
}

/// Number of slots on the `m`-th line of a vehicle that has `len`
/// observables: five, or what is left for the last line.
pub open spec fn chunk_count(len: nat, m: nat) -> nat {
    if len - 5 * m >= 5 {
        5
    } else if len - 5 * m >= 0 {
        (len - 5 * m) as nat
    } else {
        0
    }
}

/// The lines that the writer of revision 2 lays out for a vehicle: the
/// slots of its observables, five to a line.
pub open spec fn v2_row_lines(obs: ObservationsView, sv: SV, table: Seq<ObservableView>) -> Seq<
    Seq<u8>,
> {
    Seq::new(
        ceil_div(table.len(), 5),
        |m: int| row_text(obs, sv, table.skip(5 * m), chunk_count(table.len(), m as nat), 0),
    )
}

/// The reader of revision 2 starting from a state: the state after the
/// first `n` lines.
pub open spec fn v2_from(
    h: HeaderView,
    systems: Seq<u8>,
    st: V2State,
    lines: Seq<Seq<u8>>,
    n: nat,
) -> Result<V2State, Error>
    decreases n,
{
    if n == 0 {
        Ok(st)
    } else {
        match v2_from(h, systems, st, lines, (n - 1) as nat) {
            Err(e) => Err(e),
            Ok(prev) => v2_step(h, systems, prev, lines[n - 1]),
        }
    }
}

/// The reader goes from its first state on.
pub proof fn lemma_v2_run_from(h: HeaderView, systems: Seq<u8>, lines: Seq<Seq<u8>>, n: nat)
    ensures
        v2_run(h, systems, lines, n) == match v2_start(h, systems) {
            Err(e) => Err(e),
            Ok(st) => v2_from(h, systems, st, lines, n),
        },
    decreases n,
{
    if n > 0 {
        lemma_v2_run_from(h, systems, lines, (n - 1) as nat);
    }
}

/// Only the lines gone through count.
pub proof fn lemma_v2_from_prefix(
    h: HeaderView,
    systems: Seq<u8>,
    st: V2State,
    a: Seq<Seq<u8>>,
    b: Seq<Seq<u8>>,
    n: nat,
)
    requires
        n <= a.len(),
        n <= b.len(),
        forall|i: int| 0 <= i < n ==> a[i] == b[i],
    ensures
        v2_from(h, systems, st, a, n) == v2_from(h, systems, st, b, n),
    decreases n,
{
    if n > 0 {
        lemma_v2_from_prefix(h, systems, st, a, b, (n - 1) as nat);
    }
}

/// Reading lines one batch after the other.
pub proof fn lemma_v2_from_append(
    h: HeaderView,
    systems: Seq<u8>,
    st: V2State,
    a: Seq<Seq<u8>>,
    b: Seq<Seq<u8>>,
    k: nat,
)
    requires
        k <= b.len(),
        v2_from(h, systems, st, a, a.len()) is Ok,
    ensures
        v2_from(h, systems, st, a + b, a.len() + k) == v2_from(
            h,
            systems,
            v2_from(h, systems, st, a, a.len())->Ok_0,
            b,
            k,
        ),
    decreases k,
{
    if k > 0 {
        lemma_v2_from_append(h, systems, st, a, b, (k - 1) as nat);
        assert((a + b)[a.len() + k - 1] == b[k - 1]);
    } else {
        lemma_v2_from_prefix(h, systems, st, a + b, a, a.len());
    }
}

/// The state of the reader of revision 2 while it reads the `i`-th
/// vehicle of a list, `m` lines into its observations.
pub open spec fn v2_state_at(
    h: HeaderView,
    obs: ObservationsView,
    svs: Seq<SV>,
    i: int,
    m: nat,
) -> V2State {
    V2State {
        sv_ptr: 3 * (i + 1),
        obs_ptr: 5 * (m as int),
        sv: Some(svs[i]),
        table: table_for(h.tables, svs[i])->0,
        obs: with_held(
            held_by(obs, svs, h.tables, i as nat),
            obs,
            svs[i],
            table_for(h.tables, svs[i])->0,
            5 * m,
        ),
        done: false,
    }
}

/// The state of the reader of revision 2 after the last vehicle.
pub open spec fn v2_state_done(h: HeaderView, obs: ObservationsView, svs: Seq<SV>) -> V2State {
    V2State {
        sv_ptr: 3 * (svs.len() as int),
        obs_ptr: 0,
        sv: Some(svs.last()),
        table: table_for(h.tables, svs.last())->0,
        obs: held_by(obs, svs, h.tables, svs.len()),
        done: true,
    }
}

/// The state of the reader of revision 2 after the lines of the first
/// `i` vehicles of a list.
pub open spec fn v2_state_after(
    h: HeaderView,
    obs: ObservationsView,
    svs: Seq<SV>,
    i: int,
) -> V2State {
    if i < svs.len() {
        v2_state_at(h, obs, svs, i, 0)
    } else {
        v2_state_done(h, obs, svs)
    }
}

/// The identifiers of the first `n` vehicles of a list, one after the
/// other.
pub open spec fn identifiers(svs: Seq<SV>, n: nat) -> Seq<u8>
    decreases n,
{
    if n == 0 {
        Seq::empty()
    } else {
        identifiers(svs, (n - 1) as nat) + svs[n - 1].spec_identifier()->0
    }
}

/// The identifiers of vehicles that are read back take three columns
/// each.
pub proof fn lemma_identifiers(svs: Seq<SV>, n: nat, i: int)
    requires
        all_read_back(svs),
        0 <= i < n <= svs.len(),
    ensures
        identifiers(svs, n).len() == 3 * n,
        clip(identifiers(svs, n), 3 * i, 3 * i + 3) == svs[i].spec_identifier()->0,
    decreases n,
{
    assert(reads_back(svs[n - 1]));
    lemma_identifier_width(svs[n - 1]);
    lemma_identifiers_width(svs, (n - 1) as nat);
    let all = identifiers(svs, n);
    let prev = identifiers(svs, (n - 1) as nat);
    if i < n - 1 {
        lemma_identifiers(svs, (n - 1) as nat, i);
        assert(clip(all, 3 * i, 3 * i + 3) =~= clip(prev, 3 * i, 3 * i + 3));
    } else {
        assert(clip(all, 3 * i, 3 * i + 3) =~= svs[i].spec_identifier()->0);
    }
}

pub proof fn lemma_identifiers_width(svs: Seq<SV>, n: nat)
    requires
        all_read_back(svs),
        n <= svs.len(),
    ensures
        identifiers(svs, n).len() == 3 * n,
    decreases n,
{
    if n > 0 {
        assert(reads_back(svs[n - 1]));
        lemma_identifier_width(svs[n - 1]);
        lemma_identifiers_width(svs, (n - 1) as nat);
    }
}

/// A vehicle that is read back is identified with its table.
pub proof fn lemma_identify(h: HeaderView, sv: SV)
    requires
        reads_back(sv),
        table_for(h.tables, sv) is Some,
    ensures
        identify(h, sv.spec_identifier()->0) == Ok::<(Option<SV>, Seq<ObservableView>), Error>(
            (Some(sv), table_for(h.tables, sv)->0),
        ),
{
}

/// A line of a vehicle, as the writer of revision 2 lays it out, is
/// read as what the epoch holds for the observables of the line.
pub proof fn lemma_v2_line_slots(
    base: ObservationsView,
    obs: ObservationsView,
    sv: SV,
    table: Seq<ObservableView>,
    m: nat,
)
    requires
        all_fit(obs),
        5 * m < table.len(),
    ensures
        1 <= chunk_count(table.len(), m) <= 5,
        5 * m + chunk_count(table.len(), m) <= table.len(),
        v2_row_lines(obs, sv, table)[m as int].len() == 16 * chunk_count(table.len(), m),
        v2_count(
            v2_row_lines(obs, sv, table)[m as int].len(),
            table.len() as int,
            5 * (m as int),
        ) == chunk_count(table.len(), m),
        with_slots(
            with_held(base, obs, sv, table, 5 * m),
            Some(sv),
            table,
            5 * (m as int),
            chunk_count(table.len(), m),
            v2_row_lines(obs, sv, table)[m as int],
            false,
        ) == with_held(base, obs, sv, table, 5 * m + chunk_count(table.len(), m)),
{
    let first = 5 * (m as int);
    let c = chunk_count(table.len(), m);
    let line = v2_row_lines(obs, sv, table)[m as int];
    let start = with_held(base, obs, sv, table, 5 * m);
    assert(line == row_text(obs, sv, table.skip(first), c, 0));
    lemma_row_layout(obs, sv, table.skip(first), 0, c);
    lemma_with_slots_alike(start, Some(sv), table, first, c, line);
    lemma_with_slots_shift(start, Some(sv), table, first, c, line, true);
    lemma_row_round_trip(start, obs, sv, table.skip(first), c, c);
    lemma_with_held_split(base, obs, sv, table, 5 * m, c);
}

/// The reader of revision 2 takes one line of a vehicle: it goes on
/// with the vehicle, or with the next one after the last line.
pub proof fn lemma_v2_line_step(
    h: HeaderView,
    obs: ObservationsView,
    svs: Seq<SV>,
    i: int,
    m: nat,
)
    requires
        all_fit(obs),
        all_read_back(svs),
        0 <= i < svs.len(),
        forall|j: int| 0 <= j < svs.len() ==> (table_for(h.tables, #[trigger] svs[j]) matches Some(
            t,
        ) && t.len() > 0),
        m < ceil_div(table_for(h.tables, svs[i])->0.len(), 5),
    ensures
        v2_step(
            h,
            identifiers(svs, svs.len()),
            v2_state_at(h, obs, svs, i, m),
            v2_row_lines(obs, svs[i], table_for(h.tables, svs[i])->0)[m as int],
        ) == Ok::<V2State, Error>(
            if m + 1 < ceil_div(table_for(h.tables, svs[i])->0.len(), 5) {
                v2_state_at(h, obs, svs, i, m + 1)
            } else {
                v2_state_after(h, obs, svs, i + 1)
            },
        ),
{
    let table = table_for(h.tables, svs[i])->0;
    let total = ceil_div(table.len(), 5);
    let base = held_by(obs, svs, h.tables, i as nat);
    assert(table.len() > 0);
    let c = chunk_count(table.len(), m);
    lemma_v2_line_slots(base, obs, svs[i], table, m);
    lemma_identifiers_width(svs, svs.len());
    if m + 1 < total {
        assert(table.len() - 5 * m > 5);
    } else {
        assert(table.len() - 5 * m <= 5);
        assert(5 * m + c == table.len());
        assert(with_held(base, obs, svs[i], table, table.len()) == held_by(
            obs,
            svs,
            h.tables,
            (i + 1) as nat,
        ));
        if i + 1 < svs.len() {
            lemma_identifiers(svs, svs.len(), i + 1);
            assert(reads_back(svs[i + 1]));
            assert(table_for(h.tables, svs[i + 1]) is Some);
            lemma_identify(h, svs[i + 1]);
        } else {
            assert(svs.last() == svs[i]);
        }
    }
}

/// The reader of revision 2 goes through the lines of a vehicle: after
/// `m` of them it has put in what the epoch holds for the first `5 m`
/// observables of the vehicle.
pub proof fn lemma_v2_vehicle_lines(
    h: HeaderView,
    obs: ObservationsView,
    svs: Seq<SV>,
    i: int,
    m: nat,
)
    requires
        all_fit(obs),
        all_read_back(svs),
        0 <= i < svs.len(),
        forall|j: int| 0 <= j < svs.len() ==> (table_for(h.tables, #[trigger] svs[j]) matches Some(
            t,
        ) && t.len() > 0),
        m <= ceil_div(table_for(h.tables, svs[i])->0.len(), 5),
    ensures
        v2_from(
            h,
            identifiers(svs, svs.len()),
            v2_state_at(h, obs, svs, i, 0),
            v2_row_lines(obs, svs[i], table_for(h.tables, svs[i])->0),
            m,
        ) == Ok::<V2State, Error>(
            if m < ceil_div(table_for(h.tables, svs[i])->0.len(), 5) {
                v2_state_at(h, obs, svs, i, m)
            } else {
                v2_state_after(h, obs, svs, i + 1)
            },
        ),
    decreases m,
{
    if m > 0 {
        lemma_v2_vehicle_lines(h, obs, svs, i, (m - 1) as nat);
        lemma_v2_line_step(h, obs, svs, i, (m - 1) as nat);
    }
}

/// The lines that the writer of revision 2 lays out for the first `n`
/// vehicles of a list.
pub open spec fn v2_line_list(h: HeaderView, obs: ObservationsView, svs: Seq<SV>, n: nat) -> Seq<
    Seq<u8>,
>
    decreases n,
{
    if n == 0 {
        Seq::empty()
    } else {
        v2_line_list(h, obs, svs, (n - 1) as nat) + v2_row_lines(
            obs,
            svs[n - 1],
            table_for(h.tables, svs[n - 1])->0,
        )
    }
}

/// The reader of revision 2 goes through the lines of the first `n`
/// vehicles of a list.
pub proof fn lemma_v2_lines_held(h: HeaderView, obs: ObservationsView, svs: Seq<SV>, n: nat)
    requires
        all_fit(obs),
        all_read_back(svs),
        n <= svs.len(),
        svs.len() > 0,
        forall|j: int| 0 <= j < svs.len() ==> (table_for(h.tables, #[trigger] svs[j]) matches Some(
            t,
        ) && t.len() > 0),
    ensures
        v2_from(
            h,
            identifiers(svs, svs.len()),
            v2_state_at(h, obs, svs, 0, 0),
            v2_line_list(h, obs, svs, n),
            v2_line_list(h, obs, svs, n).len(),
        ) == Ok::<V2State, Error>(v2_state_after(h, obs, svs, n as int)),
    decreases n,
{
    if n > 0 {
        lemma_v2_lines_held(h, obs, svs, (n - 1) as nat);
        let table = table_for(h.tables, svs[n - 1])->0;
        let a = v2_line_list(h, obs, svs, (n - 1) as nat);
        let b = v2_row_lines(obs, svs[n - 1], table);
        lemma_v2_from_append(
            h,
            identifiers(svs, svs.len()),
            v2_state_at(h, obs, svs, 0, 0),
            a,
            b,
            b.len(),
        );
        lemma_v2_vehicle_lines(h, obs, svs, n - 1, b.len());
    }
}

/// The lines that the writer of revision 2 lays out for the vehicles of
/// an epoch are read back as the observations of the epoch: every
/// observation fits its slot, the header names the observables, and
/// every vehicle is read back from its identifier.
pub proof fn lemma_v2_lines_round_trip(h: HeaderView, obs: ObservationsView)
    requires
        sorted(obs),
        obs.len() > 0,
        all_fit(obs),
        covered(h.tables, obs),
        all_read_back(vehicles_of(obs)),
    ensures
        v2_observations(
            h,
            identifiers(vehicles_of(obs), vehicles_of(obs).len()),
            v2_line_list(h, obs, vehicles_of(obs), vehicles_of(obs).len()),
        ) == Ok::<ObservationsView, Error>(obs),
{
    let svs = vehicles_of(obs);
    lemma_vehicle_listed(obs, 0);
    assert(svs.len() > 0);
    assert forall|i: int| 0 <= i < svs.len() implies (table_for(
        h.tables,
        #[trigger] svs[i],
    ) matches Some(t) && t.len() > 0) by {
        lemma_vehicle_held(obs, i);
        let j = choose|j: int| 0 <= j < obs.len() && obs[j].0.sv == svs[i];
        assert(table_for(h.tables, obs[j].0.sv) is Some);
    }
    let systems = identifiers(svs, svs.len());
    let lines = v2_line_list(h, obs, svs, svs.len());
    lemma_v2_lines_held(h, obs, svs, svs.len());
    lemma_v2_run_from(h, systems, lines, lines.len());
    lemma_identifiers(svs, svs.len(), 0);
    assert(reads_back(svs[0]));
    lemma_identify(h, svs[0]);
    assert(v2_start(h, systems) == Ok::<V2State, Error>(v2_state_at(h, obs, svs, 0, 0)));
    lemma_held_by_all(obs, h.tables);
}

/// An epoch that the text of the header's revision tells as it is.
pub open spec fn told_as_is(h: HeaderView, key: RecordKey, entry: RecordEntryView) -> bool {
    if h.major < 3 {
        told_v2(h, key, entry)
    } else {
        told_v3(h, key, entry)
    }
}

/// What is written is read back: the text that the writer makes of an
/// epoch is read as the epoch, in the time scale of its instant, when
/// the text tells the epoch as it is.
pub proof fn lemma_round_trip(h: HeaderView, key: RecordKey, entry: RecordEntryView)
    requires
        told_as_is(h, key, entry),
    ensures
        epoch_text(h, key, entry) matches Ok(text) && epoch_of(h, text, key.epoch.time_scale)
            == Ok::<(RecordKey, RecordEntryView), Error>((key, entry)),
{
    if h.major < 3 {
        lemma_v2_round_trip(h, key, entry);
    } else {
        lemma_v3_round_trip(h, key, entry);
    }
}

/// A vehicle of GPS, Glonass, Galileo, BeiDou, QZSS or IRNSS, or of
/// several constellations at once, whose PRN takes two columns.
pub open spec fn plain(sv: SV) -> bool {
    &&& sv.prn <= 99
    &&& sv.constellation.spec_letter() matches Some(l)
    &&& plain_letter(l) == Some(sv.constellation)
}

/// A plain vehicle is read back from its identifier.
pub proof fn lemma_plain_vehicle_reads_back(sv: SV)
    requires
        plain(sv),
    ensures
        reads_back(sv),
{
    let l = sv.constellation.spec_letter()->0;
    let digits = crate::text::pad_left(crate::text::digits_of(sv.prn as nat), 2, 48);
    let id = sv.spec_identifier()->0;
    crate::observation::roundtrip::fields::lemma_zero_filled(sv.prn as nat, 2);
    assert(id.skip(1) =~= digits);
    assert(!crate::text::is_space(digits[0]));
    assert(!crate::text::is_space(digits.last()));
    crate::text::lemma_trimmed_of_tight(digits);
    assert forall|i: int| 0 <= i < id.len() implies #[trigger] id[i] < 128 by {
        if i > 0 {
            assert(id[i] == digits[i - 1]);
            assert(crate::text::is_digit(digits[i - 1]));
        }
    }
    assert(plain_vehicle(id) == Some(sv));
}

/// Plain vehicles are all read back from their identifiers.
pub proof fn lemma_plain_vehicles_read_back(svs: Seq<SV>)
    requires
        forall|i: int| 0 <= i < svs.len() ==> plain(#[trigger] svs[i]),
    ensures
        all_read_back(svs),
{
    assert forall|i: int| 0 <= i < svs.len() implies reads_back(#[trigger] svs[i]) by {
        lemma_plain_vehicle_reads_back(svs[i]);
    }
}

/// The vehicles of an epoch whose observations are all of plain
/// vehicles are read back from their identifiers.
pub proof fn lemma_plain_epoch_reads_back(obs: ObservationsView)
    requires
        forall|i: int| 0 <= i < obs.len() ==> plain((#[trigger] obs[i]).0.sv),
    ensures
        all_read_back(vehicles_of(obs)),
{
    let svs = vehicles_of(obs);
    assert forall|i: int| 0 <= i < svs.len() implies reads_back(#[trigger] svs[i]) by {
        lemma_vehicle_held(obs, i);
        let j = choose|j: int| 0 <= j < obs.len() && obs[j].0.sv == svs[i];
        assert(plain(obs[j].0.sv));
        lemma_plain_vehicle_reads_back(svs[i]);
    }
}

/// A block that is well formed: the text of an epoch that it tells as
/// it is.
pub open spec fn well_formed(
    h: HeaderView,
    block: Seq<u8>,
    key: RecordKey,
    entry: RecordEntryView,
) -> bool {
    told_as_is(h, key, entry) && epoch_text(h, key, entry) == Ok::<Seq<u8>, Error>(block)
}

/// Round trip: a well formed block is read, and what was read is
/// written back as the block.
pub proof fn lemma_block_round_trip(
    h: HeaderView,
    block: Seq<u8>,
    key: RecordKey,
    entry: RecordEntryView,
)
    requires
        well_formed(h, block, key, entry),
    ensures
        epoch_of(h, block, key.epoch.time_scale) matches Ok(read) && epoch_text(h, read.0, read.1)
            == Ok::<Seq<u8>, Error>(block),
{
    lemma_round_trip(h, key, entry);
}

/// The number of vehicles that the first line of a well formed block
/// declares is the number of vehicles of the epoch that is read from
/// the block.
pub proof fn lemma_declared_vehicles(
    h: HeaderView,
    block: Seq<u8>,
    key: RecordKey,
    entry: RecordEntryView,
)
    requires
        well_formed(h, block, key, entry),
    ensures
        lines_of(block).len() >= 1,
        epoch_of(h, block, key.epoch.time_scale) matches Ok(read) && head_of(
            h.major,
            lines_of(block)[0],
            key.epoch.time_scale,
        ) matches Ok(head) && head.n_sat == vehicles_of(read.1.observations).len(),
{
    if h.major < 3 {
        lemma_v2_round_trip(h, key, entry);
    } else {
        lemma_v3_round_trip(h, key, entry);
    }
}

} // verus!
