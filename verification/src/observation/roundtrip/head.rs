//! The line that opens an epoch is read back as the epoch was written.

use crate::epoch::Epoch;
use crate::epoch::EpochParsingError;
use crate::epoch::Gregorian;
use crate::epoch::datetime_value;
use crate::epoch::field;
use crate::epoch::full_year;
use crate::observation::EpochFlag;
use crate::observation::formatting::date_text;
use crate::observation::formatting::day_text;
use crate::observation::formatting::head_clock;
use crate::observation::formatting::head_text;
use crate::observation::formatting::rounded;
use crate::observation::formatting::time_text;
use crate::observation::parsing::EpochHead;
use crate::observation::parsing::clock_column;
use crate::observation::parsing::clock_offset_of;
use crate::observation::parsing::date_end;
use crate::observation::parsing::date_start;
use crate::observation::parsing::head_of;
use crate::observation::record::Error;
use crate::observation::record::RecordKey;
use crate::observation::roundtrip::fields::lemma_decimal_of_parts;
use crate::observation::roundtrip::fields::lemma_digits_width;
use crate::observation::roundtrip::fields::lemma_fixed_text_scaled;
use crate::observation::roundtrip::fields::lemma_frac_value_beyond;
use crate::observation::roundtrip::fields::lemma_frac_value_whole;
use crate::observation::roundtrip::fields::lemma_spaced_field;
use crate::observation::roundtrip::fields::lemma_zero_filled;
use crate::observation::roundtrip::fields::spaced;
use crate::observation::roundtrip::fields::tight;
use crate::observation::roundtrip::fields::well_spaced;
use crate::observation::roundtrip::framing::lemma_one_line_fixed;
use crate::observation::roundtrip::framing::lemma_one_line_joined;
use crate::observation::roundtrip::framing::lemma_one_line_number;
use crate::observation::roundtrip::framing::lemma_one_line_padded;
use crate::observation::roundtrip::framing::one_line;
use crate::text::all_spaces;
use crate::text::clip;
use crate::text::decimal_value;
use crate::text::digits_of;
use crate::text::fixed_text;
use crate::text::is_digit;
use crate::text::is_space;
use crate::text::lemma_digits_of;
use crate::text::lemma_fixed_text_value;
use crate::text::lemma_trimmed_of_padded;
use crate::text::pad_left;
use crate::text::pow10;
use crate::text::signed_number;
use crate::text::trimmed;
use crate::text::unsigned_value;
use vstd::prelude::*;

verus! {

/// The blank that a number below ten leaves before it in a field of two
/// columns filled with blanks.
#[verifier::opaque]
pub open spec fn lead(x: nat, fill: u8) -> Seq<u8> {
    if fill == 32 && x < 10 {
        seq![32u8]
    } else {
        Seq::empty()
    }
}

/// What a field of two columns holds beside that blank.
#[verifier::opaque]
pub open spec fn body(x: nat, fill: u8) -> Seq<u8> {
    if fill == 32 {
        digits_of(x)
    } else {
        pad_left(digits_of(x), 2, fill)
    }
}

/// A number below 100 takes two columns and is read back.
pub proof fn lemma_two_columns(x: nat, fill: u8)
    requires
        x <= 99,
        fill == 32 || fill == 48,
    ensures
        pad_left(digits_of(x), 2, fill) == lead(x, fill) + body(x, fill),
        pad_left(digits_of(x), 2, fill).len() == 2,
        all_spaces(lead(x, fill)),
        tight(body(x, fill)),
        unsigned_value(body(x, fill)) == Some(x),
{
    reveal(lead);
    reveal(body);
    lemma_digits_of(x);
    assert(pow10(2) == 100) by {
        reveal_with_fuel(pow10, 3);
    }
    lemma_digits_width(x, 2);
    let d = digits_of(x);
    if x < 10 {
        assert(d.len() == 1);
    } else {
        assert(pow10(1) == 10) by {
            reveal_with_fuel(pow10, 2);
        }
        if d.len() < 2 {
            crate::observation::roundtrip::fields::lemma_digits_short(d, 1);
        }
        assert(d.len() == 2);
    }
    lemma_zero_filled(x, 2);
    assert(is_digit(d[0]));
    assert forall|i: int| 0 <= i < d.len() implies !is_space(#[trigger] d[i]) by {
        assert(is_digit(d[i]));
    }
    assert(pad_left(d, 2, fill) =~= lead(x, fill) + body(x, fill));
}

/// The year as the line of an epoch tells it: four digits in revision
/// 3, the last two before.
#[verifier::opaque]
pub open spec fn year_text(year: int, v3: bool) -> Seq<u8> {
    if v3 {
        signed_number(year, 4)
    } else {
        signed_number(
            if year - 2000 < 0 {
                year - 1900
            } else {
                year - 2000
            },
            2,
        )
    }
}

/// The seconds as the line of an epoch tells them, without the blank
/// that may stand before.
#[verifier::opaque]
pub open spec fn seconds_text(g: Gregorian) -> Seq<u8> {
    digits_of(g.second as nat) + seq![46u8] + pad_left(digits_of((g.nanos / 100) as nat), 7, 48)
}

/// The character that fills the fields of a date.
pub open spec fn date_fill(v3: bool) -> u8 {
    if v3 {
        48
    } else {
        32
    }
}

/// The date and time of the line of an epoch, with the blank before
/// them.
#[verifier::opaque]
pub open spec fn dated(g: Gregorian, v3: bool) -> Seq<u8> {
    seq![32u8] + date_text(g, v3)
}

/// The blanks before each field of a date.
#[verifier::opaque]
pub open spec fn date_gaps(g: Gregorian, v3: bool) -> Seq<Seq<u8>> {
    seq![
        seq![32u8],
        seq![32u8] + lead(g.month as nat, date_fill(v3)),
        seq![32u8] + lead(g.day as nat, date_fill(v3)),
        seq![32u8] + lead(g.hour as nat, date_fill(v3)),
        seq![32u8] + lead(g.minute as nat, date_fill(v3)),
        seq![32u8] + lead(g.second as nat, 32),
    ]
}

/// The fields of a date.
#[verifier::opaque]
pub open spec fn date_fields(g: Gregorian, v3: bool) -> Seq<Seq<u8>> {
    seq![
        year_text(g.year as int, v3),
        body(g.month as nat, date_fill(v3)),
        body(g.day as nat, date_fill(v3)),
        body(g.hour as nat, date_fill(v3)),
        body(g.minute as nat, date_fill(v3)),
        seconds_text(g),
    ]
}

/// A date that the line of an epoch can tell: the year in the range of
/// the revision, every other field in its columns.
pub open spec fn in_columns(g: Gregorian, v3: bool) -> bool {
    &&& if v3 {
        100 <= g.year <= 9999
    } else {
        1980 <= g.year <= 2079
    }
    &&& g.month <= 99
    &&& g.day <= 99
    &&& g.hour <= 99
    &&& g.minute <= 99
    &&& g.second <= 99
    &&& g.nanos <= 999_999_999
}

/// A date as the line of an epoch keeps it: to the tenth of a
/// microsecond.
pub open spec fn kept_date(g: Gregorian) -> Gregorian {
    Gregorian {
        year: g.year,
        month: g.month,
        day: g.day,
        hour: g.hour,
        minute: g.minute,
        second: g.second,
        nanos: ((g.nanos / 100) * 100) as u32,
    }
}

/// The year of a date is read back.
pub proof fn lemma_year_text(year: int, v3: bool)
    requires
        if v3 {
            100 <= year <= 9999
        } else {
            1980 <= year <= 2079
        },
    ensures
        tight(year_text(year, v3)),
        year_text(year, v3).len() == if v3 {
            4int
        } else {
            2int
        },
        unsigned_value(year_text(year, v3)) matches Some(y) && y <= 9999 && full_year(y) == year,
{
    reveal(year_text);
    assert(pow10(2) == 100 && pow10(4) == 10000) by {
        reveal_with_fuel(pow10, 5);
    }
    if v3 {
        lemma_zero_filled(year as nat, 4);
        lemma_digits_width(year as nat, 4);
    } else {
        let yy = if year - 2000 < 0 {
            year - 1900
        } else {
            year - 2000
        };
        lemma_zero_filled(yy as nat, 2);
        lemma_digits_width(yy as nat, 2);
    }
}

/// The seconds of a date are read back to the tenth of a microsecond.
pub proof fn lemma_seconds_text(g: Gregorian)
    requires
        g.second <= 99,
        g.nanos <= 999_999_999,
    ensures
        tight(seconds_text(g)),
        seconds_text(g).len() == digits_of(g.second as nat).len() + 8,
        seconds_text(g)[0] != 45,
        decimal_value(seconds_text(g), 9) == Some(
            g.second * 1_000_000_000 + (g.nanos / 100) * 100,
        ),
{
    reveal(seconds_text);
    let i = digits_of(g.second as nat);
    let x = (g.nanos / 100) as nat;
    let f = pad_left(digits_of(x), 7, 48);
    lemma_digits_of(g.second as nat);
    lemma_zero_filled(x, 7);
    assert(pow10(7) == 10_000_000 && pow10(2) == 100 && pow10(9) == 1_000_000_000) by {
        reveal_with_fuel(pow10, 10);
    }
    lemma_digits_width(x, 7);
    assert(f.len() == 7);
    lemma_decimal_of_parts(i, f, 9);
    lemma_frac_value_whole(f);
    lemma_frac_value_beyond(f, 7, 2);
    assert(is_digit(i[0]));
    assert(seconds_text(g)[0] == i[0]);
}

/// Joining the pieces of a date field by field, or day and time apart,
/// gives the same text.
proof fn lemma_date_joined(
    b: Seq<u8>,
    y: Seq<u8>,
    mo: Seq<u8>,
    da: Seq<u8>,
    ho: Seq<u8>,
    mi: Seq<u8>,
    se: Seq<u8>,
    dot: Seq<u8>,
    fr: Seq<u8>,
)
    ensures
        b + ((y + b + mo + b + da + b) + (ho + b + mi + b + se + dot + fr)) == b + y + b + mo + b
            + da + b + ho + b + mi + b + se + dot + fr,
{
    assert(b + ((y + b + mo + b + da + b) + (ho + b + mi + b + se + dot + fr)) =~= b + y + b + mo
        + b + da + b + ho + b + mi + b + se + dot + fr);
}

/// A field after a gap, and the gap's last blanks taken with the field,
/// give the same text.
proof fn lemma_gap_joined(s: Seq<u8>, b: Seq<u8>, l: Seq<u8>, t: Seq<u8>)
    ensures
        s + (b + l) + t == s + b + (l + t),
{
    assert(s + (b + l) + t =~= s + b + (l + t));
}

/// Six fields, each after a blank and the blanks that fill it, spell
/// the text of the blanks and the filled fields.
proof fn lemma_six_spaced(
    b: Seq<u8>,
    y: Seq<u8>,
    l: Seq<Seq<u8>>,
    t: Seq<Seq<u8>>,
)
    requires
        l.len() == 5,
        t.len() == 5,
    ensures
        spaced(
            seq![b, b + l[0], b + l[1], b + l[2], b + l[3], b + l[4]],
            seq![y, t[0], t[1], t[2], t[3], t[4]],
            6,
        ) == b + y + b + (l[0] + t[0]) + b + (l[1] + t[1]) + b + (l[2] + t[2]) + b + (l[3] + t[3])
            + b + (l[4] + t[4]),
{
    let gaps = seq![b, b + l[0], b + l[1], b + l[2], b + l[3], b + l[4]];
    let fields = seq![y, t[0], t[1], t[2], t[3], t[4]];
    reveal_with_fuel(spaced, 7);
    let s0 = spaced(gaps, fields, 0);
    let s1 = spaced(gaps, fields, 1);
    let s2 = spaced(gaps, fields, 2);
    let s3 = spaced(gaps, fields, 3);
    let s4 = spaced(gaps, fields, 4);
    let s5 = spaced(gaps, fields, 5);
    let s6 = spaced(gaps, fields, 6);
    assert(s1 == s0 + gaps[0] + fields[0]);
    assert(s0 + gaps[0] =~= b);
    assert(s2 == s1 + gaps[1] + fields[1]);
    lemma_gap_joined(s1, b, l[0], t[0]);
    assert(s3 == s2 + gaps[2] + fields[2]);
    lemma_gap_joined(s2, b, l[1], t[1]);
    assert(s4 == s3 + gaps[3] + fields[3]);
    lemma_gap_joined(s3, b, l[2], t[2]);
    assert(s5 == s4 + gaps[4] + fields[4]);
    lemma_gap_joined(s4, b, l[3], t[3]);
    assert(s6 == s5 + gaps[5] + fields[5]);
    lemma_gap_joined(s5, b, l[4], t[4]);
}

/// Six fields that hold no blank, after gaps of blanks, are well spaced.
proof fn lemma_six_well_spaced(gaps: Seq<Seq<u8>>, fields: Seq<Seq<u8>>)
    requires
        gaps.len() == 6,
        fields.len() == 6,
        all_spaces(gaps[0]),
        all_spaces(gaps[1]) && gaps[1].len() > 0,
        all_spaces(gaps[2]) && gaps[2].len() > 0,
        all_spaces(gaps[3]) && gaps[3].len() > 0,
        all_spaces(gaps[4]) && gaps[4].len() > 0,
        all_spaces(gaps[5]) && gaps[5].len() > 0,
        tight(fields[0]),
        tight(fields[1]),
        tight(fields[2]),
        tight(fields[3]),
        tight(fields[4]),
        tight(fields[5]),
    ensures
        well_spaced(gaps, fields, 6),
{
}

/// A blank before blanks is blanks.
proof fn lemma_blank_before(l: Seq<u8>)
    requires
        all_spaces(l),
    ensures
        all_spaces(seq![32u8] + l),
        (seq![32u8] + l).len() == 1 + l.len(),
{
    let s = seq![32u8] + l;
    assert forall|i: int| 0 <= i < s.len() implies is_space(#[trigger] s[i]) by {
        if i > 0 {
            assert(s[i] == l[i - 1]);
        }
    }
}

/// The date and time of the line of an epoch, with the blank before
/// them, are six well spaced fields.
pub proof fn lemma_date_fields(g: Gregorian, v3: bool)
    requires
        in_columns(g, v3),
    ensures
        well_spaced(date_gaps(g, v3), date_fields(g, v3), 6),
        dated(g, v3) == spaced(date_gaps(g, v3), date_fields(g, v3), 6),
        dated(g, v3).len() == if v3 {
            28int
        } else {
            26int
        },
{
    reveal(lead);
    reveal(body);
    reveal(year_text);
    reveal(seconds_text);
    reveal(date_gaps);
    reveal(date_fields);
    reveal(dated);
    let fill = date_fill(v3);
    let gaps = date_gaps(g, v3);
    let fields = date_fields(g, v3);
    lemma_year_text(g.year as int, v3);
    lemma_two_columns(g.month as nat, fill);
    lemma_two_columns(g.day as nat, fill);
    lemma_two_columns(g.hour as nat, fill);
    lemma_two_columns(g.minute as nat, fill);
    lemma_two_columns(g.second as nat, 32);
    lemma_seconds_text(g);
    let b = seq![32u8];
    let y = year_text(g.year as int, v3);
    let dot = seq![46u8];
    let fr = pad_left(digits_of((g.nanos / 100) as nat), 7, 48);
    let l = seq![
        lead(g.month as nat, fill),
        lead(g.day as nat, fill),
        lead(g.hour as nat, fill),
        lead(g.minute as nat, fill),
        lead(g.second as nat, 32),
    ];
    let t = seq![
        body(g.month as nat, fill),
        body(g.day as nat, fill),
        body(g.hour as nat, fill),
        body(g.minute as nat, fill),
        seconds_text(g),
    ];
    lemma_blank_before(l[0]);
    lemma_blank_before(l[1]);
    lemma_blank_before(l[2]);
    lemma_blank_before(l[3]);
    lemma_blank_before(l[4]);
    assert(all_spaces(b)) by {
        lemma_blank_before(Seq::empty());
        assert(b =~= b + Seq::<u8>::empty());
    }
    assert(gaps[0] == b);
    assert(gaps[1] == b + l[0]);
    assert(gaps[2] == b + l[1]);
    assert(gaps[3] == b + l[2]);
    assert(gaps[4] == b + l[3]);
    assert(gaps[5] == b + l[4]);
    lemma_six_well_spaced(gaps, fields);
    lemma_six_spaced(b, y, l, t);
    assert(gaps =~= seq![b, b + l[0], b + l[1], b + l[2], b + l[3], b + l[4]]);
    assert(fields =~= seq![y, t[0], t[1], t[2], t[3], t[4]]);
    let mo = pad_left(digits_of(g.month as nat), 2, fill);
    let da = pad_left(digits_of(g.day as nat), 2, fill);
    let ho = pad_left(digits_of(g.hour as nat), 2, fill);
    let mi = pad_left(digits_of(g.minute as nat), 2, fill);
    let se = pad_left(digits_of(g.second as nat), 2, 32);
    assert(l[4] + t[4] == se + dot + fr) by {
        lemma_seconds_joined(l[4], digits_of(g.second as nat), dot, fr);
    }
    assert(l[0] + t[0] == mo);
    assert(l[1] + t[1] == da);
    assert(l[2] + t[2] == ho);
    assert(l[3] + t[3] == mi);
    let flat = b + y + b + mo + b + da + b + ho + b + mi + b + (se + dot + fr);
    assert(spaced(gaps, fields, 6) == flat);
    lemma_date_joined(b, y, mo, da, ho, mi, se, dot, fr);
    assert(b + y + b + mo + b + da + b + ho + b + mi + b + (se + dot + fr) =~= b + y + b + mo + b
        + da + b + ho + b + mi + b + se + dot + fr);
    assert(day_text(g, v3) == y + b + mo + b + da + b);
    assert(time_text(g, v3) == ho + b + mi + b + se + dot + fr);
    assert(flat.len() == 1 + y.len() + 3 + 3 + 3 + 3 + 1 + se.len() + 1 + fr.len());
    assert(fr.len() == 7) by {
        assert(seconds_text(g).len() == digits_of(g.second as nat).len() + 8);
    }
}

/// The blank that fills the seconds belongs to their field.
proof fn lemma_seconds_joined(l: Seq<u8>, d: Seq<u8>, dot: Seq<u8>, fr: Seq<u8>)
    ensures
        l + (d + dot + fr) == (l + d) + dot + fr,
{
    assert(l + (d + dot + fr) =~= (l + d) + dot + fr);
}

/// The date and time that six fields spell.
proof fn lemma_datetime_of_fields(
    s: Seq<u8>,
    y: nat,
    mo: nat,
    d: nat,
    h: nat,
    mi: nat,
    v: int,
)
    requires
        unsigned_value(field(s, 0)) == Some(y),
        unsigned_value(field(s, 1)) == Some(mo),
        unsigned_value(field(s, 2)) == Some(d),
        unsigned_value(field(s, 3)) == Some(h),
        unsigned_value(field(s, 4)) == Some(mi),
        decimal_value(field(s, 5), 9) == Some(v),
        field(s, 5).len() > 0,
        field(s, 5)[0] != 45,
        y <= 9999,
        mo <= 255,
        d <= 255,
        h <= 255,
        mi <= 255,
        0 <= v <= 255_999_999_999,
    ensures
        datetime_value(s) == Ok::<Gregorian, EpochParsingError>(
            Gregorian {
                year: full_year(y) as i32,
                month: mo as u8,
                day: d as u8,
                hour: h as u8,
                minute: mi as u8,
                second: (v / 1_000_000_000) as u8,
                nanos: (v % 1_000_000_000) as u32,
            },
        ),
{
}

/// Each of six well spaced fields is found again in their text.
proof fn lemma_six_fields(gaps: Seq<Seq<u8>>, fields: Seq<Seq<u8>>)
    requires
        well_spaced(gaps, fields, 6),
    ensures
        field(spaced(gaps, fields, 6), 0) == fields[0],
        field(spaced(gaps, fields, 6), 1) == fields[1],
        field(spaced(gaps, fields, 6), 2) == fields[2],
        field(spaced(gaps, fields, 6), 3) == fields[3],
        field(spaced(gaps, fields, 6), 4) == fields[4],
        field(spaced(gaps, fields, 6), 5) == fields[5],
{
    lemma_spaced_field(gaps, fields, 6, 0);
    lemma_spaced_field(gaps, fields, 6, 1);
    lemma_spaced_field(gaps, fields, 6, 2);
    lemma_spaced_field(gaps, fields, 6, 3);
    lemma_spaced_field(gaps, fields, 6, 4);
    lemma_spaced_field(gaps, fields, 6, 5);
}

/// The six fields of the date and time of the line of an epoch.
pub proof fn lemma_date_field_texts(g: Gregorian, v3: bool)
    requires
        in_columns(g, v3),
    ensures
        field(dated(g, v3), 0) == year_text(g.year as int, v3),
        field(dated(g, v3), 1) == body(g.month as nat, date_fill(v3)),
        field(dated(g, v3), 2) == body(g.day as nat, date_fill(v3)),
        field(dated(g, v3), 3) == body(g.hour as nat, date_fill(v3)),
        field(dated(g, v3), 4) == body(g.minute as nat, date_fill(v3)),
        field(dated(g, v3), 5) == seconds_text(g),
{
    reveal(date_fields);
    let gaps = date_gaps(g, v3);
    let fields = date_fields(g, v3);
    lemma_date_fields(g, v3);
    lemma_six_fields(gaps, fields);
    assert(fields[0] == year_text(g.year as int, v3));
    assert(fields[1] == body(g.month as nat, date_fill(v3)));
    assert(fields[2] == body(g.day as nat, date_fill(v3)));
    assert(fields[3] == body(g.hour as nat, date_fill(v3)));
    assert(fields[4] == body(g.minute as nat, date_fill(v3)));
    assert(fields[5] == seconds_text(g));
}

/// The date and time of the line of an epoch are read back to the
/// tenth of a microsecond.
pub proof fn lemma_date_value(g: Gregorian, v3: bool)
    requires
        in_columns(g, v3),
    ensures
        datetime_value(dated(g, v3)) == Ok::<Gregorian, EpochParsingError>(
            kept_date(g),
        ),
{
    let s = dated(g, v3);
    let fill = date_fill(v3);
    lemma_date_field_texts(g, v3);
    lemma_year_text(g.year as int, v3);
    lemma_two_columns(g.month as nat, fill);
    lemma_two_columns(g.day as nat, fill);
    lemma_two_columns(g.hour as nat, fill);
    lemma_two_columns(g.minute as nat, fill);
    lemma_seconds_text(g);
    let v = g.second * 1_000_000_000 + (g.nanos / 100) * 100;
    assert(v / 1_000_000_000 == g.second as int);
    assert(v % 1_000_000_000 == (g.nanos / 100) * 100);
    let y = unsigned_value(year_text(g.year as int, v3))->0;
    lemma_datetime_of_fields(
        s,
        y,
        g.month as nat,
        g.day as nat,
        g.hour as nat,
        g.minute as nat,
        v,
    );
}

/// An instant that the line of an epoch tells, and that is the instant
/// of what the line tells: its date is in the columns, and it falls on
/// a tenth of a microsecond of its own time scale.
pub open spec fn told(e: Epoch, v3: bool) -> bool {
    &&& in_columns(e.spec_gregorian(), v3)
    &&& Epoch::of_gregorian(kept_date(e.spec_gregorian()), e.time_scale) == Some(e)
}

/// The first columns of the line that opens an epoch: all but the clock
/// offset.
pub open spec fn head_front(v3: bool, key: RecordKey, n: nat) -> Seq<u8> {
    head_text(v3, key, n, None)
}

/// The flag of an epoch is read back from its three columns.
pub proof fn lemma_flag_field(flag: EpochFlag)
    ensures
        EpochFlag::of_text(seq![32u8] + seq![32u8] + seq![(48 + flag.spec_index()) as u8]) == Some(
            flag,
        ),
{
    let mark = seq![(48 + flag.spec_index()) as u8];
    let text = seq![32u8] + seq![32u8] + mark;
    assert(text =~= (seq![32u8] + seq![32u8]) + mark + Seq::<u8>::empty());
    lemma_trimmed_of_padded(seq![32u8] + seq![32u8], mark, Seq::<u8>::empty());
}

/// A number below 1000 is read back from its three columns.
pub proof fn lemma_count_field(n: nat)
    requires
        n <= 999,
    ensures
        pad_left(digits_of(n), 3, 32).len() == 3,
        unsigned_value(trimmed(pad_left(digits_of(n), 3, 32))) == Some(n),
{
    lemma_digits_of(n);
    assert(pow10(3) == 1000) by {
        reveal_with_fuel(pow10, 4);
    }
    lemma_digits_width(n, 3);
    let d = digits_of(n);
    assert(is_digit(d[0]));
    assert(is_digit(d.last()));
    let pad = Seq::new((3 - d.len()) as nat, |i: int| 32u8);
    assert(pad_left(d, 3, 32) =~= pad + d + Seq::<u8>::empty());
    lemma_trimmed_of_padded(pad, d, Seq::<u8>::empty());
}

/// The columns of the line that opens an epoch.
proof fn lemma_head_columns(
    open: Seq<u8>,
    dated: Seq<u8>,
    flag: Seq<u8>,
    count: Seq<u8>,
    tail: Seq<u8>,
)
    requires
        flag.len() == 3,
        count.len() == 3,
    ensures
        clip(
            open + dated + flag + count + tail,
            open.len() as int,
            (open.len() + dated.len()) as int,
        ) == dated,
        clip(
            open + dated + flag + count + tail,
            (open.len() + dated.len()) as int,
            (open.len() + dated.len() + 3) as int,
        ) == flag,
        clip(
            open + dated + flag + count + tail,
            (open.len() + dated.len() + 3) as int,
            (open.len() + dated.len() + 6) as int,
        ) == count,
{
    let line = open + dated + flag + count + tail;
    let a = open.len() as int;
    let b = a + dated.len();
    assert(clip(line, a, b) =~= dated);
    assert(clip(line, b, b + 3) =~= flag);
    assert(clip(line, b + 3, b + 6) =~= count);
}

/// The instant, the flag and the number of vehicles are read back from
/// the line that opens an epoch, whatever follows them on the line.
pub proof fn lemma_head_round_trip(major: u8, key: RecordKey, n: nat, tail: Seq<u8>)
    requires
        told(key.epoch, major >= 3),
        n <= 999,
    ensures
        head_front(major >= 3, key, n).len() == date_end(major) + 6,
        head_of(major, head_front(major >= 3, key, n) + tail, key.epoch.time_scale) == Ok::<
            EpochHead,
            Error,
        >(
            EpochHead {
                key,
                n_sat: n as u16,
                clock_offset: clock_offset_of(major, head_front(major >= 3, key, n) + tail),
            },
        ),
{
    reveal(dated);
    let v3 = major >= 3;
    let g = key.epoch.spec_gregorian();
    let front = head_front(v3, key, n);
    let line = front + tail;
    let dated = dated(g, v3);
    let flag = seq![32u8] + seq![32u8] + seq![(48 + key.flag.spec_index()) as u8];
    let count = pad_left(digits_of(n), 3, 32);
    lemma_date_fields(g, v3);
    lemma_date_value(g, v3);
    lemma_flag_field(key.flag);
    lemma_count_field(n);
    let open = if v3 {
        seq![62u8]
    } else {
        Seq::<u8>::empty()
    };
    assert(crate::observation::formatting::head_clock(v3, None) == Seq::<u8>::empty());
    assert(front =~= open + dated + flag + count);
    lemma_head_columns(open, dated, flag, count, tail);
    assert(clip(line, date_start(major), date_end(major)) == dated);
    assert(clip(line, date_end(major), date_end(major) + 3) == flag);
    assert(clip(line, date_end(major) + 3, date_end(major) + 6) == count);
}

/// A clock offset that the line of an epoch of revision 3 tells as it
/// is: a multiple of the tenth of a millisecond.
pub open spec fn clock_told(clock: Option<i64>) -> bool {
    clock matches Some(c) ==> c % 100_000_000 == 0
}

/// A clock offset of revision 3 is read back from its field.
pub proof fn lemma_clock_field(c: i64)
    requires
        c % 100_000_000 == 0,
    ensures
        decimal_value(trimmed(head_clock(true, Some(c))), 12) == Some(c as int),
        head_clock(true, Some(c)).len() >= 13,
{
    let r = rounded(c as int, 100_000_000);
    assert(r * 100_000_000 == c);
    let t = fixed_text(r, 4);
    lemma_fixed_text_value(r, 4);
    lemma_fixed_text_scaled(r, 4, 8);
    assert(pow10(8) == 100_000_000) by {
        reveal_with_fuel(pow10, 9);
    }
    let field = pad_left(t, 13, 32);
    if t.len() < 13 {
        let pad = Seq::new((13 - t.len()) as nat, |i: int| 32u8);
        assert(field =~= pad + t + Seq::<u8>::empty());
        lemma_trimmed_of_padded(pad, t, Seq::<u8>::empty());
    } else {
        crate::text::lemma_trimmed_of_tight(t);
    }
}

/// The clock offset is read back from the line that opens an epoch of
/// revision 3.
pub proof fn lemma_clock_round_trip(major: u8, key: RecordKey, n: nat, clock: Option<i64>)
    requires
        major >= 3,
        head_front(true, key, n).len() == 35,
        clock_told(clock),
    ensures
        head_text(true, key, n, clock) == head_front(true, key, n) + head_clock(true, clock),
        clock_offset_of(major, head_text(true, key, n, clock)) == clock,
{
    let front = head_front(true, key, n);
    let tail = head_clock(true, clock);
    let line = head_text(true, key, n, clock);
    assert(head_clock(true, None) =~= Seq::<u8>::empty());
    assert(line =~= front + tail);
    match clock {
        None => {
            assert(line.len() == 35);
        },
        Some(c) => {
            lemma_clock_field(c);
            assert(clip(line, clock_column(major), line.len() as int) =~= tail);
        },
    }
}

/// A text that holds no blank holds no line feed.
pub proof fn lemma_one_line_tight(s: Seq<u8>)
    requires
        tight(s),
    ensures
        one_line(s),
{
    assert forall|i: int| 0 <= i < s.len() implies (#[trigger] s[i]) != 10 && s[i] != 13 by {
        assert(!is_space(s[i]));
    }
}

/// Fields and gaps of one line spell one line.
pub proof fn lemma_one_line_spaced(gaps: Seq<Seq<u8>>, fields: Seq<Seq<u8>>, n: nat)
    requires
        n <= gaps.len(),
        n <= fields.len(),
        forall|i: int| 0 <= i < n ==> one_line(#[trigger] gaps[i]),
        forall|i: int| 0 <= i < n ==> one_line(#[trigger] fields[i]),
    ensures
        one_line(spaced(gaps, fields, n)),
    decreases n,
{
    if n > 0 {
        lemma_one_line_spaced(gaps, fields, (n - 1) as nat);
        let prev = spaced(gaps, fields, (n - 1) as nat);
        assert(one_line(gaps[n - 1]));
        assert(one_line(fields[n - 1]));
        lemma_one_line_joined(prev, gaps[n - 1]);
        lemma_one_line_joined(prev + gaps[n - 1], fields[n - 1]);
    }
}

/// The date and time of the line of an epoch hold no line feed.
pub proof fn lemma_one_line_dated(g: Gregorian, v3: bool)
    requires
        in_columns(g, v3),
    ensures
        one_line(dated(g, v3)),
{
    lemma_date_fields(g, v3);
    let gaps = date_gaps(g, v3);
    let fields = date_fields(g, v3);
    assert forall|i: int| 0 <= i < 6 implies one_line(#[trigger] fields[i]) by {
        assert(tight(fields[i]));
        lemma_one_line_tight(fields[i]);
    }
    assert forall|i: int| 0 <= i < 6 implies one_line(#[trigger] gaps[i]) by {
        reveal(date_gaps);
        reveal(lead);
    }
    lemma_one_line_spaced(gaps, fields, 6);
}

/// What opens the line of an epoch: a `>` in revision 3.
pub open spec fn head_open(v3: bool) -> Seq<u8> {
    if v3 {
        seq![62u8]
    } else {
        Seq::empty()
    }
}

/// The three columns of the flag of an epoch.
pub open spec fn flag_text(flag: EpochFlag) -> Seq<u8> {
    seq![32u8] + seq![32u8] + seq![(48 + flag.spec_index()) as u8]
}

/// The parts of the line that opens an epoch.
pub proof fn lemma_head_parts(v3: bool, key: RecordKey, n: nat, clock: Option<i64>)
    ensures
        head_text(v3, key, n, clock) == head_open(v3) + dated(key.epoch.spec_gregorian(), v3)
            + flag_text(key.flag) + pad_left(digits_of(n), 3, 32) + head_clock(v3, clock),
{
    reveal(dated);
    assert(head_text(v3, key, n, clock) =~= head_open(v3) + dated(key.epoch.spec_gregorian(), v3)
        + flag_text(key.flag) + pad_left(digits_of(n), 3, 32) + head_clock(v3, clock));
}

/// The line that opens an epoch is one line, and ends with no blank.
pub proof fn lemma_head_line(v3: bool, key: RecordKey, n: nat, clock: Option<i64>)
    requires
        in_columns(key.epoch.spec_gregorian(), v3),
        n <= 999,
    ensures
        one_line(head_text(v3, key, n, clock)),
        head_text(v3, key, n, clock).len() >= 32,
        v3 ==> head_text(v3, key, n, clock)[0] == 62,
        !v3 ==> !is_space(head_text(v3, key, n, clock)[1]),
        !is_space(head_text(v3, key, n, clock).last()),
{
    let g = key.epoch.spec_gregorian();
    let open = head_open(v3);
    let date = dated(g, v3);
    let flag = flag_text(key.flag);
    let count = pad_left(digits_of(n), 3, 32);
    let clock_text = head_clock(v3, clock);
    lemma_head_parts(v3, key, n, clock);
    lemma_one_line_dated(g, v3);
    lemma_date_fields(g, v3);
    lemma_count_field(n);
    lemma_one_line_number(n, 3, 32);
    assert(one_line(open));
    assert(one_line(flag));
    match clock {
        Some(c) => {
            if v3 {
                let r = rounded(c as int, 100_000_000);
                lemma_one_line_fixed(r, 4);
                lemma_one_line_padded(fixed_text(r, 4), 13, 32);
                lemma_fixed_text_value(r, 4);
                assert(clock_text.last() == fixed_text(r, 4).last());
            }
        },
        None => {},
    }
    assert(one_line(clock_text));
    lemma_one_line_joined(open, date);
    lemma_one_line_joined(open + date, flag);
    lemma_one_line_joined(open + date + flag, count);
    lemma_one_line_joined(open + date + flag + count, clock_text);
    lemma_digits_of(n);
    let d = digits_of(n);
    assert(is_digit(d.last()));
    assert(count.last() == d.last());
    let line = head_text(v3, key, n, clock);
    if clock_text.len() == 0 {
        assert(line.last() == count.last());
    } else {
        assert(line.last() == clock_text.last());
    }
    lemma_date_first(g, v3);
    if v3 {
        assert(line[0] == 62);
    } else {
        assert(line[1] == date[1]);
    }
}

/// The date of the line of an epoch starts with a blank, then a digit.
pub proof fn lemma_date_first(g: Gregorian, v3: bool)
    requires
        in_columns(g, v3),
    ensures
        dated(g, v3).len() >= 26,
        dated(g, v3)[0] == 32,
        !is_space(dated(g, v3)[1]),
{
    lemma_date_fields(g, v3);
    lemma_year_text(g.year as int, v3);
    reveal(dated);
    reveal(year_text);
    let y = year_text(g.year as int, v3);
    assert(dated(g, v3)[1] == day_text(g, v3)[0]);
    assert(day_text(g, v3)[0] == y[0]);
}

} // verus!
