//! Fields of a line: what blanks set apart, and what digits are worth.

use crate::epoch::field;
use crate::epoch::field_bounds;
use crate::epoch::skip_spaces;
use crate::epoch::token_end;
use crate::text::all_digits;
use crate::text::all_spaces;
use crate::text::decimal_body;
use crate::text::decimal_frac_part;
use crate::text::decimal_int_part;
use crate::text::decimal_value;
use crate::text::digits_of;
use crate::text::digits_value;
use crate::text::fixed_text;
use crate::text::frac_value;
use crate::text::is_digit;
use crate::text::is_space;
use crate::text::lemma_digits_of;
use crate::text::lemma_first_index_is;
use crate::text::lemma_fixed_digits;
use crate::text::lemma_frac_value_prefix;
use crate::text::pad_left;
use crate::text::pow10;
use crate::text::scaled;
use crate::text::unsigned_value;
use vstd::prelude::*;

verus! {

/// Blanks are passed over up to the first character that is none.
pub proof fn lemma_skip_spaces_is(s: Seq<u8>, from: int, to: int)
    requires
        0 <= from <= to <= s.len(),
        forall|i: int| from <= i < to ==> is_space(#[trigger] s[i]),
        to == s.len() || !is_space(s[to]),
    ensures
        skip_spaces(s, from) == to,
    decreases to - from,
{
    if from < to {
        lemma_skip_spaces_is(s, from + 1, to);
    }
}

/// A field lasts up to the first blank.
pub proof fn lemma_token_end_is(s: Seq<u8>, from: int, to: int)
    requires
        0 <= from <= to <= s.len(),
        forall|i: int| from <= i < to ==> !is_space(#[trigger] s[i]),
        to == s.len() || is_space(s[to]),
    ensures
        token_end(s, from) == to,
    decreases to - from,
{
    if from < to {
        lemma_token_end_is(s, from + 1, to);
    }
}

/// A text that is not empty and holds no blank.
pub open spec fn tight(s: Seq<u8>) -> bool {
    s.len() > 0 && forall|i: int| 0 <= i < s.len() ==> !is_space(#[trigger] s[i])
}

/// The text of `n` fields, each after its gap.
pub open spec fn spaced(gaps: Seq<Seq<u8>>, fields: Seq<Seq<u8>>, n: nat) -> Seq<u8>
    decreases n,
{
    if n == 0 {
        Seq::empty()
    } else {
        spaced(gaps, fields, (n - 1) as nat) + gaps[n - 1] + fields[n - 1]
    }
}

/// The gaps are blank, and not empty but for the first; the fields hold
/// no blank.
pub open spec fn well_spaced(gaps: Seq<Seq<u8>>, fields: Seq<Seq<u8>>, n: nat) -> bool {
    &&& n <= gaps.len()
    &&& n <= fields.len()
    &&& forall|i: int|
        #![trigger gaps[i]]
        #![trigger fields[i]]
        0 <= i < n ==> all_spaces(gaps[i]) && (i > 0 ==> gaps[i].len() > 0) && tight(fields[i])
}

/// The text of the first fields starts the text of more fields.
pub proof fn lemma_spaced_prefix(gaps: Seq<Seq<u8>>, fields: Seq<Seq<u8>>, k: nat, n: nat)
    requires
        k <= n,
    ensures
        spaced(gaps, fields, k).len() <= spaced(gaps, fields, n).len(),
        spaced(gaps, fields, n).take(spaced(gaps, fields, k).len() as int) == spaced(
            gaps,
            fields,
            k,
        ),
    decreases n - k,
{
    if k < n {
        lemma_spaced_prefix(gaps, fields, k, (n - 1) as nat);
        let a = spaced(gaps, fields, k);
        let b = spaced(gaps, fields, (n - 1) as nat);
        let c = spaced(gaps, fields, n);
        assert(c.take(a.len() as int) =~= b.take(a.len() as int));
    } else {
        let a = spaced(gaps, fields, k);
        assert(a.take(a.len() as int) =~= a);
    }
}

/// The `k`-th field of a well spaced text is the `k`-th field it was
/// made of.
pub proof fn lemma_spaced_field(gaps: Seq<Seq<u8>>, fields: Seq<Seq<u8>>, n: nat, k: nat)
    requires
        well_spaced(gaps, fields, n),
        k < n,
    ensures
        field_bounds(spaced(gaps, fields, n), k) == (
            (spaced(gaps, fields, k).len() + gaps[k as int].len()) as int,
            spaced(gaps, fields, k + 1).len() as int,
        ),
        field(spaced(gaps, fields, n), k) == fields[k as int],
    decreases k,
{
    let s = spaced(gaps, fields, n);
    let a = spaced(gaps, fields, k).len() as int;
    let b = a + gaps[k as int].len();
    let c = b + fields[k as int].len();
    let next = spaced(gaps, fields, k + 1);
    assert(next.len() == c);
    if k > 0 {
        lemma_spaced_field(gaps, fields, n, (k - 1) as nat);
    }
    lemma_spaced_prefix(gaps, fields, k + 1, n);
    assert(tight(fields[k as int]));
    assert(all_spaces(gaps[k as int]));
    assert forall|i: int| a <= i < b implies is_space(#[trigger] s[i]) by {
        assert(s[i] == s.take(c)[i]);
        assert(next[i] == gaps[k as int][i - a]);
    }
    assert forall|i: int| b <= i < c implies !is_space(#[trigger] s[i]) by {
        assert(s[i] == s.take(c)[i]);
        assert(next[i] == fields[k as int][i - b]);
    }
    if k + 1 < n {
        lemma_spaced_prefix(gaps, fields, k + 2, n);
        let after = spaced(gaps, fields, k + 2);
        assert(all_spaces(gaps[k as int + 1]));
        assert(gaps[k as int + 1].len() > 0);
        assert(s[c] == s.take(after.len() as int)[c]);
        assert(after[c] == gaps[k as int + 1][0]);
        assert(is_space(s[c]));
    } else {
        assert(c == s.len());
    }
    lemma_skip_spaces_is(s, a, b);
    lemma_token_end_is(s, b, c);
    assert(s.subrange(b, c) =~= fields[k as int]) by {
        assert forall|i: int| 0 <= i < c - b implies s.subrange(b, c)[i] == fields[k as int][i] by {
            assert(s[b + i] == s.take(c)[b + i]);
            assert(next[b + i] == fields[k as int][i]);
        }
    }
}

/// A run of zeros.
pub open spec fn zeros(n: nat) -> Seq<u8> {
    Seq::new(n, |i: int| 48u8)
}

/// Zeros before digits change nothing to what the digits are worth.
pub proof fn lemma_zeros_before(n: nat, s: Seq<u8>)
    requires
        all_digits(s),
    ensures
        all_digits(zeros(n) + s),
        digits_value(zeros(n) + s) == digits_value(s),
    decreases s.len(), n,
{
    let t = zeros(n) + s;
    assert forall|i: int| 0 <= i < t.len() implies is_digit(#[trigger] t[i]) by {
        if i >= n {
            assert(t[i] == s[i - n]);
            assert(is_digit(s[i - n]));
        }
    }
    if s.len() > 0 {
        let r = s.drop_last();
        assert forall|i: int| 0 <= i < r.len() implies is_digit(#[trigger] r[i]) by {
            assert(r[i] == s[i]);
        }
        lemma_zeros_before(n, r);
        assert(t.drop_last() =~= zeros(n) + r);
        assert(t.last() == s.last());
    } else if n > 0 {
        lemma_zeros_before((n - 1) as nat, s);
        assert(t.drop_last() =~= zeros((n - 1) as nat) + s);
        assert(digits_value(s) == 0);
    }
}

/// A number filled with zeros on the left is read as the number.
pub proof fn lemma_zero_filled(x: nat, width: nat)
    ensures
        tight(pad_left(digits_of(x), width, 48)),
        all_digits(pad_left(digits_of(x), width, 48)),
        unsigned_value(pad_left(digits_of(x), width, 48)) == Some(x),
        digits_value(pad_left(digits_of(x), width, 48)) == x,
{
    lemma_digits_of(x);
    let d = digits_of(x);
    let t = pad_left(d, width, 48);
    if d.len() < width {
        lemma_zeros_before((width - d.len()) as nat, d);
        assert(t =~= zeros((width - d.len()) as nat) + d);
    }
    assert(is_digit(t[0]));
    assert forall|i: int| 0 <= i < t.len() implies !is_space(#[trigger] t[i]) by {
        assert(is_digit(t[i]));
    }
}

/// A number below `10^k` has `k` digits at most.
pub proof fn lemma_digits_width(x: nat, k: nat)
    requires
        k >= 1,
        x < pow10(k),
    ensures
        1 <= digits_of(x).len() <= k,
    decreases k,
{
    if x >= 10 {
        assert(pow10(1) == 10) by {
            reveal_with_fuel(pow10, 2);
        }
        assert(k >= 2);
        lemma_digits_width(x / 10, (k - 1) as nat);
    }
}

/// Digits that are worth `10^k` at least are more than `k`.
pub proof fn lemma_digits_short(s: Seq<u8>, k: nat)
    requires
        all_digits(s),
        s.len() <= k,
    ensures
        digits_value(s) < pow10(k),
    decreases k,
{
    if s.len() > 0 {
        let t = s.drop_last();
        assert(is_digit(s.last()));
        assert forall|i: int| 0 <= i < t.len() implies is_digit(#[trigger] t[i]) by {
            assert(t[i] == s[i]);
        }
        lemma_digits_short(t, (k - 1) as nat);
    } else {
        crate::text::lemma_pow10_positive(k);
    }
}

/// All the digits of a fraction count when as many are asked for.
pub proof fn lemma_frac_value_whole(f: Seq<u8>)
    ensures
        frac_value(f, f.len()) == digits_value(f),
    decreases f.len(),
{
    if f.len() > 0 {
        let r = f.drop_last();
        lemma_frac_value_whole(r);
        assert(f.take(r.len() as int) =~= r.take(r.len() as int));
        lemma_frac_value_prefix(f, r, r.len());
    }
}

/// The digits asked for beyond the last of a fraction count as zeros.
pub proof fn lemma_frac_value_beyond(f: Seq<u8>, k: nat, j: nat)
    requires
        f.len() <= k,
    ensures
        frac_value(f, k + j) == frac_value(f, k) * pow10(j),
    decreases j,
{
    if j > 0 {
        lemma_frac_value_beyond(f, k, (j - 1) as nat);
        let a = frac_value(f, k);
        let p = pow10((j - 1) as nat);
        assert(a * p * 10 == a * (10 * p)) by (nonlinear_arith);
    } else {
        assert(frac_value(f, k) * 1 == frac_value(f, k)) by (nonlinear_arith);
    }
}

/// Digits, a point and more digits are read as the number they spell.
pub proof fn lemma_decimal_of_parts(i: Seq<u8>, f: Seq<u8>, k: nat)
    requires
        i.len() >= 1,
        all_digits(i),
        all_digits(f),
    ensures
        decimal_value(i + seq![46u8] + f, k) == Some(scaled(i, f, k) as int),
        tight(i + seq![46u8] + f),
{
    let t = i + seq![46u8] + f;
    assert(is_digit(i[0]));
    assert(t[0] == i[0]);
    assert(decimal_body(t) =~= t);
    assert forall|j: int| 0 <= j < i.len() implies #[trigger] t[j] != 46 by {
        assert(t[j] == i[j]);
        assert(is_digit(i[j]));
    }
    assert(t[i.len() as int] == 46);
    lemma_first_index_is(t, 46, i.len() as int);
    assert(decimal_int_part(t) =~= i);
    assert(decimal_frac_part(t) =~= f);
    assert forall|j: int| 0 <= j < t.len() implies !is_space(#[trigger] t[j]) by {
        if j < i.len() {
            assert(is_digit(i[j]));
        } else if j > i.len() {
            assert(t[j] == f[j - i.len() - 1]);
            assert(is_digit(f[j - i.len() - 1]));
        }
    }
}

/// A number written with `k` decimals and read with `j` more is worth
/// `10^j` times as many units.
pub proof fn lemma_fixed_text_scaled(v: int, k: nat, j: nat)
    ensures
        decimal_value(fixed_text(v, k), k + j) == Some(v * pow10(j)),
{
    let mag = if v < 0 {
        (-v) as nat
    } else {
        v as nat
    };
    let (i, f) = lemma_fixed_digits(mag, k);
    let t = fixed_text(v, k);
    let body = i + seq![46u8] + f;
    lemma_decimal_of_parts(i, f, k + j);
    assert(is_digit(i[0]));
    assert(body[0] == i[0]);
    assert(decimal_body(body) =~= body);
    if v < 0 {
        assert(t =~= seq![45u8] + body);
        assert(t.drop_first() =~= body);
    } else {
        assert(t =~= body);
    }
    assert(decimal_body(t) =~= body);
    lemma_frac_value_beyond(f, k, j);
    let a = digits_value(i);
    let b = frac_value(f, k);
    let p = pow10(k);
    let q = pow10(j);
    lemma_pow10_sum(k, j);
    assert(a * (p * q) + b * q == (a * p + b) * q) by (nonlinear_arith);
    assert((-(mag as int)) * q == -(mag * q)) by (nonlinear_arith);
}

/// Powers of ten multiply.
pub proof fn lemma_pow10_sum(k: nat, j: nat)
    ensures
        pow10(k + j) == pow10(k) * pow10(j),
    decreases j,
{
    if j > 0 {
        lemma_pow10_sum(k, (j - 1) as nat);
        let p = pow10(k);
        let q = pow10((j - 1) as nat);
        assert(10 * (p * q) == p * (10 * q)) by (nonlinear_arith);
    } else {
        assert(pow10(k) * 1 == pow10(k)) by (nonlinear_arith);
    }
}

} // verus!
