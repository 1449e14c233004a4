//! Byte-level helpers shared by the parsers and the writers: blank
//! trimming, unsigned and fixed-point decimal numbers, column padding.

use vstd::prelude::*;
use vstd::slice::slice_subrange;

verus! {

/// Blank characters: the ASCII characters that `str::trim` removes.
pub open spec fn is_space(b: u8) -> bool {
    b == 32 || (9 <= b && b <= 13)
}

pub open spec fn is_digit(b: u8) -> bool {
    48 <= b && b <= 57
}

pub open spec fn digit_val(b: u8) -> nat {
    (b - 48) as nat
}

pub open spec fn all_digits(s: Seq<u8>) -> bool {
    forall|i: int| 0 <= i < s.len() ==> is_digit(#[trigger] s[i])
}

pub open spec fn all_spaces(s: Seq<u8>) -> bool {
    forall|i: int| 0 <= i < s.len() ==> is_space(#[trigger] s[i])
}

pub open spec fn all_ascii(s: Seq<u8>) -> bool {
    forall|i: int| 0 <= i < s.len() ==> #[trigger] s[i] < 128
}

/// Number of blank characters at the start of `s`.
pub open spec fn leading_spaces(s: Seq<u8>) -> nat
    decreases s.len(),
{
    if s.len() > 0 && is_space(s[0]) {
        1 + leading_spaces(s.drop_first())
    } else {
        0
    }
}

/// Number of blank characters at the end of `s`.
pub open spec fn trailing_spaces(s: Seq<u8>) -> nat
    decreases s.len(),
{
    if s.len() > 0 && is_space(s.last()) {
        1 + trailing_spaces(s.drop_last())
    } else {
        0
    }
}

pub open spec fn trim_start(s: Seq<u8>) -> Seq<u8> {
    s.skip(leading_spaces(s) as int)
}

pub open spec fn trim_end(s: Seq<u8>) -> Seq<u8> {
    s.take(s.len() - trailing_spaces(s))
}

/// `s` without its leading and trailing blanks.
pub open spec fn trimmed(s: Seq<u8>) -> Seq<u8> {
    trim_end(trim_start(s))
}

pub proof fn lemma_leading_spaces_bound(s: Seq<u8>)
    ensures
        leading_spaces(s) <= s.len(),
    decreases s.len(),
{
    if s.len() > 0 && is_space(s[0]) {
        lemma_leading_spaces_bound(s.drop_first());
    }
}

pub proof fn lemma_trailing_spaces_bound(s: Seq<u8>)
    ensures
        trailing_spaces(s) <= s.len(),
    decreases s.len(),
{
    if s.len() > 0 && is_space(s.last()) {
        lemma_trailing_spaces_bound(s.drop_last());
    }
}

/// The first `n` characters are blank and the next one, if any, is not.
pub proof fn lemma_leading_spaces_is(s: Seq<u8>, n: int)
    requires
        0 <= n <= s.len(),
        forall|i: int| 0 <= i < n ==> is_space(#[trigger] s[i]),
        n == s.len() || !is_space(s[n]),
    ensures
        leading_spaces(s) == n,
    decreases n,
{
    if n > 0 {
        let t = s.drop_first();
        assert forall|i: int| 0 <= i < n - 1 implies is_space(#[trigger] t[i]) by {
            assert(t[i] == s[i + 1]);
        }
        lemma_leading_spaces_is(t, n - 1);
    }
}

/// The last `n` characters are blank and the one before, if any, is not.
pub proof fn lemma_trailing_spaces_is(s: Seq<u8>, n: int)
    requires
        0 <= n <= s.len(),
        forall|i: int| s.len() - n <= i < s.len() ==> is_space(#[trigger] s[i]),
        n == s.len() || !is_space(s[s.len() - n - 1]),
    ensures
        trailing_spaces(s) == n,
    decreases n,
{
    if n > 0 {
        let t = s.drop_last();
        assert forall|i: int| t.len() - (n - 1) <= i < t.len() implies is_space(
            #[trigger] t[i],
        ) by {
            assert(t[i] == s[i]);
        }
        lemma_trailing_spaces_is(t, n - 1);
    }
}

/// A text that neither starts nor ends with a blank is its own trimmed form.
pub proof fn lemma_trimmed_of_tight(s: Seq<u8>)
    requires
        s.len() == 0 || (!is_space(s[0]) && !is_space(s.last())),
    ensures
        trimmed(s) == s,
{
    lemma_leading_spaces_is(s, 0);
    assert(trim_start(s) =~= s);
    lemma_trailing_spaces_is(s, 0);
    assert(trim_end(s) =~= s);
}

/// Blanks added on either side of a tight text are removed by trimming.
pub proof fn lemma_trimmed_of_padded(pre: Seq<u8>, s: Seq<u8>, post: Seq<u8>)
    requires
        all_spaces(pre),
        all_spaces(post),
        s.len() > 0,
        !is_space(s[0]),
        !is_space(s.last()),
    ensures
        trimmed(pre + s + post) == s,
{
    let t = pre + s + post;
    lemma_leading_spaces_is(t, pre.len() as int);
    let u = trim_start(t);
    assert(u =~= s + post);
    lemma_trailing_spaces_is(u, post.len() as int);
    assert(trim_end(u) =~= s);
}

pub proof fn lemma_trimmed_of_blank(s: Seq<u8>)
    requires
        all_spaces(s),
    ensures
        trimmed(s).len() == 0,
{
    lemma_leading_spaces_is(s, s.len() as int);
    assert(trim_start(s).len() == 0);
    lemma_trailing_spaces_is(trim_start(s), 0);
}

pub fn is_space_byte(b: u8) -> (r: bool)
    ensures
        r == is_space(b),
{
    b == 32 || (9 <= b && b <= 13)
}

pub fn is_digit_byte(b: u8) -> (r: bool)
    ensures
        r == is_digit(b),
{
    48 <= b && b <= 57
}

/// Removes the blanks at both ends of `s`.
pub fn trim(s: &[u8]) -> (r: &[u8])
    ensures
        r@ == trimmed(s@),
{
    let mut start: usize = 0;
    while start < s.len() && is_space_byte(s[start])
        invariant
            start <= s.len(),
            forall|i: int| 0 <= i < start ==> is_space(#[trigger] s@[i]),
        decreases s.len() - start,
    {
        start += 1;
    }
    proof {
        lemma_leading_spaces_is(s@, start as int);
    }
    let ghost rest = trim_start(s@);
    let mut end: usize = s.len();
    while end > start && is_space_byte(s[end - 1])
        invariant
            start <= end <= s.len(),
            forall|i: int| end <= i < s.len() ==> is_space(#[trigger] s@[i]),
        decreases end,
    {
        end -= 1;
    }
    proof {
        assert forall|i: int| rest.len() - (s.len() - end) <= i < rest.len() implies is_space(
            #[trigger] rest[i],
        ) by {
            assert(rest[i] == s@[i + start]);
        }
        if end > start {
            assert(rest[rest.len() - (s.len() - end) - 1] == s@[end - 1]);
        }
        lemma_trailing_spaces_is(rest, s.len() - end);
        assert(trim_end(rest) =~= s@.subrange(start as int, end as int));
    }
    slice_subrange(s, start, end)
}

/// True when `s` holds nothing but blanks.
pub fn is_blank(s: &[u8]) -> (r: bool)
    ensures
        r == (trimmed(s@).len() == 0),
        r == all_spaces(s@),
{
    let t = trim(s);
    proof {
        if all_spaces(s@) {
            lemma_trimmed_of_blank(s@);
        } else {
            let i = choose|i: int| 0 <= i < s@.len() && !is_space(#[trigger] s@[i]);
            lemma_leading_spaces_first_tight(s@, i);
            lemma_trailing_spaces_bound(trim_start(s@));
            let u = trim_start(s@);
            lemma_trim_start_tight(s@);
            if trailing_spaces(u) == u.len() {
                lemma_trailing_spaces_all(u);
                assert(is_space(u[0]));
            }
        }
    }
    t.len() == 0
}

/// A character that is not blank bounds the leading blanks.
pub proof fn lemma_leading_spaces_first_tight(s: Seq<u8>, i: int)
    requires
        0 <= i < s.len(),
        !is_space(s[i]),
    ensures
        leading_spaces(s) <= i,
    decreases s.len(),
{
    if s.len() > 0 && is_space(s[0]) {
        lemma_leading_spaces_first_tight(s.drop_first(), i - 1);
    }
}

/// What is left after the leading blanks is empty or starts with another character.
pub proof fn lemma_trim_start_tight(s: Seq<u8>)
    ensures
        trim_start(s).len() == 0 || !is_space(trim_start(s)[0]),
        leading_spaces(s) <= s.len(),
    decreases s.len(),
{
    if s.len() > 0 && is_space(s[0]) {
        lemma_trim_start_tight(s.drop_first());
        assert(trim_start(s) =~= trim_start(s.drop_first()));
    } else {
        assert(trim_start(s) =~= s);
    }
}

/// When every character counts as a trailing blank, every character is blank.
pub proof fn lemma_trailing_spaces_all(s: Seq<u8>)
    requires
        trailing_spaces(s) == s.len(),
    ensures
        all_spaces(s),
    decreases s.len(),
{
    if s.len() > 0 {
        lemma_trailing_spaces_bound(s.drop_last());
        lemma_trailing_spaces_all(s.drop_last());
        assert forall|i: int| 0 <= i < s.len() implies is_space(#[trigger] s[i]) by {
            if i < s.len() - 1 {
                assert(s.drop_last()[i] == s[i]);
            }
        }
    }
}

pub open spec fn pow10(k: nat) -> nat
    decreases k,
{
    if k == 0 {
        1
    } else {
        10 * pow10((k - 1) as nat)
    }
}

/// Value of a run of decimal digits, most significant first.
pub open spec fn digits_value(s: Seq<u8>) -> nat
    decreases s.len(),
{
    if s.len() == 0 {
        0
    } else {
        digits_value(s.drop_last()) * 10 + digit_val(s.last())
    }
}

/// Index of the first occurrence of `b` in `s`, or the length of `s`.
pub open spec fn first_index(s: Seq<u8>, b: u8) -> int
    decreases s.len(),
{
    if s.len() == 0 || s[0] == b {
        0
    } else {
        1 + first_index(s.drop_first(), b)
    }
}

/// An unsigned decimal literal: an optional `+`, then one or more digits.
pub open spec fn unsigned_value(s: Seq<u8>) -> Option<nat> {
    let body = if s.len() > 0 && s[0] == 43 {
        s.drop_first()
    } else {
        s
    };
    if body.len() > 0 && all_digits(body) {
        Some(digits_value(body))
    } else {
        None
    }
}

/// Value of the first `k` digits of a fraction, missing digits counting as zero.
pub open spec fn frac_value(frac: Seq<u8>, k: nat) -> nat
    decreases k,
{
    if k == 0 {
        0
    } else {
        frac_value(frac, (k - 1) as nat) * 10 + if k - 1 < frac.len() {
            digit_val(frac[k - 1])
        } else {
            0
        }
    }
}

pub open spec fn has_sign(s: Seq<u8>) -> bool {
    s.len() > 0 && (s[0] == 43 || s[0] == 45)
}

pub open spec fn decimal_body(s: Seq<u8>) -> Seq<u8> {
    if has_sign(s) {
        s.drop_first()
    } else {
        s
    }
}

pub open spec fn decimal_int_part(s: Seq<u8>) -> Seq<u8> {
    decimal_body(s).take(first_index(decimal_body(s), 46))
}

pub open spec fn decimal_frac_part(s: Seq<u8>) -> Seq<u8> {
    let body = decimal_body(s);
    let dot = first_index(body, 46);
    if dot < body.len() {
        body.skip(dot + 1)
    } else {
        Seq::empty()
    }
}

/// A decimal literal: an optional sign, digits, an optional point and more
/// digits, with at least one digit in all.
pub open spec fn is_decimal(s: Seq<u8>) -> bool {
    &&& all_digits(decimal_int_part(s))
    &&& all_digits(decimal_frac_part(s))
    &&& decimal_int_part(s).len() + decimal_frac_part(s).len() > 0
}

/// Magnitude of a decimal literal counted in units of `10^-k`; digits
/// beyond the `k`-th decimal are dropped.
pub open spec fn decimal_magnitude(s: Seq<u8>, k: nat) -> nat {
    digits_value(decimal_int_part(s)) * pow10(k) + frac_value(decimal_frac_part(s), k)
}

/// Value of a decimal literal counted in units of `10^-k`, if `s` is one.
pub open spec fn decimal_value(s: Seq<u8>, k: nat) -> Option<int> {
    if is_decimal(s) {
        Some(
            if s[0] == 45 {
                -(decimal_magnitude(s, k) as int)
            } else {
                decimal_magnitude(s, k) as int
            },
        )
    } else {
        None
    }
}

pub proof fn lemma_first_index_bounds(s: Seq<u8>, b: u8)
    ensures
        0 <= first_index(s, b) <= s.len(),
        first_index(s, b) < s.len() ==> s[first_index(s, b)] == b,
        forall|i: int| 0 <= i < first_index(s, b) ==> #[trigger] s[i] != b,
    decreases s.len(),
{
    if s.len() == 0 || s[0] == b {
    } else {
        let t = s.drop_first();
        lemma_first_index_bounds(t, b);
        assert forall|i: int| 0 <= i < first_index(s, b) implies #[trigger] s[i] != b by {
            if i > 0 {
                assert(t[i - 1] == s[i]);
            }
        }
    }
}

/// The first occurrence is where `b` stands with no `b` before it.
pub proof fn lemma_first_index_is(s: Seq<u8>, b: u8, n: int)
    requires
        0 <= n <= s.len(),
        forall|i: int| 0 <= i < n ==> #[trigger] s[i] != b,
        n == s.len() || s[n] == b,
    ensures
        first_index(s, b) == n,
    decreases n,
{
    if n > 0 {
        let t = s.drop_first();
        assert forall|i: int| 0 <= i < n - 1 implies #[trigger] t[i] != b by {
            assert(t[i] == s[i + 1]);
        }
        lemma_first_index_is(t, b, n - 1);
    }
}

pub proof fn lemma_pow10_positive(k: nat)
    ensures
        pow10(k) >= 1,
    decreases k,
{
    if k > 0 {
        lemma_pow10_positive((k - 1) as nat);
    }
}

/// A prefix of a run of digits is worth no more than the whole run.
pub proof fn lemma_digits_value_prefix(s: Seq<u8>, n: int)
    requires
        0 <= n <= s.len(),
    ensures
        digits_value(s.take(n)) <= digits_value(s),
    decreases s.len() - n,
{
    if n < s.len() {
        lemma_digits_value_prefix(s, n + 1);
        assert(s.take(n + 1).drop_last() =~= s.take(n));
    } else {
        assert(s.take(n) =~= s);
    }
}

pub proof fn lemma_digits_value_step(s: Seq<u8>, n: int)
    requires
        0 <= n < s.len(),
    ensures
        digits_value(s.take(n + 1)) == digits_value(s.take(n)) * 10 + digit_val(s[n]),
{
    assert(s.take(n + 1).drop_last() =~= s.take(n));
}

/// Reads an unsigned decimal number no larger than `max`.
pub fn parse_unsigned(s: &[u8], max: u64) -> (r: Option<u64>)
    ensures
        r == match unsigned_value(s@) {
            Some(v) => if v <= max {
                Some(v as u64)
            } else {
                None
            },
            None => None,
        },
{
    let start: usize = if s.len() > 0 && s[0] == 43 {
        1
    } else {
        0
    };
    let body = slice_subrange(s, start, s.len());
    let ghost lit = s@;
    assert(body@ =~= if lit.len() > 0 && lit[0] == 43 {
        lit.drop_first()
    } else {
        lit
    });
    if body.len() == 0 {
        return None;
    }
    let mut acc: u64 = 0;
    let mut i: usize = 0;
    while i < body.len()
        invariant
            i <= body.len(),
            body@.len() > 0,
            lit == s@,
            body@ == if lit.len() > 0 && lit[0] == 43 {
                lit.drop_first()
            } else {
                lit
            },
            all_digits(body@.take(i as int)),
            acc == digits_value(body@.take(i as int)),
            acc <= max,
        decreases body.len() - i,
    {
        let b = body[i];
        if !is_digit_byte(b) {
            assert(!is_digit(body@[i as int]));
            return None;
        }
        let next: u128 = acc as u128 * 10 + (b - 48) as u128;
        proof {
            lemma_digits_value_step(body@, i as int);
            assert forall|j: int| 0 <= j < i + 1 implies is_digit(
                #[trigger] body@.take(i as int + 1)[j],
            ) by {
                if j < i {
                    assert(body@.take(i as int)[j] == body@[j]);
                }
            }
        }
        if next > max as u128 {
            proof {
                lemma_digits_value_prefix(body@, i as int + 1);
            }
            return None;
        }
        acc = next as u64;
        i += 1;
    }
    assert(body@.take(i as int) =~= body@);
    Some(acc)
}

/// Largest magnitude that the fixed-point readers hand out.
pub open spec fn fits_i64(v: int) -> bool {
    -0x7fff_ffff_ffff_ffff <= v <= 0x7fff_ffff_ffff_ffff
}

/// Integer digits scaled by `10^k`, plus the first `k` digits of the fraction.
pub open spec fn scaled(int_digits: Seq<u8>, frac: Seq<u8>, k: nat) -> nat {
    digits_value(int_digits) * pow10(k) + frac_value(frac, k)
}

pub proof fn lemma_scaled_step(int_digits: Seq<u8>, frac: Seq<u8>, k: nat)
    ensures
        scaled(int_digits, frac, k + 1) == scaled(int_digits, frac, k) * 10 + if k < frac.len() {
            digit_val(frac[k as int])
        } else {
            0
        },
{
    let a = digits_value(int_digits);
    let p = pow10(k);
    assert(pow10(k + 1) == 10 * p);
    assert(a * (10 * p) == (a * p) * 10) by (nonlinear_arith);
}

pub proof fn lemma_scaled_monotone(int_digits: Seq<u8>, frac: Seq<u8>, j: nat, k: nat)
    requires
        j <= k,
    ensures
        scaled(int_digits, frac, j) <= scaled(int_digits, frac, k),
    decreases k - j,
{
    if j < k {
        lemma_scaled_step(int_digits, frac, j);
        lemma_scaled_monotone(int_digits, frac, j + 1, k);
    }
}

/// Only the first `k` digits of a fraction count.
pub proof fn lemma_frac_value_prefix(a: Seq<u8>, b: Seq<u8>, k: nat)
    requires
        k <= a.len(),
        k <= b.len(),
        a.take(k as int) == b.take(k as int),
    ensures
        frac_value(a, k) == frac_value(b, k),
    decreases k,
{
    if k > 0 {
        assert(a.take(k as int - 1) =~= a.take(k as int).take(k as int - 1));
        assert(b.take(k as int - 1) =~= b.take(k as int).take(k as int - 1));
        lemma_frac_value_prefix(a, b, (k - 1) as nat);
        assert(a[k as int - 1] == a.take(k as int)[k as int - 1]);
        assert(b[k as int - 1] == b.take(k as int)[k as int - 1]);
    }
}

/// Splits a decimal literal into its sign, its integer digits and its
/// fraction digits.
pub fn split_decimal(s: &[u8]) -> (r: (bool, &[u8], &[u8]))
    ensures
        r.0 == (s@.len() > 0 && s@[0] == 45),
        r.1@ == decimal_int_part(s@),
        r.2@ == decimal_frac_part(s@),
{
    let signed: bool = s.len() > 0 && (s[0] == 43 || s[0] == 45);
    let neg: bool = s.len() > 0 && s[0] == 45;
    let start: usize = if signed {
        1
    } else {
        0
    };
    let body = slice_subrange(s, start, s.len());
    assert(body@ =~= decimal_body(s@));
    let mut dot: usize = 0;
    while dot < body.len() && body[dot] != 46
        invariant
            dot <= body.len(),
            forall|i: int| 0 <= i < dot ==> #[trigger] body@[i] != 46,
        decreases body.len() - dot,
    {
        dot += 1;
    }
    proof {
        lemma_first_index_is(body@, 46, dot as int);
    }
    let int_part = slice_subrange(body, 0, dot);
    let frac_start: usize = if dot < body.len() {
        dot + 1
    } else {
        dot
    };
    let frac_part = slice_subrange(body, frac_start, body.len());
    assert(int_part@ =~= decimal_int_part(s@));
    assert(frac_part@ =~= decimal_frac_part(s@));
    (neg, int_part, frac_part)
}

/// Worth of integer digits and fraction digits in units of `10^-k`, when
/// it fits.
pub fn scale_digits(int_part: &[u8], frac_part: &[u8], k: u32) -> (r: Option<u64>)
    requires
        all_digits(int_part@),
        all_digits(frac_part@),
    ensures
        r == if scaled(int_part@, frac_part@, k as nat) <= 0x7fff_ffff_ffff_ffff {
            Some(scaled(int_part@, frac_part@, k as nat) as u64)
        } else {
            None
        },
{
    let mut acc: u64 = 0;
    let mut i: usize = 0;
    while i < int_part.len()
        invariant
            i <= int_part.len(),
            all_digits(int_part@),
            acc == digits_value(int_part@.take(i as int)),
            acc <= 0x7fff_ffff_ffff_ffff,
        decreases int_part.len() - i,
    {
        assert(is_digit(int_part@[i as int]));
        let next: u128 = acc as u128 * 10 + (int_part[i] - 48) as u128;
        proof {
            lemma_digits_value_step(int_part@, i as int);
        }
        if next > 0x7fff_ffff_ffff_ffff {
            proof {
                lemma_digits_value_prefix(int_part@, i as int + 1);
                lemma_pow10_positive(k as nat);
                let a = digits_value(int_part@);
                let p = pow10(k as nat);
                assert(a * p >= a) by (nonlinear_arith)
                    requires
                        p >= 1,
                        a >= 0,
                ;
            }
            return None;
        }
        acc = next as u64;
        i += 1;
    }
    assert(int_part@.take(i as int) =~= int_part@);
    assert(pow10(0) == 1);
    assert(acc * 1 == acc) by (nonlinear_arith);
    let mut j: u32 = 0;
    while j < k
        invariant
            j <= k,
            all_digits(frac_part@),
            acc == scaled(int_part@, frac_part@, j as nat),
            acc <= 0x7fff_ffff_ffff_ffff,
        decreases k - j,
    {
        let d: u8 = if (j as usize) < frac_part.len() {
            assert(is_digit(frac_part@[j as int]));
            frac_part[j as usize] - 48
        } else {
            0
        };
        let next: u128 = acc as u128 * 10 + d as u128;
        proof {
            lemma_scaled_step(int_part@, frac_part@, j as nat);
        }
        if next > 0x7fff_ffff_ffff_ffff {
            proof {
                lemma_scaled_monotone(int_part@, frac_part@, (j + 1) as nat, k as nat);
            }
            return None;
        }
        acc = next as u64;
        j += 1;
    }
    Some(acc)
}

/// Reads a decimal number as a count of units of `10^-k`. Digits past
/// the `k`-th decimal are dropped; a number whose count does not fit is
/// refused like a malformed one.
pub fn parse_decimal(s: &[u8], k: u32) -> (r: Option<i64>)
    ensures
        r == match decimal_value(s@, k as nat) {
            Some(v) => if fits_i64(v) {
                Some(v as i64)
            } else {
                None
            },
            None => None,
        },
{
    let (neg, int_part, frac_part) = split_decimal(s);
    if int_part.len() == 0 && frac_part.len() == 0 {
        return None;
    }
    if !digits_only(int_part) || !digits_only(frac_part) {
        return None;
    }
    match scale_digits(int_part, frac_part, k) {
        Some(mag) => if neg {
            Some(-(mag as i64))
        } else {
            Some(mag as i64)
        },
        None => None,
    }
}

/// True when `s` holds decimal digits only.
pub fn digits_only(s: &[u8]) -> (r: bool)
    ensures
        r == all_digits(s@),
{
    let mut i: usize = 0;
    while i < s.len()
        invariant
            i <= s.len(),
            forall|j: int| 0 <= j < i ==> is_digit(#[trigger] s@[j]),
        decreases s.len() - i,
    {
        if !is_digit_byte(s[i]) {
            assert(!is_digit(s@[i as int]));
            return false;
        }
        i += 1;
    }
    true
}

/// Decimal digits of `n`, most significant first, without leading zeros.
pub open spec fn digits_of(n: nat) -> Seq<u8>
    decreases n,
{
    if n < 10 {
        seq![(48 + n) as u8]
    } else {
        digits_of(n / 10).push((48 + n % 10) as u8)
    }
}

/// Digits of `mag` counted in units of `10^-k`: the integer digits, a
/// point, then exactly `k` decimals.
pub open spec fn fixed_digits(mag: nat, k: nat) -> Seq<u8>
    decreases k,
{
    if k == 0 {
        digits_of(mag).push(46u8)
    } else {
        fixed_digits(mag / 10, (k - 1) as nat).push((48 + mag % 10) as u8)
    }
}

/// Text of the fixed-point number `v * 10^-k`, with a `-` when negative.
pub open spec fn fixed_text(v: int, k: nat) -> Seq<u8> {
    if v < 0 {
        seq![45u8] + fixed_digits((-v) as nat, k)
    } else {
        fixed_digits(v as nat, k)
    }
}

/// `s` filled on the left with `fill` up to `width` columns.
pub open spec fn pad_left(s: Seq<u8>, width: nat, fill: u8) -> Seq<u8> {
    if s.len() >= width {
        s
    } else {
        Seq::new((width - s.len()) as nat, |i: int| fill) + s
    }
}

/// `s` filled on the right with `fill` up to `width` columns.
pub open spec fn pad_right(s: Seq<u8>, width: nat, fill: u8) -> Seq<u8> {
    if s.len() >= width {
        s
    } else {
        s + Seq::new((width - s.len()) as nat, |i: int| fill)
    }
}

pub proof fn lemma_digits_of(n: nat)
    ensures
        digits_of(n).len() >= 1,
        all_digits(digits_of(n)),
        digits_value(digits_of(n)) == n,
    decreases n,
{
    if n < 10 {
        let t = digits_of(n);
        assert(t.drop_last() =~= Seq::<u8>::empty());
        assert(digits_value(t.drop_last()) == 0);
        assert(digit_val(t.last()) == n);
        assert(is_digit(t[0]));
    } else {
        lemma_digits_of(n / 10);
        let t = digits_of(n / 10);
        let d = (48 + n % 10) as u8;
        assert(t.push(d).drop_last() =~= t);
        assert(digit_val(t.push(d).last()) == n % 10);
        assert forall|i: int| 0 <= i < t.push(d).len() implies is_digit(
            #[trigger] t.push(d)[i],
        ) by {
            if i < t.len() {
                assert(t.push(d)[i] == t[i]);
            }
        }
    }
}

/// The digits that `fixed_digits` writes: an integer part, a point and
/// `k` decimals that together are worth `mag`.
pub proof fn lemma_fixed_digits(mag: nat, k: nat) -> (r: (Seq<u8>, Seq<u8>))
    ensures
        fixed_digits(mag, k) == r.0 + seq![46u8] + r.1,
        r.0.len() >= 1,
        all_digits(r.0),
        all_digits(r.1),
        r.1.len() == k,
        scaled(r.0, r.1, k) == mag,
    decreases k,
{
    if k == 0 {
        lemma_digits_of(mag);
        let i = digits_of(mag);
        let f = Seq::<u8>::empty();
        assert(fixed_digits(mag, k) =~= i + seq![46u8] + f);
        assert(pow10(0) == 1);
        assert(mag * 1 == mag) by (nonlinear_arith);
        (i, f)
    } else {
        let (i, f0) = lemma_fixed_digits(mag / 10, (k - 1) as nat);
        let d = (48 + mag % 10) as u8;
        let f = f0.push(d);
        assert(fixed_digits(mag, k) =~= i + seq![46u8] + f);
        assert forall|j: int| 0 <= j < f.len() implies is_digit(#[trigger] f[j]) by {
            if j < f0.len() {
                assert(f[j] == f0[j]);
            }
        }
        lemma_scaled_step(i, f, (k - 1) as nat);
        assert(f.take(k as int - 1) =~= f0.take(k as int - 1));
        lemma_frac_value_prefix(f, f0, (k - 1) as nat);
        (i, f)
    }
}

/// What `fixed_text` writes is read back as the same number.
pub proof fn lemma_fixed_text_value(v: int, k: nat)
    ensures
        decimal_value(fixed_text(v, k), k) == Some(v),
        fixed_text(v, k).len() >= 2,
        !is_space(fixed_text(v, k)[0]),
        !is_space(fixed_text(v, k).last()),
{
    let mag = if v < 0 {
        (-v) as nat
    } else {
        v as nat
    };
    let (i, f) = lemma_fixed_digits(mag, k);
    let t = fixed_text(v, k);
    let body = i + seq![46u8] + f;
    assert(is_digit(i[0]));
    if v < 0 {
        assert(t =~= seq![45u8] + body);
        assert(t.drop_first() =~= body);
    } else {
        assert(t =~= body);
        assert(t[0] == i[0]);
    }
    assert(decimal_body(t) =~= body);
    assert forall|j: int| 0 <= j < i.len() implies #[trigger] body[j] != 46 by {
        assert(body[j] == i[j]);
        assert(is_digit(i[j]));
    }
    assert(body[i.len() as int] == 46);
    lemma_first_index_is(body, 46, i.len() as int);
    assert(decimal_int_part(t) =~= i);
    assert(decimal_frac_part(t) =~= f);
    if k > 0 {
        assert(t.last() == f.last());
        assert(is_digit(f.last()));
    } else {
        assert(t.last() == 46);
    }
}

/// Appends the decimal digits of `n`.
pub fn push_digits(out: &mut Vec<u8>, n: u64)
    ensures
        final(out)@ == old(out)@ + digits_of(n as nat),
        all_ascii(old(out)@) ==> all_ascii(final(out)@),
    decreases n,
{
    if n >= 10 {
        push_digits(out, n / 10);
    }
    out.push(48 + (n % 10) as u8);
    assert(final(out)@ =~= old(out)@ + digits_of(n as nat));
}

/// Appends `mag`, counted in units of `10^-k`, with its point and `k` decimals.
pub fn push_fixed_digits(out: &mut Vec<u8>, mag: u64, k: u32)
    ensures
        final(out)@ == old(out)@ + fixed_digits(mag as nat, k as nat),
        all_ascii(old(out)@) ==> all_ascii(final(out)@),
    decreases k,
{
    if k == 0 {
        push_digits(out, mag);
        out.push(46);
    } else {
        push_fixed_digits(out, mag / 10, k - 1);
        out.push(48 + (mag % 10) as u8);
    }
    assert(final(out)@ =~= old(out)@ + fixed_digits(mag as nat, k as nat));
}

/// Appends `n` copies of `fill`.
pub fn push_fill(out: &mut Vec<u8>, n: usize, fill: u8)
    ensures
        final(out)@ == old(out)@ + Seq::new(n as nat, |i: int| fill),
        all_ascii(old(out)@) && fill < 128 ==> all_ascii(final(out)@),
{
    let mut i: usize = 0;
    while i < n
        invariant
            i <= n,
            out@ == old(out)@ + Seq::new(i as nat, |j: int| fill),
            all_ascii(old(out)@) && fill < 128 ==> all_ascii(out@),
        decreases n - i,
    {
        out.push(fill);
        i += 1;
        assert(out@ =~= old(out)@ + Seq::new(i as nat, |j: int| fill));
    }
}

/// Appends every byte of `s`.
pub fn push_all(out: &mut Vec<u8>, s: &[u8])
    ensures
        final(out)@ == old(out)@ + s@,
        all_ascii(old(out)@) && all_ascii(s@) ==> all_ascii(final(out)@),
{
    let mut i: usize = 0;
    while i < s.len()
        invariant
            i <= s.len(),
            out@ == old(out)@ + s@.take(i as int),
            all_ascii(old(out)@) && all_ascii(s@) ==> all_ascii(out@),
        decreases s.len() - i,
    {
        out.push(s[i]);
        i += 1;
        assert(out@ =~= old(out)@ + s@.take(i as int));
    }
    assert(s@.take(i as int) =~= s@);
}

/// Appends `s`, filled on the left with `fill` up to `width` columns.
pub fn push_padded_left(out: &mut Vec<u8>, s: &[u8], width: usize, fill: u8)
    ensures
        final(out)@ == old(out)@ + pad_left(s@, width as nat, fill),
        all_ascii(old(out)@) && all_ascii(s@) && fill < 128 ==> all_ascii(final(out)@),
{
    if s.len() < width {
        push_fill(out, width - s.len(), fill);
    }
    push_all(out, s);
    assert(final(out)@ =~= old(out)@ + pad_left(s@, width as nat, fill));
}

/// Appends `s`, filled on the right with `fill` up to `width` columns.
pub fn push_padded_right(out: &mut Vec<u8>, s: &[u8], width: usize, fill: u8)
    ensures
        final(out)@ == old(out)@ + pad_right(s@, width as nat, fill),
        all_ascii(old(out)@) && all_ascii(s@) && fill < 128 ==> all_ascii(final(out)@),
{
    push_all(out, s);
    if s.len() < width {
        push_fill(out, width - s.len(), fill);
    }
    assert(final(out)@ =~= old(out)@ + pad_right(s@, width as nat, fill));
}

/// Appends `n` in decimal, filled on the left with `fill` up to `width` columns.
pub fn push_number(out: &mut Vec<u8>, n: u64, width: usize, fill: u8)
    ensures
        final(out)@ == old(out)@ + pad_left(digits_of(n as nat), width as nat, fill),
        all_ascii(old(out)@) && fill < 128 ==> all_ascii(final(out)@),
{
    let mut digits: Vec<u8> = Vec::new();
    push_digits(&mut digits, n);
    assert(digits@ =~= digits_of(n as nat));
    push_padded_left(out, digits.as_slice(), width, fill);
}

/// Appends the fixed-point number `v * 10^-k`, right-aligned in `width` columns.
pub fn push_fixed(out: &mut Vec<u8>, v: i64, k: u32, width: usize)
    ensures
        final(out)@ == old(out)@ + pad_left(fixed_text(v as int, k as nat), width as nat, 32),
        all_ascii(old(out)@) ==> all_ascii(final(out)@),
{
    let mut text: Vec<u8> = Vec::new();
    if v < 0 {
        text.push(45);
        let mag: u64 = (-(v as i128)) as u64;
        push_fixed_digits(&mut text, mag, k);
    } else {
        push_fixed_digits(&mut text, v as u64, k);
    }
    assert(text@ =~= fixed_text(v as int, k as nat));
    push_padded_left(out, text.as_slice(), width, 32);
}

/// The characters that stand for the bytes of an ASCII text.
pub open spec fn ascii_chars(s: Seq<u8>) -> Seq<char> {
    Seq::new(s.len(), |i: int| s[i] as char)
}

/// `String::from_utf8` on ASCII bytes, which are valid UTF-8: each byte
/// becomes the character of the same code.
#[verifier::external_body]
pub(crate) fn string_from_ascii(bytes: Vec<u8>) -> (r: String)
    requires
        all_ascii(bytes@),
    ensures
        r@ == ascii_chars(bytes@),
{
    String::from_utf8(bytes).unwrap_or_default()
}

/// True when every byte of `s` is an ASCII character.
pub fn is_ascii_bytes(s: &[u8]) -> (r: bool)
    ensures
        r == all_ascii(s@),
{
    let mut i: usize = 0;
    while i < s.len()
        invariant
            i <= s.len(),
            forall|j: int| 0 <= j < i ==> #[trigger] s@[j] < 128,
        decreases s.len() - i,
    {
        if s[i] >= 128 {
            return false;
        }
        i += 1;
    }
    true
}

pub open spec fn upper(b: u8) -> u8 {
    if 97 <= b && b <= 122 {
        (b - 32) as u8
    } else {
        b
    }
}

/// `s` with its ASCII letters in upper case.
pub open spec fn uppercase(s: Seq<u8>) -> Seq<u8> {
    Seq::new(s.len(), |i: int| upper(s[i]))
}

/// Copies `s` with its ASCII letters in upper case.
pub fn to_uppercase(s: &[u8]) -> (r: Vec<u8>)
    ensures
        r@ == uppercase(s@),
{
    let mut out: Vec<u8> = Vec::new();
    let mut i: usize = 0;
    while i < s.len()
        invariant
            i <= s.len(),
            out@ == uppercase(s@.take(i as int)),
        decreases s.len() - i,
    {
        let b = s[i];
        out.push(if 97 <= b && b <= 122 {
            b - 32
        } else {
            b
        });
        i += 1;
        assert(out@ =~= uppercase(s@.take(i as int)));
    }
    assert(s@.take(i as int) =~= s@);
    out
}

/// True when `s` and `t` hold the same bytes.
pub fn same_bytes(s: &[u8], t: &[u8]) -> (r: bool)
    ensures
        r == (s@ == t@),
{
    if s.len() != t.len() {
        return false;
    }
    let mut i: usize = 0;
    while i < s.len()
        invariant
            i <= s.len(),
            s.len() == t.len(),
            forall|j: int| 0 <= j < i ==> s@[j] == t@[j],
        decreases s.len() - i,
    {
        if s[i] != t[i] {
            return false;
        }
        i += 1;
    }
    assert(s@ =~= t@);
    true
}

/// True when `s` starts with the bytes of `prefix`.
pub fn starts_with(s: &[u8], prefix: &[u8]) -> (r: bool)
    ensures
        r == (prefix@.len() <= s@.len() && s@.take(prefix@.len() as int) == prefix@),
{
    if prefix.len() > s.len() {
        return false;
    }
    let mut i: usize = 0;
    while i < prefix.len()
        invariant
            i <= prefix.len(),
            prefix.len() <= s.len(),
            forall|j: int| 0 <= j < i ==> s@[j] == prefix@[j],
        decreases prefix.len() - i,
    {
        if s[i] != prefix[i] {
            assert(s@.take(prefix@.len() as int)[i as int] != prefix@[i as int]);
            return false;
        }
        i += 1;
    }
    assert(s@.take(prefix@.len() as int) =~= prefix@);
    true
}

/// The columns of `s` from `from` up to `to`, as far as `s` has them.
pub open spec fn clip(s: Seq<u8>, from: int, to: int) -> Seq<u8> {
    let a = if from < 0 {
        0
    } else if from > s.len() {
        s.len() as int
    } else {
        from
    };
    let b = if to < a {
        a
    } else if to > s.len() {
        s.len() as int
    } else {
        to
    };
    s.subrange(a, b)
}

/// The columns of `s` from `from` up to `to`, as far as `s` has them.
pub fn clip_slice(s: &[u8], from: usize, to: usize) -> (r: &[u8])
    ensures
        r@ == clip(s@, from as int, to as int),
{
    let a: usize = if from > s.len() {
        s.len()
    } else {
        from
    };
    let b: usize = if to < a {
        a
    } else if to > s.len() {
        s.len()
    } else {
        to
    };
    slice_subrange(s, a, b)
}

/// A line without the carriage return that may end it.
pub open spec fn strip_cr(line: Seq<u8>) -> Seq<u8> {
    if line.len() > 0 && line.last() == 13 {
        line.drop_last()
    } else {
        line
    }
}

/// The lines of a text. Lines end with a line feed, which a carriage
/// return may precede; the last line needs no line feed, and keeps a
/// carriage return that no line feed follows.
pub open spec fn lines_of(s: Seq<u8>) -> Seq<Seq<u8>>
    decreases s.len(),
{
    if s.len() == 0 {
        Seq::empty()
    } else {
        let n = first_index(s, 10);
        if 0 <= n < s.len() {
            seq![strip_cr(s.take(n))] + lines_of(s.skip(n + 1))
        } else {
            seq![s]
        }
    }
}

/// The byte sequences behind a list of slices.
pub open spec fn slices_view(v: Seq<&[u8]>) -> Seq<Seq<u8>> {
    Seq::new(v.len(), |i: int| v[i]@)
}

/// Index of the first `b` at or after `from`, or the length of `s`.
pub fn find_from(s: &[u8], from: usize, b: u8) -> (r: usize)
    requires
        from <= s.len(),
    ensures
        from <= r <= s.len(),
        r == from + first_index(s@.skip(from as int), b),
{
    let mut i: usize = from;
    while i < s.len() && s[i] != b
        invariant
            from <= i <= s.len(),
            forall|j: int| from <= j < i ==> #[trigger] s@[j] != b,
        decreases s.len() - i,
    {
        i += 1;
    }
    proof {
        let t = s@.skip(from as int);
        assert forall|j: int| 0 <= j < i - from implies #[trigger] t[j] != b by {
            assert(t[j] == s@[j + from]);
        }
        lemma_first_index_is(t, b, i - from);
    }
    i
}

/// Splits a text into its lines.
pub fn split_lines(s: &[u8]) -> (r: Vec<&[u8]>)
    ensures
        slices_view(r@) == lines_of(s@),
{
    let mut out: Vec<&[u8]> = Vec::new();
    let mut pos: usize = 0;
    assert(s@.skip(0) =~= s@);
    while pos < s.len()
        invariant
            pos <= s.len(),
            lines_of(s@) == slices_view(out@) + lines_of(s@.skip(pos as int)),
        decreases s.len() - pos,
    {
        let ghost rest = s@.skip(pos as int);
        let ghost before = slices_view(out@);
        let end = find_from(s, pos, 10);
        proof {
            lemma_first_index_bounds(rest, 10);
        }
        if end < s.len() {
            let cut: usize = if end > pos && s[end - 1] == 13 {
                end - 1
            } else {
                end
            };
            let line = slice_subrange(s, pos, cut);
            assert(rest.take(end - pos) =~= s@.subrange(pos as int, end as int));
            assert(line@ =~= strip_cr(rest.take(end - pos)));
            assert(rest.skip(end - pos + 1) =~= s@.skip(end as int + 1));
            out.push(line);
            assert(slices_view(out@) =~= before.push(line@));
            pos = end + 1;
            assert(before.push(line@) + lines_of(s@.skip(pos as int)) =~= before + (seq![line@]
                + lines_of(s@.skip(pos as int))));
        } else {
            let line = slice_subrange(s, pos, s.len());
            assert(line@ =~= rest);
            out.push(line);
            assert(slices_view(out@) =~= before.push(line@));
            pos = s.len();
            assert(s@.skip(pos as int) =~= Seq::<u8>::empty());
            assert(before.push(line@) + Seq::<Seq<u8>>::empty() =~= before + seq![rest]);
        }
    }
    assert(s@.skip(pos as int) =~= Seq::<u8>::empty());
    assert(slices_view(out@) + Seq::<Seq<u8>>::empty() =~= slices_view(out@));
    out
}

/// Quotient of `a` by `b`, rounded up.
pub open spec fn ceil_div(a: nat, b: nat) -> nat {
    if a % b == 0 {
        a / b
    } else {
        a / b + 1
    }
}

/// `num_integer::div_ceil` on unsigned numbers: the quotient, plus one
/// when the division leaves a remainder. The outside function divides by
/// `b`, which is not zero.
#[verifier::external_body]
pub(crate) fn div_ceil(a: usize, b: usize) -> (r: usize)
    requires
        b > 0,
    ensures
        r == ceil_div(a as nat, b as nat),
{
    num_integer::div_ceil(a, b)
}

/// Text of a signed number filled with zeros up to `width` columns, the
/// sign of a negative number counting for one of them.
pub open spec fn signed_number(v: int, width: nat) -> Seq<u8> {
    if v < 0 {
        seq![45u8] + pad_left(
            digits_of((-v) as nat),
            if width > 0 {
                (width - 1) as nat
            } else {
                0
            },
            48,
        )
    } else {
        pad_left(digits_of(v as nat), width, 48)
    }
}

/// Appends a signed number filled with zeros up to `width` columns.
pub fn push_signed(out: &mut Vec<u8>, v: i64, width: usize)
    ensures
        final(out)@ == old(out)@ + signed_number(v as int, width as nat),
        all_ascii(old(out)@) ==> all_ascii(final(out)@),
{
    if v < 0 {
        out.push(45);
        let mag: u64 = (-(v as i128)) as u64;
        push_number(out, mag, if width > 0 {
            width - 1
        } else {
            0
        }, 48);
    } else {
        push_number(out, v as u64, width, 48);
    }
    assert(final(out)@ =~= old(out)@ + signed_number(v as int, width as nat));
}

/// Removes the blanks at the end of `out`.
pub fn trim_end_in_place(out: &mut Vec<u8>)
    ensures
        final(out)@ == trim_end(old(out)@),
        all_ascii(old(out)@) ==> all_ascii(final(out)@),
{
    let mut end: usize = out.len();
    while end > 0 && is_space_byte(out[end - 1])
        invariant
            end <= out@.len(),
            out@ == old(out)@,
            forall|i: int| end <= i < out@.len() ==> is_space(#[trigger] out@[i]),
        decreases end,
    {
        end -= 1;
    }
    proof {
        lemma_trailing_spaces_is(out@, out@.len() - end);
    }
    out.truncate(end);
    assert(out@ =~= trim_end(old(out)@));
}

/// Appending twice is appending the two pieces joined.
pub proof fn lemma_append(x: Seq<u8>, a: Seq<u8>, b: Seq<u8>)
    ensures
        (x + a) + b == x + (a + b),
{
    assert((x + a) + b =~= x + (a + b));
}

/// Appends one byte.
pub fn push_byte(out: &mut Vec<u8>, b: u8)
    ensures
        final(out)@ == old(out)@ + seq![b],
        all_ascii(old(out)@) && b < 128 ==> all_ascii(final(out)@),
{
    out.push(b);
    assert(final(out)@ =~= old(out)@ + seq![b]);
}

/// The pieces of `s` that `sep` sets apart; a text without `sep` is one
/// piece, the empty text too.
pub open spec fn split_on(s: Seq<u8>, sep: u8) -> Seq<Seq<u8>>
    decreases s.len(),
{
    let n = first_index(s, sep);
    if 0 <= n < s.len() {
        seq![s.take(n)] + split_on(s.skip(n + 1), sep)
    } else {
        seq![s]
    }
}

/// Splits `s` at every `sep`.
pub fn split(s: &[u8], sep: u8) -> (r: Vec<&[u8]>)
    ensures
        slices_view(r@) == split_on(s@, sep),
{
    let mut out: Vec<&[u8]> = Vec::new();
    let mut pos: usize = 0;
    assert(s@.skip(0) =~= s@);
    loop
        invariant_except_break
            pos <= s.len(),
            split_on(s@, sep) == slices_view(out@) + split_on(s@.skip(pos as int), sep),
        ensures
            slices_view(out@) == split_on(s@, sep),
        decreases s.len() - pos,
    {
        let ghost rest = s@.skip(pos as int);
        let ghost before = slices_view(out@);
        let end = find_from(s, pos, sep);
        proof {
            lemma_first_index_bounds(rest, sep);
        }
        let piece = slice_subrange(s, pos, end);
        assert(piece@ =~= rest.take(end - pos));
        out.push(piece);
        assert(slices_view(out@) =~= before.push(piece@));
        if end < s.len() {
            assert(rest.skip(end - pos + 1) =~= s@.skip(end as int + 1));
            pos = end + 1;
            assert(before.push(piece@) + split_on(s@.skip(pos as int), sep) =~= before + (
            seq![piece@] + split_on(s@.skip(pos as int), sep)));
        } else {
            assert(piece@ =~= rest);
            assert(before.push(piece@) =~= before + seq![rest]);
            break ;
        }
    }
    out
}

/// What is left of an ASCII text after trimming is ASCII.
pub proof fn lemma_ascii_trimmed(s: Seq<u8>)
    requires
        all_ascii(s),
    ensures
        all_ascii(trimmed(s)),
{
    lemma_leading_spaces_bound(s);
    let t = trim_start(s);
    lemma_trailing_spaces_bound(t);
    let u = trimmed(s);
    assert forall|i: int| 0 <= i < u.len() implies #[trigger] u[i] < 128 by {
        assert(u[i] == t[i]);
        assert(t[i] == s[i + leading_spaces(s)]);
    }
}

/// The pieces of an ASCII text are ASCII.
pub proof fn lemma_ascii_split(s: Seq<u8>, sep: u8, i: int)
    requires
        all_ascii(s),
        0 <= i < split_on(s, sep).len(),
    ensures
        all_ascii(split_on(s, sep)[i]),
    decreases s.len(),
{
    let n = first_index(s, sep);
    lemma_first_index_bounds(s, sep);
    if 0 <= n < s.len() {
        if i == 0 {
            assert forall|j: int| 0 <= j < s.take(n).len() implies #[trigger] s.take(n)[j]
                < 128 by {
                assert(s.take(n)[j] == s[j]);
            }
        } else {
            let rest = s.skip(n + 1);
            assert forall|j: int| 0 <= j < rest.len() implies #[trigger] rest[j] < 128 by {
                assert(rest[j] == s[j + n + 1]);
            }
            lemma_ascii_split(rest, sep, i - 1);
        }
    }
}

} // verus!
