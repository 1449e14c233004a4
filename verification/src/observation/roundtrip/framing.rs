//! A text and its lines: what is written line by line is read line by
//! line.

use crate::text::all_spaces;
use crate::text::digits_of;
use crate::text::fixed_digits;
use crate::text::fixed_text;
use crate::text::is_digit;
use crate::text::is_space;
use crate::text::lemma_digits_of;
use crate::text::lemma_first_index_is;
use crate::text::lemma_fixed_digits;
use crate::text::lemma_trailing_spaces_bound;
use crate::text::lemma_trailing_spaces_is;
use crate::text::lines_of;
use crate::text::pad_left;
use crate::text::strip_cr;
use crate::text::trailing_spaces;
use crate::text::trim_end;
use vstd::prelude::*;

verus! {

/// A text that holds no line feed and no carriage return.
pub open spec fn one_line(s: Seq<u8>) -> bool {
    forall|i: int| 0 <= i < s.len() ==> (#[trigger] s[i]) != 10 && s[i] != 13
}

/// Two texts of one line make one line.
pub proof fn lemma_one_line_joined(a: Seq<u8>, b: Seq<u8>)
    requires
        one_line(a),
        one_line(b),
    ensures
        one_line(a + b),
{
    let s = a + b;
    assert forall|i: int| 0 <= i < s.len() implies (#[trigger] s[i]) != 10 && s[i] != 13 by {
        if i < a.len() {
            assert(s[i] == a[i]);
        } else {
            assert(s[i] == b[i - a.len()]);
        }
    }
}

/// Digits hold no line feed.
pub proof fn lemma_one_line_digits(s: Seq<u8>)
    requires
        crate::text::all_digits(s),
    ensures
        one_line(s),
{
    assert forall|i: int| 0 <= i < s.len() implies (#[trigger] s[i]) != 10 && s[i] != 13 by {
        assert(is_digit(s[i]));
    }
}

/// Filling a text on the left brings in no line feed.
pub proof fn lemma_one_line_padded(s: Seq<u8>, width: nat, fill: u8)
    requires
        one_line(s),
        fill != 10,
        fill != 13,
    ensures
        one_line(pad_left(s, width, fill)),
{
    if s.len() < width {
        let pad = Seq::new((width - s.len()) as nat, |i: int| fill);
        assert(one_line(pad));
        lemma_one_line_joined(pad, s);
    }
}

/// A number is written on one line.
pub proof fn lemma_one_line_number(n: nat, width: nat, fill: u8)
    requires
        fill != 10,
        fill != 13,
    ensures
        one_line(pad_left(digits_of(n), width, fill)),
{
    lemma_digits_of(n);
    lemma_one_line_digits(digits_of(n));
    lemma_one_line_padded(digits_of(n), width, fill);
}

/// A number with decimals is written on one line.
pub proof fn lemma_one_line_fixed(v: int, k: nat)
    ensures
        one_line(fixed_text(v, k)),
{
    let mag = if v < 0 {
        (-v) as nat
    } else {
        v as nat
    };
    let (i, f) = lemma_fixed_digits(mag, k);
    lemma_one_line_digits(i);
    lemma_one_line_digits(f);
    lemma_one_line_joined(i, seq![46u8]);
    lemma_one_line_joined(i + seq![46u8], f);
    if v < 0 {
        lemma_one_line_joined(seq![45u8], fixed_digits(mag, k));
    }
}

/// The first line of a text ends at the first line feed.
pub proof fn lemma_lines_of_line(a: Seq<u8>, rest: Seq<u8>)
    requires
        one_line(a),
    ensures
        lines_of(a + seq![10u8] + rest) == seq![a] + lines_of(rest),
{
    let s = a + seq![10u8] + rest;
    assert forall|i: int| 0 <= i < a.len() implies #[trigger] s[i] != 10 by {
        assert(s[i] == a[i]);
    }
    assert(s[a.len() as int] == 10);
    lemma_first_index_is(s, 10, a.len() as int);
    assert(s.take(a.len() as int) =~= a);
    assert(s.skip(a.len() as int + 1) =~= rest);
    assert(strip_cr(a) == a);
}

/// A text of one line that is not empty is its only line.
pub proof fn lemma_lines_of_last(a: Seq<u8>)
    requires
        one_line(a),
        a.len() > 0,
    ensures
        lines_of(a) == seq![a],
{
    lemma_first_index_is(a, 10, a.len() as int);
}

/// The first `n` lines of a list, a line feed after each.
pub open spec fn joined(lines: Seq<Seq<u8>>, n: nat) -> Seq<u8>
    decreases n,
{
    if n == 0 {
        Seq::empty()
    } else {
        joined(lines, (n - 1) as nat) + lines[n - 1] + seq![10u8]
    }
}

/// Lines that were joined are the first lines of the text.
pub proof fn lemma_lines_of_joined(lines: Seq<Seq<u8>>, n: nat, rest: Seq<u8>)
    requires
        n <= lines.len(),
        forall|i: int| 0 <= i < n ==> one_line(#[trigger] lines[i]),
    ensures
        lines_of(joined(lines, n) + rest) == lines.take(n as int) + lines_of(rest),
    decreases n,
{
    if n > 0 {
        let last = lines[n - 1];
        let more = last + seq![10u8] + rest;
        lemma_lines_of_joined(lines, (n - 1) as nat, more);
        assert(one_line(last));
        lemma_lines_of_line(last, rest);
        assert(joined(lines, n) + rest =~= joined(lines, (n - 1) as nat) + more);
        assert(lines.take(n as int) =~= lines.take(n - 1) + seq![last]);
        assert(lines.take(n - 1) + (seq![last] + lines_of(rest)) =~= lines.take(n - 1) + seq![
            last,
        ] + lines_of(rest));
    } else {
        assert(joined(lines, n) + rest =~= rest);
        assert(lines.take(0) + lines_of(rest) =~= lines_of(rest));
    }
}

/// The blanks that end a text are its last characters, and the one
/// before them is no blank.
pub proof fn lemma_trailing_spaces(s: Seq<u8>)
    ensures
        trailing_spaces(s) <= s.len(),
        forall|i: int| s.len() - trailing_spaces(s) <= i < s.len() ==> is_space(#[trigger] s[i]),
        trailing_spaces(s) < s.len() ==> !is_space(s[s.len() - trailing_spaces(s) - 1]),
    decreases s.len(),
{
    if s.len() > 0 && is_space(s.last()) {
        let t = s.drop_last();
        lemma_trailing_spaces(t);
        assert forall|i: int| s.len() - trailing_spaces(s) <= i < s.len() implies is_space(
            #[trigger] s[i],
        ) by {
            if i < t.len() {
                assert(t[i] == s[i]);
            }
        }
        if trailing_spaces(s) < s.len() {
            assert(t[t.len() - trailing_spaces(t) - 1] == s[s.len() - trailing_spaces(s) - 1]);
        }
    }
}

/// Of a text that ends with a line and a line feed, the blanks at the
/// end of the line go with the line feed: the line holds a character
/// that is no blank.
pub proof fn lemma_trim_end_last_line(x: Seq<u8>, l: Seq<u8>, at: int)
    requires
        0 <= at < l.len(),
        !is_space(l[at]),
    ensures
        trim_end(x + l + seq![10u8]) == x + trim_end(l),
        at < trim_end(l).len() <= l.len(),
        trim_end(l) == l.take(trim_end(l).len() as int),
        forall|i: int| trim_end(l).len() <= i < l.len() ==> is_space(#[trigger] l[i]),
        !is_space(trim_end(l).last()),
{
    lemma_trailing_spaces(l);
    let k = trailing_spaces(l) as int;
    if l.len() - k <= at {
        assert(is_space(l[at]));
    }
    let u = x + l + seq![10u8];
    assert forall|i: int| u.len() - (k + 1) <= i < u.len() implies is_space(#[trigger] u[i]) by {
        if i < u.len() - 1 {
            assert(u[i] == l[i - x.len()]);
        }
    }
    assert(u[u.len() - (k + 1) - 1] == l[l.len() - k - 1]);
    lemma_trailing_spaces_is(u, k + 1);
    assert(trim_end(u) =~= x + trim_end(l));
}

/// Blanks at the end of a text count with the blanks before them.
pub proof fn lemma_trailing_spaces_more(x: Seq<u8>, b: Seq<u8>)
    requires
        all_spaces(b),
    ensures
        trailing_spaces(x + b) == trailing_spaces(x) + b.len(),
    decreases b.len(),
{
    if b.len() > 0 {
        let r = b.drop_last();
        assert(all_spaces(r)) by {
            assert forall|i: int| 0 <= i < r.len() implies is_space(#[trigger] r[i]) by {
                assert(r[i] == b[i]);
            }
        }
        lemma_trailing_spaces_more(x, r);
        assert((x + b).drop_last() =~= x + r);
        assert((x + b).last() == b.last());
        assert(is_space(b.last()));
    } else {
        assert(x + b =~= x);
    }
}

/// Blanks at the end of a text go when the text is trimmed.
pub proof fn lemma_trim_end_blank_tail(x: Seq<u8>, b: Seq<u8>)
    requires
        all_spaces(b),
    ensures
        trim_end(x + b) == trim_end(x),
{
    lemma_trailing_spaces_more(x, b);
    lemma_trailing_spaces_bound(x);
    assert(trim_end(x + b) =~= trim_end(x));
}

/// Of a text that ends with a line, the blanks at the end of the line
/// are all that goes: the line holds a character that is no blank.
pub proof fn lemma_trim_end_tail(x: Seq<u8>, l: Seq<u8>, at: int)
    requires
        0 <= at < l.len(),
        !is_space(l[at]),
    ensures
        trim_end(x + l) == x + trim_end(l),
        at < trim_end(l).len() <= l.len(),
        trim_end(l) == l.take(trim_end(l).len() as int),
        forall|i: int| trim_end(l).len() <= i < l.len() ==> is_space(#[trigger] l[i]),
        !is_space(trim_end(l).last()),
{
    lemma_trim_end_last_line(x, l, at);
    lemma_trim_end_blank_tail(x + l, seq![10u8]);
}

/// A line that holds a character that is no blank.
pub open spec fn marked(line: Seq<u8>) -> bool {
    exists|i: int| 0 <= i < line.len() && !is_space(#[trigger] line[i])
}

/// The place of the last of the first `k` lines that holds a character
/// that is no blank, or -1.
pub open spec fn last_marked(lines: Seq<Seq<u8>>, k: nat) -> int
    decreases k,
{
    if k == 0 {
        -1
    } else if marked(lines[k - 1]) {
        k - 1
    } else {
        last_marked(lines, (k - 1) as nat)
    }
}

/// The last marked line is marked, and the lines after it are blank.
pub proof fn lemma_last_marked(lines: Seq<Seq<u8>>, k: nat)
    ensures
        -1 <= last_marked(lines, k) < k,
        last_marked(lines, k) >= 0 ==> marked(lines[last_marked(lines, k)]),
        forall|i: int| last_marked(lines, k) < i < k ==> all_spaces(#[trigger] lines[i]),
    decreases k,
{
    if k > 0 {
        lemma_last_marked(lines, (k - 1) as nat);
        if !marked(lines[k - 1]) {
            let l = lines[k - 1];
            assert forall|j: int| 0 <= j < l.len() implies is_space(#[trigger] l[j]) by {}
        }
    }
}

/// No marked line comes after the last marked line.
pub proof fn lemma_last_marked_after(lines: Seq<Seq<u8>>, k: nat, i: int)
    requires
        0 <= i < k,
        marked(lines[i]),
    ensures
        last_marked(lines, k) >= i,
    decreases k,
{
    if i < k - 1 && !marked(lines[k - 1]) {
        lemma_last_marked_after(lines, (k - 1) as nat, i);
    }
}

} // verus!
