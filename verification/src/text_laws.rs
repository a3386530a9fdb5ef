//! What texts stand for: numbers are read back from their digits, and a report is made
//! of its lines.

use vstd::prelude::*;

use crate::text::{
    after_white, all_digits, before_white, decimal, hex, is_white, last_place, line_end, lines,
    lines_from, location_line, number, parsed, signed_decimal, trimmed,
};

verus! {

/// The number below sixteen that a character is the digit of.
pub open spec fn digit_number(c: char) -> int {
    if '0' <= c <= '9' {
        c as int - '0' as int
    } else {
        c as int - 'a' as int + 10
    }
}

/// The number that digits stand for, the highest first.
pub open spec fn in_base(s: Seq<char>, base: int) -> int
    decreases s.len(),
{
    if s.len() == 0 {
        0
    } else {
        base * in_base(s.drop_last(), base) + digit_number(s.last())
    }
}

/// The integer that digits behind an optional minus sign stand for.
pub open spec fn signed_number(s: Seq<char>) -> int {
    if s.len() > 0 && s[0] == '-' {
        -in_base(s.skip(1), 10)
    } else {
        in_base(s, 10)
    }
}

/// `base` to the power of `k`.
pub open spec fn power(base: int, k: nat) -> int
    decreases k,
{
    if k == 0 {
        1
    } else {
        base * power(base, (k - 1) as nat)
    }
}

/// A number is read back from its decimal digits, which start with a zero only where
/// they are the one digit of zero.
pub proof fn law_decimals_are_read_back(n: nat)
    ensures
        decimal(n).len() > 0,
        all_digits(decimal(n), decimal(n).len() as int),
        in_base(decimal(n), 10) == n,
        decimal(n)[0] == '0' ==> n == 0 && decimal(n).len() == 1,
    decreases n,
{
    if n >= 10 {
        let high = decimal(n / 10);
        law_decimals_are_read_back(n / 10);
        assert(decimal(n).drop_last() =~= high);
        assert(decimal(n)[0] == high[0]);
    } else {
        assert(decimal(n).drop_last() =~= Seq::<char>::empty());
        assert(in_base(Seq::<char>::empty(), 10) == 0);
    }
}

/// An integer is read back from its decimal digits and its sign.
pub proof fn law_signed_decimals_are_read_back(n: int)
    ensures
        signed_number(signed_decimal(n)) == n,
        forall|i: int|
            0 <= i < signed_decimal(n).len() ==> '0' <= #[trigger] signed_decimal(n)[i] <= '9' || (i
                == 0 && n < 0 && signed_decimal(n)[i] == '-'),
{
    if n < 0 {
        law_decimals_are_read_back((-n) as nat);
        assert(signed_decimal(n).skip(1) =~= decimal((-n) as nat));
    } else {
        law_decimals_are_read_back(n as nat);
        assert('0' <= decimal(n as nat)[0] <= '9');
    }
}

/// A number below `16^k` is read back from its `k` hexadecimal digits.
pub proof fn law_hex_digits_are_read_back(n: nat, k: nat)
    requires
        n < power(16, k),
    ensures
        hex(n, k).len() == k,
        in_base(hex(n, k), 16) == n,
        forall|i: int|
            0 <= i < k ==> '0' <= #[trigger] hex(n, k)[i] <= '9' || 'a' <= hex(n, k)[i] <= 'f',
    decreases k,
{
    if k > 0 {
        let high = hex(n / 16, (k - 1) as nat);
        assert(n / 16 < power(16, (k - 1) as nat)) by (nonlinear_arith)
            requires
                n < 16 * power(16, (k - 1) as nat),
        ;
        law_hex_digits_are_read_back(n / 16, (k - 1) as nat);
        assert(hex(n, k).drop_last() =~= high);
    }
}

/// Every 32-bit number has eight hexadecimal digits.
pub proof fn lemma_eight_digits(n: u32)
    ensures
        n < power(16, 8),
{
    reveal_with_fuel(power, 9);
}

/// Digits stand for a number as they do in [`in_base`].
proof fn lemma_number(s: Seq<char>, n: int)
    requires
        0 <= n <= s.len(),
        all_digits(s, n),
    ensures
        number(s, n) == in_base(s.take(n), 10),
    decreases n,
{
    if n > 0 {
        lemma_number(s, n - 1);
        assert(s.take(n).drop_last() =~= s.take(n - 1));
        assert(s.take(n).last() == s[n - 1]);
        assert('0' <= s[n - 1] <= '9');
    }
}

/// What is parsed from decimal digits, with or without a plus sign before them, is the
/// number that they stand for, where it fits; from anything else nothing is parsed.
pub proof fn law_numbers_are_parsed(digits: Seq<char>)
    ensures
        digits.len() > 0 && all_digits(digits, digits.len() as int) && in_base(digits, 10)
            <= usize::MAX ==> {
            &&& parsed(digits) == Some(in_base(digits, 10) as usize)
            &&& parsed(seq!['+'] + digits) == parsed(digits)
        },
        digits.len() == 0 ==> parsed(digits) is None,
        digits.len() > 0 && digits[0] != '+' && (exists|i: int|
            0 <= i < digits.len() && !('0' <= #[trigger] digits[i] <= '9')) ==> parsed(
            digits,
        ) is None && parsed(seq!['+'] + digits) is None,
        digits.len() > 0 && all_digits(digits, digits.len() as int) && in_base(digits, 10)
            > usize::MAX ==> parsed(digits) is None && parsed(seq!['+'] + digits) is None,
{
    let n = digits.len() as int;
    assert((seq!['+'] + digits).skip(1) =~= digits);
    assert(digits.take(n) =~= digits);
    if n > 0 && all_digits(digits, n) {
        assert('0' <= digits[0] <= '9');
        lemma_number(digits, n);
        lemma_in_base_natural(digits);
    }
}

proof fn lemma_in_base_natural(digits: Seq<char>)
    requires
        all_digits(digits, digits.len() as int),
    ensures
        in_base(digits, 10) >= 0,
    decreases digits.len(),
{
    if digits.len() > 0 {
        let s = digits.drop_last();
        assert forall|i: int| 0 <= i < s.len() implies '0' <= #[trigger] s[i] <= '9' by {
            assert(s[i] == digits[i]);
        }
        lemma_in_base_natural(s);
        assert('0' <= digits[digits.len() - 1] <= '9');
    }
}

/// A number that fits is parsed from its decimal digits.
pub proof fn law_decimals_are_parsed(n: usize)
    ensures
        parsed(decimal(n as nat)) == Some(n),
{
    law_decimals_are_read_back(n as nat);
    law_numbers_are_parsed(decimal(n as nat));
}

/// Whether a text holds nothing but white space.
pub open spec fn blank(s: Seq<char>) -> bool {
    forall|i: int| 0 <= i < s.len() ==> is_white(#[trigger] s[i])
}

/// Whether a text has no white space at its ends.
pub open spec fn tight(s: Seq<char>) -> bool {
    s.len() > 0 ==> !is_white(s[0]) && !is_white(s.last())
}

proof fn lemma_after_white(s: Seq<char>, n: int, i: int)
    requires
        0 <= i <= n <= s.len(),
        forall|j: int| 0 <= j < n ==> is_white(#[trigger] s[j]),
        n == s.len() || !is_white(s[n]),
    ensures
        after_white(s, i) == n,
    decreases n - i,
{
    if i < n {
        assert(is_white(s[i]));
        lemma_after_white(s, n, i + 1);
    }
}

proof fn lemma_before_white(s: Seq<char>, n: int, i: int)
    requires
        0 <= n <= i <= s.len(),
        forall|j: int| n <= j < s.len() ==> is_white(#[trigger] s[j]),
        n == 0 || !is_white(s[n - 1]),
    ensures
        before_white(s, i) == n,
    decreases i,
{
    if i > n {
        assert(is_white(s[i - 1]));
        lemma_before_white(s, n, i - 1);
    }
}

/// Trimming takes away the white space round a text, and nothing else.
pub proof fn law_trimming_removes_white_space(a: Seq<char>, s: Seq<char>, b: Seq<char>)
    requires
        blank(a),
        blank(b),
        tight(s),
    ensures
        trimmed(a + s + b) == s,
{
    let t = a + s + b;
    if s.len() == 0 {
        assert forall|j: int| 0 <= j < t.len() implies is_white(#[trigger] t[j]) by {
            if j < a.len() {
                assert(t[j] == a[j]);
            } else {
                assert(t[j] == b[j - a.len()]);
            }
        }
        lemma_after_white(t, t.len() as int, 0);
        lemma_before_white(t, 0, t.len() as int);
    } else {
        let n = a.len() as int;
        let m = n + s.len();
        assert forall|j: int| 0 <= j < n implies is_white(#[trigger] t[j]) by {
            assert(t[j] == a[j]);
        }
        assert forall|j: int| m <= j < t.len() implies is_white(#[trigger] t[j]) by {
            assert(t[j] == b[j - m]);
        }
        assert(t[n] == s[0]);
        assert(t[m - 1] == s.last());
        lemma_after_white(t, n, 0);
        lemma_before_white(t, m, t.len() as int);
        assert(t.subrange(n, m) =~= s);
    }
}

/// Every text is its trimmed part with white space round it, and only a blank text is
/// trimmed to nothing.
pub proof fn law_texts_are_trimmed(s: Seq<char>) -> (ends: (Seq<char>, Seq<char>))
    ensures
        s == ends.0 + trimmed(s) + ends.1,
        blank(ends.0),
        blank(ends.1),
        tight(trimmed(s)),
        trimmed(s).len() == 0 <==> blank(s),
{
    let start = after_white(s, 0);
    let end = before_white(s, s.len() as int);
    lemma_white_before(s, 0);
    lemma_white_behind(s, s.len() as int);
    if start >= end {
        assert forall|i: int| 0 <= i < s.len() implies is_white(#[trigger] s[i]) by {}
        assert(s =~= s + trimmed(s) + Seq::<char>::empty());
        (s, seq![])
    } else {
        assert(!is_white(s[start]));
        assert(s =~= s.take(start) + trimmed(s) + s.skip(end));
        assert(blank(s.take(start)));
        assert(blank(s.skip(end)));
        (s.take(start), s.skip(end))
    }
}

proof fn lemma_white_before(s: Seq<char>, i: int)
    requires
        0 <= i <= s.len(),
    ensures
        i <= after_white(s, i) <= s.len(),
        forall|j: int| i <= j < after_white(s, i) ==> is_white(#[trigger] s[j]),
        after_white(s, i) < s.len() ==> !is_white(s[after_white(s, i)]),
    decreases s.len() - i,
{
    if i < s.len() && is_white(s[i]) {
        lemma_white_before(s, i + 1);
    }
}

proof fn lemma_white_behind(s: Seq<char>, i: int)
    requires
        0 <= i <= s.len(),
    ensures
        0 <= before_white(s, i) <= i,
        forall|j: int| before_white(s, i) <= j < i ==> is_white(#[trigger] s[j]),
        before_white(s, i) > 0 ==> !is_white(s[before_white(s, i) - 1]),
    decreases i,
{
    if i > 0 && is_white(s[i - 1]) {
        lemma_white_behind(s, i - 1);
    }
}

/// Whether a character occurs in a text.
pub open spec fn occurs(c: char, s: Seq<char>) -> bool {
    exists|i: int| 0 <= i < s.len() && #[trigger] s[i] == c
}

proof fn lemma_line_end_at(s: Seq<char>, n: int, i: int)
    requires
        0 <= i <= n <= s.len(),
        forall|j: int| i <= j < n ==> #[trigger] s[j] != '\n',
        n == s.len() || s[n] == '\n',
    ensures
        line_end(s, i) == n,
    decreases n - i,
{
    if i < n {
        assert(s[i] != '\n');
        lemma_line_end_at(s, n, i + 1);
    }
}

/// The lines from a place on are those of what stands there.
proof fn lemma_lines_behind(a: Seq<char>, b: Seq<char>, i: int)
    requires
        0 <= i <= b.len(),
    ensures
        lines_from(a + b, a.len() + i) == lines_from(b, i),
    decreases b.len() - i,
{
    let s = a + b;
    if i < b.len() {
        let n = lemma_next_line_end(b, i);
        assert forall|j: int| a.len() + i <= j < a.len() + n implies #[trigger] s[j] != '\n' by {
            assert(s[j] == b[j - a.len()]);
        }
        lemma_line_end_at(b, n, i);
        if n < b.len() {
            assert(s[a.len() + n] == b[n]);
        }
        lemma_line_end_at(s, a.len() + n, a.len() + i);
        assert(s.subrange(a.len() + i, a.len() + n) =~= b.subrange(i, n));
        if n < b.len() {
            lemma_lines_behind(a, b, n + 1);
        }
    }
}

/// Place of the next line feed, or of the end.
proof fn lemma_next_line_end(s: Seq<char>, i: int) -> (n: int)
    requires
        0 <= i <= s.len(),
    ensures
        i <= n <= s.len(),
        forall|j: int| i <= j < n ==> #[trigger] s[j] != '\n',
        n == s.len() || s[n] == '\n',
    decreases s.len() - i,
{
    if i < s.len() && s[i] != '\n' {
        lemma_next_line_end(s, i + 1)
    } else {
        i
    }
}

/// A line feed ends a line, a carriage return before it belongs to the end, and what
/// comes behind it is made of lines of its own. A last line needs no line feed; an empty
/// one is none.
pub proof fn law_line_feeds_end_lines(line: Seq<char>, rest: Seq<char>)
    requires
        !occurs('\n', line),
    ensures
        lines(line + seq!['\n'] + rest) == seq![
            if line.len() > 0 && line.last() == '\r' {
                line.drop_last()
            } else {
                line
            },
        ] + lines(rest),
        lines(line) == if line.len() > 0 {
            seq![line]
        } else {
            seq![]
        },
{
    let a = line + seq!['\n'];
    let s = a + rest;
    let n = line.len() as int;
    assert forall|j: int| 0 <= j < n implies #[trigger] s[j] != '\n' && line[j] != '\n' by {
        assert(s[j] == line[j]);
    }
    assert(s[n] == '\n');
    lemma_line_end_at(s, n, 0);
    lemma_line_end_at(line, n, 0);
    assert(s.subrange(0, n) =~= line);
    assert(line.subrange(0, n) =~= line);
    lemma_lines_behind(a, rest, 0);
    assert(a.len() + 0 == n + 1);
}

/// The lines of a text that ends in a line feed, and of what comes behind it, are those
/// of the two, behind one another.
pub proof fn law_lines_of_both(a: Seq<char>, b: Seq<char>)
    requires
        a.len() == 0 || a.last() == '\n',
    ensures
        lines(a + b) == lines(a) + lines(b),
    decreases a.len(),
{
    if a.len() == 0 {
        assert(a + b =~= b);
        assert(lines(a) =~= seq![]);
        assert(lines(a) + lines(b) =~= lines(b));
    } else {
        let n = lemma_next_line_end(a, 0);
        assert(n < a.len()) by {
            if n == a.len() {
                assert(a[n - 1] != '\n');
            }
        }
        let line = a.take(n);
        let rest = a.skip(n + 1);
        assert(!occurs('\n', line)) by {
            assert forall|i: int| 0 <= i < line.len() implies #[trigger] line[i] != '\n' by {
                assert(line[i] == a[i]);
            }
        }
        assert(a =~= line + seq!['\n'] + rest);
        assert(a + b =~= line + seq!['\n'] + (rest + b));
        assert(rest.len() > 0 ==> rest.last() == a.last());
        law_lines_of_both(rest, b);
        law_line_feeds_end_lines(line, rest);
        law_line_feeds_end_lines(line, rest + b);
        assert(lines(a + b) =~= lines(a) + lines(b));
    }
}

proof fn lemma_last_place(s: Seq<char>, c: char, n: int, i: int)
    requires
        -1 <= n < i <= s.len(),
        n >= 0 ==> s[n] == c,
        forall|j: int| n < j < i ==> #[trigger] s[j] != c,
    ensures
        last_place(s, c, i) == n,
    decreases i,
{
    if i - 1 > n {
        assert(s[i - 1] != c);
        lemma_last_place(s, c, n, i - 1);
    }
}

/// A location names the line in the field before its last colon, whatever stands before
/// that field; a text without a colon is no location.
pub proof fn law_locations_name_their_line(path: Seq<char>, field: Seq<char>, column: Seq<char>)
    requires
        !occurs(':', field),
        !occurs(':', column),
    ensures
        location_line(path + seq![':'] + field + seq![':'] + column) == parsed(field),
        location_line(field + seq![':'] + column) == parsed(field),
        location_line(column) is None,
{
    lemma_location_line(path + seq![':'], field, column);
    lemma_location_line(seq![], field, column);
    assert(Seq::<char>::empty() + field + seq![':'] + column =~= field + seq![':'] + column);
    assert forall|j: int| -1 < j < column.len() implies #[trigger] column[j] != ':' by {}
    lemma_last_place(column, ':', -1, column.len() as int);
}

proof fn lemma_location_line(head: Seq<char>, field: Seq<char>, column: Seq<char>)
    requires
        !occurs(':', field),
        !occurs(':', column),
        head.len() == 0 || head.last() == ':',
    ensures
        location_line(head + field + seq![':'] + column) == parsed(field),
{
    let s = head + field + seq![':'] + column;
    let start = head.len() as int;
    let end = start + field.len();
    assert(s[end] == ':');
    assert forall|j: int| end < j < s.len() implies #[trigger] s[j] != ':' by {
        assert(s[j] == column[j - end - 1]);
    }
    lemma_last_place(s, ':', end, s.len() as int);
    assert forall|j: int| start - 1 < j < end implies #[trigger] s[j] != ':' by {
        assert(s[j] == field[j - start]);
    }
    if start > 0 {
        assert(s[start - 1] == head.last());
    }
    if end > 0 {
        lemma_last_place(s, ':', start - 1, end);
    }
    assert(s.subrange(start, end) =~= field);
}

} // verus!
