//! Text: numbers in digits, and the lines of a report.

use vstd::prelude::*;

verus! {

/// The digit of a number below sixteen.
pub open spec fn digit(d: int) -> char {
    if d == 0 {
        '0'
    } else if d == 1 {
        '1'
    } else if d == 2 {
        '2'
    } else if d == 3 {
        '3'
    } else if d == 4 {
        '4'
    } else if d == 5 {
        '5'
    } else if d == 6 {
        '6'
    } else if d == 7 {
        '7'
    } else if d == 8 {
        '8'
    } else if d == 9 {
        '9'
    } else if d == 10 {
        'a'
    } else if d == 11 {
        'b'
    } else if d == 12 {
        'c'
    } else if d == 13 {
        'd'
    } else if d == 14 {
        'e'
    } else {
        'f'
    }
}

/// A number in decimal digits.
pub open spec fn decimal(n: nat) -> Seq<char>
    decreases n,
{
    if n < 10 {
        seq![digit(n as int)]
    } else {
        decimal(n / 10).push(digit((n % 10) as int))
    }
}

/// An integer in decimal digits, with a minus sign before a negative one.
pub open spec fn signed_decimal(n: int) -> Seq<char> {
    if n < 0 {
        seq!['-'] + decimal((-n) as nat)
    } else {
        decimal(n as nat)
    }
}

/// The last `k` hexadecimal digits of a number, highest first.
pub open spec fn hex(n: nat, k: nat) -> Seq<char>
    decreases k,
{
    if k == 0 {
        seq![]
    } else {
        hex(n / 16, (k - 1) as nat).push(digit((n % 16) as int))
    }
}

/// The text of a digit.
fn digit_text(d: u64) -> (text: &'static str)
    requires
        d < 16,
    ensures
        text@ == seq![digit(d as int)],
{
    proof {
        reveal_strlit("0");
        reveal_strlit("1");
        reveal_strlit("2");
        reveal_strlit("3");
        reveal_strlit("4");
        reveal_strlit("5");
        reveal_strlit("6");
        reveal_strlit("7");
        reveal_strlit("8");
        reveal_strlit("9");
        reveal_strlit("a");
        reveal_strlit("b");
        reveal_strlit("c");
        reveal_strlit("d");
        reveal_strlit("e");
        reveal_strlit("f");
    }
    let text = if d == 0 {
        "0"
    } else if d == 1 {
        "1"
    } else if d == 2 {
        "2"
    } else if d == 3 {
        "3"
    } else if d == 4 {
        "4"
    } else if d == 5 {
        "5"
    } else if d == 6 {
        "6"
    } else if d == 7 {
        "7"
    } else if d == 8 {
        "8"
    } else if d == 9 {
        "9"
    } else if d == 10 {
        "a"
    } else if d == 11 {
        "b"
    } else if d == 12 {
        "c"
    } else if d == 13 {
        "d"
    } else if d == 14 {
        "e"
    } else {
        "f"
    };
    assert(text@ =~= seq![digit(d as int)]);
    text
}

/// Append a number in decimal digits.
pub(crate) fn push_decimal(out: &mut String, n: u64)
    ensures
        final(out)@ == old(out)@ + decimal(n as nat),
    decreases n,
{
    let ghost start = out@;
    if n >= 10 {
        push_decimal(out, n / 10);
    }
    out.append(digit_text(n % 10));
    assert(out@ =~= start + decimal(n as nat));
}

/// Append an integer in decimal digits.
pub(crate) fn push_signed(out: &mut String, n: i64)
    ensures
        final(out)@ == old(out)@ + signed_decimal(n as int),
{
    let ghost start = out@;
    if n < 0 {
        proof {
            reveal_strlit("-");
        }
        out.append("-");
        push_decimal(out, (0 - (n as i128)) as u64);
        assert("-"@ =~= seq!['-']);
    } else {
        push_decimal(out, n as u64);
    }
    assert(out@ =~= start + signed_decimal(n as int));
}

/// Append the last `k` hexadecimal digits of a number.
pub(crate) fn push_hex(out: &mut String, n: u64, k: usize)
    ensures
        final(out)@ == old(out)@ + hex(n as nat, k as nat),
    decreases k,
{
    let ghost start = out@;
    if k > 0 {
        push_hex(out, n / 16, k - 1);
        out.append(digit_text(n % 16));
    }
    assert(out@ =~= start + hex(n as nat, k as nat));
}

/// The characters of a text.
pub(crate) fn chars_of(text: &str) -> (chars: Vec<char>)
    ensures
        chars@ == text@,
{
    let mut chars: Vec<char> = Vec::new();
    for c in it: text.chars()
        invariant
            chars@ == it.seq().take(it.index()),
            it.seq() == text@,
    {
        chars.push(c);
        assert(chars@ =~= it.seq().take(it.index() + 1));
    }
    assert(chars@ =~= text@);
    chars
}

/// Whether a character is white space (the Unicode property `White_Space`).
pub open spec fn is_white(c: char) -> bool {
    ||| '\u{9}' <= c <= '\u{d}'
    ||| c == '\u{20}'
    ||| c == '\u{85}'
    ||| c == '\u{a0}'
    ||| c == '\u{1680}'
    ||| '\u{2000}' <= c <= '\u{200a}'
    ||| c == '\u{2028}'
    ||| c == '\u{2029}'
    ||| c == '\u{202f}'
    ||| c == '\u{205f}'
    ||| c == '\u{3000}'
}

/// Place of the first character, from `i` on, that is not white space.
pub open spec fn after_white(s: Seq<char>, i: int) -> int
    decreases s.len() - i,
{
    if i < 0 || i >= s.len() || !is_white(s[i]) {
        i
    } else {
        after_white(s, i + 1)
    }
}

/// Place behind the last character, before `i`, that is not white space.
pub open spec fn before_white(s: Seq<char>, i: int) -> int
    decreases i,
{
    if i <= 0 || !is_white(s[i - 1]) {
        i
    } else {
        before_white(s, i - 1)
    }
}

/// A text without white space at its ends.
pub open spec fn trimmed(s: Seq<char>) -> Seq<char> {
    let start = after_white(s, 0);
    let end = before_white(s, s.len() as int);
    if start >= end {
        seq![]
    } else {
        s.subrange(start, end)
    }
}

/// Place of the first line feed, from `i` on; the length where there is none.
pub open spec fn line_end(s: Seq<char>, i: int) -> int
    decreases s.len() - i,
{
    if i < 0 || i >= s.len() || s[i] == '\n' {
        i
    } else {
        line_end(s, i + 1)
    }
}

/// A line without the carriage return before its line feed.
pub open spec fn without_return(s: Seq<char>) -> Seq<char> {
    if s.len() > 0 && s.last() == '\r' {
        s.drop_last()
    } else {
        s
    }
}

/// The lines of a text from place `i` on, without their ends.
pub open spec fn lines_from(s: Seq<char>, i: int) -> Seq<Seq<char>>
    decreases s.len() - i,
    when 0 <= i
    via lines_from_decreases
{
    if i >= s.len() {
        seq![]
    } else {
        let end = line_end(s, i);
        if end >= s.len() {
            seq![s.subrange(i, s.len() as int)]
        } else {
            seq![without_return(s.subrange(i, end))] + lines_from(s, end + 1)
        }
    }
}

#[via_fn]
proof fn lines_from_decreases(s: Seq<char>, i: int) {
    lemma_line_end(s, i);
}

proof fn lemma_line_end(s: Seq<char>, i: int)
    requires
        0 <= i,
    ensures
        i <= line_end(s, i),
        i <= s.len() ==> line_end(s, i) <= s.len(),
        line_end(s, i) < s.len() ==> s[line_end(s, i)] == '\n',
    decreases s.len() - i,
{
    if i < s.len() && s[i] != '\n' {
        lemma_line_end(s, i + 1);
    }
}

/// The lines of a text, without their ends.
pub open spec fn lines(s: Seq<char>) -> Seq<Seq<char>> {
    lines_from(s, 0)
}

/// Whether a text has a pattern at a place.
pub open spec fn has_at(s: Seq<char>, pattern: Seq<char>, i: int) -> bool {
    &&& 0 <= i
    &&& i + pattern.len() <= s.len()
    &&& s.subrange(i, i + pattern.len()) == pattern
}

/// Whether a text contains a pattern.
pub open spec fn has(s: Seq<char>, pattern: Seq<char>) -> bool {
    exists|i: int| has_at(s, pattern, i)
}

/// Place of the last `c` before `i`; minus one where there is none.
pub open spec fn last_place(s: Seq<char>, c: char, i: int) -> int
    decreases i,
{
    if i <= 0 || s[i - 1] == c {
        i - 1
    } else {
        last_place(s, c, i - 1)
    }
}

/// Value of a decimal digit.
pub open spec fn digit_value(c: char) -> int {
    c as int - '0' as int
}

/// Whether the first `n` characters are decimal digits.
pub open spec fn all_digits(s: Seq<char>, n: int) -> bool {
    forall|i: int| 0 <= i < n ==> '0' <= #[trigger] s[i] <= '9'
}

/// The number that the first `n` digits stand for.
pub open spec fn number(s: Seq<char>, n: int) -> int
    decreases n,
{
    if n <= 0 {
        0
    } else {
        10 * number(s, n - 1) + digit_value(s[n - 1])
    }
}

/// The number that a text stands for: decimal digits, with or without a plus sign
/// before them, of a number that fits `usize`.
pub open spec fn parsed(s: Seq<char>) -> Option<usize> {
    let digits = if s.len() > 0 && s[0] == '+' {
        s.skip(1)
    } else {
        s
    };
    let n = digits.len() as int;
    if n > 0 && all_digits(digits, n) && number(digits, n) <= usize::MAX {
        Some(number(digits, n) as usize)
    } else {
        None
    }
}

fn white(c: char) -> (r: bool)
    ensures
        r == is_white(c),
{
    ('\u{9}' <= c && c <= '\u{d}') || c == '\u{20}' || c == '\u{85}' || c == '\u{a0}' || c
        == '\u{1680}' || ('\u{2000}' <= c && c <= '\u{200a}') || c == '\u{2028}' || c == '\u{2029}'
        || c == '\u{202f}' || c == '\u{205f}' || c == '\u{3000}'
}

/// A part of a text.
fn part(s: &Vec<char>, from: usize, to: usize) -> (r: Vec<char>)
    requires
        from <= to <= s@.len(),
    ensures
        r@ == s@.subrange(from as int, to as int),
{
    let mut r: Vec<char> = Vec::new();
    let mut i: usize = from;
    while i < to
        invariant
            from <= i <= to <= s@.len(),
            r@ == s@.subrange(from as int, i as int),
        decreases to - i,
    {
        r.push(s[i]);
        i = i + 1;
        assert(r@ =~= s@.subrange(from as int, i as int));
    }
    r
}

/// Places of the ends of a text without white space around it.
fn trim_bounds(s: &Vec<char>) -> (r: (usize, usize))
    ensures
        r.0 == after_white(s@, 0),
        r.1 == before_white(s@, s@.len() as int),
        r.0 <= s@.len(),
        r.1 <= s@.len(),
{
    let mut start: usize = 0;
    while start < s.len() && white(s[start])
        invariant
            start <= s@.len(),
            after_white(s@, 0) == after_white(s@, start as int),
        decreases s@.len() - start,
    {
        start = start + 1;
    }
    let mut end: usize = s.len();
    while end > 0 && white(s[end - 1])
        invariant
            end <= s@.len(),
            before_white(s@, s@.len() as int) == before_white(s@, end as int),
        decreases end,
    {
        end = end - 1;
    }
    (start, end)
}

/// [`trimmed`] of a text.
pub(crate) fn trim(s: &Vec<char>) -> (r: Vec<char>)
    ensures
        r@ == trimmed(s@),
{
    let (start, end) = trim_bounds(s);
    if start >= end {
        return Vec::new();
    }
    part(s, start, end)
}

/// [`trimmed`] of a text.
pub(crate) fn trim_text(text: &str) -> (r: String)
    ensures
        r@ == trimmed(text@),
{
    let (start, end) = trim_bounds(&chars_of(text));
    if start >= end {
        return String::new();
    }
    text.substring_char(start, end).to_owned()
}

/// What a list of texts is.
pub open spec fn text_views(texts: Seq<Vec<char>>) -> Seq<Seq<char>> {
    Seq::new(texts.len(), |i: int| texts[i]@)
}

/// Append the [`lines`] of a text.
pub(crate) fn push_lines(out: &mut Vec<Vec<char>>, s: &Vec<char>)
    ensures
        text_views(final(out)@) == text_views(old(out)@) + lines(s@),
{
    let ghost start = text_views(out@);
    let mut i: usize = 0;
    assert(start + lines_from(s@, 0) == start + lines(s@));
    while i < s.len()
        invariant
            i <= s@.len(),
            text_views(out@) + lines_from(s@, i as int) == start + lines(s@),
        decreases s@.len() - i,
    {
        let ghost before = text_views(out@);
        let mut end: usize = i;
        while end < s.len() && s[end] != '\n'
            invariant
                i <= end <= s@.len(),
                line_end(s@, i as int) == line_end(s@, end as int),
            decreases s@.len() - end,
        {
            end = end + 1;
        }
        let mut to: usize = end;
        if end < s.len() && i < end && s[end - 1] == '\r' {
            to = end - 1;
        }
        let line = part(s, i, to);
        proof {
            let body = s@.subrange(i as int, end as int);
            if end < s@.len() {
                if body.len() > 0 && body.last() == '\r' {
                    assert(without_return(body) =~= line@);
                } else {
                    assert(without_return(body) =~= line@);
                }
                assert(lines_from(s@, i as int) == seq![line@] + lines_from(s@, end + 1));
            } else {
                assert(lines_from(s@, i as int) == seq![line@]);
                assert(lines_from(s@, s@.len() as int) == Seq::<Seq<char>>::empty());
            }
        }
        let ghost found = line@;
        out.push(line);
        proof {
            assert(text_views(out@) =~= before.push(found));
            if end < s@.len() {
                assert(text_views(out@) + lines_from(s@, end + 1) =~= before + lines_from(
                    s@,
                    i as int,
                ));
            } else {
                assert(text_views(out@) + lines_from(s@, s@.len() as int) =~= before + lines_from(
                    s@,
                    i as int,
                ));
            }
        }
        if end < s.len() {
            i = end + 1;
        } else {
            i = end;
        }
    }
    assert(lines_from(s@, i as int) == Seq::<Seq<char>>::empty());
    assert(text_views(out@) =~= start + lines(s@));
}

/// Whether a text has a pattern at a place.
pub(crate) fn matches_at(s: &Vec<char>, pattern: &Vec<char>, i: usize) -> (r: bool)
    ensures
        r == has_at(s@, pattern@, i as int),
{
    if s.len() < pattern.len() || i > s.len() - pattern.len() {
        return false;
    }
    let count = s.len();
    let mut j: usize = 0;
    while j < pattern.len()
        invariant
            count == s@.len(),
            i + pattern@.len() <= count,
            j <= pattern@.len(),
            forall|k: int| 0 <= k < j ==> s@[i + k] == #[trigger] pattern@[k],
        decreases pattern@.len() - j,
    {
        if s[i + j] != pattern[j] {
            assert(s@.subrange(i as int, i + pattern@.len())[j as int] != pattern@[j as int]);
            return false;
        }
        j = j + 1;
    }
    assert(s@.subrange(i as int, i + pattern@.len()) =~= pattern@);
    true
}

/// Whether a text contains a pattern.
pub(crate) fn contains(s: &Vec<char>, pattern: &str) -> (r: bool)
    ensures
        r == has(s@, pattern@),
{
    let wanted = chars_of(pattern);
    let mut i: usize = 0;
    while i < s.len()
        invariant
            wanted@ == pattern@,
            i <= s@.len(),
            forall|k: int| 0 <= k < i ==> !#[trigger] has_at(s@, pattern@, k),
        decreases s@.len() - i,
    {
        if matches_at(s, &wanted, i) {
            return true;
        }
        i = i + 1;
    }
    matches_at(s, &wanted, i)
}

/// What follows a prefix of a text.
pub(crate) fn strip_prefix(s: &Vec<char>, prefix: &str) -> (r: Option<Vec<char>>)
    ensures
        r is Some <==> has_at(s@, prefix@, 0),
        r matches Some(rest) ==> rest@ == s@.skip(prefix@.len() as int),
{
    let wanted = chars_of(prefix);
    if !matches_at(s, &wanted, 0) {
        return None;
    }
    let rest = part(s, wanted.len(), s.len());
    assert(rest@ =~= s@.skip(prefix@.len() as int));
    Some(rest)
}

/// Place behind the last `c` before `end`; `None` where there is none.
fn find_last(s: &Vec<char>, c: char, end: usize) -> (r: Option<usize>)
    requires
        end <= s@.len(),
    ensures
        r matches Some(k) ==> last_place(s@, c, end as int) == k < end,
        r is None ==> last_place(s@, c, end as int) == -1,
{
    let mut i: usize = end;
    while i > 0
        invariant
            i <= end <= s@.len(),
            last_place(s@, c, end as int) == last_place(s@, c, i as int),
        decreases i,
    {
        if s[i - 1] == c {
            return Some(i - 1);
        }
        i = i - 1;
    }
    None
}

proof fn lemma_number_bound(s: Seq<char>, m: int, n: int)
    requires
        0 <= m <= n,
        all_digits(s, n),
    ensures
        0 <= number(s, m) <= number(s, n),
    decreases n,
{
    if m < n {
        lemma_number_bound(s, m, n - 1);
        assert('0' <= s[n - 1] <= '9');
    } else if n > 0 {
        lemma_number_bound(s, m - 1, n - 1);
        assert('0' <= s[n - 1] <= '9');
    }
}

/// [`parsed`] of a text.
pub(crate) fn parse_usize(s: &Vec<char>) -> (r: Option<usize>)
    ensures
        r == parsed(s@),
{
    let mut start: usize = 0;
    if s.len() > 0 && s[0] == '+' {
        start = 1;
    }
    let digits = part(s, start, s.len());
    let ghost n = digits@.len() as int;
    proof {
        if start == 1 {
            assert(digits@ =~= s@.skip(1));
        } else {
            assert(digits@ =~= s@);
        }
    }
    if digits.len() == 0 {
        return None;
    }
    let mut value: usize = 0;
    let mut i: usize = 0;
    while i < digits.len()
        invariant
            n == digits@.len() > 0,
            parsed(s@) == (if all_digits(digits@, n) && number(digits@, n) <= usize::MAX {
                Some(number(digits@, n) as usize)
            } else {
                None
            }),
            i <= n,
            all_digits(digits@, i as int),
            value == number(digits@, i as int),
        decreases n - i,
    {
        let c = digits[i];
        if c < '0' || c > '9' {
            assert(!('0' <= digits@[i as int] <= '9'));
            return None;
        }
        let d: usize = (c as u32 - '0' as u32) as usize;
        let ghost next = 10 * number(digits@, i as int) + d;
        assert(number(digits@, i + 1) == next);
        match value.checked_mul(10) {
            Some(tens) => match tens.checked_add(d) {
                Some(sum) => {
                    value = sum;
                },
                None => {
                    proof {
                        if all_digits(digits@, n) {
                            lemma_number_bound(digits@, i + 1, n);
                        }
                    }
                    return None;
                },
            },
            None => {
                proof {
                    if all_digits(digits@, n) {
                        lemma_number_bound(digits@, i + 1, n);
                    }
                }
                return None;
            },
        }
        i = i + 1;
    }
    Some(value)
}

/// The number of the field before the last colon of a location.
pub open spec fn location_line(s: Seq<char>) -> Option<usize> {
    let end = last_place(s, ':', s.len() as int);
    if end < 0 {
        None
    } else {
        let start = last_place(s, ':', end) + 1;
        parsed(s.subrange(start, end))
    }
}

/// [`location_line`] of a location.
pub(crate) fn source_line(location: &Vec<char>) -> (line: Option<usize>)
    ensures
        line == location_line(location@),
{
    match find_last(location, ':', location.len()) {
        None => None,
        Some(end) => {
            let start = match find_last(location, ':', end) {
                Some(k) => k + 1,
                None => 0,
            };
            parse_usize(&part(location, start, end))
        },
    }
}

} // verus!
