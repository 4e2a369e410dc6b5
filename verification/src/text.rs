//! Texts as strings of bytes: white space, lines, parts and numbers.
//!
//! A text is the UTF-8 form of a string. White space is what Unicode calls
//! so, and its characters take one, two or three bytes.

use crate::ascii::{
    CARRIAGE_RETURN, DIGIT_0, DIGIT_9, LINE_FEED, MINUS, PLUS, SPACE, TAB,
};
use crate::layer::rows_of;
use vstd::prelude::*;

verus! {

/// Whether the three bytes are a white-space character of three bytes:
/// U+1680, U+2000 to U+200A, U+2028, U+2029, U+202F, U+205F or U+3000.
pub open spec fn wide_space(a: u8, b: u8, c: u8) -> bool {
    ||| a == 0xE1 && b == 0x9A && c == 0x80
    ||| a == 0xE2 && b == 0x80 && (0x80 <= c <= 0x8A || c == 0xA8 || c == 0xA9 || c == 0xAF)
    ||| a == 0xE2 && b == 0x81 && c == 0x9F
    ||| a == 0xE3 && b == 0x80 && c == 0x80
}

/// The number of bytes of the white-space character that starts at place
/// `i`, or 0 where none starts there. The characters of one byte are the
/// space and U+0009 to U+000D; those of two bytes are U+0085 and U+00A0.
pub open spec fn space_len(s: Seq<u8>, i: int) -> int {
    if i < 0 || i >= s.len() {
        0
    } else if s[i] == SPACE || TAB <= s[i] <= CARRIAGE_RETURN {
        1
    } else if i + 1 < s.len() && s[i] == 0xC2 && (s[i + 1] == 0x85 || s[i + 1] == 0xA0) {
        2
    } else if i + 2 < s.len() && wide_space(s[i], s[i + 1], s[i + 2]) {
        3
    } else {
        0
    }
}

/// The first place at or after `from` where no white space starts.
pub open spec fn ink_start(s: Seq<u8>, from: int) -> int
    decreases s.len() - from,
{
    if space_len(s, from) == 0 {
        from
    } else {
        ink_start(s, from + space_len(s, from))
    }
}

/// The number of bytes of the white-space character that ends before place
/// `to` and starts at `lo` or later, or 0 where there is none.
pub open spec fn space_before(s: Seq<u8>, lo: int, to: int) -> int {
    if lo <= to - 1 && space_len(s, to - 1) == 1 {
        1
    } else if lo <= to - 2 && space_len(s, to - 2) == 2 {
        2
    } else if lo <= to - 3 && space_len(s, to - 3) == 3 {
        3
    } else {
        0
    }
}

/// The last place at or before `to` before which no white space ends that
/// starts at `lo` or later.
pub open spec fn ink_end(s: Seq<u8>, lo: int, to: int) -> int
    decreases to - lo,
{
    if space_before(s, lo, to) == 0 {
        to
    } else {
        ink_end(s, lo, to - space_before(s, lo, to))
    }
}

/// The text without the white space at its start and at its end.
pub open spec fn trim(s: Seq<u8>) -> Seq<u8> {
    let lo = ink_start(s, 0);
    s.subrange(lo, ink_end(s, lo, s.len() as int))
}

/// The first place at or after `from` that holds a line feed, or the length
/// of `s` where there is none.
pub open spec fn line_end(s: Seq<u8>, from: int) -> int
    decreases s.len() - from,
{
    if from >= s.len() || s[from] == LINE_FEED {
        from
    } else {
        line_end(s, from + 1)
    }
}

/// The line without the carriage return at its end, if it has one.
pub open spec fn strip_cr(line: Seq<u8>) -> Seq<u8> {
    if line.len() > 0 && line.last() == CARRIAGE_RETURN {
        line.drop_last()
    } else {
        line
    }
}

/// The lines of the text from `from` on. A line ends at a line feed, or at a
/// carriage return that a line feed follows; neither belongs to the line.
/// The text after the last line feed is a line if it is not empty.
pub open spec fn lines_from(s: Seq<u8>, from: int) -> Seq<Seq<u8>>
    decreases s.len() - from,
{
    let end = line_end(s, from);
    if from < 0 || from >= s.len() || end < from {
        Seq::empty()
    } else if end >= s.len() {
        seq![s.subrange(from, s.len() as int)]
    } else {
        seq![strip_cr(s.subrange(from, end))] + lines_from(s, end + 1)
    }
}

/// The lines of the text.
pub open spec fn lines(s: Seq<u8>) -> Seq<Seq<u8>> {
    lines_from(s, 0)
}

/// Whether `mark` stands at place `i` of the text.
pub open spec fn stands_at(s: Seq<u8>, mark: Seq<u8>, i: int) -> bool {
    0 <= i && i + mark.len() <= s.len() && s.subrange(i, i + mark.len()) == mark
}

/// The first place at or after `from` where `mark` stands, or the length of
/// the text where it stands nowhere. An empty mark stands nowhere.
pub open spec fn find(s: Seq<u8>, mark: Seq<u8>, from: int) -> int
    decreases s.len() - from,
{
    if mark.len() == 0 || from < 0 || from + mark.len() > s.len() {
        s.len() as int
    } else if stands_at(s, mark, from) {
        from
    } else {
        find(s, mark, from + 1)
    }
}

/// The parts of the text from `from` on that the mark separates. The marks
/// are looked for from left to right and do not overlap. A text in which a
/// non-empty mark stands `n` times has `n + 1` parts.
pub open spec fn split_from(s: Seq<u8>, mark: Seq<u8>, from: int) -> Seq<Seq<u8>>
    decreases s.len() - from,
{
    let at = find(s, mark, from);
    if mark.len() == 0 || from < 0 || from > s.len() || at < from || at + mark.len() > s.len() {
        seq![s.subrange(from, s.len() as int)]
    } else {
        seq![s.subrange(from, at)] + split_from(s, mark, at + mark.len())
    }
}

/// The parts of the text that the mark separates.
pub open spec fn split(s: Seq<u8>, mark: Seq<u8>) -> Seq<Seq<u8>> {
    split_from(s, mark, 0)
}

/// Whether every byte is a digit.
pub open spec fn all_digits(s: Seq<u8>) -> bool {
    forall|i: int| 0 <= i < s.len() ==> DIGIT_0 <= #[trigger] s[i] <= DIGIT_9
}

/// The number that the digits stand for in base ten.
pub open spec fn digits_value(s: Seq<u8>) -> int
    decreases s.len(),
{
    if s.len() == 0 {
        0
    } else {
        10 * digits_value(s.drop_last()) + (s.last() - DIGIT_0)
    }
}

/// The integer that the text stands for: one digit or more, after a plus or
/// a minus sign or after none.
pub open spec fn number(s: Seq<u8>) -> Option<int> {
    let signed = s.len() > 0 && (s[0] == MINUS || s[0] == PLUS);
    let digits = if signed {
        s.drop_first()
    } else {
        s
    };
    if digits.len() == 0 || !all_digits(digits) {
        None
    } else if signed && s[0] == MINUS {
        Some(-digits_value(digits))
    } else {
        Some(digits_value(digits))
    }
}

/// The integer that the text stands for, if it is one of 32 bits.
pub open spec fn number_i32(s: Seq<u8>) -> Option<i32> {
    match number(s) {
        Some(v) => if i32::MIN <= v <= i32::MAX {
            Some(v as i32)
        } else {
            None
        },
        None => None,
    }
}

/// The bytes of `s` from `lo` up to `hi`.
pub fn part(s: &[u8], lo: usize, hi: usize) -> (t: Vec<u8>)
    requires
        lo <= hi <= s.len(),
    ensures
        t@ == s@.subrange(lo as int, hi as int),
{
    let mut t: Vec<u8> = Vec::new();
    let mut i: usize = lo;
    while i < hi
        invariant
            lo <= i <= hi <= s.len(),
            t@ == s@.subrange(lo as int, i as int),
        decreases hi - i,
    {
        t.push(s[i]);
        i += 1;
        assert(t@ =~= s@.subrange(lo as int, i as int));
    }
    t
}

/// The number of bytes of the white-space character that starts at place
/// `i`, or 0 where none starts there.
pub fn space_at(s: &[u8], i: usize) -> (k: usize)
    ensures
        k == space_len(s@, i as int),
        i + k <= s.len() || k == 0,
{
    let n = s.len();
    if i >= n {
        return 0;
    }
    let a = s[i];
    if a == SPACE || (TAB <= a && a <= CARRIAGE_RETURN) {
        return 1;
    }
    if n - i >= 2 {
        let b = s[i + 1];
        if a == 0xC2 && (b == 0x85 || b == 0xA0) {
            return 2;
        }
        if n - i >= 3 {
            let c = s[i + 2];
            if (a == 0xE1 && b == 0x9A && c == 0x80) || (a == 0xE2 && b == 0x80 && ((0x80 <= c
                && c <= 0x8A) || c == 0xA8 || c == 0xA9 || c == 0xAF)) || (a == 0xE2 && b == 0x81
                && c == 0x9F) || (a == 0xE3 && b == 0x80 && c == 0x80) {
                return 3;
            }
        }
    }
    0
}

/// The number of bytes of the white-space character that ends before place
/// `to` and starts at `lo` or later, or 0 where there is none.
fn space_ending(s: &[u8], lo: usize, to: usize) -> (k: usize)
    requires
        lo <= to <= s.len(),
    ensures
        k == space_before(s@, lo as int, to as int),
        lo + k <= to,
{
    if to - lo >= 1 && space_at(s, to - 1) == 1 {
        1
    } else if to - lo >= 2 && space_at(s, to - 2) == 2 {
        2
    } else if to - lo >= 3 && space_at(s, to - 3) == 3 {
        3
    } else {
        0
    }
}

/// The text without the white space at its start and at its end.
pub fn trimmed(s: &[u8]) -> (t: Vec<u8>)
    ensures
        t@ == trim(s@),
{
    let n = s.len();
    let mut lo: usize = 0;
    let mut k = space_at(s, lo);
    while k != 0
        invariant
            lo <= n,
            n == s.len(),
            k == space_len(s@, lo as int),
            lo + k <= n,
            ink_start(s@, 0) == ink_start(s@, lo as int),
        decreases n - lo,
    {
        lo += k;
        k = space_at(s, lo);
    }
    let mut hi: usize = n;
    let mut k = space_ending(s, lo, hi);
    while k != 0
        invariant
            lo <= hi <= n,
            n == s.len(),
            k == space_before(s@, lo as int, hi as int),
            lo + k <= hi,
            ink_end(s@, lo as int, n as int) == ink_end(s@, lo as int, hi as int),
        decreases hi - lo,
    {
        hi -= k;
        k = space_ending(s, lo, hi);
    }
    part(s, lo, hi)
}

/// The lines of the text.
pub fn split_lines(s: &[u8]) -> (ls: Vec<Vec<u8>>)
    ensures
        rows_of(ls) == lines(s@),
{
    let n = s.len();
    let mut ls: Vec<Vec<u8>> = Vec::new();
    let mut from: usize = 0;
    assert(rows_of(ls) + lines_from(s@, 0) =~= lines(s@));
    while from < n
        invariant
            from <= n,
            n == s.len(),
            lines(s@) == rows_of(ls) + lines_from(s@, from as int),
        decreases n - from,
    {
        let mut end: usize = from;
        while end < n && s[end] != LINE_FEED
            invariant
                from <= end <= n,
                n == s.len(),
                line_end(s@, from as int) == line_end(s@, end as int),
            decreases n - end,
        {
            end += 1;
        }
        let ghost done = rows_of(ls);
        if end < n {
            let stop = if end > from && s[end - 1] == CARRIAGE_RETURN {
                end - 1
            } else {
                end
            };
            let line = part(s, from, stop);
            assert(line@ =~= strip_cr(s@.subrange(from as int, end as int)));
            ls.push(line);
            assert(rows_of(ls) =~= done + seq![line@]);
            assert(done + (seq![line@] + lines_from(s@, end + 1)) =~= done + seq![line@]
                + lines_from(s@, end + 1));
            from = end + 1;
        } else {
            let line = part(s, from, n);
            ls.push(line);
            assert(rows_of(ls) =~= done + seq![line@]);
            assert(lines_from(s@, n as int) =~= Seq::<Seq<u8>>::empty());
            from = n;
        }
    }
    assert(lines_from(s@, n as int) =~= Seq::<Seq<u8>>::empty());
    assert(rows_of(ls) + Seq::<Seq<u8>>::empty() =~= rows_of(ls));
    ls
}

/// Whether `mark` stands at place `i` of the text.
fn mark_at(s: &[u8], mark: &[u8], i: usize) -> (b: bool)
    requires
        i + mark.len() <= s.len(),
    ensures
        b == stands_at(s@, mark@, i as int),
{
    let m = mark.len();
    let mut k: usize = 0;
    while k < m
        invariant
            k <= m,
            m == mark.len(),
            i + m <= s.len(),
            forall|j: int| 0 <= j < k ==> s@[i + j] == mark@[j],
        decreases m - k,
    {
        if s[i + k] != mark[k] {
            assert(s@.subrange(i as int, i + m)[k as int] != mark@[k as int]);
            return false;
        }
        k += 1;
    }
    assert(s@.subrange(i as int, i + m) =~= mark@);
    true
}

/// The first place at or after `from` where `mark` stands, or the length of
/// the text where it stands nowhere.
pub fn find_mark(s: &[u8], mark: &[u8], from: usize) -> (at: usize)
    requires
        from <= s.len(),
    ensures
        at == find(s@, mark@, from as int),
        from <= at <= s.len(),
        at < s.len() ==> at + mark.len() <= s.len(),
{
    let n = s.len();
    let m = mark.len();
    if m == 0 || m > n {
        return n;
    }
    let mut i: usize = from;
    while i <= n - m
        invariant
            from <= i <= n,
            0 < m <= n,
            n == s.len(),
            m == mark.len(),
            find(s@, mark@, from as int) == find(s@, mark@, i as int),
        decreases n - i,
    {
        if mark_at(s, mark, i) {
            return i;
        }
        i += 1;
    }
    n
}

/// The parts of the text that the mark separates.
pub fn split_at_marks(s: &[u8], mark: &[u8]) -> (parts: Vec<Vec<u8>>)
    ensures
        rows_of(parts) == split(s@, mark@),
{
    let n = s.len();
    let m = mark.len();
    let mut parts: Vec<Vec<u8>> = Vec::new();
    if m == 0 {
        parts.push(part(s, 0, n));
        assert(rows_of(parts) =~= seq![s@.subrange(0, n as int)]);
        return parts;
    }
    let mut from: usize = 0;
    assert(rows_of(parts) + split_from(s@, mark@, 0) =~= split(s@, mark@));
    loop
        invariant_except_break
            from <= n,
            n == s.len(),
            m == mark.len(),
            m > 0,
            split(s@, mark@) == rows_of(parts) + split_from(s@, mark@, from as int),
        ensures
            rows_of(parts) == split(s@, mark@),
        decreases n - from,
    {
        let at = find_mark(s, mark, from);
        let ghost done = rows_of(parts);
        if at >= n {
            let last = part(s, from, n);
            parts.push(last);
            assert(rows_of(parts) =~= done + seq![last@]);
            break ;
        }
        let piece = part(s, from, at);
        parts.push(piece);
        assert(rows_of(parts) =~= done + seq![piece@]);
        assert(done + (seq![piece@] + split_from(s@, mark@, at + m)) =~= done + seq![piece@]
            + split_from(s@, mark@, at + m));
        from = at + m;
    }
    parts
}

/// The digits of a longer text stand for no less than its first digits.
proof fn lemma_digits_grow(s: Seq<u8>, n: int, m: int)
    requires
        all_digits(s),
        0 <= n <= m <= s.len(),
    ensures
        0 <= digits_value(s.take(n)) <= digits_value(s.take(m)),
    decreases m,
{
    if m == 0 {
        assert(s.take(0) =~= Seq::<u8>::empty());
    } else {
        assert(s.take(m).drop_last() =~= s.take(m - 1));
        assert(DIGIT_0 <= s[m - 1] <= DIGIT_9);
        lemma_digits_grow(s, 0, m - 1);
        if n < m {
            lemma_digits_grow(s, n, m - 1);
        }
    }
}

/// The integer that the text stands for, if it is one of 32 bits.
pub fn parse_i32(s: &[u8]) -> (r: Option<i32>)
    ensures
        r == number_i32(s@),
{
    let n = s.len();
    if n == 0 {
        return None;
    }
    let negative = s[0] == MINUS;
    let first: usize = if s[0] == MINUS || s[0] == PLUS {
        1
    } else {
        0
    };
    let ghost digits = s@.subrange(first as int, n as int);
    assert(first == 1 ==> digits =~= s@.drop_first());
    assert(first == 0 ==> digits =~= s@);
    if first == n {
        return None;
    }
    let ghost want = if !all_digits(digits) {
        None
    } else if negative {
        Some(-digits_value(digits))
    } else {
        Some(digits_value(digits))
    };
    assert(number(s@) == want);
    let mut value: i64 = 0;
    let mut i: usize = first;
    assert(digits.take(0) =~= Seq::<u8>::empty());
    while i < n
        invariant
            first <= i <= n,
            n == s.len(),
            digits == s@.subrange(first as int, n as int),
            number(s@) == want,
            want == if !all_digits(digits) {
                None
            } else if negative {
                Some(-digits_value(digits))
            } else {
                Some(digits_value(digits))
            },
            all_digits(digits.take(i - first)),
            value == digits_value(digits.take(i - first)),
            0 <= value <= 0x8000_0000,
        decreases n - i,
    {
        let d = s[i];
        assert(d == digits[i - first]);
        if d < DIGIT_0 || d > DIGIT_9 {
            assert(!all_digits(digits));
            return None;
        }
        let ghost before = digits.take(i - first);
        let ghost after = digits.take(i - first + 1);
        assert(after.drop_last() =~= before);
        assert(all_digits(after)) by {
            assert forall|k: int| 0 <= k < after.len() implies DIGIT_0 <= #[trigger] after[k]
                <= DIGIT_9 by {
                if k < before.len() {
                    assert(after[k] == before[k]);
                }
            }
        }
        value = 10 * value + (d - DIGIT_0) as i64;
        assert(value == digits_value(after));
        if value > 0x8000_0000 {
            proof {
                if all_digits(digits) {
                    lemma_digits_grow(digits, i - first + 1, digits.len() as int);
                    assert(digits.take(digits.len() as int) =~= digits);
                    assert(digits_value(digits) > 0x8000_0000);
                }
            }
            return None;
        }
        i += 1;
    }
    assert(digits.take(n - first) =~= digits);
    if negative {
        Some((-value) as i32)
    } else if value == 0x8000_0000 {
        None
    } else {
        Some(value as i32)
    }
}

} // verus!
