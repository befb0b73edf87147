//! Positions in a source text, and the numbers that name them.
//!
//! A position is named by numbers that count from one: a column alone, or a
//! line and a column with a colon between them. It is resolved to the number
//! of bytes that stand before it in the UTF-8 form of the text. Lines are
//! told apart by line feeds; a column counts characters within its line.

use vstd::prelude::*;
use vstd::utf8::{encode_scalar, encode_utf8};
use crate::text::{lemma_scan_while, other_than, scan_while, skip_to, to_chars, to_string};

verus! {

broadcast use vstd::utf8::char_is_scalar;

/// The class of decimal digits.
pub open spec fn digits() -> spec_fn(char) -> bool {
    |c: char| '0' <= c <= '9'
}

/// Where the number ends that begins at `i`: behind a hyphen at `i`, if there
/// is one, and the digits that follow.
pub open spec fn number_end(s: Seq<char>, i: int) -> int {
    if 0 <= i < s.len() && s[i] == '-' {
        scan_while(s, i + 1, digits())
    } else {
        scan_while(s, i, digits())
    }
}

/// The value of a decimal digit.
pub open spec fn digit(c: char) -> Option<int> {
    if '0' <= c <= '9' {
        Some(c as int - '0' as int)
    } else {
        None
    }
}

/// The number that a non-empty row of decimal digits writes.
pub open spec fn digits_value(d: Seq<char>) -> Option<int>
    decreases d.len(),
{
    if d.len() == 0 {
        None
    } else {
        match digit(d.last()) {
            None => None,
            Some(x) => if d.len() == 1 {
                Some(x)
            } else {
                match digits_value(d.drop_last()) {
                    Some(v) => Some(10 * v + x),
                    None => None,
                }
            },
        }
    }
}

/// The number that `t` writes: decimal digits, with a hyphen before them for
/// a negative number.
pub open spec fn decimal(t: Seq<char>) -> Option<int> {
    if t.len() > 0 && t[0] == '-' {
        match digits_value(t.skip(1)) {
            Some(v) => Some(-v),
            None => None,
        }
    } else {
        digits_value(t)
    }
}

/// The number that stands at `i`, if one stands there that a machine integer
/// holds. No number stands where no digit does, with or without a hyphen.
pub open spec fn number_at(s: Seq<char>, i: int) -> Option<int> {
    match decimal(s.subrange(i, number_end(s, i))) {
        Some(v) => if isize::MIN <= v <= isize::MAX {
            Some(v)
        } else {
            None
        },
        None => None,
    }
}

/// Where the line starts that is `n` lines behind the one that starts at
/// `from`, if the text has that many lines.
pub open spec fn line_start(s: Seq<char>, from: int, n: int) -> Option<int>
    decreases n,
{
    if n < 0 {
        None
    } else if n == 0 {
        Some(from)
    } else {
        let e = scan_while(s, from, other_than('\n'));
        if 0 <= from <= e < s.len() {
            line_start(s, e + 1, n - 1)
        } else {
            None
        }
    }
}

/// The position of the character at `column` of `line`, both counted from
/// zero. The column may be the one behind the last character of the line.
pub open spec fn char_position(s: Seq<char>, line: int, column: int) -> Option<int> {
    match line_start(s, 0, line) {
        Some(b) => if 0 <= column && b + column <= scan_while(s, b, other_than('\n')) {
            Some(b + column)
        } else {
            None
        },
        None => None,
    }
}

/// The number of bytes that the first `i` characters of `s` take up in UTF-8.
pub open spec fn byte_offset(s: Seq<char>, i: int) -> nat {
    encode_utf8(s.take(i)).len()
}

/// The number of bytes that `s` takes up in UTF-8.
pub open spec fn source_size(s: Seq<char>) -> nat {
    encode_utf8(s).len()
}

/// The byte offset of `column` of `line`, if the text has that line and the
/// line has that column.
pub open spec fn byte_position(s: Seq<char>, line: int, column: int) -> Option<nat> {
    match char_position(s, line, column) {
        Some(i) => Some(byte_offset(s, i)),
        None => None,
    }
}

/// A position that was read from a text: the byte offset that it resolves to,
/// and where its numbers end in the text.
pub struct Resolved {
    pub offset: nat,
    pub next: int,
}

/// The position that the numbers at `i` of `s` name in the source `src`,
/// whose reference line is `line`. A single number is a column of the
/// reference line. Two numbers with a colon between them are a line, counted
/// from the reference line, and a column.
pub open spec fn position_at(src: Seq<char>, line: int, s: Seq<char>, i: int) -> Option<Resolved> {
    match number_at(s, i) {
        None => None,
        Some(first) => {
            let j = number_end(s, i);
            if j < s.len() && s[j] == ':' {
                match number_at(s, j + 1) {
                    None => None,
                    Some(second) => match byte_position(src, line + first - 1, second - 1) {
                        Some(offset) => Some(Resolved { offset, next: number_end(s, j + 1) }),
                        None => None,
                    },
                }
            } else {
                match byte_position(src, line, first - 1) {
                    Some(offset) => Some(Resolved { offset, next: j }),
                    None => None,
                }
            }
        },
    }
}

/// A range that was read from a text: its two byte offsets, and where its
/// numbers end in the text.
pub struct ResolvedRange {
    pub start: nat,
    pub end: nat,
    pub next: int,
}

/// The range that `s` begins with: one position, or two with a hyphen
/// between them. One position alone is a range of no width. There is no
/// range where a position does not resolve, nor where the second position
/// lies before the first.
pub open spec fn range_at(src: Seq<char>, line: int, s: Seq<char>) -> Option<ResolvedRange> {
    match position_at(src, line, s, 0) {
        None => None,
        Some(a) => if a.next < s.len() && s[a.next] == '-' {
            match position_at(src, line, s, a.next + 1) {
                Some(b) => if a.offset <= b.offset {
                    Some(ResolvedRange { start: a.offset, end: b.offset, next: b.next })
                } else {
                    None
                },
                None => None,
            }
        } else {
            Some(ResolvedRange { start: a.offset, end: a.offset, next: a.next })
        },
    }
}

/// The UTF-8 form of two texts in a row is the two forms in a row.
pub proof fn lemma_encode_concat(a: Seq<char>, b: Seq<char>)
    ensures
        encode_utf8(a + b) == encode_utf8(a) + encode_utf8(b),
    decreases a.len(),
{
    if a.len() == 0 {
        assert(a + b == b);
        assert(encode_utf8(a) == Seq::<u8>::empty());
        assert(encode_utf8(a) + encode_utf8(b) == encode_utf8(b));
    } else {
        assert((a + b).drop_first() == a.drop_first() + b);
        lemma_encode_concat(a.drop_first(), b);
        assert(encode_scalar(a[0] as u32) + (encode_utf8(a.drop_first()) + encode_utf8(b)) == (
        encode_scalar(a[0] as u32) + encode_utf8(a.drop_first())) + encode_utf8(b));
    }
}

/// One character more takes up the bytes of its own UTF-8 form more.
pub proof fn lemma_offset_step(s: Seq<char>, i: int)
    requires
        0 <= i < s.len(),
    ensures
        byte_offset(s, i + 1) == byte_offset(s, i) + encode_scalar(s[i] as u32).len(),
        byte_offset(s, i + 1) <= encode_utf8(s).len(),
{
    assert(s.take(i + 1) == s.take(i) + seq![s[i]]);
    lemma_encode_concat(s.take(i), seq![s[i]]);
    assert(seq![s[i]].drop_first() == Seq::<char>::empty());
    assert(encode_utf8(seq![s[i]]) == encode_scalar(s[i] as u32) + encode_utf8(
        Seq::<char>::empty(),
    ));
    assert(encode_utf8(seq![s[i]]) == encode_scalar(s[i] as u32));
    assert(s == s.take(i + 1) + s.skip(i + 1));
    lemma_encode_concat(s.take(i + 1), s.skip(i + 1));
}

/// More digits behind a number do not make it less.
pub proof fn lemma_digits_grow(d: Seq<char>, k: int)
    requires
        0 < k <= d.len(),
        digits_value(d) is Some,
    ensures
        digits_value(d.take(k)) is Some,
        0 <= digits_value(d.take(k))->0 <= digits_value(d)->0,
    decreases d.len(),
{
    if k == d.len() {
        assert(d.take(k) == d);
        lemma_digits_nonnegative(d);
    } else {
        assert(d.drop_last().take(k) == d.take(k));
        lemma_digits_grow(d.drop_last(), k);
    }
}

/// A row of digits writes no negative number.
pub proof fn lemma_digits_nonnegative(d: Seq<char>)
    requires
        digits_value(d) is Some,
    ensures
        digits_value(d)->0 >= 0,
    decreases d.len(),
{
    if d.len() > 1 {
        lemma_digits_nonnegative(d.drop_last());
    }
}

/// A line that exists starts within the text.
pub proof fn lemma_line_start(s: Seq<char>, from: int, n: int)
    requires
        0 <= from <= s.len(),
        line_start(s, from, n) is Some,
    ensures
        from + n <= line_start(s, from, n)->0 <= s.len(),
    decreases n,
{
    if n > 0 {
        let e = scan_while(s, from, other_than('\n'));
        lemma_line_start(s, e + 1, n - 1);
    }
}

/// The number of bytes that `c` takes up in UTF-8.
pub fn utf8_width(c: char) -> (w: usize)
    ensures
        w == encode_scalar(c as u32).len(),
        1 <= w <= 4,
{
    let u = c as u32;
    if u <= 0x7F {
        1
    } else if u <= 0x7FF {
        2
    } else if u <= 0xFFFF {
        3
    } else {
        4
    }
}

/// The first position at or after `i` that holds no digit.
fn skip_digits(v: &Vec<char>, i: usize) -> (j: usize)
    requires
        i <= v.len(),
    ensures
        j == scan_while(v@, i as int, digits()),
        i <= j <= v.len(),
{
    let mut j: usize = i;
    while j < v.len() && '0' <= v[j] && v[j] <= '9'
        invariant
            i <= j <= v.len(),
            scan_while(v@, i as int, digits()) == scan_while(v@, j as int, digits()),
        decreases v.len() - j,
    {
        j += 1;
    }
    j
}

/// Reads the number that stands at `i`, and tells where it ends.
#[verifier::loop_isolation(false)]
pub fn read_number(s: &Vec<char>, i: usize) -> (r: (Option<isize>, usize))
    requires
        i <= s.len(),
    ensures
        r.1 == number_end(s@, i as int),
        i <= r.1 <= s.len(),
        match r.0 {
            Some(v) => number_at(s@, i as int) == Some(v as int),
            None => number_at(s@, i as int) is None,
        },
{
    let negative = i < s.len() && s[i] == '-';
    let start: usize = if negative {
        i + 1
    } else {
        i
    };
    let end = skip_digits(s, start);
    let ghost token = s@.subrange(i as int, end as int);
    let ghost row = s@.subrange(start as int, end as int);
    proof {
        lemma_scan_while(s@, start as int, digits());
        if negative {
            assert(token.skip(1) == row);
        } else {
            assert(token == row);
        }
    }
    if start == end {
        return (None, end);
    }
    let limit: u128 = if negative {
        isize::MAX as u128 + 1
    } else {
        isize::MAX as u128
    };
    let mut magnitude: u128 = 0;
    let mut k: usize = start;
    while k < end
        invariant
            start <= k <= end <= s.len(),
            magnitude <= limit <= 0x8000_0000_0000_0000,
            k > start ==> digits_value(row.take(k - start)) == Some(magnitude as int),
            k == start ==> magnitude == 0,
        decreases end - k,
    {
        let c = s[k];
        assert(digits()(s@[k as int]));
        let x: u128 = (c as u32 - '0' as u32) as u128;
        let ghost upto = row.take(k + 1 - start);
        assert(upto.drop_last() == row.take(k - start));
        assert(upto.last() == c);
        magnitude = magnitude * 10 + x;
        assert(digits_value(upto) == Some(magnitude as int));
        if magnitude > limit {
            proof {
                if digits_value(row) is Some {
                    lemma_digits_grow(row, k + 1 - start);
                }
            }
            return (None, end);
        }
        k += 1;
    }
    assert(row.take(end - start) == row);
    let value: isize = if negative {
        (-(magnitude as i128)) as isize
    } else {
        magnitude as isize
    };
    (Some(value), end)
}

/// A source text whose positions can be resolved.
pub struct Source {
    text: Vec<char>,
}

impl View for Source {
    type V = Seq<char>;

    closed spec fn view(&self) -> Seq<char> {
        self.text@
    }
}

impl Source {
    #[verifier::type_invariant]
    spec fn fits(self) -> bool {
        encode_utf8(self.text@).len() <= usize::MAX
    }

    /// The source that holds `text`.
    pub fn new(text: &str) -> (r: Source)
        ensures
            r@ == text@,
    {
        let bytes = text.as_bytes();
        let size: usize = bytes.len();
        assert(encode_utf8(text@).len() == size);
        Source { text: to_chars(text) }
    }

    /// The text of the source.
    pub fn text(&self) -> (r: String)
        ensures
            r@ == self@,
    {
        to_string(&self.text)
    }

    /// The characters of the source.
    pub fn chars(&self) -> (r: &Vec<char>)
        ensures
            r@ == self@,
    {
        &self.text
    }

    /// The byte offset of `column` of `line`, both counted from zero. There is
    /// none where the source has no such line, or the line no such column.
    #[verifier::loop_isolation(false)]
    pub fn line_column_to_byte(&self, line: usize, column: usize) -> (r: Option<usize>)
        ensures
            match r {
                Some(b) => byte_position(self@, line as int, column as int) == Some(b as nat) && b
                    <= source_size(self@),
                None => byte_position(self@, line as int, column as int) is None,
            },
    {
        proof {
            use_type_invariant(self);
        }
        let s = &self.text;
        let mut i: usize = 0;
        let mut bytes: usize = 0;
        let mut n: usize = line;
        while n > 0
            invariant
                i <= s.len(),
                bytes == byte_offset(s@, i as int),
                bytes <= encode_utf8(s@).len(),
                line_start(s@, 0, line as int) == line_start(s@, i as int, n as int),
                encode_utf8(s@).len() <= usize::MAX,
            decreases n,
        {
            let ghost from = i;
            while i < s.len() && s[i] != '\n'
                invariant
                    from <= i <= s.len(),
                    bytes == byte_offset(s@, i as int),
                    bytes <= encode_utf8(s@).len(),
                bytes <= encode_utf8(s@).len(),
                    encode_utf8(s@).len() <= usize::MAX,
                    scan_while(s@, from as int, other_than('\n')) == scan_while(
                        s@,
                        i as int,
                        other_than('\n'),
                    ),
                decreases s.len() - i,
            {
                proof {
                    lemma_offset_step(s@, i as int);
                }
                bytes += utf8_width(s[i]);
                i += 1;
            }
            if i >= s.len() {
                return None;
            }
            proof {
                lemma_offset_step(s@, i as int);
            }
            bytes += utf8_width(s[i]);
            i += 1;
            n -= 1;
        }
        let e = skip_to(s, i, '\n');
        if column > e - i {
            return None;
        }
        let ghost from = i;
        let mut k: usize = 0;
        while k < column
            invariant
                k <= column <= e - from,
                e <= s.len(),
                i == from + k,
                bytes == byte_offset(s@, i as int),
                bytes <= encode_utf8(s@).len(),
                encode_utf8(s@).len() <= usize::MAX,
            decreases column - k,
        {
            proof {
                lemma_offset_step(s@, i as int);
            }
            bytes += utf8_width(s[i]);
            i += 1;
            k += 1;
        }
        Some(bytes)
    }
}

/// A position that was read and resolved.
pub struct Place {
    /// The byte offset of the position.
    pub offset: usize,
    /// Where its numbers end in the text that they were read from.
    pub next: usize,
}

/// Reads the position that the numbers at `i` of `s` name in `src`, whose
/// reference line is `line`.
pub fn read_position(src: &Source, line: usize, s: &Vec<char>, i: usize) -> (r: Option<Place>)
    requires
        i <= s.len(),
    ensures
        match r {
            Some(p) => position_at(src@, line as int, s@, i as int) == Some(
                (Resolved { offset: p.offset as nat, next: p.next as int }),
            ) && i <= p.next <= s.len() && p.offset <= source_size(src@),
            None => position_at(src@, line as int, s@, i as int) is None,
        },
{
    let (first, j) = read_number(s, i);
    let first: i128 = match first {
        Some(v) => v as i128,
        None => {
            return None;
        },
    };
    let (at_line, at_column, next): (i128, i128, usize) = if j < s.len() && s[j] == ':' {
        let (second, k) = read_number(s, j + 1);
        match second {
            Some(v) => (line as i128 + first - 1, v as i128 - 1, k),
            None => {
                return None;
            },
        }
    } else {
        (line as i128, first - 1, j)
    };
    proof {
        if char_position(src@, at_line as int, at_column as int) is Some {
            lemma_line_start(src@, 0, at_line as int);
            lemma_scan_while(src@, line_start(src@, 0, at_line as int)->0, other_than('\n'));
        }
    }
    if at_line < 0 || at_column < 0 || at_line > usize::MAX as i128 || at_column
        > usize::MAX as i128 {
        proof {
            use_type_invariant(src);
            lemma_text_fits(src@);
        }
        return None;
    }
    match src.line_column_to_byte(at_line as usize, at_column as usize) {
        Some(offset) => Some(Place { offset, next }),
        None => None,
    }
}

/// A text has at most as many characters as its UTF-8 form has bytes.
pub proof fn lemma_text_fits(s: Seq<char>)
    ensures
        s.len() <= encode_utf8(s).len(),
    decreases s.len(),
{
    if s.len() > 0 {
        lemma_text_fits(s.drop_first());
    }
}

/// A range that was read and resolved.
pub struct Span {
    /// The byte offset at which the range starts.
    pub start: usize,
    /// The byte offset at which it ends.
    pub end: usize,
    /// Where its numbers end in the text that they were read from.
    pub next: usize,
}

/// Reads the range that `s` begins with.
pub fn read_range(src: &Source, line: usize, s: &Vec<char>) -> (r: Option<Span>)
    ensures
        match r {
            Some(x) => range_at(src@, line as int, s@) == Some(
                (ResolvedRange { start: x.start as nat, end: x.end as nat, next: x.next as int }),
            ) && x.start <= x.end <= source_size(src@) && x.next <= s.len(),
            None => range_at(src@, line as int, s@) is None,
        },
{
    let a = match read_position(src, line, s, 0) {
        Some(a) => a,
        None => {
            return None;
        },
    };
    if a.next < s.len() && s[a.next] == '-' {
        match read_position(src, line, s, a.next + 1) {
            Some(b) => if a.offset <= b.offset {
                Some(Span { start: a.offset, end: b.offset, next: b.next })
            } else {
                None
            },
            None => None,
        }
    } else {
        Some(Span { start: a.offset, end: a.offset, next: a.next })
    }
}

} // verus!
