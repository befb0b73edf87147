//! Character sequences: the model in which all text of this library is read,
//! and the scanning primitives that the parsers are built from.
//!
//! A text is a `Seq<char>`; a position in it is an index between 0 and its
//! length. Executable functions work on `Vec<char>` and state their results
//! over the sequence that the vector holds.

use vstd::prelude::*;

verus! {

/// Whether `c` is white space: one of the characters that Unicode gives the
/// property `White_Space`.
pub open spec fn is_space(c: char) -> bool {
    let u = c as u32;
    ||| 0x09 <= u <= 0x0D
    ||| u == 0x20
    ||| u == 0x85
    ||| u == 0xA0
    ||| u == 0x1680
    ||| 0x2000 <= u <= 0x200A
    ||| u == 0x2028
    ||| u == 0x2029
    ||| u == 0x202F
    ||| u == 0x205F
    ||| u == 0x3000
}

/// `String::push` appends the character to the end of the string: the string
/// holds what it held, and the character behind it.
pub assume_specification[ String::push ](s: &mut String, c: char)
    ensures
        final(s)@ == old(s)@.push(c),
;

/// The class of white space characters.
pub open spec fn space() -> spec_fn(char) -> bool {
    |c: char| is_space(c)
}

/// The class of characters that are not white space.
pub open spec fn non_space() -> spec_fn(char) -> bool {
    |c: char| !is_space(c)
}

/// The class of all characters but `x`.
pub open spec fn other_than(x: char) -> spec_fn(char) -> bool {
    |c: char| c != x
}

/// The class that holds `x` alone.
pub open spec fn only(x: char) -> spec_fn(char) -> bool {
    |c: char| c == x
}

/// The first position at or after `i` whose character is not in the class `p`,
/// or the length of `s` if there is none.
pub open spec fn scan_while(s: Seq<char>, i: int, p: spec_fn(char) -> bool) -> int
    decreases s.len() - i,
{
    if 0 <= i < s.len() && p(s[i]) {
        scan_while(s, i + 1, p)
    } else {
        i
    }
}

/// The least `n' <= n` such that all of `s[n'..n]` is in the class `p`.
pub open spec fn scan_back(s: Seq<char>, n: int, p: spec_fn(char) -> bool) -> int
    decreases n,
{
    if 0 < n <= s.len() && p(s[n - 1]) {
        scan_back(s, n - 1, p)
    } else {
        n
    }
}

/// Whether `pat` stands in `s` at position `i`.
pub open spec fn at(s: Seq<char>, i: int, pat: Seq<char>) -> bool {
    0 <= i && i + pat.len() <= s.len() && s.subrange(i, i + pat.len()) == pat
}

/// The first position at or after `i` at which `pat` stands, or the length of
/// `s` if there is none.
pub open spec fn find_from(s: Seq<char>, i: int, pat: Seq<char>) -> int
    decreases s.len() - i,
{
    if i < 0 || i >= s.len() {
        s.len() as int
    } else if at(s, i, pat) {
        i
    } else {
        find_from(s, i + 1, pat)
    }
}

/// Whether `pat` stands anywhere in `s`.
pub open spec fn occurs(s: Seq<char>, pat: Seq<char>) -> bool {
    exists|i: int| at(s, i, pat)
}

/// `s` without the white space at its two ends.
pub open spec fn trim(s: Seq<char>) -> Seq<char> {
    let a = scan_while(s, 0, space());
    let b = scan_back(s, s.len() as int, space());
    if a < b {
        s.subrange(a, b)
    } else {
        Seq::empty()
    }
}

/// The pieces of `s` from position `i` on, cut at each `sep`.
pub open spec fn split_from(s: Seq<char>, i: int, sep: char) -> Seq<Seq<char>>
    decreases s.len() - i,
{
    let e = scan_while(s, i, other_than(sep));
    if 0 <= i <= e < s.len() {
        seq![s.subrange(i, e)] + split_from(s, e + 1, sep)
    } else if 0 <= i <= s.len() {
        seq![s.subrange(i, s.len() as int)]
    } else {
        Seq::empty()
    }
}

/// The pieces of `s`, cut at each `sep`: one more piece than there are
/// separators.
pub open spec fn split(s: Seq<char>, sep: char) -> Seq<Seq<char>> {
    split_from(s, 0, sep)
}

/// The pieces put together again with `sep` between them.
pub open spec fn join(ls: Seq<Seq<char>>, sep: char) -> Seq<char>
    decreases ls.len(),
{
    if ls.len() == 0 {
        Seq::empty()
    } else if ls.len() == 1 {
        ls[0]
    } else {
        join(ls.drop_last(), sep).push(sep) + ls.last()
    }
}

/// `l` without a carriage return at its end.
pub open spec fn chomp(l: Seq<char>) -> Seq<char> {
    if l.len() > 0 && l.last() == '\r' {
        l.drop_last()
    } else {
        l
    }
}

/// The lines of `s`. A line ends at a line feed, or at a carriage return
/// directly before one; the last line need not be ended, and nothing follows
/// the last line end.
pub open spec fn lines(s: Seq<char>) -> Seq<Seq<char>> {
    let p = split(s, '\n');
    let n = p.len() - 1;
    let ended = Seq::new(n as nat, |k: int| chomp(p[k]));
    if n >= 0 && p[n].len() > 0 {
        ended.push(p[n])
    } else {
        ended
    }
}

/// `s` with each occurrence of `pat` from position `i` on replaced by `with`,
/// taking occurrences from the left and never overlapping.
pub open spec fn replace_from(s: Seq<char>, i: int, pat: Seq<char>, with: Seq<char>) -> Seq<char>
    decreases s.len() - i,
{
    if i < 0 || i >= s.len() || pat.len() == 0 {
        Seq::empty()
    } else if at(s, i, pat) {
        with + replace_from(s, i + pat.len(), pat, with)
    } else {
        seq![s[i]] + replace_from(s, i + 1, pat, with)
    }
}

/// `s` with each occurrence of the non-empty `pat` replaced by `with`; an
/// empty `pat` leaves `s` as it is.
pub open spec fn replace(s: Seq<char>, pat: Seq<char>, with: Seq<char>) -> Seq<char> {
    if pat.len() == 0 {
        s
    } else {
        replace_from(s, 0, pat, with)
    }
}

/// What each vector of a list holds.
pub open spec fn views(ls: Seq<Vec<char>>) -> Seq<Seq<char>> {
    Seq::new(ls.len(), |k: int| ls[k]@)
}

/// A scan stays within the text, passes only characters of the class, and
/// stops at the end or before a character outside the class.
pub proof fn lemma_scan_while(s: Seq<char>, i: int, p: spec_fn(char) -> bool)
    requires
        0 <= i <= s.len(),
    ensures
        i <= scan_while(s, i, p) <= s.len(),
        forall|k: int| i <= k < scan_while(s, i, p) ==> p(#[trigger] s[k]),
        scan_while(s, i, p) < s.len() ==> !p(s[scan_while(s, i, p)]),
    decreases s.len() - i,
{
    if i < s.len() && p(s[i]) {
        lemma_scan_while(s, i + 1, p);
    }
}

/// A backward scan stays within the text, passes only characters of the
/// class, and stops at the start or behind a character outside the class.
pub proof fn lemma_scan_back(s: Seq<char>, n: int, p: spec_fn(char) -> bool)
    requires
        0 <= n <= s.len(),
    ensures
        0 <= scan_back(s, n, p) <= n,
        forall|k: int| scan_back(s, n, p) <= k < n ==> p(#[trigger] s[k]),
        scan_back(s, n, p) > 0 ==> !p(s[scan_back(s, n, p) - 1]),
    decreases n,
{
    if 0 < n && p(s[n - 1]) {
        lemma_scan_back(s, n - 1, p);
    }
}

/// A search ends at an occurrence or at the end, and passes no occurrence.
pub proof fn lemma_find_from(s: Seq<char>, i: int, pat: Seq<char>)
    requires
        0 <= i <= s.len(),
    ensures
        i <= find_from(s, i, pat) <= s.len(),
        find_from(s, i, pat) < s.len() ==> at(s, find_from(s, i, pat), pat),
        forall|k: int| i <= k < find_from(s, i, pat) ==> !at(s, k, pat),
    decreases s.len() - i,
{
    if i < s.len() && !at(s, i, pat) {
        lemma_find_from(s, i + 1, pat);
    }
}

/// A position that the scan could end at is where it ends: all before it is
/// of the class, and it is the end or holds a character outside the class.
pub proof fn lemma_scan_stops(s: Seq<char>, i: int, p: spec_fn(char) -> bool, e: int)
    requires
        0 <= i <= e <= s.len(),
        forall|k: int| i <= k < e ==> p(#[trigger] s[k]),
        e < s.len() ==> !p(s[e]),
    ensures
        scan_while(s, i, p) == e,
    decreases e - i,
{
    if i < e {
        lemma_scan_stops(s, i + 1, p, e);
    }
}

/// No piece of a split text holds the separator.
pub proof fn lemma_split_clean(s: Seq<char>, i: int, sep: char)
    requires
        0 <= i <= s.len(),
    ensures
        split_from(s, i, sep).len() >= 1,
        forall|k: int, m: int|
            0 <= k < split_from(s, i, sep).len() && 0 <= m < split_from(s, i, sep)[k].len()
                ==> split_from(s, i, sep)[k][m] != sep,
    decreases s.len() - i,
{
    let e = scan_while(s, i, other_than(sep));
    lemma_scan_while(s, i, other_than(sep));
    if e < s.len() {
        lemma_split_clean(s, e + 1, sep);
        let rest = split_from(s, e + 1, sep);
        let all = split_from(s, i, sep);
        assert(all == seq![s.subrange(i, e)] + rest);
        assert forall|k: int, m: int| 0 <= k < all.len() && 0 <= m < all[k].len() implies all[k][m]
            != sep by {
            if k == 0 {
                assert(all[0][m] == s[i + m]);
            } else {
                assert(all[k] == rest[k - 1]);
            }
        }
    } else {
        let all = split_from(s, i, sep);
        assert forall|k: int, m: int| 0 <= k < all.len() && 0 <= m < all[k].len() implies all[k][m]
            != sep by {
            assert(all[0][m] == s[i + m]);
        }
    }
}

/// A text without the separator is its own single piece.
pub proof fn lemma_split_one(y: Seq<char>, sep: char)
    requires
        forall|m: int| 0 <= m < y.len() ==> y[m] != sep,
    ensures
        split(y, sep) == seq![y],
{
    lemma_scan_stops(y, 0, other_than(sep), y.len() as int);
    assert(y.subrange(0, y.len() as int) == y);
}

/// The pieces of a text from a position on are those of the text behind
/// that position.
pub proof fn lemma_split_shift(a: Seq<char>, y: Seq<char>, k: int, sep: char)
    requires
        0 <= k <= y.len(),
    ensures
        split_from(a + y, a.len() + k, sep) == split_from(y, k, sep),
    decreases y.len() - k,
{
    let z = a + y;
    let e = scan_while(y, k, other_than(sep));
    lemma_scan_while(y, k, other_than(sep));
    assert forall|m: int| a.len() + k <= m < a.len() + e implies other_than(sep)(#[trigger] z[m]) by {
        assert(z[m] == y[m - a.len()]);
    }
    if e < y.len() {
        assert(z[a.len() + e] == y[e]);
    }
    lemma_scan_stops(z, a.len() + k, other_than(sep), a.len() + e);
    assert(z.subrange(a.len() + k, a.len() + e) == y.subrange(k, e));
    if e < y.len() {
        lemma_split_shift(a, y, e + 1, sep);
    } else {
        assert(z.subrange(a.len() + k, z.len() as int) == y.subrange(k, y.len() as int));
    }
}

/// The pieces of two texts with a separator between them are the pieces of
/// the first and then those of the second.
pub proof fn lemma_split_concat(x: Seq<char>, y: Seq<char>, i: int, sep: char)
    requires
        0 <= i <= x.len(),
    ensures
        split_from(x.push(sep) + y, i, sep) == split_from(x, i, sep) + split_from(y, 0, sep),
    decreases x.len() - i,
{
    let z = x.push(sep) + y;
    let e = scan_while(x, i, other_than(sep));
    lemma_scan_while(x, i, other_than(sep));
    assert forall|m: int| i <= m < e implies other_than(sep)(#[trigger] z[m]) by {
        assert(z[m] == x[m]);
    }
    if e < x.len() {
        assert(z[e] == x[e]);
    } else {
        assert(z[e] == sep);
    }
    lemma_scan_stops(z, i, other_than(sep), e);
    assert(z.subrange(i, e) == x.subrange(i, e));
    if e < x.len() {
        lemma_split_concat(x, y, e + 1, sep);
        assert(seq![x.subrange(i, e)] + (split_from(x, e + 1, sep) + split_from(y, 0, sep)) == (
        seq![x.subrange(i, e)] + split_from(x, e + 1, sep)) + split_from(y, 0, sep));
    } else {
        lemma_split_shift(x.push(sep), y, 0, sep);
    }
}

/// Pieces that hold no separator are the pieces of their join.
pub proof fn lemma_split_join(ls: Seq<Seq<char>>, sep: char)
    requires
        ls.len() >= 1,
        forall|k: int, m: int| 0 <= k < ls.len() && 0 <= m < ls[k].len() ==> ls[k][m] != sep,
    ensures
        split(join(ls, sep), sep) == ls,
    decreases ls.len(),
{
    if ls.len() == 1 {
        lemma_split_one(ls[0], sep);
    } else {
        let front = ls.drop_last();
        assert forall|k: int, m: int| 0 <= k < front.len() && 0 <= m < front[k].len() implies front[k][m]
            != sep by {
            assert(front[k] == ls[k]);
        }
        lemma_split_join(front, sep);
        lemma_split_one(ls.last(), sep);
        lemma_split_concat(join(front, sep), ls.last(), 0, sep);
        assert(front + seq![ls.last()] == ls);
    }
}

/// The replacement from a position on is that of the text behind the
/// position.
pub proof fn lemma_replace_shift(a: Seq<char>, y: Seq<char>, k: int, pat: Seq<char>, with: Seq<char>)
    requires
        0 <= k <= y.len(),
        pat.len() > 0,
    ensures
        replace_from(a + y, a.len() + k, pat, with) == replace_from(y, k, pat, with),
    decreases y.len() - k,
{
    let z = a + y;
    if k < y.len() {
        assert(z[a.len() + k] == y[k]);
        if k + pat.len() <= y.len() {
            assert(z.subrange(a.len() + k, a.len() + k + pat.len()) == y.subrange(
                k,
                k + pat.len(),
            ));
        }
        if at(y, k, pat) {
            lemma_replace_shift(a, y, k + pat.len(), pat, with);
        } else {
            lemma_replace_shift(a, y, k + 1, pat, with);
        }
    }
}

/// Up to the first occurrence of the pattern the text stays as it is; the
/// occurrence gives way to the replacement; what follows is replaced in the
/// same way. A text without an occurrence stays as it is.
pub proof fn lemma_replace_first(s: Seq<char>, pat: Seq<char>, with: Seq<char>)
    requires
        pat.len() > 0,
    ensures
        ({
            let k = find_from(s, 0, pat);
            replace(s, pat, with) == if k < s.len() {
                s.take(k) + with + replace(s.skip(k + pat.len()), pat, with)
            } else {
                s
            }
        }),
{
    lemma_replace_upto(s, 0, pat, with);
    let k = find_from(s, 0, pat);
    lemma_find_from(s, 0, pat);
    assert(s.subrange(0, k) == s.take(k));
    if k < s.len() {
        let rest = s.skip(k + pat.len());
        assert(s.take(k + pat.len()) + rest == s);
        lemma_replace_shift(s.take(k + pat.len()), rest, 0, pat, with);
    } else {
        assert(s.take(k) + Seq::<char>::empty() == s);
    }
}

/// From `i` up to the first occurrence of the pattern the replacement is the
/// text itself.
pub proof fn lemma_replace_upto(s: Seq<char>, i: int, pat: Seq<char>, with: Seq<char>)
    requires
        0 <= i <= s.len(),
        pat.len() > 0,
    ensures
        ({
            let k = find_from(s, i, pat);
            replace_from(s, i, pat, with) == if k < s.len() {
                s.subrange(i, k) + with + replace_from(s, k + pat.len(), pat, with)
            } else {
                s.subrange(i, k)
            }
        }),
    decreases s.len() - i,
{
    let k = find_from(s, i, pat);
    lemma_find_from(s, i, pat);
    if i < s.len() {
        if at(s, i, pat) {
            assert(s.subrange(i, i) + with == with);
        } else {
            lemma_replace_upto(s, i + 1, pat, with);
            assert(seq![s[i]] + s.subrange(i + 1, k) == s.subrange(i, k));
            if k < s.len() {
                let tail = replace_from(s, k + pat.len(), pat, with);
                assert(seq![s[i]] + (s.subrange(i + 1, k) + with + tail) == (seq![s[i]]
                    + s.subrange(i + 1, k)) + with + tail);
            }
        }
    } else {
        assert(s.subrange(i, k) == Seq::<char>::empty());
    }
}

/// What is left of a trimmed text neither begins nor ends with white space,
/// and is the text itself where the text does neither.
pub proof fn lemma_trim(s: Seq<char>)
    ensures
        trim(s).len() > 0 ==> !is_space(trim(s)[0]) && !is_space(trim(s).last()),
        s.len() > 0 && !is_space(s[0]) && !is_space(s.last()) ==> trim(s) == s,
        trim(trim(s)) == trim(s),
{
    lemma_scan_while(s, 0, space());
    lemma_scan_back(s, s.len() as int, space());
    let t = trim(s);
    if t.len() > 0 {
        lemma_scan_stops(t, 0, space(), 0);
        assert(scan_back(t, t.len() as int, space()) == t.len());
        assert(t.subrange(0, t.len() as int) == t);
    }
    if s.len() > 0 && !is_space(s[0]) && !is_space(s.last()) {
        assert(s.subrange(0, s.len() as int) == s);
    }
}

/// Whether `c` is white space.
pub fn is_white(c: char) -> (b: bool)
    ensures
        b == is_space(c),
{
    let u = c as u32;
    (0x09 <= u && u <= 0x0D) || u == 0x20 || u == 0x85 || u == 0xA0 || u == 0x1680 || (0x2000 <= u
        && u <= 0x200A) || u == 0x2028 || u == 0x2029 || u == 0x202F || u == 0x205F || u == 0x3000
}

/// The characters of a string, in order.
pub fn to_chars(s: &str) -> (v: Vec<char>)
    ensures
        v@ == s@,
{
    let mut v: Vec<char> = Vec::new();
    for c in it: s.chars()
        invariant
            v@ == it.seq().take(it.index()),
            it.seq() == s@,
    {
        v.push(c);
    }
    v
}

/// The string that holds the characters of `v`.
pub fn to_string(v: &Vec<char>) -> (s: String)
    ensures
        s@ == v@,
{
    let mut s = String::new();
    let mut i: usize = 0;
    while i < v.len()
        invariant
            i <= v.len(),
            s@ == v@.take(i as int),
        decreases v.len() - i,
    {
        s.push(v[i]);
        i += 1;
    }
    s
}

/// The characters `v[from..to]`.
pub fn slice(v: &Vec<char>, from: usize, to: usize) -> (r: Vec<char>)
    requires
        from <= to <= v.len(),
    ensures
        r@ == v@.subrange(from as int, to as int),
{
    let mut r: Vec<char> = Vec::new();
    let mut i: usize = from;
    while i < to
        invariant
            from <= i <= to <= v.len(),
            r@ == v@.subrange(from as int, i as int),
        decreases to - i,
    {
        r.push(v[i]);
        i += 1;
    }
    r
}

/// Appends the characters of `src` to `dst`.
pub fn append(dst: &mut Vec<char>, src: &Vec<char>)
    ensures
        final(dst)@ == old(dst)@ + src@,
{
    let mut i: usize = 0;
    while i < src.len()
        invariant
            i <= src.len(),
            dst@ == old(dst)@ + src@.take(i as int),
        decreases src.len() - i,
    {
        dst.push(src[i]);
        i += 1;
    }
}

/// Whether two texts hold the same characters.
pub fn same(a: &Vec<char>, b: &Vec<char>) -> (r: bool)
    ensures
        r == (a@ == b@),
{
    if a.len() != b.len() {
        return false;
    }
    let mut i: usize = 0;
    while i < a.len()
        invariant
            i <= a.len(),
            a.len() == b.len(),
            a@.take(i as int) == b@.take(i as int),
        decreases a.len() - i,
    {
        if a[i] != b[i] {
            return false;
        }
        assert(a@.take(i + 1) == a@.take(i as int).push(a@[i as int]));
        assert(b@.take(i + 1) == b@.take(i as int).push(b@[i as int]));
        i += 1;
    }
    assert(a@ == a@.take(a.len() as int));
    assert(b@ == b@.take(b.len() as int));
    true
}

/// Whether two strings hold the same characters.
pub fn same_text(a: &str, b: &str) -> (r: bool)
    ensures
        r == (a@ == b@),
{
    same(&to_chars(a), &to_chars(b))
}

/// Whether `pat` stands in `v` at position `i`.
pub fn starts_at(v: &Vec<char>, i: usize, pat: &Vec<char>) -> (r: bool)
    ensures
        r == at(v@, i as int, pat@),
{
    if i > v.len() || pat.len() > v.len() - i {
        return false;
    }
    let mut k: usize = 0;
    while k < pat.len()
        invariant
            k <= pat.len(),
            i + pat.len() <= v.len(),
            v@.subrange(i as int, i + k) == pat@.take(k as int),
        decreases pat.len() - k,
    {
        if v[i + k] != pat[k] {
            assert(v@.subrange(i as int, i + pat.len())[k as int] != pat@[k as int]);
            return false;
        }
        assert(v@.subrange(i as int, i + k + 1) == v@.subrange(i as int, i + k).push(
            v@[i + k],
        ));
        assert(pat@.take(k + 1) == pat@.take(k as int).push(pat@[k as int]));
        k += 1;
    }
    assert(pat@ == pat@.take(pat.len() as int));
    true
}

/// The first position at or after `i` at which `pat` stands, or the length of
/// `v`.
pub fn find(v: &Vec<char>, i: usize, pat: &Vec<char>) -> (j: usize)
    requires
        i <= v.len(),
    ensures
        j == find_from(v@, i as int, pat@),
        i <= j <= v.len(),
{
    let mut j: usize = i;
    while j < v.len() && !starts_at(v, j, pat)
        invariant
            i <= j <= v.len(),
            find_from(v@, i as int, pat@) == find_from(v@, j as int, pat@),
        decreases v.len() - j,
    {
        j += 1;
    }
    j
}

/// Whether `pat` stands anywhere in `v`.
pub fn contains(v: &Vec<char>, pat: &Vec<char>) -> (r: bool)
    ensures
        r == occurs(v@, pat@),
{
    let mut j: usize = 0;
    while j < v.len()
        invariant
            j <= v.len(),
            forall|k: int| 0 <= k < j ==> !at(v@, k, pat@),
        decreases v.len() - j,
    {
        if starts_at(v, j, pat) {
            return true;
        }
        j += 1;
    }
    starts_at(v, j, pat)
}

/// The first position at or after `i` that holds no white space.
pub fn skip_space(v: &Vec<char>, i: usize) -> (j: usize)
    requires
        i <= v.len(),
    ensures
        j == scan_while(v@, i as int, space()),
        i <= j <= v.len(),
{
    let mut j: usize = i;
    while j < v.len() && is_white(v[j])
        invariant
            i <= j <= v.len(),
            scan_while(v@, i as int, space()) == scan_while(v@, j as int, space()),
        decreases v.len() - j,
    {
        j += 1;
    }
    j
}

/// The first position at or after `i` that holds white space.
pub fn skip_non_space(v: &Vec<char>, i: usize) -> (j: usize)
    requires
        i <= v.len(),
    ensures
        j == scan_while(v@, i as int, non_space()),
        i <= j <= v.len(),
{
    let mut j: usize = i;
    while j < v.len() && !is_white(v[j])
        invariant
            i <= j <= v.len(),
            scan_while(v@, i as int, non_space()) == scan_while(v@, j as int, non_space()),
        decreases v.len() - j,
    {
        j += 1;
    }
    j
}

/// The first position at or after `i` that holds `c`.
pub fn skip_to(v: &Vec<char>, i: usize, c: char) -> (j: usize)
    requires
        i <= v.len(),
    ensures
        j == scan_while(v@, i as int, other_than(c)),
        i <= j <= v.len(),
{
    let mut j: usize = i;
    while j < v.len() && v[j] != c
        invariant
            i <= j <= v.len(),
            scan_while(v@, i as int, other_than(c)) == scan_while(v@, j as int, other_than(c)),
        decreases v.len() - j,
    {
        j += 1;
    }
    j
}

/// The first position at or after `i` that does not hold `c`.
pub fn skip_over(v: &Vec<char>, i: usize, c: char) -> (j: usize)
    requires
        i <= v.len(),
    ensures
        j == scan_while(v@, i as int, only(c)),
        i <= j <= v.len(),
{
    let mut j: usize = i;
    while j < v.len() && v[j] == c
        invariant
            i <= j <= v.len(),
            scan_while(v@, i as int, only(c)) == scan_while(v@, j as int, only(c)),
        decreases v.len() - j,
    {
        j += 1;
    }
    j
}

/// `v` without the white space at its two ends.
pub fn trimmed(v: &Vec<char>) -> (r: Vec<char>)
    ensures
        r@ == trim(v@),
{
    let a = skip_space(v, 0);
    let mut b: usize = v.len();
    while b > 0 && is_white(v[b - 1])
        invariant
            b <= v.len(),
            scan_back(v@, v.len() as int, space()) == scan_back(v@, b as int, space()),
        decreases b,
    {
        b -= 1;
    }
    if a < b {
        slice(v, a, b)
    } else {
        Vec::new()
    }
}

/// The pieces of `v`, cut at each `sep`.
pub fn split_at_each(v: &Vec<char>, sep: char) -> (r: Vec<Vec<char>>)
    ensures
        views(r@) == split(v@, sep),
        r.len() >= 1,
{
    let mut r: Vec<Vec<char>> = Vec::new();
    let mut i: usize = 0;
    loop
        invariant_except_break
            i <= v.len(),
            split(v@, sep) == views(r@) + split_from(v@, i as int, sep),
        ensures
            views(r@) == split(v@, sep),
            r.len() >= 1,
        decreases v.len() - i,
    {
        let e = skip_to(v, i, sep);
        let piece = slice(v, i, e);
        let ghost before = views(r@);
        r.push(piece);
        assert(views(r@) == before.push(v@.subrange(i as int, e as int)));
        if e < v.len() {
            assert(split_from(v@, i as int, sep) == seq![v@.subrange(i as int, e as int)]
                + split_from(v@, e + 1, sep));
            assert(views(r@) + split_from(v@, e + 1, sep) == before + split_from(
                v@,
                i as int,
                sep,
            ));
            i = e + 1;
        } else {
            assert(split_from(v@, i as int, sep) == seq![v@.subrange(i as int, e as int)]);
            assert(views(r@) == before + split_from(v@, i as int, sep));
            break;
        }
    }
    r
}

/// The pieces `ls[from..to]` put together with `sep` between them.
pub fn join_range(ls: &Vec<Vec<char>>, from: usize, to: usize, sep: char) -> (r: Vec<char>)
    requires
        from <= to <= ls.len(),
    ensures
        r@ == join(views(ls@).subrange(from as int, to as int), sep),
{
    let mut r: Vec<char> = Vec::new();
    let mut i: usize = from;
    while i < to
        invariant
            from <= i <= to <= ls.len(),
            r@ == join(views(ls@).subrange(from as int, i as int), sep),
        decreases to - i,
    {
        let ghost upto = views(ls@).subrange(from as int, i + 1);
        assert(upto.drop_last() == views(ls@).subrange(from as int, i as int));
        assert(upto.last() == ls@[i as int]@);
        if i > from {
            r.push(sep);
        }
        append(&mut r, &ls[i]);
        i += 1;
    }
    r
}

/// The lines of `v`.
pub fn lines_of(v: &Vec<char>) -> (r: Vec<Vec<char>>)
    ensures
        views(r@) == lines(v@),
{
    let p = split_at_each(v, '\n');
    let n: usize = p.len() - 1;
    let mut r: Vec<Vec<char>> = Vec::new();
    let mut k: usize = 0;
    while k < n
        invariant
            k <= n,
            n == p.len() - 1,
            views(r@) == Seq::new(k as nat, |j: int| chomp(views(p@)[j])),
        decreases n - k,
    {
        let l = &p[k];
        let ghost before = views(r@);
        assert(views(p@)[k as int] == l@);
        if l.len() > 0 && l[l.len() - 1] == '\r' {
            r.push(slice(l, 0, l.len() - 1));
            assert(l@.subrange(0, l.len() - 1) == l@.drop_last());
        } else {
            r.push(slice(l, 0, l.len()));
            assert(l@.subrange(0, l.len() as int) == l@);
        }
        assert(views(r@) == before.push(chomp(l@)));
        k += 1;
    }
    if p[n].len() > 0 {
        let ghost before = views(r@);
        r.push(slice(&p[n], 0, p[n].len()));
        assert(p@[n as int]@.subrange(0, p@[n as int]@.len() as int) == p@[n as int]@);
        assert(views(r@) == before.push(views(p@)[n as int]));
    }
    r
}

/// `v` with each occurrence of `pat` replaced by `with`.
pub fn replaced(v: &Vec<char>, pat: &Vec<char>, with: &Vec<char>) -> (r: Vec<char>)
    ensures
        r@ == replace(v@, pat@, with@),
{
    if pat.len() == 0 {
        return slice(v, 0, v.len());
    }
    let mut r: Vec<char> = Vec::new();
    let mut i: usize = 0;
    while i < v.len()
        invariant
            i <= v.len(),
            pat.len() > 0,
            replace_from(v@, 0, pat@, with@) == r@ + replace_from(v@, i as int, pat@, with@),
        decreases v.len() - i,
    {
        let ghost before = r@;
        if starts_at(v, i, pat) {
            append(&mut r, with);
            assert(r@ + replace_from(v@, i + pat.len(), pat@, with@) == before + replace_from(
                v@,
                i as int,
                pat@,
                with@,
            ));
            i += pat.len();
        } else {
            r.push(v[i]);
            assert(r@ + replace_from(v@, i + 1, pat@, with@) == before + replace_from(
                v@,
                i as int,
                pat@,
                with@,
            ));
            i += 1;
        }
    }
    assert(replace_from(v@, i as int, pat@, with@) == Seq::<char>::empty());
    assert(r@ + Seq::<char>::empty() == r@);
    r
}

} // verus!
