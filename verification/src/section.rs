//! Sections of a documentation text.
//!
//! A documentation text is read line by line. A line that holds exactly `# `
//! and a title heads a section; the section runs up to the next line that
//! begins with `# `, or to the end of the text. Taking a section out of a text
//! removes these lines and leaves all others as they were.

use vstd::prelude::*;
use crate::text::{
    append, contains, join, join_range, lemma_split_clean, lemma_split_join, lines, lines_of,
    occurs, same, slice, split, split_at_each, to_chars, to_string, trim, trimmed, views,
};

verus! {

/// The line that heads the section `title`.
pub open spec fn heading(title: Seq<char>) -> Seq<char> {
    seq!['#', ' '] + title
}

/// Whether a line begins like a heading.
pub open spec fn is_heading(line: Seq<char>) -> bool {
    line.len() >= 2 && line[0] == '#' && line[1] == ' '
}

/// Whether a line holds a code fence.
pub open spec fn is_fence(line: Seq<char>) -> bool {
    occurs(line, seq!['`', '`', '`'])
}

/// The lines that are exactly `l`.
pub open spec fn exactly(l: Seq<char>) -> spec_fn(Seq<char>) -> bool {
    |x: Seq<char>| x == l
}

/// The lines that begin like a heading.
pub open spec fn headings() -> spec_fn(Seq<char>) -> bool {
    |x: Seq<char>| is_heading(x)
}

/// The lines that hold a code fence.
pub open spec fn fences() -> spec_fn(Seq<char>) -> bool {
    |x: Seq<char>| is_fence(x)
}

/// The index of the first line at or after `k` that is in `p`, or the number
/// of lines if there is none.
pub open spec fn first_line(ls: Seq<Seq<char>>, k: int, p: spec_fn(Seq<char>) -> bool) -> int
    decreases ls.len() - k,
{
    if 0 <= k < ls.len() && !p(ls[k]) {
        first_line(ls, k + 1, p)
    } else {
        k
    }
}

/// The lines that the section `title` takes up in `docs`: the index of its
/// heading and the index of the line behind its last one. `None` if no line of
/// `docs` is that heading.
pub open spec fn section_lines(docs: Seq<char>, title: Seq<char>) -> Option<(int, int)> {
    let ls = split(docs, '\n');
    let i = first_line(ls, 0, exactly(heading(title)));
    if i < ls.len() {
        Some((i, first_line(ls, i + 1, headings())))
    } else {
        None
    }
}

/// The body of the section `title` of `docs`: the lines under its heading,
/// without the white space around them.
pub open spec fn section_body(docs: Seq<char>, title: Seq<char>) -> Option<Seq<char>> {
    match section_lines(docs, title) {
        Some((i, j)) => Some(trim(join(split(docs, '\n').subrange(i + 1, j), '\n'))),
        None => None,
    }
}

/// `docs` without the lines of the section `title`; `docs` itself if it has
/// no such section.
pub open spec fn without_section(docs: Seq<char>, title: Seq<char>) -> Seq<char> {
    match section_lines(docs, title) {
        Some((i, j)) => {
            let ls = split(docs, '\n');
            join(ls.take(i) + ls.skip(j), '\n')
        },
        None => docs,
    }
}

/// The first fenced block of a section body: the lines between the first line
/// that holds a fence and the next such line, joined by line feeds. Empty if
/// no line holds a fence.
pub open spec fn fenced_block(body: Seq<char>) -> Seq<char> {
    let ls = lines(body);
    let a = first_line(ls, 0, fences());
    if a < ls.len() {
        join(ls.subrange(a + 1, first_line(ls, a + 1, fences())), '\n')
    } else {
        Seq::empty()
    }
}

/// The bullets among `ls`: of each line that begins with a hyphen, what
/// follows the hyphen, without the white space around it.
pub open spec fn bullets(ls: Seq<Seq<char>>) -> Seq<Seq<char>>
    decreases ls.len(),
{
    if ls.len() == 0 {
        Seq::empty()
    } else {
        let l = ls.last();
        if l.len() > 0 && l[0] == '-' {
            bullets(ls.drop_last()).push(trim(l.skip(1)))
        } else {
            bullets(ls.drop_last())
        }
    }
}

/// The example that `docs` gives: the first fenced block of its section
/// `Example`.
pub open spec fn example_of(docs: Seq<char>) -> Option<Seq<char>> {
    match section_body(docs, "Example"@) {
        Some(body) => Some(fenced_block(body)),
        None => None,
    }
}

/// The tags that `docs` gives: the bullets of its section `Tags`.
pub open spec fn tags_of(docs: Seq<char>) -> Seq<Seq<char>> {
    match section_body(docs, "Tags"@) {
        Some(body) => bullets(lines(body)),
        None => Seq::empty(),
    }
}

/// What each string of a list holds.
pub open spec fn texts(v: Seq<String>) -> Seq<Seq<char>> {
    Seq::new(v.len(), |k: int| v[k]@)
}

/// A search for a line stays within the lines, passes no line of the class,
/// and stops at the end or at a line of the class.
pub proof fn lemma_first_line(ls: Seq<Seq<char>>, k: int, p: spec_fn(Seq<char>) -> bool)
    requires
        0 <= k <= ls.len(),
    ensures
        k <= first_line(ls, k, p) <= ls.len(),
        forall|m: int| k <= m < first_line(ls, k, p) ==> !p(#[trigger] ls[m]),
        first_line(ls, k, p) < ls.len() ==> p(ls[first_line(ls, k, p)]),
    decreases ls.len() - k,
{
    if k < ls.len() && !p(ls[k]) {
        lemma_first_line(ls, k + 1, p);
    }
}

/// Where no line is of the class, the search ends behind the last line.
pub proof fn lemma_no_line(ls: Seq<Seq<char>>, k: int, p: spec_fn(Seq<char>) -> bool)
    requires
        0 <= k <= ls.len(),
        forall|m: int| k <= m < ls.len() ==> !p(#[trigger] ls[m]),
    ensures
        first_line(ls, k, p) == ls.len(),
    decreases ls.len() - k,
{
    if k < ls.len() {
        lemma_no_line(ls, k + 1, p);
    }
}

/// Taking a section out removes exactly its lines: the lines that are left
/// are those before its heading and those from the next heading on, as they
/// were. Where no line is left, the text is empty.
pub proof fn lemma_section_removed(docs: Seq<char>, title: Seq<char>)
    requires
        section_lines(docs, title) is Some,
    ensures
        ({
            let ls = split(docs, '\n');
            let (i, j) = section_lines(docs, title)->0;
            let left = ls.take(i) + ls.skip(j);
            &&& 0 <= i < j <= ls.len()
            &&& ls[i] == heading(title)
            &&& forall|k: int| i < k < j ==> !is_heading(#[trigger] ls[k])
            &&& j < ls.len() ==> is_heading(ls[j])
            &&& left.len() > 0 ==> split(without_section(docs, title), '\n') == left
            &&& left.len() == 0 ==> without_section(docs, title) == Seq::<char>::empty()
        }),
{
    let ls = split(docs, '\n');
    let (i, j) = section_lines(docs, title)->0;
    let left = ls.take(i) + ls.skip(j);
    lemma_first_line(ls, 0, exactly(heading(title)));
    lemma_first_line(ls, i + 1, headings());
    lemma_split_clean(docs, 0, '\n');
    if left.len() > 0 {
        assert forall|k: int, m: int| 0 <= k < left.len() && 0 <= m < left[k].len() implies left[k][m]
            != '\n' by {
            if k < i {
                assert(left[k] == ls[k]);
            } else {
                assert(left[k] == ls[k - i + j]);
            }
        }
        lemma_split_join(left, '\n');
    }
}

/// Once a section was taken out, the text has no section of that title,
/// unless a line behind the section was a heading of that title too.
pub proof fn lemma_section_gone(docs: Seq<char>, title: Seq<char>)
    requires
        section_lines(docs, title) is Some,
        ({
            let (i, j) = section_lines(docs, title)->0;
            forall|k: int|
                j <= k < split(docs, '\n').len() ==> #[trigger] split(docs, '\n')[k] != heading(
                    title,
                )
        }),
    ensures
        section_body(without_section(docs, title), title) is None,
        without_section(without_section(docs, title), title) == without_section(docs, title),
{
    let ls = split(docs, '\n');
    let (i, j) = section_lines(docs, title)->0;
    let left = ls.take(i) + ls.skip(j);
    let rest = without_section(docs, title);
    lemma_section_removed(docs, title);
    lemma_first_line(ls, 0, exactly(heading(title)));
    if left.len() > 0 {
        assert forall|k: int| 0 <= k < left.len() implies !exactly(heading(title))(
            #[trigger] left[k],
        ) by {
            if k < i {
                assert(left[k] == ls[k]);
            } else {
                assert(left[k] == ls[k - i + j]);
            }
        }
        lemma_no_line(left, 0, exactly(heading(title)));
    } else {
        let one = split(rest, '\n');
        assert(one == seq![Seq::<char>::empty()]) by {
            assert(rest.subrange(0, 0) == Seq::<char>::empty());
        }
        assert(heading(title).len() >= 2);
        lemma_no_line(one, 0, exactly(heading(title)));
    }
}

/// An index that the search could end at is where it ends: no line before it
/// is of the class, and it is the end or holds a line of the class.
pub proof fn lemma_line_stops(ls: Seq<Seq<char>>, k: int, p: spec_fn(Seq<char>) -> bool, e: int)
    requires
        0 <= k <= e <= ls.len(),
        forall|m: int| k <= m < e ==> !p(#[trigger] ls[m]),
        e < ls.len() ==> p(ls[e]),
    ensures
        first_line(ls, k, p) == e,
    decreases e - k,
{
    if k < e {
        lemma_line_stops(ls, k + 1, p, e);
    }
}

/// Taking one section out leaves every section of another title as it was.
pub proof fn lemma_other_section_stays(docs: Seq<char>, title: Seq<char>, other: Seq<char>)
    requires
        title != other,
    ensures
        section_body(without_section(docs, title), other) == section_body(docs, other),
{
    if section_lines(docs, title) is Some {
        let ls = split(docs, '\n');
        let (i, j) = section_lines(docs, title)->0;
        let left = ls.take(i) + ls.skip(j);
        let shift = j - i;
        let rest = without_section(docs, title);
        let mark = exactly(heading(other));
        lemma_section_removed(docs, title);
        assert(heading(title) != heading(other)) by {
            if heading(title) == heading(other) {
                assert(heading(title).skip(2) == title);
                assert(heading(other).skip(2) == other);
            }
        }
        assert(is_heading(heading(other)));
        let k = first_line(ls, 0, mark);
        lemma_first_line(ls, 0, mark);
        assert(!(i <= k < j));
        if left.len() == 0 {
            let one = split(rest, '\n');
            assert(one == seq![Seq::<char>::empty()]) by {
                assert(rest.subrange(0, 0) == Seq::<char>::empty());
            }
            lemma_no_line(one, 0, mark);
        } else if k < i {
            let e = first_line(ls, k + 1, headings());
            lemma_first_line(ls, k + 1, headings());
            assert(is_heading(ls[i]));
            assert(e <= i);
            assert forall|m: int| 0 <= m < k implies !mark(#[trigger] left[m]) by {
                assert(left[m] == ls[m]);
            }
            assert(left[k] == ls[k]);
            lemma_line_stops(left, 0, mark, k);
            assert forall|m: int| k + 1 <= m < e implies !headings()(#[trigger] left[m]) by {
                assert(left[m] == ls[m]);
            }
            if e < i {
                assert(left[e] == ls[e]);
            } else if j < ls.len() {
                assert(left[e] == ls[j]);
            }
            lemma_line_stops(left, k + 1, headings(), e);
            assert(left.subrange(k + 1, e) == ls.subrange(k + 1, e));
        } else if k < ls.len() {
            let e = first_line(ls, k + 1, headings());
            lemma_first_line(ls, k + 1, headings());
            assert forall|m: int| 0 <= m < k - shift implies !mark(#[trigger] left[m]) by {
                if m < i {
                    assert(left[m] == ls[m]);
                } else {
                    assert(left[m] == ls[m + shift]);
                }
            }
            assert(left[k - shift] == ls[k]);
            lemma_line_stops(left, 0, mark, k - shift);
            assert forall|m: int| k - shift + 1 <= m < e - shift implies !headings()(
                #[trigger] left[m],
            ) by {
                assert(left[m] == ls[m + shift]);
            }
            if e < ls.len() {
                assert(left[e - shift] == ls[e]);
            }
            lemma_line_stops(left, k - shift + 1, headings(), e - shift);
            assert(left.subrange(k - shift + 1, e - shift) == ls.subrange(k + 1, e));
        } else {
            assert forall|m: int| 0 <= m < left.len() implies !mark(#[trigger] left[m]) by {
                if m < i {
                    assert(left[m] == ls[m]);
                } else {
                    assert(left[m] == ls[m + shift]);
                }
            }
            lemma_no_line(left, 0, mark);
        }
    }
}

/// The index of the first line at or after `k` that is exactly `l`.
fn find_exact(ls: &Vec<Vec<char>>, k: usize, l: &Vec<char>) -> (m: usize)
    requires
        k <= ls.len(),
    ensures
        m == first_line(views(ls@), k as int, exactly(l@)),
        k <= m <= ls.len(),
{
    let mut m: usize = k;
    while m < ls.len() && !same(&ls[m], l)
        invariant
            k <= m <= ls.len(),
            first_line(views(ls@), k as int, exactly(l@)) == first_line(
                views(ls@),
                m as int,
                exactly(l@),
            ),
        decreases ls.len() - m,
    {
        m += 1;
    }
    m
}

/// The index of the first line at or after `k` that begins like a heading.
fn find_heading(ls: &Vec<Vec<char>>, k: usize) -> (m: usize)
    requires
        k <= ls.len(),
    ensures
        m == first_line(views(ls@), k as int, headings()),
        k <= m <= ls.len(),
{
    let mut m: usize = k;
    while m < ls.len() && !(ls[m].len() >= 2 && ls[m][0] == '#' && ls[m][1] == ' ')
        invariant
            k <= m <= ls.len(),
            first_line(views(ls@), k as int, headings()) == first_line(
                views(ls@),
                m as int,
                headings(),
            ),
        decreases ls.len() - m,
    {
        m += 1;
    }
    m
}

/// The index of the first line at or after `k` that holds a code fence.
fn find_fence(ls: &Vec<Vec<char>>, k: usize, fence: &Vec<char>) -> (m: usize)
    requires
        k <= ls.len(),
        fence@ == seq!['`', '`', '`'],
    ensures
        m == first_line(views(ls@), k as int, fences()),
        k <= m <= ls.len(),
{
    let mut m: usize = k;
    while m < ls.len() && !contains(&ls[m], fence)
        invariant
            k <= m <= ls.len(),
            fence@ == seq!['`', '`', '`'],
            first_line(views(ls@), k as int, fences()) == first_line(
                views(ls@),
                m as int,
                fences(),
            ),
        decreases ls.len() - m,
    {
        m += 1;
    }
    m
}

/// Appends copies of the lines `ls[from..to]` to `out`.
fn keep_lines(out: &mut Vec<Vec<char>>, ls: &Vec<Vec<char>>, from: usize, to: usize)
    requires
        from <= to <= ls.len(),
    ensures
        views(final(out)@) == views(old(out)@) + views(ls@).subrange(from as int, to as int),
{
    let mut k: usize = from;
    while k < to
        invariant
            from <= k <= to <= ls.len(),
            views(out@) == views(old(out)@) + views(ls@).subrange(from as int, k as int),
        decreases to - k,
    {
        let ghost before = views(out@);
        let l = &ls[k];
        out.push(slice(l, 0, l.len()));
        assert(l@.subrange(0, l.len() as int) == l@);
        assert(views(out@) == before.push(l@));
        assert(views(ls@).subrange(from as int, k + 1) == views(ls@).subrange(
            from as int,
            k as int,
        ).push(l@));
        k += 1;
    }
}

/// Takes the section `title` out of `docs` and returns its body. Without such
/// a section, `docs` stays as it is and nothing is returned.
pub fn take_section(docs: &mut Vec<char>, title: &Vec<char>) -> (r: Option<Vec<char>>)
    ensures
        match r {
            Some(body) => section_body(old(docs)@, title@) == Some(body@),
            None => section_body(old(docs)@, title@) is None,
        },
        final(docs)@ == without_section(old(docs)@, title@),
{
    let ls = split_at_each(docs, '\n');
    let mut head: Vec<char> = Vec::new();
    head.push('#');
    head.push(' ');
    append(&mut head, title);
    assert(head@ == heading(title@));
    let i = find_exact(&ls, 0, &head);
    if i >= ls.len() {
        return None;
    }
    let j = find_heading(&ls, i + 1);
    let body = trimmed(&join_range(&ls, i + 1, j, '\n'));
    let mut rest: Vec<Vec<char>> = Vec::new();
    keep_lines(&mut rest, &ls, 0, i);
    keep_lines(&mut rest, &ls, j, ls.len());
    proof {
        let all = views(ls@);
        assert(views(rest@) == all.take(i as int) + all.skip(j as int));
        assert(views(rest@).subrange(0, rest.len() as int) == views(rest@));
    }
    *docs = join_range(&rest, 0, rest.len(), '\n');
    Some(body)
}

/// The first fenced block of a section body.
pub fn first_fenced_block(body: &Vec<char>) -> (r: Vec<char>)
    ensures
        r@ == fenced_block(body@),
{
    let ls = lines_of(body);
    let mut fence: Vec<char> = Vec::new();
    fence.push('`');
    fence.push('`');
    fence.push('`');
    assert(fence@ == seq!['`', '`', '`']);
    let a = find_fence(&ls, 0, &fence);
    if a >= ls.len() {
        return Vec::new();
    }
    let b = find_fence(&ls, a + 1, &fence);
    join_range(&ls, a + 1, b, '\n')
}

/// Takes the section `Example` out of `docs` and returns its first fenced
/// block.
pub fn take_example(docs: &mut Vec<char>) -> (r: Option<Vec<char>>)
    ensures
        match r {
            Some(code) => example_of(old(docs)@) == Some(code@),
            None => example_of(old(docs)@) is None,
        },
        final(docs)@ == without_section(old(docs)@, "Example"@),
{
    let name = to_chars("Example");
    match take_section(docs, &name) {
        Some(body) => Some(first_fenced_block(&body)),
        None => None,
    }
}

/// The bullets among the lines of a section body.
pub fn bullets_of(body: &Vec<char>) -> (r: Vec<Vec<char>>)
    ensures
        views(r@) == bullets(lines(body@)),
{
    let ls = lines_of(body);
    let mut r: Vec<Vec<char>> = Vec::new();
    let mut k: usize = 0;
    while k < ls.len()
        invariant
            k <= ls.len(),
            views(r@) == bullets(views(ls@).take(k as int)),
        decreases ls.len() - k,
    {
        let l = &ls[k];
        let ghost before = views(r@);
        let ghost upto = views(ls@).take(k + 1);
        assert(upto.drop_last() == views(ls@).take(k as int));
        assert(upto.last() == l@);
        if l.len() > 0 && l[0] == '-' {
            let item = trimmed(&slice(l, 1, l.len()));
            assert(l@.subrange(1, l.len() as int) == l@.skip(1));
            r.push(item);
            assert(views(r@) == before.push(trim(l@.skip(1))));
        }
        k += 1;
    }
    assert(views(ls@).take(ls.len() as int) == views(ls@));
    r
}

/// Extract a section.
///
/// Takes the section `title` out of `docs` and returns its body. Where no
/// line of `docs` heads such a section, `docs` is left as it is.
pub fn section(docs: &mut String, title: &str) -> (r: Option<String>)
    ensures
        match r {
            Some(body) => section_body(old(docs)@, title@) == Some(body@),
            None => section_body(old(docs)@, title@) is None && final(docs)@ == old(docs)@,
        },
        final(docs)@ == without_section(old(docs)@, title@),
{
    let mut chars = to_chars(docs.as_str());
    let name = to_chars(title);
    match take_section(&mut chars, &name) {
        Some(body) => {
            *docs = to_string(&chars);
            Some(to_string(&body))
        },
        None => None,
    }
}

/// Parse the tag section.
///
/// Takes the section `Tags` out of `docs` and returns its bullets in order.
pub fn tags(docs: &mut String) -> (r: Vec<String>)
    ensures
        texts(r@) == tags_of(old(docs)@),
        final(docs)@ == without_section(old(docs)@, "Tags"@),
{
    let mut chars = to_chars(docs.as_str());
    let name = to_chars("Tags");
    let mut r: Vec<String> = Vec::new();
    match take_section(&mut chars, &name) {
        Some(body) => {
            *docs = to_string(&chars);
            let items = bullets_of(&body);
            let mut k: usize = 0;
            while k < items.len()
                invariant
                    k <= items.len(),
                    texts(r@) == views(items@).take(k as int),
                decreases items.len() - k,
            {
                let ghost before = texts(r@);
                r.push(to_string(&items[k]));
                assert(texts(r@) == before.push(items@[k as int]@));
                assert(views(items@).take(k + 1) == views(items@).take(k as int).push(
                    items@[k as int]@,
                ));
                k += 1;
            }
            assert(views(items@).take(items.len() as int) == views(items@));
        },
        None => {
            assert(texts(r@) == Seq::<Seq<char>>::empty());
        },
    }
    r
}

/// Parse the example section.
///
/// Takes the section `Example` out of `docs` and returns its first fenced
/// block.
pub fn example(docs: &mut String) -> (r: Option<String>)
    ensures
        match r {
            Some(code) => example_of(old(docs)@) == Some(code@),
            None => example_of(old(docs)@) is None && final(docs)@ == old(docs)@,
        },
        final(docs)@ == without_section(old(docs)@, "Example"@),
{
    let mut chars = to_chars(docs.as_str());
    match take_example(&mut chars) {
        Some(code) => {
            *docs = to_string(&chars);
            Some(to_string(&code))
        },
        None => None,
    }
}

} // verus!
