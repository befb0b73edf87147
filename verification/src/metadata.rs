//! What the comments of a test source say of the test.
//!
//! A line of the form `// Key: value`, read without the white space around
//! it, is a directive. `Ref` and `Hints` set a flag of the test's
//! configuration; `Error`, `Warning` and `Hint` announce a diagnostic that
//! the test expects. Every other line is passed over. No source fails to be
//! read.
//!
//! The value of a flag is `true` or `false`; a directive with any other value
//! sets nothing. Where a flag is set more than once, the last directive
//! decides.
//!
//! The value of a diagnostic is a message, with an optional range before it.
//! The numbers of the range count from the reference line: the first line at
//! or behind the directive that is no comment. Where the value begins with
//! no range, or with one that does not resolve in the source, the whole value
//! is the message.

use core::ops::Range;
use vstd::prelude::*;
use crate::position::{range_at, read_range, source_size, Source};
use crate::section::first_line;
use crate::text::{
    append, at, lines, lines_of, replace, replaced, same, slice, starts_at, to_chars, to_string,
    trim, trimmed, views,
};

verus! {

/// The kind of an expected diagnostic.
#[derive(Debug, Copy, Clone, Eq, PartialEq, Hash, Structural)]
pub enum AnnotationKind {
    Error,
    Warning,
    Hint,
}

impl AnnotationKind {
    /// The key of the directive that announces a diagnostic of this kind.
    pub open spec fn key(self) -> Seq<char> {
        match self {
            AnnotationKind::Error => "Error"@,
            AnnotationKind::Warning => "Warning"@,
            AnnotationKind::Hint => "Hint"@,
        }
    }

    /// The kinds, in the order in which a line is tried for them.
    pub fn iter() -> (r: Vec<AnnotationKind>)
        ensures
            r@ == seq![AnnotationKind::Error, AnnotationKind::Warning, AnnotationKind::Hint],
    {
        let mut r: Vec<AnnotationKind> = Vec::new();
        r.push(AnnotationKind::Error);
        r.push(AnnotationKind::Warning);
        r.push(AnnotationKind::Hint);
        r
    }

    /// The key of the directive that announces a diagnostic of this kind.
    pub fn as_str(self) -> (r: &'static str)
        ensures
            r@ == self.key(),
    {
        match self {
            AnnotationKind::Error => "Error",
            AnnotationKind::Warning => "Warning",
            AnnotationKind::Hint => "Hint",
        }
    }
}

/// A diagnostic that a test expects.
#[derive(Debug, Clone, Eq, PartialEq, Hash)]
pub struct Annotation {
    /// The bytes of the source that the diagnostic is about, if it names any.
    pub range: Option<Range<usize>>,
    /// The message of the diagnostic.
    pub message: String,
    /// The kind of the diagnostic.
    pub kind: AnnotationKind,
}

/// An `Annotation` with its message as a sequence of characters and its
/// range as a pair of numbers.
pub struct AnnotationModel {
    pub range: Option<(nat, nat)>,
    pub message: Seq<char>,
    pub kind: AnnotationKind,
}

impl View for Annotation {
    type V = AnnotationModel;

    open spec fn view(&self) -> AnnotationModel {
        AnnotationModel {
            range: match self.range {
                Some(r) => Some((r.start as nat, r.end as nat)),
                None => None,
            },
            message: self.message@,
            kind: self.kind,
        }
    }
}

impl AnnotationModel {
    /// A range does not end before it starts.
    pub open spec fn wf(self) -> bool {
        match self.range {
            Some((start, end)) => start <= end,
            None => true,
        }
    }

    /// A range lies within a source of `size` bytes.
    pub open spec fn within(self, size: nat) -> bool {
        match self.range {
            Some((start, end)) => start <= end <= size,
            None => true,
        }
    }
}

impl Annotation {
    /// A range does not end before it starts.
    pub open spec fn wf(self) -> bool {
        self@.wf()
    }

    /// Whether two annotations are the same diagnostic: of one kind, about
    /// the same bytes, with the same message.
    pub fn same_as(&self, other: &Annotation) -> (r: bool)
        ensures
            r == (self@ == other@),
    {
        let kinds = match (self.kind, other.kind) {
            (AnnotationKind::Error, AnnotationKind::Error) => true,
            (AnnotationKind::Warning, AnnotationKind::Warning) => true,
            (AnnotationKind::Hint, AnnotationKind::Hint) => true,
            _ => false,
        };
        let ranges = match (&self.range, &other.range) {
            (Some(a), Some(b)) => a.start == b.start && a.end == b.end,
            (None, None) => true,
            _ => false,
        };
        kinds && ranges && self.message == other.message
    }
}

/// The flags that the directives of a test source set.
#[derive(Debug, Copy, Clone, Eq, PartialEq)]
pub struct TestConfiguration {
    /// Whether the output is held against a reference; set by `Ref`.
    pub compare_ref: Option<bool>,
    /// Whether hints are held against the expected ones; set by `Hints`.
    pub validate_hints: Option<bool>,
    /// Whether completions are checked. No directive sets it.
    pub validate_autocomplete: Option<bool>,
}

/// What the comments of a test source say of the test.
#[derive(Debug, Clone, Eq, PartialEq)]
pub struct TestPartMetadata {
    /// The flags that were set.
    pub part_configuration: TestConfiguration,
    /// The expected diagnostics, each once, in the order in which they were
    /// first announced.
    pub annotations: Vec<Annotation>,
}

impl TestPartMetadata {
    /// No diagnostic is expected twice, and no range ends before it starts.
    pub open spec fn wf(self) -> bool {
        &&& annotation_models(self.annotations@).no_duplicates()
        &&& forall|j: int| 0 <= j < self.annotations@.len() ==> self.annotations@[j].wf()
    }
}

/// What each annotation of a list holds.
pub open spec fn annotation_models(a: Seq<Annotation>) -> Seq<AnnotationModel> {
    Seq::new(a.len(), |k: int| a[k]@)
}

/// What a line must begin with to be a directive with this key.
pub open spec fn directive_mark(key: Seq<char>) -> Seq<char> {
    seq!['/', '/', ' '] + key + seq![':', ' ']
}

/// The value of the directive `key` on `line`, if the line is one.
pub open spec fn directive(line: Seq<char>, key: Seq<char>) -> Option<Seq<char>> {
    if at(line, 0, directive_mark(key)) {
        Some(line.skip(directive_mark(key).len() as int))
    } else {
        None
    }
}

/// The flag that the directive `key` on `line` sets, if the line is one and
/// its value is `true` or `false`.
pub open spec fn flag(line: Seq<char>, key: Seq<char>) -> Option<bool> {
    match directive(line, key) {
        Some(v) => if v == "true"@ {
            Some(true)
        } else if v == "false"@ {
            Some(false)
        } else {
            None
        },
        None => None,
    }
}

/// The flag that the last of the lines sets that sets one.
pub open spec fn last_flag(ls: Seq<Seq<char>>, key: Seq<char>) -> Option<bool>
    decreases ls.len(),
{
    if ls.len() == 0 {
        None
    } else {
        match flag(ls.last(), key) {
            Some(b) => Some(b),
            None => last_flag(ls.drop_last(), key),
        }
    }
}

/// The lines of a source, each without the white space around it.
pub open spec fn trimmed_lines(text: Seq<char>) -> Seq<Seq<char>> {
    let ls = lines(text);
    Seq::new(ls.len(), |k: int| trim(ls[k]))
}

/// The configuration that a source sets.
pub open spec fn configuration_of(text: Seq<char>) -> TestConfiguration {
    let ls = trimmed_lines(text);
    TestConfiguration {
        compare_ref: last_flag(ls, "Ref"@),
        validate_hints: last_flag(ls, "Hints"@),
        validate_autocomplete: None,
    }
}

/// Whether a line is a comment.
pub open spec fn is_comment(line: Seq<char>) -> bool {
    at(line, 0, seq!['/', '/'])
}

/// The lines that are no comments.
pub open spec fn code() -> spec_fn(Seq<char>) -> bool {
    |l: Seq<char>| !is_comment(l)
}

/// The reference line of line `i`: the first line at or behind it that is no
/// comment, or the line behind the last where only comments follow.
pub open spec fn reference_line(ls: Seq<Seq<char>>, i: int) -> int {
    first_line(ls, i, code())
}

/// The diagnostic of kind `kind` that `value` announces in the source `src`,
/// where `line` is the reference line and `version` stands for `VERSION` in
/// the message.
pub open spec fn annotation(
    src: Seq<char>,
    line: int,
    kind: AnnotationKind,
    value: Seq<char>,
    version: Seq<char>,
) -> AnnotationModel {
    match range_at(src, line, value) {
        Some(r) => AnnotationModel {
            range: Some((r.start, r.end)),
            message: replace(trim(value.skip(r.next)), "VERSION"@, version),
            kind,
        },
        None => AnnotationModel {
            range: None,
            message: replace(trim(value), "VERSION"@, version),
            kind,
        },
    }
}

/// The diagnostic of kind `kind` that line `i` announces, if it announces
/// one.
pub open spec fn announced(
    src: Seq<char>,
    ls: Seq<Seq<char>>,
    i: int,
    kind: AnnotationKind,
    version: Seq<char>,
) -> Seq<AnnotationModel> {
    match directive(ls[i], kind.key()) {
        Some(value) => seq![annotation(src, reference_line(ls, i), kind, value, version)],
        None => Seq::empty(),
    }
}

/// The diagnostics that the first `n` lines announce, in their order, each
/// as often as it is announced.
pub open spec fn announced_upto(src: Seq<char>, ls: Seq<Seq<char>>, n: int, version: Seq<char>) -> Seq<
    AnnotationModel,
>
    decreases n,
{
    if n <= 0 {
        Seq::empty()
    } else {
        announced_upto(src, ls, n - 1, version) + announced(
            src,
            ls,
            n - 1,
            AnnotationKind::Error,
            version,
        ) + announced(src, ls, n - 1, AnnotationKind::Warning, version) + announced(
            src,
            ls,
            n - 1,
            AnnotationKind::Hint,
            version,
        )
    }
}

/// The items of `a`, each once, in the order in which they first occur.
pub open spec fn dedup(a: Seq<AnnotationModel>) -> Seq<AnnotationModel>
    decreases a.len(),
{
    if a.len() == 0 {
        Seq::empty()
    } else {
        let d = dedup(a.drop_last());
        if d.contains(a.last()) {
            d
        } else {
            d.push(a.last())
        }
    }
}

/// The diagnostics that a source expects: each one that a line announces,
/// once, in the order in which they are first announced.
pub open spec fn annotations_of(src: Seq<char>, version: Seq<char>) -> Seq<AnnotationModel> {
    let ls = trimmed_lines(src);
    dedup(announced_upto(src, ls, ls.len() as int, version))
}

/// The value of the directive `key` on `line`.
fn directive_value(line: &Vec<char>, key: &Vec<char>) -> (r: Option<Vec<char>>)
    ensures
        match r {
            Some(v) => directive(line@, key@) == Some(v@),
            None => directive(line@, key@) is None,
        },
{
    let mut mark: Vec<char> = Vec::new();
    mark.push('/');
    mark.push('/');
    mark.push(' ');
    append(&mut mark, key);
    mark.push(':');
    mark.push(' ');
    assert(mark@ == directive_mark(key@));
    if starts_at(line, 0, &mark) {
        assert(line@.subrange(mark.len() as int, line.len() as int) == line@.skip(
            mark.len() as int,
        ));
        Some(slice(line, mark.len(), line.len()))
    } else {
        None
    }
}

/// The flag that the directive `key` on `line` sets.
fn flag_value(line: &Vec<char>, key: &Vec<char>) -> (r: Option<bool>)
    ensures
        r == flag(line@, key@),
{
    match directive_value(line, key) {
        Some(v) => {
            if same(&v, &to_chars("true")) {
                Some(true)
            } else if same(&v, &to_chars("false")) {
                Some(false)
            } else {
                None
            }
        },
        None => None,
    }
}

/// The value of the directive `key` on `line`: what follows `// key: `, if
/// the line begins with that.
pub fn get_metadata<'a>(line: &'a str, key: &str) -> (r: Option<&'a str>)
    ensures
        match r {
            Some(v) => directive(line@, key@) == Some(v@),
            None => directive(line@, key@) is None,
        },
{
    let l = to_chars(line);
    match directive_value(&l, &to_chars(key)) {
        Some(v) => {
            let from: usize = l.len() - v.len();
            Some(line.substring_char(from, l.len()))
        },
        None => None,
    }
}

/// The flag that the directive `key` on `line` sets: `true` or `false`, as
/// its value says. A line that is no such directive sets none, nor does one
/// with another value.
pub fn get_flag_metadata(line: &str, key: &str) -> (r: Option<bool>)
    ensures
        r == flag(line@, key@),
{
    flag_value(&to_chars(line), &to_chars(key))
}

/// The index of the first line at or behind `i` that is no comment.
fn find_code(ls: &Vec<Vec<char>>, i: usize) -> (m: usize)
    requires
        i <= ls.len(),
    ensures
        m == reference_line(views(ls@), i as int),
        i <= m <= ls.len(),
{
    let mut mark: Vec<char> = Vec::new();
    mark.push('/');
    mark.push('/');
    assert(mark@ == seq!['/', '/']);
    let mut m: usize = i;
    while m < ls.len() && starts_at(&ls[m], 0, &mark)
        invariant
            i <= m <= ls.len(),
            mark@ == seq!['/', '/'],
            first_line(views(ls@), i as int, code()) == first_line(views(ls@), m as int, code()),
        decreases ls.len() - m,
    {
        m += 1;
    }
    m
}

/// The diagnostic of kind `kind` that `value` announces.
pub fn annotate(
    src: &Source,
    line: usize,
    kind: AnnotationKind,
    value: &Vec<char>,
    version: &Vec<char>,
) -> (r: Annotation)
    ensures
        r@ == annotation(src@, line as int, kind, value@, version@),
        r.wf(),
        r@.within(source_size(src@)),
{
    let name = to_chars("VERSION");
    match read_range(src, line, value) {
        Some(x) => {
            assert(value@.subrange(x.next as int, value.len() as int) == value@.skip(
                x.next as int,
            ));
            let rest = trimmed(&slice(value, x.next, value.len()));
            Annotation {
                range: Some(Range { start: x.start, end: x.end }),
                message: to_string(&replaced(&rest, &name, version)),
                kind,
            }
        },
        None => Annotation {
            range: None,
            message: to_string(&replaced(&trimmed(value), &name, version)),
            kind,
        },
    }
}

/// Puts `a` into the set, unless it is there.
fn insert(set: &mut Vec<Annotation>, a: Annotation)
    ensures
        annotation_models(final(set)@) == if annotation_models(old(set)@).contains(a@) {
            annotation_models(old(set)@)
        } else {
            annotation_models(old(set)@).push(a@)
        },
{
    let mut k: usize = 0;
    while k < set.len()
        invariant
            k <= set.len(),
            set@ == old(set)@,
            forall|j: int| 0 <= j < k ==> annotation_models(set@)[j] != a@,
        decreases set.len() - k,
    {
        if set[k].same_as(&a) {
            assert(annotation_models(set@)[k as int] == a@);
            return ;
        }
        k += 1;
    }
    let ghost before = annotation_models(set@);
    assert(!before.contains(a@));
    set.push(a);
    assert(annotation_models(set@) == before.push(a@));
}

/// Notes the diagnostic of kind `kind` that line `i` announces, if it
/// announces one.
fn note(
    set: &mut Vec<Annotation>,
    src: &Source,
    ls: &Vec<Vec<char>>,
    i: usize,
    line: usize,
    kind: AnnotationKind,
    version: &Vec<char>,
    Ghost(seen): Ghost<Seq<AnnotationModel>>,
)
    requires
        i < ls.len(),
        line == reference_line(views(ls@), i as int),
        annotation_models(old(set)@) == dedup(seen),
        forall|j: int| 0 <= j < old(set)@.len() ==> old(set)@[j]@.within(source_size(src@)),
    ensures
        annotation_models(final(set)@) == dedup(
            seen + announced(src@, views(ls@), i as int, kind, version@),
        ),
        forall|j: int| 0 <= j < final(set)@.len() ==> final(set)@[j]@.within(source_size(src@)),
{
    let key = to_chars(kind.as_str());
    match directive_value(&ls[i], &key) {
        Some(value) => {
            let a = annotate(src, line, kind, &value, version);
            let ghost more = seen + seq![a@];
            assert(more.drop_last() == seen);
            assert(more.last() == a@);
            let ghost before = set@;
            insert(set, a);
            assert forall|j: int| 0 <= j < set@.len() implies set@[j]@.within(
                source_size(src@),
            ) by {
                assert(annotation_models(set@).len() == set@.len());
                assert(annotation_models(before).len() == before.len());
                if j < before.len() {
                    assert(annotation_models(set@)[j] == annotation_models(before)[j]);
                    assert(before[j]@.within(source_size(src@)));
                } else {
                    assert(annotation_models(set@)[j] == more.last());
                }
            }
        },
        None => {
            assert(seen + Seq::<AnnotationModel>::empty() == seen);
        },
    }
}

/// Reads the directives of a test source.
///
/// `version` is the text that stands for `VERSION` in a message. No source
/// fails to be read: a line that is no directive, or a directive that cannot
/// be read as such, says nothing.
pub fn parse_part_metadata(source: &Source, version: &str) -> (r: TestPartMetadata)
    ensures
        r.part_configuration == configuration_of(source@),
        annotation_models(r.annotations@) == annotations_of(source@, version@),
        annotation_models(r.annotations@).no_duplicates(),
        r.wf(),
        forall|j: int|
            0 <= j < r.annotations@.len() ==> r.annotations@[j]@.within(source_size(source@)),
{
    let version = to_chars(version);
    let raw = lines_of(source.chars());
    let mut ls: Vec<Vec<char>> = Vec::new();
    let mut k: usize = 0;
    while k < raw.len()
        invariant
            k <= raw.len(),
            views(raw@) == lines(source@),
            views(ls@) == Seq::new(k as nat, |j: int| trim(lines(source@)[j])),
        decreases raw.len() - k,
    {
        let ghost before = views(ls@);
        ls.push(trimmed(&raw[k]));
        assert(views(raw@)[k as int] == raw@[k as int]@);
        assert(views(ls@) == before.push(trim(lines(source@)[k as int])));
        k += 1;
    }
    assert(views(ls@) == trimmed_lines(source@));
    let ref_key = to_chars("Ref");
    let hints_key = to_chars("Hints");
    let mut compare_ref: Option<bool> = None;
    let mut validate_hints: Option<bool> = None;
    let mut annotations: Vec<Annotation> = Vec::new();
    let mut i: usize = 0;
    assert(annotation_models(annotations@) == Seq::<AnnotationModel>::empty());
    while i < ls.len()
        invariant
            i <= ls.len(),
            ref_key@ == "Ref"@,
            hints_key@ == "Hints"@,
            compare_ref == last_flag(views(ls@).take(i as int), "Ref"@),
            validate_hints == last_flag(views(ls@).take(i as int), "Hints"@),
            annotation_models(annotations@) == dedup(
                announced_upto(source@, views(ls@), i as int, version@),
            ),
            forall|j: int|
                0 <= j < annotations@.len() ==> annotations@[j]@.within(source_size(source@)),
        decreases ls.len() - i,
    {
        let ghost upto = views(ls@).take(i + 1);
        assert(upto.drop_last() == views(ls@).take(i as int));
        assert(upto.last() == ls@[i as int]@);
        match flag_value(&ls[i], &ref_key) {
            Some(b) => {
                compare_ref = Some(b);
            },
            None => {},
        }
        match flag_value(&ls[i], &hints_key) {
            Some(b) => {
                validate_hints = Some(b);
            },
            None => {},
        }
        let line = find_code(&ls, i);
        let ghost seen = announced_upto(source@, views(ls@), i as int, version@);
        note(&mut annotations, source, &ls, i, line, AnnotationKind::Error, &version, Ghost(seen));
        let ghost seen = seen + announced(
            source@,
            views(ls@),
            i as int,
            AnnotationKind::Error,
            version@,
        );
        note(
            &mut annotations,
            source,
            &ls,
            i,
            line,
            AnnotationKind::Warning,
            &version,
            Ghost(seen),
        );
        let ghost seen = seen + announced(
            source@,
            views(ls@),
            i as int,
            AnnotationKind::Warning,
            version@,
        );
        note(&mut annotations, source, &ls, i, line, AnnotationKind::Hint, &version, Ghost(seen));
        i += 1;
    }
    assert(views(ls@).take(ls.len() as int) == views(ls@));
    proof {
        lemma_dedup(announced_upto(source@, views(ls@), ls.len() as int, version@));
    }
    TestPartMetadata {
        part_configuration: TestConfiguration {
            compare_ref,
            validate_hints,
            validate_autocomplete: None,
        },
        annotations,
    }
}

/// Where a flag is set more than once, the last directive decides: a line
/// that sets the flag, with no line behind it that does, gives the flag its
/// value.
pub proof fn lemma_last_flag_wins(ls: Seq<Seq<char>>, key: Seq<char>, i: int)
    requires
        0 <= i < ls.len(),
        flag(ls[i], key) is Some,
        forall|k: int| i < k < ls.len() ==> flag(#[trigger] ls[k], key) is None,
    ensures
        last_flag(ls, key) == flag(ls[i], key),
    decreases ls.len(),
{
    if i < ls.len() - 1 {
        assert(flag(ls[ls.len() - 1], key) is None);
        assert(ls.drop_last()[i] == ls[i]);
        lemma_last_flag_wins(ls.drop_last(), key, i);
    }
}

/// What is left of a list after its repetitions are dropped holds what the
/// list holds.
pub proof fn lemma_dedup_holds(a: Seq<AnnotationModel>, x: AnnotationModel)
    ensures
        dedup(a).contains(x) <==> a.contains(x),
    decreases a.len(),
{
    if a.len() > 0 {
        let b = a.drop_last();
        let d = dedup(b);
        lemma_dedup_holds(b, x);
        if a.contains(x) {
            let k = choose|k: int| 0 <= k < a.len() && a[k] == x;
            if k < b.len() {
                assert(b[k] == x);
            }
        }
        if b.contains(x) {
            let k = choose|k: int| 0 <= k < b.len() && b[k] == x;
            assert(a[k] == x);
        }
        assert(a[a.len() - 1] == a.last());
        if !d.contains(a.last()) {
            let e = d.push(a.last());
            if d.contains(x) {
                let m = choose|m: int| 0 <= m < d.len() && d[m] == x;
                assert(e[m] == x);
            }
            assert(e[d.len() as int] == a.last());
            if e.contains(x) {
                let m = choose|m: int| 0 <= m < e.len() && e[m] == x;
                if m < d.len() {
                    assert(d[m] == x);
                }
            }
        }
    }
}

/// What is left of a list after its repetitions are dropped holds nothing
/// twice.
pub proof fn lemma_dedup(a: Seq<AnnotationModel>)
    ensures
        dedup(a).no_duplicates(),
    decreases a.len(),
{
    if a.len() > 0 {
        lemma_dedup(a.drop_last());
    }
}

} // verus!
