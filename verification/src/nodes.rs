//! Small pieces of text: spaces, line breaks, emphasis, and letter case.

use vstd::prelude::*;
use crate::text::same_text;
use crate::model::{
    cast_content, fails_with, first_positional, mismatch_error, Arg, Args, Content, SourceError,
    Style, Value,
};

verus! {

/// The lower case form of a text. The name stands for the result of
/// `str::to_lowercase`.
pub uninterp spec fn lowercase(s: Seq<char>) -> Seq<char>;

/// The upper case form of a text. The name stands for the result of
/// `str::to_uppercase`.
pub uninterp spec fn uppercase(s: Seq<char>) -> Seq<char>;

/// `str::to_lowercase` gives the lower case form of the text as a new string,
/// by the Unicode property `Lowercase`; the contract only gives that form its
/// name.
pub assume_specification[ str::to_lowercase ](s: &str) -> (r: String)
    ensures
        r@ == lowercase(s@),
;

/// `str::to_uppercase` gives the upper case form of the text as a new string,
/// by the Unicode property `Uppercase`; the contract only gives that form its
/// name.
pub assume_specification[ str::to_uppercase ](s: &str) -> (r: String)
    ensures
        r@ == uppercase(s@),
;

/// How content behaves next to other content when a document is laid out.
#[derive(Debug, Copy, Clone, PartialEq, Eq, Structural)]
pub enum Behaviour {
    /// It gives way to stronger content next to it; the number is its
    /// strength.
    Weak(usize),
    /// It keeps weak content next to it alive.
    Supportive,
    /// It removes weak content next to it.
    Destructive,
    /// It has no effect on the content next to it.
    Ignorant,
}

/// A text space.
#[derive(Debug, Copy, Clone, PartialEq, Eq, Hash, Structural)]
pub struct SpaceNode;

impl SpaceNode {
    /// The space as content.
    pub fn pack(self) -> (r: Content)
        ensures
            r == Content::Space,
    {
        Content::Space
    }

    /// Makes a space. It takes no argument.
    pub fn construct(args: &mut Args) -> (r: Result<Content, SourceError>)
        ensures
            r == Ok::<Content, SourceError>(Content::Space),
            *final(args) == *old(args),
    {
        Ok(SpaceNode.pack())
    }

    /// A space gives way to anything stronger.
    pub fn behaviour(&self) -> (r: Behaviour)
        ensures
            r == Behaviour::Weak(2),
    {
        Behaviour::Weak(2)
    }
}

/// A line break.
#[derive(Debug, Copy, Clone, PartialEq, Eq, Hash, Structural)]
pub struct LinebreakNode {
    /// Whether to justify the line before the break.
    pub justify: bool,
}

/// Whether an argument was passed by the name `name`.
pub open spec fn is_named(a: Arg, name: Seq<char>) -> bool {
    a.name matches Some(n) && n@ == name
}

/// The arguments that were not passed by the name `name`, in their order.
pub open spec fn without_named(items: Seq<Arg>, name: Seq<char>) -> Seq<Arg>
    decreases items.len(),
{
    if items.len() == 0 {
        Seq::empty()
    } else if is_named(items.last(), name) {
        without_named(items.drop_last(), name)
    } else {
        without_named(items.drop_last(), name).push(items.last())
    }
}

/// The value of the last argument that was passed by the name `name`, if
/// there is one.
pub open spec fn last_named(items: Seq<Arg>, name: Seq<char>) -> Option<Value>
    decreases items.len(),
{
    if items.len() == 0 {
        None
    } else if is_named(items.last(), name) {
        Some(items.last().value)
    } else {
        last_named(items.drop_last(), name)
    }
}

/// The index of the first argument at or behind `k` that was passed by the
/// name `name` and is no boolean, or the number of arguments.
pub open spec fn first_bad_flag(items: Seq<Arg>, k: int, name: Seq<char>) -> int
    decreases items.len() - k,
{
    if 0 <= k < items.len() && !(is_named(items[k], name) && !(items[k].value is Bool)) {
        first_bad_flag(items, k + 1, name)
    } else {
        k
    }
}

/// Takes the arguments that were passed by the name `name`, one after the
/// other, and returns the boolean that the last of them is. The first of them
/// that is no boolean is the error, and ends the taking.
pub fn named_flag(args: &mut Args, name: &str) -> (r: Result<Option<bool>, SourceError>)
    ensures
        final(args).span == old(args).span,
        ({
            let items = old(args).items@;
            let bad = first_bad_flag(items, 0, name@);
            if bad < items.len() {
                &&& fails_with(r, items[bad].span, items[bad].value.mismatch("boolean"@))
                &&& final(args).items@ == without_named(items.take(bad), name@) + items.skip(
                    bad + 1,
                )
            } else {
                &&& r matches Ok(found)
                &&& match last_named(items, name@) {
                    Some(v) => v is Bool && found == Some(v->Bool_0),
                    None => found is None,
                }
                &&& final(args).items@ == without_named(items, name@)
            }
        }),
{
    let ghost items = args.items@;
    let ghost mut done: int = 0;
    let mut found: Option<bool> = None;
    let mut i: usize = 0;
    while i < args.items.len()
        invariant
            args.span == old(args).span,
            items == old(args).items@,
            0 <= done <= items.len(),
            i == without_named(items.take(done), name@).len(),
            args.items@ == without_named(items.take(done), name@) + items.skip(done),
            first_bad_flag(items, 0, name@) == first_bad_flag(items, done, name@),
            match last_named(items.take(done), name@) {
                Some(v) => v is Bool && found == Some(v->Bool_0),
                None => found is None,
            },
        decreases items.len() - done,
    {
        let ghost upto = items.take(done + 1);
        assert(upto.drop_last() == items.take(done));
        assert(upto.last() == items[done]);
        assert(args.items@[i as int] == items[done]);
        assert(items.skip(done).skip(1) == items.skip(done + 1));
        let matches = match &args.items[i].name {
            Some(n) => same_text(n.as_str(), name),
            None => false,
        };
        if matches {
            let a = args.items.remove(i);
            assert(args.items@ == without_named(items.take(done), name@) + items.skip(done + 1));
            match a.value {
                Value::Bool(b) => {
                    found = Some(b);
                },
                v => {
                    return Err(mismatch_error(a.span, "boolean", &v));
                },
            }
        } else {
            assert(args.items@ == without_named(upto, name@) + items.skip(done + 1));
            i += 1;
        }
        proof {
            done = done + 1;
        }
    }
    proof {
        assert(args.items@.len() == i + (items.len() - done));
        assert(items.take(done) == items);
        assert(items.skip(done) == Seq::<Arg>::empty());
        assert(args.items@ == without_named(items, name@));
    }
    Ok(found)
}

impl LinebreakNode {
    /// The line break as content.
    pub fn pack(self) -> (r: Content)
        ensures
            r == (Content::Linebreak { justify: self.justify }),
    {
        Content::Linebreak { justify: self.justify }
    }

    /// Makes a line break. It is justified where the argument `justify` says
    /// so, and not justified without that argument.
    pub fn construct(args: &mut Args) -> (r: Result<Content, SourceError>)
        ensures
            final(args).span == old(args).span,
            ({
                let items = old(args).items@;
                let bad = first_bad_flag(items, 0, "justify"@);
                if bad < items.len() {
                    fails_with(r, items[bad].span, items[bad].value.mismatch("boolean"@))
                } else {
                    &&& r matches Ok(Content::Linebreak { justify })
                    &&& justify == (last_named(items, "justify"@) == Some(Value::Bool(true)))
                    &&& final(args).items@ == without_named(items, "justify"@)
                }
            }),
    {
        let justify = match named_flag(args, "justify") {
            Ok(Some(b)) => b,
            Ok(None) => false,
            Err(e) => {
                return Err(e);
            },
        };
        Ok(LinebreakNode { justify }.pack())
    }

    /// A line break removes the spaces next to it.
    pub fn behaviour(&self) -> (r: Behaviour)
        ensures
            r == Behaviour::Destructive,
    {
        Behaviour::Destructive
    }
}

/// Takes the first argument that was passed by position and gives the
/// content that it stands for. Where there is none, the error says that
/// `what` is missing; where it stands for no content, the error says so.
pub fn expect_content(args: &mut Args, what: &str) -> (r: Result<Content, SourceError>)
    ensures
        final(args).span == old(args).span,
        ({
            let items = old(args).items@;
            let k = first_positional(items, 0);
            if k < items.len() {
                &&& final(args).items@ == items.remove(k)
                &&& match items[k].value.as_content() {
                    Some(c) => r == Ok::<Content, SourceError>(c),
                    None => fails_with(r, items[k].span, items[k].value.mismatch("content"@)),
                }
            } else {
                &&& final(args).items@ == items
                &&& fails_with(r, old(args).span, "missing argument: "@ + what@)
            }
        }),
{
    match args.expect(what) {
        Ok(a) => cast_content(a),
        Err(e) => Err(e),
    }
}

/// A delta that is summed up when folded.
#[derive(Debug, Copy, Clone, Eq, PartialEq, Hash, Structural)]
pub struct Delta(pub i64);

impl Delta {
    /// The sum of the delta and what was folded before it.
    pub fn fold(self, outer: i64) -> (r: i64)
        requires
            i64::MIN <= outer + self.0 <= i64::MAX,
        ensures
            r == outer + self.0,
    {
        outer + self.0
    }
}

/// A toggle that turns on and off alternatingly if folded.
#[derive(Debug, Copy, Clone, Eq, PartialEq, Hash, Structural)]
pub struct Toggle;

impl Toggle {
    /// The opposite of what was folded before.
    pub fn fold(self, outer: bool) -> (r: bool)
        ensures
            r == !outer,
    {
        !outer
    }
}

/// Strongly emphasizes content by increasing the font weight.
#[derive(Debug, PartialEq, Eq)]
pub struct StrongNode(pub Content);

/// The delta that strong emphasis puts on the font weight, unless another is
/// set.
pub const STRONG_DELTA: i64 = 300;

impl StrongNode {
    /// The node as content.
    pub fn pack(self) -> (r: Content)
        ensures
            r == Content::Strong(Box::new(self.0)),
    {
        Content::Strong(Box::new(self.0))
    }

    /// Makes strong emphasis of the body that is passed by position.
    pub fn construct(args: &mut Args) -> (r: Result<Content, SourceError>)
        ensures
            final(args).span == old(args).span,
            ({
                let items = old(args).items@;
                let k = first_positional(items, 0);
                if k < items.len() {
                    &&& final(args).items@ == items.remove(k)
                    &&& match items[k].value.as_content() {
                        Some(c) => r == Ok::<Content, SourceError>(Content::Strong(Box::new(c))),
                        None => fails_with(r, items[k].span, items[k].value.mismatch("content"@)),
                    }
                } else {
                    &&& final(args).items@ == items
                    &&& fails_with(r, old(args).span, "missing argument: body"@)
                }
            }),
    {
        proof {
            reveal_strlit("missing argument: ");
            reveal_strlit("body");
            reveal_strlit("missing argument: body");
            assert("missing argument: "@ + "body"@ =~= "missing argument: body"@);
        }
        match expect_content(args, "body") {
            Ok(body) => Ok(StrongNode(body).pack()),
            Err(e) => Err(e),
        }
    }

    /// The field `name` of the node: its body under the name `body`, and no
    /// other.
    pub fn field(&self, name: &str) -> (r: Option<Value>)
        ensures
            r == if name@ == "body"@ {
                Some(Value::Content(self.0))
            } else {
                None
            },
    {
        if same_text(name, "body") {
            Some(Value::Content(self.0.duplicate()))
        } else {
            None
        }
    }

    /// The body, with the font weight changed by `delta`.
    pub fn show(&self, delta: i64) -> (r: Content)
        ensures
            r == Content::Styled(Box::new(self.0), Style::Weight(Delta(delta))),
    {
        self.0.duplicate().styled(Style::Weight(Delta(delta)))
    }
}

/// Emphasizes content by flipping the italicness.
#[derive(Debug, PartialEq, Eq)]
pub struct EmphNode(pub Content);

impl EmphNode {
    /// The node as content.
    pub fn pack(self) -> (r: Content)
        ensures
            r == Content::Emph(Box::new(self.0)),
    {
        Content::Emph(Box::new(self.0))
    }

    /// Makes emphasis of the body that is passed by position.
    pub fn construct(args: &mut Args) -> (r: Result<Content, SourceError>)
        ensures
            final(args).span == old(args).span,
            ({
                let items = old(args).items@;
                let k = first_positional(items, 0);
                if k < items.len() {
                    &&& final(args).items@ == items.remove(k)
                    &&& match items[k].value.as_content() {
                        Some(c) => r == Ok::<Content, SourceError>(Content::Emph(Box::new(c))),
                        None => fails_with(r, items[k].span, items[k].value.mismatch("content"@)),
                    }
                } else {
                    &&& final(args).items@ == items
                    &&& fails_with(r, old(args).span, "missing argument: body"@)
                }
            }),
    {
        proof {
            reveal_strlit("missing argument: ");
            reveal_strlit("body");
            reveal_strlit("missing argument: body");
            assert("missing argument: "@ + "body"@ =~= "missing argument: body"@);
        }
        match expect_content(args, "body") {
            Ok(body) => Ok(EmphNode(body).pack()),
            Err(e) => Err(e),
        }
    }

    /// The field `name` of the node: its body under the name `body`, and no
    /// other.
    pub fn field(&self, name: &str) -> (r: Option<Value>)
        ensures
            r == if name@ == "body"@ {
                Some(Value::Content(self.0))
            } else {
                None
            },
    {
        if same_text(name, "body") {
            Some(Value::Content(self.0.duplicate()))
        } else {
            None
        }
    }

    /// The body, with the italicness flipped.
    pub fn show(&self) -> (r: Content)
        ensures
            r == Content::Styled(Box::new(self.0), Style::Emph(Toggle)),
    {
        self.0.duplicate().styled(Style::Emph(Toggle))
    }
}

/// A case transformation on text.
#[derive(Debug, Copy, Clone, Eq, PartialEq, Hash, Structural)]
pub enum Case {
    /// Everything is lowercased.
    Lower,
    /// Everything is uppercased.
    Upper,
}

impl Case {
    /// The text in this case.
    pub open spec fn applied(self, text: Seq<char>) -> Seq<char> {
        match self {
            Case::Lower => lowercase(text),
            Case::Upper => uppercase(text),
        }
    }

    /// Apply the case to a string.
    pub fn apply(self, text: &str) -> (r: String)
        ensures
            r@ == self.applied(text@),
    {
        match self {
            Case::Lower => text.to_lowercase(),
            Case::Upper => text.to_uppercase(),
        }
    }
}

/// The value in the case `case`: a string in that case, content styled with
/// it; no other value has a case.
pub fn cased(case: Case, a: Arg) -> (r: Result<Value, SourceError>)
    ensures
        match a.value {
            Value::Str(s) => r matches Ok(Value::Str(t)) && t@ == case.applied(s@),
            Value::Content(c) => r == Ok::<Value, SourceError>(
                Value::Content(Content::Styled(Box::new(c), Style::Case(Some(case)))),
            ),
            _ => fails_with(r, a.span, a.value.mismatch("string or content"@)),
        },
{
    match a.value {
        Value::Str(s) => Ok(Value::Str(case.apply(s.as_str()))),
        Value::Content(c) => Ok(Value::Content(c.styled(Style::Case(Some(case))))),
        v => Err(mismatch_error(a.span, "string or content", &v)),
    }
}

/// What a change of case makes of the arguments `items`: the first argument
/// that was passed by position, put in the case.
pub open spec fn case_result(r: Result<Value, SourceError>, case: Case, span: u64, items: Seq<Arg>) -> bool {
    let k = first_positional(items, 0);
    if k < items.len() {
        match items[k].value {
            Value::Str(s) => r matches Ok(Value::Str(t)) && t@ == case.applied(s@),
            Value::Content(c) => r == Ok::<Value, SourceError>(
                Value::Content(Content::Styled(Box::new(c), Style::Case(Some(case)))),
            ),
            _ => fails_with(r, items[k].span, items[k].value.mismatch("string or content"@)),
        }
    } else {
        fails_with(r, span, "missing argument: string or content"@)
    }
}

/// What is left of the arguments `items` once the first that was passed by
/// position is taken.
pub open spec fn rest_of(items: Seq<Arg>) -> Seq<Arg> {
    let k = first_positional(items, 0);
    if k < items.len() {
        items.remove(k)
    } else {
        items
    }
}

/// Change the case of text.
pub fn case(to: Case, args: &mut Args) -> (r: Result<Value, SourceError>)
    ensures
        case_result(r, to, old(args).span, old(args).items@),
        final(args).span == old(args).span,
        final(args).items@ == rest_of(old(args).items@),
{
    proof {
        reveal_strlit("missing argument: ");
        reveal_strlit("string or content");
        reveal_strlit("missing argument: string or content");
        assert("missing argument: "@ + "string or content"@
            =~= "missing argument: string or content"@);
    }
    match args.expect("string or content") {
        Ok(a) => cased(to, a),
        Err(e) => Err(e),
    }
}

/// Convert text or content to lowercase.
pub fn lower(args: &mut Args) -> (r: Result<Value, SourceError>)
    ensures
        case_result(r, Case::Lower, old(args).span, old(args).items@),
        final(args).span == old(args).span,
        final(args).items@ == rest_of(old(args).items@),
{
    case(Case::Lower, args)
}

/// Convert text or content to uppercase.
pub fn upper(args: &mut Args) -> (r: Result<Value, SourceError>)
    ensures
        case_result(r, Case::Upper, old(args).span, old(args).items@),
        final(args).span == old(args).span,
        final(args).items@ == rest_of(old(args).items@),
{
    case(Case::Upper, args)
}

/// Display text in small capitals.
pub fn smallcaps(args: &mut Args) -> (r: Result<Value, SourceError>)
    ensures
        final(args).span == old(args).span,
        final(args).items@ == rest_of(old(args).items@),
        ({
            let items = old(args).items@;
            let k = first_positional(items, 0);
            if k < items.len() {
                match items[k].value.as_content() {
                    Some(c) => r == Ok::<Value, SourceError>(
                        Value::Content(Content::Styled(Box::new(c), Style::Smallcaps(true))),
                    ),
                    None => fails_with(r, items[k].span, items[k].value.mismatch("content"@)),
                }
            } else {
                fails_with(r, old(args).span, "missing argument: content"@)
            }
        }),
{
    proof {
        reveal_strlit("missing argument: ");
        reveal_strlit("content");
        reveal_strlit("missing argument: content");
        assert("missing argument: "@ + "content"@ =~= "missing argument: content"@);
    }
    match expect_content(args, "content") {
        Ok(body) => Ok(Value::Content(body.styled(Style::Smallcaps(true)))),
        Err(e) => Err(e),
    }
}

} // verus!
