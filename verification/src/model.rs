//! Values, content and arguments: what a documented function is called with
//! and what it gives back.

use vstd::prelude::*;
use crate::nodes::{Case, Delta, Toggle};
use crate::text::{append, to_chars, to_string};

verus! {

/// A property that content is styled with.
#[derive(Debug, PartialEq, Eq)]
pub enum Style {
    /// A change of the font weight.
    Weight(Delta),
    /// A flip of the italicness.
    Emph(Toggle),
    /// A case that text is put in, if any.
    Case(Option<Case>),
    /// Whether text is shown in small capitals.
    Smallcaps(bool),
}

/// A piece of a document.
#[derive(Debug, PartialEq, Eq)]
pub enum Content {
    /// Nothing.
    Empty,
    /// A space between words.
    Space,
    /// A break of the line.
    Linebreak { justify: bool },
    /// Plain text.
    Text(String),
    /// Strongly emphasized content.
    Strong(Box<Content>),
    /// Emphasized content.
    Emph(Box<Content>),
    /// Content with a property to style it with.
    Styled(Box<Content>, Style),
}

/// A value that a function takes or gives.
#[derive(Debug, PartialEq, Eq)]
pub enum Value {
    /// The value that stands for nothing.
    Nothing,
    Bool(bool),
    Int(i64),
    Str(String),
    Content(Content),
}

/// One argument of a call.
#[derive(Debug, PartialEq, Eq)]
pub struct Arg {
    /// Where the argument stands in the source.
    pub span: u64,
    /// The name that it was passed by, if it was passed by name.
    pub name: Option<String>,
    /// Its value.
    pub value: Value,
}

/// The arguments of a call that have not been taken yet.
#[derive(Debug, PartialEq, Eq)]
pub struct Args {
    /// Where the call stands in the source.
    pub span: u64,
    /// The arguments, in the order in which they were passed.
    pub items: Vec<Arg>,
}

/// An error at a place of the source.
#[derive(Debug, PartialEq, Eq)]
pub struct SourceError {
    /// Where in the source the error is.
    pub span: u64,
    /// What is wrong there.
    pub message: String,
}

/// Whether `r` is the error at `span` with the message `message`.
pub open spec fn fails_with<T>(r: Result<T, SourceError>, span: u64, message: Seq<char>) -> bool {
    r matches Err(e) && e.span == span && e.message@ == message
}

impl Style {
    /// A copy of the property.
    pub fn duplicate(&self) -> (r: Style)
        ensures
            r == *self,
    {
        match self {
            Style::Weight(d) => Style::Weight(*d),
            Style::Emph(t) => Style::Emph(*t),
            Style::Case(c) => Style::Case(*c),
            Style::Smallcaps(b) => Style::Smallcaps(*b),
        }
    }
}

impl Content {
    /// The content with one more property to style it with.
    pub fn styled(self, style: Style) -> (r: Content)
        ensures
            r == Content::Styled(Box::new(self), style),
    {
        Content::Styled(Box::new(self), style)
    }

    /// A copy of the content.
    pub fn duplicate(&self) -> (r: Content)
        ensures
            r == *self,
        decreases self,
    {
        match self {
            Content::Empty => Content::Empty,
            Content::Space => Content::Space,
            Content::Linebreak { justify } => Content::Linebreak { justify: *justify },
            Content::Text(t) => Content::Text(t.clone()),
            Content::Strong(body) => Content::Strong(Box::new(body.duplicate())),
            Content::Emph(body) => Content::Emph(Box::new(body.duplicate())),
            Content::Styled(body, style) => Content::Styled(
                Box::new(body.duplicate()),
                style.duplicate(),
            ),
        }
    }
}

impl Value {
    /// The name of the value's type.
    pub open spec fn type_label_of(self) -> Seq<char> {
        match self {
            Value::Nothing => "none"@,
            Value::Bool(_) => "boolean"@,
            Value::Int(_) => "integer"@,
            Value::Str(_) => "string"@,
            Value::Content(_) => "content"@,
        }
    }

    /// The name of the value's type.
    pub fn type_label(&self) -> (r: &'static str)
        ensures
            r@ == self.type_label_of(),
    {
        match self {
            Value::Nothing => "none",
            Value::Bool(_) => "boolean",
            Value::Int(_) => "integer",
            Value::Str(_) => "string",
            Value::Content(_) => "content",
        }
    }

    /// The message that says what was expected in place of the value.
    pub open spec fn mismatch(self, expected: Seq<char>) -> Seq<char> {
        "expected "@ + expected + ", found "@ + self.type_label_of()
    }

    /// The content that the value stands for. Content stands for itself, a
    /// string for its text, and no value for no content; no other value
    /// stands for content.
    pub open spec fn as_content(self) -> Option<Content> {
        match self {
            Value::Content(c) => Some(c),
            Value::Str(s) => Some(Content::Text(s)),
            Value::Nothing => Some(Content::Empty),
            _ => None,
        }
    }
}

/// The text `prefix` and then `rest`.
pub fn message(prefix: &str, rest: &str) -> (r: String)
    ensures
        r@ == prefix@ + rest@,
{
    let mut out = to_chars(prefix);
    append(&mut out, &to_chars(rest));
    to_string(&out)
}

/// The error that says what was expected in place of `found`.
pub fn mismatch_error(span: u64, expected: &str, found: &Value) -> (e: SourceError)
    ensures
        e.span == span,
        e.message@ == found.mismatch(expected@),
{
    let mut out = to_chars("expected ");
    append(&mut out, &to_chars(expected));
    append(&mut out, &to_chars(", found "));
    append(&mut out, &to_chars(found.type_label()));
    SourceError { span, message: to_string(&out) }
}

/// Whether an argument was passed by position.
pub open spec fn is_positional(a: Arg) -> bool {
    a.name is None
}

/// The index of the first argument at or behind `k` that was passed by
/// position, or the number of arguments.
pub open spec fn first_positional(items: Seq<Arg>, k: int) -> int
    decreases items.len() - k,
{
    if 0 <= k < items.len() && !is_positional(items[k]) {
        first_positional(items, k + 1)
    } else {
        k
    }
}

impl Args {
    /// Takes the first argument that was passed by position, if there is one.
    /// The other arguments stay in their order.
    pub fn eat(&mut self) -> (r: Option<Arg>)
        ensures
            final(self).span == old(self).span,
            ({
                let k = first_positional(old(self).items@, 0);
                if k < old(self).items@.len() {
                    r == Some(old(self).items@[k]) && final(self).items@ == old(self).items@.remove(k)
                } else {
                    r is None && final(self).items@ == old(self).items@
                }
            }),
    {
        let mut k: usize = 0;
        while k < self.items.len() && self.items[k].name.is_some()
            invariant
                k <= self.items.len(),
                *self == *old(self),
                first_positional(self.items@, 0) == first_positional(self.items@, k as int),
            decreases self.items.len() - k,
        {
            k += 1;
        }
        if k < self.items.len() {
            Some(self.items.remove(k))
        } else {
            None
        }
    }

    /// Takes the first argument that was passed by position. Where there is
    /// none, the error says that `what` is missing.
    pub fn expect(&mut self, what: &str) -> (r: Result<Arg, SourceError>)
        ensures
            final(self).span == old(self).span,
            ({
                let k = first_positional(old(self).items@, 0);
                if k < old(self).items@.len() {
                    r == Ok::<Arg, SourceError>(old(self).items@[k]) && final(self).items@ == old(self).items@.remove(k)
                } else {
                    fails_with(r, old(self).span, "missing argument: "@ + what@) && final(self).items@ == old(self).items@
                }
            }),
    {
        match self.eat() {
            Some(a) => Ok(a),
            None => Err(SourceError { span: self.span, message: message("missing argument: ", what) }),
        }
    }
}

/// The content that an argument stands for, or the error at the argument
/// that says that content was expected.
pub fn cast_content(a: Arg) -> (r: Result<Content, SourceError>)
    ensures
        match a.value.as_content() {
            Some(c) => r == Ok::<Content, SourceError>(c),
            None => fails_with(r, a.span, a.value.mismatch("content"@)),
        },
{
    match a.value {
        Value::Content(c) => Ok(c),
        Value::Str(s) => Ok(Content::Text(s)),
        Value::Nothing => Ok(Content::Empty),
        v => Err(mismatch_error(a.span, "content", &v)),
    }
}

/// The boolean that an argument is, or the error at the argument that says
/// that a boolean was expected.
pub fn cast_bool(a: Arg) -> (r: Result<bool, SourceError>)
    ensures
        match a.value {
            Value::Bool(b) => r == Ok::<bool, SourceError>(b),
            _ => fails_with(r, a.span, a.value.mismatch("boolean"@)),
        },
{
    match a.value {
        Value::Bool(b) => Ok(b),
        v => Err(mismatch_error(a.span, "boolean", &v)),
    }
}

} // verus!
