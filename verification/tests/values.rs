use std::hash::Hash;

use siphasher::sip128::{Hasher128, SipHasher13};

use docmeta::foundations::{assert_, markup, type_};
use docmeta::location::Location;
use docmeta::model::{cast_bool, cast_content, Arg, Args, Content, SourceError, Style, Value};
use docmeta::nodes::{
    case, cased, expect_content, lower, named_flag, smallcaps, upper, Behaviour, Case, Delta,
    EmphNode, LinebreakNode, SpaceNode, StrongNode, Toggle, STRONG_DELTA,
};

fn pos(span: u64, value: Value) -> Arg {
    Arg { span, name: None, value }
}

fn named(span: u64, name: &str, value: Value) -> Arg {
    Arg { span, name: Some(String::from(name)), value }
}

fn text(s: &str) -> Value {
    Value::Str(String::from(s))
}

fn error<T>(span: u64, message: &str) -> Result<T, SourceError> {
    Err(SourceError { span, message: String::from(message) })
}

#[test]
fn case_is_applied_to_text() {
    assert_eq!(Case::Lower.apply("HeLLo W\u{d6}RLD"), "hello w\u{f6}rld");
    assert_eq!(Case::Upper.apply("stra\u{df}e 1"), "STRASSE 1");
    assert_eq!(Case::Lower.apply(""), "");
}

#[test]
fn lower_and_upper_change_a_string() {
    let mut args = Args { span: 7, items: vec![named(1, "x", Value::Int(1)), pos(2, text("MiXed"))] };
    assert_eq!(lower(&mut args), Ok(text("mixed")));
    assert_eq!(args, Args { span: 7, items: vec![named(1, "x", Value::Int(1))] });
    let mut args = Args { span: 7, items: vec![pos(2, text("MiXed")), pos(3, text("more"))] };
    assert_eq!(upper(&mut args), Ok(text("MIXED")));
    assert_eq!(args, Args { span: 7, items: vec![pos(3, text("more"))] });
}

#[test]
fn lower_and_upper_style_content() {
    let mut args = Args { span: 7, items: vec![pos(2, Value::Content(Content::Space))] };
    assert_eq!(
        upper(&mut args),
        Ok(Value::Content(Content::Styled(Box::new(Content::Space), Style::Case(Some(Case::Upper)))))
    );
    let mut args = Args { span: 7, items: vec![pos(2, Value::Content(Content::Text(String::from("Ab"))))] };
    assert_eq!(
        case(Case::Lower, &mut args),
        Ok(Value::Content(Content::Styled(
            Box::new(Content::Text(String::from("Ab"))),
            Style::Case(Some(Case::Lower))
        )))
    );
}

#[test]
fn case_of_another_value_fails() {
    let mut args = Args { span: 7, items: vec![pos(2, Value::Int(3))] };
    assert_eq!(lower(&mut args), error(2, "expected string or content, found integer"));
    assert!(args.items.is_empty());
    let mut args = Args { span: 7, items: vec![named(1, "text", text("a"))] };
    assert_eq!(upper(&mut args), error(7, "missing argument: string or content"));
    assert_eq!(args.items.len(), 1);
    assert_eq!(cased(Case::Lower, pos(4, Value::Nothing)), error(4, "expected string or content, found none"));
    assert_eq!(cased(Case::Upper, pos(4, Value::Bool(true))), error(4, "expected string or content, found boolean"));
}

#[test]
fn smallcaps_styles_content() {
    let mut args = Args { span: 7, items: vec![pos(2, text("abc"))] };
    assert_eq!(
        smallcaps(&mut args),
        Ok(Value::Content(Content::Styled(
            Box::new(Content::Text(String::from("abc"))),
            Style::Smallcaps(true)
        )))
    );
    let mut args = Args { span: 7, items: vec![pos(2, Value::Bool(false))] };
    assert_eq!(smallcaps(&mut args), error(2, "expected content, found boolean"));
    let mut args = Args { span: 9, items: vec![] };
    assert_eq!(smallcaps(&mut args), error(9, "missing argument: content"));
}

#[test]
fn assertion_passes_or_fails() {
    let mut args = Args { span: 7, items: vec![pos(2, Value::Bool(true))] };
    assert_eq!(assert_(&mut args), Ok(Value::Nothing));
    assert!(args.items.is_empty());
    let mut args = Args { span: 7, items: vec![pos(2, Value::Bool(false))] };
    assert_eq!(assert_(&mut args), error(2, "assertion failed"));
    let mut args = Args { span: 7, items: vec![pos(2, text("true"))] };
    assert_eq!(assert_(&mut args), error(2, "expected boolean, found string"));
    let mut args = Args { span: 7, items: vec![] };
    assert_eq!(assert_(&mut args), error(7, "missing argument: condition"));
}

#[test]
fn type_of_a_value() {
    let name = |value: Value| type_(&mut Args { span: 0, items: vec![pos(1, value)] });
    assert_eq!(name(Value::Nothing), Ok(text("none")));
    assert_eq!(name(Value::Bool(false)), Ok(text("boolean")));
    assert_eq!(name(Value::Int(-4)), Ok(text("integer")));
    assert_eq!(name(text("s")), Ok(text("string")));
    assert_eq!(name(Value::Content(Content::Empty)), Ok(text("content")));
    assert_eq!(type_(&mut Args { span: 5, items: vec![] }), error(5, "missing argument: value"));
    assert_eq!(Value::Int(1).type_label(), "integer");
}

#[test]
fn arguments_are_taken_in_order() {
    let mut args = Args {
        span: 7,
        items: vec![named(1, "a", Value::Int(1)), pos(2, Value::Int(2)), pos(3, Value::Int(3))],
    };
    assert_eq!(args.eat(), Some(pos(2, Value::Int(2))));
    assert_eq!(args.expect("second"), Ok(pos(3, Value::Int(3))));
    assert_eq!(args.eat(), None);
    assert_eq!(args.expect("third"), error(7, "missing argument: third"));
    assert_eq!(args.items, vec![named(1, "a", Value::Int(1))]);
}

#[test]
fn values_are_cast() {
    assert_eq!(cast_bool(pos(1, Value::Bool(true))), Ok(true));
    assert_eq!(cast_bool(pos(1, Value::Int(1))), error(1, "expected boolean, found integer"));
    assert_eq!(cast_content(pos(1, Value::Nothing)), Ok(Content::Empty));
    assert_eq!(cast_content(pos(1, text("t"))), Ok(Content::Text(String::from("t"))));
    assert_eq!(cast_content(pos(1, Value::Content(Content::Space))), Ok(Content::Space));
    assert_eq!(cast_content(pos(1, Value::Int(1))), error(1, "expected content, found integer"));
    let mut args = Args { span: 7, items: vec![pos(2, text("t"))] };
    assert_eq!(expect_content(&mut args, "body"), Ok(Content::Text(String::from("t"))));
}

#[test]
fn named_flag_takes_every_argument_of_its_name() {
    let mut args = Args {
        span: 7,
        items: vec![
            named(1, "justify", Value::Bool(true)),
            pos(2, Value::Int(2)),
            named(3, "other", Value::Bool(true)),
            named(4, "justify", Value::Bool(false)),
        ],
    };
    assert_eq!(named_flag(&mut args, "justify"), Ok(Some(false)));
    assert_eq!(args.items, vec![pos(2, Value::Int(2)), named(3, "other", Value::Bool(true))]);
    assert_eq!(named_flag(&mut args, "justify"), Ok(None));
    assert_eq!(args.items.len(), 2);
}

#[test]
fn named_flag_stops_at_the_first_that_is_no_boolean() {
    let mut args = Args {
        span: 7,
        items: vec![
            named(1, "justify", Value::Bool(true)),
            pos(2, Value::Int(2)),
            named(3, "justify", Value::Int(1)),
            named(4, "justify", Value::Bool(false)),
        ],
    };
    assert_eq!(named_flag(&mut args, "justify"), error(3, "expected boolean, found integer"));
    assert_eq!(args.items, vec![pos(2, Value::Int(2)), named(4, "justify", Value::Bool(false))]);
}

#[test]
fn space_and_line_break() {
    let mut args = Args { span: 7, items: vec![pos(2, Value::Int(2))] };
    assert_eq!(SpaceNode::construct(&mut args), Ok(Content::Space));
    assert_eq!(args.items.len(), 1);
    assert_eq!(SpaceNode.behaviour(), Behaviour::Weak(2));
    assert_eq!(SpaceNode.pack(), Content::Space);
    let mut args = Args { span: 7, items: vec![] };
    assert_eq!(LinebreakNode::construct(&mut args), Ok(Content::Linebreak { justify: false }));
    let mut args = Args { span: 7, items: vec![named(1, "justify", Value::Bool(true))] };
    assert_eq!(LinebreakNode::construct(&mut args), Ok(Content::Linebreak { justify: true }));
    assert!(args.items.is_empty());
    let mut args = Args { span: 7, items: vec![named(1, "justify", text("yes"))] };
    assert_eq!(LinebreakNode::construct(&mut args), error(1, "expected boolean, found string"));
    assert_eq!(LinebreakNode { justify: true }.behaviour(), Behaviour::Destructive);
}

#[test]
fn strong_and_emphasis() {
    let mut args = Args { span: 7, items: vec![pos(2, text("b"))] };
    let strong = StrongNode::construct(&mut args);
    assert_eq!(strong, Ok(Content::Strong(Box::new(Content::Text(String::from("b"))))));
    let mut args = Args { span: 7, items: vec![] };
    assert_eq!(StrongNode::construct(&mut args), error(7, "missing argument: body"));
    let mut args = Args { span: 7, items: vec![pos(2, Value::Int(0))] };
    assert_eq!(EmphNode::construct(&mut args), error(2, "expected content, found integer"));
    let mut args = Args { span: 7, items: vec![pos(2, Value::Content(Content::Space))] };
    assert_eq!(EmphNode::construct(&mut args), Ok(Content::Emph(Box::new(Content::Space))));

    let node = StrongNode(Content::Strong(Box::new(Content::Text(String::from("deep")))));
    assert_eq!(
        node.field("body"),
        Some(Value::Content(Content::Strong(Box::new(Content::Text(String::from("deep"))))))
    );
    assert_eq!(node.field("Body"), None);
    assert_eq!(
        node.show(STRONG_DELTA),
        Content::Styled(
            Box::new(Content::Strong(Box::new(Content::Text(String::from("deep"))))),
            Style::Weight(Delta(300))
        )
    );
    let node = EmphNode(Content::Styled(Box::new(Content::Space), Style::Smallcaps(true)));
    assert_eq!(
        node.field("body"),
        Some(Value::Content(Content::Styled(Box::new(Content::Space), Style::Smallcaps(true))))
    );
    assert_eq!(node.field(""), None);
    assert_eq!(
        node.show(),
        Content::Styled(
            Box::new(Content::Styled(Box::new(Content::Space), Style::Smallcaps(true))),
            Style::Emph(Toggle)
        )
    );
}

#[test]
fn deltas_add_up_and_toggles_flip() {
    assert_eq!(Delta(300).fold(400), 700);
    assert_eq!(Delta(-300).fold(100), -200);
    assert_eq!(Delta(0).fold(i64::MAX), i64::MAX);
    assert!(Toggle.fold(false));
    assert!(!Toggle.fold(true));
    assert!(!Toggle.fold(Toggle.fold(false)));
}

#[test]
fn root_location() {
    assert_eq!(Location::root(), Location(0));
}

#[test]
fn variant_is_the_hash_of_location_and_number() {
    let root = Location::root();
    let mut state = SipHasher13::new();
    (root, 3_usize).hash(&mut state);
    assert_eq!(root.variant(3), Location(state.finish128().as_u128()));
    assert_eq!(root.variant(3), root.variant(3));
    assert_ne!(root.variant(3), root.variant(4));
    assert_ne!(root.variant(3), root);
    assert_ne!(root.variant(0).variant(1), root.variant(1).variant(0));
}

#[test]
fn markup_is_a_string() {
    let mut args = Args { span: 7, items: vec![pos(2, text("*hi*")), pos(3, Value::Int(1))] };
    assert_eq!(markup(&mut args), Ok((String::from("*hi*"), 2)));
    assert_eq!(markup(&mut args), error(3, "expected string, found integer"));
    assert_eq!(markup(&mut args), error(7, "missing argument: source"));
}
