use docmeta::metadata::{
    annotate, get_flag_metadata, get_metadata, parse_part_metadata, Annotation, AnnotationKind,
    TestConfiguration,
};
use docmeta::position::{read_number, read_position, read_range, Source};

fn chars(s: &str) -> Vec<char> {
    s.chars().collect()
}

fn annotations(text: &str) -> Vec<Annotation> {
    parse_part_metadata(&Source::new(text), "0.0.0").annotations
}

fn note(kind: AnnotationKind, range: Option<(usize, usize)>, message: &str) -> Annotation {
    Annotation { range: range.map(|(a, b)| a..b), message: String::from(message), kind }
}

#[test]
fn last_flag_wins() {
    let meta = parse_part_metadata(&Source::new("// Ref: true\nx\n// Ref: false\n"), "1");
    assert_eq!(meta.part_configuration.compare_ref, Some(false));
    let meta = parse_part_metadata(&Source::new("// Ref: false\n// Ref: true"), "1");
    assert_eq!(meta.part_configuration.compare_ref, Some(true));
}

#[test]
fn flags_are_set_one_by_one() {
    let meta = parse_part_metadata(&Source::new("  // Hints: false  \ncode\n//Ref: true"), "1");
    assert_eq!(
        meta.part_configuration,
        TestConfiguration {
            compare_ref: None,
            validate_hints: Some(false),
            validate_autocomplete: None
        }
    );
    assert!(meta.annotations.is_empty());
}

#[test]
fn flag_with_another_value_sets_nothing() {
    let meta = parse_part_metadata(&Source::new("// Ref: true\n// Ref: maybe\n// Ref:\n// Ref: True"), "1");
    assert_eq!(meta.part_configuration.compare_ref, Some(true));
    let meta = parse_part_metadata(&Source::new("// Ref: yes"), "1");
    assert_eq!(meta.part_configuration.compare_ref, None);
}

#[test]
fn no_source_fails() {
    let meta = parse_part_metadata(&Source::new(""), "1");
    assert_eq!(
        meta.part_configuration,
        TestConfiguration { compare_ref: None, validate_hints: None, validate_autocomplete: None }
    );
    assert!(meta.annotations.is_empty());
    assert!(annotations("// Error\n// Error:\n//Error: x\n// error: x\n# Error: x\n/// Error: x").is_empty());
}

#[test]
fn error_with_line_and_column() {
    let text = "\n\n\n\n\n// Error: 1:1 bad\nx";
    assert_eq!(annotations(text), vec![note(AnnotationKind::Error, Some((23, 23)), "bad")]);
}

#[test]
fn warning_without_a_range() {
    assert_eq!(
        annotations("// Warning: oops"),
        vec![note(AnnotationKind::Warning, None, "oops")]
    );
    assert_eq!(
        annotations("   // Warning:   spaced out   \nx"),
        vec![note(AnnotationKind::Warning, None, "spaced out")]
    );
}

#[test]
fn hint_is_not_hints() {
    let meta = parse_part_metadata(&Source::new("// Hints: true\n// Hint: try this\nx"), "1");
    assert_eq!(meta.part_configuration.validate_hints, Some(true));
    assert_eq!(meta.annotations, vec![note(AnnotationKind::Hint, None, "try this")]);
}

#[test]
fn same_directive_twice_is_one_annotation() {
    assert_eq!(
        annotations("// Error: 1 a\n// Error: 1 a\nx"),
        vec![note(AnnotationKind::Error, Some((28, 28)), "a")]
    );
    assert_eq!(
        annotations("// Warning: w\nx\n// Warning: w\ny\n// Hint: w"),
        vec![note(AnnotationKind::Warning, None, "w"), note(AnnotationKind::Hint, None, "w")]
    );
}

#[test]
fn same_text_at_another_place_is_another_annotation() {
    assert_eq!(
        annotations("// Error: 1 a\nx\n// Error: 1 a\ny"),
        vec![
            note(AnnotationKind::Error, Some((14, 14)), "a"),
            note(AnnotationKind::Error, Some((30, 30)), "a"),
        ]
    );
}

#[test]
fn version_is_put_into_the_message() {
    let meta = parse_part_metadata(
        &Source::new("// Error: needs VERSION here\n// Hint: VERSIONVERSION VERSIO version\n"),
        "0.11.0",
    );
    assert_eq!(
        meta.annotations,
        vec![
            note(AnnotationKind::Error, None, "needs 0.11.0 here"),
            note(AnnotationKind::Hint, None, "0.11.00.11.0 VERSIO version"),
        ]
    );
}

#[test]
fn version_that_holds_the_word_is_not_replaced_again() {
    let meta = parse_part_metadata(&Source::new("// Error: at VERSION"), "VERSION-2");
    assert_eq!(meta.annotations, vec![note(AnnotationKind::Error, None, "at VERSION-2")]);
}

#[test]
fn range_of_two_columns() {
    assert_eq!(
        annotations("// Error: 2-5 msg\nabcdef"),
        vec![note(AnnotationKind::Error, Some((19, 22)), "msg")]
    );
}

#[test]
fn range_of_two_lines_and_columns() {
    assert_eq!(
        annotations("// Hint: 2:3-2:5 m\nab\ncdefg"),
        vec![note(AnnotationKind::Hint, Some((24, 26)), "m")]
    );
    assert_eq!(
        annotations("// Hint: 1:2-2:1 m\nab\ncdefg"),
        vec![note(AnnotationKind::Hint, Some((20, 22)), "m")]
    );
}

#[test]
fn columns_count_characters_and_offsets_count_bytes() {
    assert_eq!(
        annotations("// Error: 2-4 x\n\u{e9}\u{6f22}z\u{1f600}"),
        vec![note(AnnotationKind::Error, Some((18, 22)), "x")]
    );
    assert_eq!(
        annotations("// \u{e9}\n// Error: 5 x\n\u{6f22}\u{6f22}\u{6f22}\u{1f600}"),
        vec![note(AnnotationKind::Error, Some((33, 33)), "x")]
    );
}

#[test]
fn line_before_the_reference_line() {
    assert_eq!(
        annotations("x\n// Error: 0:1 m\ny"),
        vec![note(AnnotationKind::Error, Some((2, 2)), "m")]
    );
    assert_eq!(
        annotations("x\n// Error: -1:2-0:3 m\ny"),
        vec![note(AnnotationKind::Error, Some((1, 4)), "m")]
    );
}

#[test]
fn reference_line_is_behind_the_comments() {
    assert_eq!(
        annotations("// one\n// Error: 3 m\n  // three\ncode"),
        vec![note(AnnotationKind::Error, Some((34, 34)), "m")]
    );
}

#[test]
fn range_that_does_not_resolve_is_part_of_the_message() {
    assert_eq!(
        annotations("// Error: 9 m\nab"),
        vec![note(AnnotationKind::Error, None, "9 m")]
    );
    assert_eq!(
        annotations("// Error: 5:1 m\nab"),
        vec![note(AnnotationKind::Error, None, "5:1 m")]
    );
    assert_eq!(
        annotations("// Error: 0 m\nab"),
        vec![note(AnnotationKind::Error, None, "0 m")]
    );
    assert_eq!(
        annotations("// Error: 1-9 m\nab"),
        vec![note(AnnotationKind::Error, None, "1-9 m")]
    );
    assert_eq!(
        annotations("// Error: 1: m\nab"),
        vec![note(AnnotationKind::Error, None, "1: m")]
    );
    assert_eq!(
        annotations("// Error: -3:1 m\nab"),
        vec![note(AnnotationKind::Error, None, "-3:1 m")]
    );
}

#[test]
fn range_that_ends_before_it_starts_does_not_resolve() {
    assert_eq!(
        annotations("// Error: 3-1 m\nabc"),
        vec![note(AnnotationKind::Error, None, "3-1 m")]
    );
}

#[test]
fn column_behind_the_last_character_resolves() {
    assert_eq!(
        annotations("// Error: 3 m\nab\ncd"),
        vec![note(AnnotationKind::Error, Some((16, 16)), "m")]
    );
    assert_eq!(
        annotations("// Error: 4 m\nab\ncd"),
        vec![note(AnnotationKind::Error, None, "4 m")]
    );
}

#[test]
fn directive_on_the_last_line() {
    assert_eq!(
        annotations("// Error: 1 m\n"),
        vec![note(AnnotationKind::Error, Some((14, 14)), "m")]
    );
    assert_eq!(annotations("// Error: 1 m"), vec![note(AnnotationKind::Error, None, "1 m")]);
}

#[test]
fn numbers_are_made_of_decimal_digits() {
    assert_eq!(
        annotations("// Error: 1\u{b2} m\nab"),
        vec![note(AnnotationKind::Error, Some((16, 16)), "\u{b2} m")]
    );
    assert_eq!(
        annotations("// Error: \u{663}-1 m\nab"),
        vec![note(AnnotationKind::Error, None, "\u{663}-1 m")]
    );
    assert_eq!(
        annotations("// Error: 1a m\nab"),
        vec![note(AnnotationKind::Error, Some((15, 15)), "a m")]
    );
    assert_eq!(
        annotations("// Error: +1 m\nab"),
        vec![note(AnnotationKind::Error, None, "+1 m")]
    );
}

#[test]
fn numbers_are_read_with_their_sign() {
    assert_eq!(read_number(&chars("12:3"), 0), (Some(12), 2));
    assert_eq!(read_number(&chars("12:3"), 3), (Some(3), 4));
    assert_eq!(read_number(&chars("-7-2"), 0), (Some(-7), 2));
    assert_eq!(read_number(&chars("007"), 0), (Some(7), 3));
    assert_eq!(read_number(&chars("-"), 0), (None, 1));
    assert_eq!(read_number(&chars("--1"), 0), (None, 1));
    assert_eq!(read_number(&chars("+1"), 0), (None, 0));
    assert_eq!(read_number(&chars("x1"), 0), (None, 0));
    assert_eq!(read_number(&chars(""), 0), (None, 0));
    assert_eq!(read_number(&chars("4\u{664}"), 0), (Some(4), 1));
    assert_eq!(read_number(&chars("\u{664}"), 0), (None, 0));
}

#[test]
fn numbers_that_no_machine_integer_holds() {
    let max = isize::MAX.to_string();
    let min = isize::MIN.to_string();
    assert_eq!(read_number(&chars(&max), 0), (Some(isize::MAX), max.len()));
    assert_eq!(read_number(&chars(&min), 0), (Some(isize::MIN), min.len()));
    let over = format!("{}0", max);
    assert_eq!(read_number(&chars(&over), 0), (None, over.len()));
    let mut above: Vec<char> = chars(&max);
    let last = above.len() - 1;
    above[last] = '8';
    assert_eq!(read_number(&above, 0), (None, above.len()));
    let mut below: Vec<char> = chars(&min);
    let last = below.len() - 1;
    below[last] = '9';
    assert_eq!(read_number(&below, 0), (None, below.len()));
    assert_eq!(
        annotations(&format!("// Error: {}:1 m\nab", min)),
        vec![note(AnnotationKind::Error, None, &format!("{}:1 m", min))]
    );
}

#[test]
fn positions_resolve_in_the_source() {
    let src = Source::new("ab\n\u{e9}\u{e9}\n\nxyz");
    assert_eq!(src.text(), "ab\n\u{e9}\u{e9}\n\nxyz");
    assert_eq!(src.line_column_to_byte(0, 0), Some(0));
    assert_eq!(src.line_column_to_byte(0, 2), Some(2));
    assert_eq!(src.line_column_to_byte(0, 3), None);
    assert_eq!(src.line_column_to_byte(1, 0), Some(3));
    assert_eq!(src.line_column_to_byte(1, 1), Some(5));
    assert_eq!(src.line_column_to_byte(1, 2), Some(7));
    assert_eq!(src.line_column_to_byte(2, 0), Some(8));
    assert_eq!(src.line_column_to_byte(2, 1), None);
    assert_eq!(src.line_column_to_byte(3, 3), Some(12));
    assert_eq!(src.line_column_to_byte(4, 0), None);
    assert_eq!(src.line_column_to_byte(usize::MAX, 0), None);
    assert_eq!(src.line_column_to_byte(0, usize::MAX), None);
    let empty = Source::new("");
    assert_eq!(empty.line_column_to_byte(0, 0), Some(0));
    assert_eq!(empty.line_column_to_byte(1, 0), None);
}

#[test]
fn positions_and_ranges_are_read() {
    let src = Source::new("ab\ncdef\ng");
    let p = read_position(&src, 1, &chars("2 rest"), 0).unwrap();
    assert_eq!((p.offset, p.next), (4, 1));
    let p = read_position(&src, 1, &chars("0:3x"), 0).unwrap();
    assert_eq!((p.offset, p.next), (2, 3));
    assert!(read_position(&src, 1, &chars("x"), 0).is_none());
    assert!(read_position(&src, 3, &chars("1"), 0).is_none());
    let r = read_range(&src, 1, &chars("1-2:1 rest")).unwrap();
    assert_eq!((r.start, r.end, r.next), (3, 8, 5));
    let r = read_range(&src, 0, &chars("2")).unwrap();
    assert_eq!((r.start, r.end, r.next), (1, 1, 1));
    assert!(read_range(&src, 1, &chars("2-1")).is_none());
    assert!(read_range(&src, 1, &chars("2-")).is_none());
}

#[test]
fn annotation_of_a_value() {
    let src = Source::new("ab\ncdef\ng");
    assert_eq!(
        annotate(&src, 1, AnnotationKind::Hint, &chars("2-4  use VERSION "), &chars("v9")),
        note(AnnotationKind::Hint, Some((4, 6)), "use v9")
    );
    assert_eq!(
        annotate(&src, 1, AnnotationKind::Error, &chars(" 2-4 x"), &chars("v9")),
        note(AnnotationKind::Error, None, "2-4 x")
    );
}

#[test]
fn directives_are_told_by_their_key() {
    assert_eq!(get_metadata("// Error: 1 x", "Error"), Some("1 x"));
    assert_eq!(get_metadata("// Error: ", "Error"), Some(""));
    assert_eq!(get_metadata("// Error: \u{e9}\u{6f22}", "Error"), Some("\u{e9}\u{6f22}"));
    assert_eq!(get_metadata("// Error:", "Error"), None);
    assert_eq!(get_metadata("// Errors: x", "Error"), None);
    assert_eq!(get_metadata(" // Error: x", "Error"), None);
    assert_eq!(get_metadata("// Any key: v", "Any key"), Some("v"));
    assert_eq!(get_flag_metadata("// Ref: true", "Ref"), Some(true));
    assert_eq!(get_flag_metadata("// Ref: false", "Ref"), Some(false));
    assert_eq!(get_flag_metadata("// Ref: true ", "Ref"), None);
    assert_eq!(get_flag_metadata("// Hints: true", "Ref"), None);
}

#[test]
fn kinds_and_their_keys() {
    assert_eq!(
        AnnotationKind::iter(),
        vec![AnnotationKind::Error, AnnotationKind::Warning, AnnotationKind::Hint]
    );
    assert_eq!(AnnotationKind::Error.as_str(), "Error");
    assert_eq!(AnnotationKind::Warning.as_str(), "Warning");
    assert_eq!(AnnotationKind::Hint.as_str(), "Hint");
}

#[test]
fn annotations_are_told_apart() {
    let a = note(AnnotationKind::Error, Some((1, 2)), "m");
    assert!(a.same_as(&note(AnnotationKind::Error, Some((1, 2)), "m")));
    assert!(!a.same_as(&note(AnnotationKind::Warning, Some((1, 2)), "m")));
    assert!(!a.same_as(&note(AnnotationKind::Error, Some((1, 3)), "m")));
    assert!(!a.same_as(&note(AnnotationKind::Error, None, "m")));
    assert!(!a.same_as(&note(AnnotationKind::Error, Some((1, 2)), "n")));
}
