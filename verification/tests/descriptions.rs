use docmeta::error::DocError;
use docmeta::flags::ParamKind;
use docmeta::func::{documentation, func, type_ident, FuncInfo};
use docmeta::params::ParamInfo;

#[test]
fn full_description() {
    let docs = "Does things.\n\n# Tags\n- a\n- b\n\n# Parameters\n- body: Content (positional, required)\n  The body.\n\n- fill: Color (named)\n  The fill.\n\n# Example\n```\n#f[x]\n```\n\n# Syntax\nThis has sugar.";
    assert_eq!(
        func("f", docs),
        Ok(FuncInfo {
            name: String::from("f"),
            tags: vec![String::from("a"), String::from("b")],
            docs: String::from("Does things."),
            example: Some(String::from("#f[x]")),
            syntax: Some(String::from("This has sugar.")),
            params: vec![
                ParamInfo {
                    name: String::from("body"),
                    ty: String::from("Content"),
                    kind: ParamKind::RequiredPositional,
                    settable: false,
                    docs: String::from("The body."),
                    example: None,
                },
                ParamInfo {
                    name: String::from("fill"),
                    ty: String::from("Color"),
                    kind: ParamKind::OptionalNamed,
                    settable: false,
                    docs: String::from("The fill."),
                    example: None,
                },
            ],
        })
    );
}

#[test]
fn declared_flags_are_carried() {
    let docs = "Does things.\n\n# Parameters\n- body: Content (positional, required)\n  The body.\n\n- fill: Color (named)\n  The fill.";
    let info = func("f", docs).unwrap();
    let body = &info.params[0];
    assert!(body.kind.is_positional() && body.kind.is_required());
    assert!(!body.kind.is_named() && !body.kind.is_variadic() && !body.settable);
    let fill = &info.params[1];
    assert!(fill.kind.is_named());
    assert!(!fill.kind.is_positional() && !fill.kind.is_required());
    assert!(!fill.kind.is_variadic() && !fill.settable);
}

#[test]
fn prose_alone() {
    assert_eq!(
        func("plain", "  Only prose.\nOn two lines.  \n"),
        Ok(FuncInfo {
            name: String::from("plain"),
            tags: vec![],
            docs: String::from("Only prose.\nOn two lines."),
            example: None,
            syntax: None,
            params: vec![],
        })
    );
    assert_eq!(func("empty", "").unwrap().docs, "");
}

#[test]
fn sections_in_any_order() {
    let docs = "# Syntax\nsugar\n# Example\n```\ncode\n```\n# Tags\n- t\nProse?";
    let info = func("g", docs).unwrap();
    assert_eq!(info.syntax.as_deref(), Some("sugar"));
    assert_eq!(info.example.as_deref(), Some("code"));
    assert_eq!(info.tags, vec!["t"]);
    assert_eq!(info.docs, "");
}

#[test]
fn unknown_heading_fails() {
    assert_eq!(func("f", "Text\n# Unknown\nstuff"), Err(DocError::UnknownHeading));
    assert_eq!(func("f", "Text\n\n# Tags\n- a\n\n# Category\ntext"), Err(DocError::UnknownHeading));
    assert_eq!(func("f", "# Tagsx\n- a"), Err(DocError::UnknownHeading));
}

#[test]
fn heading_mark_within_the_prose_fails() {
    assert_eq!(func("f", "Written in C# and more"), Err(DocError::UnknownHeading));
    assert!(func("f", "Written in C#").is_ok());
    assert!(func("f", "Issue #12").is_ok());
}

#[test]
fn parameter_error_fails() {
    let docs = "Text\n# Parameters\n- x: i64 (required)\n# Whatever\n";
    assert_eq!(func("f", docs), Err(DocError::InvalidFlags));
}

#[test]
fn type_ident_of_a_function() {
    assert_eq!(type_ident("type_"), Some(String::from("TypeFunc")));
    assert_eq!(type_ident("lower"), Some(String::from("LowerFunc")));
    assert_eq!(type_ident("Zed__"), Some(String::from("ZedFunc")));
    assert_eq!(type_ident("a_b"), Some(String::from("A_bFunc")));
    assert_eq!(type_ident("_x"), Some(String::from("_xFunc")));
    assert_eq!(type_ident("étude"), Some(String::from("étudeFunc")));
    assert_eq!(type_ident("__"), None);
    assert_eq!(type_ident(""), None);
}

#[test]
fn documentation_of_comment_lines() {
    let lines = vec![
        String::from(""),
        String::from(" Does things."),
        String::from(""),
        String::from(" # Tags"),
        String::from(" - a"),
        String::from("   indented"),
        String::from("flush"),
        String::from(" "),
    ];
    assert_eq!(documentation(&lines), "Does things.\n\n# Tags\n- a\n  indented\nflush");
    assert_eq!(documentation(&vec![]), "");
    assert_eq!(documentation(&vec![String::from("  ")]), "");
}
