use docmeta::params::{params, type_token};
use docmeta::position::read_number;
use docmeta::section::section;
use docmeta::text::{
    contains, find, is_white, lines_of, replaced, same_text, skip_non_space, skip_over,
    skip_space, skip_to, split_at_each, starts_at, to_chars, to_string, trimmed,
};
use unscanny::Scanner;

fn chars(s: &str) -> Vec<char> {
    s.chars().collect()
}

fn text(v: &[char]) -> String {
    v.iter().collect()
}

/// The byte offset of the character position `i`.
fn bytes(s: &str, i: usize) -> usize {
    s.chars().take(i).map(char::len_utf8).sum()
}

const SAMPLES: [&str; 12] = [
    "",
    "   ",
    "plain words",
    "  \t lead and trail \n",
    "- name: Type (named, positional)\n  body\n- next: T (named)",
    "a:b: c\u{a0}\u{2003}d\n-e",
    "\u{e9}t\u{e9} : \u{6f22}\u{5b57} (x)\n\n-",
    "12:3-4:5 message",
    "-7 rest",
    "\n-\n-\n",
    "no colon here (but) parens",
    "x\r\ny\rz\r\n",
];

#[test]
fn scans_agree_with_a_scanner() {
    for sample in SAMPLES {
        let v = chars(sample);
        for i in 0..=v.len() {
            let at = bytes(sample, i);
            let mut s = Scanner::new(sample);
            s.jump(at);
            s.eat_whitespace();
            assert_eq!(bytes(sample, skip_space(&v, i)), s.cursor());
            let mut s = Scanner::new(sample);
            s.jump(at);
            s.eat_until(char::is_whitespace);
            assert_eq!(bytes(sample, skip_non_space(&v, i)), s.cursor());
            for c in [':', ')', '-', '\n', '\u{e9}'] {
                let mut s = Scanner::new(sample);
                s.jump(at);
                s.eat_until(c);
                assert_eq!(bytes(sample, skip_to(&v, i, c)), s.cursor());
                let mut s = Scanner::new(sample);
                s.jump(at);
                s.eat_while(c);
                assert_eq!(bytes(sample, skip_over(&v, i, c)), s.cursor());
            }
            for pat in ["\n-", ": ", "(", "e", ""] {
                let mut s = Scanner::new(sample);
                s.jump(at);
                assert_eq!(starts_at(&v, i, &chars(pat)), s.at(pat));
                s.eat_until(pat);
                assert_eq!(bytes(sample, find(&v, i, &chars(pat))), s.cursor());
            }
        }
    }
}

#[test]
fn white_space_is_what_the_standard_library_takes_for_it() {
    for u in 0..=0x10FFFF_u32 {
        if let Some(c) = char::from_u32(u) {
            assert_eq!(is_white(c), c.is_whitespace(), "U+{:04X}", u);
        }
    }
}

#[test]
fn numbers_agree_with_a_scanner() {
    for sample in ["12:3", "-7-2", "007x", "-", "--1", "+1", "", "-0", "99999999999999999999", "1 2", "3:-4"] {
        let v = chars(sample);
        for i in 0..=v.len() {
            let mut s = Scanner::new(sample);
            s.jump(bytes(sample, i));
            let mut first = true;
            let token = s.eat_while(|c: char| {
                let valid = first && c == '-' || c.is_numeric();
                first = false;
                valid
            });
            let expected: Option<isize> = token.parse().ok();
            let (value, end) = read_number(&v, i);
            assert_eq!(value, expected);
            assert_eq!(bytes(sample, end), s.cursor());
        }
    }
}

#[test]
fn bullets_agree_with_a_scanner() {
    let body = "- body: Content (positional, required)\n  The content.\n\n-   my name : bool   ( named,settable )   \n   docs\n- z: u8 (named)";
    let mut docs = format!("Prose.\n# Parameters\n{}", body);
    let infos = params(&mut docs).unwrap();
    let mut s = Scanner::new(body);
    let mut seen = 0;
    while s.eat_if('-') {
        let v = chars(body);
        let start = body[..s.cursor()].chars().count();
        s.eat_whitespace();
        let name = s.eat_until(':');
        s.expect(": ");
        let ty = s.eat_until(char::is_whitespace);
        assert_eq!(type_token(&v, start), Some(String::from(ty)));
        s.eat_whitespace();
        s.expect('(');
        let flags: Vec<&str> =
            s.eat_until(')').split(',').map(str::trim).filter(|s| !s.is_empty()).collect();
        s.expect(')');
        let rest = s.eat_until("\n-").trim();
        assert_eq!(infos[seen].name, name);
        assert_eq!(infos[seen].ty, ty);
        assert_eq!(infos[seen].kind.is_named(), flags.contains(&"named"));
        assert_eq!(infos[seen].kind.is_positional(), flags.contains(&"positional"));
        assert_eq!(infos[seen].kind.is_required(), flags.contains(&"required"));
        assert_eq!(infos[seen].kind.is_variadic(), flags.contains(&"variadic"));
        assert_eq!(infos[seen].settable, flags.contains(&"settable"));
        assert_eq!(infos[seen].docs, rest);
        s.eat_whitespace();
        seen += 1;
    }
    assert_eq!(seen, 3);
    assert_eq!(infos.len(), 3);
}

#[test]
fn texts_are_cut_and_joined() {
    for sample in SAMPLES {
        let v = chars(sample);
        assert_eq!(text(&trimmed(&v)), sample.trim());
        let lines: Vec<String> = lines_of(&v).iter().map(|l| text(l)).collect();
        let expected: Vec<&str> = sample.lines().collect();
        assert_eq!(lines, expected);
        for sep in ['\n', ',', ' '] {
            let pieces: Vec<String> = split_at_each(&v, sep).iter().map(|l| text(l)).collect();
            let expected: Vec<&str> = sample.split(sep).collect();
            assert_eq!(pieces, expected);
        }
        for pat in ["e", "\n-", ": ", "na", "VERSION"] {
            assert_eq!(contains(&v, &chars(pat)), sample.contains(pat));
            assert_eq!(text(&replaced(&v, &chars(pat), &chars("<>"))), sample.replace(pat, "<>"));
        }
        assert_eq!(to_string(&to_chars(sample)), sample);
        assert!(same_text(sample, &String::from(sample)));
    }
    assert_eq!(text(&replaced(&chars("aaaa"), &chars("aa"), &chars("b"))), "bb");
    assert_eq!(text(&replaced(&chars("aaa"), &chars("aa"), &chars("a"))), "aa");
    assert_eq!(text(&replaced(&chars("abc"), &chars(""), &chars("x"))), "abc");
    assert!(!same_text("a", "b"));
    assert!(!same_text("a", "ab"));
}

#[test]
fn sections_agree_with_a_search_for_the_heading() {
    let samples = [
        "Prose.\n\n# Tags\n- a\n- b\n\n# Syntax\nfoo",
        "Prose.\n# Syntax\nfoo\n# Tags\n  x  ",
        "Prose.\n# Other\n# Tags\nbody\n\n",
        "Prose only",
    ];
    for sample in samples {
        let mut mine = String::from(sample);
        let got = section(&mut mine, "Tags");
        let mut docs = String::from(sample);
        let needle = "\n# Tags\n";
        let expected = docs.find(needle).map(|start| {
            let rest = &docs[start..];
            let len = rest[1..].find("\n# ").map(|x| 1 + x).unwrap_or(rest.len());
            let end = start + len;
            let body = docs[start + needle.len()..end].trim().to_owned();
            docs.replace_range(start..end, "");
            body
        });
        assert_eq!(got, expected);
        assert_eq!(mine, docs);
    }
}
