//! The description of a documented definition.
//!
//! The documentation of a definition is prose with up to four sections:
//! `Tags`, `Parameters`, `Example` and `Syntax`. The sections are taken out in
//! this order; what is left is the prose. Prose that still holds `# ` has a
//! section that is none of the four, which is an error.

use vstd::prelude::*;
use crate::error::{DocError, DocFault};
use crate::params::{
    bullet_at, lemma_bullet_fails_list, models, opt_text, param_at, params, params_of, type_of,
    type_parses, ParamInfo, ParamModel,
};
use crate::section::{
    example, example_of, section, section_body, tags, tags_of, texts, without_section,
};
use crate::text::{
    append, contains, occurs, only, scan_back, slice, to_chars, to_string, trim, trimmed,
};

verus! {

/// What the documentation of a definition says of it.
#[derive(Clone, Debug, PartialEq, Eq)]
pub struct FuncInfo {
    /// The name that the definition is known by.
    pub name: String,
    /// The tags, in the order of the section `Tags`.
    pub tags: Vec<String>,
    /// The prose.
    pub docs: String,
    /// The first fenced block of the section `Example`.
    pub example: Option<String>,
    /// The body of the section `Syntax`.
    pub syntax: Option<String>,
    /// The parameters, in the order of the section `Parameters`.
    pub params: Vec<ParamInfo>,
}

/// A `FuncInfo` with its texts as sequences of characters.
pub struct FuncModel {
    pub name: Seq<char>,
    pub tags: Seq<Seq<char>>,
    pub docs: Seq<char>,
    pub example: Option<Seq<char>>,
    pub syntax: Option<Seq<char>>,
    pub params: Seq<ParamModel>,
}

impl View for FuncInfo {
    type V = FuncModel;

    open spec fn view(&self) -> FuncModel {
        FuncModel {
            name: self.name@,
            tags: texts(self.tags@),
            docs: self.docs@,
            example: opt_text(self.example),
            syntax: opt_text(self.syntax),
            params: models(self.params@),
        }
    }
}

/// `docs` without its section `Tags`.
pub open spec fn after_tags(docs: Seq<char>) -> Seq<char> {
    without_section(docs, "Tags"@)
}

/// `docs` without its sections `Tags` and `Parameters`.
pub open spec fn after_params(docs: Seq<char>) -> Seq<char> {
    without_section(after_tags(docs), "Parameters"@)
}

/// `docs` without its sections `Tags`, `Parameters` and `Example`.
pub open spec fn after_example(docs: Seq<char>) -> Seq<char> {
    without_section(after_params(docs), "Example"@)
}

/// The prose of `docs`: what is left without the four sections, and without
/// the white space around it.
pub open spec fn prose_of(docs: Seq<char>) -> Seq<char> {
    trim(without_section(after_example(docs), "Syntax"@))
}

/// The description that `docs` gives of the definition `name`.
pub open spec fn describe(name: Seq<char>, docs: Seq<char>) -> Result<FuncModel, DocFault> {
    match params_of(after_tags(docs)) {
        Err(e) => Err(e),
        Ok(ps) => if occurs(prose_of(docs), seq!['#', ' ']) {
            Err(DocFault::UnknownHeading)
        } else {
            Ok(
                FuncModel {
                    name,
                    tags: tags_of(docs),
                    docs: prose_of(docs),
                    example: example_of(after_params(docs)),
                    syntax: section_body(after_example(docs), "Syntax"@),
                    params: ps,
                },
            )
        },
    }
}

/// A line of a doc comment as it is meant: without the one blank that it
/// begins with, if it begins with one.
pub open spec fn comment_line(line: Seq<char>) -> Seq<char> {
    if line.len() > 0 && line[0] == ' ' {
        line.skip(1)
    } else {
        line
    }
}

/// The lines of a doc comment, each as it is meant and ended by a line feed.
pub open spec fn comment_text(lines: Seq<Seq<char>>) -> Seq<char>
    decreases lines.len(),
{
    if lines.len() == 0 {
        Seq::empty()
    } else {
        comment_text(lines.drop_last()) + comment_line(lines.last()).push('\n')
    }
}

/// The documentation that the lines of a doc comment hold: the lines, each
/// as it is meant, without the white space around the whole.
pub open spec fn documentation_of(lines: Seq<Seq<char>>) -> Seq<char> {
    trim(comment_text(lines))
}

/// The upper case form of a lower case letter of the Latin alphabet; any
/// other character itself.
pub open spec fn upper_latin(c: char) -> char {
    if 'a' <= c <= 'z' {
        ((c as u8) - 32) as char
    } else {
        c
    }
}

/// The name of the type that stands for the function `ident`: the
/// identifier without the underscores at its end, its first character in
/// upper case, and `Func` behind it. An identifier of underscores alone
/// gives no name.
pub open spec fn type_ident_of(ident: Seq<char>) -> Option<Seq<char>> {
    let n = scan_back(ident, ident.len() as int, only('_'));
    if n <= 0 {
        None
    } else {
        Some(seq![upper_latin(ident[0])] + ident.subrange(1, n) + "Func"@)
    }
}

/// A bullet of the section `Parameters` that declares no parameter fails the
/// build.
pub proof fn lemma_bad_bullet_fails_build(name: Seq<char>, docs: Seq<char>, n: nat)
    requires
        section_body(after_tags(docs), "Parameters"@) matches Some(body) && bullet_at(body, 0, n)
            matches Some(q) && param_at(body, q + 1, type_parses(type_of(body, q + 1))) is Err,
    ensures
        describe(name, docs) is Err,
{
    let body = section_body(after_tags(docs), "Parameters"@)->0;
    lemma_bullet_fails_list(body, 0, n);
}

/// Builds the description of the definition `name` from its documentation.
///
/// The sections `Tags`, `Parameters`, `Example` and `Syntax` are taken out of
/// `docs` in this order. The build fails where a parameter's bullet cannot be
/// read, and where the prose that is left still holds `# `.
pub fn func(name: &str, docs: &str) -> (r: Result<FuncInfo, DocError>)
    ensures
        match r {
            Ok(info) => describe(name@, docs@) == Ok::<FuncModel, DocFault>(info@),
            Err(e) => describe(name@, docs@) == Err::<FuncModel, DocFault>(e@),
        },
        occurs(prose_of(docs@), seq!['#', ' ']) ==> r is Err,
{
    let mut docs: String = docs.to_owned();
    let tags = tags(&mut docs);
    let params = match params(&mut docs) {
        Ok(ps) => ps,
        Err(e) => {
            return Err(e);
        },
    };
    let example = example(&mut docs);
    let syntax = section(&mut docs, "Syntax");
    let prose = trimmed(&to_chars(docs.as_str()));
    let mut mark: Vec<char> = Vec::new();
    mark.push('#');
    mark.push(' ');
    assert(mark@ == seq!['#', ' ']);
    if contains(&prose, &mark) {
        return Err(DocError::UnknownHeading);
    }
    Ok(FuncInfo { name: name.to_owned(), tags, docs: to_string(&prose), example, syntax, params })
}

/// The documentation that the lines of a doc comment hold.
pub fn documentation(lines: &Vec<String>) -> (r: String)
    ensures
        r@ == documentation_of(texts(lines@)),
{
    let mut out: Vec<char> = Vec::new();
    let mut k: usize = 0;
    while k < lines.len()
        invariant
            k <= lines.len(),
            out@ == comment_text(texts(lines@).take(k as int)),
        decreases lines.len() - k,
    {
        let line = to_chars(lines[k].as_str());
        let ghost upto = texts(lines@).take(k + 1);
        assert(upto.drop_last() == texts(lines@).take(k as int));
        assert(upto.last() == line@);
        if line.len() > 0 && line[0] == ' ' {
            assert(line@.subrange(1, line.len() as int) == line@.skip(1));
            append(&mut out, &slice(&line, 1, line.len()));
        } else {
            append(&mut out, &line);
        }
        out.push('\n');
        k += 1;
    }
    assert(texts(lines@).take(lines.len() as int) == texts(lines@));
    to_string(&trimmed(&out))
}

/// The name of the type that stands for the function `ident`.
pub fn type_ident(ident: &str) -> (r: Option<String>)
    ensures
        opt_text(r) == type_ident_of(ident@),
{
    let v = to_chars(ident);
    let mut n: usize = v.len();
    while n > 0 && v[n - 1] == '_'
        invariant
            n <= v.len(),
            scan_back(v@, v.len() as int, only('_')) == scan_back(v@, n as int, only('_')),
        decreases n,
    {
        n -= 1;
    }
    if n == 0 {
        return None;
    }
    let c = v[0];
    let first = if 'a' <= c && c <= 'z' {
        ((c as u8) - 32) as char
    } else {
        c
    };
    let mut out: Vec<char> = Vec::new();
    out.push(first);
    append(&mut out, &slice(&v, 1, n));
    append(&mut out, &to_chars("Func"));
    Some(to_string(&out))
}

} // verus!
