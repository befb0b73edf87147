//! The parameters that a documentation text declares.
//!
//! The section `Parameters` holds one bullet for each parameter:
//!
//! ```text
//! - name: type (flag, flag)
//!   What the parameter is for, on any number of lines,
//!   up to the next line that begins with a hyphen.
//! ```
//!
//! The bullets are read from left to right, and the parameters come out in
//! the order of their bullets.

use vstd::prelude::*;
use crate::error::{DocError, DocFault};
use crate::flags::{flags_of, parse_flags, ParamKind};
use crate::section::{example_of, section_body, take_example, take_section, without_section};
use crate::text::{
    at, find, find_from, join, join_range, lemma_find_from, lemma_scan_while, lines, lines_of,
    non_space, only, other_than, scan_while, skip_non_space, skip_over, skip_space, skip_to, slice,
    space, starts_at, to_chars, to_string, trim, trimmed, views,
};

verus! {

#[verifier::external_type_specification]
#[verifier::external_body]
pub struct ExType(syn::Type);

#[verifier::external_type_specification]
#[verifier::external_body]
pub struct ExTypeError(syn::Error);

/// Whether `token` can be read as a type. The name stands for the verdict of
/// `syn::parse_str::<syn::Type>`.
pub uninterp spec fn type_parses(token: Seq<char>) -> bool;

/// `syn::parse_str::<syn::Type>` turns the text into tokens and reads one type
/// from them; it fails where the text is no token stream, holds no type, or
/// holds more than one type. The contract gives the verdict its name and says
/// nothing of the type or the error themselves.
#[verifier::external_body]
fn parse_type(token: &str) -> (r: Result<syn::Type, syn::Error>)
    ensures
        r is Ok == type_parses(token@),
{
    syn::parse_str::<syn::Type>(token)
}

/// One parameter of a definition.
#[derive(Clone, Debug, PartialEq, Eq)]
pub struct ParamInfo {
    /// The parameter's name.
    pub name: String,
    /// The parameter's type, as it was written.
    pub ty: String,
    /// How the parameter is passed.
    pub kind: ParamKind,
    /// Whether the parameter can be set by a rule.
    pub settable: bool,
    /// What the documentation says of the parameter.
    pub docs: String,
    /// The example that the documentation gives for it.
    pub example: Option<String>,
}

/// A `ParamInfo` with its texts as sequences of characters.
pub struct ParamModel {
    pub name: Seq<char>,
    pub ty: Seq<char>,
    pub kind: ParamKind,
    pub settable: bool,
    pub docs: Seq<char>,
    pub example: Option<Seq<char>>,
}

/// What an optional string holds.
pub open spec fn opt_text(o: Option<String>) -> Option<Seq<char>> {
    match o {
        Some(s) => Some(s@),
        None => None,
    }
}

impl View for ParamInfo {
    type V = ParamModel;

    open spec fn view(&self) -> ParamModel {
        ParamModel {
            name: self.name@,
            ty: self.ty@,
            kind: self.kind,
            settable: self.settable,
            docs: self.docs@,
            example: opt_text(self.example),
        }
    }
}

/// What each parameter of a list holds.
pub open spec fn models(ps: Seq<ParamInfo>) -> Seq<ParamModel> {
    Seq::new(ps.len(), |k: int| ps[k]@)
}

/// The number of blanks that a line begins with.
pub open spec fn indent(l: Seq<char>) -> int {
    scan_while(l, 0, only(' '))
}

/// The least indent among the lines that hold more than blanks, if there is
/// such a line.
pub open spec fn least_indent(ls: Seq<Seq<char>>) -> Option<int>
    decreases ls.len(),
{
    if ls.len() == 0 {
        None
    } else {
        let l = ls.last();
        let rest = least_indent(ls.drop_last());
        if indent(l) >= l.len() {
            rest
        } else {
            match rest {
                Some(w) => Some(
                    if indent(l) < w {
                        indent(l)
                    } else {
                        w
                    },
                ),
                None => Some(indent(l)),
            }
        }
    }
}

/// The line without its first `width` blanks, or without all the blanks it
/// begins with if these are fewer.
pub open spec fn dedent_line(l: Seq<char>, width: int) -> Seq<char> {
    if indent(l) < width {
        l.skip(indent(l))
    } else {
        l.skip(width)
    }
}

/// The indent that the lines after the first have in common.
pub open spec fn common_indent(ls: Seq<Seq<char>>) -> int {
    if ls.len() == 0 {
        0
    } else {
        match least_indent(ls.skip(1)) {
            Some(w) => w,
            None => 0,
        }
    }
}

/// The text without the indent that its lines have in common. The first line
/// stands as it is: it is where the text begins after it was trimmed. The
/// indent is taken over the other lines, but for those that hold only blanks.
pub open spec fn dedent(text: Seq<char>) -> Seq<char> {
    let ls = lines(text);
    let width = common_indent(ls);
    join(
        Seq::new(
            ls.len(),
            |k: int|
                if k == 0 {
                    ls[0]
                } else {
                    dedent_line(ls[k], width)
                },
        ),
        '\n',
    )
}

/// Where the name of the bullet begins whose hyphen stands before `p`.
pub open spec fn name_start(s: Seq<char>, p: int) -> int {
    scan_while(s, p, space())
}

/// Where the name ends: at the first colon, or at the end of the text.
pub open spec fn name_end(s: Seq<char>, p: int) -> int {
    scan_while(s, name_start(s, p), other_than(':'))
}

/// Whether the name is followed by a colon and a blank.
pub open spec fn has_type(s: Seq<char>, p: int) -> bool {
    at(s, name_end(s, p), seq![':', ' '])
}

/// Where the type ends: at the first white space behind the colon and blank.
pub open spec fn type_end(s: Seq<char>, p: int) -> int {
    scan_while(s, name_end(s, p) + 2, non_space())
}

/// The type as it is written.
pub open spec fn type_of(s: Seq<char>, p: int) -> Seq<char> {
    s.subrange(name_end(s, p) + 2, type_end(s, p))
}

/// Where the list of flags begins: behind the character that follows the type
/// and the white space after it.
pub open spec fn flags_start(s: Seq<char>, p: int) -> int {
    scan_while(s, type_end(s, p), space()) + 1
}

/// Whether that character is an opening parenthesis.
pub open spec fn has_flags(s: Seq<char>, p: int) -> bool {
    flags_start(s, p) <= s.len() && s[flags_start(s, p) - 1] == '('
}

/// Where the list of flags ends: at the first closing parenthesis, or at the
/// end of the text.
pub open spec fn flags_end(s: Seq<char>, p: int) -> int {
    scan_while(s, flags_start(s, p), other_than(')'))
}

/// Where the bullet's own documentation ends: before the first line feed that
/// a hyphen follows, or at the end of the text.
pub open spec fn body_end(s: Seq<char>, p: int) -> int {
    find_from(s, flags_end(s, p) + 1, seq!['\n', '-'])
}

/// Where the next bullet would begin: behind the white space after the
/// bullet's documentation.
pub open spec fn param_end(s: Seq<char>, p: int) -> int {
    scan_while(s, body_end(s, p), space())
}

/// The parameter that the bullet declares whose hyphen stands before `p`, and
/// the position behind the bullet. `type_ok` says whether the type, as
/// written, is a type.
///
/// The bullet is `Malformed` where no colon and blank follow the name, no
/// opening parenthesis follows the type, or the list of flags is not closed.
/// The errors come in the order in which the bullet is read.
pub open spec fn param_at(s: Seq<char>, p: int, type_ok: bool) -> Result<(ParamModel, int), DocFault> {
    if !has_type(s, p) {
        Err(DocFault::Malformed)
    } else if !type_ok {
        Err(DocFault::InvalidType(type_of(s, p)))
    } else if !has_flags(s, p) {
        Err(DocFault::Malformed)
    } else {
        match flags_of(s.subrange(flags_start(s, p), flags_end(s, p))) {
            Err(t) => Err(DocFault::UnknownFlag(t)),
            Ok(fs) => match fs.kind() {
                None => Err(DocFault::InvalidFlags),
                Some(kind) => if flags_end(s, p) >= s.len() {
                    Err(DocFault::Malformed)
                } else {
                    let text = dedent(trim(s.subrange(flags_end(s, p) + 1, body_end(s, p))));
                    Ok(
                        (
                            ParamModel {
                                name: s.subrange(name_start(s, p), name_end(s, p)),
                                ty: type_of(s, p),
                                kind,
                                settable: fs.settable,
                                docs: trim(without_section(text, "Example"@)),
                                example: example_of(text),
                            },
                            param_end(s, p),
                        ),
                    )
                },
            },
        }
    }
}

/// The parameters that the bullets from position `p` on declare. The bullets
/// end where no hyphen stands; the first error ends the reading.
pub open spec fn params_from(s: Seq<char>, p: int) -> Result<Seq<ParamModel>, DocFault>
    decreases s.len() - p,
    via params_from_decreases
{
    if 0 <= p < s.len() && s[p] == '-' {
        match param_at(s, p + 1, type_parses(type_of(s, p + 1))) {
            Err(e) => Err(e),
            Ok((m, next)) => match params_from(s, next) {
                Err(e) => Err(e),
                Ok(rest) => Ok(seq![m] + rest),
            },
        }
    } else {
        Ok(Seq::empty())
    }
}

#[via_fn]
proof fn params_from_decreases(s: Seq<char>, p: int) {
    if 0 <= p < s.len() && s[p] == '-' {
        if param_at(s, p + 1, type_parses(type_of(s, p + 1))) is Ok {
            lemma_param_end(s, p + 1);
        }
    }
}

/// The parameters that `docs` declares: those of the bullets of its section
/// `Parameters`, and none where it has no such section.
pub open spec fn params_of(docs: Seq<char>) -> Result<Seq<ParamModel>, DocFault> {
    match section_body(docs, "Parameters"@) {
        Some(body) => params_from(body, 0),
        None => Ok(Seq::empty()),
    }
}

/// The parts of a well-formed bullet follow one another within the text.
pub proof fn lemma_param_end(s: Seq<char>, p: int)
    requires
        0 <= p <= s.len(),
        has_type(s, p),
        has_flags(s, p),
        flags_end(s, p) < s.len(),
    ensures
        p <= name_start(s, p) <= name_end(s, p),
        name_end(s, p) + 2 <= type_end(s, p) < flags_start(s, p) <= flags_end(s, p),
        flags_end(s, p) < body_end(s, p) <= param_end(s, p) <= s.len(),
{
    lemma_scan_while(s, p, space());
    lemma_scan_while(s, name_start(s, p), other_than(':'));
    lemma_scan_while(s, name_end(s, p) + 2, non_space());
    lemma_scan_while(s, type_end(s, p), space());
    lemma_scan_while(s, flags_start(s, p), other_than(')'));
    lemma_find_from(s, flags_end(s, p) + 1, seq!['\n', '-']);
    lemma_scan_while(s, body_end(s, p), space());
}

/// A bullet whose flags cannot stand together declares no parameter: one
/// that is neither named nor positional, one that is variadic and named, or
/// not positional, or required.
pub proof fn lemma_flags_must_agree(s: Seq<char>, p: int, type_ok: bool)
    requires
        flags_of(s.subrange(flags_start(s, p), flags_end(s, p))) matches Ok(fs) && {
            ||| !fs.named && !fs.positional
            ||| fs.variadic && !fs.positional
            ||| fs.variadic && fs.named
            ||| fs.required && fs.variadic
        },
    ensures
        param_at(s, p, type_ok) is Err,
{
}

/// Where the hyphen of the `n`-th bullet from position `p` on stands, if the
/// bullets before it declare their parameters.
pub open spec fn bullet_at(s: Seq<char>, p: int, n: nat) -> Option<int>
    decreases n,
{
    if !(0 <= p < s.len() && s[p] == '-') {
        None
    } else if n == 0 {
        Some(p)
    } else {
        match param_at(s, p + 1, type_parses(type_of(s, p + 1))) {
            Ok((m, next)) => bullet_at(s, next, (n - 1) as nat),
            Err(e) => None,
        }
    }
}

/// A bullet that declares no parameter leaves the whole list without
/// parameters, whatever stands before it and behind it.
pub proof fn lemma_bullet_fails_list(s: Seq<char>, p: int, n: nat)
    requires
        bullet_at(s, p, n) matches Some(q) && param_at(
            s,
            q + 1,
            type_parses(type_of(s, q + 1)),
        ) is Err,
    ensures
        params_from(s, p) is Err,
    decreases n,
{
    if n > 0 {
        let next = param_at(s, p + 1, type_parses(type_of(s, p + 1)))->Ok_0.1;
        lemma_bullet_fails_list(s, next, (n - 1) as nat);
    }
}

/// The text without the indent that its lines have in common.
pub fn dedented(text: &Vec<char>) -> (r: Vec<char>)
    ensures
        r@ == dedent(text@),
{
    let ls = lines_of(text);
    if ls.len() == 0 {
        let ghost none = Seq::new(
            0,
            |k: int|
                if k == 0 {
                    lines(text@)[0]
                } else {
                    dedent_line(lines(text@)[k], 0)
                },
        );
        assert(none == Seq::<Seq<char>>::empty());
        return Vec::new();
    }
    let mut least: Option<usize> = None;
    let mut k: usize = 1;
    while k < ls.len()
        invariant
            1 <= k <= ls.len(),
            match least {
                Some(w) => least_indent(views(ls@).subrange(1, k as int)) == Some(w as int),
                None => least_indent(views(ls@).subrange(1, k as int)) is None,
            },
        decreases ls.len() - k,
    {
        let l = &ls[k];
        let ghost upto = views(ls@).subrange(1, k + 1);
        assert(upto.drop_last() == views(ls@).subrange(1, k as int));
        assert(upto.last() == l@);
        let w = skip_over(l, 0, ' ');
        if w < l.len() {
            least = match least {
                Some(m) => Some(if w < m { w } else { m }),
                None => Some(w),
            };
        }
        k += 1;
    }
    assert(views(ls@).subrange(1, ls.len() as int) == views(ls@).skip(1));
    let width: usize = match least {
        Some(w) => w,
        None => 0,
    };
    assert(width == common_indent(views(ls@)));
    let ghost want = Seq::new(
        ls.len() as nat,
        |k: int|
            if k == 0 {
                lines(text@)[0]
            } else {
                dedent_line(lines(text@)[k], common_indent(lines(text@)))
            },
    );
    let mut out: Vec<Vec<char>> = Vec::new();
    out.push(slice(&ls[0], 0, ls[0].len()));
    assert(ls@[0]@.subrange(0, ls@[0]@.len() as int) == ls@[0]@);
    let mut k: usize = 1;
    assert(views(out@) == want.take(1));
    while k < ls.len()
        invariant
            1 <= k <= ls.len(),
            views(ls@) == lines(text@),
            width == common_indent(lines(text@)),
            want.len() == ls.len(),
            forall|j: int| 1 <= j < ls.len() ==> want[j] == dedent_line(#[trigger] lines(text@)[j], width as int),
            views(out@) == want.take(k as int),
        decreases ls.len() - k,
    {
        let l = &ls[k];
        let ghost before = views(out@);
        assert(views(ls@)[k as int] == l@);
        let w = skip_over(l, 0, ' ');
        let cut: usize = if w < width { w } else { width };
        out.push(slice(l, cut, l.len()));
        assert(l@.subrange(cut as int, l.len() as int) == l@.skip(cut as int));
        assert(views(out@) == before.push(dedent_line(l@, width as int)));
        assert(want.take(k + 1) == want.take(k as int).push(want[k as int]));
        k += 1;
    }
    assert(want.take(ls.len() as int) == want);
    assert(views(out@).subrange(0, out.len() as int) == views(out@));
    join_range(&out, 0, out.len(), '\n')
}

/// The type of the bullet whose hyphen stands before `p`, as it is written;
/// `None` where no colon and blank follow the bullet's name.
pub fn type_token(s: &Vec<char>, p: usize) -> (r: Option<String>)
    requires
        p <= s.len(),
    ensures
        match r {
            Some(t) => has_type(s@, p as int) && t@ == type_of(s@, p as int),
            None => !has_type(s@, p as int),
        },
{
    let a = skip_space(s, p);
    let b = skip_to(s, a, ':');
    let mut mark: Vec<char> = Vec::new();
    mark.push(':');
    mark.push(' ');
    assert(mark@ == seq![':', ' ']);
    if !starts_at(s, b, &mark) {
        return None;
    }
    let d = skip_non_space(s, b + 2);
    Some(to_string(&slice(s, b + 2, d)))
}

/// Reads the bullet whose hyphen stands before `p`, given the verdict on its
/// type, and returns the parameter with the position behind the bullet.
pub fn parse_param(s: &Vec<char>, p: usize, type_ok: bool) -> (r: Result<(ParamInfo, usize), DocError>)
    requires
        p <= s.len(),
    ensures
        match r {
            Ok((info, next)) => param_at(s@, p as int, type_ok) == Ok::<(ParamModel, int), DocFault>(
                (info@, next as int),
            ) && p < next <= s.len(),
            Err(e) => param_at(s@, p as int, type_ok) == Err::<(ParamModel, int), DocFault>(e@),
        },
{
    let a = skip_space(s, p);
    let b = skip_to(s, a, ':');
    let mut mark: Vec<char> = Vec::new();
    mark.push(':');
    mark.push(' ');
    assert(mark@ == seq![':', ' ']);
    if !starts_at(s, b, &mark) {
        return Err(DocError::Malformed);
    }
    let d = skip_non_space(s, b + 2);
    if !type_ok {
        return Err(DocError::InvalidType(to_string(&slice(s, b + 2, d))));
    }
    let e = skip_space(s, d);
    if e >= s.len() || s[e] != '(' {
        return Err(DocError::Malformed);
    }
    let g = skip_to(s, e + 1, ')');
    let fs = match parse_flags(&slice(s, e + 1, g)) {
        Ok(fs) => fs,
        Err(t) => {
            return Err(DocError::UnknownFlag(to_string(&t)));
        },
    };
    let kind = match ParamKind::from_flags(fs.named, fs.positional, fs.required, fs.variadic) {
        Some(kind) => kind,
        None => {
            return Err(DocError::InvalidFlags);
        },
    };
    if g >= s.len() {
        return Err(DocError::Malformed);
    }
    let mut stop: Vec<char> = Vec::new();
    stop.push('\n');
    stop.push('-');
    assert(stop@ == seq!['\n', '-']);
    let k = find(s, g + 1, &stop);
    let mut text = dedented(&trimmed(&slice(s, g + 1, k)));
    let example = match take_example(&mut text) {
        Some(code) => Some(to_string(&code)),
        None => None,
    };
    let next = skip_space(s, k);
    let info = ParamInfo {
        name: to_string(&slice(s, a, b)),
        ty: to_string(&slice(s, b + 2, d)),
        kind,
        settable: fs.settable,
        docs: to_string(&trimmed(&text)),
        example,
    };
    Ok((info, next))
}

/// Reads the bullets of a section body.
pub fn parse_params(body: &Vec<char>) -> (r: Result<Vec<ParamInfo>, DocError>)
    ensures
        match r {
            Ok(ps) => params_from(body@, 0) == Ok::<Seq<ParamModel>, DocFault>(models(ps@)),
            Err(e) => params_from(body@, 0) == Err::<Seq<ParamModel>, DocFault>(e@),
        },
{
    let mut infos: Vec<ParamInfo> = Vec::new();
    let mut p: usize = 0;
    while p < body.len() && body[p] == '-'
        invariant
            p <= body.len(),
            params_from(body@, 0) == match params_from(body@, p as int) {
                Ok(rest) => Ok::<Seq<ParamModel>, DocFault>(models(infos@) + rest),
                Err(e) => Err(e),
            },
        decreases body.len() - p,
    {
        let type_ok = match type_token(body, p + 1) {
            Some(t) => match parse_type(t.as_str()) {
                Ok(_) => true,
                Err(_) => false,
            },
            None => false,
        };
        match parse_param(body, p + 1, type_ok) {
            Ok((info, next)) => {
                let ghost before = models(infos@);
                let ghost m = info@;
                infos.push(info);
                proof {
                    assert(models(infos@) == before.push(m));
                    assert forall|rest: Seq<ParamModel>| before + (seq![m] + rest) == #[trigger] (before.push(m) + rest) by {
                        assert(before + (seq![m] + rest) =~= before.push(m) + rest);
                    }
                }
                p = next;
            },
            Err(e) => {
                return Err(e);
            },
        }
    }
    assert(models(infos@) + Seq::<ParamModel>::empty() == models(infos@));
    Ok(infos)
}

/// Parse the parameter section.
///
/// Takes the section `Parameters` out of `docs` and returns the parameters
/// that its bullets declare, in their order. A text without that section
/// declares none. The section is taken out also where reading it fails.
pub fn params(docs: &mut String) -> (r: Result<Vec<ParamInfo>, DocError>)
    ensures
        match r {
            Ok(ps) => params_of(old(docs)@) == Ok::<Seq<ParamModel>, DocFault>(models(ps@)),
            Err(e) => params_of(old(docs)@) == Err::<Seq<ParamModel>, DocFault>(e@),
        },
        final(docs)@ == without_section(old(docs)@, "Parameters"@),
{
    let mut chars = to_chars(docs.as_str());
    let name = to_chars("Parameters");
    match take_section(&mut chars, &name) {
        Some(body) => {
            *docs = to_string(&chars);
            parse_params(&body)
        },
        None => {
            let none: Vec<ParamInfo> = Vec::new();
            assert(models(none@) == Seq::<ParamModel>::empty());
            Ok(none)
        },
    }
}

} // verus!
