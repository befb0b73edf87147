//! The flags of a parameter.
//!
//! A parameter is declared with a list of flags out of `named`, `positional`,
//! `required`, `variadic` and `settable`. Not every set of flags is a
//! parameter: it must be named or positional; only a positional parameter that
//! is neither named nor required can be variadic. A `ParamKind` is one of the
//! sets that are, so that no other set exists as a value.

use vstd::prelude::*;
use crate::text::{same, split, split_at_each, to_chars, trim, trimmed, views};

verus! {

/// The flags as they were written, before they are checked.
#[derive(Clone, Copy, Debug, PartialEq, Eq, Structural)]
pub struct FlagSet {
    pub named: bool,
    pub positional: bool,
    pub required: bool,
    pub variadic: bool,
    pub settable: bool,
}

/// How a parameter is passed: a set of the flags `named`, `positional`,
/// `required` and `variadic` that is allowed.
#[derive(Clone, Copy, Debug, PartialEq, Eq, Structural)]
pub enum ParamKind {
    /// `positional, required`
    RequiredPositional,
    /// `positional`
    OptionalPositional,
    /// `positional, variadic`
    Variadic,
    /// `named, required`
    RequiredNamed,
    /// `named`
    OptionalNamed,
    /// `named, positional, required`
    RequiredEither,
    /// `named, positional`
    OptionalEither,
}

/// Whether the four flags may stand together.
pub open spec fn allowed(named: bool, positional: bool, required: bool, variadic: bool) -> bool {
    &&& named || positional
    &&& variadic ==> positional
    &&& !(named && variadic)
    &&& !(required && variadic)
}

impl ParamKind {
    /// Whether the parameter can be passed by name.
    pub open spec fn named(self) -> bool {
        self == ParamKind::RequiredNamed || self == ParamKind::OptionalNamed || self
            == ParamKind::RequiredEither || self == ParamKind::OptionalEither
    }

    /// Whether the parameter can be passed by position.
    pub open spec fn positional(self) -> bool {
        !(self == ParamKind::RequiredNamed || self == ParamKind::OptionalNamed)
    }

    /// Whether the parameter must be passed.
    pub open spec fn required(self) -> bool {
        self == ParamKind::RequiredPositional || self == ParamKind::RequiredNamed || self
            == ParamKind::RequiredEither
    }

    /// Whether the parameter takes any number of arguments.
    pub open spec fn variadic(self) -> bool {
        self == ParamKind::Variadic
    }

    /// The kind with these four flags, if they may stand together.
    pub open spec fn of(named: bool, positional: bool, required: bool, variadic: bool) -> Option<
        ParamKind,
    > {
        if !allowed(named, positional, required, variadic) {
            None
        } else if variadic {
            Some(ParamKind::Variadic)
        } else if named && positional {
            Some(
                if required {
                    ParamKind::RequiredEither
                } else {
                    ParamKind::OptionalEither
                },
            )
        } else if named {
            Some(
                if required {
                    ParamKind::RequiredNamed
                } else {
                    ParamKind::OptionalNamed
                },
            )
        } else {
            Some(
                if required {
                    ParamKind::RequiredPositional
                } else {
                    ParamKind::OptionalPositional
                },
            )
        }
    }

    /// The kind with these four flags. There is none where the parameter
    /// would be neither named nor positional, variadic without being
    /// positional, variadic and named, or variadic and required.
    pub fn from_flags(named: bool, positional: bool, required: bool, variadic: bool) -> (r: Option<
        ParamKind,
    >)
        ensures
            r == ParamKind::of(named, positional, required, variadic),
            r is Some <==> allowed(named, positional, required, variadic),
            !named && !positional ==> r is None,
            variadic && !positional ==> r is None,
            variadic && named ==> r is None,
            required && variadic ==> r is None,
            r matches Some(k) ==> k.named() == named && k.positional() == positional
                && k.required() == required && k.variadic() == variadic,
    {
        if (!named && !positional) || (variadic && !positional) || (named && variadic) || (required
            && variadic) {
            None
        } else if variadic {
            Some(ParamKind::Variadic)
        } else if named && positional {
            if required {
                Some(ParamKind::RequiredEither)
            } else {
                Some(ParamKind::OptionalEither)
            }
        } else if named {
            if required {
                Some(ParamKind::RequiredNamed)
            } else {
                Some(ParamKind::OptionalNamed)
            }
        } else {
            if required {
                Some(ParamKind::RequiredPositional)
            } else {
                Some(ParamKind::OptionalPositional)
            }
        }
    }

    /// Whether the parameter can be passed by name.
    pub fn is_named(self) -> (b: bool)
        ensures
            b == self.named(),
    {
        match self {
            ParamKind::RequiredNamed
            | ParamKind::OptionalNamed
            | ParamKind::RequiredEither
            | ParamKind::OptionalEither => true,
            _ => false,
        }
    }

    /// Whether the parameter can be passed by position.
    pub fn is_positional(self) -> (b: bool)
        ensures
            b == self.positional(),
    {
        match self {
            ParamKind::RequiredNamed | ParamKind::OptionalNamed => false,
            _ => true,
        }
    }

    /// Whether the parameter must be passed.
    pub fn is_required(self) -> (b: bool)
        ensures
            b == self.required(),
    {
        match self {
            ParamKind::RequiredPositional
            | ParamKind::RequiredNamed
            | ParamKind::RequiredEither => true,
            _ => false,
        }
    }

    /// Whether the parameter takes any number of arguments.
    pub fn is_variadic(self) -> (b: bool)
        ensures
            b == self.variadic(),
    {
        match self {
            ParamKind::Variadic => true,
            _ => false,
        }
    }
}

impl FlagSet {
    /// No flag.
    pub open spec fn none() -> FlagSet {
        FlagSet {
            named: false,
            positional: false,
            required: false,
            variadic: false,
            settable: false,
        }
    }

    /// The kind that the flags stand for, if they may stand together.
    pub open spec fn kind(self) -> Option<ParamKind> {
        ParamKind::of(self.named, self.positional, self.required, self.variadic)
    }
}

/// The flags `fs` and the one that `piece` names. A piece of white space
/// names none; a piece that is no flag's name is the error.
pub open spec fn with_flag(fs: FlagSet, piece: Seq<char>) -> Result<FlagSet, Seq<char>> {
    let t = trim(piece);
    if t.len() == 0 {
        Ok(fs)
    } else if t == "named"@ {
        Ok(FlagSet { named: true, ..fs })
    } else if t == "positional"@ {
        Ok(FlagSet { positional: true, ..fs })
    } else if t == "required"@ {
        Ok(FlagSet { required: true, ..fs })
    } else if t == "variadic"@ {
        Ok(FlagSet { variadic: true, ..fs })
    } else if t == "settable"@ {
        Ok(FlagSet { settable: true, ..fs })
    } else {
        Err(t)
    }
}

/// The flags that the pieces name, or the first piece that names none.
pub open spec fn flags_of_pieces(pieces: Seq<Seq<char>>) -> Result<FlagSet, Seq<char>>
    decreases pieces.len(),
{
    if pieces.len() == 0 {
        Ok(FlagSet::none())
    } else {
        match flags_of_pieces(pieces.drop_last()) {
            Ok(fs) => with_flag(fs, pieces.last()),
            Err(t) => Err(t),
        }
    }
}

/// The flags that a list names: its pieces between commas, each without the
/// white space around it. The error is the first piece that is no flag.
pub open spec fn flags_of(list: Seq<char>) -> Result<FlagSet, Seq<char>> {
    flags_of_pieces(split(list, ','))
}

/// Reads a list of flags. Fails with the first piece that is no flag's name.
pub fn parse_flags(list: &Vec<char>) -> (r: Result<FlagSet, Vec<char>>)
    ensures
        match r {
            Ok(fs) => flags_of(list@) == Ok::<FlagSet, Seq<char>>(fs),
            Err(t) => flags_of(list@) == Err::<FlagSet, Seq<char>>(t@),
        },
{
    let pieces = split_at_each(list, ',');
    let named = to_chars("named");
    let positional = to_chars("positional");
    let required = to_chars("required");
    let variadic = to_chars("variadic");
    let settable = to_chars("settable");
    let mut fs = FlagSet {
        named: false,
        positional: false,
        required: false,
        variadic: false,
        settable: false,
    };
    let mut k: usize = 0;
    while k < pieces.len()
        invariant
            k <= pieces.len(),
            views(pieces@) == split(list@, ','),
            named@ == "named"@,
            positional@ == "positional"@,
            required@ == "required"@,
            variadic@ == "variadic"@,
            settable@ == "settable"@,
            flags_of_pieces(views(pieces@).take(k as int)) == Ok::<FlagSet, Seq<char>>(fs),
        decreases pieces.len() - k,
    {
        let t = trimmed(&pieces[k]);
        let ghost upto = views(pieces@).take(k + 1);
        assert(upto.drop_last() == views(pieces@).take(k as int));
        assert(upto.last() == pieces@[k as int]@);
        if t.len() == 0 {
        } else if same(&t, &named) {
            fs.named = true;
        } else if same(&t, &positional) {
            fs.positional = true;
        } else if same(&t, &required) {
            fs.required = true;
        } else if same(&t, &variadic) {
            fs.variadic = true;
        } else if same(&t, &settable) {
            fs.settable = true;
        } else {
            proof {
                lemma_error_stays(views(pieces@), k + 1);
            }
            return Err(t);
        }
        k += 1;
    }
    assert(views(pieces@).take(pieces.len() as int) == views(pieces@));
    Ok(fs)
}

/// Once a piece has failed, more pieces do not change the error.
pub proof fn lemma_error_stays(pieces: Seq<Seq<char>>, n: int)
    requires
        0 <= n <= pieces.len(),
        flags_of_pieces(pieces.take(n)) is Err,
    ensures
        flags_of_pieces(pieces) == flags_of_pieces(pieces.take(n)),
    decreases pieces.len() - n,
{
    if n < pieces.len() {
        let upto = pieces.take(n + 1);
        assert(upto.drop_last() == pieces.take(n));
        lemma_error_stays(pieces, n + 1);
    } else {
        assert(pieces.take(n) == pieces);
    }
}

} // verus!
