//! Functions on values of any type.

use vstd::prelude::*;
use crate::model::{
    cast_bool, fails_with, first_positional, mismatch_error, Args, SourceError, Value,
};
use crate::nodes::rest_of;

verus! {

/// The name of a value's type.
///
/// Takes the first argument that was passed by position and gives the name
/// of its type as a string.
pub fn type_(args: &mut Args) -> (r: Result<Value, SourceError>)
    ensures
        final(args).span == old(args).span,
        final(args).items@ == rest_of(old(args).items@),
        ({
            let items = old(args).items@;
            let k = first_positional(items, 0);
            if k < items.len() {
                r matches Ok(Value::Str(t)) && t@ == items[k].value.type_label_of()
            } else {
                fails_with(r, old(args).span, "missing argument: value"@)
            }
        }),
{
    proof {
        reveal_strlit("missing argument: ");
        reveal_strlit("value");
        reveal_strlit("missing argument: value");
        assert("missing argument: "@ + "value"@ =~= "missing argument: value"@);
    }
    match args.expect("value") {
        Ok(a) => Ok(Value::Str(a.value.type_label().to_owned())),
        Err(e) => Err(e),
    }
}

/// Ensure that a condition is fulfilled.
///
/// Takes the first argument that was passed by position. It must be a
/// boolean; where it is `false`, the assertion fails at that argument.
pub fn assert_(args: &mut Args) -> (r: Result<Value, SourceError>)
    ensures
        final(args).span == old(args).span,
        final(args).items@ == rest_of(old(args).items@),
        ({
            let items = old(args).items@;
            let k = first_positional(items, 0);
            if k < items.len() {
                match items[k].value {
                    Value::Bool(true) => r == Ok::<Value, SourceError>(Value::Nothing),
                    Value::Bool(false) => fails_with(r, items[k].span, "assertion failed"@),
                    _ => fails_with(r, items[k].span, items[k].value.mismatch("boolean"@)),
                }
            } else {
                fails_with(r, old(args).span, "missing argument: condition"@)
            }
        }),
{
    proof {
        reveal_strlit("missing argument: ");
        reveal_strlit("condition");
        reveal_strlit("missing argument: condition");
        assert("missing argument: "@ + "condition"@ =~= "missing argument: condition"@);
    }
    let a = match args.expect("condition") {
        Ok(a) => a,
        Err(e) => {
            return Err(e);
        },
    };
    let span = a.span;
    match cast_bool(a) {
        Ok(true) => Ok(Value::Nothing),
        Ok(false) => Err(SourceError { span, message: "assertion failed".to_owned() }),
        Err(e) => Err(e),
    }
}

/// The markup that is to be evaluated, and where it stands in the source.
///
/// Takes the first argument that was passed by position. It must be a
/// string.
pub fn markup(args: &mut Args) -> (r: Result<(String, u64), SourceError>)
    ensures
        final(args).span == old(args).span,
        final(args).items@ == rest_of(old(args).items@),
        ({
            let items = old(args).items@;
            let k = first_positional(items, 0);
            if k < items.len() {
                match items[k].value {
                    Value::Str(s) => r == Ok::<(String, u64), SourceError>((s, items[k].span)),
                    _ => fails_with(r, items[k].span, items[k].value.mismatch("string"@)),
                }
            } else {
                fails_with(r, old(args).span, "missing argument: source"@)
            }
        }),
{
    proof {
        reveal_strlit("missing argument: ");
        reveal_strlit("source");
        reveal_strlit("missing argument: source");
        assert("missing argument: "@ + "source"@ =~= "missing argument: source"@);
    }
    let a = match args.expect("source") {
        Ok(a) => a,
        Err(e) => {
            return Err(e);
        },
    };
    match a.value {
        Value::Str(s) => Ok((s, a.span)),
        v => Err(mismatch_error(a.span, "string", &v)),
    }
}

} // verus!
