//! Exceptions as values, and the evaluation of a whole program.

use crate::encoding::{names_view, scopes_view};
use crate::encoding::{Block, Evaluation, Exception, ExceptionType, Expr, Scope, Value};
use crate::semantics::{eval_block, Outcome};
use crate::encoding_display::{float_free, render, report_text};
use crate::floats::FloatOps;
use vstd::prelude::*;
use vstd::string::*;

verus! {

/// The payload of an exception that the evaluator or a primitive raises:
/// the name of what raised it, ` : `, and the message.
pub open spec fn raised_text(id: Seq<char>, msg: Seq<char>) -> Seq<char> {
    id + " : "@ + msg
}

/// The exception of kind `flavor` that `id` raises with `msg`, with an
/// empty trace.
pub open spec fn raised(flavor: ExceptionType, id: Seq<char>, msg: Seq<char>) -> Value {
    Value::Exception {
        flavor,
        payload: Box::new(Value::String(raised_text(id, msg))),
        stack: Seq::<Seq<char>>::empty(),
    }
}

pub fn exception(flavor: ExceptionType, id: &String, msg: String) -> (e: Evaluation)
    ensures
        e@ == raised(flavor, id@, msg@),
{
    let mut text = id.clone();
    text.append(" : ");
    text.append(msg.as_str());
    assert(text@ =~= raised_text(id@, msg@));
    let payload = Evaluation::String(text);
    assert(payload@ == Value::String(raised_text(id@, msg@)));
    let e = Exception { flavor, payload: Box::new(payload), stack: Vec::new() };
    assert(names_view(e.stack@) =~= Seq::<Seq<char>>::empty());
    Evaluation::Exception(e)
}

/// How deep the evaluation of a program may nest. A program that nests
/// deeper ends with a runtime exception.
pub const NESTING_LIMIT: usize = 1500;

/// Whether `text` is the report of the exception `r`, where no
/// floating-point number occurs in its payload.
pub open spec fn reports(r: Value, text: Seq<char>) -> bool {
    match r {
        Value::Exception { flavor, payload, stack } => float_free(*payload) ==> text
            == report_text(flavor, render(*payload), stack),
        _ => false,
    }
}

/// The outcome of a program: of its block, on an empty scope stack and
/// with nothing printed yet, in the calling context `[main program]`.
pub open spec fn program_outcome(block: Seq<Expr>) -> Option<Outcome> {
    eval_block(
        block,
        "[main program]"@,
        Seq::empty(),
        Seq::empty(),
        NESTING_LIMIT as nat,
    )
}

/// Evaluates a program on an empty scope stack, in the calling context
/// `[main program]`. Yields the value of the program and the lines that it
/// printed, in order. Where the program ends with an exception that
/// nothing caught, the report of the exception is one more line after
/// them.
pub fn evaluate<H: FloatOps>(block: &Block, host: &H) -> (r: (Evaluation, Vec<String>))
    ensures
        program_outcome(block@) is Some ==> {
            let o = program_outcome(block@)->0;
            &&& r.0@ == o.value
            &&& if o.value is Exception {
                names_view(r.1@).drop_last() == o.out
            } else {
                names_view(r.1@) == o.out
            }
        },
        r.0@ is Exception ==> r.1.len() > 0 && reports(r.0@, r.1[r.1.len() - 1]@),
        block.expressions.len() == 0 ==> r.0@ == Value::Nil && r.1.len() == 0,
{
    let mut scope: Vec<Scope> = Vec::new();
    let mut out: Vec<String> = Vec::new();
    let context = "[main program]".to_owned();
    assert(scopes_view(scope@) =~= Seq::empty());
    assert(names_view(out@) =~= Seq::empty());
    let result = block.evaluate(&mut scope, &context, host, &mut out, NESTING_LIMIT);
    match &result {
        Evaluation::Exception(e) => {
            let report = e.to_string(host);
            let ghost lines = names_view(out@);
            out.push(report);
            assert(names_view(out@).drop_last() =~= lines);
        },
        _ => {},
    }
    (result, out)
}

} // verus!
