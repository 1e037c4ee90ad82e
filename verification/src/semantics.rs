//! What evaluation yields, as a function of the program, the scope stack
//! and the output so far.
//!
//! The functions here give no outcome where a primitive is called whose
//! result is left to the host's floating-point unit. Everywhere else the
//! outcome is the one that the evaluator computes.

use crate::encoding::{Binding, Expr, ExceptionType, Value};
use crate::encoding_impl::{applied_arity_error, resolve, too_deep, unwound};
use crate::evaluator::raised;
use crate::primitives::{arity_error, hosted, primitive_output, primitive_value};
use vstd::prelude::*;

verus! {

/// The result of an evaluation: the value, and the scope stack and the
/// output as the evaluation leaves them.
pub ghost struct Outcome {
    pub value: Value,
    pub frames: Seq<Map<Seq<char>, Binding>>,
    pub out: Seq<Seq<char>>,
}

/// What evaluating a definition yields: an exception where the innermost
/// frame binds the name already, and the function otherwise.
pub open spec fn definition_value(
    id: Seq<char>,
    params: Seq<Seq<char>>,
    block: Seq<Expr>,
    frames: Seq<Map<Seq<char>, Binding>>,
) -> Value {
    if frames.last().contains_key(id) {
        raised(ExceptionType::RedefError, Seq::empty(), "attempt to redefine "@ + id)
    } else {
        Value::Function { params, block }
    }
}

/// The scope stack after a definition: the function is bound to the name
/// in the innermost frame, unless the frame binds the name already or the
/// name is empty.
pub open spec fn definition_frames(
    id: Seq<char>,
    params: Seq<Seq<char>>,
    block: Seq<Expr>,
    frames: Seq<Map<Seq<char>, Binding>>,
) -> Seq<Map<Seq<char>, Binding>> {
    if frames.last().contains_key(id) || id.len() == 0 {
        frames
    } else {
        frames.drop_last().push(frames.last().insert(id, Binding::Function { params, block }))
    }
}

/// The outcome of an evaluation that its nesting limit ends.
pub open spec fn ended(frames: Seq<Map<Seq<char>, Binding>>, out: Seq<Seq<char>>) -> Option<
    Outcome,
> {
    Some(Outcome { value: too_deep(), frames, out })
}

/// The outcome of evaluating an expression.
pub open spec fn eval_expr(
    e: Expr,
    frames: Seq<Map<Seq<char>, Binding>>,
    out: Seq<Seq<char>>,
    depth: nat,
) -> Option<Outcome>
    decreases depth, 2nat, 0nat,
{
    match e {
        Expr::Nil => Some(Outcome { value: Value::Nil, frames, out }),
        Expr::True => Some(Outcome { value: Value::True, frames, out }),
        Expr::False => Some(Outcome { value: Value::False, frames, out }),
        Expr::Integer(x) => Some(Outcome { value: Value::Integer(x), frames, out }),
        Expr::Float(x) => Some(Outcome { value: Value::Float(x), frames, out }),
        Expr::String(s) => Some(Outcome { value: Value::String(s), frames, out }),
        Expr::List(items) => eval_list(items, 0, Seq::empty(), frames, out, depth),
        Expr::Call { id, params } => eval_call(id, params, frames, out, depth),
        Expr::Definition { id, params, block } => Some(
            Outcome {
                value: definition_value(id, params, block, frames),
                frames: definition_frames(id, params, block, frames),
                out,
            },
        ),
    }
}

/// The outcome of evaluating the items of a list from index `i` on, after
/// the values `acc` of the items before: the list of all the values, or
/// the first exception.
pub open spec fn eval_list(
    items: Seq<Expr>,
    i: nat,
    acc: Seq<Value>,
    frames: Seq<Map<Seq<char>, Binding>>,
    out: Seq<Seq<char>>,
    depth: nat,
) -> Option<Outcome>
    decreases depth, 1nat, items.len() - i,
{
    if depth == 0 {
        ended(frames, out)
    } else if i >= items.len() {
        Some(Outcome { value: Value::List(acc), frames, out })
    } else {
        match eval_expr(items[i as int], frames, out, (depth - 1) as nat) {
            None => None,
            Some(o) => if o.value is Exception {
                Some(o)
            } else {
                eval_list(items, i + 1, acc.push(o.value), o.frames, o.out, depth)
            },
        }
    }
}

/// The outcome of a call: of the function or the value that the scope
/// stack binds the name to, else of `$`, else of the primitive of that
/// name.
pub open spec fn eval_call(
    id: Seq<char>,
    params: Seq<Expr>,
    frames: Seq<Map<Seq<char>, Binding>>,
    out: Seq<Seq<char>>,
    depth: nat,
) -> Option<Outcome>
    decreases depth, 1nat, 0nat,
{
    if depth == 0 {
        ended(frames, out)
    } else {
        match resolve(frames, id, frames.len()) {
            Some(Binding::Function { params: names, block }) => invoke(
                names,
                block,
                id,
                params,
                0,
                frames,
                out,
                (depth - 1) as nat,
            ),
            Some(Binding::Value(v)) => Some(Outcome { value: v, frames, out }),
            None => if id == "$"@ {
                if params.len() < 1 {
                    Some(
                        Outcome {
                            value: raised(
                                ExceptionType::ArityError,
                                id,
                                "expected at least 1 argument but got 0"@,
                            ),
                            frames,
                            out,
                        },
                    )
                } else {
                    match eval_expr(params[0], frames, out, (depth - 1) as nat) {
                        None => None,
                        Some(o) => match o.value {
                            Value::Function { params: names, block } => invoke(
                                names,
                                block,
                                id,
                                params,
                                1,
                                o.frames,
                                o.out,
                                (depth - 1) as nat,
                            ),
                            Value::Exception { .. } => Some(o),
                            _ => Some(
                                Outcome {
                                    value: raised(
                                        ExceptionType::TypeError,
                                        id,
                                        "function expected as first argument"@,
                                    ),
                                    frames: o.frames,
                                    out: o.out,
                                },
                            ),
                        },
                    }
                }
            } else {
                eval_args(id, params, 0, Seq::empty(), frames, out, depth)
            },
        }
    }
}

/// The outcome of the call of a primitive whose arguments from index `i`
/// on are still to be evaluated, after the values `acc` of the arguments
/// before. An argument that raises ends the call, unless the primitive is
/// `catch`.
pub open spec fn eval_args(
    id: Seq<char>,
    params: Seq<Expr>,
    i: nat,
    acc: Seq<Value>,
    frames: Seq<Map<Seq<char>, Binding>>,
    out: Seq<Seq<char>>,
    depth: nat,
) -> Option<Outcome>
    decreases depth, 0nat, params.len() - i,
{
    if depth == 0 {
        ended(frames, out)
    } else if i >= params.len() {
        if hosted(id, acc) {
            None
        } else {
            Some(
                Outcome {
                    value: primitive_value(id, acc),
                    frames,
                    out: out + primitive_output(id, acc),
                },
            )
        }
    } else {
        match eval_expr(params[i as int], frames, out, (depth - 1) as nat) {
            None => None,
            Some(o) => if id != "catch"@ && o.value is Exception {
                Some(o)
            } else {
                eval_args(id, params, i + 1, acc.push(o.value), o.frames, o.out, depth)
            },
        }
    }
}

/// The outcome of calling, under the name `id`, the function with the
/// parameters `names` and the body `block` on the arguments of `args`
/// from index `first` on.
pub open spec fn invoke(
    names: Seq<Seq<char>>,
    block: Seq<Expr>,
    id: Seq<char>,
    args: Seq<Expr>,
    first: nat,
    frames: Seq<Map<Seq<char>, Binding>>,
    out: Seq<Seq<char>>,
    depth: nat,
) -> Option<Outcome>
    decreases depth, 1nat, 0nat,
{
    if args.len() - first != names.len() {
        Some(
            Outcome {
                value: if first == 0 {
                    arity_error(id, names.len(), args.len())
                } else {
                    applied_arity_error(id, names.len(), (args.len() - first) as nat)
                },
                frames,
                out,
            },
        )
    } else if depth == 0 {
        ended(frames, out)
    } else {
        bind_args(names, block, id, args, first, first, Map::empty(), frames, out, depth)
    }
}

/// The outcome of a call whose arguments from index `y` on are still to
/// be bound, with the frame of the parameters bound so far. Each argument
/// is evaluated as a block of its own in the calling context `id`; when
/// all are bound the body is evaluated on the stack with the frame on
/// top, and the frame is dropped.
pub open spec fn bind_args(
    names: Seq<Seq<char>>,
    block: Seq<Expr>,
    id: Seq<char>,
    args: Seq<Expr>,
    first: nat,
    y: nat,
    frame: Map<Seq<char>, Binding>,
    frames: Seq<Map<Seq<char>, Binding>>,
    out: Seq<Seq<char>>,
    depth: nat,
) -> Option<Outcome>
    decreases depth, 0nat, args.len() - y,
{
    if depth == 0 {
        ended(frames, out)
    } else if y >= args.len() {
        match eval_block(block, id, frames.push(frame), out, (depth - 1) as nat) {
            None => None,
            Some(o) => Some(Outcome { value: o.value, frames: o.frames.drop_last(), out: o.out }),
        }
    } else {
        match eval_block(seq![args[y as int]], id, frames, out, (depth - 1) as nat) {
            None => None,
            Some(o) => if o.value is Exception {
                Some(o)
            } else {
                bind_args(
                    names,
                    block,
                    id,
                    args,
                    first,
                    y + 1,
                    frame.insert(names[y - first], Binding::Value(o.value)),
                    o.frames,
                    o.out,
                    depth,
                )
            },
        }
    }
}

/// The outcome of evaluating a block in the calling context `context`: on
/// a fresh frame, which is dropped afterwards.
pub open spec fn eval_block(
    exprs: Seq<Expr>,
    context: Seq<char>,
    frames: Seq<Map<Seq<char>, Binding>>,
    out: Seq<Seq<char>>,
    depth: nat,
) -> Option<Outcome>
    decreases depth, 1nat, 0nat,
{
    if depth == 0 {
        ended(frames, out)
    } else {
        run_block(exprs, 0, Value::Nil, context, frames.push(Map::empty()), out, depth)
    }
}

/// The outcome of the expressions of a block from index `i` on, after the
/// value `value` of the expression before: the value of the last
/// expression, the payload of the first early return, or the first other
/// exception with `context` added to its trace.
pub open spec fn run_block(
    exprs: Seq<Expr>,
    i: nat,
    value: Value,
    context: Seq<char>,
    frames: Seq<Map<Seq<char>, Binding>>,
    out: Seq<Seq<char>>,
    depth: nat,
) -> Option<Outcome>
    decreases depth, 0nat, exprs.len() - i,
{
    if depth == 0 {
        ended(frames, out)
    } else if i >= exprs.len() {
        Some(Outcome { value, frames: frames.drop_last(), out })
    } else {
        match eval_expr(exprs[i as int], frames, out, (depth - 1) as nat) {
            None => None,
            Some(o) => match o.value {
                Value::Exception { flavor, payload, stack } => Some(
                    Outcome {
                        value: unwound(flavor, *payload, stack, context),
                        frames: o.frames.drop_last(),
                        out: o.out,
                    },
                ),
                v => run_block(exprs, i + 1, v, context, o.frames, o.out, depth),
            },
        }
    }
}

/// Whether a value, a scope stack and an output are those of an outcome,
/// where there is one.
pub open spec fn agrees(
    expected: Option<Outcome>,
    value: Value,
    frames: Seq<Map<Seq<char>, Binding>>,
    out: Seq<Seq<char>>,
) -> bool {
    expected is Some ==> {
        &&& value == expected->0.value
        &&& frames == expected->0.frames
        &&& out == expected->0.out
    }
}

} // verus!
