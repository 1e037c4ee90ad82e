//! The built-in operations of the language.
//!
//! Each operation is described by a relation between its name, its
//! arguments and its result. Where no floating-point number is involved
//! the relation holds of one result only. Where the host's floating-point
//! unit computes the result, the relation fixes its kind.
//!
//! Integer arithmetic wraps around at 64 bits. Dividing an integer by zero
//! raises a division-by-zero exception.

use crate::encoding::{lemma_values_view, names_view, values_view};
use crate::encoding::{Evaluation, Exception, ExceptionType, ListEval, Value};
use crate::encoding_display::{flavor_name, float_free, render};
use crate::evaluator::{exception, raised};
use crate::floats::{equal_bits, float_equal, float_less, less_bits, FloatOps};
use crate::text::{count_text, int_of_text, nat_text, parse_integer, same_text};
use vstd::prelude::*;
use vstd::string::*;

verus! {

/// The exception for a call of `id` with `got` arguments in place of
/// `count`.
pub open spec fn arity_error(id: Seq<char>, count: nat, got: nat) -> Value {
    raised(
        ExceptionType::ArityError,
        id,
        "expected "@ + nat_text(count) + " arguments but got "@ + nat_text(got),
    )
}

/// The value of a truth value.
pub open spec fn truth(b: bool) -> Value {
    if b {
        Value::True
    } else {
        Value::False
    }
}

/// The first exception among the arguments from index `i` on.
pub open spec fn first_exception(args: Seq<Value>, i: nat) -> Option<Value>
    decreases args.len() - i,
{
    if i >= args.len() {
        None
    } else if args[i as int] is Exception {
        Some(args[i as int])
    } else {
        first_exception(args, i + 1)
    }
}

/// The exception for a call of `id` with `got` arguments in place of
/// `count`.
pub fn arity_exception(id: &String, count: usize, got: usize) -> (e: Evaluation)
    ensures
        e@ == arity_error(id@, count as nat, got as nat),
{
    let mut msg = "expected ".to_owned();
    let expected = count_text(count);
    msg.append(expected.as_str());
    msg.append(" arguments but got ");
    let given = count_text(got);
    msg.append(given.as_str());
    assert(msg@ =~= "expected "@ + nat_text(count as nat) + " arguments but got "@ + nat_text(
        got as nat,
    ));
    exception(ExceptionType::ArityError, id, msg)
}

fn expect_args(count: usize, params: &Vec<Evaluation>, id: &String) -> (r: Option<Evaluation>)
    ensures
        count == params.len() ==> r is None,
        count != params.len() ==> r is Some && r->0@ == arity_error(
            id@,
            count as nat,
            params.len() as nat,
        ),
{
    if count != params.len() {
        Some(arity_exception(id, count, params.len()))
    } else {
        None
    }
}

fn fail(flavor: ExceptionType, id: &String, msg: &str) -> (e: Evaluation)
    ensures
        e@ == raised(flavor, id@, msg@),
{
    exception(flavor, id, msg.to_owned())
}

fn truth_value(b: bool) -> (v: Evaluation)
    ensures
        v@ == truth(b),
{
    if b {
        Evaluation::True
    } else {
        Evaluation::False
    }
}

/// `int`: a float is cut to its integer part by the host; a string is
/// read as a decimal integer.
pub open spec fn convert_int(id: Seq<char>, args: Seq<Value>, r: Value) -> bool {
    if args.len() != 1 {
        r == arity_error(id, 1, args.len())
    } else {
        match args[0] {
            Value::Float(_) => r is Integer,
            Value::String(s) => match int_of_text(s) {
                Some(n) => r == Value::Integer(n),
                None => r == raised(ExceptionType::ParseError, id, "unable to parse string: "@ + s),
            },
            _ => r == raised(ExceptionType::TypeError, id, "float or string argument expected"@),
        }
    }
}

fn apply_int<H: FloatOps>(host: &H, id: &String, params: &Vec<Evaluation>) -> (r: Evaluation)
    ensures
        convert_int(id@, values_view(params@), r@),
{
    proof {
        lemma_values_view(params@);
    }
    match expect_args(1, params, id) {
        Some(e) => e,
        None => match &params[0] {
            Evaluation::Float(x) => Evaluation::Integer(host.to_int(*x)),
            Evaluation::String(s) => match parse_integer(s.as_str()) {
                Some(n) => Evaluation::Integer(n),
                None => {
                    let mut msg = "unable to parse string: ".to_owned();
                    msg.append(s.as_str());
                    exception(ExceptionType::ParseError, id, msg)
                },
            },
            _ => fail(ExceptionType::TypeError, id, "float or string argument expected"),
        },
    }
}

/// `float`: an integer is converted by the host; a string is read by the
/// host, which may refuse it.
pub open spec fn convert_float(id: Seq<char>, args: Seq<Value>, r: Value) -> bool {
    if args.len() != 1 {
        r == arity_error(id, 1, args.len())
    } else {
        match args[0] {
            Value::Integer(_) => r is Float,
            Value::String(s) => r is Float || r == raised(
                ExceptionType::ParseError,
                id,
                "unable to parse string: "@ + s,
            ),
            _ => r == raised(ExceptionType::TypeError, id, "int or string argument expected"@),
        }
    }
}

fn apply_float<H: FloatOps>(host: &H, id: &String, params: &Vec<Evaluation>) -> (r: Evaluation)
    ensures
        convert_float(id@, values_view(params@), r@),
{
    proof {
        lemma_values_view(params@);
    }
    match expect_args(1, params, id) {
        Some(e) => e,
        None => match &params[0] {
            Evaluation::Integer(x) => Evaluation::Float(host.from_int(*x)),
            Evaluation::String(s) => match host.parse(s.as_str()) {
                Some(bits) => Evaluation::Float(bits),
                None => {
                    let mut msg = "unable to parse string: ".to_owned();
                    msg.append(s.as_str());
                    exception(ExceptionType::ParseError, id, msg)
                },
            },
            _ => fail(ExceptionType::TypeError, id, "int or string argument expected"),
        },
    }
}

/// `string`: the text of the argument.
pub open spec fn convert_string(id: Seq<char>, args: Seq<Value>, r: Value) -> bool {
    if args.len() != 1 {
        r == arity_error(id, 1, args.len())
    } else if float_free(args[0]) {
        r == Value::String(render(args[0]))
    } else {
        r is String
    }
}

fn apply_string<H: FloatOps>(host: &H, id: &String, params: &Vec<Evaluation>) -> (r: Evaluation)
    ensures
        convert_string(id@, values_view(params@), r@),
{
    proof {
        lemma_values_view(params@);
    }
    match expect_args(1, params, id) {
        Some(e) => e,
        None => Evaluation::String(params[0].to_string(host)),
    }
}

/// `>>`: prints a string and yields nil.
pub open spec fn print_result(id: Seq<char>, args: Seq<Value>, r: Value) -> bool {
    if args.len() != 1 {
        r == arity_error(id, 1, args.len())
    } else {
        match args[0] {
            Value::String(_) => r == Value::Nil,
            _ => r == raised(ExceptionType::TypeError, id, "string argument expected"@),
        }
    }
}

/// The lines that a call of the primitive `id` prints: the argument of
/// `>>` where it is one string, and nothing otherwise.
pub open spec fn printed(id: Seq<char>, args: Seq<Value>) -> Seq<Seq<char>> {
    if id == ">>"@ && args.len() == 1 {
        match args[0] {
            Value::String(s) => seq![s],
            _ => Seq::empty(),
        }
    } else {
        Seq::empty()
    }
}

fn apply_print(id: &String, params: &Vec<Evaluation>, out: &mut Vec<String>) -> (r: Evaluation)
    requires
        id@ == ">>"@,
    ensures
        print_result(id@, values_view(params@), r@),
        names_view(final(out)@) == names_view(old(out)@) + printed(id@, values_view(params@)),
{
    proof {
        lemma_values_view(params@);
    }
    match expect_args(1, params, id) {
        Some(e) => {
            assert(names_view(out@) =~= names_view(old(out)@) + printed(
                id@,
                values_view(params@),
            ));
            e
        },
        None => match &params[0] {
            Evaluation::String(s) => {
                out.push(s.clone());
                assert(names_view(out@) =~= names_view(old(out)@) + printed(
                    id@,
                    values_view(params@),
                ));
                Evaluation::Nil
            },
            _ => {
                assert(names_view(out@) =~= names_view(old(out)@) + printed(
                    id@,
                    values_view(params@),
                ));
                fail(ExceptionType::TypeError, id, "string argument expected")
            },
        },
    }
}

/// `+`: adds numbers, joins strings, and appends a value to a list.
pub open spec fn plus(id: Seq<char>, args: Seq<Value>, r: Value) -> bool {
    if args.len() != 2 {
        r == arity_error(id, 2, args.len())
    } else {
        match (args[0], args[1]) {
            (Value::Integer(x), Value::Integer(y)) => r == Value::Integer(x.wrapping_add(y)),
            (Value::Integer(_), Value::Float(_)) => r is Float,
            (Value::Float(_), Value::Integer(_)) => r is Float,
            (Value::Float(_), Value::Float(_)) => r is Float,
            (Value::String(s), Value::String(t)) => r == Value::String(s + t),
            (Value::Integer(_), _) | (Value::Float(_), _) | (Value::String(_), _) => r == raised(
                ExceptionType::TypeMismatch,
                id,
                "mismatched argument types"@,
            ),
            (Value::List(items), v) => r == Value::List(items.push(v)),
            _ => r == raised(
                ExceptionType::TypeError,
                id,
                "numbers, strings, or list arguments expected"@,
            ),
        }
    }
}

fn apply_plus<H: FloatOps>(host: &H, id: &String, params: &Vec<Evaluation>) -> (r: Evaluation)
    ensures
        plus(id@, values_view(params@), r@),
{
    proof {
        lemma_values_view(params@);
    }
    match expect_args(2, params, id) {
        Some(e) => e,
        None => match &params[0] {
            Evaluation::Integer(x) => match &params[1] {
                Evaluation::Integer(y) => Evaluation::Integer(x.wrapping_add(*y)),
                Evaluation::Float(y) => Evaluation::Float(host.sum(host.from_int(*x), *y)),
                _ => fail(ExceptionType::TypeMismatch, id, "mismatched argument types"),
            },
            Evaluation::Float(x) => match &params[1] {
                Evaluation::Integer(y) => Evaluation::Float(host.sum(*x, host.from_int(*y))),
                Evaluation::Float(y) => Evaluation::Float(host.sum(*x, *y)),
                _ => fail(ExceptionType::TypeMismatch, id, "mismatched argument types"),
            },
            Evaluation::String(s) => match &params[1] {
                Evaluation::String(t) => {
                    let mut joined = s.clone();
                    joined.append(t.as_str());
                    Evaluation::String(joined)
                },
                _ => fail(ExceptionType::TypeMismatch, id, "mismatched argument types"),
            },
            Evaluation::List(list) => {
                let mut longer = list.clone();
                longer.items.push(params[1].clone());
                proof {
                    lemma_values_view(list.items@);
                    lemma_values_view(longer.items@);
                    assert(values_view(longer.items@) =~= values_view(list.items@).push(
                        params[1]@,
                    ));
                }
                Evaluation::List(longer)
            },
            _ => fail(
                ExceptionType::TypeError,
                id,
                "numbers, strings, or list arguments expected",
            ),
        },
    }
}

/// The result of `-`, `*` or `/` on two integers: the difference and the
/// product wrap around; the quotient is cut towards zero, and dividing by
/// zero raises an exception.
pub open spec fn integer_result(id: Seq<char>, x: i64, y: i64) -> Value {
    if id == "-"@ {
        Value::Integer(x.wrapping_sub(y))
    } else if id == "*"@ {
        Value::Integer(x.wrapping_mul(y))
    } else if y == 0 {
        raised(ExceptionType::DivByZero, id, "division by zero"@)
    } else {
        match x.checked_div(y) {
            Some(q) => Value::Integer(q),
            None => Value::Integer(i64::MIN),
        }
    }
}

/// `-`, `*` and `/`: arithmetic on two numbers.
pub open spec fn numeric(id: Seq<char>, args: Seq<Value>, r: Value) -> bool {
    if args.len() != 2 {
        r == arity_error(id, 2, args.len())
    } else {
        match (args[0], args[1]) {
            (Value::Integer(x), Value::Integer(y)) => r == integer_result(id, x, y),
            (Value::Integer(_), Value::Float(_)) => r is Float,
            (Value::Float(_), Value::Integer(_)) => r is Float,
            (Value::Float(_), Value::Float(_)) => r is Float,
            _ => r == raised(ExceptionType::TypeError, id, "numeric arguments expected"@),
        }
    }
}

fn float_result<H: FloatOps>(host: &H, id: &String, x: u64, y: u64) -> (r: Evaluation)
    ensures
        r@ is Float,
{
    if same_text(id.as_str(), "-") {
        Evaluation::Float(host.difference(x, y))
    } else if same_text(id.as_str(), "*") {
        Evaluation::Float(host.product(x, y))
    } else {
        Evaluation::Float(host.quotient(x, y))
    }
}

fn apply_numeric<H: FloatOps>(host: &H, id: &String, params: &Vec<Evaluation>) -> (r: Evaluation)
    ensures
        numeric(id@, values_view(params@), r@),
{
    proof {
        lemma_values_view(params@);
    }
    match expect_args(2, params, id) {
        Some(e) => e,
        None => match &params[0] {
            Evaluation::Integer(x) => match &params[1] {
                Evaluation::Integer(y) => {
                    if same_text(id.as_str(), "-") {
                        Evaluation::Integer(x.wrapping_sub(*y))
                    } else if same_text(id.as_str(), "*") {
                        Evaluation::Integer(x.wrapping_mul(*y))
                    } else if *y == 0 {
                        fail(ExceptionType::DivByZero, id, "division by zero")
                    } else {
                        match x.checked_div(*y) {
                            Some(q) => Evaluation::Integer(q),
                            None => Evaluation::Integer(i64::MIN),
                        }
                    }
                },
                Evaluation::Float(y) => float_result(host, id, host.from_int(*x), *y),
                _ => fail(ExceptionType::TypeError, id, "numeric arguments expected"),
            },
            Evaluation::Float(x) => match &params[1] {
                Evaluation::Integer(y) => float_result(host, id, *x, host.from_int(*y)),
                Evaluation::Float(y) => float_result(host, id, *x, *y),
                _ => fail(ExceptionType::TypeError, id, "numeric arguments expected"),
            },
            _ => fail(ExceptionType::TypeError, id, "numeric arguments expected"),
        },
    }
}

/// `%`: the remainder of two integers, with the sign of the first; a
/// divisor of zero raises an exception.
pub open spec fn modulo(id: Seq<char>, args: Seq<Value>, r: Value) -> bool {
    if args.len() != 2 {
        r == arity_error(id, 2, args.len())
    } else {
        match (args[0], args[1]) {
            (Value::Integer(x), Value::Integer(y)) => if y == 0 {
                r == raised(ExceptionType::DivByZero, id, "division by zero"@)
            } else {
                match x.checked_rem(y) {
                    Some(m) => r == Value::Integer(m),
                    None => r == Value::Integer(0),
                }
            },
            _ => r == raised(ExceptionType::TypeError, id, "integer arguments expected"@),
        }
    }
}

fn apply_modulo(id: &String, params: &Vec<Evaluation>) -> (r: Evaluation)
    ensures
        modulo(id@, values_view(params@), r@),
{
    proof {
        lemma_values_view(params@);
    }
    match expect_args(2, params, id) {
        Some(e) => e,
        None => match &params[0] {
            Evaluation::Integer(x) => match &params[1] {
                Evaluation::Integer(y) => {
                    if *y == 0 {
                        fail(ExceptionType::DivByZero, id, "division by zero")
                    } else {
                        match x.checked_rem(*y) {
                            Some(m) => Evaluation::Integer(m),
                            None => Evaluation::Integer(0),
                        }
                    }
                },
                _ => fail(ExceptionType::TypeError, id, "integer arguments expected"),
            },
            _ => fail(ExceptionType::TypeError, id, "integer arguments expected"),
        },
    }
}

/// `!`: the other truth value.
pub open spec fn negation(id: Seq<char>, args: Seq<Value>, r: Value) -> bool {
    if args.len() != 1 {
        r == arity_error(id, 1, args.len())
    } else {
        match args[0] {
            Value::True => r == Value::False,
            Value::False => r == Value::True,
            _ => r == raised(ExceptionType::TypeError, id, "boolean argument expected"@),
        }
    }
}

fn apply_negation(id: &String, params: &Vec<Evaluation>) -> (r: Evaluation)
    ensures
        negation(id@, values_view(params@), r@),
{
    proof {
        lemma_values_view(params@);
    }
    match expect_args(1, params, id) {
        Some(e) => e,
        None => match &params[0] {
            Evaluation::True => Evaluation::False,
            Evaluation::False => Evaluation::True,
            _ => fail(ExceptionType::TypeError, id, "boolean argument expected"),
        },
    }
}

/// The truth value of a value that is one.
pub open spec fn as_truth(v: Value) -> Option<bool> {
    match v {
        Value::True => Some(true),
        Value::False => Some(false),
        _ => None,
    }
}

/// `&` and `|`: both arguments are truth values; the result is their
/// conjunction for `&` and their disjunction otherwise.
pub open spec fn connective(id: Seq<char>, args: Seq<Value>, r: Value) -> bool {
    if args.len() != 2 {
        r == arity_error(id, 2, args.len())
    } else {
        match (as_truth(args[0]), as_truth(args[1])) {
            (Some(a), Some(b)) => if id == "&"@ {
                r == truth(a && b)
            } else {
                r == truth(a || b)
            },
            _ => r == raised(ExceptionType::TypeError, id, "boolean arguments expected"@),
        }
    }
}

fn truth_of(v: &Evaluation) -> (b: Option<bool>)
    ensures
        b == as_truth(v@),
{
    match v {
        Evaluation::True => Some(true),
        Evaluation::False => Some(false),
        _ => None,
    }
}

fn apply_connective(id: &String, params: &Vec<Evaluation>) -> (r: Evaluation)
    ensures
        connective(id@, values_view(params@), r@),
{
    proof {
        lemma_values_view(params@);
    }
    match expect_args(2, params, id) {
        Some(e) => e,
        None => match truth_of(&params[0]) {
            Some(a) => match truth_of(&params[1]) {
                Some(b) => {
                    if same_text(id.as_str(), "&") {
                        truth_value(a && b)
                    } else {
                        truth_value(a || b)
                    }
                },
                None => fail(ExceptionType::TypeError, id, "boolean arguments expected"),
            },
            None => fail(ExceptionType::TypeError, id, "boolean arguments expected"),
        },
    }
}

/// `?`: the second argument where the first is true, the third where it
/// is false; an exception in the first place is handed on.
pub open spec fn choice(id: Seq<char>, args: Seq<Value>, r: Value) -> bool {
    if args.len() != 3 {
        r == arity_error(id, 3, args.len())
    } else {
        match args[0] {
            Value::Exception { .. } => r == args[0],
            Value::True => r == args[1],
            Value::False => r == args[2],
            _ => r == raised(ExceptionType::TypeError, id, "expected boolean for first argument"@),
        }
    }
}

fn apply_choice(id: &String, params: &Vec<Evaluation>) -> (r: Evaluation)
    ensures
        choice(id@, values_view(params@), r@),
{
    proof {
        lemma_values_view(params@);
    }
    match expect_args(3, params, id) {
        Some(e) => e,
        None => match &params[0] {
            Evaluation::Exception(_) => params[0].clone(),
            Evaluation::True => params[1].clone(),
            Evaluation::False => params[2].clone(),
            _ => fail(ExceptionType::TypeError, id, "expected boolean for first argument"),
        },
    }
}

/// Whether two values are equal: values of the same kind that hold the
/// same thing, floats by IEEE 754 equality, lists of equal length item by
/// item. A function or an exception equals nothing.
pub open spec fn values_equal(a: Value, b: Value) -> bool
    decreases a, 0nat,
{
    match (a, b) {
        (Value::Nil, Value::Nil) => true,
        (Value::True, Value::True) => true,
        (Value::False, Value::False) => true,
        (Value::Integer(x), Value::Integer(y)) => x == y,
        (Value::Float(x), Value::Float(y)) => float_equal(x, y),
        (Value::String(x), Value::String(y)) => x == y,
        (Value::List(x), Value::List(y)) => x.len() == y.len() && items_equal(x, y, x.len()),
        _ => false,
    }
}

/// Whether the first `n` items of two lists are equal pair by pair.
pub open spec fn items_equal(x: Seq<Value>, y: Seq<Value>, n: nat) -> bool
    decreases x, n,
{
    if n == 0 || n > x.len() || n > y.len() {
        true
    } else {
        items_equal(x, y, (n - 1) as nat) && values_equal(x[n - 1], y[n - 1])
    }
}

/// `=`: whether the two arguments are equal; never an error.
pub open spec fn equality(id: Seq<char>, args: Seq<Value>, r: Value) -> bool {
    if args.len() != 2 {
        r == arity_error(id, 2, args.len())
    } else {
        r == truth(values_equal(args[0], args[1]))
    }
}

/// Whether two values are equal.
pub fn equal(a: &Evaluation, b: &Evaluation) -> (same: bool)
    ensures
        same == values_equal(a@, b@),
    decreases a,
{
    match (a, b) {
        (Evaluation::Nil, Evaluation::Nil) => true,
        (Evaluation::True, Evaluation::True) => true,
        (Evaluation::False, Evaluation::False) => true,
        (Evaluation::Integer(x), Evaluation::Integer(y)) => *x == *y,
        (Evaluation::Float(x), Evaluation::Float(y)) => equal_bits(*x, *y),
        (Evaluation::String(x), Evaluation::String(y)) => *x == *y,
        (Evaluation::List(x), Evaluation::List(y)) => {
            proof {
                lemma_values_view(x.items@);
                lemma_values_view(y.items@);
            }
            if x.items.len() != y.items.len() {
                return false;
            }
            let mut n: usize = 0;
            while n < x.items.len()
                invariant
                    n <= x.items.len(),
                    x.items.len() == y.items.len(),
                    *a == Evaluation::List(*x),
                    a@ == Value::List(values_view(x.items@)),
                    b@ == Value::List(values_view(y.items@)),
                    items_equal(values_view(x.items@), values_view(y.items@), n as nat),
                decreases x.items.len() - n,
            {
                proof {
                    lemma_values_view(x.items@);
                    lemma_values_view(y.items@);
                }
                if !equal(&x.items[n], &y.items[n]) {
                    proof {
                        lemma_items_differ(
                            values_view(x.items@),
                            values_view(y.items@),
                            x.items.len() as nat,
                            n as int,
                        );
                    }
                    return false;
                }
                n += 1;
            }
            true
        },
        _ => false,
    }
}

/// Two lists are not equal over their first `n` items where they differ
/// at an index below `n`.
pub proof fn lemma_items_differ(x: Seq<Value>, y: Seq<Value>, n: nat, i: int)
    requires
        0 <= i < n,
        n <= x.len(),
        n <= y.len(),
        !values_equal(x[i], y[i]),
    ensures
        !items_equal(x, y, n),
    decreases n,
{
    if i < n - 1 {
        lemma_items_differ(x, y, (n - 1) as nat, i);
    }
}

fn apply_equality(id: &String, params: &Vec<Evaluation>) -> (r: Evaluation)
    ensures
        equality(id@, values_view(params@), r@),
{
    proof {
        lemma_values_view(params@);
    }
    match expect_args(2, params, id) {
        Some(e) => e,
        None => truth_value(equal(&params[0], &params[1])),
    }
}

/// `>` and `<`: the order of two numbers. Two integers and two floats are
/// compared here; an integer beside a float is first converted by the
/// host.
pub open spec fn ordering(id: Seq<char>, args: Seq<Value>, r: Value) -> bool {
    if args.len() != 2 {
        r == arity_error(id, 2, args.len())
    } else {
        match (args[0], args[1]) {
            (Value::Integer(x), Value::Integer(y)) => if id == ">"@ {
                r == truth(x > y)
            } else {
                r == truth(x < y)
            },
            (Value::Float(x), Value::Float(y)) => if id == ">"@ {
                r == truth(float_less(y, x))
            } else {
                r == truth(float_less(x, y))
            },
            (Value::Integer(_), Value::Float(_)) => r is True || r is False,
            (Value::Float(_), Value::Integer(_)) => r is True || r is False,
            _ => r == raised(ExceptionType::TypeError, id, "numeric arguments expected"@),
        }
    }
}

fn order_floats(id: &String, x: u64, y: u64) -> (r: Evaluation)
    ensures
        id@ == ">"@ ==> r@ == truth(float_less(y, x)),
        id@ != ">"@ ==> r@ == truth(float_less(x, y)),
{
    if same_text(id.as_str(), ">") {
        truth_value(less_bits(y, x))
    } else {
        truth_value(less_bits(x, y))
    }
}

fn apply_ordering<H: FloatOps>(host: &H, id: &String, params: &Vec<Evaluation>) -> (r: Evaluation)
    ensures
        ordering(id@, values_view(params@), r@),
{
    proof {
        lemma_values_view(params@);
    }
    match expect_args(2, params, id) {
        Some(e) => e,
        None => match &params[0] {
            Evaluation::Integer(x) => match &params[1] {
                Evaluation::Integer(y) => {
                    if same_text(id.as_str(), ">") {
                        truth_value(*x > *y)
                    } else {
                        truth_value(*x < *y)
                    }
                },
                Evaluation::Float(y) => order_floats(id, host.from_int(*x), *y),
                _ => fail(ExceptionType::TypeError, id, "numeric arguments expected"),
            },
            Evaluation::Float(x) => match &params[1] {
                Evaluation::Integer(y) => order_floats(id, *x, host.from_int(*y)),
                Evaluation::Float(y) => order_floats(id, *x, *y),
                _ => fail(ExceptionType::TypeError, id, "numeric arguments expected"),
            },
            _ => fail(ExceptionType::TypeError, id, "numeric arguments expected"),
        },
    }
}

/// The part of `s` that starts at character `start` and holds `len`
/// characters, cut at the end of `s`: nothing where `start` is outside
/// `s`, and the rest of `s` where `len` is negative or reaches the end.
pub open spec fn slice(s: Seq<char>, start: i64, len: i64) -> Seq<char> {
    if start < 0 || start >= s.len() {
        Seq::empty()
    } else if len < 0 || start + len >= s.len() {
        s.subrange(start as int, s.len() as int)
    } else {
        s.subrange(start as int, start + len)
    }
}

/// `substr`: a part of a string, by characters.
pub open spec fn substring(id: Seq<char>, args: Seq<Value>, r: Value) -> bool {
    if args.len() != 3 {
        r == arity_error(id, 3, args.len())
    } else {
        match (args[0], args[1], args[2]) {
            (Value::String(s), Value::Integer(start), Value::Integer(len)) => r == Value::String(
                slice(s, start, len),
            ),
            (Value::String(_), Value::Integer(_), _) => r == raised(
                ExceptionType::TypeError,
                id,
                "third argument expects integer for length"@,
            ),
            (Value::String(_), _, _) => r == raised(
                ExceptionType::TypeError,
                id,
                "second argument expects integer for start"@,
            ),
            _ => r == raised(ExceptionType::TypeError, id, "first argument must be string"@),
        }
    }
}

fn cut(s: &str, start: i64, len: i64) -> (part: String)
    ensures
        part@ == slice(s@, start, len),
{
    let n: usize = s.unicode_len();
    if start < 0 || start as u64 >= n as u64 {
        let part = String::new();
        assert(part@ =~= slice(s@, start, len));
        part
    } else {
        let from: usize = start as usize;
        let rest: u64 = (n - from) as u64;
        if len < 0 || len as u64 >= rest {
            s.substring_char(from, n).to_owned()
        } else {
            s.substring_char(from, from + len as usize).to_owned()
        }
    }
}

fn apply_substring(id: &String, params: &Vec<Evaluation>) -> (r: Evaluation)
    ensures
        substring(id@, values_view(params@), r@),
{
    proof {
        lemma_values_view(params@);
    }
    match expect_args(3, params, id) {
        Some(e) => e,
        None => match &params[0] {
            Evaluation::String(s) => match &params[1] {
                Evaluation::Integer(start) => match &params[2] {
                    Evaluation::Integer(len) => Evaluation::String(cut(s.as_str(), *start, *len)),
                    _ => fail(
                        ExceptionType::TypeError,
                        id,
                        "third argument expects integer for length",
                    ),
                },
                _ => fail(
                    ExceptionType::TypeError,
                    id,
                    "second argument expects integer for start",
                ),
            },
            _ => fail(ExceptionType::TypeError, id, "first argument must be string"),
        },
    }
}

/// `strlen`: the number of characters of a string.
pub open spec fn length(id: Seq<char>, args: Seq<Value>, r: Value) -> bool {
    if args.len() != 1 {
        r == arity_error(id, 1, args.len())
    } else {
        match args[0] {
            Value::String(s) => r == Value::Integer(s.len() as i64),
            _ => r == raised(ExceptionType::TypeError, id, "string argument expected"@),
        }
    }
}

fn apply_length(id: &String, params: &Vec<Evaluation>) -> (r: Evaluation)
    ensures
        length(id@, values_view(params@), r@),
{
    proof {
        lemma_values_view(params@);
    }
    match expect_args(1, params, id) {
        Some(e) => e,
        None => match &params[0] {
            Evaluation::String(s) => Evaluation::Integer(s.as_str().unicode_len() as i64),
            _ => fail(ExceptionType::TypeError, id, "string argument expected"),
        },
    }
}

/// `car`: the first item of a list; an exception on an empty list.
pub open spec fn head(id: Seq<char>, args: Seq<Value>, r: Value) -> bool {
    if args.len() != 1 {
        r == arity_error(id, 1, args.len())
    } else {
        match args[0] {
            Value::List(items) => if items.len() > 0 {
                r == items[0]
            } else {
                r == raised(
                    ExceptionType::RuntimeError,
                    id,
                    "attempt to get first item of empty list"@,
                )
            },
            _ => r == raised(ExceptionType::TypeError, id, "list argument expected"@),
        }
    }
}

fn apply_head(id: &String, params: &Vec<Evaluation>) -> (r: Evaluation)
    ensures
        head(id@, values_view(params@), r@),
{
    proof {
        lemma_values_view(params@);
    }
    match expect_args(1, params, id) {
        Some(e) => e,
        None => match &params[0] {
            Evaluation::List(list) => {
                proof {
                    lemma_values_view(list.items@);
                }
                if list.items.len() > 0 {
                    list.items[0].clone()
                } else {
                    fail(
                        ExceptionType::RuntimeError,
                        id,
                        "attempt to get first item of empty list",
                    )
                }
            },
            _ => fail(ExceptionType::TypeError, id, "list argument expected"),
        },
    }
}

/// `cdr`: the list without its first item, or nil where nothing is left;
/// an exception on an empty list.
pub open spec fn tail(id: Seq<char>, args: Seq<Value>, r: Value) -> bool {
    if args.len() != 1 {
        r == arity_error(id, 1, args.len())
    } else {
        match args[0] {
            Value::List(items) => if items.len() > 1 {
                r == Value::List(items.subrange(1, items.len() as int))
            } else if items.len() == 1 {
                r == Value::Nil
            } else {
                r == raised(
                    ExceptionType::RuntimeError,
                    id,
                    "attempt to get rest of empty list"@,
                )
            },
            _ => r == raised(ExceptionType::TypeError, id, "list argument expected"@),
        }
    }
}

fn apply_tail(id: &String, params: &Vec<Evaluation>) -> (r: Evaluation)
    ensures
        tail(id@, values_view(params@), r@),
{
    proof {
        lemma_values_view(params@);
    }
    match expect_args(1, params, id) {
        Some(e) => e,
        None => match &params[0] {
            Evaluation::List(list) => {
                proof {
                    lemma_values_view(list.items@);
                }
                if list.items.len() > 1 {
                    let mut rest = ListEval { items: Vec::new() };
                    let mut i: usize = 1;
                    while i < list.items.len()
                        invariant
                            1 <= i <= list.items.len(),
                            rest.items.len() == i - 1,
                            forall|j: int|
                                0 <= j < i - 1 ==> rest.items[j]@ == list.items[j + 1]@,
                        decreases list.items.len() - i,
                    {
                        rest.items.push(list.items[i].clone());
                        i += 1;
                    }
                    proof {
                        lemma_values_view(list.items@);
                        lemma_values_view(rest.items@);
                        assert(values_view(rest.items@) =~= values_view(list.items@).subrange(
                            1,
                            list.items.len() as int,
                        ));
                    }
                    Evaluation::List(rest)
                } else if list.items.len() == 1 {
                    Evaluation::Nil
                } else {
                    fail(ExceptionType::RuntimeError, id, "attempt to get rest of empty list")
                }
            },
            _ => fail(ExceptionType::TypeError, id, "list argument expected"),
        },
    }
}

/// The strings of a trace as values.
pub open spec fn trace_values(stack: Seq<Seq<char>>) -> Seq<Value> {
    Seq::new(stack.len(), |i: int| Value::String(stack[i]))
}

/// What `catch` makes of a value: of an exception the list of the name of
/// its kind, its payload and the list of its trace; of any other value the
/// list of `"ok"` and the value.
pub open spec fn caught(v: Value) -> Value {
    match v {
        Value::Exception { flavor, payload, stack } => Value::List(
            seq![
                Value::String(flavor_name(flavor)),
                *payload,
                Value::List(trace_values(stack)),
            ],
        ),
        _ => Value::List(seq![Value::String("ok"@), v]),
    }
}

/// `catch`: turns an exception into a list that can be inspected.
pub open spec fn reified(id: Seq<char>, args: Seq<Value>, r: Value) -> bool {
    if args.len() != 1 {
        r == arity_error(id, 1, args.len())
    } else {
        r == caught(args[0])
    }
}

fn apply_catch(id: &String, params: &Vec<Evaluation>) -> (r: Evaluation)
    ensures
        reified(id@, values_view(params@), r@),
{
    proof {
        lemma_values_view(params@);
    }
    match expect_args(1, params, id) {
        Some(e) => e,
        None => match &params[0] {
            Evaluation::Exception(e) => {
                let mut trace = ListEval { items: Vec::new() };
                let mut i: usize = 0;
                while i < e.stack.len()
                    invariant
                        i <= e.stack.len(),
                        trace.items.len() == i,
                        forall|j: int|
                            0 <= j < i ==> trace.items[j]@ == Value::String(e.stack[j]@),
                    decreases e.stack.len() - i,
                {
                    trace.items.push(Evaluation::String(e.stack[i].clone()));
                    i += 1;
                }
                proof {
                    lemma_values_view(trace.items@);
                    assert(values_view(trace.items@) =~= trace_values(names_view(e.stack@)));
                }
                let trace_value = Evaluation::List(trace);
                assert(trace_value@ == Value::List(trace_values(names_view(e.stack@))));
                let name = Evaluation::String(e.flavor.to_string());
                assert(name@ == Value::String(flavor_name(e.flavor)));
                let mut list = ListEval { items: Vec::new() };
                list.items.push(name);
                list.items.push((*e.payload).clone());
                list.items.push(trace_value);
                proof {
                    lemma_values_view(list.items@);
                    assert(values_view(list.items@) =~= seq![
                        Value::String(flavor_name(e.flavor)),
                        (*e.payload)@,
                        Value::List(trace_values(names_view(e.stack@))),
                    ]);
                }
                Evaluation::List(list)
            },
            value => {
                let ok = Evaluation::String("ok".to_owned());
                assert(ok@ == Value::String("ok"@));
                let mut list = ListEval { items: Vec::new() };
                list.items.push(ok);
                list.items.push(value.clone());
                proof {
                    lemma_values_view(list.items@);
                    assert(values_view(list.items@) =~= seq![Value::String("ok"@), value@]);
                }
                Evaluation::List(list)
            },
        },
    }
}

/// `raise` and `~`: wrap the argument in an exception of the given kind,
/// with an empty trace.
pub open spec fn wrapped(flavor: ExceptionType, id: Seq<char>, args: Seq<Value>, r: Value) -> bool {
    if args.len() != 1 {
        r == arity_error(id, 1, args.len())
    } else {
        r == (Value::Exception {
            flavor,
            payload: Box::new(args[0]),
            stack: Seq::<Seq<char>>::empty(),
        })
    }
}

fn apply_wrap(flavor: ExceptionType, id: &String, params: &Vec<Evaluation>) -> (r: Evaluation)
    ensures
        wrapped(flavor, id@, values_view(params@), r@),
{
    proof {
        lemma_values_view(params@);
    }
    match expect_args(1, params, id) {
        Some(e) => e,
        None => Evaluation::Exception(Exception::new(&flavor, &params[0])),
    }
}

/// What the primitive `id` makes of arguments among which no exception is
/// handed on: the relation of the operation of that name, and an
/// exception for a name that is none.
pub open spec fn applied(id: Seq<char>, args: Seq<Value>, r: Value) -> bool {
    if id == "catch"@ {
        reified(id, args, r)
    } else if id == "?"@ {
        choice(id, args, r)
    } else if id == "int"@ {
        convert_int(id, args, r)
    } else if id == "float"@ {
        convert_float(id, args, r)
    } else if id == "string"@ {
        convert_string(id, args, r)
    } else if id == ">>"@ {
        print_result(id, args, r)
    } else if id == "+"@ {
        plus(id, args, r)
    } else if id == "-"@ || id == "*"@ || id == "/"@ {
        numeric(id, args, r)
    } else if id == "%"@ {
        modulo(id, args, r)
    } else if id == "!"@ {
        negation(id, args, r)
    } else if id == "&"@ || id == "|"@ {
        connective(id, args, r)
    } else if id == "="@ {
        equality(id, args, r)
    } else if id == ">"@ || id == "<"@ {
        ordering(id, args, r)
    } else if id == "substr"@ {
        substring(id, args, r)
    } else if id == "strlen"@ {
        length(id, args, r)
    } else if id == "car"@ {
        head(id, args, r)
    } else if id == "cdr"@ {
        tail(id, args, r)
    } else if id == "raise"@ {
        wrapped(ExceptionType::Error, id, args, r)
    } else if id == "~"@ {
        wrapped(ExceptionType::Return, id, args, r)
    } else {
        r == raised(ExceptionType::UndefError, id, "function is not defined in scope"@)
    }
}

/// Whether the primitive `id` hands on the first exception among its
/// arguments: every primitive does but `?` and `catch`.
pub open spec fn hands_on(id: Seq<char>, args: Seq<Value>) -> bool {
    id != "catch"@ && id != "?"@ && first_exception(args, 0) is Some
}

/// The relation between a call of a primitive and its result.
pub open spec fn primitive_result(id: Seq<char>, args: Seq<Value>, r: Value) -> bool {
    if hands_on(id, args) {
        r == first_exception(args, 0)->0
    } else {
        applied(id, args, r)
    }
}

/// The lines that a call of a primitive adds to the output.
pub open spec fn primitive_output(id: Seq<char>, args: Seq<Value>) -> Seq<Seq<char>> {
    if hands_on(id, args) {
        Seq::empty()
    } else {
        printed(id, args)
    }
}

fn find_exception(params: &Vec<Evaluation>) -> (found: Option<Evaluation>)
    ensures
        found is Some == first_exception(values_view(params@), 0) is Some,
        found is Some ==> found->0@ == first_exception(values_view(params@), 0)->0,
{
    let ghost args = values_view(params@);
    proof {
        lemma_values_view(params@);
    }
    let mut i: usize = 0;
    while i < params.len()
        invariant
            i <= params.len(),
            args == values_view(params@),
            args.len() == params.len(),
            first_exception(args, 0) == first_exception(args, i as nat),
        decreases params.len() - i,
    {
        proof {
            lemma_values_view(params@);
        }
        match &params[i] {
            Evaluation::Exception(_) => {
                return Some(params[i].clone());
            },
            _ => {},
        }
        i += 1;
    }
    None
}

/// Calls the primitive `id` on arguments that were evaluated already.
/// What `>>` prints is added to `out`, one line for each call.
pub fn system_functions<H: FloatOps>(
    host: &H,
    out: &mut Vec<String>,
    id: String,
    params: Vec<Evaluation>,
) -> (r: Evaluation)
    ensures
        primitive_result(id@, values_view(params@), r@),
        names_view(final(out)@) == names_view(old(out)@) + primitive_output(
            id@,
            values_view(params@),
        ),
{
    let name = id.as_str();
    proof {
        reveal_strlit(">>");
        reveal_strlit("catch");
        reveal_strlit("?");
        reveal_strlit("int");
        reveal_strlit("float");
        reveal_strlit("string");
        assert(names_view(out@) =~= names_view(old(out)@) + Seq::<Seq<char>>::empty());
    }
    if same_text(name, "catch") {
        return apply_catch(&id, &params);
    }
    if same_text(name, "?") {
        return apply_choice(&id, &params);
    }
    match find_exception(&params) {
        Some(e) => {
            return e;
        },
        None => {},
    }
    if same_text(name, "int") {
        apply_int(host, &id, &params)
    } else if same_text(name, "float") {
        apply_float(host, &id, &params)
    } else if same_text(name, "string") {
        apply_string(host, &id, &params)
    } else if same_text(name, ">>") {
        apply_print(&id, &params, out)
    } else if same_text(name, "+") {
        apply_plus(host, &id, &params)
    } else if same_text(name, "-") || same_text(name, "*") || same_text(name, "/") {
        apply_numeric(host, &id, &params)
    } else if same_text(name, "%") {
        apply_modulo(&id, &params)
    } else if same_text(name, "!") {
        apply_negation(&id, &params)
    } else if same_text(name, "&") || same_text(name, "|") {
        apply_connective(&id, &params)
    } else if same_text(name, "=") {
        apply_equality(&id, &params)
    } else if same_text(name, ">") || same_text(name, "<") {
        apply_ordering(host, &id, &params)
    } else if same_text(name, "substr") {
        apply_substring(&id, &params)
    } else if same_text(name, "strlen") {
        apply_length(&id, &params)
    } else if same_text(name, "car") {
        apply_head(&id, &params)
    } else if same_text(name, "cdr") {
        apply_tail(&id, &params)
    } else if same_text(name, "raise") {
        apply_wrap(ExceptionType::Error, &id, &params)
    } else if same_text(name, "~") {
        apply_wrap(ExceptionType::Return, &id, &params)
    } else {
        fail(ExceptionType::UndefError, &id, "function is not defined in scope")
    }
}

/// Whether the result of a call of a primitive is left to the host's
/// floating-point unit: a conversion from or to a float, the text of a
/// value that holds a float, arithmetic with a float, or the comparison
/// of an integer with a float.
pub open spec fn hosted(id: Seq<char>, args: Seq<Value>) -> bool {
    &&& !hands_on(id, args)
    &&& {
        ||| id == "int"@ && args.len() == 1 && args[0] is Float
        ||| id == "float"@ && args.len() == 1 && (args[0] is Integer || args[0] is String)
        ||| id == "string"@ && args.len() == 1 && !float_free(args[0])
        ||| {
            &&& id == "+"@ || id == "-"@ || id == "*"@ || id == "/"@
            &&& args.len() == 2
            &&& args[0] is Integer || args[0] is Float
            &&& args[1] is Integer || args[1] is Float
            &&& args[0] is Float || args[1] is Float
        }
        ||| {
            &&& id == ">"@ || id == "<"@
            &&& args.len() == 2
            &&& (args[0] is Integer && args[1] is Float) || (args[0] is Float && args[1] is Integer)
        }
    }
}

/// The result of a call of a primitive that is not left to the host: the
/// one value that `primitive_result` relates to the call.
pub open spec fn primitive_value(id: Seq<char>, args: Seq<Value>) -> Value {
    choose|r: Value| primitive_result(id, args, r)
}

/// A call of a primitive that is not left to the host has one result
/// only.
pub proof fn lemma_primitive_unique(id: Seq<char>, args: Seq<Value>, r1: Value, r2: Value)
    requires
        !hosted(id, args),
        primitive_result(id, args, r1),
        primitive_result(id, args, r2),
    ensures
        r1 == r2,
        r1 == primitive_value(id, args),
{
    lemma_primitive_same(id, args, r1, r2);
    lemma_primitive_same(id, args, r1, primitive_value(id, args));
}

proof fn lemma_primitive_same(id: Seq<char>, args: Seq<Value>, r1: Value, r2: Value)
    requires
        !hosted(id, args),
        primitive_result(id, args, r1),
        primitive_result(id, args, r2),
    ensures
        r1 == r2,
{
}

/// `catch` makes of any exception a list of exactly three items: the
/// lower-case name of its kind as a string, its payload, and the list of
/// the strings of its trace. Of any other value it makes the list of the
/// string `ok` and the value.
pub proof fn lemma_catch_reifies(v: Value, r: Value)
    requires
        primitive_result("catch"@, seq![v], r),
    ensures
        r is List,
        r == caught(v),
        match v {
            Value::Exception { flavor, payload, stack } => {
                &&& r->List_0.len() == 3
                &&& r->List_0[0] == Value::String(flavor_name(flavor))
                &&& r->List_0[1] == *payload
                &&& r->List_0[2] is List
                &&& r->List_0[2]->List_0.len() == stack.len()
                &&& forall|i: int|
                    0 <= i < stack.len() ==> r->List_0[2]->List_0[i] == Value::String(stack[i])
            },
            _ => r->List_0 == seq![Value::String("ok"@), v],
        },
{
}

/// Equality is symmetric.
pub proof fn lemma_equal_symmetric(a: Value, b: Value)
    ensures
        values_equal(a, b) == values_equal(b, a),
    decreases a, 0nat,
{
    match (a, b) {
        (Value::List(x), Value::List(y)) => {
            if x.len() == y.len() {
                lemma_items_symmetric(x, y, x.len());
            }
        },
        _ => {},
    }
}

/// Pairwise equality of the first `n` items of two lists is symmetric.
pub proof fn lemma_items_symmetric(x: Seq<Value>, y: Seq<Value>, n: nat)
    requires
        n <= x.len(),
        n <= y.len(),
    ensures
        items_equal(x, y, n) == items_equal(y, x, n),
    decreases x, n,
{
    if n > 0 {
        lemma_items_symmetric(x, y, (n - 1) as nat);
        lemma_equal_symmetric(x[n - 1], y[n - 1]);
    }
}

/// Whether a value is nil, a truth value, an integer, a string, a float
/// that is not a NaN, or a list of such values.
pub open spec fn plain(v: Value) -> bool
    decreases v, 0nat,
{
    match v {
        Value::Float(x) => float_equal(x, x),
        Value::List(items) => plain_items(items, items.len()),
        Value::Function { .. } => false,
        Value::Exception { .. } => false,
        _ => true,
    }
}

/// Whether the first `n` of `items` are plain.
pub open spec fn plain_items(items: Seq<Value>, n: nat) -> bool
    decreases items, n,
{
    if n == 0 || n > items.len() {
        true
    } else {
        plain_items(items, (n - 1) as nat) && plain(items[n - 1])
    }
}

/// Equality is reflexive on plain values.
pub proof fn lemma_equal_reflexive(a: Value)
    requires
        plain(a),
    ensures
        values_equal(a, a),
    decreases a, 0nat,
{
    match a {
        Value::List(x) => {
            lemma_items_reflexive(x, x.len());
        },
        _ => {},
    }
}

/// Pairwise equality of the first `n` items of a list with themselves
/// holds where they are plain.
pub proof fn lemma_items_reflexive(x: Seq<Value>, n: nat)
    requires
        n <= x.len(),
        plain_items(x, n),
    ensures
        items_equal(x, x, n),
    decreases x, n,
{
    if n > 0 {
        lemma_items_reflexive(x, (n - 1) as nat);
        lemma_equal_reflexive(x[n - 1]);
    }
}

/// `=` on two values of which neither is an exception yields true or
/// false, never an error: true exactly where the two are equal. Values of
/// different kinds and lists of different lengths are not equal.
pub proof fn lemma_equality_decides(a: Value, b: Value, r: Value)
    requires
        !(a is Exception),
        !(b is Exception),
        primitive_result("="@, seq![a, b], r),
    ensures
        r == truth(values_equal(a, b)),
        a is List && b is List && a->List_0.len() != b->List_0.len() ==> r == Value::False,
        a is Integer && !(b is Integer) ==> r == Value::False,
        a is String && !(b is String) ==> r == Value::False,
        a is Float && !(b is Float) ==> r == Value::False,
        a is List && !(b is List) ==> r == Value::False,
        a is Nil && !(b is Nil) ==> r == Value::False,
        a is True && !(b is True) ==> r == Value::False,
        a is False && !(b is False) ==> r == Value::False,
{
    reveal_strlit("=");
    reveal_strlit("catch");
    reveal_strlit("?");
    reveal_strlit("int");
    reveal_strlit("float");
    reveal_strlit("string");
    reveal_strlit(">>");
    reveal_strlit("+");
    reveal_strlit("-");
    reveal_strlit("*");
    reveal_strlit("/");
    reveal_strlit("%");
    reveal_strlit("!");
    reveal_strlit("&");
    reveal_strlit("|");
    assert("="@[0] == '=' && "?"@[0] == '?' && "+"@[0] == '+' && "-"@[0] == '-' && "*"@[0] == '*');
    assert("/"@[0] == '/' && "%"@[0] == '%' && "!"@[0] == '!' && "&"@[0] == '&' && "|"@[0] == '|');
    let args = seq![a, b];
    assert(first_exception(args, 2) is None);
    assert(first_exception(args, 1) is None);
    assert(first_exception(args, 0) is None);
}

} // verus!
