use doubtful::encoding::{Evaluation, Exception, ExceptionType, ListEval};
use doubtful::evaluator::exception;
use doubtful::floats::{equal_bits, less_bits, FloatOps};
use doubtful::primitives::{arity_exception, equal, system_functions};
use doubtful::text::{count_text, integer_text, parse_integer, same_text};

struct Host;

impl FloatOps for Host {
    fn parse(&self, text: &str) -> Option<u64> {
        text.parse::<f64>().ok().map(f64::to_bits)
    }

    fn format(&self, bits: u64) -> String {
        f64::from_bits(bits).to_string()
    }

    fn from_int(&self, n: i64) -> u64 {
        (n as f64).to_bits()
    }

    fn to_int(&self, bits: u64) -> i64 {
        f64::from_bits(bits) as i64
    }

    fn sum(&self, a: u64, b: u64) -> u64 {
        (f64::from_bits(a) + f64::from_bits(b)).to_bits()
    }

    fn difference(&self, a: u64, b: u64) -> u64 {
        (f64::from_bits(a) - f64::from_bits(b)).to_bits()
    }

    fn product(&self, a: u64, b: u64) -> u64 {
        (f64::from_bits(a) * f64::from_bits(b)).to_bits()
    }

    fn quotient(&self, a: u64, b: u64) -> u64 {
        (f64::from_bits(a) / f64::from_bits(b)).to_bits()
    }
}

fn prim(id: &str, params: Vec<Evaluation>) -> Evaluation {
    let mut out = Vec::new();
    system_functions(&Host, &mut out, id.to_string(), params)
}

fn whole(n: i64) -> Evaluation {
    Evaluation::Integer(n)
}

fn double(x: f64) -> Evaluation {
    Evaluation::Float(x.to_bits())
}

fn text(s: &str) -> Evaluation {
    Evaluation::String(s.to_string())
}

fn list(items: Vec<Evaluation>) -> Evaluation {
    Evaluation::List(ListEval { items })
}

fn raised(flavor: ExceptionType, payload: &str) -> Evaluation {
    Evaluation::Exception(Exception {
        flavor,
        payload: Box::new(text(payload)),
        stack: vec![],
    })
}

fn error(payload: Evaluation) -> Evaluation {
    Evaluation::Exception(Exception {
        flavor: ExceptionType::Error,
        payload: Box::new(payload),
        stack: vec!["f".to_string()],
    })
}

#[test]
fn int_converts_floats_and_strings() {
    assert_eq!(prim("int", vec![double(3.9)]), whole(3));
    assert_eq!(prim("int", vec![double(-3.9)]), whole(-3));
    assert_eq!(prim("int", vec![text("42")]), whole(42));
    assert_eq!(prim("int", vec![text("-42")]), whole(-42));
    assert_eq!(prim("int", vec![text("+7")]), whole(7));
    assert_eq!(
        prim("int", vec![text("4x")]),
        raised(ExceptionType::ParseError, "int : unable to parse string: 4x")
    );
    assert_eq!(
        prim("int", vec![text("")]),
        raised(ExceptionType::ParseError, "int : unable to parse string: ")
    );
    assert_eq!(
        prim("int", vec![text("9223372036854775808")]),
        raised(ExceptionType::ParseError, "int : unable to parse string: 9223372036854775808")
    );
    assert_eq!(
        prim("int", vec![whole(1)]),
        raised(ExceptionType::TypeError, "int : float or string argument expected")
    );
}

#[test]
fn float_converts_integers_and_strings() {
    assert_eq!(prim("float", vec![whole(3)]), double(3.0));
    assert_eq!(prim("float", vec![text("2.5")]), double(2.5));
    assert_eq!(
        prim("float", vec![text("abc")]),
        raised(ExceptionType::ParseError, "float : unable to parse string: abc")
    );
    assert_eq!(
        prim("float", vec![double(1.0)]),
        raised(ExceptionType::TypeError, "float : int or string argument expected")
    );
}

#[test]
fn string_renders_values() {
    assert_eq!(prim("string", vec![whole(5)]), text("5"));
    assert_eq!(prim("string", vec![whole(-120)]), text("-120"));
    assert_eq!(prim("string", vec![whole(0)]), text("0"));
    assert_eq!(prim("string", vec![whole(i64::MIN)]), text("-9223372036854775808"));
    assert_eq!(prim("string", vec![Evaluation::Nil]), text("nil"));
    assert_eq!(prim("string", vec![Evaluation::True]), text("true"));
    assert_eq!(prim("string", vec![Evaluation::False]), text("false"));
    assert_eq!(prim("string", vec![text("hi")]), text("\"hi\""));
    assert_eq!(prim("string", vec![double(1.5)]), text("1.5"));
    assert_eq!(
        prim("string", vec![list(vec![whole(1), text("a"), list(vec![]), Evaluation::Nil])]),
        text("[1, \"a\", [], nil]")
    );
}

#[test]
fn print_adds_one_line() {
    let mut out = vec!["before".to_string()];
    let r = system_functions(&Host, &mut out, ">>".to_string(), vec![text("line")]);
    assert_eq!(r, Evaluation::Nil);
    assert_eq!(out, vec!["before".to_string(), "line".to_string()]);
    let r = system_functions(&Host, &mut out, ">>".to_string(), vec![whole(1)]);
    assert_eq!(r, raised(ExceptionType::TypeError, ">> : string argument expected"));
    assert_eq!(out.len(), 2);
    let r = system_functions(&Host, &mut out, "string".to_string(), vec![text("line")]);
    assert_eq!(r, text("\"line\""));
    assert_eq!(out.len(), 2);
}

#[test]
fn plus_adds_joins_and_appends() {
    assert_eq!(prim("+", vec![whole(2), whole(3)]), whole(5));
    assert_eq!(prim("+", vec![whole(i64::MAX), whole(1)]), whole(i64::MIN));
    assert_eq!(prim("+", vec![whole(2), double(0.5)]), double(2.5));
    assert_eq!(prim("+", vec![double(0.5), whole(2)]), double(2.5));
    assert_eq!(prim("+", vec![double(0.5), double(0.25)]), double(0.75));
    assert_eq!(prim("+", vec![text("ab"), text("cd")]), text("abcd"));
    assert_eq!(
        prim("+", vec![list(vec![whole(1)]), text("x")]),
        list(vec![whole(1), text("x")])
    );
    assert_eq!(
        prim("+", vec![whole(1), text("x")]),
        raised(ExceptionType::TypeMismatch, "+ : mismatched argument types")
    );
    assert_eq!(
        prim("+", vec![text("x"), whole(1)]),
        raised(ExceptionType::TypeMismatch, "+ : mismatched argument types")
    );
    assert_eq!(
        prim("+", vec![double(1.0), Evaluation::Nil]),
        raised(ExceptionType::TypeMismatch, "+ : mismatched argument types")
    );
    assert_eq!(
        prim("+", vec![Evaluation::Nil, whole(1)]),
        raised(ExceptionType::TypeError, "+ : numbers, strings, or list arguments expected")
    );
}

#[test]
fn arithmetic_on_numbers() {
    assert_eq!(prim("-", vec![whole(2), whole(3)]), whole(-1));
    assert_eq!(prim("-", vec![whole(i64::MIN), whole(1)]), whole(i64::MAX));
    assert_eq!(prim("*", vec![whole(6), whole(7)]), whole(42));
    assert_eq!(prim("*", vec![whole(i64::MAX), whole(2)]), whole(-2));
    assert_eq!(prim("/", vec![whole(7), whole(2)]), whole(3));
    assert_eq!(prim("/", vec![whole(-7), whole(2)]), whole(-3));
    assert_eq!(prim("/", vec![whole(i64::MIN), whole(-1)]), whole(i64::MIN));
    assert_eq!(prim("-", vec![double(2.5), whole(1)]), double(1.5));
    assert_eq!(prim("*", vec![whole(2), double(1.5)]), double(3.0));
    assert_eq!(prim("/", vec![double(1.0), double(4.0)]), double(0.25));
    assert_eq!(prim("/", vec![double(1.0), whole(0)]), double(f64::INFINITY));
    assert_eq!(
        prim("-", vec![text("a"), whole(1)]),
        raised(ExceptionType::TypeError, "- : numeric arguments expected")
    );
    assert_eq!(
        prim("*", vec![whole(1), Evaluation::True]),
        raised(ExceptionType::TypeError, "* : numeric arguments expected")
    );
}

#[test]
fn division_by_zero_raises() {
    assert_eq!(
        prim("/", vec![whole(1), whole(0)]),
        raised(ExceptionType::DivByZero, "/ : division by zero")
    );
    assert_eq!(
        prim("%", vec![whole(1), whole(0)]),
        raised(ExceptionType::DivByZero, "% : division by zero")
    );
}

#[test]
fn modulo_keeps_the_sign_of_the_dividend() {
    assert_eq!(prim("%", vec![whole(7), whole(3)]), whole(1));
    assert_eq!(prim("%", vec![whole(-7), whole(3)]), whole(-1));
    assert_eq!(prim("%", vec![whole(7), whole(-3)]), whole(1));
    assert_eq!(prim("%", vec![whole(i64::MIN), whole(-1)]), whole(0));
    assert_eq!(
        prim("%", vec![double(1.0), whole(1)]),
        raised(ExceptionType::TypeError, "% : integer arguments expected")
    );
    assert_eq!(
        prim("%", vec![whole(1), double(1.0)]),
        raised(ExceptionType::TypeError, "% : integer arguments expected")
    );
}

#[test]
fn boolean_logic() {
    assert_eq!(prim("!", vec![Evaluation::True]), Evaluation::False);
    assert_eq!(prim("!", vec![Evaluation::False]), Evaluation::True);
    assert_eq!(prim("&", vec![Evaluation::True, Evaluation::True]), Evaluation::True);
    assert_eq!(prim("&", vec![Evaluation::True, Evaluation::False]), Evaluation::False);
    assert_eq!(prim("&", vec![Evaluation::False, Evaluation::True]), Evaluation::False);
    assert_eq!(prim("|", vec![Evaluation::False, Evaluation::True]), Evaluation::True);
    assert_eq!(prim("|", vec![Evaluation::False, Evaluation::False]), Evaluation::False);
    assert_eq!(prim("|", vec![Evaluation::True, Evaluation::False]), Evaluation::True);
    assert_eq!(
        prim("!", vec![whole(1)]),
        raised(ExceptionType::TypeError, "! : boolean argument expected")
    );
    assert_eq!(
        prim("&", vec![Evaluation::True, whole(1)]),
        raised(ExceptionType::TypeError, "& : boolean arguments expected")
    );
    assert_eq!(
        prim("|", vec![Evaluation::Nil, Evaluation::True]),
        raised(ExceptionType::TypeError, "| : boolean arguments expected")
    );
}

#[test]
fn conditional_selects_a_branch() {
    assert_eq!(prim("?", vec![Evaluation::True, whole(1), whole(2)]), whole(1));
    assert_eq!(prim("?", vec![Evaluation::False, whole(1), whole(2)]), whole(2));
    assert_eq!(
        prim("?", vec![whole(0), whole(1), whole(2)]),
        raised(ExceptionType::TypeError, "? : expected boolean for first argument")
    );
    assert_eq!(prim("?", vec![error(whole(9)), whole(1), whole(2)]), error(whole(9)));
    assert_eq!(prim("?", vec![Evaluation::True, error(whole(9)), whole(2)]), error(whole(9)));
    assert_eq!(prim("?", vec![Evaluation::False, error(whole(9)), whole(2)]), whole(2));
}

#[test]
fn equality_is_structural() {
    assert_eq!(prim("=", vec![Evaluation::Nil, Evaluation::Nil]), Evaluation::True);
    assert_eq!(prim("=", vec![Evaluation::True, Evaluation::True]), Evaluation::True);
    assert_eq!(prim("=", vec![Evaluation::True, Evaluation::False]), Evaluation::False);
    assert_eq!(prim("=", vec![whole(3), whole(3)]), Evaluation::True);
    assert_eq!(prim("=", vec![whole(3), whole(4)]), Evaluation::False);
    assert_eq!(prim("=", vec![whole(3), double(3.0)]), Evaluation::False);
    assert_eq!(prim("=", vec![double(3.0), double(3.0)]), Evaluation::True);
    assert_eq!(prim("=", vec![double(0.0), double(-0.0)]), Evaluation::True);
    assert_eq!(prim("=", vec![double(f64::NAN), double(f64::NAN)]), Evaluation::False);
    assert_eq!(prim("=", vec![text("a"), text("a")]), Evaluation::True);
    assert_eq!(prim("=", vec![text("a"), text("b")]), Evaluation::False);
    assert_eq!(prim("=", vec![text("1"), whole(1)]), Evaluation::False);
    assert_eq!(
        prim("=", vec![list(vec![whole(1), list(vec![text("x")])]), list(vec![whole(1), list(vec![text("x")])])]),
        Evaluation::True
    );
    assert_eq!(
        prim("=", vec![list(vec![whole(1), whole(2)]), list(vec![whole(1)])]),
        Evaluation::False
    );
    assert_eq!(
        prim("=", vec![list(vec![whole(1), whole(2)]), list(vec![whole(1), whole(3)])]),
        Evaluation::False
    );
    assert_eq!(prim("=", vec![list(vec![]), Evaluation::Nil]), Evaluation::False);
}

#[test]
fn equality_is_symmetric_on_samples() {
    let samples = vec![
        Evaluation::Nil,
        Evaluation::True,
        whole(1),
        double(1.0),
        text("1"),
        list(vec![whole(1)]),
        list(vec![whole(1), whole(2)]),
    ];
    for a in &samples {
        for b in &samples {
            assert_eq!(equal(a, b), equal(b, a));
        }
        assert!(equal(a, a));
    }
}

#[test]
fn ordering_compares_numbers() {
    assert_eq!(prim(">", vec![whole(2), whole(1)]), Evaluation::True);
    assert_eq!(prim(">", vec![whole(1), whole(1)]), Evaluation::False);
    assert_eq!(prim("<", vec![whole(1), whole(2)]), Evaluation::True);
    assert_eq!(prim("<", vec![whole(2), whole(1)]), Evaluation::False);
    assert_eq!(prim(">", vec![double(2.5), whole(2)]), Evaluation::True);
    assert_eq!(prim("<", vec![whole(2), double(2.5)]), Evaluation::True);
    assert_eq!(prim("<", vec![double(-1.5), double(-1.0)]), Evaluation::True);
    assert_eq!(prim(">", vec![double(-1.5), double(-1.0)]), Evaluation::False);
    assert_eq!(prim("<", vec![double(-0.0), double(0.0)]), Evaluation::False);
    assert_eq!(prim("<", vec![double(f64::NAN), double(0.0)]), Evaluation::False);
    assert_eq!(prim(">", vec![double(f64::NAN), double(0.0)]), Evaluation::False);
    assert_eq!(prim("<", vec![double(f64::NEG_INFINITY), double(f64::MIN)]), Evaluation::True);
    assert_eq!(
        prim("<", vec![text("a"), whole(1)]),
        raised(ExceptionType::TypeError, "< : numeric arguments expected")
    );
    assert_eq!(
        prim(">", vec![whole(1), text("a")]),
        raised(ExceptionType::TypeError, "> : numeric arguments expected")
    );
}

#[test]
fn float_bits_order_like_their_values() {
    let samples = [-2.5f64, -0.0, 0.0, 1.0e-300, 1.0, 3.5, f64::INFINITY, f64::NEG_INFINITY, f64::NAN];
    for a in samples {
        for b in samples {
            assert_eq!(less_bits(a.to_bits(), b.to_bits()), a < b);
            assert_eq!(equal_bits(a.to_bits(), b.to_bits()), a == b);
        }
    }
}

#[test]
fn substr_is_clamped() {
    assert_eq!(prim("substr", vec![text("hello"), whole(1), whole(3)]), text("ell"));
    assert_eq!(prim("substr", vec![text("hello"), whole(0), whole(5)]), text("hello"));
    assert_eq!(prim("substr", vec![text("hello"), whole(3), whole(10)]), text("lo"));
    assert_eq!(prim("substr", vec![text("hello"), whole(5), whole(1)]), text(""));
    assert_eq!(prim("substr", vec![text("hello"), whole(-1), whole(2)]), text(""));
    assert_eq!(prim("substr", vec![text("hello"), whole(2), whole(-1)]), text("llo"));
    assert_eq!(prim("substr", vec![text("hello"), whole(2), whole(0)]), text(""));
    assert_eq!(prim("substr", vec![text("hello"), whole(1), whole(i64::MAX)]), text("ello"));
    assert_eq!(prim("substr", vec![text("h\u{e9}llo"), whole(1), whole(2)]), text("\u{e9}l"));
    assert_eq!(
        prim("substr", vec![whole(1), whole(1), whole(1)]),
        raised(ExceptionType::TypeError, "substr : first argument must be string")
    );
    assert_eq!(
        prim("substr", vec![text("a"), text("b"), whole(1)]),
        raised(ExceptionType::TypeError, "substr : second argument expects integer for start")
    );
    assert_eq!(
        prim("substr", vec![text("a"), whole(0), text("b")]),
        raised(ExceptionType::TypeError, "substr : third argument expects integer for length")
    );
}

#[test]
fn strlen_counts_characters() {
    assert_eq!(prim("strlen", vec![text("")]), whole(0));
    assert_eq!(prim("strlen", vec![text("hello")]), whole(5));
    assert_eq!(prim("strlen", vec![text("h\u{e9}llo")]), whole(5));
    assert_eq!(
        prim("strlen", vec![whole(5)]),
        raised(ExceptionType::TypeError, "strlen : string argument expected")
    );
}

#[test]
fn car_and_cdr() {
    assert_eq!(prim("car", vec![list(vec![whole(1), whole(2)])]), whole(1));
    assert_eq!(
        prim("car", vec![list(vec![])]),
        raised(ExceptionType::RuntimeError, "car : attempt to get first item of empty list")
    );
    assert_eq!(prim("cdr", vec![list(vec![whole(1)])]), Evaluation::Nil);
    assert_eq!(prim("cdr", vec![list(vec![whole(1), whole(2), whole(3)])]), list(vec![whole(2), whole(3)]));
    assert_eq!(
        prim("cdr", vec![list(vec![])]),
        raised(ExceptionType::RuntimeError, "cdr : attempt to get rest of empty list")
    );
    assert_eq!(
        prim("cdr", vec![Evaluation::Nil]),
        raised(ExceptionType::TypeError, "cdr : list argument expected")
    );
    assert_eq!(
        prim("car", vec![text("x")]),
        raised(ExceptionType::TypeError, "car : list argument expected")
    );
}

#[test]
fn catch_yields_three_items_for_every_kind() {
    let kinds = vec![
        (ExceptionType::Return, "return"),
        (ExceptionType::Error, "error"),
        (ExceptionType::ArityError, "arity error"),
        (ExceptionType::ParseError, "parse error"),
        (ExceptionType::TypeError, "type error"),
        (ExceptionType::TypeMismatch, "type mismatch"),
        (ExceptionType::DivByZero, "division by zero"),
        (ExceptionType::RuntimeError, "runtime error"),
        (ExceptionType::UndefError, "undefined function"),
        (ExceptionType::RedefError, "redefinition error"),
    ];
    for (kind, name) in kinds {
        assert_eq!(kind.to_string(), name);
        assert_eq!(kind.title(), name.to_uppercase());
        let e = Evaluation::Exception(Exception {
            flavor: kind,
            payload: Box::new(whole(7)),
            stack: vec!["f".to_string(), "g".to_string()],
        });
        assert_eq!(
            prim("catch", vec![e]),
            list(vec![text(name), whole(7), list(vec![text("f"), text("g")])])
        );
    }
    assert_eq!(prim("catch", vec![Evaluation::Nil]), list(vec![text("ok"), Evaluation::Nil]));
}

#[test]
fn raise_and_return_wrap_their_argument() {
    assert_eq!(
        prim("raise", vec![whole(3)]),
        Evaluation::Exception(Exception {
            flavor: ExceptionType::Error,
            payload: Box::new(whole(3)),
            stack: vec![],
        })
    );
    assert_eq!(
        prim("~", vec![text("v")]),
        Evaluation::Exception(Exception {
            flavor: ExceptionType::Return,
            payload: Box::new(text("v")),
            stack: vec![],
        })
    );
}

#[test]
fn exceptions_among_arguments_are_handed_on() {
    assert_eq!(prim("+", vec![whole(1), error(whole(2))]), error(whole(2)));
    assert_eq!(prim("+", vec![error(whole(1)), error(whole(2))]), error(whole(1)));
    assert_eq!(prim("raise", vec![error(whole(1))]), error(whole(1)));
    assert_eq!(prim("nosuch", vec![error(whole(1))]), error(whole(1)));
    assert_eq!(prim("=", vec![error(whole(1)), error(whole(1))]), error(whole(1)));
    assert_eq!(prim("+", vec![error(whole(1))]), error(whole(1)));
}

#[test]
fn wrong_argument_counts_are_arity_errors() {
    assert_eq!(
        prim("+", vec![whole(1)]),
        raised(ExceptionType::ArityError, "+ : expected 2 arguments but got 1")
    );
    assert_eq!(
        prim("int", vec![]),
        raised(ExceptionType::ArityError, "int : expected 1 arguments but got 0")
    );
    assert_eq!(
        prim("?", vec![Evaluation::True]),
        raised(ExceptionType::ArityError, "? : expected 3 arguments but got 1")
    );
    assert_eq!(
        prim("catch", vec![whole(1), whole(2)]),
        raised(ExceptionType::ArityError, "catch : expected 1 arguments but got 2")
    );
    assert_eq!(
        prim("substr", vec![text("a")]),
        raised(ExceptionType::ArityError, "substr : expected 3 arguments but got 1")
    );
    for id in ["float", "string", ">>", "!", "strlen", "car", "cdr", "raise", "~"] {
        assert_eq!(
            prim(id, vec![]),
            raised(ExceptionType::ArityError, &format!("{} : expected 1 arguments but got 0", id))
        );
    }
    for id in ["-", "*", "/", "%", "&", "|", "=", ">", "<"] {
        assert_eq!(
            prim(id, vec![whole(1), whole(2), whole(3)]),
            raised(ExceptionType::ArityError, &format!("{} : expected 2 arguments but got 3", id))
        );
    }
    assert_eq!(
        arity_exception(&"f".to_string(), 12, 345),
        raised(ExceptionType::ArityError, "f : expected 12 arguments but got 345")
    );
}

#[test]
fn unknown_names_are_undefined() {
    assert_eq!(
        prim("nosuch", vec![]),
        raised(ExceptionType::UndefError, "nosuch : function is not defined in scope")
    );
    assert_eq!(
        prim("", vec![whole(1)]),
        raised(ExceptionType::UndefError, " : function is not defined in scope")
    );
}

#[test]
fn values_render_as_text() {
    let e = Evaluation::Exception(Exception {
        flavor: ExceptionType::TypeError,
        payload: Box::new(text("p")),
        stack: vec!["f".to_string(), "g".to_string()],
    });
    assert_eq!(e.to_string(&Host), "[type error, \"p\", f, g]]");
    assert_eq!(double(0.5).to_string(&Host), "0.5");
    assert_eq!(list(vec![double(0.5), whole(1)]).to_string(&Host), "[0.5, 1]");
    assert_eq!(
        exception(ExceptionType::Error, &"a".to_string(), "b".to_string()).to_string(&Host),
        "[error, \"a : b\", ]]"
    );
}

#[test]
fn numerals() {
    assert_eq!(count_text(0), "0");
    assert_eq!(count_text(10), "10");
    assert_eq!(count_text(907), "907");
    assert_eq!(integer_text(-1), "-1");
    assert_eq!(integer_text(i64::MAX), "9223372036854775807");
    assert!(same_text("abc", "abc"));
    assert!(!same_text("abc", "abd"));
    assert!(!same_text("abc", "ab"));
}

#[test]
fn integers_are_read_from_decimal_numerals() {
    assert_eq!(parse_integer("0"), Some(0));
    assert_eq!(parse_integer("007"), Some(7));
    assert_eq!(parse_integer("-0"), Some(0));
    assert_eq!(parse_integer("+15"), Some(15));
    assert_eq!(parse_integer("9223372036854775807"), Some(i64::MAX));
    assert_eq!(parse_integer("-9223372036854775808"), Some(i64::MIN));
    assert_eq!(parse_integer("9223372036854775808"), None);
    assert_eq!(parse_integer("-9223372036854775809"), None);
    assert_eq!(parse_integer("99999999999999999999999999"), None);
    assert_eq!(parse_integer(""), None);
    assert_eq!(parse_integer("-"), None);
    assert_eq!(parse_integer("+"), None);
    assert_eq!(parse_integer("1 "), None);
    assert_eq!(parse_integer(" 1"), None);
    assert_eq!(parse_integer("1_0"), None);
    assert_eq!(parse_integer("--1"), None);
    assert_eq!(parse_integer("12a"), None);
    assert_eq!(parse_integer("\u{663}"), None);
    for n in [0i64, 1, -1, 10, -10, 123456789, i64::MAX, i64::MIN] {
        assert_eq!(parse_integer(&integer_text(n)), Some(n));
        assert_eq!(integer_text(n), n.to_string());
    }
}
