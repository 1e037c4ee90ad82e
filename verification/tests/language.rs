use doubtful::encoding::{
    Block, Call, Definition, Evaluation, Exception, ExceptionType, Expression, Function,
    FunctionOrValue, List, ListEval, Scope, Token,
};
use doubtful::encoding_impl::lookup;
use doubtful::evaluator::{evaluate, exception};
use doubtful::floats::FloatOps;
use doubtful::parser::{parse, SyntaxError};
use doubtful::text::characters;
use doubtful::tokenizer::{tokenize, LexError};

struct Host;

impl FloatOps for Host {
    fn parse(&self, text: &str) -> Option<u64> {
        text.parse::<f64>().ok().map(f64::to_bits)
    }

    fn format(&self, bits: u64) -> String {
        f64::from_bits(bits).to_string()
    }

    fn from_int(&self, n: i64) -> u64 {
        (n as f64).to_bits()
    }

    fn to_int(&self, bits: u64) -> i64 {
        f64::from_bits(bits) as i64
    }

    fn sum(&self, a: u64, b: u64) -> u64 {
        (f64::from_bits(a) + f64::from_bits(b)).to_bits()
    }

    fn difference(&self, a: u64, b: u64) -> u64 {
        (f64::from_bits(a) - f64::from_bits(b)).to_bits()
    }

    fn product(&self, a: u64, b: u64) -> u64 {
        (f64::from_bits(a) * f64::from_bits(b)).to_bits()
    }

    fn quotient(&self, a: u64, b: u64) -> u64 {
        (f64::from_bits(a) / f64::from_bits(b)).to_bits()
    }
}

fn run(source: &str) -> (Evaluation, Vec<String>) {
    let tokens = tokenize(source, &Host).expect("the source has tokens");
    let block = parse(&tokens).expect("the tokens are a program");
    evaluate(&block, &Host)
}

fn value(source: &str) -> Evaluation {
    run(source).0
}

fn flavor(v: &Evaluation) -> Option<&ExceptionType> {
    match v {
        Evaluation::Exception(e) => Some(&e.flavor),
        _ => None,
    }
}

fn text(s: &str) -> Evaluation {
    Evaluation::String(s.to_string())
}

fn list(items: Vec<Evaluation>) -> Evaluation {
    Evaluation::List(ListEval { items })
}

fn id(s: &str) -> Token {
    Token::ID(s.to_string())
}

#[test]
fn lexer_ends_with_one_end_marker() {
    assert_eq!(tokenize("", &Host), Ok(vec![Token::EOF]));
    assert_eq!(tokenize("   \n\t ", &Host), Ok(vec![Token::EOF]));
    assert_eq!(tokenize("a", &Host), Ok(vec![id("a"), Token::EOF]));
    assert_eq!(tokenize("a ", &Host), Ok(vec![id("a"), Token::EOF]));
}

#[test]
fn lexer_reads_punctuation() {
    assert_eq!(
        tokenize(":;,()[]{}", &Host),
        Ok(vec![
            Token::Colon,
            Token::Semicolon,
            Token::Comma,
            Token::OpenParen,
            Token::CloseParen,
            Token::OpenBracket,
            Token::CloseBracket,
            Token::OpenBrace,
            Token::CloseBrace,
            Token::EOF,
        ])
    );
}

#[test]
fn lexer_classifies_words() {
    assert_eq!(
        tokenize("true false nil 42 -7 +3 1.5 abc >> x1", &Host),
        Ok(vec![
            Token::True,
            Token::False,
            Token::Nil,
            Token::Integer(42),
            Token::Integer(-7),
            Token::Integer(3),
            Token::Float(1.5f64.to_bits()),
            id("abc"),
            id(">>"),
            id("x1"),
            Token::EOF,
        ])
    );
}

#[test]
fn lexer_reads_integer_limits() {
    assert_eq!(
        tokenize("9223372036854775807 -9223372036854775808", &Host),
        Ok(vec![Token::Integer(i64::MAX), Token::Integer(i64::MIN), Token::EOF])
    );
    assert_eq!(
        tokenize("9223372036854775808", &Host),
        Ok(vec![Token::Float(9223372036854775808f64.to_bits()), Token::EOF])
    );
}

#[test]
fn lexer_words_end_at_reserved_characters() {
    assert_eq!(
        tokenize("f(x):y;", &Host),
        Ok(vec![
            id("f"),
            Token::OpenParen,
            id("x"),
            Token::CloseParen,
            Token::Colon,
            id("y"),
            Token::Semicolon,
            Token::EOF,
        ])
    );
    assert_eq!(
        tokenize("ab\"cd\"ef#gh", &Host),
        Ok(vec![id("ab"), Token::String("cd".to_string()), id("ef"), Token::EOF])
    );
}

#[test]
fn lexer_skips_comments() {
    assert_eq!(
        tokenize("a # one ; two\nb # three", &Host),
        Ok(vec![id("a"), id("b"), Token::EOF])
    );
    assert_eq!(tokenize("#", &Host), Ok(vec![Token::EOF]));
    assert_eq!(tokenize("# x\r1", &Host), Ok(vec![Token::Integer(1), Token::EOF]));
}

#[test]
fn lexer_reads_strings() {
    assert_eq!(
        tokenize("\"hello world\" \"\" \"a#b;c\"", &Host),
        Ok(vec![
            Token::String("hello world".to_string()),
            Token::String("".to_string()),
            Token::String("a#b;c".to_string()),
            Token::EOF,
        ])
    );
    assert_eq!(
        tokenize("\"h\u{e9}llo\"", &Host),
        Ok(vec![Token::String("h\u{e9}llo".to_string()), Token::EOF])
    );
}

#[test]
fn lexer_rejects_unterminated_string() {
    assert_eq!(tokenize("\"abc", &Host), Err(LexError::UnterminatedString));
    assert_eq!(tokenize("x \"", &Host), Err(LexError::UnterminatedString));
}

#[test]
fn lexer_round_trips_literals() {
    let tokens = tokenize("17 -3 2.25 \"two words\"", &Host).unwrap();
    let mut written = String::new();
    for t in &tokens {
        match t {
            Token::Integer(n) => written += &format!("{} ", n),
            Token::Float(bits) => written += &format!("{} ", Host.format(*bits)),
            Token::String(s) => written += &format!("\"{}\" ", s),
            _ => {}
        }
    }
    assert_eq!(written, "17 -3 2.25 \"two words\" ");
    assert_eq!(tokenize(&written, &Host).unwrap(), tokens);
}

#[test]
fn characters_of_a_string() {
    assert_eq!(characters("a\u{e9}b"), vec!['a', '\u{e9}', 'b']);
    assert_eq!(characters(""), Vec::<char>::new());
}

fn parsed(source: &str) -> Result<Block, SyntaxError> {
    parse(&tokenize(source, &Host).unwrap())
}

fn call(name: &str, params: Vec<Expression>) -> Expression {
    Expression::Call(Call { id: name.to_string(), params })
}

#[test]
fn parser_reads_literals_and_lists() {
    assert_eq!(
        parsed("nil; true; false; 7; 1.5; \"s\"; [1, [2], []];"),
        Ok(Block {
            expressions: vec![
                Expression::Nil,
                Expression::True,
                Expression::False,
                Expression::Integer(7),
                Expression::Float(1.5f64.to_bits()),
                Expression::String("s".to_string()),
                Expression::List(List {
                    items: vec![
                        Expression::Integer(1),
                        Expression::List(List { items: vec![Expression::Integer(2)] }),
                        Expression::List(List { items: vec![] }),
                    ],
                }),
            ],
        })
    );
}

#[test]
fn parser_reads_empty_program() {
    assert_eq!(parsed(""), Ok(Block { expressions: vec![] }));
}

#[test]
fn parser_reads_calls() {
    assert_eq!(
        parsed("x; f(); g(1, h(2), y);"),
        Ok(Block {
            expressions: vec![
                call("x", vec![]),
                call("f", vec![]),
                call(
                    "g",
                    vec![
                        Expression::Integer(1),
                        call("h", vec![Expression::Integer(2)]),
                        call("y", vec![]),
                    ]
                ),
            ],
        })
    );
}

#[test]
fn parser_reads_definitions() {
    let body = Block { expressions: vec![call("+", vec![call("a", vec![]), call("b", vec![])])] };
    assert_eq!(
        parsed("add(a, b): + (a, b);; add(2, 3);"),
        Ok(Block {
            expressions: vec![
                Expression::Definition(Definition {
                    id: "add".to_string(),
                    params: vec!["a".to_string(), "b".to_string()],
                    block: body,
                }),
                call("add", vec![Expression::Integer(2), Expression::Integer(3)]),
            ],
        })
    );
    assert_eq!(
        parsed("one: 1;;"),
        Ok(Block {
            expressions: vec![Expression::Definition(Definition {
                id: "one".to_string(),
                params: vec![],
                block: Block { expressions: vec![Expression::Integer(1)] },
            })],
        })
    );
}

#[test]
fn parser_reads_anonymous_definitions() {
    assert_eq!(
        parsed("$((x): x;, 5);"),
        Ok(Block {
            expressions: vec![call(
                "$",
                vec![
                    Expression::Definition(Definition {
                        id: "".to_string(),
                        params: vec!["x".to_string()],
                        block: Block { expressions: vec![call("x", vec![])] },
                    }),
                    Expression::Integer(5),
                ]
            )],
        })
    );
    assert_eq!(
        parsed(": 1;;"),
        Ok(Block {
            expressions: vec![Expression::Definition(Definition {
                id: "".to_string(),
                params: vec![],
                block: Block { expressions: vec![Expression::Integer(1)] },
            })],
        })
    );
}

#[test]
fn parser_backtracks_from_definition_to_call() {
    assert_eq!(
        parsed("f(a, b);"),
        Ok(Block { expressions: vec![call("f", vec![call("a", vec![]), call("b", vec![])])] })
    );
}

#[test]
fn parser_body_takes_the_statements_that_follow() {
    assert_eq!(
        parsed("f: 1; 2;"),
        Err(SyntaxError::ExpectedSemicolon)
    );
    assert_eq!(
        parsed("add(a, b): + (a, b); >>(string(add(2, 3)));"),
        Err(SyntaxError::ExpectedSemicolon)
    );
}

#[test]
fn parser_rejects_missing_semicolon() {
    assert_eq!(parsed("1 2;"), Err(SyntaxError::ExpectedSemicolon));
    assert_eq!(parsed("f(1)"), Err(SyntaxError::ExpectedSemicolon));
}

#[test]
fn parser_rejects_trailing_tokens() {
    assert_eq!(parsed("1; ) 2;"), Err(SyntaxError::UnexpectedToken));
    assert_eq!(parsed("1; }"), Err(SyntaxError::UnexpectedToken));
}

#[test]
fn parser_rejects_premature_end() {
    assert_eq!(parse(&vec![]), Err(SyntaxError::UnexpectedEnd));
    assert_eq!(parse(&vec![Token::Integer(1)]), Err(SyntaxError::UnexpectedEnd));
    assert_eq!(parse(&vec![Token::Integer(1), Token::Semicolon]), Err(SyntaxError::UnexpectedEnd));
    assert_eq!(parse(&vec![id("f"), Token::OpenParen, Token::Integer(1)]), Err(SyntaxError::UnexpectedEnd));
    assert_eq!(parse(&vec![Token::OpenBracket]), Err(SyntaxError::UnexpectedEnd));
    assert_eq!(parse(&vec![id("f")]), Err(SyntaxError::UnexpectedEnd));
}

#[test]
fn parser_rejects_malformed_calls_and_lists() {
    assert_eq!(parsed("f(;);"), Err(SyntaxError::BadArgument));
    assert_eq!(parsed("f(1 2);"), Err(SyntaxError::ExpectedCommaOrParen));
    assert_eq!(parsed("[;];"), Err(SyntaxError::BadItem));
    assert_eq!(parsed("[1 2];"), Err(SyntaxError::ExpectedCommaOrBracket));
    assert_eq!(parsed("(1);"), Err(SyntaxError::ExpectedDefinition));
    assert_eq!(parsed("(a) 1;"), Err(SyntaxError::ExpectedDefinition));
}

#[test]
fn parser_accepts_only_end_marker() {
    assert_eq!(parse(&vec![Token::EOF]), Ok(Block { expressions: vec![] }));
    assert_eq!(
        parse(&vec![Token::Integer(1), Token::Semicolon, Token::EOF]),
        Ok(Block { expressions: vec![Expression::Integer(1)] })
    );
}

#[test]
fn program_add_prints_five() {
    let (result, output) = run("add(a, b): + (a, b);; >>(string(add(2, 3)));");
    assert_eq!(result, Evaluation::Nil);
    assert_eq!(output, vec!["5".to_string()]);
}

#[test]
fn early_return_yields_zero() {
    assert_eq!(value("f(x): ? (>(x, 0), x, ~(0));; f(-5);"), Evaluation::Integer(0));
}

#[test]
fn early_return_leaves_the_rest_of_the_body() {
    let (result, output) = run("f: >>(\"a\"); ~(7); >>(\"b\");; f;");
    assert_eq!(result, Evaluation::Integer(7));
    assert_eq!(output, vec!["a".to_string()]);
}

#[test]
fn car_and_cdr_on_lists() {
    assert_eq!(flavor(&value("car([]);")), Some(&ExceptionType::RuntimeError));
    assert_eq!(value("cdr([1]);"), Evaluation::Nil);
    assert_eq!(value("cdr([1, 2]);"), list(vec![Evaluation::Integer(2)]));
    assert_eq!(value("car([3, 4]);"), Evaluation::Integer(3));
    assert_eq!(flavor(&value("cdr([]);")), Some(&ExceptionType::RuntimeError));
    assert_eq!(flavor(&value("car(1);")), Some(&ExceptionType::TypeError));
}

#[test]
fn uncaught_raise_is_reported() {
    let (result, output) = run("raise(\"boom\"); >>(\"never\");");
    assert_eq!(
        result,
        Evaluation::Exception(Exception {
            flavor: ExceptionType::Error,
            payload: Box::new(text("boom")),
            stack: vec!["[main program]".to_string()],
        })
    );
    assert_eq!(output.len(), 1);
    assert!(output[0].contains("ERROR"));
    assert!(output[0].contains("boom"));
    assert_eq!(
        output[0],
        "\nRUNTIME EXCEPTION: ERROR\n\"boom\":\n\n  calling context:\n   -- called from function 0: [main program]\n"
    );
}

#[test]
fn report_numbers_the_trace_downwards() {
    let (_, output) = run("g: raise(1);; f: g;; f;");
    assert_eq!(
        output,
        vec![
            "\nRUNTIME EXCEPTION: ERROR\n1:\n\n  calling context:\n   -- called from function 2: g\n   -- called from function 1: f\n   -- called from function 0: [main program]\n"
                .to_string()
        ]
    );
}

#[test]
fn catch_reifies_exceptions() {
    assert_eq!(
        value("catch(raise(\"x\"));"),
        list(vec![text("error"), text("x"), list(vec![])])
    );
    assert_eq!(
        value("f: raise(5);; catch(f);"),
        list(vec![text("error"), Evaluation::Integer(5), list(vec![text("f")])])
    );
    assert_eq!(value("catch(3);"), list(vec![text("ok"), Evaluation::Integer(3)]));
    assert_eq!(
        value("catch(car([]));"),
        list(vec![
            text("runtime error"),
            text("car : attempt to get first item of empty list"),
            list(vec![]),
        ])
    );
    assert_eq!(
        value("catch(~(1));"),
        list(vec![text("return"), Evaluation::Integer(1), list(vec![])])
    );
}

#[test]
fn redefinition_in_same_scope_fails() {
    let v = value("f: 1;; f: 2;;");
    assert_eq!(flavor(&v), Some(&ExceptionType::RedefError));
    assert_eq!(
        value("f: 1;; catch(f: 2;);"),
        list(vec![text("redefinition error"), text(" : attempt to redefine f"), list(vec![])])
    );
}

#[test]
fn shadowing_in_inner_scope_succeeds() {
    assert_eq!(value("f: 1;; g: f: 2;; f;; g;"), Evaluation::Integer(2));
    assert_eq!(value("f: 1;; g: f: 2;; f;; g; f;"), Evaluation::Integer(1));
}

#[test]
fn anonymous_definitions_bind_nothing() {
    assert_eq!(value("$(: 1;); $(: 2;);"), Evaluation::Integer(2));
}

#[test]
fn arity_mismatch_on_named_call() {
    assert_eq!(
        value("f(a, b): a;; catch(f(1));"),
        list(vec![
            text("arity error"),
            text("f : expected 2 arguments but got 1"),
            list(vec![]),
        ])
    );
    assert_eq!(flavor(&value("f: 1;; f(1, 2);")), Some(&ExceptionType::ArityError));
}

#[test]
fn arity_mismatch_on_application() {
    assert_eq!(
        value("catch($((a): a;, 1, 2));"),
        list(vec![
            text("arity error"),
            text("$ : called function expected 1 arguments but got 2"),
            list(vec![]),
        ])
    );
    assert_eq!(
        value("catch($());"),
        list(vec![
            text("arity error"),
            text("$ : expected at least 1 argument but got 0"),
            list(vec![]),
        ])
    );
    assert_eq!(flavor(&value("$(1);")), Some(&ExceptionType::TypeError));
}

#[test]
fn application_calls_function_values() {
    assert_eq!(value("$((a, b): -(a, b);, 10, 4);"), Evaluation::Integer(6));
    assert_eq!(value("$(f(x): *(x, 2);, 21); f(4);"), Evaluation::Integer(8));
    assert_eq!(value("pick: (x): *(x, 2);;; $(pick, 21);"), Evaluation::Integer(42));
    assert_eq!(flavor(&value("$(raise(1), 2);")), Some(&ExceptionType::Error));
}

#[test]
fn functions_see_the_callers_scope() {
    assert_eq!(value("g: y;; f(y): g;; f(9);"), Evaluation::Integer(9));
}

#[test]
fn parameters_are_values() {
    assert_eq!(value("f(x): x(1, 2);; f(7);"), Evaluation::Integer(7));
}

#[test]
fn lists_fail_fast() {
    let (result, output) = run("[>>(\"a\"), raise(1), >>(\"b\")];");
    assert_eq!(flavor(&result), Some(&ExceptionType::Error));
    assert_eq!(output.len(), 2);
    assert_eq!(output[0], "a");
}

#[test]
fn arguments_fail_fast_except_for_catch() {
    let (result, output) = run("+(raise(1), >>(\"b\"));");
    assert_eq!(flavor(&result), Some(&ExceptionType::Error));
    assert_eq!(output.len(), 1);
    assert_eq!(value("nosuch(1);").to_string(&Host), "[undefined function, \"nosuch : function is not defined in scope\", [main program]]]");
}

#[test]
fn empty_block_is_nil() {
    assert_eq!(run(""), (Evaluation::Nil, vec![]));
    assert_eq!(value("f:; f;"), Evaluation::Nil);
}

#[test]
fn endless_recursion_ends_with_runtime_error() {
    let v = value("f: f;; f;");
    assert_eq!(flavor(&v), Some(&ExceptionType::RuntimeError));
    match v {
        Evaluation::Exception(e) => {
            assert_eq!(*e.payload, text("evaluate : nesting limit reached"));
        }
        _ => panic!("an exception was expected"),
    }
}

#[test]
fn recursion_computes() {
    assert_eq!(
        value("fact(n): $(?(=(n, 0), : 1;, : *(n, fact(-(n, 1)));));; fact(10);"),
        Evaluation::Integer(3628800)
    );
}

#[test]
fn exception_builder_joins_name_and_message() {
    assert_eq!(
        exception(ExceptionType::TypeError, &"op".to_string(), "bad".to_string()),
        Evaluation::Exception(Exception {
            flavor: ExceptionType::TypeError,
            payload: Box::new(text("op : bad")),
            stack: vec![],
        })
    );
}

#[test]
fn unwind_consumes_return_and_extends_trace() {
    let ret = Exception::new(&ExceptionType::Return, &Evaluation::Integer(4));
    assert_eq!(ret.unwind(&"f".to_string()), Evaluation::Integer(4));
    let err = Exception::new(&ExceptionType::Error, &Evaluation::Integer(4));
    assert_eq!(
        err.unwind(&"f".to_string()),
        Evaluation::Exception(Exception {
            flavor: ExceptionType::Error,
            payload: Box::new(Evaluation::Integer(4)),
            stack: vec!["f".to_string()],
        })
    );
}

#[test]
fn lookup_searches_innermost_first() {
    let mut outer = Scope::new();
    outer.bind("x".to_string(), FunctionOrValue::Value(Evaluation::Integer(1)));
    outer.bind("y".to_string(), FunctionOrValue::Value(Evaluation::Integer(2)));
    let mut inner = Scope::new();
    inner.bind("x".to_string(), FunctionOrValue::Value(Evaluation::Integer(3)));
    inner.bind("x".to_string(), FunctionOrValue::Value(Evaluation::Integer(4)));
    let stack = vec![outer, inner];
    assert_eq!(lookup(&stack, "x"), Some(FunctionOrValue::Value(Evaluation::Integer(4))));
    assert_eq!(lookup(&stack, "y"), Some(FunctionOrValue::Value(Evaluation::Integer(2))));
    assert_eq!(lookup(&stack, "z"), None);
}

#[test]
fn definition_binds_in_topmost_scope_only() {
    let def = Definition {
        id: "f".to_string(),
        params: vec!["a".to_string()],
        block: Block { expressions: vec![Expression::Nil] },
    };
    let mut stack = vec![Scope::new(), Scope::new()];
    let made = def.evaluate(&mut stack);
    let func = Function { params: vec!["a".to_string()], block: Block { expressions: vec![Expression::Nil] } };
    assert_eq!(made, Evaluation::Function(func.clone()));
    assert_eq!(stack[0].find("f"), None);
    assert_eq!(stack[1].find("f"), Some(FunctionOrValue::Function(func)));
    let again = def.evaluate(&mut stack);
    assert_eq!(flavor(&again), Some(&ExceptionType::RedefError));
    stack.push(Scope::new());
    assert!(matches!(def.evaluate(&mut stack), Evaluation::Function(_)));
}

#[test]
fn clones_are_equal() {
    let block = parsed("f(a): [1, \"s\", g(a)];; f(2);").unwrap();
    assert_eq!(block.clone(), block);
    let v = value("[1, [\"a\", nil], catch(raise(2))];");
    assert_eq!(v.clone(), v);
    assert_eq!(ExceptionType::DivByZero.clone(), ExceptionType::DivByZero);
}

#[test]
fn lexer_treats_unicode_spaces_as_separators() {
    assert_eq!(
        tokenize("a\u{a0}b\u{2003}c\u{3000}d\u{85}e", &Host),
        Ok(vec![id("a"), id("b"), id("c"), id("d"), id("e"), Token::EOF])
    );
}

#[test]
fn lexer_keeps_quotes_out_of_words() {
    assert_eq!(
        tokenize("nil\"nil\"", &Host),
        Ok(vec![Token::Nil, Token::String("nil".to_string()), Token::EOF])
    );
    assert_eq!(tokenize("truex", &Host), Ok(vec![id("truex"), Token::EOF]));
    assert_eq!(tokenize("-", &Host), Ok(vec![id("-"), Token::EOF]));
    assert_eq!(tokenize("1e3", &Host), Ok(vec![Token::Float(1000f64.to_bits()), Token::EOF]));
}

#[test]
fn definitions_in_arguments_bind_in_the_callers_scope() {
    assert_eq!(value("car([f: 5;]); f;"), Evaluation::Integer(5));
}

#[test]
fn definitions_in_a_body_are_gone_after_the_call() {
    let v = value("f: g: 1;; g;; f; g;");
    assert_eq!(flavor(&v), Some(&ExceptionType::UndefError));
}

#[test]
fn arguments_are_evaluated_before_the_call() {
    let (result, output) = run("f(a, b): >>(\"body\"); +(a, b);; f(>>(\"one\"), 2);");
    assert_eq!(flavor(&result), Some(&ExceptionType::TypeError));
    assert_eq!(output[0], "one");
    assert_eq!(output[1], "body");
}

#[test]
fn argument_that_raises_ends_the_call() {
    let (result, output) = run("f(a): >>(\"body\");; f(raise(\"no\"));");
    assert_eq!(
        result,
        Evaluation::Exception(Exception {
            flavor: ExceptionType::Error,
            payload: Box::new(text("no")),
            stack: vec!["f".to_string(), "[main program]".to_string()],
        })
    );
    assert_eq!(output.len(), 1);
}

#[test]
fn return_at_top_level_ends_the_program() {
    let (result, output) = run(">>(\"a\"); ~(3); >>(\"b\");");
    assert_eq!(result, Evaluation::Integer(3));
    assert_eq!(output, vec!["a".to_string()]);
}

#[test]
fn later_parameter_of_the_same_name_wins() {
    assert_eq!(value("f(x, x): x;; f(1, 2);"), Evaluation::Integer(2));
}

#[test]
fn block_evaluate_restores_the_scope_stack() {
    let block = parsed("f: 1;; f;").unwrap();
    let mut stack = vec![Scope::new()];
    let mut out = Vec::new();
    let r = block.evaluate(&mut stack, &"ctx".to_string(), &Host, &mut out, 100);
    assert_eq!(r, Evaluation::Integer(1));
    assert_eq!(stack, vec![Scope::new()]);
    let r = block.evaluate(&mut stack, &"ctx".to_string(), &Host, &mut out, 0);
    assert_eq!(flavor(&r), Some(&ExceptionType::RuntimeError));
    let empty = Block { expressions: vec![] };
    assert_eq!(empty.evaluate(&mut stack, &"ctx".to_string(), &Host, &mut out, 1), Evaluation::Nil);
}

#[test]
fn invoke_checks_the_number_of_arguments_first() {
    let func = Function {
        params: vec!["a".to_string()],
        block: Block { expressions: vec![call("a", vec![])] },
    };
    let mut stack = vec![Scope::new()];
    let mut out = Vec::new();
    let args = vec![Expression::Integer(1), Expression::Integer(2)];
    let r = func.invoke(&"f".to_string(), &args, 0, &mut stack, &Host, &mut out, 0);
    assert_eq!(
        r,
        exception(ExceptionType::ArityError, &"f".to_string(), "expected 1 arguments but got 2".to_string())
    );
    let r = func.invoke(&"$".to_string(), &args, 2, &mut stack, &Host, &mut out, 10);
    assert_eq!(
        r,
        exception(
            ExceptionType::ArityError,
            &"$".to_string(),
            "called function expected 1 arguments but got 0".to_string()
        )
    );
    let r = func.invoke(&"f".to_string(), &args, 1, &mut stack, &Host, &mut out, 10);
    assert_eq!(r, Evaluation::Integer(2));
    assert_eq!(stack, vec![Scope::new()]);
}

#[test]
fn expression_evaluate_yields_literals() {
    let mut stack = vec![Scope::new()];
    let mut out = Vec::new();
    assert_eq!(Expression::Nil.evaluate(&mut stack, &Host, &mut out, 0), Evaluation::Nil);
    assert_eq!(Expression::Integer(4).evaluate(&mut stack, &Host, &mut out, 0), Evaluation::Integer(4));
    assert_eq!(
        Expression::String("s".to_string()).evaluate(&mut stack, &Host, &mut out, 0),
        text("s")
    );
    assert_eq!(
        Expression::Float(2.5f64.to_bits()).evaluate(&mut stack, &Host, &mut out, 0),
        Evaluation::Float(2.5f64.to_bits())
    );
    let l = List { items: vec![Expression::True, Expression::False] };
    assert_eq!(l.evaluate(&mut stack, &Host, &mut out, 1), list(vec![Evaluation::True, Evaluation::False]));
    let c = Call { id: "strlen".to_string(), params: vec![Expression::String("abc".to_string())] };
    assert_eq!(c.evaluate(&mut stack, &Host, &mut out, 1), Evaluation::Integer(3));
    assert!(out.is_empty());
}

#[test]
fn floats_flow_through_programs() {
    let (result, output) = run("half(x): /(x, 2.0);; >>(string(half(5))); <(half(1), 1);");
    assert_eq!(result, Evaluation::True);
    assert_eq!(output, vec!["2.5".to_string()]);
}

#[test]
fn tokens_describe_themselves() {
    let tokens = tokenize("f(x): [1, 2.5, \"s\", nil, true, false]; {}", &Host).unwrap();
    let described: Vec<String> = tokens.iter().map(|t| t.describe(&Host)).collect();
    assert_eq!(
        described,
        vec![
            "ID:f", "OPENPAREN", "ID:x", "CLOSEPAREN", "COLON", "OPENBRACKET", "INTEGER:1",
            "COMMA", "FLOAT:2.5", "COMMA", "STRING:s", "COMMA", "NIL", "COMMA", "TRUE", "COMMA",
            "FALSE", "CLOSEBRACKET", "SEMICOLON", "OPENBRACE", "CLOSEBRACE", "EOF",
        ]
    );
}

#[test]
fn expressions_describe_themselves() {
    let block = parsed("f(a, b): g(a, [b, 1]); x;; h; [nil, 2.5]; k: \"s\";;").unwrap();
    let described: Vec<String> = block.expressions.iter().map(|e| e.describe(&Host)).collect();
    assert_eq!(
        described,
        vec![
            "DEFINITION:f( a b ): CALL:g( CALL:a LIST:[ CALL:b INTEGER:1 ] ); CALL:x;",
            "CALL:h",
            "LIST:[ NIL FLOAT:2.5 ]",
            "DEFINITION:k STRING:s;",
        ]
    );
}

#[test]
fn values_describe_themselves() {
    assert_eq!(value("[1, \"a\", [true]];").describe(&Host), "LIST:[ INTEGER:1 STRING:a LIST:[ TRUE ] ]");
    assert_eq!(value("[];").describe(&Host), "LIST:[ ]");
    assert_eq!(value("1.5;").describe(&Host), "FLOAT:1.5");
    assert_eq!(value("(a, b): +(a, b); nil;;").describe(&Host), "FUNCTION:( a b ): CALL:+( CALL:a CALL:b ); NIL;");
    assert_eq!(value(": 1;;").describe(&Host), "FUNCTION: INTEGER:1;");
    assert_eq!(
        value("f: raise(\"x\");; f;").describe(&Host),
        "EXCEPTION:[error, \"x\", f, [main program]]]"
    );
}

#[test]
fn scopes_describe_their_bindings() {
    let mut scope = Scope::new();
    assert_eq!(scope.describe(&Host), "SCOPE:");
    scope.bind("x".to_string(), FunctionOrValue::Value(Evaluation::Integer(1)));
    scope.bind(
        "f".to_string(),
        FunctionOrValue::Function(Function {
            params: vec!["a".to_string()],
            block: Block { expressions: vec![call("a", vec![])] },
        }),
    );
    scope.bind(
        "g".to_string(),
        FunctionOrValue::Function(Function { params: vec![], block: Block { expressions: vec![] } }),
    );
    assert_eq!(scope.describe(&Host), "SCOPE: x:INTEGER:1 f:( a ):CALL:a g:( ):<...>");
}

#[test]
fn parser_reads_parameter_lists() {
    let one = |params: Vec<&str>| {
        Ok(Block {
            expressions: vec![Expression::Definition(Definition {
                id: "f".to_string(),
                params: params.iter().map(|p| p.to_string()).collect(),
                block: Block { expressions: vec![Expression::Nil] },
            })],
        })
    };
    assert_eq!(parsed("f(): nil;;"), one(vec![]));
    assert_eq!(parsed("f(a): nil;;"), one(vec!["a"]));
    assert_eq!(parsed("f(a,): nil;;"), one(vec!["a"]));
    assert_eq!(parsed("f(a, b, c): nil;;"), one(vec!["a", "b", "c"]));
    assert_eq!(parsed("f(a b): nil;;"), Err(SyntaxError::ExpectedCommaOrParen));
}

#[test]
fn parser_has_no_infix_operators() {
    assert_eq!(parsed("f(x): ? (x > 0, x, ~(0));"), Err(SyntaxError::ExpectedCommaOrParen));
    assert_eq!(parsed("1 + 2;"), Err(SyntaxError::ExpectedSemicolon));
}

#[test]
fn parser_stops_a_body_at_a_closing_token() {
    assert_eq!(
        parsed("[(x): x;];"),
        Ok(Block {
            expressions: vec![Expression::List(List {
                items: vec![Expression::Definition(Definition {
                    id: "".to_string(),
                    params: vec!["x".to_string()],
                    block: Block { expressions: vec![call("x", vec![])] },
                })],
            })],
        })
    );
}
