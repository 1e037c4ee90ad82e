//! The parser: from tokens to the syntax tree of a program.
//!
//! A block is a run of expressions, each closed by a semicolon, and ends
//! before the first token that starts no expression. The body of a
//! definition is a block, so in a run of statements an empty statement
//! closes the body.

use crate::encoding::{exprs_view, lemma_exprs_view, names_view};
use crate::encoding::{Block, Call, Definition, Expr, Expression, List, Token};
use vstd::prelude::*;

verus! {

/// Why a token sequence is no program.
#[derive(PartialEq, Eq, Structural, Debug)]
pub enum SyntaxError {
    /// The tokens end where one more is needed.
    UnexpectedEnd,
    /// An expression in a block is not followed by a semicolon.
    ExpectedSemicolon,
    /// No expression stands where a call needs an argument.
    BadArgument,
    /// An argument is followed by neither a comma nor a closing parenthesis.
    ExpectedCommaOrParen,
    /// No expression stands where a list needs an item.
    BadItem,
    /// An item is followed by neither a comma nor a closing bracket.
    ExpectedCommaOrBracket,
    /// A colon or an opening parenthesis starts no definition.
    ExpectedDefinition,
    /// Tokens are left after the program.
    UnexpectedToken,
}

/// The parameter names from index `i` on, up to the closing parenthesis,
/// and the number of tokens after the first that they take; nothing where
/// no parameter list stands there.
pub open spec fn params_from(tokens: Seq<Token>, i: nat) -> Result<
    Option<(Seq<Seq<char>>, nat)>,
    SyntaxError,
>
    decreases
            if i <= tokens.len() {
                tokens.len() - i
            } else {
                0
            },
{
    if i >= tokens.len() {
        Err(SyntaxError::UnexpectedEnd)
    } else {
        match tokens[i as int] {
            Token::CloseParen => Ok(Some((Seq::empty(), 0))),
            Token::ID(s) => if i + 1 >= tokens.len() {
                Err(SyntaxError::UnexpectedEnd)
            } else {
                match tokens[(i + 1) as int] {
                    Token::Comma => match params_from(tokens, i + 2) {
                        Ok(Some((rest, k))) => Ok(Some((seq![s@] + rest, k + 2))),
                        other => other,
                    },
                    Token::CloseParen => Ok(Some((seq![s@], 1))),
                    _ => Ok(None),
                }
            },
            _ => Ok(None),
        }
    }
}

/// The definition of `id` with `params` whose body starts at index
/// `i + 1 + extra`, and the number of tokens after the first that it
/// takes.
pub open spec fn definition_body(
    tokens: Seq<Token>,
    i: nat,
    id: Seq<char>,
    params: Seq<Seq<char>>,
    extra: nat,
) -> Result<Option<(Expr, nat)>, SyntaxError>
    decreases
            if i <= tokens.len() {
                tokens.len() - i
            } else {
                0
            },
            0nat,
{
    if i >= tokens.len() {
        Err(SyntaxError::UnexpectedEnd)
    } else {
        match block_from(tokens, i + 1 + extra) {
            Err(e) => Err(e),
            Ok((block, m)) => Ok(Some((Expr::Definition { id, params, block }, extra + m))),
        }
    }
}

/// The definition that starts at index `i`, if one does: an optional
/// name, an optional parameter list in parentheses, a colon and a block.
pub open spec fn definition(tokens: Seq<Token>, i: nat) -> Result<Option<(Expr, nat)>, SyntaxError>
    decreases
            if i <= tokens.len() {
                tokens.len() - i
            } else {
                0
            },
            1nat,
{
    if i >= tokens.len() {
        Err(SyntaxError::UnexpectedEnd)
    } else {
        match tokens[i as int] {
            Token::Colon => definition_body(tokens, i, Seq::empty(), Seq::empty(), 0),
            Token::OpenParen => match params_from(tokens, i + 1) {
                Err(e) => Err(e),
                Ok(None) => Ok(None),
                Ok(Some((params, k))) => if i + 2 + k >= tokens.len() {
                    Err(SyntaxError::UnexpectedEnd)
                } else if tokens[(i + 2 + k) as int] is Colon {
                    definition_body(tokens, i, Seq::empty(), params, 2 + k)
                } else {
                    Ok(None)
                },
            },
            Token::ID(id) => if i + 1 >= tokens.len() {
                Err(SyntaxError::UnexpectedEnd)
            } else {
                match tokens[(i + 1) as int] {
                    Token::Colon => definition_body(tokens, i, id@, Seq::empty(), 1),
                    Token::OpenParen => match params_from(tokens, i + 2) {
                        Err(e) => Err(e),
                        Ok(None) => Ok(None),
                        Ok(Some((params, k))) => if i + 3 + k >= tokens.len() {
                            Err(SyntaxError::UnexpectedEnd)
                        } else if tokens[(i + 3 + k) as int] is Colon {
                            definition_body(tokens, i, id@, params, 3 + k)
                        } else {
                            Ok(None)
                        },
                    },
                    _ => Ok(None),
                }
            },
            _ => Ok(None),
        }
    }
}

/// The call of `id` that starts at index `i`, where the identifier
/// stands: with the arguments in parentheses where an opening parenthesis
/// follows, and bare otherwise.
pub open spec fn call(tokens: Seq<Token>, i: nat, id: Seq<char>) -> Result<(Expr, nat), SyntaxError>
    decreases
            if i <= tokens.len() {
                tokens.len() - i
            } else {
                0
            },
            1nat,
{
    if i + 1 >= tokens.len() {
        Err(SyntaxError::UnexpectedEnd)
    } else {
        match tokens[(i + 1) as int] {
            Token::OpenParen => match args_from(tokens, i + 2) {
                Err(e) => Err(e),
                Ok((args, k)) => Ok((Expr::Call { id, params: args }, 2 + k)),
            },
            _ => Ok((Expr::Call { id, params: Seq::empty() }, 0)),
        }
    }
}

/// The arguments from index `i` on, up to the closing parenthesis.
pub open spec fn args_from(tokens: Seq<Token>, i: nat) -> Result<(Seq<Expr>, nat), SyntaxError>
    decreases
            if i <= tokens.len() {
                tokens.len() - i
            } else {
                0
            },
            3nat,
{
    if i >= tokens.len() {
        Err(SyntaxError::UnexpectedEnd)
    } else if tokens[i as int] is CloseParen {
        Ok((Seq::empty(), 0))
    } else {
        match expression(tokens, i) {
            Err(e) => Err(e),
            Ok(None) => Err(SyntaxError::BadArgument),
            Ok(Some((e, k))) => if i + 1 + k >= tokens.len() {
                Err(SyntaxError::UnexpectedEnd)
            } else {
                match tokens[(i + 1 + k) as int] {
                    Token::Comma => match args_from(tokens, i + 2 + k) {
                        Err(e2) => Err(e2),
                        Ok((rest, k2)) => Ok((seq![e] + rest, k + 2 + k2)),
                    },
                    Token::CloseParen => Ok((seq![e], k + 1)),
                    _ => Err(SyntaxError::ExpectedCommaOrParen),
                }
            },
        }
    }
}

/// The items of a list from index `i` on, up to the closing bracket.
pub open spec fn items_from(tokens: Seq<Token>, i: nat) -> Result<(Seq<Expr>, nat), SyntaxError>
    decreases
            if i <= tokens.len() {
                tokens.len() - i
            } else {
                0
            },
            3nat,
{
    if i >= tokens.len() {
        Err(SyntaxError::UnexpectedEnd)
    } else if tokens[i as int] is CloseBracket {
        Ok((Seq::empty(), 0))
    } else {
        match expression(tokens, i) {
            Err(e) => Err(e),
            Ok(None) => Err(SyntaxError::BadItem),
            Ok(Some((e, k))) => if i + 1 + k >= tokens.len() {
                Err(SyntaxError::UnexpectedEnd)
            } else {
                match tokens[(i + 1 + k) as int] {
                    Token::Comma => match items_from(tokens, i + 2 + k) {
                        Err(e2) => Err(e2),
                        Ok((rest, k2)) => Ok((seq![e] + rest, k + 2 + k2)),
                    },
                    Token::CloseBracket => Ok((seq![e], k + 1)),
                    _ => Err(SyntaxError::ExpectedCommaOrBracket),
                }
            },
        }
    }
}

/// The expression that starts at index `i`, if one does, and the number
/// of tokens after the first that it takes. An identifier starts a
/// definition where one can be read there, and a call otherwise.
pub open spec fn expression(tokens: Seq<Token>, i: nat) -> Result<Option<(Expr, nat)>, SyntaxError>
    decreases
            if i <= tokens.len() {
                tokens.len() - i
            } else {
                0
            },
            2nat,
{
    if i >= tokens.len() {
        Err(SyntaxError::UnexpectedEnd)
    } else {
        match tokens[i as int] {
            Token::Nil => Ok(Some((Expr::Nil, 0))),
            Token::True => Ok(Some((Expr::True, 0))),
            Token::False => Ok(Some((Expr::False, 0))),
            Token::Integer(x) => Ok(Some((Expr::Integer(x), 0))),
            Token::Float(x) => Ok(Some((Expr::Float(x), 0))),
            Token::String(s) => Ok(Some((Expr::String(s@), 0))),
            Token::OpenBracket => match items_from(tokens, i + 1) {
                Err(e) => Err(e),
                Ok((items, k)) => Ok(Some((Expr::List(items), 1 + k))),
            },
            Token::ID(id) => match definition(tokens, i) {
                Err(e) => Err(e),
                Ok(Some(d)) => Ok(Some(d)),
                Ok(None) => match call(tokens, i, id@) {
                    Err(e) => Err(e),
                    Ok(c) => Ok(Some(c)),
                },
            },
            Token::Colon | Token::OpenParen => match definition(tokens, i) {
                Ok(None) => Err(SyntaxError::ExpectedDefinition),
                other => other,
            },
            _ => Ok(None),
        }
    }
}

/// The expressions of the block that starts at index `i`, and the number
/// of tokens that they and their semicolons take. The block ends before
/// the first token that starts no expression.
pub open spec fn block_from(tokens: Seq<Token>, i: nat) -> Result<(Seq<Expr>, nat), SyntaxError>
    decreases
            if i <= tokens.len() {
                tokens.len() - i
            } else {
                0
            },
            3nat,
{
    match expression(tokens, i) {
        Err(e) => Err(e),
        Ok(None) => Ok((Seq::empty(), 0)),
        Ok(Some((e, k))) => if i + 1 + k >= tokens.len() {
            Err(SyntaxError::UnexpectedEnd)
        } else if tokens[(i + 1 + k) as int] is Semicolon {
            match block_from(tokens, i + 2 + k) {
                Err(e2) => Err(e2),
                Ok((rest, m)) => Ok((seq![e] + rest, k + 2 + m)),
            }
        } else {
            Err(SyntaxError::ExpectedSemicolon)
        },
    }
}

/// The program that the tokens write: one block, the token that ends it,
/// and nothing after that.
pub open spec fn program(tokens: Seq<Token>) -> Result<Seq<Expr>, SyntaxError> {
    match block_from(tokens, 0) {
        Err(e) => Err(e),
        Ok((block, m)) => if m + 1 < tokens.len() {
            Err(SyntaxError::UnexpectedToken)
        } else {
            Ok(block)
        },
    }
}

/// The token at index `start`, or an error where the tokens end before
/// it.
fn get_token(tokens: &Vec<Token>, start: usize) -> (r: Result<&Token, SyntaxError>)
    ensures
        start < tokens.len() ==> r is Ok && *r->Ok_0 == tokens[start as int],
        start >= tokens.len() ==> r == Err::<&Token, SyntaxError>(SyntaxError::UnexpectedEnd),
{
    if start >= tokens.len() {
        Err(SyntaxError::UnexpectedEnd)
    } else {
        Ok(&tokens[start])
    }
}

/// `exprs` with one more expression: its model is the model of `exprs`
/// with the model of the expression after it.
proof fn lemma_pushed(before: Seq<Expression>, after: Seq<Expression>, e: Expression)
    requires
        after == before.push(e),
    ensures
        exprs_view(after) == exprs_view(before).push(e@),
{
    lemma_exprs_view(before);
    lemma_exprs_view(after);
    assert(exprs_view(after) =~= exprs_view(before).push(e@));
}

fn parse_params(tokens: &Vec<Token>, start: usize) -> (r: Result<
    Option<(Vec<String>, usize)>,
    SyntaxError,
>)
    ensures
        match params_from(tokens@, start as nat) {
            Err(e) => r is Err && r->Err_0 == e,
            Ok(None) => r is Ok && r->Ok_0 is None,
            Ok(Some((names, k))) => {
                &&& r is Ok
                &&& r->Ok_0 is Some
                &&& names_view((r->Ok_0->0).0@) == names
                &&& (r->Ok_0->0).1 == start + 1 + k
                &&& start + 1 + k <= tokens.len()
            },
        },
{
    let mut rc: Vec<String> = Vec::new();
    let mut index: usize = start;
    let ghost mut done: Seq<Seq<char>> = Seq::empty();
    assert(names_view(rc@) =~= done);
    loop
        invariant
            start <= index,
            names_view(rc@) == done,
            params_from(tokens@, start as nat) == match params_from(tokens@, index as nat) {
                Ok(Some((rest, k))) => Ok(Some((done + rest, (k + index - start) as nat))),
                other => other,
            },
        decreases
                if index <= tokens.len() {
                    tokens.len() - index
                } else {
                    0
                },
    {
        let token = match get_token(tokens, index) {
            Ok(token) => token,
            Err(e) => {
                return Err(e);
            },
        };
        match token {
            Token::CloseParen => {
                assert(done + Seq::<Seq<char>>::empty() =~= done);
                return Ok(Some((rc, index + 1)));
            },
            Token::ID(s) => {
                if index + 1 >= tokens.len() {
                    return Err(SyntaxError::UnexpectedEnd);
                }
                rc.push(s.clone());
                assert(names_view(rc@) =~= done.push(s@));
                match &tokens[index + 1] {
                    Token::Comma => {
                        proof {
                            let rest = params_from(tokens@, (index + 2) as nat);
                            if rest is Ok && rest->Ok_0 is Some {
                                assert(done + (seq![s@] + (rest->Ok_0->0).0) =~= done.push(s@)
                                    + (rest->Ok_0->0).0);
                            }
                            done = done.push(s@);
                        }
                        index = index + 2;
                    },
                    Token::CloseParen => {
                        assert(done + seq![s@] =~= done.push(s@));
                        return Ok(Some((rc, index + 2)));
                    },
                    _ => {
                        return Ok(None);
                    },
                }
            },
            _ => {
                return Ok(None);
            },
        }
    }
}

/// Whether `r` is what the grammar reads as an optional expression at
/// index `start`.
pub open spec fn reads_expression(
    r: Result<Option<(Expression, usize)>, SyntaxError>,
    expected: Result<Option<(Expr, nat)>, SyntaxError>,
    start: usize,
    len: nat,
) -> bool {
    match expected {
        Err(e) => r is Err && r->Err_0 == e,
        Ok(None) => r is Ok && r->Ok_0 is None,
        Ok(Some((v, k))) => {
            &&& r is Ok
            &&& r->Ok_0 is Some
            &&& (r->Ok_0->0).0@ == v
            &&& (r->Ok_0->0).1 == start + 1 + k
            &&& start + 1 + k <= len
        },
    }
}

/// Whether `r` is what the grammar reads as a run of expressions that
/// starts at index `start` and takes `skip` tokens more than it counts.
pub open spec fn reads_run(
    r: Result<(Vec<Expression>, usize), SyntaxError>,
    expected: Result<(Seq<Expr>, nat), SyntaxError>,
    start: usize,
    len: nat,
) -> bool {
    match expected {
        Err(e) => r is Err && r->Err_0 == e,
        Ok((v, k)) => {
            &&& r is Ok
            &&& exprs_view((r->Ok_0).0@) == v
            &&& (r->Ok_0).1 == start + 1 + k
            &&& start + 1 + k <= len
        },
    }
}

fn parse_body(
    tokens: &Vec<Token>,
    start: usize,
    id: String,
    params: Vec<String>,
    extra: usize,
) -> (r: Result<Option<(Expression, usize)>, SyntaxError>)
    requires
        start + 1 + extra <= tokens.len(),
    ensures
        reads_expression(
            r,
            definition_body(tokens@, start as nat, id@, names_view(params@), extra as nat),
            start,
            tokens.len() as nat,
        ),
    decreases
            if start <= tokens.len() {
                tokens.len() - start
            } else {
                0
            },
            0nat,
{
    if start >= tokens.len() {
        return Err(SyntaxError::UnexpectedEnd);
    }
    match parse_block(tokens, start + 1 + extra) {
        Err(e) => Err(e),
        Ok((block, last)) => {
            let def = Definition { id, params, block: Block { expressions: block } };
            Ok(Some((Expression::Definition(def), last - 1)))
        },
    }
}

fn parse_definition(tokens: &Vec<Token>, start: usize) -> (r: Result<
    Option<(Expression, usize)>,
    SyntaxError,
>)
    ensures
        reads_expression(r, definition(tokens@, start as nat), start, tokens.len() as nat),
    decreases
            if start <= tokens.len() {
                tokens.len() - start
            } else {
                0
            },
            1nat,
{
    if start >= tokens.len() {
        return Err(SyntaxError::UnexpectedEnd);
    }
    let none: Vec<String> = Vec::new();
    assert(names_view(none@) =~= Seq::<Seq<char>>::empty());
    match &tokens[start] {
        Token::Colon => parse_body(tokens, start, String::new(), none, 0),
        Token::OpenParen => match parse_params(tokens, start + 1) {
            Err(e) => Err(e),
            Ok(None) => Ok(None),
            Ok(Some((params, index))) => {
                let token = match get_token(tokens, index) {
                    Ok(token) => token,
                    Err(e) => {
                        return Err(e);
                    },
                };
                match token {
                    Token::Colon => parse_body(
                        tokens,
                        start,
                        String::new(),
                        params,
                        index - start,
                    ),
                    _ => Ok(None),
                }
            },
        },
        Token::ID(id) => {
            let token = match get_token(tokens, start + 1) {
                Ok(token) => token,
                Err(e) => {
                    return Err(e);
                },
            };
            match token {
                Token::Colon => parse_body(tokens, start, id.clone(), none, 1),
                Token::OpenParen => match parse_params(tokens, start + 2) {
                    Err(e) => Err(e),
                    Ok(None) => Ok(None),
                    Ok(Some((params, index))) => {
                        let token = match get_token(tokens, index) {
                            Ok(token) => token,
                            Err(e) => {
                                return Err(e);
                            },
                        };
                        match token {
                            Token::Colon => parse_body(
                                tokens,
                                start,
                                id.clone(),
                                params,
                                index - start,
                            ),
                            _ => Ok(None),
                        }
                    },
                },
                _ => Ok(None),
            }
        },
        _ => Ok(None),
    }
}

fn parse_call(tokens: &Vec<Token>, start: usize, id: String) -> (r: Result<
    (Expression, usize),
    SyntaxError,
>)
    requires
        start < tokens.len(),
    ensures
        match call(tokens@, start as nat, id@) {
            Err(e) => r is Err && r->Err_0 == e,
            Ok((v, k)) => {
                &&& r is Ok
                &&& (r->Ok_0).0@ == v
                &&& (r->Ok_0).1 == start + 1 + k
                &&& start + 1 + k <= tokens.len()
            },
        },
    decreases
            if start <= tokens.len() {
                tokens.len() - start
            } else {
                0
            },
            1nat,
{
    let token = match get_token(tokens, start + 1) {
        Ok(token) => token,
        Err(e) => {
            return Err(e);
        },
    };
    match token {
        Token::OpenParen => {
            let first: usize = start + 2;
            let mut rc: Vec<Expression> = Vec::new();
            let mut index: usize = first;
            let ghost mut done: Seq<Expr> = Seq::empty();
            assert(exprs_view(rc@) =~= done);
            loop
                invariant
                    first == start + 2,
                    first <= index,
                    start + 1 < tokens.len(),
                    tokens[start + 1] is OpenParen,
                    exprs_view(rc@) == done,
                    args_from(tokens@, first as nat) == match args_from(tokens@, index as nat) {
                        Ok((rest, k)) => Ok((done + rest, (k + index - first) as nat)),
                        Err(e) => Err(e),
                    },
                decreases
                        if index <= tokens.len() {
                            tokens.len() - index
                        } else {
                            0
                        },
            {
                let token = match get_token(tokens, index) {
                    Ok(token) => token,
                    Err(e) => {
                        return Err(e);
                    },
                };
                match token {
                    Token::CloseParen => {
                        assert(done + Seq::<Expr>::empty() =~= done);
                        let call = Call { id, params: rc };
                        return Ok((Expression::Call(call), index + 1));
                    },
                    _ => {},
                }
                match parse_next_expression(tokens, index) {
                    Err(e) => {
                        return Err(e);
                    },
                    Ok(None) => {
                        return Err(SyntaxError::BadArgument);
                    },
                    Ok(Some((exp, change))) => {
                        if change >= tokens.len() {
                            return Err(SyntaxError::UnexpectedEnd);
                        }
                        let ghost before = rc@;
                        let ghost e = exp@;
                        rc.push(exp);
                        proof {
                            lemma_pushed(before, rc@, exp);
                        }
                        match &tokens[change] {
                            Token::Comma => {
                                proof {
                                    let rest = args_from(tokens@, (change + 1) as nat);
                                    if rest is Ok {
                                        assert(done + (seq![e] + (rest->Ok_0).0) =~= done.push(e)
                                            + (rest->Ok_0).0);
                                    }
                                    done = done.push(e);
                                }
                                index = change + 1;
                            },
                            Token::CloseParen => {
                                assert(done + seq![e] =~= done.push(e));
                                let call = Call { id, params: rc };
                                return Ok((Expression::Call(call), change + 1));
                            },
                            _ => {
                                return Err(SyntaxError::ExpectedCommaOrParen);
                            },
                        }
                    },
                }
            }
        },
        _ => {
            let call = Call { id, params: Vec::new() };
            assert(exprs_view(call.params@) =~= Seq::<Expr>::empty());
            Ok((Expression::Call(call), start + 1))
        },
    }
}

fn parse_list(tokens: &Vec<Token>, start: usize) -> (r: Result<(Expression, usize), SyntaxError>)
    requires
        start < tokens.len(),
    ensures
        match items_from(tokens@, (start + 1) as nat) {
            Err(e) => r is Err && r->Err_0 == e,
            Ok((v, k)) => {
                &&& r is Ok
                &&& (r->Ok_0).0@ == Expr::List(v)
                &&& (r->Ok_0).1 == start + 2 + k
                &&& start + 2 + k <= tokens.len()
            },
        },
    decreases
            if start <= tokens.len() {
                tokens.len() - start
            } else {
                0
            },
            1nat,
{
    let first: usize = start + 1;
    let mut rc: Vec<Expression> = Vec::new();
    let mut index: usize = first;
    let ghost mut done: Seq<Expr> = Seq::empty();
    assert(exprs_view(rc@) =~= done);
    loop
        invariant
            first == start + 1,
            first <= index,
            start < tokens.len(),
            exprs_view(rc@) == done,
            items_from(tokens@, first as nat) == match items_from(tokens@, index as nat) {
                Ok((rest, k)) => Ok((done + rest, (k + index - first) as nat)),
                Err(e) => Err(e),
            },
        decreases
                if index <= tokens.len() {
                    tokens.len() - index
                } else {
                    0
                },
    {
        let token = match get_token(tokens, index) {
            Ok(token) => token,
            Err(e) => {
                return Err(e);
            },
        };
        match token {
            Token::CloseBracket => {
                assert(done + Seq::<Expr>::empty() =~= done);
                let list = List { items: rc };
                return Ok((Expression::List(list), index + 1));
            },
            _ => {},
        }
        match parse_next_expression(tokens, index) {
            Err(e) => {
                return Err(e);
            },
            Ok(None) => {
                return Err(SyntaxError::BadItem);
            },
            Ok(Some((exp, change))) => {
                if change >= tokens.len() {
                    return Err(SyntaxError::UnexpectedEnd);
                }
                let ghost before = rc@;
                let ghost e = exp@;
                rc.push(exp);
                proof {
                    lemma_pushed(before, rc@, exp);
                }
                match &tokens[change] {
                    Token::Comma => {
                        proof {
                            let rest = items_from(tokens@, (change + 1) as nat);
                            if rest is Ok {
                                assert(done + (seq![e] + (rest->Ok_0).0) =~= done.push(e)
                                    + (rest->Ok_0).0);
                            }
                            done = done.push(e);
                        }
                        index = change + 1;
                    },
                    Token::CloseBracket => {
                        assert(done + seq![e] =~= done.push(e));
                        let list = List { items: rc };
                        return Ok((Expression::List(list), change + 1));
                    },
                    _ => {
                        return Err(SyntaxError::ExpectedCommaOrBracket);
                    },
                }
            },
        }
    }
}

fn parse_next_expression(tokens: &Vec<Token>, start: usize) -> (r: Result<
    Option<(Expression, usize)>,
    SyntaxError,
>)
    ensures
        reads_expression(r, expression(tokens@, start as nat), start, tokens.len() as nat),
    decreases
            if start <= tokens.len() {
                tokens.len() - start
            } else {
                0
            },
            2nat,
{
    let token = match get_token(tokens, start) {
        Ok(token) => token,
        Err(e) => {
            return Err(e);
        },
    };
    match token {
        Token::Nil => Ok(Some((Expression::Nil, start + 1))),
        Token::True => Ok(Some((Expression::True, start + 1))),
        Token::False => Ok(Some((Expression::False, start + 1))),
        Token::Integer(x) => Ok(Some((Expression::Integer(*x), start + 1))),
        Token::Float(x) => Ok(Some((Expression::Float(*x), start + 1))),
        Token::String(s) => Ok(Some((Expression::String(s.clone()), start + 1))),
        Token::OpenBracket => match parse_list(tokens, start) {
            Err(e) => Err(e),
            Ok((list, index)) => Ok(Some((list, index))),
        },
        Token::ID(id) => match parse_definition(tokens, start) {
            Err(e) => Err(e),
            Ok(Some(def)) => Ok(Some(def)),
            Ok(None) => match parse_call(tokens, start, id.clone()) {
                Err(e) => Err(e),
                Ok(call) => Ok(Some(call)),
            },
        },
        Token::Colon | Token::OpenParen => match parse_definition(tokens, start) {
            Err(e) => Err(e),
            Ok(Some(def)) => Ok(Some(def)),
            Ok(None) => Err(SyntaxError::ExpectedDefinition),
        },
        _ => Ok(None),
    }
}

fn parse_block(tokens: &Vec<Token>, start: usize) -> (r: Result<
    (Vec<Expression>, usize),
    SyntaxError,
>)
    ensures
        reads_run(r, block_from(tokens@, start as nat), start, tokens.len() as nat),
    decreases
            if start <= tokens.len() {
                tokens.len() - start
            } else {
                0
            },
            3nat,
{
    let mut rc: Vec<Expression> = Vec::new();
    let mut index: usize = start;
    let ghost mut done: Seq<Expr> = Seq::empty();
    assert(exprs_view(rc@) =~= done);
    loop
        invariant
            start <= index,
            exprs_view(rc@) == done,
            block_from(tokens@, start as nat) == match block_from(tokens@, index as nat) {
                Ok((rest, m)) => Ok((done + rest, (m + index - start) as nat)),
                Err(e) => Err(e),
            },
        decreases
                if index <= tokens.len() {
                    tokens.len() - index
                } else {
                    0
                },
    {
        match parse_next_expression(tokens, index) {
            Err(e) => {
                return Err(e);
            },
            Ok(None) => {
                assert(done + Seq::<Expr>::empty() =~= done);
                return Ok((rc, index + 1));
            },
            Ok(Some((exp, change))) => {
                if change >= tokens.len() {
                    return Err(SyntaxError::UnexpectedEnd);
                }
                let ghost before = rc@;
                let ghost e = exp@;
                rc.push(exp);
                proof {
                    lemma_pushed(before, rc@, exp);
                }
                match &tokens[change] {
                    Token::Semicolon => {
                        proof {
                            let rest = block_from(tokens@, (change + 1) as nat);
                            if rest is Ok {
                                assert(done + (seq![e] + (rest->Ok_0).0) =~= done.push(e)
                                    + (rest->Ok_0).0);
                            }
                            done = done.push(e);
                        }
                        index = change + 1;
                    },
                    _ => {
                        return Err(SyntaxError::ExpectedSemicolon);
                    },
                }
            },
        }
    }
}

/// Reads the tokens as a program.
pub fn parse(tokens: &Vec<Token>) -> (r: Result<Block, SyntaxError>)
    ensures
        match program(tokens@) {
            Err(e) => r is Err && r->Err_0 == e,
            Ok(block) => r is Ok && r->Ok_0@ == block,
        },
{
    match parse_block(tokens, 0) {
        Err(e) => Err(e),
        Ok((block, index)) => {
            if index < tokens.len() {
                Err(SyntaxError::UnexpectedToken)
            } else {
                Ok(Block { expressions: block })
            }
        },
    }
}

} // verus!
