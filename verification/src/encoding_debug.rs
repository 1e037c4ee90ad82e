//! Descriptions of tokens, syntax trees, values and scopes, for the eyes
//! of someone who debugs a program or the interpreter. Each description
//! names the kind of what it describes in capitals.

use crate::encoding::{exprs_view, lemma_exprs_view, lemma_values_view, names_view, values_view};
use crate::encoding::{
    Binding, Evaluation, Expr, Expression, Function, FunctionOrValue, Scope, Token, Value,
};
use crate::encoding_display::{flavor_name, float_free, joined, push_joined, render};
use crate::floats::FloatOps;
use crate::text::{int_text, integer_text};
use vstd::prelude::*;
use vstd::string::*;

verus! {

/// The description of a token that is no floating-point literal.
pub open spec fn token_text(t: Token) -> Seq<char> {
    match t {
        Token::Colon => "COLON"@,
        Token::Semicolon => "SEMICOLON"@,
        Token::Comma => "COMMA"@,
        Token::True => "TRUE"@,
        Token::False => "FALSE"@,
        Token::Nil => "NIL"@,
        Token::OpenParen => "OPENPAREN"@,
        Token::CloseParen => "CLOSEPAREN"@,
        Token::OpenBracket => "OPENBRACKET"@,
        Token::CloseBracket => "CLOSEBRACKET"@,
        Token::OpenBrace => "OPENBRACE"@,
        Token::CloseBrace => "CLOSEBRACE"@,
        Token::ID(x) => "ID:"@ + x@,
        Token::Integer(n) => "INTEGER:"@ + int_text(n as int),
        Token::Float(_) => "FLOAT:"@,
        Token::String(x) => "STRING:"@ + x@,
        Token::EOF => "EOF"@,
    }
}

impl Token {
    /// The description of the token. That of a floating-point literal
    /// ends with the host's text of the number.
    pub fn describe<H: FloatOps>(&self, host: &H) -> (text: String)
        ensures
            !(self is Float) ==> text@ == token_text(*self),
    {
        match self {
            Token::Colon => "COLON".to_owned(),
            Token::Semicolon => "SEMICOLON".to_owned(),
            Token::Comma => "COMMA".to_owned(),
            Token::True => "TRUE".to_owned(),
            Token::False => "FALSE".to_owned(),
            Token::Nil => "NIL".to_owned(),
            Token::OpenParen => "OPENPAREN".to_owned(),
            Token::CloseParen => "CLOSEPAREN".to_owned(),
            Token::OpenBracket => "OPENBRACKET".to_owned(),
            Token::CloseBracket => "CLOSEBRACKET".to_owned(),
            Token::OpenBrace => "OPENBRACE".to_owned(),
            Token::CloseBrace => "CLOSEBRACE".to_owned(),
            Token::ID(x) => {
                let mut text = "ID:".to_owned();
                text.append(x.as_str());
                text
            },
            Token::Integer(n) => {
                let mut text = "INTEGER:".to_owned();
                let number = integer_text(*n);
                text.append(number.as_str());
                text
            },
            Token::Float(bits) => {
                let mut text = "FLOAT:".to_owned();
                let number = host.format(*bits);
                text.append(number.as_str());
                text
            },
            Token::String(x) => {
                let mut text = "STRING:".to_owned();
                text.append(x.as_str());
                text
            },
            Token::EOF => "EOF".to_owned(),
        }
    }
}

/// Whether no floating-point literal occurs in an expression.
pub open spec fn literal_free(e: Expr) -> bool
    decreases e, 0nat,
{
    match e {
        Expr::Float(_) => false,
        Expr::List(items) => literal_free_items(items, items.len()),
        Expr::Call { id, params } => literal_free_items(params, params.len()),
        Expr::Definition { id, params, block } => literal_free_items(block, block.len()),
        _ => true,
    }
}

/// Whether no floating-point literal occurs in the first `n` of `items`.
pub open spec fn literal_free_items(items: Seq<Expr>, n: nat) -> bool
    decreases items, n,
{
    if n == 0 || n > items.len() {
        true
    } else {
        literal_free_items(items, (n - 1) as nat) && literal_free(items[n - 1])
    }
}

/// Each of the first `n` expressions is free of floating-point literals
/// where the first `n` together are.
pub proof fn lemma_literal_free_item(items: Seq<Expr>, n: nat, i: int)
    requires
        literal_free_items(items, n),
        n <= items.len(),
        0 <= i < n,
    ensures
        literal_free(items[i]),
    decreases n,
{
    if i < n - 1 {
        lemma_literal_free_item(items, (n - 1) as nat, i);
    }
}

/// The first `n` of `names`, each followed by a space.
pub open spec fn spaced(names: Seq<Seq<char>>, n: nat) -> Seq<char>
    decreases n,
{
    if n == 0 || n > names.len() {
        Seq::empty()
    } else {
        spaced(names, (n - 1) as nat) + names[n - 1] + " "@
    }
}

/// The parameter list of a description: nothing for no parameters.
pub open spec fn parameters_text(names: Seq<Seq<char>>) -> Seq<char> {
    if names.len() > 0 {
        "( "@ + spaced(names, names.len()) + "):"@
    } else {
        Seq::empty()
    }
}

/// The description of an expression in which no floating-point literal
/// occurs.
pub open spec fn expr_text(e: Expr) -> Seq<char>
    decreases e, 0nat,
{
    match e {
        Expr::Nil => "NIL"@,
        Expr::True => "TRUE"@,
        Expr::False => "FALSE"@,
        Expr::Integer(x) => "INTEGER:"@ + int_text(x as int),
        Expr::Float(_) => "FLOAT:"@,
        Expr::String(s) => "STRING:"@ + s,
        Expr::List(items) => "LIST:[ "@ + items_text(items, items.len()) + "]"@,
        Expr::Call { id, params } => if params.len() > 0 {
            "CALL:"@ + id + "( "@ + items_text(params, params.len()) + ")"@
        } else {
            "CALL:"@ + id
        },
        Expr::Definition { id, params, block } => "DEFINITION:"@ + id + parameters_text(params)
            + statements_text(block, block.len()),
    }
}

/// The descriptions of the first `n` of `items`, each followed by a
/// space.
pub open spec fn items_text(items: Seq<Expr>, n: nat) -> Seq<char>
    decreases items, n,
{
    if n == 0 || n > items.len() {
        Seq::empty()
    } else {
        items_text(items, (n - 1) as nat) + expr_text(items[n - 1]) + " "@
    }
}

/// The descriptions of the first `n` of `items` as statements: each after
/// a space and before a semicolon.
pub open spec fn statements_text(items: Seq<Expr>, n: nat) -> Seq<char>
    decreases items, n,
{
    if n == 0 || n > items.len() {
        Seq::empty()
    } else {
        statements_text(items, (n - 1) as nat) + " "@ + expr_text(items[n - 1]) + ";"@
    }
}

/// Appends the names, each followed by a space.
fn push_spaced(names: &Vec<String>, out: &mut String)
    ensures
        final(out)@ == old(out)@ + spaced(names_view(names@), names.len() as nat),
{
    let ghost view = names_view(names@);
    let mut i: usize = 0;
    assert(out@ =~= old(out)@ + spaced(view, 0));
    while i < names.len()
        invariant
            i <= names.len(),
            view == names_view(names@),
            out@ == old(out)@ + spaced(view, i as nat),
        decreases names.len() - i,
    {
        out.append(names[i].as_str());
        out.append(" ");
        i += 1;
        assert(out@ =~= old(out)@ + spaced(view, i as nat));
    }
}

/// Appends the parameter list of a description.
fn push_parameters(names: &Vec<String>, out: &mut String)
    ensures
        final(out)@ == old(out)@ + parameters_text(names_view(names@)),
{
    if names.len() > 0 {
        out.append("( ");
        push_spaced(names, out);
        out.append("):");
        assert(out@ =~= old(out)@ + parameters_text(names_view(names@)));
    } else {
        assert(out@ =~= old(out)@ + parameters_text(names_view(names@)));
    }
}

/// Appends the descriptions of expressions, each followed by a space.
fn push_items<H: FloatOps>(items: &Vec<Expression>, host: &H, out: &mut String)
    ensures
        literal_free_items(exprs_view(items@), items.len() as nat) ==> final(out)@ == old(out)@
            + items_text(exprs_view(items@), items.len() as nat),
    decreases items, 1nat,
{
    let ghost view = exprs_view(items@);
    let ghost clean = literal_free_items(view, items.len() as nat);
    let mut i: usize = 0;
    proof {
        lemma_exprs_view(items@);
        assert(out@ =~= old(out)@ + items_text(view, 0));
    }
    while i < items.len()
        invariant
            i <= items.len(),
            view == exprs_view(items@),
            view.len() == items.len(),
            clean == literal_free_items(view, items.len() as nat),
            clean ==> out@ == old(out)@ + items_text(view, i as nat),
        decreases items.len() - i,
    {
        proof {
            lemma_exprs_view(items@);
            if clean {
                lemma_literal_free_item(view, items.len() as nat, i as int);
            }
        }
        items[i].push_description(host, out);
        out.append(" ");
        i += 1;
        assert(clean ==> out@ =~= old(out)@ + items_text(view, i as nat));
    }
}

/// Appends the descriptions of expressions as statements.
fn push_statements<H: FloatOps>(items: &Vec<Expression>, host: &H, out: &mut String)
    ensures
        literal_free_items(exprs_view(items@), items.len() as nat) ==> final(out)@ == old(out)@
            + statements_text(exprs_view(items@), items.len() as nat),
    decreases items, 1nat,
{
    let ghost view = exprs_view(items@);
    let ghost clean = literal_free_items(view, items.len() as nat);
    let mut i: usize = 0;
    proof {
        lemma_exprs_view(items@);
        assert(out@ =~= old(out)@ + statements_text(view, 0));
    }
    while i < items.len()
        invariant
            i <= items.len(),
            view == exprs_view(items@),
            view.len() == items.len(),
            clean == literal_free_items(view, items.len() as nat),
            clean ==> out@ == old(out)@ + statements_text(view, i as nat),
        decreases items.len() - i,
    {
        proof {
            lemma_exprs_view(items@);
            if clean {
                lemma_literal_free_item(view, items.len() as nat, i as int);
            }
        }
        out.append(" ");
        items[i].push_description(host, out);
        out.append(";");
        i += 1;
        assert(clean ==> out@ =~= old(out)@ + statements_text(view, i as nat));
    }
}

impl Expression {
    /// Appends the description of the expression to `out`. Where a
    /// floating-point literal occurs in it, its text is the host's.
    pub fn push_description<H: FloatOps>(&self, host: &H, out: &mut String)
        ensures
            literal_free(self@) ==> final(out)@ == old(out)@ + expr_text(self@),
        decreases self, 0nat,
    {
        match self {
            Expression::Nil => {
                out.append("NIL");
            },
            Expression::True => {
                out.append("TRUE");
            },
            Expression::False => {
                out.append("FALSE");
            },
            Expression::Integer(x) => {
                out.append("INTEGER:");
                let number = integer_text(*x);
                out.append(number.as_str());
                assert(out@ =~= old(out)@ + expr_text(self@));
            },
            Expression::Float(bits) => {
                out.append("FLOAT:");
                let number = host.format(*bits);
                out.append(number.as_str());
            },
            Expression::String(s) => {
                out.append("STRING:");
                out.append(s.as_str());
                assert(out@ =~= old(out)@ + expr_text(self@));
            },
            Expression::List(list) => {
                out.append("LIST:[ ");
                push_items(&list.items, host, out);
                out.append("]");
                assert(literal_free(self@) ==> out@ =~= old(out)@ + expr_text(self@));
            },
            Expression::Call(call) => {
                out.append("CALL:");
                out.append(call.id.as_str());
                proof {
                    lemma_exprs_view(call.params@);
                }
                if call.params.len() > 0 {
                    out.append("( ");
                    push_items(&call.params, host, out);
                    out.append(")");
                }
                assert(literal_free(self@) ==> out@ =~= old(out)@ + expr_text(self@));
            },
            Expression::Definition(def) => {
                out.append("DEFINITION:");
                out.append(def.id.as_str());
                push_parameters(&def.params, out);
                push_statements(&def.block.expressions, host, out);
                assert(literal_free(self@) ==> out@ =~= old(out)@ + expr_text(self@));
            },
        }
    }

    /// The description of the expression.
    pub fn describe<H: FloatOps>(&self, host: &H) -> (text: String)
        ensures
            literal_free(self@) ==> text@ == expr_text(self@),
    {
        let mut text = String::new();
        self.push_description(host, &mut text);
        assert(literal_free(self@) ==> text@ =~= expr_text(self@));
        text
    }
}

/// Whether the description of a value holds no text of the host's: no
/// floating-point number occurs in the value, a payload or a body.
pub open spec fn describable(v: Value) -> bool
    decreases v, 0nat,
{
    match v {
        Value::Float(_) => false,
        Value::List(items) => describable_items(items, items.len()),
        Value::Exception { flavor, payload, stack } => float_free(*payload),
        Value::Function { params, block } => literal_free_items(block, block.len()),
        _ => true,
    }
}

/// Whether the descriptions of the first `n` of `items` hold no text of
/// the host's.
pub open spec fn describable_items(items: Seq<Value>, n: nat) -> bool
    decreases items, n,
{
    if n == 0 || n > items.len() {
        true
    } else {
        describable_items(items, (n - 1) as nat) && describable(items[n - 1])
    }
}

/// Each of the first `n` values is describable where the first `n`
/// together are.
pub proof fn lemma_describable_item(items: Seq<Value>, n: nat, i: int)
    requires
        describable_items(items, n),
        n <= items.len(),
        0 <= i < n,
    ensures
        describable(items[i]),
    decreases n,
{
    if i < n - 1 {
        lemma_describable_item(items, (n - 1) as nat, i);
    }
}

/// The description of a describable value.
pub open spec fn value_text(v: Value) -> Seq<char>
    decreases v, 0nat,
{
    match v {
        Value::Nil => "NIL"@,
        Value::True => "TRUE"@,
        Value::False => "FALSE"@,
        Value::Integer(x) => "INTEGER:"@ + int_text(x as int),
        Value::Float(_) => "FLOAT:"@,
        Value::String(s) => "STRING:"@ + s,
        Value::List(items) => "LIST:[ "@ + values_text(items, items.len()) + "]"@,
        Value::Exception { flavor, payload, stack } => "EXCEPTION:["@ + flavor_name(flavor) + ", "@
            + render(*payload) + ", "@ + joined(stack, stack.len()) + "]]"@,
        Value::Function { params, block } => "FUNCTION:"@ + parameters_text(params)
            + statements_text(block, block.len()),
    }
}

/// The descriptions of the first `n` of `items`, each followed by a
/// space.
pub open spec fn values_text(items: Seq<Value>, n: nat) -> Seq<char>
    decreases items, n,
{
    if n == 0 || n > items.len() {
        Seq::empty()
    } else {
        values_text(items, (n - 1) as nat) + value_text(items[n - 1]) + " "@
    }
}

/// The description of what a name is bound to: of a function its
/// parameters between parentheses and its body where that is one
/// expression, and `<...>` for any other body.
pub open spec fn binding_text(b: Binding) -> Seq<char> {
    match b {
        Binding::Function { params, block } => {
            let body = if block.len() == 1 {
                expr_text(block[0])
            } else {
                "<...>"@
            };
            "( "@ + spaced(params, params.len()) + "):"@ + body
        },
        Binding::Value(v) => value_text(v),
    }
}

/// Whether the description of a binding holds no text of the host's.
pub open spec fn binding_describable(b: Binding) -> bool {
    match b {
        Binding::Function { params, block } => block.len() == 1 ==> literal_free(block[0]),
        Binding::Value(v) => describable(v),
    }
}

/// The descriptions of the first `n` entries of a frame: each after a
/// space, as the name, a colon and what the name is bound to.
pub open spec fn bindings_text(entries: Seq<(String, FunctionOrValue)>, n: nat) -> Seq<char>
    decreases n,
{
    if n == 0 || n > entries.len() {
        Seq::empty()
    } else {
        bindings_text(entries, (n - 1) as nat) + " "@ + entries[n - 1].0@ + ":"@ + binding_text(
            entries[n - 1].1@,
        )
    }
}

/// Whether the descriptions of the first `n` entries of a frame hold no
/// text of the host's.
pub open spec fn bindings_describable(entries: Seq<(String, FunctionOrValue)>, n: nat) -> bool
    decreases n,
{
    if n == 0 || n > entries.len() {
        true
    } else {
        bindings_describable(entries, (n - 1) as nat) && binding_describable(entries[n - 1].1@)
    }
}

impl Evaluation {
    /// Appends the description of the value to `out`.
    pub fn push_description<H: FloatOps>(&self, host: &H, out: &mut String)
        ensures
            describable(self@) ==> final(out)@ == old(out)@ + value_text(self@),
        decreases self,
    {
        match self {
            Evaluation::Nil => {
                out.append("NIL");
            },
            Evaluation::True => {
                out.append("TRUE");
            },
            Evaluation::False => {
                out.append("FALSE");
            },
            Evaluation::Integer(x) => {
                out.append("INTEGER:");
                let number = integer_text(*x);
                out.append(number.as_str());
                assert(out@ =~= old(out)@ + value_text(self@));
            },
            Evaluation::Float(bits) => {
                out.append("FLOAT:");
                let number = host.format(*bits);
                out.append(number.as_str());
            },
            Evaluation::String(s) => {
                out.append("STRING:");
                out.append(s.as_str());
                assert(out@ =~= old(out)@ + value_text(self@));
            },
            Evaluation::List(list) => {
                let ghost items = values_view(list.items@);
                let ghost clean = describable(self@);
                out.append("LIST:[ ");
                let mut i: usize = 0;
                proof {
                    lemma_values_view(list.items@);
                    assert(out@ =~= old(out)@ + "LIST:[ "@ + values_text(items, 0));
                }
                while i < list.items.len()
                    invariant
                        i <= list.items.len(),
                        items == values_view(list.items@),
                        items.len() == list.items.len(),
                        self@ == Value::List(items),
                        *self == Evaluation::List(*list),
                        clean == describable(self@),
                        clean ==> out@ == old(out)@ + "LIST:[ "@ + values_text(items, i as nat),
                    decreases list.items.len() - i,
                {
                    proof {
                        lemma_values_view(list.items@);
                        if clean {
                            lemma_describable_item(items, items.len(), i as int);
                        }
                    }
                    list.items[i].push_description(host, out);
                    out.append(" ");
                    i += 1;
                    assert(clean ==> out@ =~= old(out)@ + "LIST:[ "@ + values_text(
                        items,
                        i as nat,
                    ));
                }
                out.append("]");
                assert(clean ==> out@ =~= old(out)@ + value_text(self@));
            },
            Evaluation::Exception(e) => {
                out.append("EXCEPTION:[");
                let name = e.flavor.to_string();
                out.append(name.as_str());
                out.append(", ");
                (*e.payload).push_text(host, out);
                out.append(", ");
                push_joined(&e.stack, out);
                out.append("]]");
                assert(describable(self@) ==> out@ =~= old(out)@ + value_text(self@));
            },
            Evaluation::Function(func) => {
                out.append("FUNCTION:");
                push_parameters(&func.params, out);
                push_statements(&func.block.expressions, host, out);
                assert(describable(self@) ==> out@ =~= old(out)@ + value_text(self@));
            },
        }
    }

    /// The description of the value.
    pub fn describe<H: FloatOps>(&self, host: &H) -> (text: String)
        ensures
            describable(self@) ==> text@ == value_text(self@),
    {
        let mut text = String::new();
        self.push_description(host, &mut text);
        assert(describable(self@) ==> text@ =~= value_text(self@));
        text
    }
}

impl Function {
    /// Appends the description of the function as a binding.
    pub fn push_description<H: FloatOps>(&self, host: &H, out: &mut String)
        ensures
            binding_describable(self@) ==> final(out)@ == old(out)@ + binding_text(self@),
    {
        out.append("( ");
        push_spaced(&self.params, out);
        out.append("):");
        proof {
            lemma_exprs_view(self.block.expressions@);
        }
        if self.block.expressions.len() == 1 {
            self.block.expressions[0].push_description(host, out);
        } else {
            out.append("<...>");
        }
        assert(binding_describable(self@) ==> out@ =~= old(out)@ + binding_text(self@));
    }
}

impl FunctionOrValue {
    /// Appends the description of the binding.
    pub fn push_description<H: FloatOps>(&self, host: &H, out: &mut String)
        ensures
            binding_describable(self@) ==> final(out)@ == old(out)@ + binding_text(self@),
    {
        match self {
            FunctionOrValue::Function(func) => func.push_description(host, out),
            FunctionOrValue::Value(value) => value.push_description(host, out),
        }
    }
}

impl Scope {
    /// The description of the frame: its entries in the order in which
    /// they were bound.
    pub fn describe<H: FloatOps>(&self, host: &H) -> (text: String)
        ensures
            bindings_describable(self.bindings@, self.bindings.len() as nat) ==> text@ == "SCOPE:"@
                + bindings_text(self.bindings@, self.bindings.len() as nat),
    {
        let ghost clean = bindings_describable(self.bindings@, self.bindings.len() as nat);
        let mut text = "SCOPE:".to_owned();
        let mut i: usize = 0;
        assert(text@ =~= "SCOPE:"@ + bindings_text(self.bindings@, 0));
        while i < self.bindings.len()
            invariant
                i <= self.bindings.len(),
                clean == bindings_describable(self.bindings@, self.bindings.len() as nat),
                clean ==> bindings_describable(self.bindings@, i as nat),
                clean ==> text@ == "SCOPE:"@ + bindings_text(self.bindings@, i as nat),
            decreases self.bindings.len() - i,
        {
            proof {
                if clean {
                    lemma_bindings_prefix(
                        self.bindings@,
                        self.bindings.len() as nat,
                        (i + 1) as nat,
                    );
                }
            }
            text.append(" ");
            text.append(self.bindings[i].0.as_str());
            text.append(":");
            self.bindings[i].1.push_description(host, &mut text);
            i += 1;
            assert(clean ==> text@ =~= "SCOPE:"@ + bindings_text(self.bindings@, i as nat));
        }
        text
    }
}

/// The first `k` entries of a frame are describable where the first `n`
/// are, for `k` up to `n`.
pub proof fn lemma_bindings_prefix(entries: Seq<(String, FunctionOrValue)>, n: nat, k: nat)
    requires
        bindings_describable(entries, n),
        k <= n <= entries.len(),
    ensures
        bindings_describable(entries, k),
    decreases n,
{
    if k < n {
        lemma_bindings_prefix(entries, (n - 1) as nat, k);
    }
}

} // verus!
