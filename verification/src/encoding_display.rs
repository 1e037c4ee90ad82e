//! The text of values, of exception kinds, and the report of an uncaught
//! exception.

use crate::encoding::{Evaluation, Exception, ExceptionType, Value};
use crate::encoding::{lemma_values_view, names_view, values_view};
use crate::floats::FloatOps;
use crate::text::{int_text, integer_text, nat_text, push_decimal};
use vstd::prelude::*;
use vstd::string::*;

verus! {

/// The lower-case name of an exception kind.
pub open spec fn flavor_name(flavor: ExceptionType) -> Seq<char> {
    match flavor {
        ExceptionType::Return => "return"@,
        ExceptionType::Error => "error"@,
        ExceptionType::ArityError => "arity error"@,
        ExceptionType::ParseError => "parse error"@,
        ExceptionType::TypeError => "type error"@,
        ExceptionType::TypeMismatch => "type mismatch"@,
        ExceptionType::DivByZero => "division by zero"@,
        ExceptionType::RuntimeError => "runtime error"@,
        ExceptionType::UndefError => "undefined function"@,
        ExceptionType::RedefError => "redefinition error"@,
    }
}

/// The name of an exception kind in capitals.
pub open spec fn flavor_title(flavor: ExceptionType) -> Seq<char> {
    match flavor {
        ExceptionType::Return => "RETURN"@,
        ExceptionType::Error => "ERROR"@,
        ExceptionType::ArityError => "ARITY ERROR"@,
        ExceptionType::ParseError => "PARSE ERROR"@,
        ExceptionType::TypeError => "TYPE ERROR"@,
        ExceptionType::TypeMismatch => "TYPE MISMATCH"@,
        ExceptionType::DivByZero => "DIVISION BY ZERO"@,
        ExceptionType::RuntimeError => "RUNTIME ERROR"@,
        ExceptionType::UndefError => "UNDEFINED FUNCTION"@,
        ExceptionType::RedefError => "REDEFINITION ERROR"@,
    }
}

/// The first `n` of `names`, separated by a comma and a space.
pub open spec fn joined(names: Seq<Seq<char>>, n: nat) -> Seq<char>
    decreases n,
{
    if n == 0 || n > names.len() {
        Seq::empty()
    } else if n == 1 {
        names[0]
    } else {
        joined(names, (n - 1) as nat) + ", "@ + names[n - 1]
    }
}

/// Whether no floating-point number occurs in a value.
pub open spec fn float_free(v: Value) -> bool
    decreases v, 0nat,
{
    match v {
        Value::Float(_) => false,
        Value::List(items) => float_free_items(items, items.len()),
        Value::Exception { flavor, payload, stack } => float_free(*payload),
        _ => true,
    }
}

/// Whether no floating-point number occurs in the first `n` of `items`.
pub open spec fn float_free_items(items: Seq<Value>, n: nat) -> bool
    decreases items, n,
{
    if n == 0 || n > items.len() {
        true
    } else {
        float_free_items(items, (n - 1) as nat) && float_free(items[n - 1])
    }
}

/// Each of the first `n` items is free of floating-point numbers where
/// the first `n` together are.
pub proof fn lemma_float_free_item(items: Seq<Value>, n: nat, i: int)
    requires
        float_free_items(items, n),
        n <= items.len(),
        0 <= i < n,
    ensures
        float_free(items[i]),
    decreases n,
{
    if i < n - 1 {
        lemma_float_free_item(items, (n - 1) as nat, i);
    }
}

/// The text of a value in which no floating-point number occurs. The text
/// of a floating-point number is the host's, and stands here as nothing.
pub open spec fn render(v: Value) -> Seq<char>
    decreases v, 0nat,
{
    match v {
        Value::Nil => "nil"@,
        Value::True => "true"@,
        Value::False => "false"@,
        Value::Integer(x) => int_text(x as int),
        Value::Float(_) => Seq::empty(),
        Value::String(s) => "\""@ + s + "\""@,
        Value::List(items) => "["@ + render_items(items, items.len()) + "]"@,
        Value::Exception { flavor, payload, stack } => "["@ + flavor_name(flavor) + ", "@ + render(
            *payload,
        ) + ", "@ + joined(stack, stack.len()) + "]]"@,
        Value::Function { params, block } => if params.len() > 0 {
            "("@ + joined(params, params.len()) + "):<...>"@
        } else {
            ":<...>"@
        },
    }
}

/// The texts of the first `n` of `items`, separated by a comma and a space.
pub open spec fn render_items(items: Seq<Value>, n: nat) -> Seq<char>
    decreases items, n,
{
    if n == 0 || n > items.len() {
        Seq::empty()
    } else if n == 1 {
        render(items[0])
    } else {
        render_items(items, (n - 1) as nat) + ", "@ + render(items[n - 1])
    }
}

/// The report of an uncaught exception, given the text of its payload:
/// the kind in capitals, the payload, and the trace, one line for each
/// calling context, numbered down to 0.
pub open spec fn report_text(
    flavor: ExceptionType,
    payload: Seq<char>,
    stack: Seq<Seq<char>>,
) -> Seq<char> {
    "\nRUNTIME EXCEPTION: "@ + flavor_title(flavor) + "\n"@ + payload + ":\n\n  calling context:\n"@
        + trace_lines(stack, stack.len())
}

/// The first `n` lines of the trace of a report.
pub open spec fn trace_lines(stack: Seq<Seq<char>>, n: nat) -> Seq<char>
    decreases n,
{
    if n == 0 || n > stack.len() {
        Seq::empty()
    } else {
        trace_lines(stack, (n - 1) as nat) + "   -- called from function "@ + nat_text(
            (stack.len() - n) as nat,
        ) + ": "@ + stack[n - 1] + "\n"@
    }
}

/// Appends the names, separated by a comma and a space.
pub fn push_joined(names: &Vec<String>, out: &mut String)
    ensures
        final(out)@ == old(out)@ + joined(names_view(names@), names.len() as nat),
{
    let ghost view = names_view(names@);
    let mut i: usize = 0;
    while i < names.len()
        invariant
            i <= names.len(),
            view == names_view(names@),
            out@ == old(out)@ + joined(view, i as nat),
        decreases names.len() - i,
    {
        if i > 0 {
            out.append(", ");
        }
        out.append(names[i].as_str());
        i += 1;
        assert(out@ =~= old(out)@ + joined(view, i as nat));
    }
}

impl ExceptionType {
    /// The lower-case name of the kind.
    pub fn to_string(&self) -> (name: String)
        ensures
            name@ == flavor_name(*self),
    {
        match self {
            ExceptionType::Return => "return".to_owned(),
            ExceptionType::Error => "error".to_owned(),
            ExceptionType::ArityError => "arity error".to_owned(),
            ExceptionType::ParseError => "parse error".to_owned(),
            ExceptionType::TypeError => "type error".to_owned(),
            ExceptionType::TypeMismatch => "type mismatch".to_owned(),
            ExceptionType::DivByZero => "division by zero".to_owned(),
            ExceptionType::RuntimeError => "runtime error".to_owned(),
            ExceptionType::UndefError => "undefined function".to_owned(),
            ExceptionType::RedefError => "redefinition error".to_owned(),
        }
    }

    /// The name of the kind in capitals, as a report shows it.
    pub fn title(&self) -> (name: String)
        ensures
            name@ == flavor_title(*self),
    {
        match self {
            ExceptionType::Return => "RETURN".to_owned(),
            ExceptionType::Error => "ERROR".to_owned(),
            ExceptionType::ArityError => "ARITY ERROR".to_owned(),
            ExceptionType::ParseError => "PARSE ERROR".to_owned(),
            ExceptionType::TypeError => "TYPE ERROR".to_owned(),
            ExceptionType::TypeMismatch => "TYPE MISMATCH".to_owned(),
            ExceptionType::DivByZero => "DIVISION BY ZERO".to_owned(),
            ExceptionType::RuntimeError => "RUNTIME ERROR".to_owned(),
            ExceptionType::UndefError => "UNDEFINED FUNCTION".to_owned(),
            ExceptionType::RedefError => "REDEFINITION ERROR".to_owned(),
        }
    }
}

impl Evaluation {
    /// Appends the text of the value to `out`. Where a floating-point
    /// number occurs in the value, its text is what the host gives.
    pub fn push_text<H: FloatOps>(&self, host: &H, out: &mut String)
        ensures
            float_free(self@) ==> final(out)@ == old(out)@ + render(self@),
        decreases self,
    {
        match self {
            Evaluation::Nil => {
                out.append("nil");
            },
            Evaluation::True => {
                out.append("true");
            },
            Evaluation::False => {
                out.append("false");
            },
            Evaluation::Integer(x) => {
                let text = integer_text(*x);
                out.append(text.as_str());
            },
            Evaluation::Float(bits) => {
                let text = host.format(*bits);
                out.append(text.as_str());
            },
            Evaluation::String(s) => {
                out.append("\"");
                out.append(s.as_str());
                out.append("\"");
                assert(out@ =~= old(out)@ + render(self@));
            },
            Evaluation::List(list) => {
                let ghost items = values_view(list.items@);
                out.append("[");
                let mut i: usize = 0;
                while i < list.items.len()
                    invariant
                        i <= list.items.len(),
                        items == values_view(list.items@),
                        self@ == Value::List(items),
                        *self == Evaluation::List(*list),
                        float_free(self@) ==> out@ == old(out)@ + "["@ + render_items(
                            items,
                            i as nat,
                        ),
                    decreases list.items.len() - i,
                {
                    if i > 0 {
                        out.append(", ");
                    }
                    let ghost mid = out@;
                    proof {
                        lemma_values_view(list.items@);
                    }
                    list.items[i].push_text(host, out);
                    proof {
                        if float_free(self@) {
                            lemma_float_free_item(items, items.len(), i as int);
                            assert(out@ == mid + render(items[i as int]));
                            assert(out@ =~= old(out)@ + "["@ + render_items(
                                items,
                                (i + 1) as nat,
                            ));
                        }
                    }
                    i += 1;
                }
                out.append("]");
                assert(float_free(self@) ==> out@ =~= old(out)@ + render(self@));
            },
            Evaluation::Exception(e) => {
                out.append("[");
                let name = e.flavor.to_string();
                out.append(name.as_str());
                out.append(", ");
                (*e.payload).push_text(host, out);
                out.append(", ");
                push_joined(&e.stack, out);
                out.append("]]");
                assert(float_free(self@) ==> out@ =~= old(out)@ + render(self@));
            },
            Evaluation::Function(func) => {
                if func.params.len() > 0 {
                    out.append("(");
                    push_joined(&func.params, out);
                    out.append("):<...>");
                } else {
                    out.append(":<...>");
                }
                assert(out@ =~= old(out)@ + render(self@));
            },
        }
    }

    /// The text of the value.
    pub fn to_string<H: FloatOps>(&self, host: &H) -> (text: String)
        ensures
            float_free(self@) ==> text@ == render(self@),
    {
        let mut text = String::new();
        self.push_text(host, &mut text);
        assert(float_free(self@) ==> text@ =~= render(self@));
        text
    }
}

impl Exception {
    /// The report of the exception when nothing caught it.
    pub fn to_string<H: FloatOps>(&self, host: &H) -> (text: String)
        ensures
            float_free((*self.payload)@) ==> text@ == report_text(
                self.flavor,
                render((*self.payload)@),
                names_view(self.stack@),
            ),
    {
        let mut text = "\nRUNTIME EXCEPTION: ".to_owned();
        let title = self.flavor.title();
        text.append(title.as_str());
        text.append("\n");
        (*self.payload).push_text(host, &mut text);
        text.append(":\n\n  calling context:\n");
        let ghost head = text@;
        let ghost stack = names_view(self.stack@);
        let mut i: usize = 0;
        while i < self.stack.len()
            invariant
                i <= self.stack.len(),
                stack == names_view(self.stack@),
                text@ == head + trace_lines(stack, i as nat),
            decreases self.stack.len() - i,
        {
            text.append("   -- called from function ");
            push_decimal((self.stack.len() - 1 - i) as u64, &mut text);
            text.append(": ");
            text.append(self.stack[i].as_str());
            text.append("\n");
            i += 1;
            assert(text@ =~= head + trace_lines(stack, i as nat));
        }
        assert(float_free((*self.payload)@) ==> text@ =~= report_text(
            self.flavor,
            render((*self.payload)@),
            stack,
        ));
        text
    }
}

} // verus!
