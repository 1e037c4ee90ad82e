//! What the syntax trees and the values do: deep copies, the frames of
//! the scope stack, and evaluation.

use crate::encoding::{lemma_exprs_view, lemma_scopes_view, lemma_values_view};
use crate::encoding::{
    bindings_map, exprs_view, names_view, scopes_view, values_view, Binding, Block, Call,
    Definition, Evaluation, Exception, ExceptionType, Expr, Expression, Function,
    FunctionOrValue, List, ListEval, Scope, Value,
};
use crate::evaluator::{exception, raised};
use crate::floats::FloatOps;
use crate::primitives::{
    arity_error, arity_exception, lemma_primitive_unique, system_functions,
};
use crate::semantics::{
    agrees, bind_args, definition_frames, definition_value, eval_args, eval_block, eval_call,
    eval_expr, eval_list, invoke, run_block, Outcome,
};
use crate::text::{count_text, nat_text, same_text};
use vstd::prelude::*;
use vstd::string::*;

verus! {

/// Copies a vector of names.
pub fn clone_names(names: &Vec<String>) -> (copy: Vec<String>)
    ensures
        names_view(copy@) == names_view(names@),
{
    let mut copy: Vec<String> = Vec::new();
    let mut i: usize = 0;
    while i < names.len()
        invariant
            i <= names.len(),
            copy.len() == i,
            forall|j: int| 0 <= j < i ==> copy[j]@ == names[j]@,
        decreases names.len() - i,
    {
        copy.push(names[i].clone());
        i += 1;
    }
    assert(names_view(copy@) =~= names_view(names@));
    copy
}

fn clone_exprs(exprs: &Vec<Expression>) -> (copy: Vec<Expression>)
    ensures
        exprs_view(copy@) == exprs_view(exprs@),
    decreases exprs,
{
    let mut copy: Vec<Expression> = Vec::new();
    let mut i: usize = 0;
    while i < exprs.len()
        invariant
            i <= exprs.len(),
            copy.len() == i,
            forall|j: int| 0 <= j < i ==> copy[j]@ == exprs[j]@,
        decreases exprs.len() - i,
    {
        copy.push(exprs[i].clone());
        i += 1;
    }
    assert(exprs_view(copy@) =~= exprs_view(exprs@));
    copy
}

impl List {
    pub fn clone(&self) -> (copy: List)
        ensures
            exprs_view(copy.items@) == exprs_view(self.items@),
        decreases self,
    {
        List { items: clone_exprs(&self.items) }
    }
}

impl Call {
    pub fn clone(&self) -> (copy: Call)
        ensures
            Expression::Call(copy)@ == Expression::Call(*self)@,
        decreases self,
    {
        Call { id: self.id.clone(), params: clone_exprs(&self.params) }
    }
}

impl Definition {
    pub fn clone(&self) -> (copy: Definition)
        ensures
            Expression::Definition(copy)@ == Expression::Definition(*self)@,
        decreases self,
    {
        Definition {
            id: self.id.clone(),
            params: clone_names(&self.params),
            block: self.block.clone(),
        }
    }
}

impl Block {
    pub fn clone(&self) -> (copy: Block)
        ensures
            copy@ == self@,
        decreases self,
    {
        Block { expressions: clone_exprs(&self.expressions) }
    }
}

impl Expression {
    pub fn clone(&self) -> (copy: Expression)
        ensures
            copy@ == self@,
        decreases self,
    {
        match self {
            Expression::Nil => Expression::Nil,
            Expression::True => Expression::True,
            Expression::False => Expression::False,
            Expression::Integer(x) => Expression::Integer(*x),
            Expression::Float(x) => Expression::Float(*x),
            Expression::String(s) => Expression::String(s.clone()),
            Expression::List(list) => Expression::List(list.clone()),
            Expression::Call(call) => Expression::Call(call.clone()),
            Expression::Definition(def) => Expression::Definition(def.clone()),
        }
    }
}

fn clone_values(values: &Vec<Evaluation>) -> (copy: Vec<Evaluation>)
    ensures
        values_view(copy@) == values_view(values@),
    decreases values,
{
    let mut copy: Vec<Evaluation> = Vec::new();
    let mut i: usize = 0;
    while i < values.len()
        invariant
            i <= values.len(),
            copy.len() == i,
            forall|j: int| 0 <= j < i ==> copy[j]@ == values[j]@,
        decreases values.len() - i,
    {
        copy.push(values[i].clone());
        i += 1;
    }
    assert(values_view(copy@) =~= values_view(values@));
    copy
}

impl FunctionOrValue {
    pub fn clone(&self) -> (copy: FunctionOrValue)
        ensures
            copy@ == self@,
    {
        match self {
            FunctionOrValue::Function(func) => FunctionOrValue::Function(func.clone()),
            FunctionOrValue::Value(value) => FunctionOrValue::Value(value.clone()),
        }
    }
}

impl Evaluation {
    pub fn clone(&self) -> (copy: Evaluation)
        ensures
            copy@ == self@,
        decreases self,
    {
        match self {
            Evaluation::Nil => Evaluation::Nil,
            Evaluation::True => Evaluation::True,
            Evaluation::False => Evaluation::False,
            Evaluation::Integer(x) => Evaluation::Integer(*x),
            Evaluation::Float(x) => Evaluation::Float(*x),
            Evaluation::String(s) => Evaluation::String(s.clone()),
            Evaluation::List(list) => Evaluation::List(list.clone()),
            Evaluation::Exception(e) => Evaluation::Exception(e.clone()),
            Evaluation::Function(func) => Evaluation::Function(func.clone()),
        }
    }
}

impl ListEval {
    pub fn clone(&self) -> (copy: ListEval)
        ensures
            copy@ == self@,
        decreases self,
    {
        ListEval { items: clone_values(&self.items) }
    }
}

impl Function {
    pub fn clone(&self) -> (copy: Function)
        ensures
            copy@ == self@,
    {
        Function { params: clone_names(&self.params), block: self.block.clone() }
    }
}

impl Exception {
    /// A fresh exception of the given kind around a copy of `payload`,
    /// with an empty trace.
    pub fn new(flavor: &ExceptionType, payload: &Evaluation) -> (e: Exception)
        ensures
            Evaluation::Exception(e)@ == (Value::Exception {
                flavor: *flavor,
                payload: Box::new(payload@),
                stack: Seq::<Seq<char>>::empty(),
            }),
    {
        let e = Exception {
            flavor: flavor.clone(),
            payload: Box::new(payload.clone()),
            stack: Vec::new(),
        };
        assert(names_view(e.stack@) =~= Seq::<Seq<char>>::empty());
        e
    }

    pub fn clone(&self) -> (copy: Exception)
        ensures
            Evaluation::Exception(copy)@ == Evaluation::Exception(*self)@,
        decreases self,
    {
        Exception {
            flavor: self.flavor.clone(),
            payload: Box::new((*self.payload).clone()),
            stack: clone_names(&self.stack),
        }
    }
}

impl ExceptionType {
    pub fn clone(&self) -> (copy: ExceptionType)
        ensures
            copy == *self,
    {
        match self {
            ExceptionType::Return => ExceptionType::Return,
            ExceptionType::Error => ExceptionType::Error,
            ExceptionType::ArityError => ExceptionType::ArityError,
            ExceptionType::ParseError => ExceptionType::ParseError,
            ExceptionType::TypeError => ExceptionType::TypeError,
            ExceptionType::TypeMismatch => ExceptionType::TypeMismatch,
            ExceptionType::DivByZero => ExceptionType::DivByZero,
            ExceptionType::RuntimeError => ExceptionType::RuntimeError,
            ExceptionType::UndefError => ExceptionType::UndefError,
            ExceptionType::RedefError => ExceptionType::RedefError,
        }
    }
}

/// The entry at index `i` is what a list of bindings maps its name to
/// where no later entry has that name.
pub proof fn lemma_binding_found(entries: Seq<(String, FunctionOrValue)>, id: Seq<char>, i: int)
    requires
        0 <= i < entries.len(),
        entries[i].0@ == id,
        forall|j: int| i < j < entries.len() ==> (#[trigger] entries[j]).0@ != id,
    ensures
        bindings_map(entries).contains_key(id),
        bindings_map(entries)[id] == entries[i].1@,
    decreases entries.len(),
{
    if i < entries.len() - 1 {
        lemma_binding_found(entries.drop_last(), id, i);
    }
}

/// A list of bindings maps no name that none of its entries has.
pub proof fn lemma_binding_absent(entries: Seq<(String, FunctionOrValue)>, id: Seq<char>)
    requires
        forall|j: int| 0 <= j < entries.len() ==> (#[trigger] entries[j]).0@ != id,
    ensures
        !bindings_map(entries).contains_key(id),
    decreases entries.len(),
{
    if entries.len() > 0 {
        lemma_binding_absent(entries.drop_last(), id);
    }
}

impl Scope {
    /// A frame without bindings.
    pub fn new() -> (scope: Scope)
        ensures
            scope@ == Map::<Seq<char>, Binding>::empty(),
    {
        Scope { bindings: Vec::new() }
    }

    /// A copy of what the frame binds `id` to, if it binds it.
    pub fn find(&self, id: &str) -> (found: Option<FunctionOrValue>)
        ensures
            found is Some == self@.contains_key(id@),
            found is Some ==> found->0@ == self@[id@],
    {
        let name = id.to_owned();
        let mut i: usize = self.bindings.len();
        while i > 0
            invariant
                i <= self.bindings.len(),
                name@ == id@,
                forall|j: int|
                    i <= j < self.bindings.len() ==> (#[trigger] self.bindings[j]).0@ != id@,
            decreases i,
        {
            i -= 1;
            if self.bindings[i].0 == name {
                proof {
                    lemma_binding_found(self.bindings@, id@, i as int);
                }
                return Some(self.bindings[i].1.clone());
            }
        }
        proof {
            lemma_binding_absent(self.bindings@, id@);
        }
        None
    }

    /// Binds `id` to `value`, in place of what it was bound to.
    pub fn bind(&mut self, id: String, value: FunctionOrValue)
        ensures
            final(self)@ == old(self)@.insert(id@, value@),
    {
        self.bindings.push((id, value));
        assert(self.bindings@.drop_last() =~= old(self).bindings@);
    }
}

/// What a name is bound to in the innermost of the first `n` frames that
/// binds it.
pub open spec fn resolve(frames: Seq<Map<Seq<char>, Binding>>, id: Seq<char>, n: nat) -> Option<
    Binding,
>
    decreases n,
{
    if n == 0 || n > frames.len() {
        None
    } else if frames[n - 1].contains_key(id) {
        Some(frames[n - 1][id])
    } else {
        resolve(frames, id, (n - 1) as nat)
    }
}

/// Searches the scope stack for `id`, from the innermost frame outwards.
pub fn lookup(scope: &Vec<Scope>, id: &str) -> (found: Option<FunctionOrValue>)
    ensures
        found is Some == resolve(scopes_view(scope@), id@, scope.len() as nat) is Some,
        found is Some ==> found->0@ == resolve(scopes_view(scope@), id@, scope.len() as nat)->0,
{
    let ghost frames = scopes_view(scope@);
    let mut x: usize = scope.len();
    while x > 0
        invariant
            x <= scope.len(),
            frames == scopes_view(scope@),
            resolve(frames, id@, scope.len() as nat) == resolve(frames, id@, x as nat),
        decreases x,
    {
        let found = scope[x - 1].find(id);
        if found.is_some() {
            return found;
        }
        x -= 1;
    }
    None
}

/// Whether every binding of `before` is a binding of `after`.
pub open spec fn extends(before: Map<Seq<char>, Binding>, after: Map<Seq<char>, Binding>) -> bool {
    forall|k: Seq<char>| #[trigger]
        before.contains_key(k) ==> after.contains_key(k) && after[k] == before[k]
}

/// Whether a scope stack is what it was but for bindings added to its
/// innermost frame.
pub open spec fn frames_kept(
    before: Seq<Map<Seq<char>, Binding>>,
    after: Seq<Map<Seq<char>, Binding>>,
) -> bool {
    &&& after.len() == before.len()
    &&& forall|i: int| 0 <= i < before.len() - 1 ==> #[trigger] after[i] == before[i]
    &&& before.len() > 0 ==> extends(before.last(), after.last())
}

/// Whether `after` is `before` with lines added at its end.
pub open spec fn grows(before: Seq<Seq<char>>, after: Seq<Seq<char>>) -> bool {
    &&& before.len() <= after.len()
    &&& forall|i: int| 0 <= i < before.len() ==> #[trigger] after[i] == before[i]
}

/// The exception that ends an evaluation which is nested deeper than its
/// limit allows.
pub open spec fn too_deep() -> Value {
    raised(ExceptionType::RuntimeError, "evaluate"@, "nesting limit reached"@)
}

fn nesting_exception() -> (e: Evaluation)
    ensures
        e@ == too_deep(),
{
    exception(
        ExceptionType::RuntimeError,
        &"evaluate".to_owned(),
        "nesting limit reached".to_owned(),
    )
}

/// The exception for a function that was applied with `$` to `got`
/// arguments in place of `count`.
pub open spec fn applied_arity_error(id: Seq<char>, count: nat, got: nat) -> Value {
    raised(
        ExceptionType::ArityError,
        id,
        "called function expected "@ + nat_text(count) + " arguments but got "@ + nat_text(got),
    )
}

fn applied_arity_exception(id: &String, count: usize, got: usize) -> (e: Evaluation)
    ensures
        e@ == applied_arity_error(id@, count as nat, got as nat),
{
    let mut msg = "called function expected ".to_owned();
    let expected = count_text(count);
    msg.append(expected.as_str());
    msg.append(" arguments but got ");
    let given = count_text(got);
    msg.append(given.as_str());
    assert(msg@ =~= "called function expected "@ + nat_text(count as nat)
        + " arguments but got "@ + nat_text(got as nat));
    exception(ExceptionType::ArityError, id, msg)
}

/// What a block makes of an exception that one of its expressions
/// yields: the payload of an early return, and any other exception with
/// the block's calling context added to its trace.
pub open spec fn unwound(
    flavor: ExceptionType,
    payload: Value,
    stack: Seq<Seq<char>>,
    context: Seq<char>,
) -> Value {
    if flavor == ExceptionType::Return {
        payload
    } else {
        Value::Exception { flavor, payload: Box::new(payload), stack: stack.push(context) }
    }
}

impl Exception {
    /// Passes the exception through the boundary of a block that was
    /// called from `context`.
    pub fn unwind(self, context: &String) -> (r: Evaluation)
        ensures
            r@ == unwound(self.flavor, (*self.payload)@, names_view(self.stack@), context@),
    {
        match self.flavor {
            ExceptionType::Return => *self.payload,
            _ => {
                let mut rc = self;
                rc.stack.push(context.clone());
                assert(names_view(rc.stack@) =~= names_view(self.stack@).push(context@));
                Evaluation::Exception(rc)
            },
        }
    }
}

/// Whether `r` and `after` are what evaluating a definition yields and
/// makes of the scope stack `before`.
pub open spec fn definition_result(
    id: Seq<char>,
    params: Seq<Seq<char>>,
    block: Seq<Expr>,
    before: Seq<Map<Seq<char>, Binding>>,
    r: Value,
    after: Seq<Map<Seq<char>, Binding>>,
) -> bool {
    &&& r == definition_value(id, params, block, before)
    &&& after == definition_frames(id, params, block, before)
}

/// The model of a vector of values with one more value.
proof fn lemma_value_pushed(before: Seq<Evaluation>, after: Seq<Evaluation>, v: Evaluation)
    requires
        after == before.push(v),
    ensures
        values_view(after) == values_view(before).push(v@),
{
    lemma_values_view(before);
    lemma_values_view(after);
    assert(values_view(after) =~= values_view(before).push(v@));
}

/// The model of a scope stack with one more frame.
proof fn lemma_scope_pushed(before: Seq<Scope>, after: Seq<Scope>, frame: Scope)
    requires
        after == before.push(frame),
    ensures
        scopes_view(after) == scopes_view(before).push(frame@),
{
    lemma_scopes_view(before);
    lemma_scopes_view(after);
    assert(scopes_view(after) =~= scopes_view(before).push(frame@));
}

/// The model of a scope stack without its innermost frame.
proof fn lemma_scope_popped(before: Seq<Scope>, after: Seq<Scope>)
    requires
        before.len() > 0,
        after == before.drop_last(),
    ensures
        scopes_view(after) == scopes_view(before).drop_last(),
{
    lemma_scopes_view(before);
    lemma_scopes_view(after);
    assert(scopes_view(after) =~= scopes_view(before).drop_last());
}

impl Definition {
    pub fn evaluate(&self, scope: &mut Vec<Scope>) -> (r: Evaluation)
        requires
            old(scope).len() > 0,
        ensures
            definition_result(
                self.id@,
                names_view(self.params@),
                self.block@,
                scopes_view(old(scope)@),
                r@,
                scopes_view(final(scope)@),
            ),
    {
        let ghost before = scopes_view(scope@);
        let last = scope.len() - 1;
        if scope[last].find(self.id.as_str()).is_some() {
            let mut msg = "attempt to redefine ".to_owned();
            msg.append(self.id.as_str());
            return exception(ExceptionType::RedefError, &String::new(), msg);
        }
        let func = Function { params: clone_names(&self.params), block: self.block.clone() };
        if self.id.as_str().unicode_len() > 0 {
            match scope.pop() {
                Some(top) => {
                    let mut top = top;
                    top.bind(self.id.clone(), FunctionOrValue::Function(func.clone()));
                    scope.push(top);
                },
                None => {},
            }
        }
        assert(scopes_view(scope@) =~= definition_frames(
            self.id@,
            names_view(self.params@),
            self.block@,
            before,
        ));
        Evaluation::Function(func)
    }
}

/// Whether a value is an exception.
pub fn is_exception(value: &Evaluation) -> (b: bool)
    ensures
        b == (value@ is Exception),
{
    match value {
        Evaluation::Exception(_) => true,
        _ => false,
    }
}

impl Function {
    /// Calls the function under the name `id` with the arguments of
    /// `args` from index `first` on. Each argument is evaluated in a
    /// block of its own against the caller's scope stack and bound to its
    /// parameter in a new frame, on which the body is then evaluated; an
    /// argument that raises ends the call. The scope stack is afterwards
    /// what it was. With another number of arguments than parameters
    /// nothing is evaluated: the result is the arity exception of a named
    /// call where `first` is 0, and that of an application otherwise.
    /// `depth` bounds how deep the evaluation may nest from here.
    pub fn invoke<H: FloatOps>(
        &self,
        id: &String,
        args: &Vec<Expression>,
        first: usize,
        scope: &mut Vec<Scope>,
        host: &H,
        out: &mut Vec<String>,
        depth: usize,
    ) -> (r: Evaluation)
        requires
            first <= args.len(),
        ensures
            agrees(
                invoke(
                    names_view(self.params@),
                    self.block@,
                    id@,
                    exprs_view(args@),
                    first as nat,
                    scopes_view(old(scope)@),
                    names_view(old(out)@),
                    depth as nat,
                ),
                r@,
                scopes_view(final(scope)@),
                names_view(final(out)@),
            ),
            scopes_view(final(scope)@) == scopes_view(old(scope)@),
            grows(names_view(old(out)@), names_view(final(out)@)),
        decreases depth, 0nat,
    {
        let ghost names = names_view(self.params@);
        let ghost given = exprs_view(args@);
        let ghost total = invoke(
            names,
            self.block@,
            id@,
            given,
            first as nat,
            scopes_view(scope@),
            names_view(out@),
            depth as nat,
        );
        proof {
            lemma_exprs_view(args@);
        }
        if args.len() - first != self.params.len() {
            if first == 0 {
                return arity_exception(id, self.params.len(), args.len());
            } else {
                return applied_arity_exception(id, self.params.len(), args.len() - first);
            }
        }
        if depth == 0 {
            return nesting_exception();
        }
        let mut frame = Scope::new();
        let mut y: usize = first;
        while y < args.len()
            invariant
                first <= y <= args.len(),
                args.len() - first == self.params.len(),
                depth > 0,
                names == names_view(self.params@),
                given == exprs_view(args@),
                scopes_view(scope@) == scopes_view(old(scope)@),
                grows(names_view(old(out)@), names_view(out@)),
                total == invoke(
                    names,
                    self.block@,
                    id@,
                    given,
                    first as nat,
                    scopes_view(old(scope)@),
                    names_view(old(out)@),
                    depth as nat,
                ),
                total is Some ==> total == bind_args(
                    names,
                    self.block@,
                    id@,
                    given,
                    first as nat,
                    y as nat,
                    frame@,
                    scopes_view(scope@),
                    names_view(out@),
                    depth as nat,
                ),
            decreases args.len() - y,
        {
            let mut block = Block { expressions: Vec::new() };
            block.expressions.push(args[y].clone());
            proof {
                lemma_exprs_view(args@);
                lemma_exprs_view(block.expressions@);
                assert(block@ =~= seq![given[y as int]]);
            }
            let ghost frames = scopes_view(scope@);
            let ghost lines = names_view(out@);
            let eval = block.evaluate(scope, id, host, out, depth - 1);
            proof {
                if total is Some {
                    let step = eval_block(
                        seq![given[y as int]],
                        id@,
                        frames,
                        lines,
                        (depth - 1) as nat,
                    );
                    assert(total == bind_args(
                        names,
                        self.block@,
                        id@,
                        given,
                        first as nat,
                        y as nat,
                        frame@,
                        frames,
                        lines,
                        depth as nat,
                    ));
                    assert(step is Some);
                }
            }
            if is_exception(&eval) {
                return eval;
            }
            frame.bind(self.params[y - first].clone(), FunctionOrValue::Value(eval));
            y += 1;
        }
        let ghost before = scope@;
        let ghost bound = frame;
        scope.push(frame);
        proof {
            lemma_scope_pushed(before, scope@, bound);
        }
        let ghost pushed = scope@;
        let rc = self.block.evaluate(scope, id, host, out, depth - 1);
        let ghost kept = scope@;
        scope.pop();
        proof {
            lemma_scope_popped(kept, scope@);
            lemma_scopes_view(before);
            lemma_scopes_view(pushed);
            lemma_scopes_view(kept);
            lemma_scopes_view(scope@);
            assert forall|j: int| 0 <= j < before.len() implies scopes_view(scope@)[j]
                == scopes_view(before)[j] by {
                assert(scopes_view(kept)[j] == kept[j]@);
                assert(scopes_view(pushed)[j] == pushed[j]@);
            }
            assert(scopes_view(scope@) =~= scopes_view(before));
        }
        rc
    }
}

impl Block {
    /// Evaluates the expressions of the block in turn on a fresh frame,
    /// which is gone afterwards, and yields the value of the last one, or
    /// nil for an empty block. An exception ends the block: an early
    /// return yields its payload, and any other exception goes on with
    /// `context` added to its trace.
    pub fn evaluate<H: FloatOps>(
        &self,
        scope: &mut Vec<Scope>,
        context: &String,
        host: &H,
        out: &mut Vec<String>,
        depth: usize,
    ) -> (r: Evaluation)
        ensures
            agrees(
                eval_block(
                    self@,
                    context@,
                    scopes_view(old(scope)@),
                    names_view(old(out)@),
                    depth as nat,
                ),
                r@,
                scopes_view(final(scope)@),
                names_view(final(out)@),
            ),
            scopes_view(final(scope)@) == scopes_view(old(scope)@),
            grows(names_view(old(out)@), names_view(final(out)@)),
        decreases depth, 0nat,
    {
        if depth == 0 {
            return nesting_exception();
        }
        let ghost before = scopes_view(scope@);
        let ghost start = scope@;
        let ghost total = eval_block(self@, context@, before, names_view(out@), depth as nat);
        let fresh = Scope::new();
        let ghost empty = fresh;
        scope.push(fresh);
        proof {
            lemma_scope_pushed(start, scope@, empty);
            lemma_scopes_view(start);
            lemma_scopes_view(scope@);
            lemma_exprs_view(self.expressions@);
            assert(scopes_view(scope@).drop_last() =~= before);
        }
        let mut value = Evaluation::Nil;
        let mut i: usize = 0;
        while i < self.expressions.len()
            invariant
                i <= self.expressions.len(),
                depth > 0,
                before == scopes_view(old(scope)@),
                scopes_view(scope@).len() == before.len() + 1,
                scopes_view(scope@).drop_last() == before,
                scope@.len() > 0,
                total == eval_block(
                    self@,
                    context@,
                    scopes_view(old(scope)@),
                    names_view(old(out)@),
                    depth as nat,
                ),
                total is Some ==> total == run_block(
                    self@,
                    i as nat,
                    value@,
                    context@,
                    scopes_view(scope@),
                    names_view(out@),
                    depth as nat,
                ),
                grows(names_view(old(out)@), names_view(out@)),
            decreases self.expressions.len() - i,
        {
            let ghost frames = scopes_view(scope@);
            let ghost lines = names_view(out@);
            proof {
                lemma_exprs_view(self.expressions@);
            }
            let ev = self.expressions[i].evaluate(scope, host, out, depth - 1);
            proof {
                lemma_scopes_view(scope@);
                assert(scopes_view(scope@).drop_last() =~= frames.drop_last());
                if total is Some {
                    let step = eval_expr(self@[i as int], frames, lines, (depth - 1) as nat);
                    assert(total == run_block(
                        self@,
                        i as nat,
                        value@,
                        context@,
                        frames,
                        lines,
                        depth as nat,
                    ));
                    assert(step is Some);
                }
            }
            match ev {
                Evaluation::Exception(ex) => {
                    let ghost kept = scope@;
                    scope.pop();
                    proof {
                        lemma_scope_popped(kept, scope@);
                        lemma_scopes_view(kept);
                        lemma_scopes_view(scope@);
                        assert(scopes_view(scope@) =~= before);
                    }
                    return ex.unwind(context);
                },
                other => {
                    value = other;
                },
            }
            i += 1;
        }
        let ghost kept = scope@;
        scope.pop();
        proof {
            lemma_scope_popped(kept, scope@);
            lemma_scopes_view(kept);
            lemma_scopes_view(scope@);
            assert(scopes_view(scope@) =~= before);
        }
        value
    }
}

impl List {
    /// Evaluates the items from left to right. The first exception ends
    /// the evaluation and is the result; else the result is the list of
    /// the values.
    pub fn evaluate<H: FloatOps>(
        &self,
        scope: &mut Vec<Scope>,
        host: &H,
        out: &mut Vec<String>,
        depth: usize,
    ) -> (r: Evaluation)
        requires
            old(scope).len() > 0,
        ensures
            agrees(
                eval_list(
                    exprs_view(self.items@),
                    0,
                    Seq::empty(),
                    scopes_view(old(scope)@),
                    names_view(old(out)@),
                    depth as nat,
                ),
                r@,
                scopes_view(final(scope)@),
                names_view(final(out)@),
            ),
            frames_kept(scopes_view(old(scope)@), scopes_view(final(scope)@)),
            grows(names_view(old(out)@), names_view(final(out)@)),
            r@ is Exception || (r@ is List && r@->List_0.len() == self.items.len()),
        decreases depth, 0nat,
    {
        if depth == 0 {
            return nesting_exception();
        }
        let ghost items = exprs_view(self.items@);
        let ghost total = eval_list(
            items,
            0,
            Seq::empty(),
            scopes_view(scope@),
            names_view(out@),
            depth as nat,
        );
        let mut list = ListEval { items: Vec::new() };
        let mut i: usize = 0;
        proof {
            lemma_exprs_view(self.items@);
            assert(values_view(list.items@) =~= Seq::<Value>::empty());
        }
        while i < self.items.len()
            invariant
                i <= self.items.len(),
                depth > 0,
                scope.len() > 0,
                list.items.len() == i,
                items == exprs_view(self.items@),
                items.len() == self.items.len(),
                total == eval_list(
                    items,
                    0,
                    Seq::empty(),
                    scopes_view(old(scope)@),
                    names_view(old(out)@),
                    depth as nat,
                ),
                total is Some ==> total == eval_list(
                    items,
                    i as nat,
                    values_view(list.items@),
                    scopes_view(scope@),
                    names_view(out@),
                    depth as nat,
                ),
                frames_kept(scopes_view(old(scope)@), scopes_view(scope@)),
                grows(names_view(old(out)@), names_view(out@)),
            decreases self.items.len() - i,
        {
            proof {
                lemma_exprs_view(self.items@);
            }
            let ghost frames = scopes_view(scope@);
            let ghost lines = names_view(out@);
            let value = self.items[i].evaluate(scope, host, out, depth - 1);
            proof {
                if total is Some {
                    let step = eval_expr(items[i as int], frames, lines, (depth - 1) as nat);
                    assert(total == eval_list(
                        items,
                        i as nat,
                        values_view(list.items@),
                        frames,
                        lines,
                        depth as nat,
                    ));
                    assert(step is Some);
                }
            }
            if is_exception(&value) {
                return value;
            }
            let ghost before = list.items@;
            let ghost pushed = value;
            list.items.push(value);
            proof {
                lemma_value_pushed(before, list.items@, pushed);
            }
            i += 1;
        }
        proof {
            lemma_values_view(list.items@);
        }
        Evaluation::List(list)
    }
}

impl Call {
    /// Evaluates a call. A name that the scope stack binds to a function
    /// calls it; one bound to a value yields the value. Of the names that
    /// nothing binds, `$` applies its first argument, which must be a
    /// function, to the others, and any other name is a primitive, called
    /// on the values of the arguments: the first argument that raises
    /// ends the call, unless the primitive is `catch`.
    pub fn evaluate<H: FloatOps>(
        &self,
        scope: &mut Vec<Scope>,
        host: &H,
        out: &mut Vec<String>,
        depth: usize,
    ) -> (r: Evaluation)
        requires
            old(scope).len() > 0,
        ensures
            agrees(
                eval_call(
                    self.id@,
                    exprs_view(self.params@),
                    scopes_view(old(scope)@),
                    names_view(old(out)@),
                    depth as nat,
                ),
                r@,
                scopes_view(final(scope)@),
                names_view(final(out)@),
            ),
            frames_kept(scopes_view(old(scope)@), scopes_view(final(scope)@)),
            grows(names_view(old(out)@), names_view(final(out)@)),
        decreases depth, 0nat,
    {
        if depth == 0 {
            return nesting_exception();
        }
        let ghost given = exprs_view(self.params@);
        let ghost total = eval_call(
            self.id@,
            given,
            scopes_view(scope@),
            names_view(out@),
            depth as nat,
        );
        proof {
            lemma_scopes_view(scope@);
            lemma_exprs_view(self.params@);
        }
        match lookup(scope, self.id.as_str()) {
            Some(FunctionOrValue::Function(func)) => {
                func.invoke(&self.id, &self.params, 0, scope, host, out, depth - 1)
            },
            Some(FunctionOrValue::Value(value)) => value,
            None => {
                if same_text(self.id.as_str(), "$") {
                    if self.params.len() < 1 {
                        return exception(
                            ExceptionType::ArityError,
                            &self.id,
                            "expected at least 1 argument but got 0".to_owned(),
                        );
                    }
                    let eval = self.params[0].evaluate(scope, host, out, depth - 1);
                    match eval {
                        Evaluation::Function(func) => {
                            func.invoke(&self.id, &self.params, 1, scope, host, out, depth - 1)
                        },
                        Evaluation::Exception(e) => Evaluation::Exception(e),
                        _ => exception(
                            ExceptionType::TypeError,
                            &self.id,
                            "function expected as first argument".to_owned(),
                        ),
                    }
                } else {
                    let keep = same_text(self.id.as_str(), "catch");
                    let mut params: Vec<Evaluation> = Vec::new();
                    let mut i: usize = 0;
                    assert(values_view(params@) =~= Seq::<Value>::empty());
                    while i < self.params.len()
                        invariant
                            i <= self.params.len(),
                            depth > 0,
                            scope.len() > 0,
                            keep == (self.id@ == "catch"@),
                            given == exprs_view(self.params@),
                            given.len() == self.params.len(),
                            total == eval_call(
                                self.id@,
                                given,
                                scopes_view(old(scope)@),
                                names_view(old(out)@),
                                depth as nat,
                            ),
                            total is Some ==> total == eval_args(
                                self.id@,
                                given,
                                i as nat,
                                values_view(params@),
                                scopes_view(scope@),
                                names_view(out@),
                                depth as nat,
                            ),
                            self.id@ != "$"@,
                            resolve(
                                scopes_view(old(scope)@),
                                self.id@,
                                scopes_view(old(scope)@).len(),
                            ) is None,
                            frames_kept(scopes_view(old(scope)@), scopes_view(scope@)),
                            grows(names_view(old(out)@), names_view(out@)),
                        decreases self.params.len() - i,
                    {
                        proof {
                            lemma_exprs_view(self.params@);
                        }
                        let ghost frames = scopes_view(scope@);
                        let ghost lines = names_view(out@);
                        let eval = self.params[i].evaluate(scope, host, out, depth - 1);
                        proof {
                            if total is Some {
                                let step = eval_expr(
                                    given[i as int],
                                    frames,
                                    lines,
                                    (depth - 1) as nat,
                                );
                                assert(total == eval_args(
                                    self.id@,
                                    given,
                                    i as nat,
                                    values_view(params@),
                                    frames,
                                    lines,
                                    depth as nat,
                                ));
                                assert(step is Some);
                            }
                        }
                        if !keep && is_exception(&eval) {
                            return eval;
                        }
                        let ghost before = params@;
                        let ghost pushed = eval;
                        params.push(eval);
                        proof {
                            lemma_value_pushed(before, params@, pushed);
                        }
                        i += 1;
                    }
                    let ghost values = values_view(params@);
                    let r = system_functions(host, out, self.id.clone(), params);
                    proof {
                        if total is Some {
                            lemma_primitive_unique(self.id@, values, r@, r@);
                        }
                    }
                    r
                }
            },
        }
    }
}

impl Expression {
    /// Evaluates the expression against the scope stack. A literal yields
    /// itself; a definition binds its name in the innermost frame.
    pub fn evaluate<H: FloatOps>(
        &self,
        scope: &mut Vec<Scope>,
        host: &H,
        out: &mut Vec<String>,
        depth: usize,
    ) -> (r: Evaluation)
        requires
            old(scope).len() > 0,
        ensures
            agrees(
                eval_expr(
                    self@,
                    scopes_view(old(scope)@),
                    names_view(old(out)@),
                    depth as nat,
                ),
                r@,
                scopes_view(final(scope)@),
                names_view(final(out)@),
            ),
            frames_kept(scopes_view(old(scope)@), scopes_view(final(scope)@)),
            grows(names_view(old(out)@), names_view(final(out)@)),
        decreases depth, 1nat,
    {
        match self {
            Expression::Nil => Evaluation::Nil,
            Expression::True => Evaluation::True,
            Expression::False => Evaluation::False,
            Expression::Integer(x) => Evaluation::Integer(*x),
            Expression::Float(x) => Evaluation::Float(*x),
            Expression::String(s) => Evaluation::String(s.clone()),
            Expression::List(list) => list.evaluate(scope, host, out, depth),
            Expression::Call(call) => {
                proof {
                    lemma_exprs_view(call.params@);
                }
                call.evaluate(scope, host, out, depth)
            },
            Expression::Definition(def) => def.evaluate(scope),
        }
    }
}

/// Defining a name that the innermost frame binds already fails with a
/// redefinition exception and changes nothing. Defining a name that the
/// innermost frame does not bind succeeds, whatever the enclosing frames
/// bind: the result is the function, and where the name is not empty the
/// name resolves to that function afterwards.
pub proof fn lemma_redefinition(
    id: Seq<char>,
    params: Seq<Seq<char>>,
    block: Seq<Expr>,
    frames: Seq<Map<Seq<char>, Binding>>,
    out: Seq<Seq<char>>,
    depth: nat,
)
    requires
        frames.len() > 0,
    ensures
        eval_expr(Expr::Definition { id, params, block }, frames, out, depth) is Some,
        ({
            let o = eval_expr(Expr::Definition { id, params, block }, frames, out, depth)->0;
            &&& o.out == out
            &&& frames_kept(frames, o.frames)
            &&& frames.last().contains_key(id) ==> o.value is Exception
                && o.value->Exception_flavor == ExceptionType::RedefError && o.frames == frames
            &&& !frames.last().contains_key(id) ==> o.value == (Value::Function { params, block })
            &&& !frames.last().contains_key(id) && id.len() > 0 ==> resolve(
                o.frames,
                id,
                o.frames.len(),
            ) == Some(Binding::Function { params, block })
        }),
{
    assert(frames.drop_last().push(frames.last()) =~= frames);
}

/// A call of a name that the scope stack binds to a function fails with
/// an arity exception where the call has another number of arguments
/// than the function has parameters. The exception reports the number of
/// parameters and the number of arguments, and nothing is evaluated.
pub proof fn lemma_arity_of_named_call(
    id: Seq<char>,
    args: Seq<Expr>,
    names: Seq<Seq<char>>,
    block: Seq<Expr>,
    frames: Seq<Map<Seq<char>, Binding>>,
    out: Seq<Seq<char>>,
    depth: nat,
)
    requires
        depth > 0,
        resolve(frames, id, frames.len()) == Some(Binding::Function { params: names, block }),
        names.len() != args.len(),
    ensures
        eval_call(id, args, frames, out, depth) == Some(
            Outcome { value: arity_error(id, names.len(), args.len()), frames, out },
        ),
        arity_error(id, names.len(), args.len()) is Exception,
        arity_error(id, names.len(), args.len())->Exception_flavor == ExceptionType::ArityError,
{
}

/// An application with `$` of a function to another number of arguments
/// than it has parameters fails with an arity exception that reports both
/// numbers. The function is the value of the first argument, and the body
/// is not evaluated.
pub proof fn lemma_arity_of_application(
    args: Seq<Expr>,
    names: Seq<Seq<char>>,
    block: Seq<Expr>,
    frames: Seq<Map<Seq<char>, Binding>>,
    out: Seq<Seq<char>>,
    depth: nat,
)
    requires
        depth > 0,
        resolve(frames, "$"@, frames.len()) is None,
        args.len() >= 1,
        eval_expr(args[0], frames, out, (depth - 1) as nat) is Some,
        eval_expr(args[0], frames, out, (depth - 1) as nat)->0.value == (Value::Function {
            params: names,
            block,
        }),
        names.len() != args.len() - 1,
    ensures
        eval_call("$"@, args, frames, out, depth) == Some(
            Outcome {
                value: applied_arity_error("$"@, names.len(), (args.len() - 1) as nat),
                frames: eval_expr(args[0], frames, out, (depth - 1) as nat)->0.frames,
                out: eval_expr(args[0], frames, out, (depth - 1) as nat)->0.out,
            },
        ),
        applied_arity_error("$"@, names.len(), (args.len() - 1) as nat)->Exception_flavor
            == ExceptionType::ArityError,
{
}

} // verus!
