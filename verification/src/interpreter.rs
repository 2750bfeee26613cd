//! The tree-walking interpreter.
//!
//! What a program computes is defined by the specification functions of this
//! module, [`eval`] and its companions, over the model of the syntax tree and
//! a [`State`] of variables and functions. The executable [`Interpreter`]
//! computes exactly that.
//!
//! Evaluation is bounded by a budget: every nested step of evaluation takes
//! one unit from the budget of the step around it, and a step that finds
//! none left stops with [`RuntimeError::StepLimitExceeded`]. Loops that do
//! not end and recursion without a base case therefore stop too. The budget
//! decides nothing else: by [`lemma_budget_suffices`] an evaluation that ends
//! in any other way ends in the same way with every larger budget.
//!
//! Integers are computed here. Floating-point values are not: the
//! interpreter takes every floating-point result from a
//! [`FloatLedger`](crate::float::FloatLedger) and stops with
//! [`Interrupt::NeedsFloat`] where the ledger lacks one. By
//! [`lemma_facts_suffice`] a result that was reached is not changed by what
//! is recorded later.
//!
//! An evaluation that stops, for whatever reason, leaves the interpreter as
//! it was before.

use crate::ast::{clone_names, clone_nodes, view_nodes, ASTNode, Ast};
use crate::bindings::NameMap;
use crate::float::{
    arithmetic_op, comparison_op, read_arithmetic_op, read_comparison_op, ArithmeticOp,
    ComparisonOp, FloatFacts, FloatLedger, FloatRequest, FloatRequestView,
};
use vstd::prelude::*;

verus! {

/// A runtime value.
#[derive(Debug, PartialEq)]
pub enum Value {
    Int(i64),
    /// A floating-point value, as the bits of its IEEE-754 encoding.
    Float(u64),
    Bool(bool),
    String(String),
    /// The value of a statement.
    Void,
    /// What `ret` yields: the value on its way up to the call it returns from.
    Return(Box<Value>),
}

/// The mathematical model of a [`Value`].
pub enum ValueView {
    Int(i64),
    Float(u64),
    Bool(bool),
    String(Seq<char>),
    Void,
    Return(Box<ValueView>),
}

/// The model of `value`.
pub open spec fn value_view(value: Value) -> ValueView
    decreases value,
{
    match value {
        Value::Int(n) => ValueView::Int(n),
        Value::Float(bits) => ValueView::Float(bits),
        Value::Bool(b) => ValueView::Bool(b),
        Value::String(text) => ValueView::String(text@),
        Value::Void => ValueView::Void,
        Value::Return(inner) => ValueView::Return(Box::new(value_view(*inner))),
    }
}

impl View for Value {
    type V = ValueView;

    open spec fn view(&self) -> ValueView {
        value_view(*self)
    }
}

impl Clone for Value {
    fn clone(&self) -> (r: Self)
        ensures
            r@ == self@,
        decreases self,
    {
        match self {
            Value::Int(n) => Value::Int(*n),
            Value::Float(bits) => Value::Float(*bits),
            Value::Bool(b) => Value::Bool(*b),
            Value::String(text) => Value::String(text.clone()),
            Value::Void => Value::Void,
            Value::Return(inner) => Value::Return(Box::new((&**inner).clone())),
        }
    }
}

/// Why evaluation failed.
#[derive(Debug, PartialEq, Eq, Clone, Copy, Structural)]
pub enum RuntimeError {
    /// An identifier names no variable.
    UndefinedVariable,
    /// A call names no function.
    UndefinedFunction,
    /// A call passes another number of arguments than the function has
    /// parameters.
    ArityMismatch,
    /// An operator is applied to operands it is not defined on.
    UnsupportedOperands,
    /// The condition of an `if` or a `while` is not a boolean.
    NonBooleanCondition,
    /// A bound of a `for` loop is not an integer.
    NonIntegerRange,
    /// An integer is divided by zero.
    DivisionByZero,
    /// The result of an integer operation does not fit in 64 bits.
    ArithmeticOverflow,
    /// The budget is used up.
    StepLimitExceeded,
}

/// Why evaluation stopped without a value.
#[derive(Debug, PartialEq, Eq)]
pub enum Interrupt {
    /// The program failed.
    Fault(RuntimeError),
    /// The program needs a floating-point result that the ledger lacks.
    NeedsFloat(FloatRequest),
}

/// The mathematical model of an [`Interrupt`].
pub enum InterruptView {
    Fault(RuntimeError),
    NeedsFloat(FloatRequestView),
}

impl View for Interrupt {
    type V = InterruptView;

    open spec fn view(&self) -> InterruptView {
        match self {
            Interrupt::Fault(e) => InterruptView::Fault(*e),
            Interrupt::NeedsFloat(request) => InterruptView::NeedsFloat(request@),
        }
    }
}

/// A function as the interpreter holds it: its parameter names and its body.
#[derive(Debug)]
pub struct FunctionInfo {
    pub params: Vec<String>,
    pub body: Vec<ASTNode>,
}

/// The mathematical model of a [`FunctionInfo`].
pub struct FunctionView {
    pub params: Seq<Seq<char>>,
    pub body: Seq<Ast>,
}

impl View for FunctionInfo {
    type V = FunctionView;

    open spec fn view(&self) -> FunctionView {
        FunctionView { params: self.params.deep_view(), body: view_nodes(self.body@) }
    }
}

impl Clone for FunctionInfo {
    fn clone(&self) -> (r: Self)
        ensures
            r@ == self@,
    {
        FunctionInfo { params: clone_names(&self.params), body: clone_nodes(&self.body) }
    }
}

/// What a program can read and change: its variables and its functions.
pub struct State {
    pub variables: Map<Seq<char>, ValueView>,
    pub functions: Map<Seq<char>, FunctionView>,
}

impl State {
    /// The state with no variable and no function.
    pub open spec fn empty() -> State {
        State { variables: Map::empty(), functions: Map::empty() }
    }

    /// The state with `name` bound to `value`.
    pub open spec fn bind(self, name: Seq<char>, value: ValueView) -> State {
        State { variables: self.variables.insert(name, value), ..self }
    }

    /// The state with the binding of `name` as `saved` tells: bound to the
    /// value that `saved` holds, or not bound where it holds none.
    pub open spec fn restore(self, name: Seq<char>, saved: Option<ValueView>) -> State {
        match saved {
            Some(value) => State { variables: self.variables.insert(name, value), ..self },
            None => State { variables: self.variables.remove(name), ..self },
        }
    }
}

/// The result of evaluating a node: a value and the state left behind, or the
/// reason for which evaluation stopped.
pub type Outcome = Result<(ValueView, State), InterruptView>;

/// The fault `e` as an outcome.
pub open spec fn fault<T>(e: RuntimeError) -> Result<T, InterruptView> {
    Err(InterruptView::Fault(e))
}

/// The name of the function that a program starts with.
pub open spec fn entry_point() -> Seq<char> {
    seq!['r', 'u', 'n']
}

/// The quotient of `a` by `b`, rounded towards zero.
pub open spec fn truncated_quotient(a: int, b: int) -> int
    recommends
        b != 0,
{
    if a >= 0 && b > 0 {
        a / b
    } else if a >= 0 {
        -(a / (-b))
    } else if b > 0 {
        -((-a) / b)
    } else {
        (-a) / (-b)
    }
}

/// `n` as a value, where it fits in 64 bits.
pub open spec fn checked_int(n: int) -> Result<ValueView, InterruptView> {
    if i64::MIN <= n <= i64::MAX {
        Ok(ValueView::Int(n as i64))
    } else {
        fault(RuntimeError::ArithmeticOverflow)
    }
}

/// The value of `left operator right`.
///
/// Two integers are added, subtracted, multiplied or divided as integers,
/// division rounding towards zero. Two floating-point values are combined as
/// `facts` tells. Every other pair of operands, and every other operator, is
/// refused.
pub open spec fn arithmetic(
    left: ValueView,
    operator: Seq<char>,
    right: ValueView,
    facts: FloatFacts,
) -> Result<ValueView, InterruptView> {
    match (left, right, arithmetic_op(operator)) {
        (ValueView::Int(a), ValueView::Int(b), Some(ArithmeticOp::Add)) => checked_int(a + b),
        (ValueView::Int(a), ValueView::Int(b), Some(ArithmeticOp::Subtract)) => checked_int(a - b),
        (ValueView::Int(a), ValueView::Int(b), Some(ArithmeticOp::Multiply)) => checked_int(a * b),
        (ValueView::Int(a), ValueView::Int(b), Some(ArithmeticOp::Divide)) => if b == 0 {
            fault(RuntimeError::DivisionByZero)
        } else {
            checked_int(truncated_quotient(a as int, b as int))
        },
        (ValueView::Float(a), ValueView::Float(b), Some(op)) => match facts.arithmetic.get(
            (op, a, b),
        ) {
            Some(bits) => Ok(ValueView::Float(bits)),
            None => Err(InterruptView::NeedsFloat(FloatRequestView::Arithmetic(op, a, b))),
        },
        _ => fault(RuntimeError::UnsupportedOperands),
    }
}

/// The value of `left operator right`, a boolean.
///
/// Two integers compare by `<`, `>` and `==`, two floating-point values by the
/// same three as `facts` tells, two booleans and two strings by `==` alone.
/// Every other pair of operands, and every other operator, is refused.
pub open spec fn comparison(
    left: ValueView,
    operator: Seq<char>,
    right: ValueView,
    facts: FloatFacts,
) -> Result<ValueView, InterruptView> {
    match (left, right, comparison_op(operator)) {
        (ValueView::Int(a), ValueView::Int(b), Some(ComparisonOp::Less)) => Ok(
            ValueView::Bool(a < b),
        ),
        (ValueView::Int(a), ValueView::Int(b), Some(ComparisonOp::Greater)) => Ok(
            ValueView::Bool(a > b),
        ),
        (ValueView::Int(a), ValueView::Int(b), Some(ComparisonOp::Equal)) => Ok(
            ValueView::Bool(a == b),
        ),
        (ValueView::Float(a), ValueView::Float(b), Some(op)) => match facts.comparisons.get(
            (op, a, b),
        ) {
            Some(outcome) => Ok(ValueView::Bool(outcome)),
            None => Err(InterruptView::NeedsFloat(FloatRequestView::Comparison(op, a, b))),
        },
        (ValueView::Bool(a), ValueView::Bool(b), Some(ComparisonOp::Equal)) => Ok(
            ValueView::Bool(a == b),
        ),
        (ValueView::String(a), ValueView::String(b), Some(ComparisonOp::Equal)) => Ok(
            ValueView::Bool(a == b),
        ),
        _ => fault(RuntimeError::UnsupportedOperands),
    }
}

/// The variables after each of `params` is bound to the argument at its
/// place, in order.
pub open spec fn bind_parameters(
    variables: Map<Seq<char>, ValueView>,
    params: Seq<Seq<char>>,
    args: Seq<ValueView>,
) -> Map<Seq<char>, ValueView>
    recommends
        params.len() == args.len(),
    decreases params.len(),
{
    if params.len() == 0 || args.len() == 0 {
        variables
    } else {
        bind_parameters(variables, params.drop_last(), args.drop_last()).insert(
            params.last(),
            args.last(),
        )
    }
}

/// What a call hands back for the value `value` that its body ended with: the
/// value that a `ret` wrapped, and `Void` for a body that ended without one.
pub open spec fn returned(value: ValueView) -> ValueView {
    match value {
        ValueView::Return(inner) => *inner,
        _ => ValueView::Void,
    }
}

/// The outcome of evaluating `node` in the state `state`, with the
/// floating-point results `facts` and the budget `fuel`.
pub open spec fn eval(node: Ast, state: State, facts: FloatFacts, fuel: nat) -> Outcome
    decreases fuel,
{
    if fuel == 0 {
        fault(RuntimeError::StepLimitExceeded)
    } else {
        let rest = (fuel - 1) as nat;
        match node {
            Ast::Program(nodes) => match run_all(nodes, state, facts, rest) {
                Ok(after) => if after.functions.contains_key(entry_point()) {
                    call(entry_point(), seq![], after, facts, rest)
                } else {
                    Ok((ValueView::Void, after))
                },
                Err(stop) => Err(stop),
            },
            Ast::ClassDeclaration { name, members } => match run_all(members, state, facts, rest) {
                Ok(after) => Ok((ValueView::Void, after)),
                Err(stop) => Err(stop),
            },
            Ast::FunctionDeclaration { name, params, body } => Ok(
                (
                    ValueView::Void,
                    State {
                        functions: state.functions.insert(name, FunctionView { params, body }),
                        ..state
                    },
                ),
            ),
            Ast::VariableDeclaration { name, var_type } => Ok(
                (ValueView::Void, state.bind(name, ValueView::Void)),
            ),
            Ast::Assignment { variable, expression } => match eval(
                *expression,
                state,
                facts,
                rest,
            ) {
                Ok((value, after)) => Ok((ValueView::Void, after.bind(variable, value))),
                Err(stop) => Err(stop),
            },
            Ast::Number(n) => Ok((ValueView::Int(n), state)),
            Ast::Float(text) => match facts.literals.get(text) {
                Some(bits) => Ok((ValueView::Float(bits), state)),
                None => Err(InterruptView::NeedsFloat(FloatRequestView::Literal(text))),
            },
            Ast::StringLiteral(text) => Ok((ValueView::String(text), state)),
            Ast::Boolean(b) => Ok((ValueView::Bool(b), state)),
            Ast::Identifier(name) => if state.variables.contains_key(name) {
                Ok((state.variables[name], state))
            } else {
                fault(RuntimeError::UndefinedVariable)
            },
            Ast::FunctionCall { name, args } => match eval_arguments(args, state, facts, rest) {
                Ok((values, after)) => call(name, values, after, facts, rest),
                Err(stop) => Err(stop),
            },
            Ast::Arithmetic { left, operator, right } => match eval(*left, state, facts, rest) {
                Ok((a, after_left)) => match eval(*right, after_left, facts, rest) {
                    Ok((b, after)) => match arithmetic(a, operator, b, facts) {
                        Ok(value) => Ok((value, after)),
                        Err(stop) => Err(stop),
                    },
                    Err(stop) => Err(stop),
                },
                Err(stop) => Err(stop),
            },
            Ast::Comparison { left, operator, right } => match eval(*left, state, facts, rest) {
                Ok((a, after_left)) => match eval(*right, after_left, facts, rest) {
                    Ok((b, after)) => match comparison(a, operator, b, facts) {
                        Ok(value) => Ok((value, after)),
                        Err(stop) => Err(stop),
                    },
                    Err(stop) => Err(stop),
                },
                Err(stop) => Err(stop),
            },
            Ast::IfElse { condition, then_block, else_block } => match eval(
                *condition,
                state,
                facts,
                rest,
            ) {
                Ok((ValueView::Bool(truth), after)) => if truth {
                    run_block(then_block, after, facts, rest)
                } else {
                    match else_block {
                        Some(block) => run_block(block, after, facts, rest),
                        None => Ok((ValueView::Void, after)),
                    }
                },
                Ok(_) => fault(RuntimeError::NonBooleanCondition),
                Err(stop) => Err(stop),
            },
            Ast::Ret { expression } => match eval(*expression, state, facts, rest) {
                Ok((value, after)) => Ok((ValueView::Return(Box::new(value)), after)),
                Err(stop) => Err(stop),
            },
            Ast::ForLoop { variable, start, end, body } => match eval(*start, state, facts, rest) {
                Ok((from, after_start)) => match eval(*end, after_start, facts, rest) {
                    Ok((to, after)) => match (from, to) {
                        (ValueView::Int(first), ValueView::Int(limit)) => run_for(
                            variable,
                            first as int,
                            limit as int,
                            body,
                            after.variables.get(variable),
                            after,
                            facts,
                            rest,
                        ),
                        _ => fault(RuntimeError::NonIntegerRange),
                    },
                    Err(stop) => Err(stop),
                },
                Err(stop) => Err(stop),
            },
            Ast::WhileLoop { condition, body } => run_while(*condition, body, state, facts, rest),
        }
    }
}

/// The state after each of `nodes` is evaluated in turn, whatever value it
/// yields: the way of a program's top level and of a class's members.
pub open spec fn run_all(nodes: Seq<Ast>, state: State, facts: FloatFacts, fuel: nat) -> Result<
    State,
    InterruptView,
>
    decreases fuel,
{
    if nodes.len() == 0 {
        Ok(state)
    } else if fuel == 0 {
        fault(RuntimeError::StepLimitExceeded)
    } else {
        match eval(nodes[0], state, facts, (fuel - 1) as nat) {
            Ok((_, after)) => run_all(nodes.drop_first(), after, facts, (fuel - 1) as nat),
            Err(stop) => Err(stop),
        }
    }
}

/// The outcome of a block: its statements are evaluated in turn up to the
/// first that yields a `Return`, which is the block's value; a block that
/// comes to its end yields `Void`.
pub open spec fn run_block(nodes: Seq<Ast>, state: State, facts: FloatFacts, fuel: nat) -> Outcome
    decreases fuel,
{
    if nodes.len() == 0 {
        Ok((ValueView::Void, state))
    } else if fuel == 0 {
        fault(RuntimeError::StepLimitExceeded)
    } else {
        match eval(nodes[0], state, facts, (fuel - 1) as nat) {
            Ok((value, after)) => if value is Return {
                Ok((value, after))
            } else {
                run_block(nodes.drop_first(), after, facts, (fuel - 1) as nat)
            },
            Err(stop) => Err(stop),
        }
    }
}

/// The values of `nodes`, evaluated from left to right, and the state after
/// the last.
pub open spec fn eval_arguments(
    nodes: Seq<Ast>,
    state: State,
    facts: FloatFacts,
    fuel: nat,
) -> Result<(Seq<ValueView>, State), InterruptView>
    decreases fuel,
{
    if nodes.len() == 0 {
        Ok((Seq::empty(), state))
    } else if fuel == 0 {
        fault(RuntimeError::StepLimitExceeded)
    } else {
        match eval(nodes[0], state, facts, (fuel - 1) as nat) {
            Ok((value, after)) => match eval_arguments(
                nodes.drop_first(),
                after,
                facts,
                (fuel - 1) as nat,
            ) {
                Ok((values, last)) => Ok((seq![value] + values, last)),
                Err(stop) => Err(stop),
            },
            Err(stop) => Err(stop),
        }
    }
}

/// The outcome of `while condition then body end`: the condition is
/// evaluated before every round and must be a boolean; the loop ends with
/// `Void` when it is false, and with the `Return` of the first round of the
/// body that yields one.
pub open spec fn run_while(
    condition: Ast,
    body: Seq<Ast>,
    state: State,
    facts: FloatFacts,
    fuel: nat,
) -> Outcome
    decreases fuel,
{
    if fuel == 0 {
        fault(RuntimeError::StepLimitExceeded)
    } else {
        let rest = (fuel - 1) as nat;
        match eval(condition, state, facts, rest) {
            Ok((ValueView::Bool(truth), checked)) => if truth {
                match run_block(body, checked, facts, rest) {
                    Ok((value, after)) => if value is Return {
                        Ok((value, after))
                    } else {
                        run_while(condition, body, after, facts, rest)
                    },
                    Err(stop) => Err(stop),
                }
            } else {
                Ok((ValueView::Void, checked))
            },
            Ok(_) => fault(RuntimeError::NonBooleanCondition),
            Err(stop) => Err(stop),
        }
    }
}

/// The outcome of the rounds of a `for` loop that are still to run, the next
/// one with `variable` bound to `next`, the last one with `limit - 1`.
/// `saved` is the binding that `variable` had before the loop. It is put back
/// when the loop ends, be it after the last round or by a `Return` from the
/// body.
pub open spec fn run_for(
    variable: Seq<char>,
    next: int,
    limit: int,
    body: Seq<Ast>,
    saved: Option<ValueView>,
    state: State,
    facts: FloatFacts,
    fuel: nat,
) -> Outcome
    decreases fuel,
{
    if next >= limit {
        Ok((ValueView::Void, state.restore(variable, saved)))
    } else if fuel == 0 {
        fault(RuntimeError::StepLimitExceeded)
    } else {
        let rest = (fuel - 1) as nat;
        match run_block(body, state.bind(variable, ValueView::Int(next as i64)), facts, rest) {
            Ok((value, after)) => if value is Return {
                Ok((value, after.restore(variable, saved)))
            } else {
                run_for(variable, next + 1, limit, body, saved, after, facts, rest)
            },
            Err(stop) => Err(stop),
        }
    }
}

/// The outcome of calling the function `name` on the values `args`.
///
/// The function must be declared and take as many parameters as there are
/// arguments. Its body runs as a block in the caller's variables with the
/// parameters bound on top. Whatever the body did to the variables is undone
/// when the call returns: the caller finds its variables as they were. The
/// functions that the body declared stay.
pub open spec fn call(
    name: Seq<char>,
    args: Seq<ValueView>,
    state: State,
    facts: FloatFacts,
    fuel: nat,
) -> Outcome
    decreases fuel,
{
    if !state.functions.contains_key(name) {
        fault(RuntimeError::UndefinedFunction)
    } else if args.len() != state.functions[name].params.len() {
        fault(RuntimeError::ArityMismatch)
    } else if fuel == 0 {
        fault(RuntimeError::StepLimitExceeded)
    } else {
        let function = state.functions[name];
        let inside = State {
            variables: bind_parameters(state.variables, function.params, args),
            ..state
        };
        match run_block(function.body, inside, facts, (fuel - 1) as nat) {
            Ok((value, after)) => Ok(
                (returned(value), State { variables: state.variables, ..after }),
            ),
            Err(stop) => Err(stop),
        }
    }
}

/// The models of a list of values, in order.
pub open spec fn view_values(values: Seq<Value>) -> Seq<ValueView> {
    values.map_values(|value: Value| value@)
}

/// Whether the executable result `result`, with the state `after` left
/// behind, is what `expected` says: the same value and state, or the same
/// reason to stop.
pub open spec fn agrees(result: Result<Value, Interrupt>, after: State, expected: Outcome) -> bool {
    match expected {
        Ok((value, state)) => result is Ok && result->Ok_0@ == value && after == state,
        Err(stop) => result is Err && result->Err_0@ == stop,
    }
}

/// The interpreter: the variables and functions of a running program, the
/// floating-point results it may use, and its budget.
pub struct Interpreter {
    variables: NameMap<Value>,
    functions: NameMap<FunctionInfo>,
    floats: FloatLedger,
    limit: u64,
}

impl View for Interpreter {
    type V = State;

    closed spec fn view(&self) -> State {
        State {
            variables: self.variables@.map_values(|value: Value| value@),
            functions: self.functions@.map_values(|function: FunctionInfo| function@),
        }
    }
}

impl Interpreter {
    /// Well-formedness of the representation. Every constructor establishes it
    /// and every method preserves it.
    pub closed spec fn wf(self) -> bool {
        &&& self.variables.wf()
        &&& self.functions.wf()
        &&& self.floats.wf()
    }

    /// The floating-point results on record.
    pub closed spec fn facts(self) -> FloatFacts {
        self.floats@
    }

    /// The budget of every evaluation that [`Interpreter::interpret`] or
    /// [`Interpreter::call_function`] starts.
    pub closed spec fn budget(self) -> nat {
        self.limit as nat
    }

    /// An interpreter with no variable, no function and no floating-point
    /// result, and the largest budget there is.
    pub fn new() -> (interpreter: Self)
        ensures
            interpreter.wf(),
            interpreter@ == State::empty(),
            interpreter.facts() == FloatFacts::empty(),
            interpreter.budget() == u64::MAX,
    {
        Interpreter::with_budget(u64::MAX)
    }

    /// An interpreter with no variable, no function and no floating-point
    /// result, and the budget `limit`.
    pub fn with_budget(limit: u64) -> (interpreter: Self)
        ensures
            interpreter.wf(),
            interpreter@ == State::empty(),
            interpreter.facts() == FloatFacts::empty(),
            interpreter.budget() == limit,
    {
        let interpreter = Interpreter {
            variables: NameMap::new(),
            functions: NameMap::new(),
            floats: FloatLedger::new(),
            limit,
        };
        assert(interpreter@.variables =~= Map::empty());
        assert(interpreter@.functions =~= Map::empty());
        interpreter
    }

    /// Forgets every variable and every function. The floating-point results
    /// and the budget stay.
    pub fn reset(&mut self)
        requires
            old(self).wf(),
        ensures
            final(self).wf(),
            final(self)@ == State::empty(),
            final(self).facts() == old(self).facts(),
            final(self).budget() == old(self).budget(),
    {
        self.variables = NameMap::new();
        self.functions = NameMap::new();
        assert(self@.variables =~= Map::empty());
        assert(self@.functions =~= Map::empty());
    }

    /// Sets the budget of the evaluations to come to `limit`.
    pub fn set_budget(&mut self, limit: u64)
        requires
            old(self).wf(),
        ensures
            final(self).wf(),
            final(self)@ == old(self)@,
            final(self).facts() == old(self).facts(),
            final(self).budget() == limit,
    {
        self.limit = limit;
    }

    /// Records the answer to `request` among the floating-point results: the
    /// bits of a value for a literal or an arithmetic operation, and for a
    /// comparison zero where it does not hold and anything else where it does.
    pub fn record_float(&mut self, request: &FloatRequest, answer: u64)
        requires
            old(self).wf(),
        ensures
            final(self).wf(),
            final(self)@ == old(self)@,
            final(self).budget() == old(self).budget(),
            final(self).facts() == old(self).facts().with_answer(request@, answer),
    {
        self.floats.record(request, answer);
    }

    /// The value of the variable `name`, if it is bound.
    pub fn variable(&self, name: &str) -> (r: Option<&Value>)
        requires
            self.wf(),
        ensures
            match r {
                Some(value) => self@.variables.get(name@) == Some(value@),
                None => !self@.variables.contains_key(name@),
            },
    {
        self.variables.get(&name.to_owned())
    }

    /// Binds the variable `name` to `value`, whatever it was bound to.
    pub fn set_variable(&mut self, name: &str, value: Value)
        requires
            old(self).wf(),
        ensures
            final(self).wf(),
            final(self).facts() == old(self).facts(),
            final(self).budget() == old(self).budget(),
            final(self)@ == old(self)@.bind(name@, value@),
    {
        self.bind(&name.to_owned(), value);
    }

    /// Whether a function `name` is declared.
    pub fn has_function(&self, name: &str) -> (b: bool)
        requires
            self.wf(),
        ensures
            b == self@.functions.contains_key(name@),
    {
        self.functions.contains(&name.to_owned())
    }

    /// Evaluates `node` and returns its value, or the reason for which
    /// evaluation stopped. Where it yields a value the variables and
    /// functions are left as the program left them; where it stops they are
    /// left as they were before.
    pub fn interpret(&mut self, node: &ASTNode) -> (r: Result<Value, Interrupt>)
        requires
            old(self).wf(),
        ensures
            final(self).wf(),
            final(self).facts() == old(self).facts(),
            final(self).budget() == old(self).budget(),
            agrees(r, final(self)@, eval(node@, old(self)@, old(self).facts(), old(self).budget())),
            r is Err ==> final(self)@ == old(self)@,
    {
        let fuel = self.limit;
        let variables = self.variables.clone();
        let functions = self.functions.clone();
        match self.eval_node(node, fuel) {
            Ok(value) => Ok(value),
            Err(stop) => {
                self.put_back(variables, functions, Ghost(*old(self)));
                Err(stop)
            },
        }
    }

    /// Calls the function `name` on `args` and returns what it returns, or the
    /// reason for which evaluation stopped. The variables are afterwards what
    /// they were before the call; where the call stops, so are the functions.
    pub fn call_function(&mut self, name: &str, args: Vec<Value>) -> (r: Result<Value, Interrupt>)
        requires
            old(self).wf(),
        ensures
            final(self).wf(),
            final(self).facts() == old(self).facts(),
            final(self).budget() == old(self).budget(),
            agrees(
                r,
                final(self)@,
                call(name@, view_values(args@), old(self)@, old(self).facts(), old(self).budget()),
            ),
            final(self)@.variables == old(self)@.variables,
            r is Err ==> final(self)@ == old(self)@,
    {
        let fuel = self.limit;
        let variables = self.variables.clone();
        let functions = self.functions.clone();
        match self.invoke(&name.to_owned(), args, fuel) {
            Ok(value) => Ok(value),
            Err(stop) => {
                self.put_back(variables, functions, Ghost(*old(self)));
                Err(stop)
            },
        }
    }

    /// Puts back the copies `variables` and `functions` that were taken of
    /// the interpreter when it was `before`.
    fn put_back(
        &mut self,
        variables: NameMap<Value>,
        functions: NameMap<FunctionInfo>,
        Ghost(before): Ghost<Interpreter>,
    )
        requires
            old(self).wf(),
            before.wf(),
            variables.wf(),
            functions.wf(),
            variables@.dom() == before.variables@.dom(),
            functions@.dom() == before.functions@.dom(),
            forall|k: Seq<char>| #[trigger]
                before.variables@.contains_key(k) ==> cloned::<Value>(
                    before.variables@[k],
                    variables@[k],
                ),
            forall|k: Seq<char>| #[trigger]
                before.functions@.contains_key(k) ==> cloned::<FunctionInfo>(
                    before.functions@[k],
                    functions@[k],
                ),
        ensures
            final(self).wf(),
            final(self)@ == before@,
            final(self).facts() == old(self).facts(),
            final(self).budget() == old(self).budget(),
    {
        self.variables = variables;
        self.functions = functions;
        proof {
            assert(self@.variables =~= before@.variables);
            assert(self@.functions =~= before@.functions);
        }
    }

    fn bind(&mut self, name: &String, value: Value)
        requires
            old(self).wf(),
        ensures
            final(self).wf(),
            final(self).facts() == old(self).facts(),
            final(self).budget() == old(self).budget(),
            final(self)@ == old(self)@.bind(name@, value@),
    {
        self.variables.insert(name.clone(), value);
        assert(self@.variables =~= old(self)@.variables.insert(name@, value@));
    }

    fn restore(&mut self, name: &String, saved: Option<Value>)
        requires
            old(self).wf(),
        ensures
            final(self).wf(),
            final(self).facts() == old(self).facts(),
            final(self).budget() == old(self).budget(),
            final(self)@ == old(self)@.restore(
                name@,
                match saved {
                    Some(value) => Some(value@),
                    None => None,
                },
            ),
    {
        match saved {
            Some(value) => {
                self.variables.insert(name.clone(), value);
                assert(self@.variables =~= old(self)@.variables.insert(name@, value@));
            },
            None => {
                let _ = self.variables.remove(name);
                assert(self@.variables =~= old(self)@.variables.remove(name@));
            },
        }
    }

    fn lookup(&self, name: &String) -> (r: Option<Value>)
        requires
            self.wf(),
        ensures
            match r {
                Some(value) => self@.variables.get(name@) == Some(value@),
                None => !self@.variables.contains_key(name@),
            },
    {
        match self.variables.get(name) {
            Some(value) => Some(value.clone()),
            None => None,
        }
    }

    fn apply_arithmetic(&self, left: &Value, operator: &String, right: &Value) -> (r: Result<
        Value,
        Interrupt,
    >)
        ensures
            match arithmetic(left@, operator@, right@, self.facts()) {
                Ok(value) => r is Ok && r->Ok_0@ == value,
                Err(stop) => r is Err && r->Err_0@ == stop,
            },
    {
        let op = match read_arithmetic_op(operator) {
            Some(op) => op,
            None => {
                return Err(Interrupt::Fault(RuntimeError::UnsupportedOperands));
            },
        };
        match (left, right) {
            (Value::Int(a), Value::Int(b)) => {
                let result = match op {
                    ArithmeticOp::Add => a.checked_add(*b),
                    ArithmeticOp::Subtract => a.checked_sub(*b),
                    ArithmeticOp::Multiply => a.checked_mul(*b),
                    ArithmeticOp::Divide => {
                        if *b == 0 {
                            return Err(Interrupt::Fault(RuntimeError::DivisionByZero));
                        }
                        proof {
                            lemma_zero_quotient(*b as int);
                        }
                        a.checked_div(*b)
                    },
                };
                match result {
                    Some(n) => Ok(Value::Int(n)),
                    None => Err(Interrupt::Fault(RuntimeError::ArithmeticOverflow)),
                }
            },
            (Value::Float(a), Value::Float(b)) => match self.floats.arithmetic(op, *a, *b) {
                Some(bits) => Ok(Value::Float(bits)),
                None => Err(Interrupt::NeedsFloat(FloatRequest::Arithmetic(op, *a, *b))),
            },
            _ => Err(Interrupt::Fault(RuntimeError::UnsupportedOperands)),
        }
    }

    fn apply_comparison(&self, left: &Value, operator: &String, right: &Value) -> (r: Result<
        Value,
        Interrupt,
    >)
        ensures
            match comparison(left@, operator@, right@, self.facts()) {
                Ok(value) => r is Ok && r->Ok_0@ == value,
                Err(stop) => r is Err && r->Err_0@ == stop,
            },
    {
        let op = match read_comparison_op(operator) {
            Some(op) => op,
            None => {
                return Err(Interrupt::Fault(RuntimeError::UnsupportedOperands));
            },
        };
        match (left, right) {
            (Value::Int(a), Value::Int(b)) => Ok(
                Value::Bool(
                    match op {
                        ComparisonOp::Less => *a < *b,
                        ComparisonOp::Greater => *a > *b,
                        ComparisonOp::Equal => *a == *b,
                    },
                ),
            ),
            (Value::Float(a), Value::Float(b)) => match self.floats.comparison(op, *a, *b) {
                Some(outcome) => Ok(Value::Bool(outcome)),
                None => Err(Interrupt::NeedsFloat(FloatRequest::Comparison(op, *a, *b))),
            },
            (Value::Bool(a), Value::Bool(b)) => match op {
                ComparisonOp::Equal => Ok(Value::Bool(*a == *b)),
                _ => Err(Interrupt::Fault(RuntimeError::UnsupportedOperands)),
            },
            (Value::String(a), Value::String(b)) => match op {
                ComparisonOp::Equal => Ok(Value::Bool(*a == *b)),
                _ => Err(Interrupt::Fault(RuntimeError::UnsupportedOperands)),
            },
            _ => Err(Interrupt::Fault(RuntimeError::UnsupportedOperands)),
        }
    }
}

impl Interpreter {
    /// Evaluates `node` with the budget `fuel`.
    fn eval_node(&mut self, node: &ASTNode, fuel: u64) -> (r: Result<Value, Interrupt>)
        requires
            old(self).wf(),
        ensures
            final(self).wf(),
            final(self).facts() == old(self).facts(),
            final(self).budget() == old(self).budget(),
            agrees(
                r,
                final(self)@,
                eval(
                    node@,
                    old(self)@,
                    old(self).facts(),
                    fuel as nat,
                ),
            ),
        decreases fuel, 1nat,
    {
        if fuel == 0 {
            return Err(Interrupt::Fault(RuntimeError::StepLimitExceeded));
        }
        match node {
            ASTNode::Program(nodes) => self.eval_program(nodes, fuel),
            ASTNode::ClassDeclaration { name, members } => self.eval_class(name, members, fuel),
            ASTNode::FunctionDeclaration { name, params, body } => self.eval_function(
                name,
                params,
                body,
                fuel,
            ),
            ASTNode::VariableDeclaration { name, var_type: _ } => {
                self.bind(name, Value::Void);
                Ok(Value::Void)
            },
            ASTNode::Assignment { variable, expression } => self.eval_assignment(
                variable,
                expression,
                fuel,
            ),
            ASTNode::Number(n) => Ok(Value::Int(*n)),
            ASTNode::Float(text) => match self.floats.literal(text) {
                Some(bits) => Ok(Value::Float(bits)),
                None => Err(Interrupt::NeedsFloat(FloatRequest::Literal(text.clone()))),
            },
            ASTNode::StringLiteral(text) => Ok(Value::String(text.clone())),
            ASTNode::Boolean(b) => Ok(Value::Bool(*b)),
            ASTNode::Identifier(name) => match self.lookup(name) {
                Some(value) => Ok(value),
                None => Err(Interrupt::Fault(RuntimeError::UndefinedVariable)),
            },
            ASTNode::FunctionCall { name, args } => self.eval_call(name, args, fuel),
            ASTNode::Arithmetic { left, operator, right } => self.eval_arithmetic(
                left,
                operator,
                right,
                fuel,
            ),
            ASTNode::Comparison { left, operator, right } => self.eval_comparison(
                left,
                operator,
                right,
                fuel,
            ),
            ASTNode::IfElse { condition, then_block, else_block } => self.eval_if(
                condition,
                then_block,
                else_block,
                fuel,
            ),
            ASTNode::Ret { expression } => self.eval_ret(expression, fuel),
            ASTNode::ForLoop { variable, start, end, body } => self.eval_for(
                variable,
                start,
                end,
                body,
                fuel,
            ),
            ASTNode::WhileLoop { condition, body } => self.run_while(condition, body, fuel - 1),
        }
    }

    fn eval_program(&mut self, nodes: &Vec<ASTNode>, fuel: u64) -> (r: Result<Value, Interrupt>)
        requires
            old(self).wf(),
            fuel > 0,
        ensures
            final(self).wf(),
            final(self).facts() == old(self).facts(),
            final(self).budget() == old(self).budget(),
            agrees(
                r,
                final(self)@,
                eval(
                    Ast::Program(view_nodes(nodes@)),
                    old(self)@,
                    old(self).facts(),
                    fuel as nat,
                ),
            ),
        decreases fuel, 0nat,
    {
        match self.run_all(nodes, fuel - 1) {
            Ok(()) => {},
            Err(stop) => {
                return Err(stop);
            },
        }
        let entry = "run".to_owned();
        proof {
            reveal_strlit("run");
            assert(entry@ =~= entry_point());
        }
        if self.functions.contains(&entry) {
            let args: Vec<Value> = Vec::new();
            assert(view_values(args@) =~= seq![]);
            self.invoke(&entry, args, fuel - 1)
        } else {
            Ok(Value::Void)
        }
    }

    fn eval_class(&mut self, name: &String, members: &Vec<ASTNode>, fuel: u64) -> (r: Result<
        Value,
        Interrupt,
    >)
        requires
            old(self).wf(),
            fuel > 0,
        ensures
            final(self).wf(),
            final(self).facts() == old(self).facts(),
            final(self).budget() == old(self).budget(),
            agrees(
                r,
                final(self)@,
                eval(
                    Ast::ClassDeclaration { name: name@, members: view_nodes(members@) },
                    old(self)@,
                    old(self).facts(),
                    fuel as nat,
                ),
            ),
        decreases fuel, 0nat,
    {
        match self.run_all(members, fuel - 1) {
            Ok(()) => Ok(Value::Void),
            Err(stop) => Err(stop),
        }
    }

    fn eval_function(
        &mut self,
        name: &String,
        params: &Vec<String>,
        body: &Vec<ASTNode>,
        fuel: u64,
    ) -> (r: Result<Value, Interrupt>)
        requires
            old(self).wf(),
            fuel > 0,
        ensures
            final(self).wf(),
            final(self).facts() == old(self).facts(),
            final(self).budget() == old(self).budget(),
            agrees(r, final(self)@, eval((Ast::FunctionDeclaration {
                    name: name@,
                    params: params.deep_view(),
                    body: view_nodes(body@),
                }), old(self)@, old(self).facts(), fuel as nat)),
        decreases fuel, 0nat,
    {
        let function = FunctionInfo { params: clone_names(params), body: clone_nodes(body) };
        self.functions.insert(name.clone(), function);
        assert(self@.functions =~= old(self)@.functions.insert(name@, function@));
        Ok(Value::Void)
    }

    fn eval_assignment(&mut self, variable: &String, expression: &ASTNode, fuel: u64) -> (r: Result<
        Value,
        Interrupt,
    >)
        requires
            old(self).wf(),
            fuel > 0,
        ensures
            final(self).wf(),
            final(self).facts() == old(self).facts(),
            final(self).budget() == old(self).budget(),
            agrees(
                r,
                final(self)@,
                eval(
                    (Ast::Assignment { variable: variable@, expression: Box::new(expression@) }),
                    old(self)@,
                    old(self).facts(),
                    fuel as nat,
                ),
            ),
        decreases fuel, 0nat,
    {
        match self.eval_node(expression, fuel - 1) {
            Ok(value) => {
                self.bind(variable, value);
                Ok(Value::Void)
            },
            Err(stop) => Err(stop),
        }
    }

    fn eval_call(&mut self, name: &String, args: &Vec<ASTNode>, fuel: u64) -> (r: Result<
        Value,
        Interrupt,
    >)
        requires
            old(self).wf(),
            fuel > 0,
        ensures
            final(self).wf(),
            final(self).facts() == old(self).facts(),
            final(self).budget() == old(self).budget(),
            agrees(
                r,
                final(self)@,
                eval(
                    (Ast::FunctionCall { name: name@, args: view_nodes(args@) }),
                    old(self)@,
                    old(self).facts(),
                    fuel as nat,
                ),
            ),
        decreases fuel, 0nat,
    {
        match self.eval_arguments(args, fuel - 1) {
            Ok(values) => self.invoke(name, values, fuel - 1),
            Err(stop) => Err(stop),
        }
    }

    fn eval_arithmetic(
        &mut self,
        left: &ASTNode,
        operator: &String,
        right: &ASTNode,
        fuel: u64,
    ) -> (r: Result<Value, Interrupt>)
        requires
            old(self).wf(),
            fuel > 0,
        ensures
            final(self).wf(),
            final(self).facts() == old(self).facts(),
            final(self).budget() == old(self).budget(),
            agrees(r, final(self)@, eval((Ast::Arithmetic {
                    left: Box::new(left@),
                    operator: operator@,
                    right: Box::new(right@),
                }), old(self)@, old(self).facts(), fuel as nat)),
        decreases fuel, 0nat,
    {
        let a = match self.eval_node(left, fuel - 1) {
            Ok(value) => value,
            Err(stop) => {
                return Err(stop);
            },
        };
        let b = match self.eval_node(right, fuel - 1) {
            Ok(value) => value,
            Err(stop) => {
                return Err(stop);
            },
        };
        self.apply_arithmetic(&a, operator, &b)
    }

    fn eval_comparison(
        &mut self,
        left: &ASTNode,
        operator: &String,
        right: &ASTNode,
        fuel: u64,
    ) -> (r: Result<Value, Interrupt>)
        requires
            old(self).wf(),
            fuel > 0,
        ensures
            final(self).wf(),
            final(self).facts() == old(self).facts(),
            final(self).budget() == old(self).budget(),
            agrees(r, final(self)@, eval((Ast::Comparison {
                    left: Box::new(left@),
                    operator: operator@,
                    right: Box::new(right@),
                }), old(self)@, old(self).facts(), fuel as nat)),
        decreases fuel, 0nat,
    {
        let a = match self.eval_node(left, fuel - 1) {
            Ok(value) => value,
            Err(stop) => {
                return Err(stop);
            },
        };
        let b = match self.eval_node(right, fuel - 1) {
            Ok(value) => value,
            Err(stop) => {
                return Err(stop);
            },
        };
        self.apply_comparison(&a, operator, &b)
    }

    fn eval_if(
        &mut self,
        condition: &ASTNode,
        then_block: &Vec<ASTNode>,
        else_block: &Option<Vec<ASTNode>>,
        fuel: u64,
    ) -> (r: Result<Value, Interrupt>)
        requires
            old(self).wf(),
            fuel > 0,
        ensures
            final(self).wf(),
            final(self).facts() == old(self).facts(),
            final(self).budget() == old(self).budget(),
            agrees(r, final(self)@, eval((Ast::IfElse {
                    condition: Box::new(condition@),
                    then_block: view_nodes(then_block@),
                    else_block: match else_block {
                        Some(block) => Some(view_nodes(block@)),
                        None => None,
                    },
                }), old(self)@, old(self).facts(), fuel as nat)),
        decreases fuel, 0nat,
    {
        let truth = match self.eval_node(condition, fuel - 1) {
            Ok(Value::Bool(truth)) => truth,
            Ok(_) => {
                return Err(Interrupt::Fault(RuntimeError::NonBooleanCondition));
            },
            Err(stop) => {
                return Err(stop);
            },
        };
        if truth {
            self.run_block(then_block, fuel - 1)
        } else {
            match else_block {
                Some(block) => self.run_block(block, fuel - 1),
                None => Ok(Value::Void),
            }
        }
    }

    fn eval_ret(&mut self, expression: &ASTNode, fuel: u64) -> (r: Result<Value, Interrupt>)
        requires
            old(self).wf(),
            fuel > 0,
        ensures
            final(self).wf(),
            final(self).facts() == old(self).facts(),
            final(self).budget() == old(self).budget(),
            agrees(
                r,
                final(self)@,
                eval(
                    (Ast::Ret { expression: Box::new(expression@) }),
                    old(self)@,
                    old(self).facts(),
                    fuel as nat,
                ),
            ),
        decreases fuel, 0nat,
    {
        match self.eval_node(expression, fuel - 1) {
            Ok(value) => Ok(Value::Return(Box::new(value))),
            Err(stop) => Err(stop),
        }
    }

    fn eval_for(
        &mut self,
        variable: &String,
        start: &ASTNode,
        end: &ASTNode,
        body: &Vec<ASTNode>,
        fuel: u64,
    ) -> (r: Result<Value, Interrupt>)
        requires
            old(self).wf(),
            fuel > 0,
        ensures
            final(self).wf(),
            final(self).facts() == old(self).facts(),
            final(self).budget() == old(self).budget(),
            agrees(r, final(self)@, eval((Ast::ForLoop {
                    variable: variable@,
                    start: Box::new(start@),
                    end: Box::new(end@),
                    body: view_nodes(body@),
                }), old(self)@, old(self).facts(), fuel as nat)),
        decreases fuel, 0nat,
    {
        let from = match self.eval_node(start, fuel - 1) {
            Ok(value) => value,
            Err(stop) => {
                return Err(stop);
            },
        };
        let to = match self.eval_node(end, fuel - 1) {
            Ok(value) => value,
            Err(stop) => {
                return Err(stop);
            },
        };
        match (from, to) {
            (Value::Int(first), Value::Int(limit)) => self.run_for(
                variable,
                first,
                limit,
                body,
                fuel - 1,
            ),
            _ => Err(Interrupt::Fault(RuntimeError::NonIntegerRange)),
        }
    }

    /// Evaluates each of `nodes` in turn, whatever value it yields.
    fn run_all(&mut self, nodes: &Vec<ASTNode>, fuel: u64) -> (r: Result<(), Interrupt>)
        requires
            old(self).wf(),
        ensures
            final(self).wf(),
            final(self).facts() == old(self).facts(),
            final(self).budget() == old(self).budget(),
            match run_all(view_nodes(nodes@), old(self)@, old(self).facts(), fuel as nat) {
                Ok(state) => r is Ok && final(self)@ == state,
                Err(stop) => r is Err && r->Err_0@ == stop,
            },
        decreases fuel, 0nat,
    {
        let ghost all = view_nodes(nodes@);
        let ghost start = self@;
        let ghost facts = self.facts();
        let mut left = fuel;
        let mut i: usize = 0;
        assert(all.skip(0) =~= all);
        while i < nodes.len()
            invariant
                i <= nodes.len(),
                left <= fuel,
                self.wf(),
                self.facts() == facts,
                facts == old(self).facts(),
                start == old(self)@,
                self.budget() == old(self).budget(),
                all == view_nodes(nodes@),
                run_all(all, start, facts, fuel as nat) == run_all(
                    all.skip(i as int),
                    self@,
                    facts,
                    left as nat,
                ),
            decreases nodes.len() - i,
        {
            assert(all.skip(i as int).drop_first() =~= all.skip(i + 1));
            assert(all.skip(i as int)[0] == nodes[i as int]@);
            if left == 0 {
                return Err(Interrupt::Fault(RuntimeError::StepLimitExceeded));
            }
            left = left - 1;
            match self.eval_node(&nodes[i], left) {
                Ok(_) => {},
                Err(stop) => {
                    return Err(stop);
                },
            }
            i += 1;
        }
        Ok(())
    }

    /// Evaluates the statements of a block up to the first that yields a
    /// `Return`.
    fn run_block(&mut self, nodes: &Vec<ASTNode>, fuel: u64) -> (r: Result<Value, Interrupt>)
        requires
            old(self).wf(),
        ensures
            final(self).wf(),
            final(self).facts() == old(self).facts(),
            final(self).budget() == old(self).budget(),
            agrees(
                r,
                final(self)@,
                run_block(view_nodes(nodes@), old(self)@, old(self).facts(), fuel as nat),
            ),
        decreases fuel, 0nat,
    {
        let ghost all = view_nodes(nodes@);
        let ghost start = self@;
        let ghost facts = self.facts();
        let mut left = fuel;
        let mut i: usize = 0;
        assert(all.skip(0) =~= all);
        while i < nodes.len()
            invariant
                i <= nodes.len(),
                left <= fuel,
                self.wf(),
                self.facts() == facts,
                facts == old(self).facts(),
                start == old(self)@,
                self.budget() == old(self).budget(),
                all == view_nodes(nodes@),
                run_block(all, start, facts, fuel as nat) == run_block(
                    all.skip(i as int),
                    self@,
                    facts,
                    left as nat,
                ),
            decreases nodes.len() - i,
        {
            assert(all.skip(i as int).drop_first() =~= all.skip(i + 1));
            assert(all.skip(i as int)[0] == nodes[i as int]@);
            if left == 0 {
                return Err(Interrupt::Fault(RuntimeError::StepLimitExceeded));
            }
            left = left - 1;
            match self.eval_node(&nodes[i], left) {
                Ok(value) => {
                    if let Value::Return(_) = value {
                        return Ok(value);
                    }
                },
                Err(stop) => {
                    return Err(stop);
                },
            }
            i += 1;
        }
        Ok(Value::Void)
    }

    /// Evaluates `nodes` from left to right and collects their values.
    fn eval_arguments(&mut self, nodes: &Vec<ASTNode>, fuel: u64) -> (r: Result<
        Vec<Value>,
        Interrupt,
    >)
        requires
            old(self).wf(),
        ensures
            final(self).wf(),
            final(self).facts() == old(self).facts(),
            final(self).budget() == old(self).budget(),
            match eval_arguments(view_nodes(nodes@), old(self)@, old(self).facts(), fuel as nat) {
                Ok((values, state)) => r is Ok && view_values(r->Ok_0@) == values && final(self)@
                    == state,
                Err(stop) => r is Err && r->Err_0@ == stop,
            },
        decreases fuel, 0nat,
    {
        let ghost all = view_nodes(nodes@);
        let ghost start = self@;
        let ghost facts = self.facts();
        let mut values: Vec<Value> = Vec::new();
        let mut left = fuel;
        let mut i: usize = 0;
        assert(all.skip(0) =~= all);
        assert(view_values(values@) + Seq::<ValueView>::empty() =~= view_values(values@));
        while i < nodes.len()
            invariant
                i <= nodes.len(),
                left <= fuel,
                self.wf(),
                self.facts() == facts,
                facts == old(self).facts(),
                start == old(self)@,
                self.budget() == old(self).budget(),
                all == view_nodes(nodes@),
                eval_arguments(all, start, facts, fuel as nat) == after_values(
                    view_values(values@),
                    eval_arguments(all.skip(i as int), self@, facts, left as nat),
                ),
            decreases nodes.len() - i,
        {
            assert(all.skip(i as int).drop_first() =~= all.skip(i + 1));
            assert(all.skip(i as int)[0] == nodes[i as int]@);
            if left == 0 {
                return Err(Interrupt::Fault(RuntimeError::StepLimitExceeded));
            }
            left = left - 1;
            let ghost before = view_values(values@);
            match self.eval_node(&nodes[i], left) {
                Ok(value) => {
                    values.push(value);
                    proof {
                        assert(view_values(values@) =~= before.push(value@));
                        let tail = eval_arguments(all.skip(i + 1), self@, facts, left as nat);
                        if tail is Ok {
                            assert(before + (seq![value@] + tail->Ok_0.0) =~= before.push(value@)
                                + tail->Ok_0.0);
                        }
                    }
                },
                Err(stop) => {
                    return Err(stop);
                },
            }
            i += 1;
        }
        assert(view_values(values@) + Seq::<ValueView>::empty() =~= view_values(values@));
        Ok(values)
    }

    /// Runs `while condition then body end`.
    fn run_while(&mut self, condition: &ASTNode, body: &Vec<ASTNode>, fuel: u64) -> (r: Result<
        Value,
        Interrupt,
    >)
        requires
            old(self).wf(),
        ensures
            final(self).wf(),
            final(self).facts() == old(self).facts(),
            final(self).budget() == old(self).budget(),
            agrees(
                r,
                final(self)@,
                run_while(
                    condition@,
                    view_nodes(body@),
                    old(self)@,
                    old(self).facts(),
                    fuel as nat,
                ),
            ),
        decreases fuel, 0nat,
    {
        let ghost start = self@;
        let ghost facts = self.facts();
        let mut left = fuel;
        loop
            invariant
                left <= fuel,
                self.wf(),
                self.facts() == facts,
                facts == old(self).facts(),
                start == old(self)@,
                self.budget() == old(self).budget(),
                run_while(condition@, view_nodes(body@), start, facts, fuel as nat) == run_while(
                    condition@,
                    view_nodes(body@),
                    self@,
                    facts,
                    left as nat,
                ),
            decreases left,
        {
            if left == 0 {
                return Err(Interrupt::Fault(RuntimeError::StepLimitExceeded));
            }
            left = left - 1;
            let truth = match self.eval_node(condition, left) {
                Ok(Value::Bool(truth)) => truth,
                Ok(_) => {
                    return Err(Interrupt::Fault(RuntimeError::NonBooleanCondition));
                },
                Err(stop) => {
                    return Err(stop);
                },
            };
            if !truth {
                return Ok(Value::Void);
            }
            match self.run_block(body, left) {
                Ok(value) => {
                    if let Value::Return(_) = value {
                        return Ok(value);
                    }
                },
                Err(stop) => {
                    return Err(stop);
                },
            }
        }
    }

    /// Runs the rounds of a `for` loop from `first` up to, but not including,
    /// `limit`, and puts the binding of `variable` back as it was.
    fn run_for(
        &mut self,
        variable: &String,
        first: i64,
        limit: i64,
        body: &Vec<ASTNode>,
        fuel: u64,
    ) -> (r: Result<Value, Interrupt>)
        requires
            old(self).wf(),
        ensures
            final(self).wf(),
            final(self).facts() == old(self).facts(),
            final(self).budget() == old(self).budget(),
            agrees(
                r,
                final(self)@,
                run_for(
                    variable@,
                    first as int,
                    limit as int,
                    view_nodes(body@),
                    old(self)@.variables.get(variable@),
                    old(self)@,
                    old(self).facts(),
                    fuel as nat,
                ),
            ),
        decreases fuel, 0nat,
    {
        let ghost start = self@;
        let ghost facts = self.facts();
        let saved = self.lookup(variable);
        let ghost kept = start.variables.get(variable@);
        let mut left = fuel;
        let mut next = first;
        while next < limit
            invariant
                left <= fuel,
                self.wf(),
                self.facts() == facts,
                facts == old(self).facts(),
                start == old(self)@,
                self.budget() == old(self).budget(),
                kept == old(self)@.variables.get(variable@),
                kept == match saved {
                    Some(value) => Some(value@),
                    None => None,
                },
                run_for(
                    variable@,
                    first as int,
                    limit as int,
                    view_nodes(body@),
                    kept,
                    start,
                    facts,
                    fuel as nat,
                ) == run_for(
                    variable@,
                    next as int,
                    limit as int,
                    view_nodes(body@),
                    kept,
                    self@,
                    facts,
                    left as nat,
                ),
            decreases limit - next,
        {
            if left == 0 {
                return Err(Interrupt::Fault(RuntimeError::StepLimitExceeded));
            }
            left = left - 1;
            self.bind(variable, Value::Int(next));
            match self.run_block(body, left) {
                Ok(value) => {
                    if let Value::Return(_) = value {
                        self.restore(variable, saved);
                        return Ok(value);
                    }
                },
                Err(stop) => {
                    return Err(stop);
                },
            }
            next = next + 1;
        }
        self.restore(variable, saved);
        Ok(Value::Void)
    }

    /// Calls the function `name` on `args` with the budget `fuel`.
    fn invoke(&mut self, name: &String, args: Vec<Value>, fuel: u64) -> (r: Result<
        Value,
        Interrupt,
    >)
        requires
            old(self).wf(),
        ensures
            final(self).wf(),
            final(self).facts() == old(self).facts(),
            final(self).budget() == old(self).budget(),
            agrees(
                r,
                final(self)@,
                call(name@, view_values(args@), old(self)@, old(self).facts(), fuel as nat),
            ),
        decreases fuel, 0nat,
    {
        let function = match self.functions.get(name) {
            Some(function) => function.clone(),
            None => {
                return Err(Interrupt::Fault(RuntimeError::UndefinedFunction));
            },
        };
        if args.len() != function.params.len() {
            return Err(Interrupt::Fault(RuntimeError::ArityMismatch));
        }
        if fuel == 0 {
            return Err(Interrupt::Fault(RuntimeError::StepLimitExceeded));
        }
        let saved = self.variables.clone();
        let ghost outside = self@;
        let ghost params = function.params.deep_view();
        let ghost values = view_values(args@);
        let mut i: usize = 0;
        while i < args.len()
            invariant
                i <= args.len(),
                args.len() == function.params.len(),
                params == function.params.deep_view(),
                values == view_values(args@),
                self.wf(),
                self.facts() == old(self).facts(),
                self.budget() == old(self).budget(),
                self@.functions == outside.functions,
                self@.variables == bind_parameters(
                    outside.variables,
                    params.take(i as int),
                    values.take(i as int),
                ),
            decreases args.len() - i,
        {
            proof {
                assert(params.take(i + 1).drop_last() =~= params.take(i as int));
                assert(values.take(i + 1).drop_last() =~= values.take(i as int));
            }
            self.bind(&function.params[i], args[i].clone());
            i += 1;
        }
        proof {
            assert(params.take(i as int) =~= params);
            assert(values.take(i as int) =~= values);
        }
        match self.run_block(&function.body, fuel - 1) {
            Ok(value) => {
                self.variables = saved;
                assert(self@.variables =~= outside.variables);
                Ok(
                    match value {
                        Value::Return(inner) => *inner,
                        _ => Value::Void,
                    },
                )
            },
            Err(stop) => Err(stop),
        }
    }
}

/// `values` in front of the values of `rest`.
pub open spec fn after_values(
    values: Seq<ValueView>,
    rest: Result<(Seq<ValueView>, State), InterruptView>,
) -> Result<(Seq<ValueView>, State), InterruptView> {
    match rest {
        Ok((more, state)) => Ok((values + more, state)),
        Err(stop) => Err(stop),
    }
}

/// A `for` loop leaves its variable as it found it. However many rounds ran,
/// and whether the loop came to its end or a `ret` in its body ended it, the
/// variable is afterwards bound to the value `saved` that it had before the
/// first round, and unbound where it had none.
pub proof fn lemma_for_rounds_restore_variable(
    variable: Seq<char>,
    next: int,
    limit: int,
    body: Seq<Ast>,
    saved: Option<ValueView>,
    state: State,
    facts: FloatFacts,
    fuel: nat,
)
    ensures
        match run_for(variable, next, limit, body, saved, state, facts, fuel) {
            Ok((_, after)) => after.variables.get(variable) == saved,
            Err(_) => true,
        },
    decreases fuel,
{
    if next < limit && fuel > 0 {
        let rest = (fuel - 1) as nat;
        match run_block(body, state.bind(variable, ValueView::Int(next as i64)), facts, rest) {
            Ok((value, after)) => {
                if !(value is Return) {
                    lemma_for_rounds_restore_variable(
                        variable,
                        next + 1,
                        limit,
                        body,
                        saved,
                        after,
                        facts,
                        rest,
                    );
                }
            },
            Err(_) => {},
        }
    }
}

/// A `for` loop does not leak its variable. Where the loop yields a value,
/// its two bounds were evaluated first, and the variable is bound after the
/// loop exactly as it was when the second bound had been evaluated, before the
/// first round: to the same value, or not at all.
pub proof fn lemma_for_loop_restores_variable(
    variable: Seq<char>,
    start: Ast,
    end: Ast,
    body: Seq<Ast>,
    state: State,
    facts: FloatFacts,
    fuel: nat,
)
    ensures
        match eval(
            Ast::ForLoop { variable, start: Box::new(start), end: Box::new(end), body },
            state,
            facts,
            fuel,
        ) {
            Ok((_, after)) => {
                &&& fuel > 0
                &&& eval(start, state, facts, (fuel - 1) as nat) matches Ok((_, after_start))
                &&& eval(end, after_start, facts, (fuel - 1) as nat) matches Ok((_, before))
                &&& after.variables.get(variable) == before.variables.get(variable)
            },
            Err(_) => true,
        },
{
    if fuel > 0 {
        let rest = (fuel - 1) as nat;
        match eval(start, state, facts, rest) {
            Ok((from, after_start)) => match eval(end, after_start, facts, rest) {
                Ok((to, before)) => match (from, to) {
                    (ValueView::Int(first), ValueView::Int(limit)) => {
                        lemma_for_rounds_restore_variable(
                            variable,
                            first as int,
                            limit as int,
                            body,
                            before.variables.get(variable),
                            before,
                            facts,
                            rest,
                        );
                    },
                    _ => {},
                },
                Err(_) => {},
            },
            Err(_) => {},
        }
    }
}

/// A call is isolated from its caller. Where a call returns a value, the
/// caller's variables are afterwards exactly what they were before it: no
/// variable that the body bound is left, and none that the caller had is
/// changed or lost.
pub proof fn lemma_call_preserves_variables(
    name: Seq<char>,
    args: Seq<ValueView>,
    state: State,
    facts: FloatFacts,
    fuel: nat,
)
    ensures
        match call(name, args, state, facts, fuel) {
            Ok((_, after)) => after.variables == state.variables,
            Err(_) => true,
        },
{
}

/// A call with the wrong number of arguments, or of a function that is not
/// declared, fails whatever the budget.
pub proof fn lemma_call_checks_function_and_arity(
    name: Seq<char>,
    args: Seq<ValueView>,
    state: State,
    facts: FloatFacts,
    fuel: nat,
)
    ensures
        !state.functions.contains_key(name) ==> call(name, args, state, facts, fuel) == fault::<
            (ValueView, State),
        >(RuntimeError::UndefinedFunction),
        state.functions.contains_key(name) && state.functions[name].params.len() != args.len()
            ==> call(name, args, state, facts, fuel) == fault::<(ValueView, State)>(
            RuntimeError::ArityMismatch,
        ),
{
}

/// Integer division by zero fails: where the operands of `/` evaluate to an
/// integer and to the integer zero, the division is the fault
/// `DivisionByZero`, and no value.
pub proof fn lemma_division_by_zero_fails(
    left: Ast,
    right: Ast,
    state: State,
    facts: FloatFacts,
    fuel: nat,
)
    requires
        fuel > 0,
        eval(left, state, facts, (fuel - 1) as nat) matches Ok((ValueView::Int(_), after_left))
            && eval(right, after_left, facts, (fuel - 1) as nat) matches Ok((ValueView::Int(0), _)),
    ensures
        eval(
            Ast::Arithmetic { left: Box::new(left), operator: seq!['/'], right: Box::new(right) },
            state,
            facts,
            fuel,
        ) == fault::<(ValueView, State)>(RuntimeError::DivisionByZero),
{
    assert(arithmetic_op(seq!['/']) == Some(ArithmeticOp::Divide)) by {
        assert(seq!['/'][0] == '/');
        assert(seq!['+'][0] == '+');
        assert(seq!['-'][0] == '-');
        assert(seq!['*'][0] == '*');
    }
}

/// Whether an outcome is the fault of a budget that is used up.
pub open spec fn out_of_budget<T>(outcome: Result<T, InterruptView>) -> bool {
    outcome == fault::<T>(RuntimeError::StepLimitExceeded)
}

/// The budget decides nothing but whether evaluation is cut short. An
/// evaluation that ends otherwise than by running out of budget, be it with
/// a value, with another fault or with a request for a floating-point result,
/// ends in exactly the same way with any larger budget.
pub proof fn lemma_budget_suffices(node: Ast, state: State, facts: FloatFacts, fuel: nat, more: nat)
    requires
        !out_of_budget(eval(node, state, facts, fuel)),
    ensures
        eval(node, state, facts, fuel + more) == eval(node, state, facts, fuel),
    decreases fuel, 1nat,
{
    let rest = (fuel - 1) as nat;
    assert((fuel + more - 1) as nat == rest + more);
    match node {
        Ast::Program(nodes) => {
            lemma_budget_suffices_for_all(nodes, state, facts, rest, more);
            match run_all(nodes, state, facts, rest) {
                Ok(after) => {
                    lemma_budget_suffices_for_call(entry_point(), seq![], after, facts, rest, more);
                },
                Err(_) => {},
            }
        },
        Ast::ClassDeclaration { name, members } => {
            lemma_budget_suffices_for_all(members, state, facts, rest, more);
        },
        Ast::Assignment { variable, expression } => {
            lemma_budget_suffices(*expression, state, facts, rest, more);
        },
        Ast::FunctionCall { name, args } => {
            lemma_budget_suffices_for_arguments(args, state, facts, rest, more);
            match eval_arguments(args, state, facts, rest) {
                Ok((values, after)) => {
                    lemma_budget_suffices_for_call(name, values, after, facts, rest, more);
                },
                Err(_) => {},
            }
        },
        Ast::Arithmetic { left, operator, right } => {
            lemma_budget_suffices_for_operands(*left, *right, state, facts, rest, more);
        },
        Ast::Comparison { left, operator, right } => {
            lemma_budget_suffices_for_operands(*left, *right, state, facts, rest, more);
        },
        Ast::IfElse { condition, then_block, else_block } => {
            lemma_budget_suffices(*condition, state, facts, rest, more);
            match eval(*condition, state, facts, rest) {
                Ok((ValueView::Bool(truth), after)) => {
                    if truth {
                        lemma_budget_suffices_for_block(then_block, after, facts, rest, more);
                    } else {
                        match else_block {
                            Some(block) => {
                                lemma_budget_suffices_for_block(block, after, facts, rest, more);
                            },
                            None => {},
                        }
                    }
                },
                _ => {},
            }
        },
        Ast::Ret { expression } => {
            lemma_budget_suffices(*expression, state, facts, rest, more);
        },
        Ast::ForLoop { variable, start, end, body } => {
            lemma_budget_suffices_for_operands(*start, *end, state, facts, rest, more);
            match eval(*start, state, facts, rest) {
                Ok((from, after_start)) => match eval(*end, after_start, facts, rest) {
                    Ok((to, after)) => match (from, to) {
                        (ValueView::Int(first), ValueView::Int(limit)) => {
                            lemma_budget_suffices_for_rounds(
                                variable,
                                first as int,
                                limit as int,
                                body,
                                after.variables.get(variable),
                                after,
                                facts,
                                rest,
                                more,
                            );
                        },
                        _ => {},
                    },
                    Err(_) => {},
                },
                Err(_) => {},
            }
        },
        Ast::WhileLoop { condition, body } => {
            lemma_budget_suffices_for_while(*condition, body, state, facts, rest, more);
        },
        _ => {},
    }
}

/// [`lemma_budget_suffices`] for two operands that are evaluated one after
/// the other.
proof fn lemma_budget_suffices_for_operands(
    left: Ast,
    right: Ast,
    state: State,
    facts: FloatFacts,
    fuel: nat,
    more: nat,
)
    requires
        !out_of_budget(eval(left, state, facts, fuel)),
        eval(left, state, facts, fuel) matches Ok((_, after)) ==> !out_of_budget(
            eval(right, after, facts, fuel),
        ),
    ensures
        eval(left, state, facts, fuel + more) == eval(left, state, facts, fuel),
        eval(left, state, facts, fuel) matches Ok((_, after)) ==> eval(
            right,
            after,
            facts,
            fuel + more,
        ) == eval(right, after, facts, fuel),
    decreases fuel, 2nat,
{
    lemma_budget_suffices(left, state, facts, fuel, more);
    match eval(left, state, facts, fuel) {
        Ok((_, after)) => {
            lemma_budget_suffices(right, after, facts, fuel, more);
        },
        Err(_) => {},
    }
}

/// [`lemma_budget_suffices`] for [`run_all`].
proof fn lemma_budget_suffices_for_all(
    nodes: Seq<Ast>,
    state: State,
    facts: FloatFacts,
    fuel: nat,
    more: nat,
)
    requires
        !out_of_budget(run_all(nodes, state, facts, fuel)),
    ensures
        run_all(nodes, state, facts, fuel + more) == run_all(nodes, state, facts, fuel),
    decreases fuel, 0nat,
{
    if nodes.len() > 0 {
        let rest = (fuel - 1) as nat;
        assert((fuel + more - 1) as nat == rest + more);
        lemma_budget_suffices(nodes[0], state, facts, rest, more);
        match eval(nodes[0], state, facts, rest) {
            Ok((_, after)) => {
                lemma_budget_suffices_for_all(nodes.drop_first(), after, facts, rest, more);
            },
            Err(_) => {},
        }
    }
}

/// [`lemma_budget_suffices`] for [`run_block`].
proof fn lemma_budget_suffices_for_block(
    nodes: Seq<Ast>,
    state: State,
    facts: FloatFacts,
    fuel: nat,
    more: nat,
)
    requires
        !out_of_budget(run_block(nodes, state, facts, fuel)),
    ensures
        run_block(nodes, state, facts, fuel + more) == run_block(nodes, state, facts, fuel),
    decreases fuel, 0nat,
{
    if nodes.len() > 0 {
        let rest = (fuel - 1) as nat;
        assert((fuel + more - 1) as nat == rest + more);
        lemma_budget_suffices(nodes[0], state, facts, rest, more);
        match eval(nodes[0], state, facts, rest) {
            Ok((value, after)) => {
                if !(value is Return) {
                    lemma_budget_suffices_for_block(nodes.drop_first(), after, facts, rest, more);
                }
            },
            Err(_) => {},
        }
    }
}

/// [`lemma_budget_suffices`] for [`eval_arguments`].
proof fn lemma_budget_suffices_for_arguments(
    nodes: Seq<Ast>,
    state: State,
    facts: FloatFacts,
    fuel: nat,
    more: nat,
)
    requires
        !out_of_budget(eval_arguments(nodes, state, facts, fuel)),
    ensures
        eval_arguments(nodes, state, facts, fuel + more) == eval_arguments(
            nodes,
            state,
            facts,
            fuel,
        ),
    decreases fuel, 0nat,
{
    if nodes.len() > 0 {
        let rest = (fuel - 1) as nat;
        assert((fuel + more - 1) as nat == rest + more);
        lemma_budget_suffices(nodes[0], state, facts, rest, more);
        match eval(nodes[0], state, facts, rest) {
            Ok((_, after)) => {
                lemma_budget_suffices_for_arguments(nodes.drop_first(), after, facts, rest, more);
            },
            Err(_) => {},
        }
    }
}

/// [`lemma_budget_suffices`] for [`run_while`].
proof fn lemma_budget_suffices_for_while(
    condition: Ast,
    body: Seq<Ast>,
    state: State,
    facts: FloatFacts,
    fuel: nat,
    more: nat,
)
    requires
        !out_of_budget(run_while(condition, body, state, facts, fuel)),
    ensures
        run_while(condition, body, state, facts, fuel + more) == run_while(
            condition,
            body,
            state,
            facts,
            fuel,
        ),
    decreases fuel, 0nat,
{
    let rest = (fuel - 1) as nat;
    assert((fuel + more - 1) as nat == rest + more);
    lemma_budget_suffices(condition, state, facts, rest, more);
    match eval(condition, state, facts, rest) {
        Ok((ValueView::Bool(true), checked)) => {
            lemma_budget_suffices_for_block(body, checked, facts, rest, more);
            match run_block(body, checked, facts, rest) {
                Ok((value, after)) => {
                    if !(value is Return) {
                        lemma_budget_suffices_for_while(condition, body, after, facts, rest, more);
                    }
                },
                Err(_) => {},
            }
        },
        _ => {},
    }
}

/// [`lemma_budget_suffices`] for [`run_for`].
proof fn lemma_budget_suffices_for_rounds(
    variable: Seq<char>,
    next: int,
    limit: int,
    body: Seq<Ast>,
    saved: Option<ValueView>,
    state: State,
    facts: FloatFacts,
    fuel: nat,
    more: nat,
)
    requires
        !out_of_budget(run_for(variable, next, limit, body, saved, state, facts, fuel)),
    ensures
        run_for(variable, next, limit, body, saved, state, facts, fuel + more) == run_for(
            variable,
            next,
            limit,
            body,
            saved,
            state,
            facts,
            fuel,
        ),
    decreases fuel, 0nat,
{
    if next < limit {
        let rest = (fuel - 1) as nat;
        assert((fuel + more - 1) as nat == rest + more);
        let bound = state.bind(variable, ValueView::Int(next as i64));
        lemma_budget_suffices_for_block(body, bound, facts, rest, more);
        match run_block(body, bound, facts, rest) {
            Ok((value, after)) => {
                if !(value is Return) {
                    lemma_budget_suffices_for_rounds(
                        variable,
                        next + 1,
                        limit,
                        body,
                        saved,
                        after,
                        facts,
                        rest,
                        more,
                    );
                }
            },
            Err(_) => {},
        }
    }
}

/// [`lemma_budget_suffices`] for [`call`].
pub proof fn lemma_budget_suffices_for_call(
    name: Seq<char>,
    args: Seq<ValueView>,
    state: State,
    facts: FloatFacts,
    fuel: nat,
    more: nat,
)
    requires
        !out_of_budget(call(name, args, state, facts, fuel)),
    ensures
        call(name, args, state, facts, fuel + more) == call(name, args, state, facts, fuel),
    decreases fuel, 0nat,
{
    if state.functions.contains_key(name) && args.len() == state.functions[name].params.len() {
        let rest = (fuel - 1) as nat;
        assert((fuel + more - 1) as nat == rest + more);
        let function = state.functions[name];
        let inside = State {
            variables: bind_parameters(state.variables, function.params, args),
            ..state
        };
        lemma_budget_suffices_for_block(function.body, inside, facts, rest, more);
    }
}

/// Whether an outcome is a request for a floating-point result.
pub open spec fn needs_float<T>(outcome: Result<T, InterruptView>) -> bool {
    outcome matches Err(InterruptView::NeedsFloat(_))
}

/// An operation that does not ask for a floating-point result has the same
/// outcome when more results are on record.
pub proof fn lemma_facts_suffice_for_operation(
    left: ValueView,
    operator: Seq<char>,
    right: ValueView,
    facts: FloatFacts,
    larger: FloatFacts,
)
    requires
        larger.extends(facts),
    ensures
        !needs_float(arithmetic(left, operator, right, facts)) ==> arithmetic(
            left,
            operator,
            right,
            larger,
        ) == arithmetic(left, operator, right, facts),
        !needs_float(comparison(left, operator, right, facts)) ==> comparison(
            left,
            operator,
            right,
            larger,
        ) == comparison(left, operator, right, facts),
{
    match (left, right) {
        (ValueView::Float(a), ValueView::Float(b)) => {
            match arithmetic_op(operator) {
                Some(op) => {
                    if facts.arithmetic.contains_key((op, a, b)) {
                        assert(larger.arithmetic.contains_key((op, a, b)));
                    }
                },
                None => {},
            }
            match comparison_op(operator) {
                Some(op) => {
                    if facts.comparisons.contains_key((op, a, b)) {
                        assert(larger.comparisons.contains_key((op, a, b)));
                    }
                },
                None => {},
            }
        },
        _ => {},
    }
}

/// Floating-point results that are added change nothing that was computed
/// without them. An evaluation that ends otherwise than by asking for a
/// floating-point result ends in exactly the same way when more results are
/// on record, as long as those that were there keep their answers. So the
/// value that a program yields once the host has answered all it asks does
/// not depend on what else the host has recorded.
pub proof fn lemma_facts_suffice(
    node: Ast,
    state: State,
    facts: FloatFacts,
    larger: FloatFacts,
    fuel: nat,
)
    requires
        larger.extends(facts),
        !needs_float(eval(node, state, facts, fuel)),
    ensures
        eval(node, state, larger, fuel) == eval(node, state, facts, fuel),
    decreases fuel, 1nat,
{
    if fuel > 0 {
        let rest = (fuel - 1) as nat;
        match node {
            Ast::Program(nodes) => {
                lemma_facts_suffice_for_all(nodes, state, facts, larger, rest);
                match run_all(nodes, state, facts, rest) {
                    Ok(after) => {
                        lemma_facts_suffice_for_call(entry_point(), seq![], after, facts, larger, rest);
                    },
                    Err(_) => {},
                }
            },
            Ast::ClassDeclaration { name, members } => {
                lemma_facts_suffice_for_all(members, state, facts, larger, rest);
            },
            Ast::Assignment { variable, expression } => {
                lemma_facts_suffice(*expression, state, facts, larger, rest);
            },
            Ast::FunctionCall { name, args } => {
                lemma_facts_suffice_for_arguments(args, state, facts, larger, rest);
                match eval_arguments(args, state, facts, rest) {
                    Ok((values, after)) => {
                        lemma_facts_suffice_for_call(name, values, after, facts, larger, rest);
                    },
                    Err(_) => {},
                }
            },
            Ast::Arithmetic { left, operator, right } => {
                lemma_facts_suffice_for_operands(*left, *right, state, facts, larger, rest);
                match eval(*left, state, facts, rest) {
                    Ok((a, after_left)) => match eval(*right, after_left, facts, rest) {
                        Ok((b, _)) => {
                            lemma_facts_suffice_for_operation(a, operator, b, facts, larger);
                        },
                        Err(_) => {},
                    },
                    Err(_) => {},
                }
            },
            Ast::Comparison { left, operator, right } => {
                lemma_facts_suffice_for_operands(*left, *right, state, facts, larger, rest);
                match eval(*left, state, facts, rest) {
                    Ok((a, after_left)) => match eval(*right, after_left, facts, rest) {
                        Ok((b, _)) => {
                            lemma_facts_suffice_for_operation(a, operator, b, facts, larger);
                        },
                        Err(_) => {},
                    },
                    Err(_) => {},
                }
            },
            Ast::Float(text) => {
                assert(facts.literals.contains_key(text));
            },
            Ast::IfElse { condition, then_block, else_block } => {
                lemma_facts_suffice(*condition, state, facts, larger, rest);
                match eval(*condition, state, facts, rest) {
                    Ok((ValueView::Bool(truth), after)) => {
                        if truth {
                            lemma_facts_suffice_for_block(then_block, after, facts, larger, rest);
                        } else {
                            match else_block {
                                Some(block) => {
                                    lemma_facts_suffice_for_block(block, after, facts, larger, rest);
                                },
                                None => {},
                            }
                        }
                    },
                    _ => {},
                }
            },
            Ast::Ret { expression } => {
                lemma_facts_suffice(*expression, state, facts, larger, rest);
            },
            Ast::ForLoop { variable, start, end, body } => {
                lemma_facts_suffice_for_operands(*start, *end, state, facts, larger, rest);
                match eval(*start, state, facts, rest) {
                    Ok((from, after_start)) => match eval(*end, after_start, facts, rest) {
                        Ok((to, after)) => match (from, to) {
                            (ValueView::Int(first), ValueView::Int(limit)) => {
                                lemma_facts_suffice_for_rounds(
                                    variable,
                                    first as int,
                                    limit as int,
                                    body,
                                    after.variables.get(variable),
                                    after,
                                    facts,
                                    larger,
                                    rest,
                                );
                            },
                            _ => {},
                        },
                        Err(_) => {},
                    },
                    Err(_) => {},
                }
            },
            Ast::WhileLoop { condition, body } => {
                lemma_facts_suffice_for_while(*condition, body, state, facts, larger, rest);
            },
            _ => {},
        }
    }
}

/// [`lemma_facts_suffice`] for two operands that are evaluated one after
/// the other.
proof fn lemma_facts_suffice_for_operands(
    left: Ast,
    right: Ast,
    state: State,
    facts: FloatFacts,
    larger: FloatFacts,
    fuel: nat,
)
    requires
        larger.extends(facts),
        !needs_float(eval(left, state, facts, fuel)),
        eval(left, state, facts, fuel) matches Ok((_, after)) ==> !needs_float(
            eval(right, after, facts, fuel),
        ),
    ensures
        eval(left, state, larger, fuel) == eval(left, state, facts, fuel),
        eval(left, state, facts, fuel) matches Ok((_, after)) ==> eval(
            right,
            after,
            larger, fuel) == eval(right, after, facts, fuel),
    decreases fuel, 2nat,
{
    if fuel > 0 {
        lemma_facts_suffice(left, state, facts, larger, fuel);
        match eval(left, state, facts, fuel) {
            Ok((_, after)) => {
                lemma_facts_suffice(right, after, facts, larger, fuel);
            },
            Err(_) => {},
        }
    }
}

/// [`lemma_facts_suffice`] for [`run_all`].
proof fn lemma_facts_suffice_for_all(
    nodes: Seq<Ast>,
    state: State,
    facts: FloatFacts,
    larger: FloatFacts,
    fuel: nat,
)
    requires
        larger.extends(facts),
        !needs_float(run_all(nodes, state, facts, fuel)),
    ensures
        run_all(nodes, state, larger, fuel) == run_all(nodes, state, facts, fuel),
    decreases fuel, 0nat,
{
    if fuel > 0 {
        if nodes.len() > 0 {
            let rest = (fuel - 1) as nat;
                lemma_facts_suffice(nodes[0], state, facts, larger, rest);
            match eval(nodes[0], state, facts, rest) {
                Ok((_, after)) => {
                    lemma_facts_suffice_for_all(nodes.drop_first(), after, facts, larger, rest);
                },
                Err(_) => {},
            }
        }
    }
}

/// [`lemma_facts_suffice`] for [`run_block`].
proof fn lemma_facts_suffice_for_block(
    nodes: Seq<Ast>,
    state: State,
    facts: FloatFacts,
    larger: FloatFacts,
    fuel: nat,
)
    requires
        larger.extends(facts),
        !needs_float(run_block(nodes, state, facts, fuel)),
    ensures
        run_block(nodes, state, larger, fuel) == run_block(nodes, state, facts, fuel),
    decreases fuel, 0nat,
{
    if fuel > 0 {
        if nodes.len() > 0 {
            let rest = (fuel - 1) as nat;
                lemma_facts_suffice(nodes[0], state, facts, larger, rest);
            match eval(nodes[0], state, facts, rest) {
                Ok((value, after)) => {
                    if !(value is Return) {
                        lemma_facts_suffice_for_block(nodes.drop_first(), after, facts, larger, rest);
                    }
                },
                Err(_) => {},
            }
        }
    }
}

/// [`lemma_facts_suffice`] for [`eval_arguments`].
proof fn lemma_facts_suffice_for_arguments(
    nodes: Seq<Ast>,
    state: State,
    facts: FloatFacts,
    larger: FloatFacts,
    fuel: nat,
)
    requires
        larger.extends(facts),
        !needs_float(eval_arguments(nodes, state, facts, fuel)),
    ensures
        eval_arguments(nodes, state, larger, fuel) == eval_arguments(
            nodes,
            state,
            facts,
            fuel,
        ),
    decreases fuel, 0nat,
{
    if fuel > 0 {
        if nodes.len() > 0 {
            let rest = (fuel - 1) as nat;
                lemma_facts_suffice(nodes[0], state, facts, larger, rest);
            match eval(nodes[0], state, facts, rest) {
                Ok((_, after)) => {
                    lemma_facts_suffice_for_arguments(nodes.drop_first(), after, facts, larger, rest);
                },
                Err(_) => {},
            }
        }
    }
}

/// [`lemma_facts_suffice`] for [`run_while`].
proof fn lemma_facts_suffice_for_while(
    condition: Ast,
    body: Seq<Ast>,
    state: State,
    facts: FloatFacts,
    larger: FloatFacts,
    fuel: nat,
)
    requires
        larger.extends(facts),
        !needs_float(run_while(condition, body, state, facts, fuel)),
    ensures
        run_while(condition, body, state, larger, fuel) == run_while(
            condition,
            body,
            state,
            facts,
            fuel,
        ),
    decreases fuel, 0nat,
{
    if fuel > 0 {
        let rest = (fuel - 1) as nat;
        lemma_facts_suffice(condition, state, facts, larger, rest);
        match eval(condition, state, facts, rest) {
            Ok((ValueView::Bool(true), checked)) => {
                lemma_facts_suffice_for_block(body, checked, facts, larger, rest);
                match run_block(body, checked, facts, rest) {
                    Ok((value, after)) => {
                        if !(value is Return) {
                            lemma_facts_suffice_for_while(condition, body, after, facts, larger, rest);
                        }
                    },
                    Err(_) => {},
                }
            },
            _ => {},
        }
    }
}

/// [`lemma_facts_suffice`] for [`run_for`].
proof fn lemma_facts_suffice_for_rounds(
    variable: Seq<char>,
    next: int,
    limit: int,
    body: Seq<Ast>,
    saved: Option<ValueView>,
    state: State,
    facts: FloatFacts,
    larger: FloatFacts,
    fuel: nat,
)
    requires
        larger.extends(facts),
        !needs_float(run_for(variable, next, limit, body, saved, state, facts, fuel)),
    ensures
        run_for(variable, next, limit, body, saved, state, larger, fuel) == run_for(
            variable,
            next,
            limit,
            body,
            saved,
            state,
            facts,
            fuel,
        ),
    decreases fuel, 0nat,
{
    if fuel > 0 {
        if next < limit {
            let rest = (fuel - 1) as nat;
                let bound = state.bind(variable, ValueView::Int(next as i64));
            lemma_facts_suffice_for_block(body, bound, facts, larger, rest);
            match run_block(body, bound, facts, rest) {
                Ok((value, after)) => {
                    if !(value is Return) {
                        lemma_facts_suffice_for_rounds(
                            variable,
                            next + 1,
                            limit,
                            body,
                            saved,
                            after,
                            facts,
                            larger,
                            rest,
                        );
                    }
                },
                Err(_) => {},
            }
        }
    }
}

/// [`lemma_facts_suffice`] for [`call`].
pub proof fn lemma_facts_suffice_for_call(
    name: Seq<char>,
    args: Seq<ValueView>,
    state: State,
    facts: FloatFacts,
    larger: FloatFacts,
    fuel: nat,
)
    requires
        larger.extends(facts),
        !needs_float(call(name, args, state, facts, fuel)),
    ensures
        call(name, args, state, larger, fuel) == call(name, args, state, facts, fuel),
    decreases fuel, 0nat,
{
    if fuel > 0 {
        if state.functions.contains_key(name) && args.len() == state.functions[name].params.len() {
            let rest = (fuel - 1) as nat;
                let function = state.functions[name];
            let inside = State {
                variables: bind_parameters(state.variables, function.params, args),
                ..state
            };
            lemma_facts_suffice_for_block(function.body, inside, facts, larger, rest);
        }
    }
}

/// Zero divided by anything but zero is zero.
proof fn lemma_zero_quotient(b: int)
    requires
        b != 0,
    ensures
        0int / b == 0,
        0int / (-b) == 0,
{
    assert(0int / b == 0) by (nonlinear_arith)
        requires
            b != 0,
    ;
    assert(0int / (-b) == 0) by (nonlinear_arith)
        requires
            b != 0,
    ;
}

impl RuntimeError {
    /// What went wrong, in words.
    pub open spec fn spec_message(self) -> Seq<char> {
        match self {
            RuntimeError::UndefinedVariable => "undefined variable"@,
            RuntimeError::UndefinedFunction => "function not found"@,
            RuntimeError::ArityMismatch => "wrong number of arguments"@,
            RuntimeError::UnsupportedOperands => "unsupported operands"@,
            RuntimeError::NonBooleanCondition => "condition must be a boolean"@,
            RuntimeError::NonIntegerRange => "the bounds of a 'for' loop must be integers"@,
            RuntimeError::DivisionByZero => "division by zero"@,
            RuntimeError::ArithmeticOverflow => "integer overflow"@,
            RuntimeError::StepLimitExceeded => "budget used up"@,
        }
    }

    /// What went wrong, in words.
    pub fn message(&self) -> (text: &'static str)
        ensures
            text@ == self.spec_message(),
    {
        match self {
            RuntimeError::UndefinedVariable => "undefined variable",
            RuntimeError::UndefinedFunction => "function not found",
            RuntimeError::ArityMismatch => "wrong number of arguments",
            RuntimeError::UnsupportedOperands => "unsupported operands",
            RuntimeError::NonBooleanCondition => "condition must be a boolean",
            RuntimeError::NonIntegerRange => "the bounds of a 'for' loop must be integers",
            RuntimeError::DivisionByZero => "division by zero",
            RuntimeError::ArithmeticOverflow => "integer overflow",
            RuntimeError::StepLimitExceeded => "budget used up",
        }
    }
}

impl Interrupt {
    /// Why evaluation stopped, in words.
    pub open spec fn spec_message(self) -> Seq<char> {
        match self {
            Interrupt::Fault(e) => "runtime error: "@ + e.spec_message(),
            Interrupt::NeedsFloat(_) => "a floating-point result is needed"@,
        }
    }

    /// Why evaluation stopped, in words.
    pub fn message(&self) -> (text: String)
        ensures
            text@ == self.spec_message(),
    {
        match self {
            Interrupt::Fault(e) => {
                let mut text = "runtime error: ".to_owned();
                text.append(e.message());
                text
            },
            Interrupt::NeedsFloat(_) => "a floating-point result is needed".to_owned(),
        }
    }
}

} // verus!
