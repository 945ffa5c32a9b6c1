//! The evaluator: a variable table, a "last value" register and an
//! output buffer, together with the specification-level semantics that
//! `eval_expr` and `exec_stmt` are proved to implement.

use vstd::prelude::*;
use vstd::hash_map::StringHashMap;

use crate::ast::{Expr, ExprView, Stmt, StmtView, Value, ValueView};
use crate::numerals::int_text;
use crate::numerals::i64_to_string;

verus! {

/// An error raised while a statement runs. Every failure is terminal for
/// the current line only; the environment keeps whatever the statement
/// changed before the failure.
#[derive(Debug, PartialEq, Eq)]
pub enum RuntimeError {
    /// A variable was read before anything was set into it.
    UndefinedVar(String),
    /// The pronoun `it` was used before any assignment ran.
    NoLastValue,
    /// An ordering comparison saw a string, or an equality saw one
    /// integer and one string.
    CompareTypeMismatch,
    /// The target of add/subtract/multiply has no binding.
    UndefinedTarget(String),
    /// The target of add/subtract/multiply holds a string.
    TargetNotInt(String),
    /// The source of add/subtract/multiply evaluated to a string.
    OperandNotInt,
    /// An `if` condition evaluated to a string.
    ConditionNotInt,
    /// A loop count evaluated to a string.
    CountNotInt,
    /// The arithmetic result does not fit in a signed 64-bit integer.
    Overflow,
}

/// Mathematical model of a [`RuntimeError`].
pub enum ErrorView {
    UndefinedVar(Seq<char>),
    NoLastValue,
    CompareTypeMismatch,
    UndefinedTarget(Seq<char>),
    TargetNotInt(Seq<char>),
    OperandNotInt,
    ConditionNotInt,
    CountNotInt,
    Overflow,
}

impl DeepView for RuntimeError {
    type V = ErrorView;

    open spec fn deep_view(&self) -> ErrorView {
        match self {
            RuntimeError::UndefinedVar(n) => ErrorView::UndefinedVar(n@),
            RuntimeError::NoLastValue => ErrorView::NoLastValue,
            RuntimeError::CompareTypeMismatch => ErrorView::CompareTypeMismatch,
            RuntimeError::UndefinedTarget(n) => ErrorView::UndefinedTarget(n@),
            RuntimeError::TargetNotInt(n) => ErrorView::TargetNotInt(n@),
            RuntimeError::OperandNotInt => ErrorView::OperandNotInt,
            RuntimeError::ConditionNotInt => ErrorView::ConditionNotInt,
            RuntimeError::CountNotInt => ErrorView::CountNotInt,
            RuntimeError::Overflow => ErrorView::Overflow,
        }
    }
}

/// The model of the evaluator's state: the variable environment, the
/// value of the most recent assignment, and the lines printed so far.
pub struct EvalState {
    pub env: Map<Seq<char>, ValueView>,
    pub last: Option<ValueView>,
    pub out: Seq<Seq<char>>,
}

/// The state of a fresh evaluator: nothing bound, no last value, no
/// output.
pub open spec fn init_state() -> EvalState {
    EvalState { env: Map::empty(), last: None, out: Seq::empty() }
}

/// The view of an evaluation result.
pub open spec fn eval_result_view(r: Result<Value, RuntimeError>) -> Result<
    ValueView,
    ErrorView,
> {
    match r {
        Ok(v) => Ok(v.deep_view()),
        Err(e) => Err(e.deep_view()),
    }
}

/// The view of an execution result.
pub open spec fn exec_result_view(r: Result<(), RuntimeError>) -> Result<(), ErrorView> {
    match r {
        Ok(u) => Ok(u),
        Err(e) => Err(e.deep_view()),
    }
}

/// The text that `show` prints for a value: decimal for an integer, the
/// raw characters for a string.
pub open spec fn value_text(v: ValueView) -> Seq<char> {
    match v {
        ValueView::Int(i) => int_text(i),
        ValueView::Str(s) => s,
    }
}

/// Expression evaluation over the model: reads the environment and the
/// last-value register, changes nothing. Comparisons require matching
/// applicable types and yield the integer 1 or 0; there is no boolean
/// type.
pub open spec fn spec_eval(
    env: Map<Seq<char>, ValueView>,
    last: Option<ValueView>,
    e: ExprView,
) -> Result<ValueView, ErrorView>
    decreases e,
{
    match e {
        ExprView::Int(i) => Ok(ValueView::Int(i)),
        ExprView::Str(s) => Ok(ValueView::Str(s)),
        ExprView::Var(name) => if env.contains_key(name) {
            Ok(env[name])
        } else {
            Err(ErrorView::UndefinedVar(name))
        },
        ExprView::LastValue => match last {
            Some(v) => Ok(v),
            None => Err(ErrorView::NoLastValue),
        },
        ExprView::Greater(a, b) => spec_compare_ord(
            spec_eval(env, last, *a),
            spec_eval(env, last, *b),
            true,
        ),
        ExprView::Less(a, b) => spec_compare_ord(
            spec_eval(env, last, *a),
            spec_eval(env, last, *b),
            false,
        ),
        ExprView::Equal(a, b) => spec_compare_eq(
            spec_eval(env, last, *a),
            spec_eval(env, last, *b),
        ),
    }
}

/// An ordering comparison over two evaluation results: the left error
/// wins, then the right, then both sides must be integers.
pub open spec fn spec_compare_ord(
    ra: Result<ValueView, ErrorView>,
    rb: Result<ValueView, ErrorView>,
    greater: bool,
) -> Result<ValueView, ErrorView> {
    if ra is Err {
        ra
    } else if rb is Err {
        rb
    } else {
        match (ra->Ok_0, rb->Ok_0) {
            (ValueView::Int(x), ValueView::Int(y)) => {
                let holds = if greater {
                    x > y
                } else {
                    x < y
                };
                Ok(ValueView::Int(if holds {
                    1
                } else {
                    0
                }))
            },
            _ => Err(ErrorView::CompareTypeMismatch),
        }
    }
}

/// An equality comparison over two evaluation results: accepts two
/// integers or two strings.
pub open spec fn spec_compare_eq(
    ra: Result<ValueView, ErrorView>,
    rb: Result<ValueView, ErrorView>,
) -> Result<ValueView, ErrorView> {
    if ra is Err {
        ra
    } else if rb is Err {
        rb
    } else {
        match (ra->Ok_0, rb->Ok_0) {
            (ValueView::Int(x), ValueView::Int(y)) => Ok(
                ValueView::Int(
                    if x == y {
                        1
                    } else {
                        0
                    },
                ),
            ),
            (ValueView::Str(x), ValueView::Str(y)) => Ok(
                ValueView::Int(
                    if x == y {
                        1
                    } else {
                        0
                    },
                ),
            ),
            _ => Err(ErrorView::CompareTypeMismatch),
        }
    }
}

/// The three in-place arithmetic forms.
pub enum ArithKind {
    Plus,
    Minus,
    Times,
}

/// The mathematical result of one arithmetic form.
pub open spec fn arith_value(k: ArithKind, cur: int, x: int) -> int {
    match k {
        ArithKind::Plus => cur + x,
        ArithKind::Minus => cur - x,
        ArithKind::Times => cur * x,
    }
}

/// One arithmetic statement over the model. The target must already be
/// bound to an integer and the source must evaluate to an integer; only
/// `add` refreshes the last-value register (an inconsistency of the
/// surface language, kept as observed behaviour).
pub open spec fn spec_arith(st: EvalState, k: ArithKind, e: ExprView, name: Seq<char>) -> (
    EvalState,
    Result<(), ErrorView>,
) {
    match spec_eval(st.env, st.last, e) {
        Err(er) => (st, Err(er)),
        Ok(v) => if !st.env.contains_key(name) {
            (st, Err(ErrorView::UndefinedTarget(name)))
        } else {
            match st.env[name] {
                ValueView::Str(_) => (st, Err(ErrorView::TargetNotInt(name))),
                ValueView::Int(cur) => match v {
                    ValueView::Str(_) => (st, Err(ErrorView::OperandNotInt)),
                    ValueView::Int(x) => {
                        let r = arith_value(k, cur, x);
                        if i64::MIN <= r <= i64::MAX {
                            let last2 = if k is Plus {
                                Some(ValueView::Int(r))
                            } else {
                                st.last
                            };
                            (
                                EvalState {
                                    env: st.env.insert(name, ValueView::Int(r)),
                                    last: last2,
                                    out: st.out,
                                },
                                Ok(()),
                            )
                        } else {
                            (st, Err(ErrorView::Overflow))
                        }
                    },
                },
            }
        },
    }
}

/// Statement execution over the model: the state after the statement
/// (with whatever a failing statement changed before it failed) and the
/// result.
pub open spec fn spec_exec(st: EvalState, s: StmtView) -> (EvalState, Result<(), ErrorView>)
    decreases s, 0nat,
{
    match s {
        StmtView::Assign(name, e) => match spec_eval(st.env, st.last, e) {
            Err(er) => (st, Err(er)),
            Ok(v) => (
                EvalState { env: st.env.insert(name, v), last: Some(v), out: st.out },
                Ok(()),
            ),
        },
        StmtView::AddTo(e, name) => spec_arith(st, ArithKind::Plus, e, name),
        StmtView::SubFrom(e, name) => spec_arith(st, ArithKind::Minus, e, name),
        StmtView::MulBy(name, e) => spec_arith(st, ArithKind::Times, e, name),
        StmtView::Show(e) => match spec_eval(st.env, st.last, e) {
            Err(er) => (st, Err(er)),
            Ok(v) => (
                EvalState { env: st.env, last: st.last, out: st.out + seq![value_text(v)] },
                Ok(()),
            ),
        },
        StmtView::If(c, body) => match spec_eval(st.env, st.last, c) {
            Err(er) => (st, Err(er)),
            Ok(ValueView::Str(_)) => (st, Err(ErrorView::ConditionNotInt)),
            Ok(ValueView::Int(i)) => if i != 0 {
                spec_exec(st, *body)
            } else {
                (st, Ok(()))
            },
        },
        StmtView::Chain(a, b) => {
            let (st1, r1) = spec_exec(st, *a);
            if r1 is Err {
                (st1, r1)
            } else {
                spec_exec(st1, *b)
            }
        },
        StmtView::Loop(c, body) => match spec_eval(st.env, st.last, c) {
            Err(er) => (st, Err(er)),
            Ok(ValueView::Str(_)) => (st, Err(ErrorView::CountNotInt)),
            Ok(ValueView::Int(i)) => spec_exec_iter(
                st,
                *body,
                if i > 0 {
                    i as nat
                } else {
                    0
                },
            ),
        },
    }
}

/// Runs `body` `n` times in sequence, stopping at the first failure.
pub open spec fn spec_exec_iter(st: EvalState, body: StmtView, n: nat) -> (
    EvalState,
    Result<(), ErrorView>,
)
    decreases body, n + 1,
{
    if n == 0 {
        (st, Ok(()))
    } else {
        let (st1, r1) = spec_exec(st, body);
        if r1 is Err {
            (st1, r1)
        } else {
            spec_exec_iter(st1, body, (n - 1) as nat)
        }
    }
}

/// The view of a variable table: each stored value replaced by its model.
pub open spec fn value_views(m: Map<Seq<char>, Value>) -> Map<Seq<char>, ValueView> {
    m.map_values(|v: Value| v.deep_view())
}

/// `value_views` keeps the domain and views each value.
pub proof fn lemma_value_views(m: Map<Seq<char>, Value>)
    ensures
        value_views(m).dom() == m.dom(),
        forall|k: Seq<char>|
            m.contains_key(k) ==> #[trigger] value_views(m)[k] == m[k].deep_view(),
{
}

/// Viewing a table commutes with inserting into it.
pub proof fn lemma_value_views_insert(m: Map<Seq<char>, Value>, k: Seq<char>, v: Value)
    ensures
        value_views(m.insert(k, v)) == value_views(m).insert(k, v.deep_view()),
{
    assert(value_views(m.insert(k, v)) =~= value_views(m).insert(k, v.deep_view()));
}

/// The evaluator: a variable table, the value of the most recent
/// assignment, and the lines printed so far (drained by the caller).
pub struct Runtime {
    vars: StringHashMap<Value>,
    last_value: Option<Value>,
    output: Vec<String>,
}

impl View for Runtime {
    type V = EvalState;

    closed spec fn view(&self) -> EvalState {
        EvalState {
            env: value_views(self.vars@),
            last: self.last_value.deep_view(),
            out: self.output.deep_view(),
        }
    }
}

impl Runtime {
    /// A fresh evaluator with an empty environment, no last value and no
    /// buffered output.
    pub fn new() -> (r: Self)
        ensures
            r@ == init_state(),
    {
        let r = Runtime { vars: StringHashMap::new(), last_value: None, output: Vec::new() };
        proof {
            assert(value_views(r.vars@) =~= Map::<Seq<char>, ValueView>::empty());
            assert(r.output.deep_view() =~= Seq::<Seq<char>>::empty());
        }
        r
    }

    /// Looks a variable up, for callers that inspect the environment.
    pub fn get_var(&self, name: &str) -> (r: Option<&Value>)
        ensures
            match r {
                Some(v) => self@.env.contains_key(name@) && v.deep_view() == self@.env[name@],
                None => !self@.env.contains_key(name@),
            },
    {
        proof {
            lemma_value_views(self.vars@);
        }
        self.vars.get(name)
    }

    /// The lines printed so far and not yet drained.
    pub fn output(&self) -> (o: &Vec<String>)
        ensures
            o.deep_view() == self@.out,
    {
        &self.output
    }

    /// Hands the buffered output lines over and empties the buffer; the
    /// environment and the last value stay as they are.
    pub fn take_output(&mut self) -> (lines: Vec<String>)
        ensures
            lines.deep_view() == old(self)@.out,
            final(self)@ == (EvalState { out: Seq::empty(), ..old(self)@ }),
    {
        let mut lines: Vec<String> = Vec::new();
        core::mem::swap(&mut self.output, &mut lines);
        proof {
            assert(self.output.deep_view() =~= Seq::<Seq<char>>::empty());
        }
        lines
    }

    /// Evaluates an expression against the current state; reads the
    /// environment and the last-value register, changes nothing.
    pub fn eval_expr(&self, expr: &Expr) -> (r: Result<Value, RuntimeError>)
        ensures
            eval_result_view(r) == spec_eval(self@.env, self@.last, expr.deep_view()),
        decreases expr,
    {
        proof {
            lemma_value_views(self.vars@);
        }
        match expr {
            Expr::Int(i) => Ok(Value::Int(*i)),
            Expr::Str(s) => Ok(Value::Str(s.clone())),
            Expr::Var(name) => match self.vars.get(name.as_str()) {
                Some(v) => Ok(v.clone()),
                None => Err(RuntimeError::UndefinedVar(name.clone())),
            },
            Expr::LastValue => match &self.last_value {
                Some(v) => Ok(v.clone()),
                None => Err(RuntimeError::NoLastValue),
            },
            Expr::Greater(a, b) => match self.eval_expr(a) {
                Err(er) => Err(er),
                Ok(va) => match self.eval_expr(b) {
                    Err(er) => Err(er),
                    Ok(vb) => match (va, vb) {
                        (Value::Int(x), Value::Int(y)) => Ok(
                            Value::Int(
                                if x > y {
                                    1
                                } else {
                                    0
                                },
                            ),
                        ),
                        _ => Err(RuntimeError::CompareTypeMismatch),
                    },
                },
            },
            Expr::Less(a, b) => match self.eval_expr(a) {
                Err(er) => Err(er),
                Ok(va) => match self.eval_expr(b) {
                    Err(er) => Err(er),
                    Ok(vb) => match (va, vb) {
                        (Value::Int(x), Value::Int(y)) => Ok(
                            Value::Int(
                                if x < y {
                                    1
                                } else {
                                    0
                                },
                            ),
                        ),
                        _ => Err(RuntimeError::CompareTypeMismatch),
                    },
                },
            },
            Expr::Equal(a, b) => match self.eval_expr(a) {
                Err(er) => Err(er),
                Ok(va) => match self.eval_expr(b) {
                    Err(er) => Err(er),
                    Ok(vb) => match (va, vb) {
                        (Value::Int(x), Value::Int(y)) => Ok(
                            Value::Int(
                                if x == y {
                                    1
                                } else {
                                    0
                                },
                            ),
                        ),
                        (Value::Str(x), Value::Str(y)) => Ok(
                            Value::Int(
                                if x == y {
                                    1
                                } else {
                                    0
                                },
                            ),
                        ),
                        _ => Err(RuntimeError::CompareTypeMismatch),
                    },
                },
            },
        }
    }

    /// One arithmetic statement: `add`, `subtract` or `multiply` into an
    /// existing integer binding.
    fn arith_stmt(&mut self, kind: ArithKind, e: &Expr, name: &String) -> (r: Result<
        (),
        RuntimeError,
    >)
        ensures
            ({
                let (st, res) = spec_arith(
                    old(self)@,
                    kind,
                    e.deep_view(),
                    name@,
                );
                final(self)@ == st && exec_result_view(r) == res
            }),
    {
        let val = match self.eval_expr(e) {
            Err(er) => {
                return Err(er);
            },
            Ok(v) => v,
        };
        proof {
            lemma_value_views(self.vars@);
        }
        let cur: i64;
        match self.vars.get(name.as_str()) {
            None => {
                return Err(RuntimeError::UndefinedTarget(name.clone()));
            },
            Some(Value::Str(_)) => {
                return Err(RuntimeError::TargetNotInt(name.clone()));
            },
            Some(Value::Int(c)) => {
                cur = *c;
            },
        }
        let x: i64 = match val {
            Value::Str(_) => {
                return Err(RuntimeError::OperandNotInt);
            },
            Value::Int(x) => x,
        };
        let computed: Option<i64> = match kind {
            ArithKind::Plus => cur.checked_add(x),
            ArithKind::Minus => cur.checked_sub(x),
            ArithKind::Times => cur.checked_mul(x),
        };
        match computed {
            None => Err(RuntimeError::Overflow),
            Some(n) => {
                proof {
                    lemma_value_views_insert(self.vars@, name@, Value::Int(n));
                }
                self.vars.insert(name.clone(), Value::Int(n));
                if matches!(kind, ArithKind::Plus) {
                    self.last_value = Some(Value::Int(n));
                }
                Ok(())
            },
        }
    }

    /// Executes one statement, mutating the environment, the last-value
    /// register and the output buffer exactly as the model does.
    #[verifier::loop_isolation(false)]
    pub fn exec_stmt(&mut self, stmt: &Stmt) -> (r: Result<(), RuntimeError>)
        ensures
            ({
                let (st, res) = spec_exec(old(self)@, stmt.deep_view());
                final(self)@ == st && exec_result_view(r) == res
            }),
        decreases stmt,
    {
        match stmt {
            Stmt::Assign(name, e) => match self.eval_expr(e) {
                Err(er) => Err(er),
                Ok(val) => {
                    proof {
                        lemma_value_views_insert(self.vars@, name@, val);
                    }
                    self.vars.insert(name.clone(), val.clone());
                    self.last_value = Some(val);
                    Ok(())
                },
            },
            Stmt::AddTo(e, name) => self.arith_stmt(ArithKind::Plus, e, name),
            Stmt::SubFrom(e, name) => self.arith_stmt(ArithKind::Minus, e, name),
            Stmt::MulBy(name, e) => self.arith_stmt(ArithKind::Times, e, name),
            Stmt::Show(e) => match self.eval_expr(e) {
                Err(er) => Err(er),
                Ok(val) => {
                    let ghost prev = self.output.deep_view();
                    let line: String = match val {
                        Value::Int(i) => i64_to_string(i),
                        Value::Str(s) => s,
                    };
                    self.output.push(line);
                    proof {
                        assert(self.output.deep_view() =~= prev + seq![line@]);
                    }
                    Ok(())
                },
            },
            Stmt::If(c, body) => match self.eval_expr(c) {
                Err(er) => Err(er),
                Ok(Value::Str(_)) => Err(RuntimeError::ConditionNotInt),
                Ok(Value::Int(i)) => {
                    if i != 0 {
                        self.exec_stmt(body)
                    } else {
                        Ok(())
                    }
                },
            },
            Stmt::Chain(a, b) => {
                let r1 = self.exec_stmt(a);
                if r1.is_err() {
                    r1
                } else {
                    self.exec_stmt(b)
                }
            },
            Stmt::Loop(c, body) => match self.eval_expr(c) {
                Err(er) => Err(er),
                Ok(Value::Str(_)) => Err(RuntimeError::CountNotInt),
                Ok(Value::Int(count)) => {
                    let ghost st0 = self@;
                    let ghost bodyv = body.deep_view();
                    let ghost n0: nat = if count > 0 {
                        count as nat
                    } else {
                        0
                    };
                    let mut i: i64 = 0;
                    while i < count
                        invariant
                            0 <= i,
                            i <= count || (count <= 0 && i == 0),
                            n0 - i >= 0,
                            spec_exec_iter(st0, bodyv, n0) == spec_exec_iter(
                                self@,
                                bodyv,
                                (n0 - i) as nat,
                            ),
                        decreases count - i,
                    {
                        let r = self.exec_stmt(body);
                        if let Err(er) = r {
                            return Err(er);
                        }
                        i = i + 1;
                    }
                    Ok(())
                },
            },
        }
    }
}

/// Parses nothing and prints nothing itself: runs one already-parsed
/// statement on a fresh evaluator and hands back the lines it printed
/// and its result.
pub fn interpret(stmt: &Stmt) -> (r: (Vec<String>, Result<(), RuntimeError>))
    ensures
        ({
            let (st, res) = spec_exec(init_state(), stmt.deep_view());
            r.0.deep_view() == st.out && exec_result_view(r.1) == res
        }),
{
    let mut runtime = Runtime::new();
    let res = runtime.exec_stmt(stmt);
    (runtime.take_output(), res)
}

} // verus!
