//! Derivatives by a difference quotient.
//!
//! The derivative of an expression `f` by a variable at the point `x` is
//! `(f(x + h) - f(x)) / h` with the step `h = 10^-8`. The machine of this file
//! decides which expressions are evaluated in which contexts, and in which
//! order; it evaluates nothing itself. Even the sum `x + h` and the quotient
//! are expressions that it hands to its host, so that the arithmetic of the
//! host is the only one.

use crate::basetypes::{
    clone_values, lemma_operation_view, remove_named_variable, values_view, AstView, Context,
    ContextView, Operation, SimpleOpType, Value, ValueView, Variable, VariableView, AST,
};
use crate::errors::{EvalError, EvalErrorView};
use crate::evaluator::outcome_view;
use crate::semantics::Outcome;
use vstd::prelude::*;
use vstd::string::StringExecFns;

verus! {

/// The digits to which the solver and the calculus work.
pub const PREC: usize = 8;

/// The request to evaluate a tree in a context.
#[derive(Debug, PartialEq)]
pub struct Evaluate {
    pub ast: AST,
    pub context: Context,
}

pub struct EvaluateView {
    pub ast: AstView,
    pub context: ContextView,
}

impl View for Evaluate {
    type V = EvaluateView;

    open spec fn view(&self) -> EvaluateView {
        EvaluateView { ast: self.ast@, context: self.context@ }
    }
}

/// What a request is, if one was made.
pub open spec fn evaluate_view(request: Option<Evaluate>) -> Option<EvaluateView> {
    match request {
        Some(r) => Some(r@),
        None => None,
    }
}

/// What a reply is, if one was handed in.
pub open spec fn reply_view(reply: Option<Result<Vec<Value>, EvalError>>) -> Option<Outcome> {
    match reply {
        Some(r) => Some(outcome_view(r)),
        None => None,
    }
}

/// The numeral of the step `h`: ten to the power of minus [`PREC`].
pub open spec fn step_numeral() -> Seq<char> {
    "1e-"@ + crate::errors::decimal_text(PREC as nat)
}

/// The tree of `left op right`.
pub open spec fn binary(op_type: SimpleOpType, left: AstView, right: AstView) -> AstView {
    AstView::Simple { op_type, left: Box::new(left), right: Box::new(right) }
}

/// The tree `x + h`.
pub open spec fn shift_tree() -> AstView {
    binary(SimpleOpType::Add, AstView::Variable("x"@), AstView::Scalar(step_numeral()))
}

/// The tree `(a - b) / h`.
pub open spec fn quotient_tree() -> AstView {
    binary(
        SimpleOpType::Div,
        binary(SimpleOpType::Sub, AstView::Variable("a"@), AstView::Variable("b"@)),
        AstView::Scalar(step_numeral()),
    )
}

/// A context of variables alone.
pub open spec fn bindings(vars: Seq<VariableView>) -> ContextView {
    ContextView { vars, funs: Seq::empty() }
}

/// A variable with one value.
pub open spec fn binding(name: Seq<char>, value: ValueView) -> VariableView {
    VariableView { name, values: seq![value] }
}

/// The pairs of the values at the same places of two lists, as far as both
/// lists reach.
pub open spec fn zipped(first: Seq<ValueView>, second: Seq<ValueView>) -> Seq<
    (ValueView, ValueView),
> {
    Seq::new(
        if first.len() <= second.len() {
            first.len()
        } else {
            second.len()
        },
        |k: int| (first[k], second[k]),
    )
}

/// The first value alone, if there is one.
pub open spec fn first_of(values: Seq<ValueView>) -> Seq<ValueView> {
    if values.len() > 0 {
        seq![values[0]]
    } else {
        Seq::empty()
    }
}

pub enum DerivativePhaseView {
    Start,
    /// `f(x)` was asked for.
    Value,
    /// `x + h` was asked for; `values` are the values of `f(x)`.
    Shift { values: Seq<ValueView> },
    /// `f(x + h)` was asked for, with the variable bound to `moved`.
    Moved { values: Seq<ValueView>, moved: Seq<ValueView> },
    /// The quotient of one pair `(f(x + h), f(x))` was asked for.
    Quotient {
        now: (ValueView, ValueView),
        rest: Seq<(ValueView, ValueView)>,
        results: Seq<ValueView>,
    },
    Done(Outcome),
}

/// The state of a differentiation.
pub struct DerivativeView {
    pub expr: AstView,
    pub in_terms_of: Seq<char>,
    pub at: ValueView,
    /// The context without the variable of the differentiation.
    pub context: ContextView,
    /// The value of `f(x)`, where the caller knows it.
    pub known: Option<ValueView>,
    /// Of every evaluation the first value alone counts.
    pub single: bool,
    pub phase: DerivativePhaseView,
}

impl DerivativeView {
    /// The state in which a differentiation starts. With `known`, `f(x)` is
    /// not evaluated but taken from the caller; with `single`, only the first
    /// value of every evaluation counts.
    pub open spec fn start(
        expr: AstView,
        in_terms_of: Seq<char>,
        at: ValueView,
        context: ContextView,
        known: Option<ValueView>,
        single: bool,
    ) -> DerivativeView {
        DerivativeView {
            expr,
            in_terms_of,
            at,
            context: ContextView {
                vars: crate::basetypes::without_variable(context.vars, in_terms_of),
                funs: context.funs,
            },
            known,
            single,
            phase: DerivativePhaseView::Start,
        }
    }

    pub open spec fn phase(self, phase: DerivativePhaseView) -> DerivativeView {
        DerivativeView { phase, ..self }
    }

    pub open spec fn fail(self, error: EvalErrorView) -> DerivativeView {
        self.phase(DerivativePhaseView::Done(Err(error)))
    }

    /// The context in which the expression is evaluated at the given values
    /// of its variable.
    pub open spec fn with_point(self, values: Seq<ValueView>) -> ContextView {
        self.context.with_variable(VariableView { name: self.in_terms_of, values })
    }

    /// The values of an evaluation that count.
    pub open spec fn kept(self, values: Seq<ValueView>) -> Seq<ValueView> {
        if self.single {
            first_of(values)
        } else {
            values
        }
    }

    /// What the host is asked for in this state, if anything.
    pub open spec fn request(self) -> Option<EvaluateView> {
        match self.phase {
            DerivativePhaseView::Value => Some(
                EvaluateView { ast: self.expr, context: self.with_point(seq![self.at]) },
            ),
            DerivativePhaseView::Shift { values } => Some(
                EvaluateView {
                    ast: shift_tree(),
                    context: bindings(seq![binding("x"@, self.at)]),
                },
            ),
            DerivativePhaseView::Moved { values, moved } => Some(
                EvaluateView { ast: self.expr, context: self.with_point(moved) },
            ),
            DerivativePhaseView::Quotient { now, rest, results } => Some(
                EvaluateView {
                    ast: quotient_tree(),
                    context: bindings(seq![binding("a"@, now.0), binding("b"@, now.1)]),
                },
            ),
            _ => None,
        }
    }

    /// The outcome, once the differentiation is over.
    pub open spec fn outcome(self) -> Option<Outcome> {
        match self.phase {
            DerivativePhaseView::Done(outcome) => Some(outcome),
            _ => None,
        }
    }

    /// The quotient is asked for the next pair; after the last pair the
    /// quotients of all pairs are the derivative.
    pub open spec fn quotients(
        self,
        pairs: Seq<(ValueView, ValueView)>,
        results: Seq<ValueView>,
    ) -> DerivativeView {
        if pairs.len() == 0 {
            self.phase(DerivativePhaseView::Done(Ok(results)))
        } else {
            self.phase(
                DerivativePhaseView::Quotient { now: pairs[0], rest: pairs.drop_first(), results },
            )
        }
    }

    /// The machine goes on with the values that its host evaluated.
    pub open spec fn resume(self, values: Seq<ValueView>) -> DerivativeView {
        match self.phase {
            DerivativePhaseView::Value => self.phase(
                DerivativePhaseView::Shift { values: self.kept(values) },
            ),
            DerivativePhaseView::Shift { values: at_point } => self.phase(
                DerivativePhaseView::Moved { values: at_point, moved: values },
            ),
            DerivativePhaseView::Moved { values: at_point, moved } => if !self.single
                && at_point.len() != values.len() {
                self.fail(
                    EvalErrorView::MathError(
                        "Amount of solutions for f(x) and f(x+h) are different!"@,
                    ),
                )
            } else {
                self.quotients(zipped(self.kept(values), at_point), Seq::empty())
            },
            DerivativePhaseView::Quotient { now, rest, results } => self.quotients(
                rest,
                results + self.kept(values),
            ),
            _ => self,
        }
    }

    /// One step of the machine. The first step looks at the point: only at a
    /// number is there a derivative. Then the machine waits for one
    /// evaluation after the other; an error of an evaluation ends it.
    pub open spec fn next(self, reply: Option<Outcome>) -> DerivativeView {
        match self.phase {
            DerivativePhaseView::Done(_) => self,
            DerivativePhaseView::Start => if !(self.at is Scalar) {
                self.fail(EvalErrorView::MathError("Only scalar values are allowed!"@))
            } else {
                match self.known {
                    Some(value) => self.phase(DerivativePhaseView::Shift { values: seq![value] }),
                    None => self.phase(DerivativePhaseView::Value),
                }
            },
            _ => match reply {
                None => self,
                Some(Err(error)) => self.fail(error),
                Some(Ok(values)) => self.resume(values),
            },
        }
    }

    /// The state after `steps` steps with a host that answers the request
    /// `r` by `host(r)`.
    pub open spec fn run(self, host: spec_fn(EvaluateView) -> Outcome, steps: nat) -> DerivativeView
        decreases steps,
    {
        if steps == 0 {
            self
        } else {
            self.next(
                match self.request() {
                    Some(request) => Some(host(request)),
                    None => None,
                },
            ).run(host, (steps - 1) as nat)
        }
    }
}

/// The quotients `(a - b) / h` of the pairs `(a, b)`, as a host computes
/// them, behind `results`; or the first error of the host.
pub open spec fn quotients_by(
    host: spec_fn(EvaluateView) -> Outcome,
    pairs: Seq<(ValueView, ValueView)>,
    results: Seq<ValueView>,
    single: bool,
) -> Outcome
    decreases pairs.len(),
{
    if pairs.len() == 0 {
        Ok(results)
    } else {
        match host(
            EvaluateView {
                ast: quotient_tree(),
                context: bindings(seq![binding("a"@, pairs[0].0), binding("b"@, pairs[0].1)]),
            },
        ) {
            Err(error) => Err(error),
            Ok(values) => quotients_by(
                host,
                pairs.drop_first(),
                results + (if single {
                    first_of(values)
                } else {
                    values
                }),
                single,
            ),
        }
    }
}

/// The values `f(x)` of the expression at the point, as a host computes
/// them: the value that the caller knows, or what the host evaluates the
/// expression to.
pub open spec fn values_at_point(
    start: DerivativeView,
    host: spec_fn(EvaluateView) -> Outcome,
) -> Outcome {
    match start.known {
        Some(value) => Ok(seq![value]),
        None => match host(
            EvaluateView { ast: start.expr, context: start.with_point(seq![start.at]) },
        ) {
            Ok(values) => Ok(start.kept(values)),
            Err(error) => Err(error),
        },
    }
}

/// The outcome of the differentiation that starts in `start`, as a host
/// computes it that evaluates the request `r` to `host(r)`: with the values
/// `f(x)` of the expression at the point, and its values `f(x + h)` at the
/// point that the host gives for `x + h`, the quotients
/// `(f(x + h) - f(x)) / h`, one for every pair of values at the same place.
/// At what is no number there is no derivative; the first error of the host
/// is the outcome; and where all values count, there have to be as many
/// values at the one point as at the other.
pub open spec fn outcome_by(start: DerivativeView, host: spec_fn(EvaluateView) -> Outcome) -> Outcome {
    if !(start.at is Scalar) {
        Err(EvalErrorView::MathError("Only scalar values are allowed!"@))
    } else {
        match values_at_point(start, host) {
            Err(error) => Err(error),
            Ok(here) => match host(
                EvaluateView {
                    ast: shift_tree(),
                    context: bindings(seq![binding("x"@, start.at)]),
                },
            ) {
                Err(error) => Err(error),
                Ok(moved) => match host(
                    EvaluateView { ast: start.expr, context: start.with_point(moved) },
                ) {
                    Err(error) => Err(error),
                    Ok(there) => if !start.single && here.len() != there.len() {
                        Err(
                            EvalErrorView::MathError(
                                "Amount of solutions for f(x) and f(x+h) are different!"@,
                            ),
                        )
                    } else {
                        quotients_by(
                            host,
                            zipped(start.kept(there), here),
                            Seq::empty(),
                            start.single,
                        )
                    },
                },
            },
        }
    }
}

/// The derivative of `expr` by `in_terms_of` at `at` in `context`, as a host
/// computes it (see [`outcome_by`]).
pub open spec fn derivative_by(
    host: spec_fn(EvaluateView) -> Outcome,
    expr: AstView,
    in_terms_of: Seq<char>,
    at: ValueView,
    context: ContextView,
    known: Option<ValueView>,
    single: bool,
) -> Outcome {
    outcome_by(DerivativeView::start(expr, in_terms_of, at, context, known, single), host)
}

/// A machine that is done stays done, whatever its host answers.
pub proof fn lemma_done_stays(
    state: DerivativeView,
    host: spec_fn(EvaluateView) -> Outcome,
    steps: nat,
)
    requires
        state.outcome() is Some,
    ensures
        state.run(host, steps) == state,
    decreases steps,
{
    if steps > 0 {
        lemma_done_stays(state, host, (steps - 1) as nat);
    }
}

/// The machine that asks for the quotients of the pairs ends with the
/// quotients that its host computes. The number of its steps is returned.
pub proof fn lemma_quotients_run(
    state: DerivativeView,
    host: spec_fn(EvaluateView) -> Outcome,
    pairs: Seq<(ValueView, ValueView)>,
    results: Seq<ValueView>,
) -> (steps: nat)
    ensures
        state.quotients(pairs, results).run(host, steps).outcome() == Some(
            quotients_by(host, pairs, results, state.single),
        ),
    decreases pairs.len(),
{
    let asking = state.quotients(pairs, results);
    if pairs.len() == 0 {
        0
    } else {
        let request = EvaluateView {
            ast: quotient_tree(),
            context: bindings(seq![binding("a"@, pairs[0].0), binding("b"@, pairs[0].1)]),
        };
        assert(asking.request() == Some(request));
        match host(request) {
            Err(error) => {
                assert(asking.run(host, 1) == asking.next(Some(host(request))).run(host, 0));
                1
            },
            Ok(values) => {
                let more = results + asking.kept(values);
                let rest = lemma_quotients_run(asking, host, pairs.drop_first(), more);
                assert(asking.next(Some(host(request))) == asking.quotients(
                    pairs.drop_first(),
                    more,
                ));
                assert(asking.run(host, rest + 1) == asking.next(Some(host(request))).run(
                    host,
                    rest,
                ));
                rest + 1
            },
        }
    }
}

/// Steps can be made in two parts.
pub proof fn lemma_run_in_two(
    state: DerivativeView,
    host: spec_fn(EvaluateView) -> Outcome,
    first: nat,
    second: nat,
)
    ensures
        state.run(host, first + second) == state.run(host, first).run(host, second),
    decreases first,
{
    if first > 0 {
        let reply = match state.request() {
            Some(request) => Some(host(request)),
            None => None,
        };
        lemma_run_in_two(state.next(reply), host, (first - 1) as nat, second);
        assert(state.run(host, first + second) == state.next(reply).run(
            host,
            (first + second - 1) as nat,
        ));
    }
}

/// A differentiation that starts ends with the derivative as its host
/// computes it, after the number of steps that is returned.
pub proof fn lemma_derivative_run(start: DerivativeView, host: spec_fn(EvaluateView) -> Outcome) -> (steps:
    nat)
    requires
        start.phase is Start,
    ensures
        start.run(host, steps).outcome() == Some(outcome_by(start, host)),
{
    let first = start.next(None);
    assert(start.request() is None);
    assert(start.run(host, 1) == first.run(host, 0));
    if !(start.at is Scalar) {
        return 1;
    }
    let (valued, before): (DerivativeView, nat) = match start.known {
        Some(value) => (first, 1nat),
        None => {
            let request = EvaluateView {
                ast: start.expr,
                context: start.with_point(seq![start.at]),
            };
            assert(first.request() == Some(request));
            let second = first.next(Some(host(request)));
            assert(start.run(host, 2) == first.run(host, 1));
            assert(first.run(host, 1) == second.run(host, 0));
            (second, 2nat)
        },
    };
    assert(start.run(host, before) == valued);
    if valued.outcome() is Some {
        return before;
    }
    let here = valued.phase->Shift_values;
    let shift = EvaluateView {
        ast: shift_tree(),
        context: bindings(seq![binding("x"@, start.at)]),
    };
    assert(valued.request() == Some(shift));
    let shifted = valued.next(Some(host(shift)));
    lemma_run_in_two(start, host, before, 1);
    assert(valued.run(host, 1) == shifted.run(host, 0));
    if shifted.outcome() is Some {
        return before + 1;
    }
    let moved = shifted.phase->Moved_moved;
    let again = EvaluateView { ast: start.expr, context: start.with_point(moved) };
    assert(shifted.request() == Some(again));
    let compared = shifted.next(Some(host(again)));
    lemma_run_in_two(start, host, before + 1, 1);
    assert(shifted.run(host, 1) == compared.run(host, 0));
    if compared.outcome() is Some {
        return before + 2;
    }
    let there = host(again)->Ok_0;
    let rest = lemma_quotients_run(
        shifted,
        host,
        zipped(shifted.kept(there), here),
        Seq::empty(),
    );
    lemma_run_in_two(start, host, before + 2, rest);
    before + 2 + rest
}

/// Run by a host that answers the request `r` by `host(r)`, a
/// differentiation ends, whatever the host answers, and its outcome is the
/// derivative as that host computes it (see [`derivative_by`]). The number
/// of steps after which the differentiation is over is returned.
pub proof fn law_derivative(
    host: spec_fn(EvaluateView) -> Outcome,
    expr: AstView,
    in_terms_of: Seq<char>,
    at: ValueView,
    context: ContextView,
    known: Option<ValueView>,
    single: bool,
) -> (steps: nat)
    ensures
        forall|more: nat|
            more >= steps ==> (#[trigger] DerivativeView::start(
                expr,
                in_terms_of,
                at,
                context,
                known,
                single,
            ).run(host, more)).outcome() == Some(
                derivative_by(host, expr, in_terms_of, at, context, known, single),
            ),
{
    let start = DerivativeView::start(expr, in_terms_of, at, context, known, single);
    let wanted = derivative_by(host, expr, in_terms_of, at, context, known, single);
    let steps = lemma_derivative_run(start, host);
    assert forall|more: nat| more >= steps implies (#[trigger] start.run(host, more)).outcome()
        == Some(wanted) by {
        lemma_run_in_two(start, host, steps, (more - steps) as nat);
        lemma_done_stays(start.run(host, steps), host, (more - steps) as nat);
    }
    steps
}

pub enum DerivativePhase {
    Start,
    Value,
    Shift { values: Vec<Value> },
    Moved { values: Vec<Value>, moved: Vec<Value> },
    Quotient { now: (Value, Value), rest: Vec<(Value, Value)>, results: Vec<Value> },
    Done(Result<Vec<Value>, EvalError>),
}

/// The views of a list of pairs of values.
pub open spec fn pairs_view(pairs: Seq<(Value, Value)>) -> Seq<(ValueView, ValueView)> {
    pairs.map_values(|p: (Value, Value)| (p.0@, p.1@))
}

impl View for DerivativePhase {
    type V = DerivativePhaseView;

    open spec fn view(&self) -> DerivativePhaseView {
        match self {
            DerivativePhase::Start => DerivativePhaseView::Start,
            DerivativePhase::Value => DerivativePhaseView::Value,
            DerivativePhase::Shift { values } => DerivativePhaseView::Shift {
                values: values_view(values@),
            },
            DerivativePhase::Moved { values, moved } => DerivativePhaseView::Moved {
                values: values_view(values@),
                moved: values_view(moved@),
            },
            DerivativePhase::Quotient { now, rest, results } => DerivativePhaseView::Quotient {
                now: (now.0@, now.1@),
                rest: pairs_view(rest@),
                results: values_view(results@),
            },
            DerivativePhase::Done(outcome) => DerivativePhaseView::Done(outcome_view(*outcome)),
        }
    }
}

/// A differentiation (see [`DerivativeView`]).
pub struct Derivative {
    expr: AST,
    in_terms_of: String,
    at: Value,
    context: Context,
    known: Option<Value>,
    single: bool,
    phase: DerivativePhase,
}

impl View for Derivative {
    type V = DerivativeView;

    closed spec fn view(&self) -> DerivativeView {
        DerivativeView {
            expr: self.expr@,
            in_terms_of: self.in_terms_of@,
            at: self.at@,
            context: self.context@,
            known: match self.known {
                Some(value) => Some(value@),
                None => None,
            },
            single: self.single,
            phase: self.phase@,
        }
    }
}

/// The tree of `left op right`.
pub fn binary_tree(op_type: SimpleOpType, left: AST, right: AST) -> (res: AST)
    ensures
        res@ == binary(op_type, left@, right@),
{
    let res = AST::Operation(Box::new(Operation::SimpleOperation { op_type, left, right }));
    proof {
        lemma_operation_view(res);
    }
    res
}

/// The tree of a variable.
pub fn variable_tree(name: &str) -> (res: AST)
    ensures
        res@ == AstView::Variable(name@),
{
    AST::Variable(String::from_str(name))
}

/// The tree of a numeral.
pub fn numeral_tree(text: &str) -> (res: AST)
    ensures
        res@ == AstView::Scalar(text@),
{
    AST::Scalar(String::from_str(text))
}

/// The tree of the step `h`.
pub fn step_tree() -> (res: AST)
    ensures
        res@ == AstView::Scalar(step_numeral()),
{
    let mut text = String::from_str("1e-");
    let digits = crate::errors::decimal(PREC as u64);
    text.append(digits.as_str());
    AST::Scalar(text)
}

/// A context of the given variables, each with one value, and no functions.
pub fn bind_one(name: &str, value: &Value) -> (res: Context)
    ensures
        res@ == bindings(seq![binding(name@, value@)]),
{
    let mut values: Vec<Value> = Vec::new();
    values.push(value.clone());
    assert(values_view(values@) =~= seq![value@]);
    let mut vars: Vec<Variable> = Vec::new();
    vars.push(Variable::new(String::from_str(name), values));
    let res = Context { vars, funs: Vec::new() };
    assert(res@.vars =~= seq![binding(name@, value@)]);
    assert(res@.funs =~= Seq::empty());
    res
}

/// A context of two variables with one value each, and no functions.
pub fn bind_two(first: &str, a: &Value, second: &str, b: &Value) -> (res: Context)
    ensures
        res@ == bindings(seq![binding(first@, a@), binding(second@, b@)]),
{
    let mut first_values: Vec<Value> = Vec::new();
    first_values.push(a.clone());
    assert(values_view(first_values@) =~= seq![a@]);
    let mut second_values: Vec<Value> = Vec::new();
    second_values.push(b.clone());
    assert(values_view(second_values@) =~= seq![b@]);
    let mut vars: Vec<Variable> = Vec::new();
    vars.push(Variable::new(String::from_str(first), first_values));
    vars.push(Variable::new(String::from_str(second), second_values));
    let res = Context { vars, funs: Vec::new() };
    assert(res@.vars =~= seq![binding(first@, a@), binding(second@, b@)]);
    assert(res@.funs =~= Seq::empty());
    res
}

/// The first value alone, if there is one.
pub fn first_value_of(values: Vec<Value>) -> (res: Vec<Value>)
    ensures
        values_view(res@) == first_of(values_view(values@)),
{
    let mut res: Vec<Value> = Vec::new();
    if values.len() > 0 {
        res.push(values[0].clone());
        assert(values_view(res@) =~= seq![values_view(values@)[0]]);
    } else {
        assert(values_view(res@) =~= Seq::empty());
    }
    res
}

/// The pairs of the values at the same places of two lists.
pub fn zip_values(first: &Vec<Value>, second: &Vec<Value>) -> (res: Vec<(Value, Value)>)
    ensures
        pairs_view(res@) == zipped(values_view(first@), values_view(second@)),
{
    let count = if first.len() <= second.len() {
        first.len()
    } else {
        second.len()
    };
    let mut res: Vec<(Value, Value)> = Vec::new();
    let mut i: usize = 0;
    while i < count
        invariant
            i <= count,
            count <= first.len(),
            count <= second.len(),
            res.len() == i,
            forall|k: int|
                0 <= k < i ==> (#[trigger] res@[k]).0@ == first@[k]@ && res@[k].1@ == second@[k]@,
        decreases count - i,
    {
        res.push((first[i].clone(), second[i].clone()));
        i = i + 1;
    }
    assert(pairs_view(res@) =~= zipped(values_view(first@), values_view(second@)));
    res
}

/// `first`, then `second`.
pub fn join_values(first: Vec<Value>, second: Vec<Value>) -> (res: Vec<Value>)
    ensures
        values_view(res@) == values_view(first@) + values_view(second@),
{
    let mut res = first;
    let mut tail = second;
    res.append(&mut tail);
    assert(values_view(res@) =~= values_view(first@) + values_view(second@));
    res
}

impl Derivative {
    /// A differentiation of `expr` by `in_terms_of` at `at`, before its first
    /// step.
    fn new(
        expr: &AST,
        in_terms_of: &str,
        at: &Value,
        context: &Context,
        known: Option<Value>,
        single: bool,
    ) -> (res: Derivative)
        ensures
            res@ == DerivativeView::start(
                expr@,
                in_terms_of@,
                at@,
                context@,
                match known {
                    Some(value) => Some(value@),
                    None => None,
                },
                single,
            ),
    {
        Derivative {
            expr: expr.clone(),
            in_terms_of: String::from_str(in_terms_of),
            at: at.clone(),
            context: Context {
                vars: remove_named_variable(&context.vars, in_terms_of),
                funs: crate::basetypes::clone_functions(&context.funs),
            },
            known,
            single,
            phase: DerivativePhase::Start,
        }
    }

    /// The outcome, once the differentiation is over.
    pub fn outcome(&self) -> (res: Option<Result<Vec<Value>, EvalError>>)
        ensures
            reply_view(res) == self@.outcome(),
    {
        match &self.phase {
            DerivativePhase::Done(Ok(values)) => Some(Ok(clone_values(values))),
            DerivativePhase::Done(Err(e)) => Some(Err(e.clone())),
            _ => None,
        }
    }

    fn with_point(&self, values: Vec<Value>) -> (res: Context)
        ensures
            res@ == self@.with_point(values_view(values@)),
    {
        let mut context = self.context.clone();
        let variable = Variable::new(self.in_terms_of.clone(), values);
        context.add_var(&variable);
        context
    }

    /// What the host is asked for in this state, if anything.
    pub fn request(&self) -> (res: Option<Evaluate>)
        ensures
            evaluate_view(res) == self@.request(),
    {
        match &self.phase {
            DerivativePhase::Value => {
                let mut point: Vec<Value> = Vec::new();
                point.push(self.at.clone());
                assert(values_view(point@) =~= seq![self.at@]);
                Some(Evaluate { ast: self.expr.clone(), context: self.with_point(point) })
            },
            DerivativePhase::Shift { values } => Some(
                Evaluate {
                    ast: binary_tree(SimpleOpType::Add, variable_tree("x"), step_tree()),
                    context: bind_one("x", &self.at),
                },
            ),
            DerivativePhase::Moved { values, moved } => Some(
                Evaluate { ast: self.expr.clone(), context: self.with_point(clone_values(moved)) },
            ),
            DerivativePhase::Quotient { now, rest, results } => Some(
                Evaluate {
                    ast: binary_tree(
                        SimpleOpType::Div,
                        binary_tree(SimpleOpType::Sub, variable_tree("a"), variable_tree("b")),
                        step_tree(),
                    ),
                    context: bind_two("a", &now.0, "b", &now.1),
                },
            ),
            _ => None,
        }
    }

    fn phase(self, phase: DerivativePhase) -> (res: Derivative)
        ensures
            res@ == self@.phase(phase@),
    {
        Derivative {
            expr: self.expr,
            in_terms_of: self.in_terms_of,
            at: self.at,
            context: self.context,
            known: self.known,
            single: self.single,
            phase,
        }
    }

    fn kept(&self, values: Vec<Value>) -> (res: Vec<Value>)
        ensures
            values_view(res@) == self@.kept(values_view(values@)),
    {
        if self.single {
            first_value_of(values)
        } else {
            values
        }
    }

    fn quotients(self, pairs: Vec<(Value, Value)>, results: Vec<Value>) -> (res: Derivative)
        ensures
            res@ == self@.quotients(pairs_view(pairs@), values_view(results@)),
    {
        if pairs.len() == 0 {
            self.phase(DerivativePhase::Done(Ok(results)))
        } else {
            let mut rest = pairs;
            let now = rest.remove(0);
            assert(pairs_view(rest@) =~= pairs_view(pairs@).drop_first());
            assert(pairs_view(pairs@)[0] == (now.0@, now.1@));
            self.phase(DerivativePhase::Quotient { now, rest, results })
        }
    }

    /// One step of the machine (see [`DerivativeView::next`]). The request
    /// that comes back is the one that the new state waits for, if it waits.
    pub fn step(self, reply: Option<Result<Vec<Value>, EvalError>>) -> (res: (
        Derivative,
        Option<Evaluate>,
    ))
        ensures
            res.0@ == self@.next(reply_view(reply)),
            evaluate_view(res.1) == res.0@.request(),
    {
        let Derivative { expr, in_terms_of, at, context, known, single, phase } = self;
        let state = Derivative {
            expr,
            in_terms_of,
            at,
            context,
            known: None,
            single,
            phase: DerivativePhase::Start,
        };
        let ghost before = self@;
        let next = match phase {
            DerivativePhase::Done(outcome) => Derivative {
                expr: state.expr,
                in_terms_of: state.in_terms_of,
                at: state.at,
                context: state.context,
                known,
                single,
                phase: DerivativePhase::Done(outcome),
            },
            DerivativePhase::Start => {
                let scalar = state.at.is_scalar();
                match known {
                    Some(value) => {
                        let mut values: Vec<Value> = Vec::new();
                        values.push(value.clone());
                        assert(values_view(values@) =~= seq![value@]);
                        let state = Derivative {
                            expr: state.expr,
                            in_terms_of: state.in_terms_of,
                            at: state.at,
                            context: state.context,
                            known: Some(value),
                            single,
                            phase: DerivativePhase::Start,
                        };
                        if !scalar {
                            state.phase(
                                DerivativePhase::Done(
                                    Err(
                                        EvalError::MathError(
                                            String::from_str("Only scalar values are allowed!"),
                                        ),
                                    ),
                                ),
                            )
                        } else {
                            state.phase(DerivativePhase::Shift { values })
                        }
                    },
                    None => {
                        if !scalar {
                            state.phase(
                                DerivativePhase::Done(
                                    Err(
                                        EvalError::MathError(
                                            String::from_str("Only scalar values are allowed!"),
                                        ),
                                    ),
                                ),
                            )
                        } else {
                            state.phase(DerivativePhase::Value)
                        }
                    },
                }
            },
            waiting => {
                let state = Derivative {
                    expr: state.expr,
                    in_terms_of: state.in_terms_of,
                    at: state.at,
                    context: state.context,
                    known,
                    single,
                    phase: DerivativePhase::Start,
                };
                match reply {
                    None => state.phase(waiting),
                    Some(Err(error)) => {
                        assert(before.phase(waiting@) == before);
                        state.phase(DerivativePhase::Done(Err(error)))
                    },
                    Some(Ok(values)) => match waiting {
                        DerivativePhase::Value => {
                            let kept = state.kept(values);
                            state.phase(DerivativePhase::Shift { values: kept })
                        },
                        DerivativePhase::Shift { values: at_point } => state.phase(
                            DerivativePhase::Moved { values: at_point, moved: values },
                        ),
                        DerivativePhase::Moved { values: at_point, moved } => {
                            assert(values_view(at_point@).len() == at_point.len());
                            assert(values_view(values@).len() == values.len());
                            if !single && at_point.len() != values.len() {
                                state.phase(
                                    DerivativePhase::Done(
                                        Err(
                                            EvalError::MathError(
                                                String::from_str(
                                                    "Amount of solutions for f(x) and f(x+h) are different!",
                                                ),
                                            ),
                                        ),
                                    ),
                                )
                            } else {
                                let kept = state.kept(values);
                                let pairs = zip_values(&kept, &at_point);
                                let none: Vec<Value> = Vec::new();
                                assert(values_view(none@) =~= Seq::empty());
                                state.quotients(pairs, none)
                            }
                        },
                        DerivativePhase::Quotient { now, rest, results } => {
                            let kept = state.kept(values);
                            state.quotients(rest, join_values(results, kept))
                        },
                        other => state.phase(other),
                    },
                }
            },
        };
        let request = next.request();
        (next, request)
    }
}

/// The differentiation of `expr` by `in_terms_of` at `at`, before its first
/// step. It gives one derivative for every value of the expression.
pub fn calculate_derivative(expr: &AST, in_terms_of: &str, at: &Value, context: &Context) -> (res:
    Derivative)
    ensures
        res@ == DerivativeView::start(expr@, in_terms_of@, at@, context@, None, false),
{
    Derivative::new(expr, in_terms_of, at, context, None, false)
}

/// The differentiation of `expr` by `in_terms_of` at `at` for Newton's
/// method, before its first step. Of every evaluation the first value alone
/// counts; `fx` is the value of the expression at the point, where the caller
/// has it.
pub fn calculate_derivative_newton(
    expr: &AST,
    in_terms_of: &str,
    at: &Value,
    fx: Option<Value>,
    context: &Context,
) -> (res: Derivative)
    ensures
        res@ == DerivativeView::start(
            expr@,
            in_terms_of@,
            at@,
            context@,
            match fx {
                Some(value) => Some(value@),
                None => None,
            },
            true,
        ),
{
    Derivative::new(expr, in_terms_of, at, context, fx, true)
}

} // verus!
