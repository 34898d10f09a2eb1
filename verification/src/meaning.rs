//! What an evaluation comes to, all at once.
//!
//! The machine of [`crate::semantics`] moves in small steps between the
//! replies of its host. This file says what the outcome of a tree is without
//! any steps: given a host that answers the request `r` by `host(r)`, the
//! outcome of a tree is put together from the outcomes of the trees below it.
//! And it proves that the machine, run by that host, ends with exactly this
//! outcome.
//!
//! Every tree yields a list of outcomes. A tree with operands takes the
//! outcomes of its operands, from left to right, forms their cartesian
//! product, and does its work once for every choice of the product, in
//! order; a list strings the outcomes of its items together. The first error
//! on the way is the outcome of the whole.

use crate::basetypes::{AstView, ContextView, FunctionView, SimpleOpType, ValueView, VariableView};
use crate::errors::EvalErrorView;
use crate::helpers::combinations;
use crate::semantics::{
    absorb, body_scope, defects, find_function, lefts_of, lookup, matrices_of, pairs_of,
    primitive, singles_of, vectors_of, EvaluationView, FocusView, FrameView, Outcome,
    PendingView, ReplyView, RequestView,
};
use vstd::prelude::*;

verus! {

/// What a tree is evaluated in: the variables in scope, the functions, and
/// the name of the function whose body the tree belongs to.
pub struct Scope {
    pub vars: Seq<VariableView>,
    pub funs: Seq<FunctionView>,
    pub guard: Seq<char>,
}

impl Scope {
    pub open spec fn context(self) -> ContextView {
        ContextView { vars: self.vars, funs: self.funs }
    }
}

/// The scope that a state of the machine is in.
pub open spec fn scope_of(state: EvaluationView) -> Scope {
    Scope { vars: state.vars, funs: state.funs, guard: state.guard }
}

/// The outcome of a tree in a scope. `depth` bounds how deep trees and calls
/// may be nested within one another; there is no outcome where the
/// evaluation nests deeper, or where the host answers a request with a reply
/// of the wrong kind.
pub open spec fn value_of(
    host: spec_fn(RequestView) -> ReplyView,
    ast: AstView,
    scope: Scope,
    depth: nat,
) -> Option<Outcome>
    decreases depth, 0nat, 0nat,
{
    if depth == 0 {
        None
    } else {
        let below = (depth - 1) as nat;
        match ast {
            AstView::Scalar(text) => match host(RequestView::Number { text }) {
                ReplyView::Number(bits) => Some(Ok(seq![ValueView::Scalar(bits)])),
                _ => None,
            },
            AstView::Variable(name) => match lookup(scope.vars, name) {
                Some(values) => Some(Ok(values)),
                None => Some(Err(EvalErrorView::NoVariable(name))),
            },
            AstView::Vector(items) => gathered(
                host,
                PendingView::Vector { fields: Seq::empty() },
                items,
                scope,
                below,
            ),
            AstView::Matrix(rows) => gathered(
                host,
                PendingView::Matrix {
                    widths: rows.map_values(|r: Seq<AstView>| r.len()),
                    fields: Seq::empty(),
                },
                rows.flatten(),
                scope,
                below,
            ),
            AstView::List(items) => gathered(
                host,
                PendingView::List { outcomes: Seq::empty() },
                items,
                scope,
                below,
            ),
            AstView::Function { name, inputs } => if scope.guard == name {
                Some(Err(EvalErrorView::RecursiveFunction))
            } else {
                match find_function(scope.funs, name) {
                    None => Some(Err(EvalErrorView::NoFunction(name))),
                    Some(function) => if inputs.len() != function.inputs.len() {
                        Some(
                            Err(
                                EvalErrorView::WrongNumberOfArgs(
                                    function.inputs.len(),
                                    inputs.len(),
                                ),
                            ),
                        )
                    } else {
                        gathered(
                            host,
                            PendingView::Call { function, arguments: Seq::empty() },
                            inputs,
                            scope,
                            below,
                        )
                    },
                }
            },
            AstView::Simple { op_type, left, right } => gathered(
                host,
                PendingView::Simple { op_type, operands: Seq::empty() },
                seq![*left, *right],
                scope,
                below,
            ),
            AstView::Integral { expr, in_terms_of, lower_bound, upper_bound } => gathered(
                host,
                PendingView::Integral { expr: *expr, in_terms_of, bounds: Seq::empty() },
                seq![*lower_bound, *upper_bound],
                scope,
                below,
            ),
            AstView::Derivative { expr, in_terms_of, at } => gathered(
                host,
                PendingView::Derivative { expr: *expr, in_terms_of, points: Seq::empty() },
                seq![*at],
                scope,
                below,
            ),
            AstView::Equation { equations, search_vars } => match host(
                RequestView::Solve {
                    expressions: defects(equations),
                    search_vars,
                    context: scope.context(),
                },
            ) {
                ReplyView::Evaluated(outcome) => Some(outcome),
                _ => None,
            },
        }
    }
}

/// The outcome of a node that has gathered `pending` of its operands and has
/// the operands `operands` still to evaluate: the operands are evaluated from
/// left to right, and then the node does its work.
pub open spec fn gathered(
    host: spec_fn(RequestView) -> ReplyView,
    pending: PendingView,
    operands: Seq<AstView>,
    scope: Scope,
    depth: nat,
) -> Option<Outcome>
    decreases depth, 3nat, operands.len(),
{
    if operands.len() == 0 {
        finished(host, pending, scope, depth)
    } else {
        match value_of(host, operands[0], scope, depth) {
            None => None,
            Some(Err(error)) => Some(Err(error)),
            Some(Ok(values)) => match absorb(pending, values) {
                Err(error) => Some(Err(error)),
                Ok(more) => gathered(host, more, operands.drop_first(), scope, depth),
            },
        }
    }
}

/// The outcome of a node that has gathered the outcomes of all its operands:
/// its work is done once for every choice of the cartesian product of the
/// outcomes of its operands, and the outcomes of all choices, in order, are
/// the outcomes of the node.
pub open spec fn finished(
    host: spec_fn(RequestView) -> ReplyView,
    pending: PendingView,
    scope: Scope,
    depth: nat,
) -> Option<Outcome>
    decreases depth, 2nat, 0nat,
{
    match pending {
        PendingView::Vector { fields } => Some(Ok(vectors_of(combinations(fields)))),
        PendingView::Matrix { widths, fields } => Some(
            Ok(matrices_of(widths, combinations(fields))),
        ),
        PendingView::List { outcomes } => Some(Ok(outcomes)),
        PendingView::Call { function, arguments } => called(
            host,
            function,
            combinations(arguments),
            Seq::empty(),
            scope,
            depth,
        ),
        PendingView::Simple { op_type, operands } => if op_type == SimpleOpType::Parenths {
            Some(Ok(lefts_of(pairs_of(combinations(operands)))))
        } else {
            applied(host, op_type, pairs_of(combinations(operands)), Seq::empty())
        },
        PendingView::Integral { expr, in_terms_of, bounds } => integrated(
            host,
            expr,
            in_terms_of,
            pairs_of(combinations(bounds)),
            Seq::empty(),
            scope.context(),
        ),
        PendingView::Derivative { expr, in_terms_of, points } => differentiated(
            host,
            expr,
            in_terms_of,
            singles_of(combinations(points)),
            Seq::empty(),
            scope.context(),
        ),
    }
}

/// The outcomes of a call of a function of the user, behind `results`: the
/// body is evaluated once for every choice of arguments, in a scope of its
/// own and with the name of the function as the guard.
pub open spec fn called(
    host: spec_fn(RequestView) -> ReplyView,
    function: FunctionView,
    choices: Seq<Seq<ValueView>>,
    results: Seq<ValueView>,
    caller: Scope,
    depth: nat,
) -> Option<Outcome>
    decreases depth, 1nat, choices.len(),
{
    if choices.len() == 0 {
        Some(Ok(results))
    } else {
        match value_of(
            host,
            function.ast,
            Scope {
                vars: body_scope(function, choices[0], caller.vars),
                funs: caller.funs,
                guard: function.name,
            },
            depth,
        ) {
            None => None,
            Some(Err(error)) => Some(Err(error)),
            Some(Ok(values)) => called(
                host,
                function,
                choices.drop_first(),
                results + values,
                caller,
                depth,
            ),
        }
    }
}

/// The outcomes of an operation on the pairs of operands, behind `results`:
/// the host applies the primitive to one pair after the other; for `a&b` it
/// applies first the addition, then the subtraction.
pub open spec fn applied(
    host: spec_fn(RequestView) -> ReplyView,
    op_type: SimpleOpType,
    pairs: Seq<(ValueView, ValueView)>,
    results: Seq<ValueView>,
) -> Option<Outcome>
    decreases pairs.len(),
{
    if pairs.len() == 0 {
        Some(Ok(results))
    } else {
        match host(
            RequestView::Apply {
                op_type: primitive(op_type, false),
                left: pairs[0].0,
                right: pairs[0].1,
            },
        ) {
            ReplyView::Applied(Err(message)) => Some(Err(EvalErrorView::MathError(message))),
            ReplyView::Applied(Ok(values)) => if op_type == SimpleOpType::AddSub {
                match host(
                    RequestView::Apply {
                        op_type: primitive(op_type, true),
                        left: pairs[0].0,
                        right: pairs[0].1,
                    },
                ) {
                    ReplyView::Applied(Err(message)) => Some(
                        Err(EvalErrorView::MathError(message)),
                    ),
                    ReplyView::Applied(Ok(more)) => applied(
                        host,
                        op_type,
                        pairs.drop_first(),
                        results + values + more,
                    ),
                    _ => None,
                }
            } else {
                applied(host, op_type, pairs.drop_first(), results + values)
            },
            _ => None,
        }
    }
}

/// The outcomes of an integral for the pairs of bounds, behind `results`.
pub open spec fn integrated(
    host: spec_fn(RequestView) -> ReplyView,
    expr: AstView,
    in_terms_of: Seq<char>,
    pairs: Seq<(ValueView, ValueView)>,
    results: Seq<ValueView>,
    context: ContextView,
) -> Option<Outcome>
    decreases pairs.len(),
{
    if pairs.len() == 0 {
        Some(Ok(results))
    } else {
        match host(
            RequestView::Integrate {
                expr,
                in_terms_of,
                lower: pairs[0].0,
                upper: pairs[0].1,
                context,
            },
        ) {
            ReplyView::Evaluated(Err(error)) => Some(Err(error)),
            ReplyView::Evaluated(Ok(values)) => integrated(
                host,
                expr,
                in_terms_of,
                pairs.drop_first(),
                results + values,
                context,
            ),
            _ => None,
        }
    }
}

/// The outcomes of a derivative at the points, behind `results`.
pub open spec fn differentiated(
    host: spec_fn(RequestView) -> ReplyView,
    expr: AstView,
    in_terms_of: Seq<char>,
    points: Seq<ValueView>,
    results: Seq<ValueView>,
    context: ContextView,
) -> Option<Outcome>
    decreases points.len(),
{
    if points.len() == 0 {
        Some(Ok(results))
    } else {
        match host(RequestView::Differentiate { expr, in_terms_of, at: points[0], context }) {
            ReplyView::Evaluated(Err(error)) => Some(Err(error)),
            ReplyView::Evaluated(Ok(values)) => differentiated(
                host,
                expr,
                in_terms_of,
                points.drop_first(),
                results + values,
                context,
            ),
            _ => None,
        }
    }
}

/// The outcome of a tree in a context, outside all functions.
pub open spec fn meaning(
    host: spec_fn(RequestView) -> ReplyView,
    ast: AstView,
    context: ContextView,
    depth: nat,
) -> Option<Outcome> {
    value_of(host, ast, Scope { vars: context.vars, funs: context.funs, guard: Seq::empty() }, depth)
}

/// What the host answers to the request of a state, if the state has one.
pub open spec fn answer_of(host: spec_fn(RequestView) -> ReplyView, state: EvaluationView) -> Option<
    ReplyView,
> {
    match state.request() {
        Some(request) => Some(host(request)),
        None => None,
    }
}

/// The state after `steps` steps of the machine, with a host that answers
/// the request `r` by `host(r)`.
pub open spec fn run(
    state: EvaluationView,
    host: spec_fn(RequestView) -> ReplyView,
    steps: nat,
) -> EvaluationView
    decreases steps,
{
    if steps == 0 {
        state
    } else {
        run(state.next(answer_of(host, state)), host, (steps - 1) as nat)
    }
}

/// The machine has come from `from` to `to`, and `outcome` is what it has
/// come to: with outcomes, the machine is where it was, but about to hand
/// the outcomes to the node that waits for them; with an error, it is over.
pub open spec fn arrived(from: EvaluationView, outcome: Outcome, to: EvaluationView) -> bool {
    match outcome {
        Ok(values) => to == from.focus_on(FocusView::Ascend(values)),
        Err(error) => to.outcome() == Some(Err::<Seq<ValueView>, EvalErrorView>(error)),
    }
}

/// A machine that is over stays as it is.
pub proof fn lemma_over_stays(
    state: EvaluationView,
    host: spec_fn(RequestView) -> ReplyView,
    steps: nat,
)
    requires
        state.outcome() is Some,
    ensures
        run(state, host, steps) == state,
    decreases steps,
{
    if steps > 0 {
        lemma_over_stays(state, host, (steps - 1) as nat);
    }
}

/// Steps can be made in two parts.
pub proof fn lemma_run_in_two(
    state: EvaluationView,
    host: spec_fn(RequestView) -> ReplyView,
    first: nat,
    second: nat,
)
    ensures
        run(state, host, first + second) == run(run(state, host, first), host, second),
    decreases first,
{
    if first > 0 {
        let then = state.next(answer_of(host, state));
        lemma_run_in_two(then, host, (first - 1) as nat, second);
        assert(run(state, host, first + second) == run(then, host, (first + second - 1) as nat));
    }
}

/// One step, and then more steps.
pub proof fn lemma_step_and_run(
    state: EvaluationView,
    host: spec_fn(RequestView) -> ReplyView,
    steps: nat,
)
    ensures
        run(state, host, steps + 1) == run(state.next(answer_of(host, state)), host, steps),
{
}

/// The machine that asks for an operation on the pairs comes to the
/// outcomes that its host computes.
pub proof fn lemma_apply(
    state: EvaluationView,
    host: spec_fn(RequestView) -> ReplyView,
    op_type: SimpleOpType,
    pairs: Seq<(ValueView, ValueView)>,
    results: Seq<ValueView>,
) -> (steps: nat)
    requires
        applied(host, op_type, pairs, results) is Some,
    ensures
        arrived(
            state,
            applied(host, op_type, pairs, results)->Some_0,
            run(state.apply(op_type, pairs, results), host, steps),
        ),
    decreases pairs.len(),
{
    let asking = state.apply(op_type, pairs, results);
    if pairs.len() == 0 {
        0
    } else {
        let first = host(
            RequestView::Apply {
                op_type: primitive(op_type, false),
                left: pairs[0].0,
                right: pairs[0].1,
            },
        );
        assert(answer_of(host, asking) == Some(first));
        let then = asking.next(Some(first));
        lemma_step_and_run(asking, host, 0);
        match first {
            ReplyView::Applied(Err(message)) => 1,
            ReplyView::Applied(Ok(values)) => {
                if op_type == SimpleOpType::AddSub {
                    let second = host(
                        RequestView::Apply {
                            op_type: primitive(op_type, true),
                            left: pairs[0].0,
                            right: pairs[0].1,
                        },
                    );
                    assert(answer_of(host, then) == Some(second));
                    let last = then.next(Some(second));
                    lemma_step_and_run(then, host, 0);
                    lemma_run_in_two(asking, host, 1, 1);
                    match second {
                        ReplyView::Applied(Err(message)) => 2,
                        ReplyView::Applied(Ok(more)) => {
                            let rest = lemma_apply(
                                state,
                                host,
                                op_type,
                                pairs.drop_first(),
                                results + values + more,
                            );
                            assert(last == state.apply(
                                op_type,
                                pairs.drop_first(),
                                results + values + more,
                            ));
                            lemma_run_in_two(asking, host, 2, rest);
                            2 + rest
                        },
                        _ => 0,
                    }
                } else {
                    let rest = lemma_apply(
                        state,
                        host,
                        op_type,
                        pairs.drop_first(),
                        results + values,
                    );
                    assert(then == state.apply(op_type, pairs.drop_first(), results + values));
                    lemma_run_in_two(asking, host, 1, rest);
                    1 + rest
                }
            },
            _ => 0,
        }
    }
}

/// The machine that asks for an integral for the pairs of bounds comes to
/// the outcomes that its host computes.
pub proof fn lemma_integrate(
    state: EvaluationView,
    host: spec_fn(RequestView) -> ReplyView,
    expr: AstView,
    in_terms_of: Seq<char>,
    pairs: Seq<(ValueView, ValueView)>,
    results: Seq<ValueView>,
) -> (steps: nat)
    requires
        integrated(host, expr, in_terms_of, pairs, results, state.context()) is Some,
    ensures
        arrived(
            state,
            integrated(host, expr, in_terms_of, pairs, results, state.context())->Some_0,
            run(state.integrate(expr, in_terms_of, pairs, results), host, steps),
        ),
    decreases pairs.len(),
{
    let asking = state.integrate(expr, in_terms_of, pairs, results);
    if pairs.len() == 0 {
        0
    } else {
        let reply = host(
            RequestView::Integrate {
                expr,
                in_terms_of,
                lower: pairs[0].0,
                upper: pairs[0].1,
                context: state.context(),
            },
        );
        assert(answer_of(host, asking) == Some(reply));
        let then = asking.next(Some(reply));
        lemma_step_and_run(asking, host, 0);
        match reply {
            ReplyView::Evaluated(Err(error)) => 1,
            ReplyView::Evaluated(Ok(values)) => {
                let rest = lemma_integrate(
                    state,
                    host,
                    expr,
                    in_terms_of,
                    pairs.drop_first(),
                    results + values,
                );
                assert(then == state.integrate(
                    expr,
                    in_terms_of,
                    pairs.drop_first(),
                    results + values,
                ));
                lemma_run_in_two(asking, host, 1, rest);
                1 + rest
            },
            _ => 0,
        }
    }
}

/// The machine that asks for a derivative at the points comes to the
/// outcomes that its host computes.
pub proof fn lemma_differentiate(
    state: EvaluationView,
    host: spec_fn(RequestView) -> ReplyView,
    expr: AstView,
    in_terms_of: Seq<char>,
    points: Seq<ValueView>,
    results: Seq<ValueView>,
) -> (steps: nat)
    requires
        differentiated(host, expr, in_terms_of, points, results, state.context()) is Some,
    ensures
        arrived(
            state,
            differentiated(host, expr, in_terms_of, points, results, state.context())->Some_0,
            run(state.differentiate(expr, in_terms_of, points, results), host, steps),
        ),
    decreases points.len(),
{
    let asking = state.differentiate(expr, in_terms_of, points, results);
    if points.len() == 0 {
        0
    } else {
        let reply = host(
            RequestView::Differentiate {
                expr,
                in_terms_of,
                at: points[0],
                context: state.context(),
            },
        );
        assert(answer_of(host, asking) == Some(reply));
        let then = asking.next(Some(reply));
        lemma_step_and_run(asking, host, 0);
        match reply {
            ReplyView::Evaluated(Err(error)) => 1,
            ReplyView::Evaluated(Ok(values)) => {
                let rest = lemma_differentiate(
                    state,
                    host,
                    expr,
                    in_terms_of,
                    points.drop_first(),
                    results + values,
                );
                assert(then == state.differentiate(
                    expr,
                    in_terms_of,
                    points.drop_first(),
                    results + values,
                ));
                lemma_run_in_two(asking, host, 1, rest);
                1 + rest
            },
            _ => 0,
        }
    }
}

/// The machine that is about to evaluate a tree comes to the outcome of the
/// tree: it hands the outcomes to the node that waits for them, with its
/// scope and its waiting nodes as they were, or it ends with the error.
pub proof fn lemma_descend(
    state: EvaluationView,
    host: spec_fn(RequestView) -> ReplyView,
    ast: AstView,
    depth: nat,
) -> (steps: nat)
    requires
        value_of(host, ast, scope_of(state), depth) is Some,
    ensures
        arrived(
            state,
            value_of(host, ast, scope_of(state), depth)->Some_0,
            run(state.focus_on(FocusView::Descend(ast)), host, steps),
        ),
    decreases depth, 0nat, 0nat,
{
    let at = state.focus_on(FocusView::Descend(ast));
    let below = (depth - 1) as nat;
    assert(answer_of(host, at) is None);
    let then = at.next(None);
    assert(then == at.descend(ast));
    lemma_step_and_run(at, host, 0);
    match ast {
        AstView::Scalar(text) => {
            let reply = host(RequestView::Number { text });
            assert(answer_of(host, then) == Some(reply));
            lemma_step_and_run(then, host, 0);
            lemma_run_in_two(at, host, 1, 1);
            2
        },
        AstView::Variable(name) => 1,
        AstView::Vector(items) => {
            let rest = lemma_gather(
                at,
                host,
                PendingView::Vector { fields: Seq::empty() },
                items,
                below,
            );
            lemma_run_in_two(at, host, 1, rest);
            1 + rest
        },
        AstView::Matrix(rows) => {
            let rest = lemma_gather(
                at,
                host,
                PendingView::Matrix {
                    widths: rows.map_values(|r: Seq<AstView>| r.len()),
                    fields: Seq::empty(),
                },
                rows.flatten(),
                below,
            );
            lemma_run_in_two(at, host, 1, rest);
            1 + rest
        },
        AstView::List(items) => {
            let rest = lemma_gather(
                at,
                host,
                PendingView::List { outcomes: Seq::empty() },
                items,
                below,
            );
            lemma_run_in_two(at, host, 1, rest);
            1 + rest
        },
        AstView::Function { name, inputs } => {
            if state.guard == name {
                1
            } else {
                match find_function(state.funs, name) {
                    None => 1,
                    Some(function) => {
                        if inputs.len() != function.inputs.len() {
                            1
                        } else {
                            let rest = lemma_gather(
                                at,
                                host,
                                PendingView::Call { function, arguments: Seq::empty() },
                                inputs,
                                below,
                            );
                            lemma_run_in_two(at, host, 1, rest);
                            1 + rest
                        }
                    },
                }
            }
        },
        AstView::Simple { op_type, left, right } => {
            let rest = lemma_gather(
                at,
                host,
                PendingView::Simple { op_type, operands: Seq::empty() },
                seq![*left, *right],
                below,
            );
            lemma_run_in_two(at, host, 1, rest);
            1 + rest
        },
        AstView::Integral { expr, in_terms_of, lower_bound, upper_bound } => {
            let rest = lemma_gather(
                at,
                host,
                PendingView::Integral { expr: *expr, in_terms_of, bounds: Seq::empty() },
                seq![*lower_bound, *upper_bound],
                below,
            );
            lemma_run_in_two(at, host, 1, rest);
            1 + rest
        },
        AstView::Derivative { expr, in_terms_of, at: point } => {
            let rest = lemma_gather(
                at,
                host,
                PendingView::Derivative { expr: *expr, in_terms_of, points: Seq::empty() },
                seq![*point],
                below,
            );
            lemma_run_in_two(at, host, 1, rest);
            1 + rest
        },
        AstView::Equation { equations, search_vars } => {
            let reply = host(
                RequestView::Solve {
                    expressions: defects(equations),
                    search_vars,
                    context: state.context(),
                },
            );
            assert(answer_of(host, then) == Some(reply));
            lemma_step_and_run(then, host, 0);
            lemma_run_in_two(at, host, 1, 1);
            2
        },
    }
}

/// The machine in which a node starts to gather its operands comes to the
/// outcome of the node.
pub proof fn lemma_gather(
    state: EvaluationView,
    host: spec_fn(RequestView) -> ReplyView,
    pending: PendingView,
    operands: Seq<AstView>,
    depth: nat,
) -> (steps: nat)
    requires
        gathered(host, pending, operands, scope_of(state), depth) is Some,
    ensures
        arrived(
            state,
            gathered(host, pending, operands, scope_of(state), depth)->Some_0,
            run(state.gather(pending, operands), host, steps),
        ),
    decreases depth, 3nat, operands.len(),
{
    if operands.len() == 0 {
        lemma_finish(state, host, pending, depth)
    } else {
        let waiting = state.gather(pending, operands);
        assert(waiting.focus_on(FocusView::Descend(operands[0])) == waiting);
        assert(scope_of(waiting) == scope_of(state));
        let first = lemma_descend(waiting, host, operands[0], depth);
        match value_of(host, operands[0], scope_of(state), depth)->Some_0 {
            Err(error) => first,
            Ok(values) => {
                let back = waiting.focus_on(FocusView::Ascend(values));
                assert(answer_of(host, back) is None);
                let then = back.next(None);
                lemma_step_and_run(back, host, 0);
                lemma_run_in_two(waiting, host, first, 1);
                assert(back.stack.drop_last() =~= state.stack);
                let under = EvaluationView { stack: back.stack.drop_last(), ..back };
                match absorb(pending, values) {
                    Err(error) => first + 1,
                    Ok(more) => {
                        assert(scope_of(under) == scope_of(state));
                        let rest = lemma_gather(under, host, more, operands.drop_first(), depth);
                        assert(then == under.gather(more, operands.drop_first()));
                        lemma_run_in_two(waiting, host, first + 1, rest);
                        first + 1 + rest
                    },
                }
            },
        }
    }
}

/// The machine in which a node does its work comes to the outcome of the
/// node.
pub proof fn lemma_finish(
    state: EvaluationView,
    host: spec_fn(RequestView) -> ReplyView,
    pending: PendingView,
    depth: nat,
) -> (steps: nat)
    requires
        finished(host, pending, scope_of(state), depth) is Some,
    ensures
        arrived(
            state,
            finished(host, pending, scope_of(state), depth)->Some_0,
            run(state.finish(pending), host, steps),
        ),
    decreases depth, 2nat, 0nat,
{
    match pending {
        PendingView::Vector { fields } => 0,
        PendingView::Matrix { widths, fields } => 0,
        PendingView::List { outcomes } => 0,
        PendingView::Call { function, arguments } => {
            let steps = lemma_call(
                state,
                host,
                function,
                combinations(arguments),
                Seq::empty(),
                state.vars,
                state.guard,
                depth,
            );
            steps
        },
        PendingView::Simple { op_type, operands } => {
            if op_type == SimpleOpType::Parenths {
                0
            } else {
                lemma_apply(state, host, op_type, pairs_of(combinations(operands)), Seq::empty())
            }
        },
        PendingView::Integral { expr, in_terms_of, bounds } => lemma_integrate(
            state,
            host,
            expr,
            in_terms_of,
            pairs_of(combinations(bounds)),
            Seq::empty(),
        ),
        PendingView::Derivative { expr, in_terms_of, points } => lemma_differentiate(
            state,
            host,
            expr,
            in_terms_of,
            singles_of(combinations(points)),
            Seq::empty(),
        ),
    }
}

/// The machine that calls a function for the choices of arguments comes to
/// the outcomes of the call, and is then back in the scope of the caller.
pub proof fn lemma_call(
    state: EvaluationView,
    host: spec_fn(RequestView) -> ReplyView,
    function: FunctionView,
    choices: Seq<Seq<ValueView>>,
    results: Seq<ValueView>,
    caller_vars: Seq<VariableView>,
    caller_guard: Seq<char>,
    depth: nat,
) -> (steps: nat)
    requires
        called(
            host,
            function,
            choices,
            results,
            Scope { vars: caller_vars, funs: state.funs, guard: caller_guard },
            depth,
        ) is Some,
    ensures
        arrived(
            EvaluationView { vars: caller_vars, guard: caller_guard, ..state },
            called(
                host,
                function,
                choices,
                results,
                Scope { vars: caller_vars, funs: state.funs, guard: caller_guard },
                depth,
            )->Some_0,
            run(state.call(function, choices, results, caller_vars, caller_guard), host, steps),
        ),
    decreases depth, 1nat, choices.len(),
{
    if choices.len() == 0 {
        0
    } else {
        let inside = state.call(function, choices, results, caller_vars, caller_guard);
        let scope = Scope {
            vars: body_scope(function, choices[0], caller_vars),
            funs: state.funs,
            guard: function.name,
        };
        assert(inside.focus_on(FocusView::Descend(function.ast)) == inside);
        assert(scope_of(inside) == scope);
        let first = lemma_descend(inside, host, function.ast, depth);
        match value_of(host, function.ast, scope, depth)->Some_0 {
            Err(error) => first,
            Ok(values) => {
                let back = inside.focus_on(FocusView::Ascend(values));
                assert(answer_of(host, back) is None);
                let then = back.next(None);
                lemma_step_and_run(back, host, 0);
                lemma_run_in_two(inside, host, first, 1);
                assert(back.stack.drop_last() =~= state.stack);
                let under = EvaluationView { stack: back.stack.drop_last(), ..back };
                let rest = lemma_call(
                    under,
                    host,
                    function,
                    choices.drop_first(),
                    results + values,
                    caller_vars,
                    caller_guard,
                    depth,
                );
                assert(then == under.call(
                    function,
                    choices.drop_first(),
                    results + values,
                    caller_vars,
                    caller_guard,
                ));
                lemma_run_in_two(inside, host, first + 1, rest);
                first + 1 + rest
            },
        }
    }
}

/// Run by a host that answers the request `r` by `host(r)`, the machine
/// ends with the outcome that the tree has with that host (see
/// [`meaning`]), whenever the tree has one: the steps of the machine and
/// the outcome of the tree say the same. The number of steps after which
/// the machine is over is returned.
pub proof fn law_evaluation(
    host: spec_fn(RequestView) -> ReplyView,
    ast: AstView,
    context: ContextView,
    depth: nat,
) -> (steps: nat)
    requires
        meaning(host, ast, context, depth) is Some,
    ensures
        forall|more: nat|
            more >= steps ==> (#[trigger] run(
                EvaluationView::start(ast, context),
                host,
                more,
            )).outcome() == meaning(host, ast, context, depth),
{
    let start = EvaluationView::start(ast, context);
    let wanted = meaning(host, ast, context, depth)->Some_0;
    assert(start.focus_on(FocusView::Descend(ast)) == start);
    let first = lemma_descend(start, host, ast, depth);
    let steps = match wanted {
        Err(error) => first,
        Ok(values) => {
            let back = start.focus_on(FocusView::Ascend(values));
            assert(answer_of(host, back) is None);
            lemma_step_and_run(back, host, 0);
            lemma_run_in_two(start, host, first, 1);
            first + 1
        },
    };
    assert(run(start, host, steps).outcome() == Some(wanted));
    assert forall|more: nat| more >= steps implies (#[trigger] run(start, host, more)).outcome()
        == Some(wanted) by {
        lemma_run_in_two(start, host, steps, (more - steps) as nat);
        lemma_over_stays(run(start, host, steps), host, (more - steps) as nat);
    }
    steps
}

/// A tree has one outcome: the bound on the nesting decides whether there is
/// an outcome, and not which.
pub proof fn law_one_meaning(
    host: spec_fn(RequestView) -> ReplyView,
    ast: AstView,
    context: ContextView,
    depth: nat,
    other: nat,
)
    requires
        meaning(host, ast, context, depth) is Some,
        meaning(host, ast, context, other) is Some,
    ensures
        meaning(host, ast, context, depth) == meaning(host, ast, context, other),
{
    let first = law_evaluation(host, ast, context, depth);
    let second = law_evaluation(host, ast, context, other);
    let start = EvaluationView::start(ast, context);
    assert(run(start, host, first + second).outcome() == meaning(host, ast, context, depth));
    assert(run(start, host, first + second).outcome() == meaning(host, ast, context, other));
}

} // verus!
