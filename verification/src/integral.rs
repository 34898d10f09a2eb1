//! Integrals by a sum of samples.
//!
//! The integral of an expression `f` by a variable from `a` to `b` is the sum
//! of `f` at sample points, one for each of `10^5` slices of the interval,
//! times the width of a slice. The machine of this file decides which
//! expressions are evaluated in which contexts, and in which order; it
//! evaluates nothing itself. Only the comparisons of the bounds it makes
//! itself, on the bits of the numbers.

use crate::basetypes::{
    clone_functions, clone_values, clone_variables, functions_view, text_eq, values_view,
    variables_view, AstView, Context, ContextView, FunctionView, SimpleOpType, Value, ValueView,
    Variable, VariableView, AST,
};
use crate::calculus::{
    binary, binary_tree, binding, bindings, evaluate_view, join_values, numeral_tree, reply_view,
    variable_tree, Evaluate, EvaluateView, PREC,
};
use crate::errors::{decimal, decimal_text, EvalError, EvalErrorView};
use crate::evaluator::outcome_view;
use crate::numbers::{equal, is_equal, is_less, less, ZERO_BITS};
use crate::semantics::Outcome;
use vstd::prelude::*;
use vstd::string::StringExecFns;

verus! {

/// The numeral of the number of slices: ten to the power of [`PREC`] minus 3.
pub open spec fn slices_numeral() -> Seq<char> {
    "1e"@ + decimal_text((PREC - 3) as nat)
}

/// The tree `(u - l) / slices`, the width of a slice.
pub open spec fn width_tree() -> AstView {
    binary(
        SimpleOpType::Div,
        binary(SimpleOpType::Sub, AstView::Variable("u"@), AstView::Variable("l"@)),
        AstView::Scalar(slices_numeral()),
    )
}

/// The tree `(b + (b - d)) / 2.0`, the sample point that belongs to the
/// position `b`.
pub open spec fn middle_tree() -> AstView {
    binary(
        SimpleOpType::Div,
        binary(
            SimpleOpType::Add,
            AstView::Variable("b"@),
            binary(SimpleOpType::Sub, AstView::Variable("b"@), AstView::Variable("d"@)),
        ),
        AstView::Scalar("2.0"@),
    )
}

/// The tree `s + e`.
pub open spec fn sum_tree() -> AstView {
    binary(SimpleOpType::Add, AstView::Variable("s"@), AstView::Variable("e"@))
}

/// The tree `b + d`, the next position.
pub open spec fn advance_tree() -> AstView {
    binary(SimpleOpType::Add, AstView::Variable("b"@), AstView::Variable("d"@))
}

/// The tree `s * d`.
pub open spec fn scale_tree() -> AstView {
    binary(SimpleOpType::Mult, AstView::Variable("s"@), AstView::Variable("d"@))
}

/// The request for the width of a slice between the bounds.
pub open spec fn width_of(low: u64, high: u64) -> EvaluateView {
    EvaluateView {
        ast: width_tree(),
        context: bindings(
            seq![binding("u"@, ValueView::Scalar(high)), binding("l"@, ValueView::Scalar(low))],
        ),
    }
}

/// The request for the sample point of the position `at`.
pub open spec fn middle_of(at: Seq<ValueView>, width: Seq<ValueView>) -> EvaluateView {
    EvaluateView {
        ast: middle_tree(),
        context: bindings(
            seq![
                VariableView { name: "b"@, values: at },
                VariableView { name: "d"@, values: width },
            ],
        ),
    }
}

/// The request for the sum of a sum and a sample.
pub open spec fn sum_of(old: ValueView, sample: ValueView) -> EvaluateView {
    EvaluateView {
        ast: sum_tree(),
        context: bindings(seq![binding("s"@, old), binding("e"@, sample)]),
    }
}

/// The request for the position behind `at`.
pub open spec fn advance_of(at: Seq<ValueView>, width: Seq<ValueView>) -> EvaluateView {
    EvaluateView {
        ast: advance_tree(),
        context: bindings(
            seq![
                VariableView { name: "b"@, values: at },
                VariableView { name: "d"@, values: width },
            ],
        ),
    }
}

/// The request for a sum times the width of a slice.
pub open spec fn scale_of(now: ValueView, width: Seq<ValueView>) -> EvaluateView {
    EvaluateView {
        ast: scale_tree(),
        context: bindings(seq![binding("s"@, now), VariableView { name: "d"@, values: width }]),
    }
}

/// The variables but the first one with the given name.
pub open spec fn without_first(vars: Seq<VariableView>, name: Seq<char>) -> Seq<VariableView>
    decreases vars.len(),
{
    if vars.len() == 0 {
        vars
    } else if vars[0].name == name {
        vars.drop_first()
    } else {
        seq![vars[0]] + without_first(vars.drop_first(), name)
    }
}

/// The position is a number below `high`.
pub open spec fn in_range(at: Seq<ValueView>, high: u64) -> bool {
    at.len() > 0 && at[0] is Scalar && less(at[0]->Scalar_0, high)
}

/// The first of the values, or `old` if there is none.
pub open spec fn first_or(values: Seq<ValueView>, old: ValueView) -> ValueView {
    if values.len() > 0 {
        values[0]
    } else {
        old
    }
}

pub enum IntegralPhaseView {
    Start,
    /// The width of a slice was asked for.
    Width,
    /// The sample point of the position `at` was asked for.
    Middle { at: Seq<ValueView>, sums: Seq<ValueView> },
    /// The expression at the sample point `middle` was asked for.
    Sample { at: Seq<ValueView>, sums: Seq<ValueView>, middle: Seq<ValueView> },
    /// The sum of `old` and `sample` was asked for. The sums before it have
    /// their samples already, the sums and samples behind it come next.
    Sum {
        at: Seq<ValueView>,
        done: Seq<ValueView>,
        old: ValueView,
        sample: ValueView,
        sums: Seq<ValueView>,
        samples: Seq<ValueView>,
    },
    /// The position behind `at` was asked for.
    Advance { at: Seq<ValueView>, sums: Seq<ValueView> },
    /// The product of the sum `now` and the width was asked for.
    Scale { done: Seq<ValueView>, now: ValueView, sums: Seq<ValueView> },
    Done(Outcome),
}

/// The state of an integration.
pub struct IntegralView {
    pub expr: AstView,
    pub in_terms_of: Seq<char>,
    pub lower: ValueView,
    pub upper: ValueView,
    /// The variables of the context without the first one that has the name
    /// of the variable of the integration.
    pub vars: Seq<VariableView>,
    pub funs: Seq<FunctionView>,
    /// The smaller bound.
    pub low: u64,
    /// The larger bound.
    pub high: u64,
    /// The width of a slice.
    pub width: Seq<ValueView>,
    pub phase: IntegralPhaseView,
}

impl IntegralView {
    /// The state in which an integration starts.
    pub open spec fn start(
        expr: AstView,
        in_terms_of: Seq<char>,
        lower: ValueView,
        upper: ValueView,
        context: ContextView,
    ) -> IntegralView {
        IntegralView {
            expr,
            in_terms_of,
            lower,
            upper,
            vars: without_first(context.vars, in_terms_of),
            funs: context.funs,
            low: 0,
            high: 0,
            width: Seq::empty(),
            phase: IntegralPhaseView::Start,
        }
    }

    pub open spec fn phase(self, phase: IntegralPhaseView) -> IntegralView {
        IntegralView { phase, ..self }
    }

    pub open spec fn fail(self, error: EvalErrorView) -> IntegralView {
        self.phase(IntegralPhaseView::Done(Err(error)))
    }

    /// The request for the expression at the sample point `middle`.
    pub open spec fn sample_of(self, middle: Seq<ValueView>) -> EvaluateView {
        EvaluateView {
            ast: self.expr,
            context: ContextView {
                vars: self.vars.push(VariableView { name: self.in_terms_of, values: middle }),
                funs: self.funs,
            },
        }
    }

    /// What the host is asked for in this state, if anything.
    pub open spec fn request(self) -> Option<EvaluateView> {
        match self.phase {
            IntegralPhaseView::Width => Some(width_of(self.low, self.high)),
            IntegralPhaseView::Middle { at, sums } => Some(middle_of(at, self.width)),
            IntegralPhaseView::Sample { at, sums, middle } => Some(self.sample_of(middle)),
            IntegralPhaseView::Sum { at, done, old, sample, sums, samples } => Some(
                sum_of(old, sample),
            ),
            IntegralPhaseView::Advance { at, sums } => Some(advance_of(at, self.width)),
            IntegralPhaseView::Scale { done, now, sums } => Some(scale_of(now, self.width)),
            _ => None,
        }
    }

    /// The outcome, once the integration is over.
    pub open spec fn outcome(self) -> Option<Outcome> {
        match self.phase {
            IntegralPhaseView::Done(outcome) => Some(outcome),
            _ => None,
        }
    }

    /// The sweep over the interval goes on at the position `at`: while the
    /// position is below the larger bound, its sample point is asked for;
    /// then the sums are scaled.
    pub open spec fn sweep(self, at: Seq<ValueView>, sums: Seq<ValueView>) -> IntegralView {
        if in_range(at, self.high) {
            self.phase(IntegralPhaseView::Middle { at, sums })
        } else {
            self.scale(Seq::empty(), sums)
        }
    }

    /// The samples are added to the sums, place by place. A sample without a
    /// sum becomes a sum.
    pub open spec fn add(
        self,
        at: Seq<ValueView>,
        done: Seq<ValueView>,
        sums: Seq<ValueView>,
        samples: Seq<ValueView>,
    ) -> IntegralView
        decreases samples.len(),
    {
        if samples.len() == 0 {
            self.phase(IntegralPhaseView::Advance { at, sums: done + sums })
        } else if sums.len() == 0 {
            self.add(at, done.push(samples[0]), sums, samples.drop_first())
        } else {
            self.phase(
                IntegralPhaseView::Sum {
                    at,
                    done,
                    old: sums[0],
                    sample: samples[0],
                    sums: sums.drop_first(),
                    samples: samples.drop_first(),
                },
            )
        }
    }

    /// The sums are multiplied by the width, one after the other; the
    /// products are the integral.
    pub open spec fn scale(self, done: Seq<ValueView>, sums: Seq<ValueView>) -> IntegralView {
        if sums.len() == 0 {
            self.phase(IntegralPhaseView::Done(Ok(done)))
        } else {
            self.phase(IntegralPhaseView::Scale { done, now: sums[0], sums: sums.drop_first() })
        }
    }

    /// The machine goes on with the values that its host evaluated.
    pub open spec fn resume(self, values: Seq<ValueView>) -> IntegralView {
        let idle = self.phase(IntegralPhaseView::Start);
        match self.phase {
            IntegralPhaseView::Width => (IntegralView { width: values, ..idle }).sweep(
                seq![ValueView::Scalar(self.low)],
                Seq::empty(),
            ),
            IntegralPhaseView::Middle { at, sums } => idle.phase(
                IntegralPhaseView::Sample { at, sums, middle: values },
            ),
            IntegralPhaseView::Sample { at, sums, middle } => idle.add(
                at,
                Seq::empty(),
                sums,
                values,
            ),
            IntegralPhaseView::Sum { at, done, old, sample, sums, samples } => idle.add(
                at,
                done.push(first_or(values, old)),
                sums,
                samples,
            ),
            IntegralPhaseView::Advance { at, sums } => idle.sweep(values, sums),
            IntegralPhaseView::Scale { done, now, sums } => idle.scale(
                done.push(first_or(values, now)),
                sums,
            ),
            _ => self,
        }
    }

    /// The first step: the bounds are numbers, or there is no integral; equal
    /// bounds give the integral zero; the smaller bound comes first.
    pub open spec fn begin(self) -> IntegralView {
        match (self.lower, self.upper) {
            (ValueView::Scalar(lower), ValueView::Scalar(upper)) => if equal(lower, upper) {
                self.phase(IntegralPhaseView::Done(Ok(seq![ValueView::Scalar(ZERO_BITS)])))
            } else if less(upper, lower) {
                IntegralView { low: upper, high: lower, phase: IntegralPhaseView::Width, ..self }
            } else {
                IntegralView { low: lower, high: upper, phase: IntegralPhaseView::Width, ..self }
            },
            _ => self.fail(EvalErrorView::MathError("Only scalar bounds are allowed!"@)),
        }
    }

    /// One step of the machine. An error of an evaluation ends it.
    pub open spec fn next(self, reply: Option<Outcome>) -> IntegralView {
        match self.phase {
            IntegralPhaseView::Done(_) => self,
            IntegralPhaseView::Start => self.begin(),
            _ => match reply {
                None => self,
                Some(Err(error)) => self.fail(error),
                Some(Ok(values)) => self.resume(values),
            },
        }
    }
}

// The integration, all at once

/// The sums with the samples of one more slice added, place by place, as a
/// host adds, behind `done`. A sample without a sum is a sum.
pub open spec fn added_by(
    host: spec_fn(EvaluateView) -> Outcome,
    done: Seq<ValueView>,
    sums: Seq<ValueView>,
    samples: Seq<ValueView>,
) -> Outcome
    decreases samples.len(),
{
    if samples.len() == 0 {
        Ok(done + sums)
    } else if sums.len() == 0 {
        added_by(host, done.push(samples[0]), sums, samples.drop_first())
    } else {
        match host(sum_of(sums[0], samples[0])) {
            Err(error) => Err(error),
            Ok(values) => added_by(
                host,
                done.push(first_or(values, sums[0])),
                sums.drop_first(),
                samples.drop_first(),
            ),
        }
    }
}

/// The sums times the width of a slice, as a host multiplies, behind `done`.
pub open spec fn scaled_by(
    host: spec_fn(EvaluateView) -> Outcome,
    width: Seq<ValueView>,
    done: Seq<ValueView>,
    sums: Seq<ValueView>,
) -> Outcome
    decreases sums.len(),
{
    if sums.len() == 0 {
        Ok(done)
    } else {
        match host(scale_of(sums[0], width)) {
            Err(error) => Err(error),
            Ok(values) => scaled_by(
                host,
                width,
                done.push(first_or(values, sums[0])),
                sums.drop_first(),
            ),
        }
    }
}

/// The integral from the position `at` on, with the sums `sums` of the
/// slices before it: while the position is below the larger bound, the
/// expression is evaluated at the sample point of the position, its values
/// are added to the sums, and the position moves on by the width of a slice,
/// all as a host computes it; then the sums are multiplied by the width.
/// There is no outcome if the position is still below the larger bound after
/// `slices` slices.
pub open spec fn swept_by(
    host: spec_fn(EvaluateView) -> Outcome,
    state: IntegralView,
    at: Seq<ValueView>,
    sums: Seq<ValueView>,
    slices: nat,
) -> Option<Outcome>
    decreases slices,
{
    if !in_range(at, state.high) {
        Some(scaled_by(host, state.width, Seq::empty(), sums))
    } else if slices == 0 {
        None
    } else {
        match host(middle_of(at, state.width)) {
            Err(error) => Some(Err(error)),
            Ok(middle) => match host(state.sample_of(middle)) {
                Err(error) => Some(Err(error)),
                Ok(samples) => match added_by(host, Seq::empty(), sums, samples) {
                    Err(error) => Some(Err(error)),
                    Ok(more) => match host(advance_of(at, state.width)) {
                        Err(error) => Some(Err(error)),
                        Ok(behind) => swept_by(host, state, behind, more, (slices - 1) as nat),
                    },
                },
            },
        }
    }
}

/// The outcome of the integration that starts in `start`, as a host computes
/// it that evaluates the request `r` to `host(r)`. Between bounds that are
/// no numbers there is no integral; between equal bounds it is zero; else
/// the smaller bound comes first, the host gives the width of a slice, and
/// the interval is swept from the smaller bound on (see [`swept_by`]).
pub open spec fn outcome_by(
    start: IntegralView,
    host: spec_fn(EvaluateView) -> Outcome,
    slices: nat,
) -> Option<Outcome> {
    match (start.lower, start.upper) {
        (ValueView::Scalar(lower), ValueView::Scalar(upper)) => if equal(lower, upper) {
            Some(Ok(seq![ValueView::Scalar(ZERO_BITS)]))
        } else {
            let low = if less(upper, lower) {
                upper
            } else {
                lower
            };
            let high = if less(upper, lower) {
                lower
            } else {
                upper
            };
            match host(width_of(low, high)) {
                Err(error) => Some(Err(error)),
                Ok(width) => swept_by(
                    host,
                    IntegralView { low, high, width, ..start },
                    seq![ValueView::Scalar(low)],
                    Seq::empty(),
                    slices,
                ),
            }
        },
        _ => Some(Err(EvalErrorView::MathError("Only scalar bounds are allowed!"@))),
    }
}

/// The integral of `expr` over `in_terms_of` between the bounds in
/// `context`, as a host computes it (see [`outcome_by`]).
pub open spec fn integral_by(
    host: spec_fn(EvaluateView) -> Outcome,
    expr: AstView,
    in_terms_of: Seq<char>,
    lower: ValueView,
    upper: ValueView,
    context: ContextView,
    slices: nat,
) -> Option<Outcome> {
    outcome_by(IntegralView::start(expr, in_terms_of, lower, upper, context), host, slices)
}

/// The state after `steps` steps of the machine, with a host that answers
/// the request `r` by `host(r)`.
pub open spec fn run(
    state: IntegralView,
    host: spec_fn(EvaluateView) -> Outcome,
    steps: nat,
) -> IntegralView
    decreases steps,
{
    if steps == 0 {
        state
    } else {
        run(
            state.next(
                match state.request() {
                    Some(request) => Some(host(request)),
                    None => None,
                },
            ),
            host,
            (steps - 1) as nat,
        )
    }
}

/// A machine that is over stays as it is.
pub proof fn lemma_over_stays(
    state: IntegralView,
    host: spec_fn(EvaluateView) -> Outcome,
    steps: nat,
)
    requires
        state.outcome() is Some,
    ensures
        run(state, host, steps) == state,
    decreases steps,
{
    if steps > 0 {
        lemma_over_stays(state, host, (steps - 1) as nat);
    }
}

/// Steps can be made in two parts.
pub proof fn lemma_run_in_two(
    state: IntegralView,
    host: spec_fn(EvaluateView) -> Outcome,
    first: nat,
    second: nat,
)
    ensures
        run(state, host, first + second) == run(run(state, host, first), host, second),
    decreases first,
{
    if first > 0 {
        let then = state.next(
            match state.request() {
                Some(request) => Some(host(request)),
                None => None,
            },
        );
        lemma_run_in_two(then, host, (first - 1) as nat, second);
        assert(run(state, host, first + second) == run(then, host, (first + second - 1) as nat));
    }
}

/// The machine that waits for values, after the step that takes the answer
/// of its host.
pub proof fn lemma_answered(state: IntegralView, host: spec_fn(EvaluateView) -> Outcome)
    requires
        state.request() is Some,
    ensures
        run(state, host, 1) == match host(state.request()->Some_0) {
            Err(error) => state.fail(error),
            Ok(values) => state.resume(values),
        },
{
    let then = state.next(Some(host(state.request()->Some_0)));
    assert(run(state, host, 1) == run(then, host, 0));
}

/// The machine that adds the samples to the sums comes to the new sums, and
/// then asks for the next position.
pub proof fn lemma_add(
    state: IntegralView,
    host: spec_fn(EvaluateView) -> Outcome,
    at: Seq<ValueView>,
    done: Seq<ValueView>,
    sums: Seq<ValueView>,
    samples: Seq<ValueView>,
) -> (steps: nat)
    requires
        state.phase is Start,
    ensures
        match added_by(host, done, sums, samples) {
            Err(error) => run(state.add(at, done, sums, samples), host, steps).outcome() == Some(
                Err::<Seq<ValueView>, EvalErrorView>(error),
            ),
            Ok(more) => run(state.add(at, done, sums, samples), host, steps) == state.phase(
                IntegralPhaseView::Advance { at, sums: more },
            ),
        },
    decreases samples.len(),
{
    if samples.len() == 0 {
        0
    } else if sums.len() == 0 {
        lemma_add(state, host, at, done.push(samples[0]), sums, samples.drop_first())
    } else {
        let asking = state.add(at, done, sums, samples);
        lemma_answered(asking, host);
        match host(sum_of(sums[0], samples[0])) {
            Err(error) => 1,
            Ok(values) => {
                let sum = first_or(values, sums[0]);
                assert(asking.resume(values) == state.add(
                    at,
                    done.push(sum),
                    sums.drop_first(),
                    samples.drop_first(),
                ));
                let rest = lemma_add(
                    state,
                    host,
                    at,
                    done.push(sum),
                    sums.drop_first(),
                    samples.drop_first(),
                );
                lemma_run_in_two(asking, host, 1, rest);
                1 + rest
            },
        }
    }
}

/// The machine that multiplies the sums by the width ends with the
/// products.
pub proof fn lemma_scale(
    state: IntegralView,
    host: spec_fn(EvaluateView) -> Outcome,
    done: Seq<ValueView>,
    sums: Seq<ValueView>,
) -> (steps: nat)
    requires
        state.phase is Start,
    ensures
        run(state.scale(done, sums), host, steps).outcome() == Some(
            scaled_by(host, state.width, done, sums),
        ),
    decreases sums.len(),
{
    if sums.len() == 0 {
        0
    } else {
        let asking = state.scale(done, sums);
        lemma_answered(asking, host);
        match host(scale_of(sums[0], state.width)) {
            Err(error) => 1,
            Ok(values) => {
                let product = first_or(values, sums[0]);
                assert(asking.resume(values) == state.scale(
                    done.push(product),
                    sums.drop_first(),
                ));
                let rest = lemma_scale(state, host, done.push(product), sums.drop_first());
                lemma_run_in_two(asking, host, 1, rest);
                1 + rest
            },
        }
    }
}

/// The machine that sweeps the interval ends with the integral as its host
/// computes it, where the sweep ends.
pub proof fn lemma_sweep(
    state: IntegralView,
    host: spec_fn(EvaluateView) -> Outcome,
    at: Seq<ValueView>,
    sums: Seq<ValueView>,
    slices: nat,
) -> (steps: nat)
    requires
        state.phase is Start,
        swept_by(host, state, at, sums, slices) is Some,
    ensures
        run(state.sweep(at, sums), host, steps).outcome() == swept_by(
            host,
            state,
            at,
            sums,
            slices,
        ),
    decreases slices,
{
    if !in_range(at, state.high) {
        lemma_scale(state, host, Seq::empty(), sums)
    } else {
        let asking = state.sweep(at, sums);
        lemma_answered(asking, host);
        match host(middle_of(at, state.width)) {
            Err(error) => 1,
            Ok(middle) => {
                let sampling = state.phase(IntegralPhaseView::Sample { at, sums, middle });
                assert(asking.resume(middle) == sampling);
                lemma_answered(sampling, host);
                lemma_run_in_two(asking, host, 1, 1);
                match host(state.sample_of(middle)) {
                    Err(error) => 2,
                    Ok(samples) => {
                        assert(sampling.resume(samples) == state.add(
                            at,
                            Seq::empty(),
                            sums,
                            samples,
                        ));
                        let added = lemma_add(state, host, at, Seq::empty(), sums, samples);
                        lemma_run_in_two(asking, host, 2, added);
                        match added_by(host, Seq::empty(), sums, samples) {
                            Err(error) => 2 + added,
                            Ok(more) => {
                                let moving = state.phase(
                                    IntegralPhaseView::Advance { at, sums: more },
                                );
                                lemma_answered(moving, host);
                                lemma_run_in_two(asking, host, 2 + added, 1);
                                match host(advance_of(at, state.width)) {
                                    Err(error) => 3 + added,
                                    Ok(behind) => {
                                        assert(moving.resume(behind) == state.sweep(behind, more));
                                        let rest = lemma_sweep(
                                            state,
                                            host,
                                            behind,
                                            more,
                                            (slices - 1) as nat,
                                        );
                                        lemma_run_in_two(asking, host, 3 + added, rest);
                                        3 + added + rest
                                    },
                                }
                            },
                        }
                    },
                }
            },
        }
    }
}

/// An integration that starts ends with the integral as its host computes
/// it, where the sweep ends.
pub proof fn lemma_whole(
    start: IntegralView,
    host: spec_fn(EvaluateView) -> Outcome,
    slices: nat,
) -> (steps: nat)
    requires
        start.phase is Start,
        outcome_by(start, host, slices) is Some,
    ensures
        run(start, host, steps).outcome() == outcome_by(start, host, slices),
{
    assert(start.request() is None);
    let begun = start.begin();
    assert(run(start, host, 1) == run(begun, host, 0));
    match (start.lower, start.upper) {
        (ValueView::Scalar(lower), ValueView::Scalar(upper)) => {
            if equal(lower, upper) {
                1
            } else {
                lemma_answered(begun, host);
                lemma_run_in_two(start, host, 1, 1);
                match host(width_of(begun.low, begun.high)) {
                    Err(error) => 2,
                    Ok(width) => {
                        let wide = IntegralView {
                            width,
                            phase: IntegralPhaseView::Start,
                            ..begun
                        };
                        let first = seq![ValueView::Scalar(begun.low)];
                        assert(begun.resume(width) == wide.sweep(first, Seq::empty()));
                        assert(wide == IntegralView {
                            low: begun.low,
                            high: begun.high,
                            width,
                            ..start
                        });
                        let rest = lemma_sweep(wide, host, first, Seq::empty(), slices);
                        lemma_run_in_two(start, host, 2, rest);
                        2 + rest
                    },
                }
            }
        },
        _ => 1,
    }
}

/// Run by a host that answers the request `r` by `host(r)`, an integration
/// ends with the integral as that host computes it (see [`integral_by`]),
/// whenever the host lets the sweep over the interval end. The number of
/// steps after which the integration is over is returned.
pub proof fn law_integral(
    host: spec_fn(EvaluateView) -> Outcome,
    expr: AstView,
    in_terms_of: Seq<char>,
    lower: ValueView,
    upper: ValueView,
    context: ContextView,
    slices: nat,
) -> (steps: nat)
    requires
        integral_by(host, expr, in_terms_of, lower, upper, context, slices) is Some,
    ensures
        forall|more: nat|
            more >= steps ==> (#[trigger] run(
                IntegralView::start(expr, in_terms_of, lower, upper, context),
                host,
                more,
            )).outcome() == integral_by(host, expr, in_terms_of, lower, upper, context, slices),
{
    let start = IntegralView::start(expr, in_terms_of, lower, upper, context);
    let steps = lemma_whole(start, host, slices);
    assert forall|more: nat| more >= steps implies (#[trigger] run(start, host, more)).outcome()
        == outcome_by(start, host, slices) by {
        lemma_run_in_two(start, host, steps, (more - steps) as nat);
        lemma_over_stays(run(start, host, steps), host, (more - steps) as nat);
    }
    steps
}

/// An integral has one value: the bound on the number of slices decides
/// whether there is an integral, and not which.
pub proof fn law_one_integral(
    host: spec_fn(EvaluateView) -> Outcome,
    expr: AstView,
    in_terms_of: Seq<char>,
    lower: ValueView,
    upper: ValueView,
    context: ContextView,
    slices: nat,
    other: nat,
)
    requires
        integral_by(host, expr, in_terms_of, lower, upper, context, slices) is Some,
        integral_by(host, expr, in_terms_of, lower, upper, context, other) is Some,
    ensures
        integral_by(host, expr, in_terms_of, lower, upper, context, slices) == integral_by(
            host,
            expr,
            in_terms_of,
            lower,
            upper,
            context,
            other,
        ),
{
    let first = law_integral(host, expr, in_terms_of, lower, upper, context, slices);
    let second = law_integral(host, expr, in_terms_of, lower, upper, context, other);
    let start = IntegralView::start(expr, in_terms_of, lower, upper, context);
    assert(run(start, host, first + second).outcome() == integral_by(
        host,
        expr,
        in_terms_of,
        lower,
        upper,
        context,
        slices,
    ));
    assert(run(start, host, first + second).outcome() == integral_by(
        host,
        expr,
        in_terms_of,
        lower,
        upper,
        context,
        other,
    ));
}

pub enum IntegralPhase {
    Start,
    Width,
    Middle { at: Vec<Value>, sums: Vec<Value> },
    Sample { at: Vec<Value>, sums: Vec<Value>, middle: Vec<Value> },
    Sum {
        at: Vec<Value>,
        done: Vec<Value>,
        old: Value,
        sample: Value,
        sums: Vec<Value>,
        samples: Vec<Value>,
    },
    Advance { at: Vec<Value>, sums: Vec<Value> },
    Scale { done: Vec<Value>, now: Value, sums: Vec<Value> },
    Done(Result<Vec<Value>, EvalError>),
}

impl View for IntegralPhase {
    type V = IntegralPhaseView;

    open spec fn view(&self) -> IntegralPhaseView {
        match self {
            IntegralPhase::Start => IntegralPhaseView::Start,
            IntegralPhase::Width => IntegralPhaseView::Width,
            IntegralPhase::Middle { at, sums } => IntegralPhaseView::Middle {
                at: values_view(at@),
                sums: values_view(sums@),
            },
            IntegralPhase::Sample { at, sums, middle } => IntegralPhaseView::Sample {
                at: values_view(at@),
                sums: values_view(sums@),
                middle: values_view(middle@),
            },
            IntegralPhase::Sum { at, done, old, sample, sums, samples } => IntegralPhaseView::Sum {
                at: values_view(at@),
                done: values_view(done@),
                old: old@,
                sample: sample@,
                sums: values_view(sums@),
                samples: values_view(samples@),
            },
            IntegralPhase::Advance { at, sums } => IntegralPhaseView::Advance {
                at: values_view(at@),
                sums: values_view(sums@),
            },
            IntegralPhase::Scale { done, now, sums } => IntegralPhaseView::Scale {
                done: values_view(done@),
                now: now@,
                sums: values_view(sums@),
            },
            IntegralPhase::Done(outcome) => IntegralPhaseView::Done(outcome_view(*outcome)),
        }
    }
}

/// An integration (see [`IntegralView`]).
pub struct Integral {
    expr: AST,
    in_terms_of: String,
    lower: Value,
    upper: Value,
    vars: Vec<Variable>,
    funs: Vec<crate::basetypes::Function>,
    low: u64,
    high: u64,
    width: Vec<Value>,
    phase: IntegralPhase,
}

impl View for Integral {
    type V = IntegralView;

    closed spec fn view(&self) -> IntegralView {
        IntegralView {
            expr: self.expr@,
            in_terms_of: self.in_terms_of@,
            lower: self.lower@,
            upper: self.upper@,
            vars: variables_view(self.vars@),
            funs: functions_view(self.funs@),
            low: self.low,
            high: self.high,
            width: values_view(self.width@),
            phase: self.phase@,
        }
    }
}

/// The variables but the first one with the given name.
fn remove_first(vars: &Vec<Variable>, name: &str) -> (res: Vec<Variable>)
    ensures
        variables_view(res@) == without_first(variables_view(vars@), name@),
{
    let ghost all = variables_view(vars@);
    let mut res: Vec<Variable> = Vec::new();
    let mut i: usize = 0;
    let mut found = false;
    proof {
        assert(all.skip(0) =~= all);
        assert(variables_view(res@) =~= Seq::empty());
    }
    while i < vars.len()
        invariant
            i <= vars.len(),
            all == variables_view(vars@),
            !found ==> without_first(all, name@) == variables_view(res@) + without_first(
                all.skip(i as int),
                name@,
            ),
            found ==> without_first(all, name@) == variables_view(res@) + all.skip(i as int),
        decreases vars.len() - i,
    {
        let ghost before = variables_view(res@);
        proof {
            assert(all.skip(i as int)[0] == vars@[i as int]@);
            assert(all.skip(i as int).drop_first() == all.skip(i + 1));
        }
        if !found && text_eq(vars[i].name.as_str(), name) {
            found = true;
        } else {
            res.push(vars[i].clone());
            proof {
                assert(variables_view(res@) =~= before.push(vars@[i as int]@));
                if found {
                    assert(all.skip(i as int) =~= seq![vars@[i as int]@] + all.skip(i + 1));
                    assert(before + all.skip(i as int) =~= variables_view(res@) + all.skip(
                        i + 1,
                    ));
                } else {
                    assert(before + (seq![vars@[i as int]@] + without_first(
                        all.skip(i + 1),
                        name@,
                    )) =~= variables_view(res@) + without_first(all.skip(i + 1), name@));
                }
            }
        }
        i = i + 1;
    }
    proof {
        assert(all.skip(vars.len() as int) =~= Seq::empty());
        assert(variables_view(res@) + Seq::<VariableView>::empty() =~= variables_view(res@));
    }
    res
}

/// A context of two variables and no functions.
fn bind_lists(first: &str, a: Vec<Value>, second: &str, b: Vec<Value>) -> (res: Context)
    ensures
        res@ == bindings(
            seq![
                VariableView { name: first@, values: values_view(a@) },
                VariableView { name: second@, values: values_view(b@) },
            ],
        ),
{
    let mut vars: Vec<Variable> = Vec::new();
    vars.push(Variable::new(String::from_str(first), a));
    vars.push(Variable::new(String::from_str(second), b));
    let res = Context { vars, funs: Vec::new() };
    assert(res@.vars =~= seq![
        VariableView { name: first@, values: values_view(a@) },
        VariableView { name: second@, values: values_view(b@) },
    ]);
    assert(res@.funs =~= Seq::empty());
    res
}

/// A list of the one value.
fn one_value(value: Value) -> (res: Vec<Value>)
    ensures
        values_view(res@) == seq![value@],
{
    let mut res: Vec<Value> = Vec::new();
    res.push(value);
    assert(values_view(res@) =~= seq![value@]);
    res
}

/// No values.
fn no_values() -> (res: Vec<Value>)
    ensures
        values_view(res@) == Seq::<ValueView>::empty(),
{
    let res: Vec<Value> = Vec::new();
    assert(values_view(res@) =~= Seq::<ValueView>::empty());
    res
}

/// The first of the values, or `old` if there is none.
fn first_or_old(values: &Vec<Value>, old: Value) -> (res: Value)
    ensures
        res@ == first_or(values_view(values@), old@),
{
    if values.len() > 0 {
        assert(values_view(values@)[0] == values@[0]@);
        values[0].clone()
    } else {
        old
    }
}

/// The values with one more value at their end.
fn pushed(values: Vec<Value>, value: Value) -> (res: Vec<Value>)
    ensures
        values_view(res@) == values_view(values@).push(value@),
{
    let mut res = values;
    res.push(value);
    assert(values_view(res@) =~= values_view(values@).push(value@));
    res
}

/// The first of the values and the values behind it.
fn parted(values: Vec<Value>) -> (res: (Value, Vec<Value>))
    requires
        values.len() > 0,
    ensures
        res.0@ == values_view(values@)[0],
        values_view(res.1@) == values_view(values@).drop_first(),
{
    let mut rest = values;
    let first = rest.remove(0);
    assert(values_view(rest@) =~= values_view(values@).drop_first());
    (first, rest)
}

impl Integral {
    /// An integration of `expr` over `in_terms_of` from `lower` to `upper`,
    /// before its first step.
    fn new(expr: &AST, in_terms_of: &str, lower: &Value, upper: &Value, context: &Context) -> (res:
        Integral)
        ensures
            res@ == IntegralView::start(expr@, in_terms_of@, lower@, upper@, context@),
    {
        let res = Integral {
            expr: expr.clone(),
            in_terms_of: String::from_str(in_terms_of),
            lower: lower.clone(),
            upper: upper.clone(),
            vars: remove_first(&context.vars, in_terms_of),
            funs: clone_functions(&context.funs),
            low: 0,
            high: 0,
            width: Vec::new(),
            phase: IntegralPhase::Start,
        };
        assert(values_view(res.width@) =~= Seq::empty());
        res
    }

    /// The outcome, once the integration is over.
    pub fn outcome(&self) -> (res: Option<Result<Vec<Value>, EvalError>>)
        ensures
            reply_view(res) == self@.outcome(),
    {
        match &self.phase {
            IntegralPhase::Done(Ok(values)) => Some(Ok(clone_values(values))),
            IntegralPhase::Done(Err(e)) => Some(Err(e.clone())),
            _ => None,
        }
    }

    /// What the host is asked for in this state, if anything.
    pub fn request(&self) -> (res: Option<Evaluate>)
        ensures
            evaluate_view(res) == self@.request(),
    {
        match &self.phase {
            IntegralPhase::Width => {
                let mut slices = String::from_str("1e");
                let digits = decimal((PREC - 3) as u64);
                slices.append(digits.as_str());
                let ast = binary_tree(
                    SimpleOpType::Div,
                    binary_tree(SimpleOpType::Sub, variable_tree("u"), variable_tree("l")),
                    AST::Scalar(slices),
                );
                let context = bind_lists(
                    "u",
                    one_value(Value::Scalar(self.high)),
                    "l",
                    one_value(Value::Scalar(self.low)),
                );
                Some(Evaluate { ast, context })
            },
            IntegralPhase::Middle { at, sums } => {
                let ast = binary_tree(
                    SimpleOpType::Div,
                    binary_tree(
                        SimpleOpType::Add,
                        variable_tree("b"),
                        binary_tree(SimpleOpType::Sub, variable_tree("b"), variable_tree("d")),
                    ),
                    numeral_tree("2.0"),
                );
                let context = bind_lists("b", clone_values(at), "d", clone_values(&self.width));
                Some(Evaluate { ast, context })
            },
            IntegralPhase::Sample { at, sums, middle } => {
                let mut vars = clone_variables(&self.vars);
                let ghost before = variables_view(vars@);
                let variable = Variable::new(self.in_terms_of.clone(), clone_values(middle));
                vars.push(variable);
                assert(variables_view(vars@) =~= before.push(variable@));
                let context = Context { vars, funs: clone_functions(&self.funs) };
                Some(Evaluate { ast: self.expr.clone(), context })
            },
            IntegralPhase::Sum { at, done, old, sample, sums, samples } => {
                let ast = binary_tree(SimpleOpType::Add, variable_tree("s"), variable_tree("e"));
                let context = bind_lists(
                    "s",
                    one_value(old.clone()),
                    "e",
                    one_value(sample.clone()),
                );
                Some(Evaluate { ast, context })
            },
            IntegralPhase::Advance { at, sums } => {
                let ast = binary_tree(SimpleOpType::Add, variable_tree("b"), variable_tree("d"));
                let context = bind_lists("b", clone_values(at), "d", clone_values(&self.width));
                Some(Evaluate { ast, context })
            },
            IntegralPhase::Scale { done, now, sums } => {
                let ast = binary_tree(SimpleOpType::Mult, variable_tree("s"), variable_tree("d"));
                let context = bind_lists(
                    "s",
                    one_value(now.clone()),
                    "d",
                    clone_values(&self.width),
                );
                Some(Evaluate { ast, context })
            },
            _ => None,
        }
    }

    fn phase(self, phase: IntegralPhase) -> (res: Integral)
        ensures
            res@ == self@.phase(phase@),
    {
        Integral {
            expr: self.expr,
            in_terms_of: self.in_terms_of,
            lower: self.lower,
            upper: self.upper,
            vars: self.vars,
            funs: self.funs,
            low: self.low,
            high: self.high,
            width: self.width,
            phase,
        }
    }

    fn scale(self, done: Vec<Value>, sums: Vec<Value>) -> (res: Integral)
        ensures
            res@ == self@.scale(values_view(done@), values_view(sums@)),
    {
        if sums.len() == 0 {
            self.phase(IntegralPhase::Done(Ok(done)))
        } else {
            let split = parted(sums);
            self.phase(IntegralPhase::Scale { done, now: split.0, sums: split.1 })
        }
    }

    fn sweep(self, at: Vec<Value>, sums: Vec<Value>) -> (res: Integral)
        ensures
            res@ == self@.sweep(values_view(at@), values_view(sums@)),
    {
        let below = if at.len() > 0 {
            assert(values_view(at@)[0] == at@[0]@);
            match &at[0] {
                Value::Scalar(position) => is_less(*position, self.high),
                _ => false,
            }
        } else {
            false
        };
        if below {
            self.phase(IntegralPhase::Middle { at, sums })
        } else {
            self.scale(no_values(), sums)
        }
    }

    fn add(self, at: Vec<Value>, done: Vec<Value>, sums: Vec<Value>, samples: Vec<Value>) -> (res:
        Integral)
        ensures
            res@ == self@.add(
                values_view(at@),
                values_view(done@),
                values_view(sums@),
                values_view(samples@),
            ),
    {
        let ghost first_done = values_view(done@);
        let ghost first_samples = values_view(samples@);
        let mut done = done;
        let mut samples = samples;
        while sums.len() == 0 && samples.len() > 0
            invariant
                self@.add(
                    values_view(at@),
                    values_view(done@),
                    values_view(sums@),
                    values_view(samples@),
                ) == self@.add(values_view(at@), first_done, values_view(sums@), first_samples),
            decreases samples.len(),
        {
            let split = parted(samples);
            done = pushed(done, split.0);
            samples = split.1;
        }
        if samples.len() == 0 {
            self.phase(IntegralPhase::Advance { at, sums: join_values(done, sums) })
        } else {
            let first_sum = parted(sums);
            let first_sample = parted(samples);
            self.phase(
                IntegralPhase::Sum {
                    at,
                    done,
                    old: first_sum.0,
                    sample: first_sample.0,
                    sums: first_sum.1,
                    samples: first_sample.1,
                },
            )
        }
    }

    fn begin(self) -> (res: Integral)
        ensures
            res@ == self@.begin(),
    {
        match (&self.lower, &self.upper) {
            (Value::Scalar(lower), Value::Scalar(upper)) => {
                let lower = *lower;
                let upper = *upper;
                if is_equal(lower, upper) {
                    self.phase(IntegralPhase::Done(Ok(one_value(Value::Scalar(ZERO_BITS)))))
                } else if is_less(upper, lower) {
                    Integral {
                        expr: self.expr,
                        in_terms_of: self.in_terms_of,
                        lower: self.lower,
                        upper: self.upper,
                        vars: self.vars,
                        funs: self.funs,
                        low: upper,
                        high: lower,
                        width: self.width,
                        phase: IntegralPhase::Width,
                    }
                } else {
                    Integral {
                        expr: self.expr,
                        in_terms_of: self.in_terms_of,
                        lower: self.lower,
                        upper: self.upper,
                        vars: self.vars,
                        funs: self.funs,
                        low: lower,
                        high: upper,
                        width: self.width,
                        phase: IntegralPhase::Width,
                    }
                }
            },
            _ => self.phase(
                IntegralPhase::Done(
                    Err(EvalError::MathError(String::from_str("Only scalar bounds are allowed!"))),
                ),
            ),
        }
    }

    /// One step of the machine (see [`IntegralView::next`]). The request that
    /// comes back is the one that the new state waits for, if it waits.
    pub fn step(self, reply: Option<Result<Vec<Value>, EvalError>>) -> (res: (
        Integral,
        Option<Evaluate>,
    ))
        ensures
            res.0@ == self@.next(reply_view(reply)),
            evaluate_view(res.1) == res.0@.request(),
    {
        let Integral { expr, in_terms_of, lower, upper, vars, funs, low, high, width, phase } =
            self;
        let state = Integral {
            expr,
            in_terms_of,
            lower,
            upper,
            vars,
            funs,
            low,
            high,
            width,
            phase: IntegralPhase::Start,
        };
        let ghost before = self@;
        let next = match phase {
            IntegralPhase::Done(outcome) => state.phase(IntegralPhase::Done(outcome)),
            IntegralPhase::Start => state.begin(),
            waiting => match reply {
                None => state.phase(waiting),
                Some(Err(error)) => {
                    assert(before.phase(waiting@) == before);
                    state.phase(IntegralPhase::Done(Err(error)))
                },
                Some(Ok(values)) => match waiting {
                    IntegralPhase::Width => {
                        let widened = Integral {
                            expr: state.expr,
                            in_terms_of: state.in_terms_of,
                            lower: state.lower,
                            upper: state.upper,
                            vars: state.vars,
                            funs: state.funs,
                            low: state.low,
                            high: state.high,
                            width: values,
                            phase: IntegralPhase::Start,
                        };
                        let first = one_value(Value::Scalar(low));
                        widened.sweep(first, no_values())
                    },
                    IntegralPhase::Middle { at, sums } => state.phase(
                        IntegralPhase::Sample { at, sums, middle: values },
                    ),
                    IntegralPhase::Sample { at, sums, middle } => state.add(
                        at,
                        no_values(),
                        sums,
                        values,
                    ),
                    IntegralPhase::Sum { at, done, old, sample, sums, samples } => {
                        let sum = first_or_old(&values, old);
                        state.add(at, pushed(done, sum), sums, samples)
                    },
                    IntegralPhase::Advance { at, sums } => state.sweep(values, sums),
                    IntegralPhase::Scale { done, now, sums } => {
                        let product = first_or_old(&values, now);
                        state.scale(pushed(done, product), sums)
                    },
                    other => state.phase(other),
                },
            },
        };
        let request = next.request();
        (next, request)
    }
}

/// The integration of `expr` over `in_terms_of` between the two bounds,
/// before its first step.
pub fn calculate_integral(
    expr: &AST,
    in_terms_of: String,
    lower_bound: Value,
    upper_bound: Value,
    context: &Context,
) -> (res: Integral)
    ensures
        res@ == IntegralView::start(
            expr@,
            in_terms_of@,
            lower_bound@,
            upper_bound@,
            context@,
        ),
{
    Integral::new(expr, in_terms_of.as_str(), &lower_bound, &upper_bound, context)
}

} // verus!
