//! The solver of equations, as mathematics.
//!
//! The solver gets expressions and unknowns and finds the points at which all
//! expressions are zero. Where there are more expressions than unknowns, it
//! takes as many expressions as there are unknowns for the search and the
//! others for a check, one choice after the other, until a choice gives
//! roots. For every choice it runs Newton's method from 2000 starts; every
//! start has at most 1000 steps.
//!
//! The solver is a machine that moves in small steps and computes with no
//! number. It decides what is evaluated, in which context and in which order,
//! what an answer of its host means for the search, and which of the roots
//! found are handed out. It asks its host for the values of expressions, for
//! derivatives, for the next point of Newton's method given the slopes, and
//! for the rounded form of a root. Whether a norm is zero within the
//! tolerance it sees itself, from the bits of the norm.

use crate::basetypes::{
    placeholder, AstView, ContextView, SimpleOpType, ValueView, VariableView,
};
use crate::calculus::{binary, binding, bindings, EvaluateView, PREC};
use crate::errors::{integer_text, EvalErrorView};
use crate::numbers::{
    less, negative, not_a_number, smaller, some_inf_or_nan, SIGN_BIT, ZERO_BITS,
};
use crate::selection::{chosen, cleaned};
use crate::semantics::Outcome;
use vstd::prelude::*;

verus! {

/// The first start of Newton's method.
pub const FIRST_START: i64 = -1000;

/// The start behind the last one.
pub const END_START: i64 = 1000;

/// The steps of Newton's method from one start.
pub const MOST_STEPS: usize = 1000;

/// The bits of the tolerance, ten to the power of minus [`PREC`]: the number
/// that the numeral `1e-8` writes.
pub const TOLERANCE_BITS: u64 = 0x3E45_798E_E230_8C3A;

/// The digits behind the point to which roots are rounded before they are
/// compared.
pub const ROOT_DIGITS: usize = PREC - 2;

/// What the solver asks of its host.
pub enum QuestionView {
    /// The values of a tree in a context.
    Evaluate(EvaluateView),
    /// The derivative of `expr` by `in_terms_of` at `at`, where `expr` has the
    /// value `known` at that point. Of every evaluation the first value
    /// counts.
    Differentiate {
        expr: AstView,
        in_terms_of: Seq<char>,
        at: ValueView,
        known: ValueView,
        context: ContextView,
    },
    /// The next point of Newton's method: the point plus the solution of the
    /// linear system with the slopes as its matrix and the negated residual
    /// as its right side (see [`crate::elimination`]).
    Improve { slopes: Seq<Seq<u64>>, residual: Seq<u64>, point: Seq<u64> },
    /// The value with its numbers rounded to `digits` digits behind the
    /// point.
    Round { value: ValueView, digits: nat },
}

/// What the host hands in.
pub enum AnswerView {
    Evaluated(Outcome),
    Point(Result<Seq<u64>, EvalErrorView>),
    Rounded(ValueView),
}

pub enum PhaseView {
    /// The number at which the expressions are probed was asked for.
    ProbeValue,
    /// The expression `index` at the probe point was asked for.
    Probe { value: ValueView, index: nat },
    /// The number of the start was asked for.
    StartValue,
    /// The next expression of the search was asked for; `done` are the values
    /// of the expressions before it.
    Residual { done: Seq<u64> },
    /// The norm of the residual was asked for.
    Norm { residual: Seq<u64> },
    /// The next expression of the check was asked for.
    Check { done: Seq<u64> },
    /// The norm of the values of the check was asked for.
    CheckNorm { values: Seq<u64> },
    /// The next slope was asked for: the derivative of the expression of the
    /// search with the index `rows.len()` by the unknown with the index
    /// `row.len()`.
    Slope { residual: Seq<u64>, rows: Seq<Seq<u64>>, row: Seq<u64> },
    /// The next point was asked for.
    Improve { residual: Seq<u64>, slopes: Seq<Seq<u64>> },
    /// The rounded form of the next root was asked for.
    Round { rounded: Seq<ValueView> },
    Done(Outcome),
}

/// The state of a solver.
pub struct FinderView {
    pub expressions: Seq<AstView>,
    /// The choices of expressions for the search, each a list of indices.
    pub combinations: Seq<Seq<usize>>,
    pub context: ContextView,
    pub unknowns: Seq<Seq<char>>,
    /// The index of the choice that is searched.
    pub combination: nat,
    pub start: int,
    /// The steps made from the start.
    pub steps: nat,
    pub point: Seq<u64>,
    /// The roots that the choice has given so far.
    pub roots: Seq<ValueView>,
    pub phase: PhaseView,
}

/// The numeral of the number at which the expressions are probed.
pub open spec fn probe_numeral() -> Seq<char> {
    "8.21785"@
}

/// The tree `abs(v)`: of a vector `v`, its norm.
pub open spec fn norm_tree() -> AstView {
    binary(SimpleOpType::Abs, AstView::Variable("v"@), placeholder())
}

/// What is asked for the norm of the numbers.
pub open spec fn norm_of(numbers: Seq<u64>) -> EvaluateView {
    EvaluateView {
        ast: norm_tree(),
        context: bindings(seq![binding("v"@, ValueView::Vector(numbers))]),
    }
}

/// The number with the other sign.
pub open spec fn opposite(bits: u64) -> u64 {
    if negative(bits) {
        (bits - SIGN_BIT) as u64
    } else {
        (bits + SIGN_BIT) as u64
    }
}

/// The number is zero within the tolerance: it lies between minus the
/// tolerance and the tolerance.
pub open spec fn within_tolerance(number: u64) -> bool {
    less(opposite(TOLERANCE_BITS), number) && less(number, TOLERANCE_BITS)
}

/// A number is zero within the tolerance exactly if its magnitude is below
/// the tolerance: the sign of the number plays no part, and what is no number
/// is not zero.
pub proof fn law_tolerance_by_magnitude(number: u64)
    ensures
        within_tolerance(number) == smaller(number, TOLERANCE_BITS),
        within_tolerance(number) == within_tolerance(opposite(number)),
        not_a_number(number) ==> !within_tolerance(number),
{
}

/// The indices `0, 1, ..., n - 1`.
pub open spec fn range(n: nat) -> Seq<usize> {
    Seq::new(n, |i: int| i as usize)
}

/// The choices of expressions for the search: every way to choose as many of
/// the expressions as there are unknowns, or the one way to take them all.
pub open spec fn choices(expressions: nat, unknowns: nat) -> Seq<Seq<usize>> {
    if unknowns < expressions {
        chosen(range(expressions), unknowns, Seq::empty())
    } else {
        seq![range(expressions)]
    }
}

/// The expressions with the given indices.
pub open spec fn picked(expressions: Seq<AstView>, indices: Seq<usize>) -> Seq<AstView> {
    indices.filter(|k: usize| k < expressions.len()).map_values(|k: usize| expressions[k as int])
}

/// The expressions whose indices are not among the given ones.
pub open spec fn left_over(expressions: Seq<AstView>, indices: Seq<usize>) -> Seq<AstView> {
    range(expressions.len()).filter(|k: usize| !indices.contains(k)).map_values(
        |k: usize| expressions[k as int],
    )
}

/// The number at place `k`, or zero if there is no such place.
pub open spec fn number_at(numbers: Seq<u64>, k: int) -> u64 {
    if 0 <= k < numbers.len() {
        numbers[k]
    } else {
        ZERO_BITS
    }
}

/// The context with the first `n` unknowns added, the unknown `k` bound to
/// the number at place `k`.
pub open spec fn with_unknowns(
    context: ContextView,
    unknowns: Seq<Seq<char>>,
    point: Seq<u64>,
    n: int,
) -> ContextView
    decreases n,
{
    if n <= 0 || n > unknowns.len() {
        context
    } else {
        with_unknowns(context, unknowns, point, n - 1).with_variable(
            VariableView {
                name: unknowns[n - 1],
                values: seq![ValueView::Scalar(number_at(point, n - 1))],
            },
        )
    }
}

/// The variables with the first `n` unknowns behind them, but for the unknown
/// `skip`.
pub open spec fn with_others(
    vars: Seq<VariableView>,
    unknowns: Seq<Seq<char>>,
    point: Seq<u64>,
    skip: int,
    n: int,
) -> Seq<VariableView>
    decreases n,
{
    if n <= 0 || n > unknowns.len() {
        vars
    } else if n - 1 == skip {
        with_others(vars, unknowns, point, skip, n - 1)
    } else {
        with_others(vars, unknowns, point, skip, n - 1).push(
            VariableView {
                name: unknowns[n - 1],
                values: seq![ValueView::Scalar(number_at(point, n - 1))],
            },
        )
    }
}

/// The point at which all unknowns have the same value.
pub open spec fn uniform(value: u64, unknowns: nat) -> Seq<u64> {
    Seq::new(unknowns, |k: int| value)
}

/// The root that a point is: a number if there is one unknown, else a
/// vector.
pub open spec fn root_of(point: Seq<u64>) -> ValueView {
    if point.len() == 1 {
        ValueView::Scalar(point[0])
    } else {
        ValueView::Vector(point)
    }
}

/// The number that an evaluation gave: its first value, which has to be a
/// number.
pub open spec fn number_of(values: Seq<ValueView>) -> Result<u64, EvalErrorView> {
    if values.len() == 0 {
        Err(EvalErrorView::NothingToDoEq)
    } else {
        match values[0] {
            ValueView::Scalar(s) => Ok(s),
            ValueView::Vector(_) => Err(EvalErrorView::VectorInEq),
            ValueView::Matrix(_) => Err(EvalErrorView::MatrixInEq),
        }
    }
}

impl FinderView {
    pub open spec fn phase(self, phase: PhaseView) -> FinderView {
        FinderView { phase, ..self }
    }

    pub open spec fn fail(self, error: EvalErrorView) -> FinderView {
        self.phase(PhaseView::Done(Err(error)))
    }

    /// The expressions of the search.
    pub open spec fn search(self) -> Seq<AstView> {
        if self.combination < self.combinations.len() {
            picked(self.expressions, self.combinations[self.combination as int])
        } else {
            Seq::empty()
        }
    }

    /// The expressions of the check.
    pub open spec fn check(self) -> Seq<AstView> {
        if self.combination < self.combinations.len() {
            left_over(self.expressions, self.combinations[self.combination as int])
        } else {
            Seq::empty()
        }
    }

    /// The context at the point.
    pub open spec fn at_point(self) -> ContextView {
        with_unknowns(self.context, self.unknowns, self.point, self.unknowns.len() as int)
    }

    /// What the host is asked for in this state, if anything.
    pub open spec fn question(self) -> Option<QuestionView> {
        match self.phase {
            PhaseView::ProbeValue => Some(
                QuestionView::Evaluate(
                    EvaluateView {
                        ast: AstView::Scalar(probe_numeral()),
                        context: ContextView { vars: Seq::empty(), funs: Seq::empty() },
                    },
                ),
            ),
            PhaseView::Probe { value, index } => if index < self.expressions.len() {
                Some(
                    QuestionView::Evaluate(
                        EvaluateView {
                            ast: self.expressions[index as int],
                            context: probe_context(
                                self.context,
                                self.unknowns,
                                value,
                                self.unknowns.len() as int,
                            ),
                        },
                    ),
                )
            } else {
                None
            },
            PhaseView::StartValue => Some(
                QuestionView::Evaluate(
                    EvaluateView {
                        ast: AstView::Scalar(integer_text(self.start)),
                        context: ContextView { vars: Seq::empty(), funs: Seq::empty() },
                    },
                ),
            ),
            PhaseView::Residual { done } => if done.len() < self.search().len() {
                Some(
                    QuestionView::Evaluate(
                        EvaluateView {
                            ast: self.search()[done.len() as int],
                            context: self.at_point(),
                        },
                    ),
                )
            } else {
                None
            },
            PhaseView::Norm { residual } => Some(QuestionView::Evaluate(norm_of(residual))),
            PhaseView::Check { done } => if done.len() < self.check().len() {
                Some(
                    QuestionView::Evaluate(
                        EvaluateView {
                            ast: self.check()[done.len() as int],
                            context: self.at_point(),
                        },
                    ),
                )
            } else {
                None
            },
            PhaseView::CheckNorm { values } => Some(QuestionView::Evaluate(norm_of(values))),
            PhaseView::Slope { residual, rows, row } => if rows.len() < self.search().len()
                && row.len() < self.unknowns.len() {
                Some(
                    QuestionView::Differentiate {
                        expr: self.search()[rows.len() as int],
                        in_terms_of: self.unknowns[row.len() as int],
                        at: ValueView::Scalar(number_at(self.point, row.len() as int)),
                        known: ValueView::Scalar(number_at(residual, rows.len() as int)),
                        context: ContextView {
                            vars: with_others(
                                self.context.vars,
                                self.unknowns,
                                self.point,
                                row.len() as int,
                                self.unknowns.len() as int,
                            ),
                            funs: self.context.funs,
                        },
                    },
                )
            } else {
                None
            },
            PhaseView::Improve { residual, slopes } => Some(
                QuestionView::Improve { slopes, residual, point: self.point },
            ),
            PhaseView::Round { rounded } => if rounded.len() < self.roots.len() {
                Some(
                    QuestionView::Round {
                        value: self.roots[rounded.len() as int],
                        digits: ROOT_DIGITS as nat,
                    },
                )
            } else {
                None
            },
            _ => None,
        }
    }

    /// The outcome, once the solver is done.
    pub open spec fn outcome(self) -> Option<Outcome> {
        match self.phase {
            PhaseView::Done(outcome) => Some(outcome),
            _ => None,
        }
    }

    /// The expressions are probed one after the other; then the search
    /// starts with the first choice.
    pub open spec fn probe(self, value: ValueView, index: nat) -> FinderView {
        if index >= self.expressions.len() {
            self.take_choice(0)
        } else {
            self.phase(PhaseView::Probe { value, index })
        }
    }

    /// The search goes on with the choice `combination`; behind the last
    /// choice there are no roots.
    pub open spec fn take_choice(self, combination: nat) -> FinderView
        decreases self.combinations.len() - combination, 2nat,
    {
        if combination >= self.combinations.len() {
            self.phase(PhaseView::Done(Ok(Seq::empty())))
        } else {
            (FinderView { combination, roots: Seq::empty(), ..self }).begin(FIRST_START as int)
        }
    }

    /// Newton's method begins at the start `start`; behind the last start the
    /// roots of the choice are rounded.
    pub open spec fn begin(self, start: int) -> FinderView
        decreases self.combinations.len() - self.combination, 1nat,
    {
        if start >= END_START {
            (FinderView { start, ..self }).round(Seq::empty())
        } else {
            FinderView { start, steps: 0, phase: PhaseView::StartValue, ..self }
        }
    }

    /// The start is given up.
    pub open spec fn next_start(self) -> FinderView {
        self.begin(
            if self.start < END_START {
                self.start + 1
            } else {
                END_START as int
            },
        )
    }

    /// The expressions of the search are evaluated at the point, one after
    /// the other; then the norm of their values is asked for.
    pub open spec fn residual(self, done: Seq<u64>) -> FinderView {
        if done.len() >= self.search().len() {
            self.phase(PhaseView::Norm { residual: done })
        } else {
            self.phase(PhaseView::Residual { done })
        }
    }

    /// The expressions of the check are evaluated at the point, one after the
    /// other; then the norm of their values is asked for. Without a check
    /// the point is a root.
    pub open spec fn checks(self, done: Seq<u64>) -> FinderView {
        if done.len() >= self.check().len() {
            if self.check().len() == 0 {
                self.accept()
            } else {
                self.phase(PhaseView::CheckNorm { values: done })
            }
        } else {
            self.phase(PhaseView::Check { done })
        }
    }

    /// The point is a root; the search goes on at the next start.
    pub open spec fn accept(self) -> FinderView {
        (FinderView { roots: self.roots.push(root_of(self.point)), ..self }).next_start()
    }

    /// The slopes are asked for, row by row: a row for every expression of
    /// the search, in every row a slope for every unknown. Then the host
    /// gives the next point.
    pub open spec fn slopes(self, residual: Seq<u64>, rows: Seq<Seq<u64>>, row: Seq<u64>) -> FinderView
        decreases self.search().len() - rows.len(),
    {
        if rows.len() >= self.search().len() {
            self.phase(PhaseView::Improve { residual, slopes: rows })
        } else if row.len() >= self.unknowns.len() {
            self.slopes(residual, rows.push(row), Seq::empty())
        } else {
            self.phase(PhaseView::Slope { residual, rows, row })
        }
    }

    /// An error on the way from a start: a system with infinitely many
    /// solutions ends the search with this choice of expressions; a point
    /// that is no number, and a failed check, end the search from this
    /// start; every other error ends the solver.
    pub open spec fn stumble(self, error: EvalErrorView) -> FinderView {
        match error {
            EvalErrorView::InfiniteSolutions => self.round(Seq::empty()),
            EvalErrorView::NaNOrInf => self.next_start(),
            EvalErrorView::ExpressionCheckFailed => self.next_start(),
            _ => self.fail(error),
        }
    }

    /// The roots of the choice are rounded one after the other. Then the
    /// solver hands out the roots that differ after rounding, or goes on with
    /// the next choice if there is none.
    pub open spec fn round(self, rounded: Seq<ValueView>) -> FinderView
        decreases self.combinations.len() - self.combination, 0nat,
    {
        if rounded.len() >= self.roots.len() {
            if cleaned(self.roots, rounded).len() > 0 {
                self.phase(PhaseView::Done(Ok(cleaned(self.roots, rounded))))
            } else if self.combination < self.combinations.len() {
                self.take_choice(self.combination + 1)
            } else {
                self.phase(PhaseView::Done(Ok(Seq::empty())))
            }
        } else {
            self.phase(PhaseView::Round { rounded })
        }
    }

    /// The solver goes on with a number that an evaluation gave, or stumbles
    /// over what the evaluation gave instead.
    pub open spec fn take_number(self, values: Seq<ValueView>) -> FinderView {
        let idle = self.phase(PhaseView::ProbeValue);
        match number_of(values) {
            Err(error) => idle.stumble(error),
            Ok(number) => match self.phase {
                PhaseView::Residual { done } => idle.residual(done.push(number)),
                PhaseView::Check { done } => idle.checks(done.push(number)),
                PhaseView::Slope { residual, rows, row } => idle.slopes(
                    residual,
                    rows,
                    row.push(number),
                ),
                PhaseView::Norm { residual } => if within_tolerance(number) {
                    idle.checks(Seq::empty())
                } else {
                    idle.slopes(residual, Seq::empty(), Seq::empty())
                },
                PhaseView::CheckNorm { values } => if within_tolerance(number) {
                    idle.accept()
                } else {
                    idle.next_start()
                },
                _ => self,
            },
        }
    }

    /// The answer answers the question that is out.
    pub open spec fn accepts(self, answer: AnswerView) -> bool {
        match (self.phase, answer) {
            (PhaseView::ProbeValue, AnswerView::Evaluated(_)) => true,
            (PhaseView::Probe { .. }, AnswerView::Evaluated(_)) => true,
            (PhaseView::StartValue, AnswerView::Evaluated(_)) => true,
            (PhaseView::Residual { .. }, AnswerView::Evaluated(_)) => true,
            (PhaseView::Norm { .. }, AnswerView::Evaluated(_)) => true,
            (PhaseView::Check { .. }, AnswerView::Evaluated(_)) => true,
            (PhaseView::CheckNorm { .. }, AnswerView::Evaluated(_)) => true,
            (PhaseView::Slope { .. }, AnswerView::Evaluated(_)) => true,
            (PhaseView::Improve { .. }, AnswerView::Point(_)) => true,
            (PhaseView::Round { .. }, AnswerView::Rounded(_)) => true,
            _ => false,
        }
    }

    /// The solver goes on with the answer to its question.
    pub open spec fn resume(self, answer: AnswerView) -> FinderView {
        let idle = self.phase(PhaseView::ProbeValue);
        match (self.phase, answer) {
            (PhaseView::ProbeValue, AnswerView::Evaluated(Ok(values))) => idle.probe(
                if values.len() > 0 {
                    values[0]
                } else {
                    ValueView::Scalar(ZERO_BITS)
                },
                0,
            ),
            (PhaseView::ProbeValue, AnswerView::Evaluated(Err(error))) => idle.fail(error),
            (PhaseView::Probe { value, index }, AnswerView::Evaluated(Ok(values))) => {
                if values.len() > 0 && values[0] is Vector {
                    idle.fail(EvalErrorView::VectorInEq)
                } else if values.len() > 0 && values[0] is Matrix {
                    idle.fail(EvalErrorView::MatrixInEq)
                } else {
                    idle.probe(value, index + 1)
                }
            },
            (PhaseView::Probe { value, index }, AnswerView::Evaluated(Err(error))) => idle.fail(
                error,
            ),
            (PhaseView::StartValue, AnswerView::Evaluated(Ok(values))) => {
                if values.len() > 0 && values[0] is Scalar {
                    (FinderView {
                        point: uniform(values[0]->Scalar_0, self.unknowns.len()),
                        ..idle
                    }).residual(Seq::empty())
                } else {
                    idle.next_start()
                }
            },
            (PhaseView::StartValue, AnswerView::Evaluated(Err(error))) => idle.stumble(error),
            (PhaseView::Residual { .. }, AnswerView::Evaluated(Ok(values))) => self.take_number(
                values,
            ),
            (PhaseView::Check { .. }, AnswerView::Evaluated(Ok(values))) => self.take_number(
                values,
            ),
            (PhaseView::Slope { .. }, AnswerView::Evaluated(Ok(values))) => self.take_number(
                values,
            ),
            (PhaseView::Norm { .. }, AnswerView::Evaluated(Ok(values))) => self.take_number(
                values,
            ),
            (PhaseView::CheckNorm { .. }, AnswerView::Evaluated(Ok(values))) => self.take_number(
                values,
            ),
            (PhaseView::Residual { .. }, AnswerView::Evaluated(Err(error))) => idle.stumble(error),
            (PhaseView::Check { .. }, AnswerView::Evaluated(Err(error))) => idle.stumble(error),
            (PhaseView::Slope { .. }, AnswerView::Evaluated(Err(error))) => idle.stumble(error),
            (PhaseView::Norm { .. }, AnswerView::Evaluated(Err(error))) => idle.stumble(error),
            (PhaseView::CheckNorm { .. }, AnswerView::Evaluated(Err(error))) => idle.stumble(
                error,
            ),
            (PhaseView::Improve { residual, slopes }, AnswerView::Point(Ok(point))) => {
                if some_inf_or_nan(point) {
                    idle.next_start()
                } else if self.steps + 1 >= MOST_STEPS {
                    (FinderView { point, ..idle }).next_start()
                } else {
                    (FinderView { point, steps: self.steps + 1, ..idle }).residual(Seq::empty())
                }
            },
            (PhaseView::Improve { residual, slopes }, AnswerView::Point(Err(error))) => {
                idle.stumble(error)
            },
            (PhaseView::Round { rounded }, AnswerView::Rounded(value)) => idle.round(
                rounded.push(value),
            ),
            _ => self,
        }
    }

    /// One step of the machine. A finished machine stays as it is; a machine
    /// that waits takes the answer if it answers the question, and stays as
    /// it is otherwise.
    pub open spec fn next(self, answer: Option<AnswerView>) -> FinderView {
        match self.phase {
            PhaseView::Done(_) => self,
            _ => match answer {
                Some(a) => if self.accepts(a) {
                    self.resume(a)
                } else {
                    self
                },
                None => self,
            },
        }
    }
}

/// The context with the first `n` unknowns added, each bound to `value`.
pub open spec fn probe_context(
    context: ContextView,
    unknowns: Seq<Seq<char>>,
    value: ValueView,
    n: int,
) -> ContextView
    decreases n,
{
    if n <= 0 || n > unknowns.len() {
        context
    } else {
        probe_context(context, unknowns, value, n - 1).with_variable(
            VariableView { name: unknowns[n - 1], values: seq![value] },
        )
    }
}

/// A variable of the given name is in the context.
pub open spec fn bound_in(context: ContextView, name: Seq<char>) -> bool {
    crate::semantics::has_name(context.vars, name)
}

/// Why there is nothing to solve, if there is nothing to solve: no
/// expression, an expression that is no operation, an unknown that is bound
/// in the context already, or more unknowns than expressions.
pub open spec fn objection(
    expressions: Seq<AstView>,
    context: ContextView,
    unknowns: Seq<Seq<char>>,
) -> Option<EvalErrorView> {
    if expressions.len() == 0 {
        Some(EvalErrorView::NothingToDoEq)
    } else if exists|k: int| 0 <= k < expressions.len() && !is_operation(#[trigger] expressions[k]) {
        Some(EvalErrorView::NothingToDoEq)
    } else if exists|k: int| 0 <= k < unknowns.len() && bound_in(context, #[trigger] unknowns[k]) {
        Some(EvalErrorView::SearchVarsInVars)
    } else if unknowns.len() > expressions.len() {
        Some(EvalErrorView::UnderdeterminedSystem)
    } else {
        None
    }
}

/// The tree is an operation.
pub open spec fn is_operation(ast: AstView) -> bool {
    ast is Simple || ast is Integral || ast is Derivative || ast is Equation
}

/// The state in which a solver starts.
pub open spec fn start_of(
    expressions: Seq<AstView>,
    context: ContextView,
    unknowns: Seq<Seq<char>>,
) -> FinderView {
    FinderView {
        expressions,
        combinations: choices(expressions.len(), unknowns.len()),
        context,
        unknowns,
        combination: 0,
        start: FIRST_START as int,
        steps: 0,
        point: Seq::empty(),
        roots: Seq::empty(),
        phase: PhaseView::ProbeValue,
    }
}

} // verus!
