//! What the solver comes to, all at once.
//!
//! The machine of [`crate::newton`] moves in small steps between the answers
//! of its host. This file says what the roots of a system are without any
//! steps: given a host that answers the question `q` by `host(q)`, the roots
//! are put together from the choices of expressions, the starts of every
//! choice, and the walks of Newton's method from every start. And it proves
//! that the machine, run by that host, ends with exactly these roots.
//!
//! There are no roots to speak of only where the host answers a question
//! with an answer of the wrong kind: then the machine waits for ever.

use crate::basetypes::{AstView, ContextView, ValueView};
use crate::calculus::EvaluateView;
use crate::errors::{integer_text, EvalErrorView};
use crate::newton::{
    left_over, norm_of, number_at, number_of, picked, probe_context, probe_numeral, root_of,
    start_of, uniform, with_others, with_unknowns, within_tolerance, AnswerView, FinderView,
    PhaseView, QuestionView, END_START, FIRST_START, MOST_STEPS, ROOT_DIGITS,
};
use crate::numbers::{some_inf_or_nan, ZERO_BITS};
use crate::selection::cleaned;
use crate::semantics::Outcome;
use vstd::prelude::*;

verus! {

/// What is to be solved: the expressions, the choices of expressions for the
/// search, the context, and the unknowns.
pub struct Problem {
    pub expressions: Seq<AstView>,
    pub combinations: Seq<Seq<usize>>,
    pub context: ContextView,
    pub unknowns: Seq<Seq<char>>,
}

/// What a state of the machine is to solve.
pub open spec fn problem_of(state: FinderView) -> Problem {
    Problem {
        expressions: state.expressions,
        combinations: state.combinations,
        context: state.context,
        unknowns: state.unknowns,
    }
}

impl Problem {
    /// The expressions of the search with the choice `c`.
    pub open spec fn search(self, c: nat) -> Seq<AstView> {
        if c < self.combinations.len() {
            picked(self.expressions, self.combinations[c as int])
        } else {
            Seq::empty()
        }
    }

    /// The expressions of the check with the choice `c`.
    pub open spec fn check(self, c: nat) -> Seq<AstView> {
        if c < self.combinations.len() {
            left_over(self.expressions, self.combinations[c as int])
        } else {
            Seq::empty()
        }
    }

    /// The question for the value of a tree at a point.
    pub open spec fn value_at(self, tree: AstView, point: Seq<u64>) -> QuestionView {
        QuestionView::Evaluate(
            EvaluateView {
                ast: tree,
                context: with_unknowns(
                    self.context,
                    self.unknowns,
                    point,
                    self.unknowns.len() as int,
                ),
            },
        )
    }

    /// The question for the slope of the expression `row` of the search by
    /// the unknown `column` at a point, where the expressions have the values
    /// `residual`.
    pub open spec fn slope_at(
        self,
        c: nat,
        point: Seq<u64>,
        residual: Seq<u64>,
        row: int,
        column: int,
    ) -> QuestionView {
        QuestionView::Differentiate {
            expr: self.search(c)[row],
            in_terms_of: self.unknowns[column],
            at: ValueView::Scalar(number_at(point, column)),
            known: ValueView::Scalar(number_at(residual, row)),
            context: ContextView {
                vars: with_others(
                    self.context.vars,
                    self.unknowns,
                    point,
                    column,
                    self.unknowns.len() as int,
                ),
                funs: self.context.funs,
            },
        }
    }
}

/// The question for the number that a numeral writes.
pub open spec fn numeral_of(text: Seq<char>) -> QuestionView {
    QuestionView::Evaluate(
        EvaluateView {
            ast: AstView::Scalar(text),
            context: ContextView { vars: Seq::empty(), funs: Seq::empty() },
        },
    )
}

/// How a walk of Newton's method from one start ends.
pub enum Walk {
    /// At a root.
    Root(Seq<u64>),
    /// Without a root: the next start follows.
    GiveUp,
    /// Without a root, and with the end of all starts of this choice.
    EndChoice,
    /// With an error that ends the solver.
    Fail(EvalErrorView),
}

/// What an error on the way means for the walk: a system with infinitely
/// many solutions ends the search with this choice of expressions; a point
/// that is no number, and a failed check, end the walk; every other error
/// ends the solver.
pub open spec fn stumbled(error: EvalErrorView) -> Walk {
    match error {
        EvalErrorView::InfiniteSolutions => Walk::EndChoice,
        EvalErrorView::NaNOrInf => Walk::GiveUp,
        EvalErrorView::ExpressionCheckFailed => Walk::GiveUp,
        _ => Walk::Fail(error),
    }
}

/// The number that a host gives for a question: the first value of what it
/// evaluates to, which has to be a number.
pub open spec fn number_by(host: spec_fn(QuestionView) -> AnswerView, question: QuestionView) -> Option<
    Result<u64, EvalErrorView>,
> {
    match host(question) {
        AnswerView::Evaluated(Err(error)) => Some(Err(error)),
        AnswerView::Evaluated(Ok(values)) => Some(number_of(values)),
        _ => None,
    }
}

/// The values of the trees at the point, from the tree `done.len()` on,
/// behind `done`.
pub open spec fn values_by(
    host: spec_fn(QuestionView) -> AnswerView,
    problem: Problem,
    point: Seq<u64>,
    trees: Seq<AstView>,
    done: Seq<u64>,
) -> Option<Result<Seq<u64>, EvalErrorView>>
    decreases trees.len() - done.len(),
{
    if done.len() >= trees.len() {
        Some(Ok(done))
    } else {
        match number_by(host, problem.value_at(trees[done.len() as int], point)) {
            None => None,
            Some(Err(error)) => Some(Err(error)),
            Some(Ok(number)) => values_by(host, problem, point, trees, done.push(number)),
        }
    }
}

/// The slopes of the expressions of the search at the point, row by row: in
/// the row of an expression its slopes by all unknowns. `rows` are the rows
/// that are full, `row` is the row that is being filled.
pub open spec fn slopes_by(
    host: spec_fn(QuestionView) -> AnswerView,
    problem: Problem,
    c: nat,
    point: Seq<u64>,
    residual: Seq<u64>,
    rows: Seq<Seq<u64>>,
    row: Seq<u64>,
) -> Option<Result<Seq<Seq<u64>>, EvalErrorView>>
    decreases problem.search(c).len() - rows.len(), problem.unknowns.len() - row.len(),
{
    if rows.len() >= problem.search(c).len() {
        Some(Ok(rows))
    } else if row.len() >= problem.unknowns.len() {
        slopes_by(host, problem, c, point, residual, rows.push(row), Seq::empty())
    } else {
        match number_by(
            host,
            problem.slope_at(c, point, residual, rows.len() as int, row.len() as int),
        ) {
            None => None,
            Some(Err(error)) => Some(Err(error)),
            Some(Ok(number)) => slopes_by(
                host,
                problem,
                c,
                point,
                residual,
                rows,
                row.push(number),
            ),
        }
    }
}

/// How the walk ends at a point where the expressions of the search are
/// zero: the point is a root if there is no check, or if the norm of the
/// values of the expressions of the check is zero within the tolerance.
pub open spec fn checked_by(
    host: spec_fn(QuestionView) -> AnswerView,
    problem: Problem,
    c: nat,
    point: Seq<u64>,
) -> Option<Walk> {
    match values_by(host, problem, point, problem.check(c), Seq::empty()) {
        None => None,
        Some(Err(error)) => Some(stumbled(error)),
        Some(Ok(values)) => if problem.check(c).len() == 0 {
            Some(Walk::Root(point))
        } else {
            match number_by(host, QuestionView::Evaluate(norm_of(values))) {
                None => None,
                Some(Err(error)) => Some(stumbled(error)),
                Some(Ok(norm)) => if within_tolerance(norm) {
                    Some(Walk::Root(point))
                } else {
                    Some(Walk::GiveUp)
                },
            }
        },
    }
}

/// How the walk of Newton's method from a point ends, after `steps` steps
/// were made already. At the point the expressions of the search have their
/// values, the residual. Where the norm of the residual is zero within the
/// tolerance, the walk ends (see [`checked_by`]). Else the host gives the
/// next point from the slopes; the walk ends without a root at a point that
/// is no number and after the last step, and goes on from the next point
/// otherwise.
pub open spec fn walked_by(
    host: spec_fn(QuestionView) -> AnswerView,
    problem: Problem,
    c: nat,
    point: Seq<u64>,
    steps: nat,
) -> Option<Walk>
    decreases MOST_STEPS - steps,
{
    match values_by(host, problem, point, problem.search(c), Seq::empty()) {
        None => None,
        Some(Err(error)) => Some(stumbled(error)),
        Some(Ok(residual)) => match number_by(host, QuestionView::Evaluate(norm_of(residual))) {
            None => None,
            Some(Err(error)) => Some(stumbled(error)),
            Some(Ok(norm)) => if within_tolerance(norm) {
                checked_by(host, problem, c, point)
            } else {
                match slopes_by(host, problem, c, point, residual, Seq::empty(), Seq::empty()) {
                    None => None,
                    Some(Err(error)) => Some(stumbled(error)),
                    Some(Ok(slopes)) => match host(
                        QuestionView::Improve { slopes, residual, point },
                    ) {
                        AnswerView::Point(Err(error)) => Some(stumbled(error)),
                        AnswerView::Point(Ok(behind)) => if some_inf_or_nan(behind) {
                            Some(Walk::GiveUp)
                        } else if steps + 1 >= MOST_STEPS {
                            Some(Walk::GiveUp)
                        } else {
                            walked_by(host, problem, c, behind, steps + 1)
                        },
                        _ => None,
                    },
                }
            },
        },
    }
}

/// The roots that the choice `c` gives from the starts `start`, `start + 1`,
/// ..., behind `roots`; or the error that ends the solver. At every start
/// all unknowns have the value of the start, and Newton's method walks from
/// there.
pub open spec fn found_by(
    host: spec_fn(QuestionView) -> AnswerView,
    problem: Problem,
    c: nat,
    start: int,
    roots: Seq<ValueView>,
) -> Option<Outcome>
    decreases END_START - start,
{
    if start >= END_START {
        Some(Ok(roots))
    } else {
        let walk: Option<Walk> = match host(numeral_of(integer_text(start))) {
            AnswerView::Evaluated(Err(error)) => Some(stumbled(error)),
            AnswerView::Evaluated(Ok(values)) => if values.len() > 0 && values[0] is Scalar {
                walked_by(
                    host,
                    problem,
                    c,
                    uniform(values[0]->Scalar_0, problem.unknowns.len()),
                    0,
                )
            } else {
                Some(Walk::GiveUp)
            },
            _ => None,
        };
        match walk {
            None => None,
            Some(Walk::Root(point)) => found_by(
                host,
                problem,
                c,
                start + 1,
                roots.push(root_of(point)),
            ),
            Some(Walk::GiveUp) => found_by(host, problem, c, start + 1, roots),
            Some(Walk::EndChoice) => Some(Ok(roots)),
            Some(Walk::Fail(error)) => Some(Err(error)),
        }
    }
}

/// The roots in their rounded form, as a host rounds them, from the root
/// `rounded.len()` on, behind `rounded`.
pub open spec fn rounded_by(
    host: spec_fn(QuestionView) -> AnswerView,
    roots: Seq<ValueView>,
    rounded: Seq<ValueView>,
) -> Option<Seq<ValueView>>
    decreases roots.len() - rounded.len(),
{
    if rounded.len() >= roots.len() {
        Some(rounded)
    } else {
        match host(
            QuestionView::Round { value: roots[rounded.len() as int], digits: ROOT_DIGITS as nat },
        ) {
            AnswerView::Rounded(value) => rounded_by(host, roots, rounded.push(value)),
            _ => None,
        }
    }
}

/// The roots of the system, from the choice `c` of expressions on: the roots
/// that the first choice gives which gives any, cleaned of the roots that do
/// not differ after rounding; no roots if no choice gives any.
pub open spec fn searched_by(
    host: spec_fn(QuestionView) -> AnswerView,
    problem: Problem,
    c: nat,
) -> Option<Outcome>
    decreases problem.combinations.len() - c,
{
    if c >= problem.combinations.len() {
        Some(Ok(Seq::empty()))
    } else {
        match found_by(host, problem, c, FIRST_START as int, Seq::empty()) {
            None => None,
            Some(Err(error)) => Some(Err(error)),
            Some(Ok(roots)) => match rounded_by(host, roots, Seq::empty()) {
                None => None,
                Some(rounded) => if cleaned(roots, rounded).len() > 0 {
                    Some(Ok(cleaned(roots, rounded)))
                } else {
                    searched_by(host, problem, c + 1)
                },
            },
        }
    }
}

/// The roots of the system, once the expressions from the expression
/// `index` on are probed: at the probe point, where all unknowns have the
/// value `value`, no expression may be a vector or a matrix.
pub open spec fn probed_by(
    host: spec_fn(QuestionView) -> AnswerView,
    problem: Problem,
    value: ValueView,
    index: nat,
) -> Option<Outcome>
    decreases problem.expressions.len() - index,
{
    if index >= problem.expressions.len() {
        searched_by(host, problem, 0)
    } else {
        match host(
            QuestionView::Evaluate(
                EvaluateView {
                    ast: problem.expressions[index as int],
                    context: probe_context(
                        problem.context,
                        problem.unknowns,
                        value,
                        problem.unknowns.len() as int,
                    ),
                },
            ),
        ) {
            AnswerView::Evaluated(Err(error)) => Some(Err(error)),
            AnswerView::Evaluated(Ok(values)) => if values.len() > 0 && values[0] is Vector {
                Some(Err(EvalErrorView::VectorInEq))
            } else if values.len() > 0 && values[0] is Matrix {
                Some(Err(EvalErrorView::MatrixInEq))
            } else {
                probed_by(host, problem, value, index + 1)
            },
            _ => None,
        }
    }
}

/// The roots of the system, as a host computes them that answers the
/// question `q` by `host(q)`: the expressions are probed, and then the
/// choices of expressions are searched one after the other until one gives
/// roots.
pub open spec fn roots_by(host: spec_fn(QuestionView) -> AnswerView, problem: Problem) -> Option<
    Outcome,
> {
    match host(numeral_of(probe_numeral())) {
        AnswerView::Evaluated(Err(error)) => Some(Err(error)),
        AnswerView::Evaluated(Ok(values)) => probed_by(
            host,
            problem,
            if values.len() > 0 {
                values[0]
            } else {
                ValueView::Scalar(ZERO_BITS)
            },
            0,
        ),
        _ => None,
    }
}

/// What the host answers to the question of a state, if the state has one.
pub open spec fn answer_of(host: spec_fn(QuestionView) -> AnswerView, state: FinderView) -> Option<
    AnswerView,
> {
    match state.question() {
        Some(question) => Some(host(question)),
        None => None,
    }
}

/// The state after `steps` steps of the machine, with a host that answers
/// the question `q` by `host(q)`.
pub open spec fn run(
    state: FinderView,
    host: spec_fn(QuestionView) -> AnswerView,
    steps: nat,
) -> FinderView
    decreases steps,
{
    if steps == 0 {
        state
    } else {
        run(state.next(answer_of(host, state)), host, (steps - 1) as nat)
    }
}

/// A machine that is over stays as it is.
pub proof fn lemma_over_stays(
    state: FinderView,
    host: spec_fn(QuestionView) -> AnswerView,
    steps: nat,
)
    requires
        state.outcome() is Some,
    ensures
        run(state, host, steps) == state,
    decreases steps,
{
    if steps > 0 {
        lemma_over_stays(state, host, (steps - 1) as nat);
    }
}

/// Steps can be made in two parts.
pub proof fn lemma_run_in_two(
    state: FinderView,
    host: spec_fn(QuestionView) -> AnswerView,
    first: nat,
    second: nat,
)
    ensures
        run(state, host, first + second) == run(run(state, host, first), host, second),
    decreases first,
{
    if first > 0 {
        let then = state.next(answer_of(host, state));
        lemma_run_in_two(then, host, (first - 1) as nat, second);
        assert(run(state, host, first + second) == run(then, host, (first + second - 1) as nat));
    }
}

/// One step of a machine that is not over.
pub proof fn lemma_one_step(state: FinderView, host: spec_fn(QuestionView) -> AnswerView)
    ensures
        run(state, host, 1) == state.next(answer_of(host, state)),
{
    assert(run(state, host, 1) == run(state.next(answer_of(host, state)), host, 0));
}

/// The state is between two questions, and nothing of an old question is
/// left in it.
pub open spec fn idle(state: FinderView) -> bool {
    state.phase is ProbeValue
}

/// The two states differ at most in the point and in the number of steps.
pub open spec fn same_search(a: FinderView, b: FinderView) -> bool {
    &&& problem_of(a) == problem_of(b)
    &&& a.combination == b.combination
    &&& a.start == b.start
    &&& a.roots == b.roots
}

/// Where the machine is at the end of a walk: `at` is the state between two
/// questions from which it goes on.
pub open spec fn walked_to(walk: Walk, at: FinderView) -> FinderView {
    match walk {
        Walk::Root(point) => at.accept(),
        Walk::GiveUp => at.next_start(),
        Walk::EndChoice => at.round(Seq::empty()),
        Walk::Fail(error) => at.fail(error),
    }
}

/// The machine that stumbles is at the end of its walk.
pub proof fn lemma_stumble(state: FinderView, error: EvalErrorView)
    ensures
        state.stumble(error) == walked_to(stumbled(error), state),
{
}

/// The machine that evaluates the expressions of the search comes to their
/// values, or stumbles.
pub proof fn lemma_residual(
    state: FinderView,
    host: spec_fn(QuestionView) -> AnswerView,
    done: Seq<u64>,
) -> (steps: nat)
    requires
        idle(state),
        values_by(host, problem_of(state), state.point, state.search(), done) is Some,
    ensures
        match values_by(host, problem_of(state), state.point, state.search(), done)->Some_0 {
            Err(error) => run(state.residual(done), host, steps) == state.stumble(error),
            Ok(residual) => run(state.residual(done), host, steps) == state.phase(
                PhaseView::Norm { residual },
            ),
        },
    decreases state.search().len() - done.len(),
{
    if done.len() >= state.search().len() {
        0
    } else {
        let asking = state.residual(done);
        let question = problem_of(state).value_at(state.search()[done.len() as int], state.point);
        assert(asking.question() == Some(question));
        lemma_one_step(asking, host);
        match number_by(host, question)->Some_0 {
            Err(error) => 1,
            Ok(number) => {
                assert(run(asking, host, 1) == state.residual(done.push(number)));
                let rest = lemma_residual(state, host, done.push(number));
                lemma_run_in_two(asking, host, 1, rest);
                1 + rest
            },
        }
    }
}

/// The machine that evaluates the expressions of the check comes to the end
/// of the walk.
pub proof fn lemma_checks(
    state: FinderView,
    host: spec_fn(QuestionView) -> AnswerView,
    done: Seq<u64>,
) -> (steps: nat)
    requires
        idle(state),
        values_by(host, problem_of(state), state.point, state.check(), done) is Some,
        state.check().len() > 0,
    ensures
        match values_by(host, problem_of(state), state.point, state.check(), done)->Some_0 {
            Err(error) => run(state.checks(done), host, steps) == state.stumble(error),
            Ok(values) => run(state.checks(done), host, steps) == state.phase(
                PhaseView::CheckNorm { values },
            ),
        },
    decreases state.check().len() - done.len(),
{
    if done.len() >= state.check().len() {
        0
    } else {
        let asking = state.checks(done);
        let question = problem_of(state).value_at(state.check()[done.len() as int], state.point);
        assert(asking.question() == Some(question));
        lemma_one_step(asking, host);
        match number_by(host, question)->Some_0 {
            Err(error) => 1,
            Ok(number) => {
                assert(run(asking, host, 1) == state.checks(done.push(number)));
                let rest = lemma_checks(state, host, done.push(number));
                lemma_run_in_two(asking, host, 1, rest);
                1 + rest
            },
        }
    }
}

/// The machine that asks for the slopes comes to all slopes, or stumbles.
pub proof fn lemma_slopes(
    state: FinderView,
    host: spec_fn(QuestionView) -> AnswerView,
    residual: Seq<u64>,
    rows: Seq<Seq<u64>>,
    row: Seq<u64>,
) -> (steps: nat)
    requires
        idle(state),
        slopes_by(
            host,
            problem_of(state),
            state.combination,
            state.point,
            residual,
            rows,
            row,
        ) is Some,
    ensures
        match slopes_by(
            host,
            problem_of(state),
            state.combination,
            state.point,
            residual,
            rows,
            row,
        )->Some_0 {
            Err(error) => run(state.slopes(residual, rows, row), host, steps) == state.stumble(
                error,
            ),
            Ok(slopes) => run(state.slopes(residual, rows, row), host, steps) == state.phase(
                PhaseView::Improve { residual, slopes },
            ),
        },
    decreases state.search().len() - rows.len(), state.unknowns.len() - row.len(),
{
    if rows.len() >= state.search().len() {
        0
    } else if row.len() >= state.unknowns.len() {
        lemma_slopes(state, host, residual, rows.push(row), Seq::empty())
    } else {
        let asking = state.slopes(residual, rows, row);
        let question = problem_of(state).slope_at(
            state.combination,
            state.point,
            residual,
            rows.len() as int,
            row.len() as int,
        );
        assert(asking.question() == Some(question));
        lemma_one_step(asking, host);
        match number_by(host, question)->Some_0 {
            Err(error) => 1,
            Ok(number) => {
                assert(run(asking, host, 1) == state.slopes(residual, rows, row.push(number)));
                let rest = lemma_slopes(state, host, residual, rows, row.push(number));
                lemma_run_in_two(asking, host, 1, rest);
                1 + rest
            },
        }
    }
}

/// The machine at a point where the expressions of the search are zero
/// comes to the end of the walk.
pub proof fn lemma_checked(state: FinderView, host: spec_fn(QuestionView) -> AnswerView) -> (steps:
    nat)
    requires
        idle(state),
        checked_by(host, problem_of(state), state.combination, state.point) is Some,
    ensures
        run(state.checks(Seq::empty()), host, steps) == walked_to(
            checked_by(host, problem_of(state), state.combination, state.point)->Some_0,
            state,
        ),
{
    if state.check().len() == 0 {
        0
    } else {
        let first = lemma_checks(state, host, Seq::empty());
        match values_by(
            host,
            problem_of(state),
            state.point,
            state.check(),
            Seq::empty(),
        )->Some_0 {
            Err(error) => {
                lemma_stumble(state, error);
                first
            },
            Ok(values) => {
                let asking = state.phase(PhaseView::CheckNorm { values });
                lemma_one_step(asking, host);
                lemma_run_in_two(state.checks(Seq::empty()), host, first, 1);
                match number_by(host, QuestionView::Evaluate(norm_of(values)))->Some_0 {
                    Err(error) => {
                        lemma_stumble(state, error);
                    },
                    Ok(norm) => {},
                }
                first + 1
            },
        }
    }
}

/// The machine that walks from a point comes to the end of the walk. With
/// the number of steps comes the state from which the machine goes on: it
/// is the state at the start of the walk, but for its point and the number
/// of its steps.
pub proof fn lemma_walk(state: FinderView, host: spec_fn(QuestionView) -> AnswerView) -> (res: (
    nat,
    FinderView,
))
    requires
        idle(state),
        walked_by(host, problem_of(state), state.combination, state.point, state.steps) is Some,
    ensures
        idle(res.1),
        same_search(res.1, state),
        run(state.residual(Seq::empty()), host, res.0) == walked_to(
            walked_by(
                host,
                problem_of(state),
                state.combination,
                state.point,
                state.steps,
            )->Some_0,
            res.1,
        ),
        walked_by(
            host,
            problem_of(state),
            state.combination,
            state.point,
            state.steps,
        )->Some_0 matches Walk::Root(point) ==> res.1.point == point,
    decreases MOST_STEPS - state.steps,
{
    let problem = problem_of(state);
    let walking = state.residual(Seq::empty());
    let first = lemma_residual(state, host, Seq::empty());
    match values_by(host, problem, state.point, state.search(), Seq::empty())->Some_0 {
        Err(error) => {
            lemma_stumble(state, error);
            (first, state)
        },
        Ok(residual) => {
            let asking = state.phase(PhaseView::Norm { residual });
            lemma_one_step(asking, host);
            lemma_run_in_two(walking, host, first, 1);
            match number_by(host, QuestionView::Evaluate(norm_of(residual)))->Some_0 {
                Err(error) => {
                    lemma_stumble(state, error);
                    (first + 1, state)
                },
                Ok(norm) => {
                    if within_tolerance(norm) {
                        let rest = lemma_checked(state, host);
                        lemma_run_in_two(walking, host, first + 1, rest);
                        (first + 1 + rest, state)
                    } else {
                        let sloped = lemma_slopes(
                            state,
                            host,
                            residual,
                            Seq::empty(),
                            Seq::empty(),
                        );
                        lemma_run_in_two(walking, host, first + 1, sloped);
                        match slopes_by(
                            host,
                            problem,
                            state.combination,
                            state.point,
                            residual,
                            Seq::empty(),
                            Seq::empty(),
                        )->Some_0 {
                            Err(error) => {
                                lemma_stumble(state, error);
                                (first + 1 + sloped, state)
                            },
                            Ok(slopes) => {
                                let improving = state.phase(
                                    PhaseView::Improve { residual, slopes },
                                );
                                lemma_one_step(improving, host);
                                lemma_run_in_two(walking, host, first + 1 + sloped, 1);
                                match host(
                                    QuestionView::Improve { slopes, residual, point: state.point },
                                ) {
                                    AnswerView::Point(Err(error)) => {
                                        lemma_stumble(state, error);
                                        (first + 2 + sloped, state)
                                    },
                                    AnswerView::Point(Ok(behind)) => {
                                        if some_inf_or_nan(behind) {
                                            (first + 2 + sloped, state)
                                        } else if state.steps + 1 >= MOST_STEPS {
                                            (
                                                first + 2 + sloped,
                                                FinderView { point: behind, ..state },
                                            )
                                        } else {
                                            let moved = FinderView {
                                                point: behind,
                                                steps: state.steps + 1,
                                                ..state
                                            };
                                            let rest = lemma_walk(moved, host);
                                            lemma_run_in_two(
                                                walking,
                                                host,
                                                first + 2 + sloped,
                                                rest.0,
                                            );
                                            (first + 2 + sloped + rest.0, rest.1)
                                        }
                                    },
                                    _ => (0, state),
                                }
                            },
                        }
                    }
                },
            }
        },
    }
}

/// The machine that begins at a start comes to the roots of all starts from
/// there on, and then to the end of the choice. With the number of steps
/// comes the state from which the roots are rounded.
pub proof fn lemma_found(
    state: FinderView,
    host: spec_fn(QuestionView) -> AnswerView,
    start: int,
) -> (res: (nat, FinderView))
    requires
        idle(state),
        found_by(host, problem_of(state), state.combination, start, state.roots) is Some,
    ensures
        match found_by(host, problem_of(state), state.combination, start, state.roots)->Some_0 {
            Err(error) => run(state.begin(start), host, res.0).outcome() == Some(
                Err::<Seq<ValueView>, EvalErrorView>(error),
            ),
            Ok(roots) => {
                &&& idle(res.1)
                &&& problem_of(res.1) == problem_of(state)
                &&& res.1.combination == state.combination
                &&& res.1.roots == roots
                &&& run(state.begin(start), host, res.0) == res.1.round(Seq::empty())
            },
        },
    decreases END_START - start,
{
    let problem = problem_of(state);
    if start >= END_START {
        (0, FinderView { start, ..state })
    } else {
        let asking = state.begin(start);
        let here = FinderView { start, steps: 0, ..state };
        assert(asking == here.phase(PhaseView::StartValue));
        assert(asking.question() == Some(numeral_of(integer_text(start))));
        lemma_one_step(asking, host);
        match host(numeral_of(integer_text(start))) {
            AnswerView::Evaluated(Err(error)) => {
                lemma_stumble(here, error);
                lemma_ended(here, host, stumbled(error), asking, 1)
            },
            AnswerView::Evaluated(Ok(values)) => {
                if values.len() > 0 && values[0] is Scalar {
                    let from = FinderView {
                        point: uniform(values[0]->Scalar_0, state.unknowns.len()),
                        ..here
                    };
                    assert(run(asking, host, 1) == from.residual(Seq::empty()));
                    let walked = lemma_walk(from, host);
                    lemma_run_in_two(asking, host, 1, walked.0);
                    lemma_ended(
                        walked.1,
                        host,
                        walked_by(host, problem, state.combination, from.point, 0)->Some_0,
                        asking,
                        1 + walked.0,
                    )
                } else {
                    lemma_ended(here, host, Walk::GiveUp, asking, 1)
                }
            },
            _ => (0, state),
        }
    }
}

/// The machine at the end of a walk comes to the roots of all starts behind
/// the start of the walk. `from` is the state in which the walk began,
/// `before` the number of steps from there to the end of the walk.
pub proof fn lemma_ended(
    at: FinderView,
    host: spec_fn(QuestionView) -> AnswerView,
    walk: Walk,
    from: FinderView,
    before: nat,
) -> (res: (nat, FinderView))
    requires
        idle(at),
        at.start < END_START,
        run(from, host, before) == walked_to(walk, at),
        walk matches Walk::Root(point) ==> at.point == point,
        (match walk {
            Walk::Root(point) => found_by(
                host,
                problem_of(at),
                at.combination,
                at.start + 1,
                at.roots.push(root_of(point)),
            ),
            Walk::GiveUp => found_by(
                host,
                problem_of(at),
                at.combination,
                at.start + 1,
                at.roots,
            ),
            Walk::EndChoice => Some(Ok(at.roots)),
            Walk::Fail(error) => Some(Err(error)),
        }) is Some,
    ensures
        match (match walk {
            Walk::Root(point) => found_by(
                host,
                problem_of(at),
                at.combination,
                at.start + 1,
                at.roots.push(root_of(point)),
            ),
            Walk::GiveUp => found_by(
                host,
                problem_of(at),
                at.combination,
                at.start + 1,
                at.roots,
            ),
            Walk::EndChoice => Some(Ok(at.roots)),
            Walk::Fail(error) => Some(Err(error)),
        })->Some_0 {
            Err(error) => run(from, host, res.0).outcome() == Some(
                Err::<Seq<ValueView>, EvalErrorView>(error),
            ),
            Ok(roots) => {
                &&& idle(res.1)
                &&& problem_of(res.1) == problem_of(at)
                &&& res.1.combination == at.combination
                &&& res.1.roots == roots
                &&& run(from, host, res.0) == res.1.round(Seq::empty())
            },
        },
    decreases END_START - at.start, 0nat,
{
    match walk {
        Walk::Root(point) => {
            let grown = FinderView { roots: at.roots.push(root_of(point)), ..at };
            let rest = lemma_found(grown, host, at.start + 1);
            lemma_run_in_two(from, host, before, rest.0);
            (before + rest.0, rest.1)
        },
        Walk::GiveUp => {
            let rest = lemma_found(at, host, at.start + 1);
            lemma_run_in_two(from, host, before, rest.0);
            (before + rest.0, rest.1)
        },
        Walk::EndChoice => (before, at),
        Walk::Fail(error) => (before, at),
    }
}

/// The machine that asks for the rounded roots comes to all of them.
pub proof fn lemma_round(
    state: FinderView,
    host: spec_fn(QuestionView) -> AnswerView,
    rounded: Seq<ValueView>,
) -> (steps: nat)
    requires
        idle(state),
        rounded.len() <= state.roots.len(),
        rounded_by(host, state.roots, rounded) is Some,
    ensures
        rounded_by(host, state.roots, rounded)->Some_0.len() == state.roots.len(),
        run(state.round(rounded), host, steps) == state.round(
            rounded_by(host, state.roots, rounded)->Some_0,
        ),
    decreases state.roots.len() - rounded.len(),
{
    if rounded.len() >= state.roots.len() {
        0
    } else {
        let asking = state.round(rounded);
        lemma_one_step(asking, host);
        match host(
            QuestionView::Round {
                value: state.roots[rounded.len() as int],
                digits: ROOT_DIGITS as nat,
            },
        ) {
            AnswerView::Rounded(value) => {
                assert(run(asking, host, 1) == state.round(rounded.push(value)));
                let rest = lemma_round(state, host, rounded.push(value));
                lemma_run_in_two(asking, host, 1, rest);
                1 + rest
            },
            _ => 0,
        }
    }
}

/// The machine that takes a choice of expressions ends with the roots of
/// the system from that choice on.
pub proof fn lemma_search(state: FinderView, host: spec_fn(QuestionView) -> AnswerView, c: nat) -> (steps:
    nat)
    requires
        idle(state),
        searched_by(host, problem_of(state), c) is Some,
    ensures
        run(state.take_choice(c), host, steps).outcome() == searched_by(
            host,
            problem_of(state),
            c,
        ),
    decreases state.combinations.len() - c,
{
    if c >= state.combinations.len() {
        0
    } else {
        let chosen = FinderView { combination: c, roots: Seq::empty(), ..state };
        let taken = state.take_choice(c);
        assert(taken == chosen.begin(FIRST_START as int));
        let found = lemma_found(chosen, host, FIRST_START as int);
        match found_by(host, problem_of(state), c, FIRST_START as int, Seq::empty())->Some_0 {
            Err(error) => found.0,
            Ok(roots) => {
                let at = found.1;
                let rounding = lemma_round(at, host, Seq::empty());
                lemma_run_in_two(taken, host, found.0, rounding);
                let rounded = rounded_by(host, roots, Seq::empty())->Some_0;
                if cleaned(roots, rounded).len() > 0 {
                    found.0 + rounding
                } else {
                    assert(at.round(rounded) == at.take_choice(c + 1));
                    let rest = lemma_search(at, host, c + 1);
                    lemma_run_in_two(taken, host, found.0 + rounding, rest);
                    found.0 + rounding + rest
                }
            },
        }
    }
}

/// The machine that probes the expressions ends with the roots of the
/// system.
pub proof fn lemma_probe(
    state: FinderView,
    host: spec_fn(QuestionView) -> AnswerView,
    value: ValueView,
    index: nat,
) -> (steps: nat)
    requires
        idle(state),
        probed_by(host, problem_of(state), value, index) is Some,
    ensures
        run(state.probe(value, index), host, steps).outcome() == probed_by(
            host,
            problem_of(state),
            value,
            index,
        ),
    decreases state.expressions.len() - index,
{
    if index >= state.expressions.len() {
        lemma_search(state, host, 0)
    } else {
        let asking = state.probe(value, index);
        lemma_one_step(asking, host);
        match host(asking.question()->Some_0) {
            AnswerView::Evaluated(Err(error)) => 1,
            AnswerView::Evaluated(Ok(values)) => {
                if values.len() > 0 && values[0] is Vector {
                    1
                } else if values.len() > 0 && values[0] is Matrix {
                    1
                } else {
                    assert(run(asking, host, 1) == state.probe(value, index + 1));
                    let rest = lemma_probe(state, host, value, index + 1);
                    lemma_run_in_two(asking, host, 1, rest);
                    1 + rest
                }
            },
            _ => 0,
        }
    }
}

/// Run by a host that answers the question `q` by `host(q)`, the solver of
/// the expressions in the unknowns ends with the roots as that host computes
/// them (see [`roots_by`]), whenever the answers of the host are of the
/// kinds that the questions ask for. The number of steps after which the
/// solver is over is returned.
pub proof fn law_solver(
    host: spec_fn(QuestionView) -> AnswerView,
    expressions: Seq<AstView>,
    context: ContextView,
    unknowns: Seq<Seq<char>>,
) -> (steps: nat)
    requires
        roots_by(host, problem_of(start_of(expressions, context, unknowns))) is Some,
    ensures
        forall|more: nat|
            more >= steps ==> (#[trigger] run(
                start_of(expressions, context, unknowns),
                host,
                more,
            )).outcome() == roots_by(host, problem_of(start_of(expressions, context, unknowns))),
{
    let start = start_of(expressions, context, unknowns);
    let wanted = roots_by(host, problem_of(start));
    assert(start.question() == Some(numeral_of(probe_numeral())));
    lemma_one_step(start, host);
    let steps = match host(numeral_of(probe_numeral())) {
        AnswerView::Evaluated(Err(error)) => 1,
        AnswerView::Evaluated(Ok(values)) => {
            let value = if values.len() > 0 {
                values[0]
            } else {
                ValueView::Scalar(ZERO_BITS)
            };
            assert(run(start, host, 1) == start.probe(value, 0));
            let rest = lemma_probe(start, host, value, 0);
            lemma_run_in_two(start, host, 1, rest);
            1 + rest
        },
        _ => 0,
    };
    assert(run(start, host, steps).outcome() == wanted);
    assert forall|more: nat| more >= steps implies (#[trigger] run(start, host, more)).outcome()
        == wanted by {
        lemma_run_in_two(start, host, steps, (more - steps) as nat);
        lemma_over_stays(run(start, host, steps), host, (more - steps) as nat);
    }
    steps
}

} // verus!
