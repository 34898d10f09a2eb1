//! The next point of Newton's method, by Gaussian elimination.
//!
//! Newton's method has the slopes of its expressions at a point, and their
//! values there, the residual. The step from the point to the next one solves
//! the linear system whose matrix are the slopes and whose right side is the
//! negated residual. The machine of this file solves it by elimination: it
//! brings the system to triangular form, turns it round, brings it to
//! triangular form again, so that every row is left with one unknown, and
//! divides. It decides which numbers are combined, in which order, and what a
//! row of zeros means. The arithmetic it asks of its host, one expression at
//! a time.

use crate::basetypes::{
    numbers_view, placeholder, values_view, AstView, Context, SimpleOpType, Value, ValueView,
    Variable, AST,
};
use crate::calculus::{
    bind_one, bind_two, binary, binary_tree, binding, bindings, evaluate_view, numeral_tree,
    reply_view, variable_tree, Evaluate, EvaluateView,
};
use crate::errors::{EvalError, EvalErrorView};
use crate::newton::{number_at, number_of};
use crate::numbers::{magnitude, SIGN_BIT, ZERO_BITS};
use crate::roots::{number_from, number_in, with_number};
use crate::semantics::Outcome;
use vstd::prelude::*;
use vstd::string::StringExecFns;


verus! {

/// The tree `-f`.
pub open spec fn negation_tree() -> AstView {
    binary(SimpleOpType::Neg, placeholder(), AstView::Variable("f"@))
}

/// The tree `a / b`.
pub open spec fn ratio_tree() -> AstView {
    binary(SimpleOpType::Div, AstView::Variable("a"@), AstView::Variable("b"@))
}

/// The tree `c - a / b`.
pub open spec fn reduction_tree() -> AstView {
    binary(SimpleOpType::Sub, AstView::Variable("c"@), ratio_tree())
}

/// The tree `a + b`.
pub open spec fn sum_tree() -> AstView {
    binary(SimpleOpType::Add, AstView::Variable("a"@), AstView::Variable("b"@))
}

/// The request for `-f`.
pub open spec fn negation_of(f: u64) -> EvaluateView {
    EvaluateView {
        ast: negation_tree(),
        context: bindings(seq![binding("f"@, ValueView::Scalar(f))]),
    }
}

/// The request for `a / b`.
pub open spec fn ratio_of(a: u64, b: u64) -> EvaluateView {
    EvaluateView {
        ast: ratio_tree(),
        context: bindings(
            seq![binding("a"@, ValueView::Scalar(a)), binding("b"@, ValueView::Scalar(b))],
        ),
    }
}

/// The request for `c - a / b`.
pub open spec fn reduction_of(c: u64, a: u64, b: u64) -> EvaluateView {
    EvaluateView {
        ast: reduction_tree(),
        context: bindings(
            seq![
                binding("c"@, ValueView::Scalar(c)),
                binding("a"@, ValueView::Scalar(a)),
                binding("b"@, ValueView::Scalar(b)),
            ],
        ),
    }
}

/// The request for `a + b`.
pub open spec fn sum_of(a: u64, b: u64) -> EvaluateView {
    EvaluateView {
        ast: sum_tree(),
        context: bindings(
            seq![binding("a"@, ValueView::Scalar(a)), binding("b"@, ValueView::Scalar(b))],
        ),
    }
}

/// The request for the divisor of the rows `i` and `j`: the pivot of row `i`
/// by the number below it in row `j`.
pub open spec fn divisor_of(rows: Seq<Seq<u64>>, i: int, j: int) -> EvaluateView {
    ratio_of(entry(rows, i, i), entry(rows, j, i))
}

/// The request for the new number of row `j` at place `k`: the number
/// minus the number above it in row `i` by the divisor.
pub open spec fn update_of(rows: Seq<Seq<u64>>, i: int, j: int, k: int, divisor: u64) -> EvaluateView {
    reduction_of(entry(rows, j, k), entry(rows, i, k), divisor)
}

/// The request for the unknown of row `i`: the right side of the row by its
/// pivot.
pub open spec fn quotient_of(rows: Seq<Seq<u64>>, i: int) -> EvaluateView {
    ratio_of(entry(rows, i, width(rows, i) - 1), entry(rows, i, i))
}

/// The number in row `i` at place `k`, or zero if there is no such place.
pub open spec fn entry(rows: Seq<Seq<u64>>, i: int, k: int) -> u64 {
    if 0 <= i < rows.len() && 0 <= k < rows[i].len() {
        rows[i][k]
    } else {
        ZERO_BITS
    }
}

/// The length of row `i`, or zero if there is no such row.
pub open spec fn width(rows: Seq<Seq<u64>>, i: int) -> nat {
    if 0 <= i < rows.len() {
        rows[i].len()
    } else {
        0
    }
}

/// The rows with `number` in row `i` at place `k`, if there is such a place.
pub open spec fn with_entry(rows: Seq<Seq<u64>>, i: int, k: int, number: u64) -> Seq<Seq<u64>> {
    if 0 <= i < rows.len() && 0 <= k < rows[i].len() {
        rows.update(i, rows[i].update(k, number))
    } else {
        rows
    }
}

/// The rows with `number` behind row `i`, if there is such a row.
pub open spec fn with_last(rows: Seq<Seq<u64>>, i: int, number: u64) -> Seq<Seq<u64>> {
    if 0 <= i < rows.len() {
        rows.update(i, rows[i].push(number))
    } else {
        rows
    }
}

/// The number is zero: positive or negative zero.
pub open spec fn is_zero(bits: u64) -> bool {
    magnitude(bits) == 0
}

/// The numbers from the last to the first.
pub open spec fn backwards(numbers: Seq<u64>) -> Seq<u64> {
    Seq::new(numbers.len(), |k: int| numbers[numbers.len() - 1 - k])
}

/// The row with its coefficients from the last to the first; its right side,
/// the last number, stays the last.
pub open spec fn turned(row: Seq<u64>) -> Seq<u64> {
    Seq::new(
        row.len(),
        |c: int|
            if c == row.len() - 1 {
                row[c]
            } else {
                row[row.len() - 2 - c]
            },
    )
}

/// The system turned round: the rows from the last to the first, and in
/// every row the coefficients from the last to the first. A system in upper
/// triangular form is in lower triangular form afterwards.
pub open spec fn flipped(rows: Seq<Seq<u64>>) -> Seq<Seq<u64>> {
    Seq::new(rows.len(), |r: int| turned(rows[rows.len() - 1 - r]))
}

/// A system that is turned round twice is the system itself; a system that
/// is turned round has as many rows as before, and rows as long as before.
pub proof fn law_flipped_twice(rows: Seq<Seq<u64>>)
    ensures
        flipped(flipped(rows)) == rows,
        flipped(rows).len() == rows.len(),
        forall|r: int|
            0 <= r < rows.len() ==> (#[trigger] flipped(rows)[r]).len() == rows[rows.len() - 1
                - r].len(),
{
    assert forall|r: int| 0 <= r < rows.len() implies #[trigger] flipped(flipped(rows))[r]
        == rows[r] by {
        let row = rows[r];
        assert(flipped(rows)[rows.len() - 1 - r] == turned(row));
        assert(turned(turned(row)) =~= row);
    }
    assert(flipped(flipped(rows)) =~= rows);
}

pub enum StageView {
    Start,
    /// The negated number `at` of the residual was asked for.
    Negate { at: nat },
    /// The quotient of the pivot of row `i` and the number below it in row
    /// `j` was asked for.
    Divisor { second: bool, i: nat, j: nat },
    /// The new number of row `j` at place `k` was asked for. `zero_line`
    /// says that the new numbers of the row before it are all zero.
    Update { second: bool, i: nat, j: nat, k: nat, divisor: u64, zero_line: bool },
    /// The value of the next unknown was asked for: the right side of its
    /// row by its pivot.
    Quotient { done: Seq<u64> },
    /// The next number of the new point was asked for.
    Sum { delta: Seq<u64>, done: Seq<u64> },
    Done(Result<Seq<u64>, EvalErrorView>),
}

/// The state of an elimination.
pub struct EliminationView {
    /// The rows of the system: first the slopes alone, then, in every row,
    /// the coefficients and the right side behind them.
    pub rows: Seq<Seq<u64>>,
    pub residual: Seq<u64>,
    pub point: Seq<u64>,
    pub stage: StageView,
}

impl EliminationView {
    /// The state in which an elimination starts.
    pub open spec fn start(slopes: Seq<Seq<u64>>, residual: Seq<u64>, point: Seq<u64>) -> EliminationView {
        EliminationView { rows: slopes, residual, point, stage: StageView::Start }
    }

    pub open spec fn stage(self, stage: StageView) -> EliminationView {
        EliminationView { stage, ..self }
    }

    pub open spec fn fail(self, error: EvalErrorView) -> EliminationView {
        self.stage(StageView::Done(Err(error)))
    }

    /// What the host is asked for in this state, if anything.
    pub open spec fn request(self) -> Option<EvaluateView> {
        match self.stage {
            StageView::Negate { at } => Some(negation_of(number_at(self.residual, at as int))),
            StageView::Divisor { second, i, j } => Some(divisor_of(self.rows, i as int, j as int)),
            StageView::Update { second, i, j, k, divisor, zero_line } => Some(
                update_of(self.rows, i as int, j as int, k as int, divisor),
            ),
            StageView::Quotient { done } => Some(quotient_of(self.rows, done.len() as int)),
            StageView::Sum { delta, done } => Some(
                sum_of(
                    number_at(delta, done.len() as int),
                    number_at(self.point, done.len() as int),
                ),
            ),
            _ => None,
        }
    }

    /// The new point, once the elimination is over, or why there is none.
    pub open spec fn outcome(self) -> Option<Result<Seq<u64>, EvalErrorView>> {
        match self.stage {
            StageView::Done(outcome) => Some(outcome),
            _ => None,
        }
    }

    /// The right sides are put behind the rows, one after the other: the
    /// negated numbers of the residual. Then the system has to have one
    /// unknown for every row; if it has, it is brought to triangular form.
    pub open spec fn negate(self, at: nat) -> EliminationView {
        if at >= self.rows.len() {
            if self.rows.len() == 0 || self.rows.len() + 1 != self.rows[0].len() {
                self.fail(EvalErrorView::UnderdeterminedSystem)
            } else {
                self.reduce(false, 0, 1)
            }
        } else {
            self.stage(StageView::Negate { at })
        }
    }

    /// The system is brought to triangular form: for every row `i` but the
    /// last, a multiple of the row is taken from every row `j` below it, so
    /// that the number below the pivot of row `i` becomes zero. After the
    /// first pass the system is turned round and brought to triangular form
    /// once more; after the second pass the unknowns are read off.
    pub open spec fn reduce(self, second: bool, i: nat, j: nat) -> EliminationView
        decreases
                (if second {
                    0nat
                } else {
                    1nat
                }),
                self.rows.len() - i,
    {
        if i + 1 >= self.rows.len() {
            if second {
                self.quotients(Seq::empty())
            } else {
                (EliminationView { rows: flipped(self.rows), ..self }).reduce(true, 0, 1)
            }
        } else if j >= self.rows.len() {
            self.reduce(second, i + 1, i + 2)
        } else {
            self.stage(StageView::Divisor { second, i, j })
        }
    }

    /// Row `j` gets its new numbers from the place `i` on, one after the
    /// other. A row whose new numbers are all zero says that the system has
    /// no single solution.
    pub open spec fn update(
        self,
        second: bool,
        i: nat,
        j: nat,
        k: nat,
        divisor: u64,
        zero_line: bool,
    ) -> EliminationView {
        if k >= width(self.rows, j as int) {
            if zero_line {
                self.fail(EvalErrorView::InfiniteSolutions)
            } else {
                self.reduce(second, i, j + 1)
            }
        } else {
            self.stage(StageView::Update { second, i, j, k, divisor, zero_line })
        }
    }

    /// The unknowns are read off, one for every row; they come out in
    /// reverse, since the system was turned round. They are the step from
    /// the point to the next one.
    pub open spec fn quotients(self, done: Seq<u64>) -> EliminationView {
        if done.len() >= self.rows.len() {
            self.sums(backwards(done), Seq::empty())
        } else {
            self.stage(StageView::Quotient { done })
        }
    }

    /// The step is added to the point, number by number.
    pub open spec fn sums(self, delta: Seq<u64>, done: Seq<u64>) -> EliminationView {
        if done.len() >= self.point.len() {
            self.stage(StageView::Done(Ok(done)))
        } else {
            self.stage(StageView::Sum { delta, done })
        }
    }

    /// The machine goes on with the number that its host computed.
    pub open spec fn resume(self, number: u64) -> EliminationView {
        let idle = self.stage(StageView::Start);
        match self.stage {
            StageView::Negate { at } => (EliminationView {
                rows: with_last(self.rows, at as int, number),
                ..idle
            }).negate(at + 1),
            StageView::Divisor { second, i, j } => idle.update(second, i, j, i, number, true),
            StageView::Update { second, i, j, k, divisor, zero_line } => (EliminationView {
                rows: with_entry(self.rows, j as int, k as int, number),
                ..idle
            }).update(second, i, j, k + 1, divisor, zero_line && is_zero(number)),
            StageView::Quotient { done } => idle.quotients(done.push(number)),
            StageView::Sum { delta, done } => idle.sums(delta, done.push(number)),
            _ => self,
        }
    }

    /// One step of the machine. The first step asks for the first right
    /// side. Then the machine waits for one number after the other; an
    /// error of an evaluation, and an evaluation that gives no number, end
    /// it.
    pub open spec fn next(self, reply: Option<Outcome>) -> EliminationView {
        match self.stage {
            StageView::Done(_) => self,
            StageView::Start => self.negate(0),
            _ => match reply {
                None => self,
                Some(Err(error)) => self.fail(error),
                Some(Ok(values)) => match number_of(values) {
                    Err(error) => self.fail(error),
                    Ok(number) => self.resume(number),
                },
            },
        }
    }
}

// The elimination, all at once

/// The number that a host computes for a request: the first value of what
/// it evaluates the request to, which has to be a number.
pub open spec fn number_by(host: spec_fn(EvaluateView) -> Outcome, request: EvaluateView) -> Result<
    u64,
    EvalErrorView,
> {
    match host(request) {
        Err(error) => Err(error),
        Ok(values) => number_of(values),
    }
}

/// The first `n` rows from the row `at` on, each with its right side behind
/// it: the negated number of the residual at its place, as a host negates it.
pub open spec fn negated_by(
    host: spec_fn(EvaluateView) -> Outcome,
    rows: Seq<Seq<u64>>,
    n: nat,
    residual: Seq<u64>,
    at: nat,
) -> Result<Seq<Seq<u64>>, EvalErrorView>
    decreases n - at,
{
    if at >= n {
        Ok(rows)
    } else {
        match number_by(host, negation_of(number_at(residual, at as int))) {
            Err(error) => Err(error),
            Ok(number) => negated_by(host, with_last(rows, at as int, number), n, residual, at + 1),
        }
    }
}

/// Row `j`, of the width `w`, with new numbers from the place `k` on: from
/// every number the number above it in row `i` by the divisor is taken, as
/// a host computes it. With the rows comes whether all new numbers of the
/// row are zero.
pub open spec fn updated_by(
    host: spec_fn(EvaluateView) -> Outcome,
    rows: Seq<Seq<u64>>,
    w: nat,
    i: nat,
    j: nat,
    k: nat,
    divisor: u64,
    zero_line: bool,
) -> Result<(Seq<Seq<u64>>, bool), EvalErrorView>
    decreases w - k,
{
    if k >= w {
        Ok((rows, zero_line))
    } else {
        match number_by(host, update_of(rows, i as int, j as int, k as int, divisor)) {
            Err(error) => Err(error),
            Ok(number) => updated_by(
                host,
                with_entry(rows, j as int, k as int, number),
                w,
                i,
                j,
                (k + 1) as nat,
                divisor,
                zero_line && is_zero(number),
            ),
        }
    }
}

/// The system of `n` rows in triangular form, from the rows `i` and `j` on:
/// for every row `i` but the last, and every row `j` below it, the divisor
/// is the pivot of row `i` by the number below it in row `j`, and row `j` is
/// updated with it from the place `i` on. A row that comes out as zeros says
/// that the system has no single solution.
pub open spec fn reduced_by(
    host: spec_fn(EvaluateView) -> Outcome,
    rows: Seq<Seq<u64>>,
    n: nat,
    i: nat,
    j: nat,
) -> Result<Seq<Seq<u64>>, EvalErrorView>
    decreases n - i, n - j,
{
    if i + 1 >= n {
        Ok(rows)
    } else if j >= n {
        reduced_by(host, rows, n, i + 1, i + 2)
    } else {
        match number_by(host, divisor_of(rows, i as int, j as int)) {
            Err(error) => Err(error),
            Ok(divisor) => match updated_by(
                host,
                rows,
                width(rows, j as int),
                i,
                j,
                i,
                divisor,
                true,
            ) {
                Err(error) => Err(error),
                Ok(updated) => if updated.1 {
                    Err(EvalErrorView::InfiniteSolutions)
                } else {
                    reduced_by(host, updated.0, n, i, j + 1)
                },
            },
        }
    }
}

/// The unknowns of the rows from the row `done.len()` on, behind `done`:
/// the right side of every row by its pivot, as a host divides.
pub open spec fn quotients_by(
    host: spec_fn(EvaluateView) -> Outcome,
    rows: Seq<Seq<u64>>,
    done: Seq<u64>,
) -> Result<Seq<u64>, EvalErrorView>
    decreases rows.len() - done.len(),
{
    if done.len() >= rows.len() {
        Ok(done)
    } else {
        match number_by(host, quotient_of(rows, done.len() as int)) {
            Err(error) => Err(error),
            Ok(number) => quotients_by(host, rows, done.push(number)),
        }
    }
}

/// The numbers of the point from the place `done.len()` on, each with the
/// number of `delta` at its place added as a host adds, behind `done`.
pub open spec fn sums_by(
    host: spec_fn(EvaluateView) -> Outcome,
    delta: Seq<u64>,
    point: Seq<u64>,
    done: Seq<u64>,
) -> Result<Seq<u64>, EvalErrorView>
    decreases point.len() - done.len(),
{
    if done.len() >= point.len() {
        Ok(done)
    } else {
        match number_by(
            host,
            sum_of(number_at(delta, done.len() as int), number_at(point, done.len() as int)),
        ) {
            Err(error) => Err(error),
            Ok(number) => sums_by(host, delta, point, done.push(number)),
        }
    }
}

/// The solution of the system in its two triangular forms: the system is
/// brought to triangular form, turned round, and brought to triangular form
/// again; then the unknowns are read off, the last one first.
pub open spec fn solved_by(host: spec_fn(EvaluateView) -> Outcome, rows: Seq<Seq<u64>>) -> Result<
    Seq<u64>,
    EvalErrorView,
> {
    match reduced_by(host, rows, rows.len(), 0, 1) {
        Err(error) => Err(error),
        Ok(upper) => match reduced_by(host, flipped(upper), rows.len(), 0, 1) {
            Err(error) => Err(error),
            Ok(lower) => match quotients_by(host, lower, Seq::empty()) {
                Err(error) => Err(error),
                Ok(unknowns) => Ok(backwards(unknowns)),
            },
        },
    }
}

/// The next point of Newton's method, as a host computes it that evaluates
/// the request `r` to `host(r)`: the point plus the solution of the system
/// with the slopes as its matrix and the negated residual as its right side.
/// A system that has not one unknown for every row has no solution; the
/// first error of the host is the outcome.
pub open spec fn next_point_by(
    host: spec_fn(EvaluateView) -> Outcome,
    slopes: Seq<Seq<u64>>,
    residual: Seq<u64>,
    point: Seq<u64>,
) -> Result<Seq<u64>, EvalErrorView> {
    match negated_by(host, slopes, slopes.len(), residual, 0) {
        Err(error) => Err(error),
        Ok(rows) => if rows.len() == 0 || rows.len() + 1 != rows[0].len() {
            Err(EvalErrorView::UnderdeterminedSystem)
        } else {
            match solved_by(host, rows) {
                Err(error) => Err(error),
                Ok(delta) => sums_by(host, delta, point, Seq::empty()),
            }
        },
    }
}

/// The state after `steps` steps of the machine, with a host that answers
/// the request `r` by `host(r)`.
pub open spec fn run(
    state: EliminationView,
    host: spec_fn(EvaluateView) -> Outcome,
    steps: nat,
) -> EliminationView
    decreases steps,
{
    if steps == 0 {
        state
    } else {
        run(
            state.next(
                match state.request() {
                    Some(request) => Some(host(request)),
                    None => None,
                },
            ),
            host,
            (steps - 1) as nat,
        )
    }
}

/// A machine that is over stays as it is.
pub proof fn lemma_over_stays(
    state: EliminationView,
    host: spec_fn(EvaluateView) -> Outcome,
    steps: nat,
)
    requires
        state.outcome() is Some,
    ensures
        run(state, host, steps) == state,
    decreases steps,
{
    if steps > 0 {
        lemma_over_stays(state, host, (steps - 1) as nat);
    }
}

/// Steps can be made in two parts.
pub proof fn lemma_run_in_two(
    state: EliminationView,
    host: spec_fn(EvaluateView) -> Outcome,
    first: nat,
    second: nat,
)
    ensures
        run(state, host, first + second) == run(run(state, host, first), host, second),
    decreases first,
{
    if first > 0 {
        let then = state.next(
            match state.request() {
                Some(request) => Some(host(request)),
                None => None,
            },
        );
        lemma_run_in_two(then, host, (first - 1) as nat, second);
        assert(run(state, host, first + second) == run(then, host, (first + second - 1) as nat));
    }
}

/// The machine that waits for a number, after the step that takes the
/// answer of its host.
pub proof fn lemma_answered(state: EliminationView, host: spec_fn(EvaluateView) -> Outcome)
    requires
        state.request() is Some,
    ensures
        run(state, host, 1) == match number_by(host, state.request()->Some_0) {
            Err(error) => state.fail(error),
            Ok(number) => state.resume(number),
        },
{
    let then = state.next(Some(host(state.request()->Some_0)));
    assert(run(state, host, 1) == run(then, host, 0));
}

/// The state with other rows.
pub open spec fn with_rows(state: EliminationView, rows: Seq<Seq<u64>>) -> EliminationView {
    EliminationView { rows, ..state }
}

/// Where the machine is after some steps, given what it has come to: over,
/// with the error, or in the state `to`.
pub open spec fn reached<T>(
    outcome: Result<T, EvalErrorView>,
    now: EliminationView,
    to: spec_fn(T) -> EliminationView,
) -> bool {
    match outcome {
        Err(error) => now.outcome() == Some(Err::<Seq<u64>, EvalErrorView>(error)),
        Ok(value) => now == to(value),
    }
}

/// The machine that puts the right sides behind the rows comes to the rows
/// with all right sides behind them.
pub proof fn lemma_negate(state: EliminationView, host: spec_fn(EvaluateView) -> Outcome, at: nat) -> (steps:
    nat)
    requires
        state.stage is Start,
    ensures
        reached(
            negated_by(host, state.rows, state.rows.len(), state.residual, at),
            run(state.negate(at), host, steps),
            |rows: Seq<Seq<u64>>| with_rows(state, rows).negate(rows.len()),
        ),
        negated_by(host, state.rows, state.rows.len(), state.residual, at) is Ok ==> negated_by(
            host,
            state.rows,
            state.rows.len(),
            state.residual,
            at,
        )->Ok_0.len() == state.rows.len(),
    decreases state.rows.len() - at,
{
    if at >= state.rows.len() {
        assert(with_rows(state, state.rows) == state);
        0
    } else {
        let asking = state.negate(at);
        lemma_answered(asking, host);
        match number_by(host, negation_of(number_at(state.residual, at as int))) {
            Err(error) => 1,
            Ok(number) => {
                let more = with_rows(state, with_last(state.rows, at as int, number));
                assert(asking.resume(number) == more.negate(at + 1));
                let rest = lemma_negate(more, host, at + 1);
                lemma_run_in_two(asking, host, 1, rest);
                let all = negated_by(host, state.rows, state.rows.len(), state.residual, at);
                if all is Ok {
                    assert(with_rows(more, all->Ok_0) == with_rows(state, all->Ok_0));
                }
                1 + rest
            },
        }
    }
}

/// The machine that updates a row comes to the rows with the updated row,
/// at the end of that row.
pub proof fn lemma_update(
    state: EliminationView,
    host: spec_fn(EvaluateView) -> Outcome,
    second: bool,
    i: nat,
    j: nat,
    k: nat,
    divisor: u64,
    zero_line: bool,
) -> (steps: nat)
    requires
        state.stage is Start,
    ensures
        reached(
            updated_by(host, state.rows, width(state.rows, j as int), i, j, k, divisor, zero_line),
            run(state.update(second, i, j, k, divisor, zero_line), host, steps),
            |updated: (Seq<Seq<u64>>, bool)|
                with_rows(state, updated.0).update(
                    second,
                    i,
                    j,
                    width(state.rows, j as int),
                    divisor,
                    updated.1,
                ),
        ),
        match updated_by(
            host,
            state.rows,
            width(state.rows, j as int),
            i,
            j,
            k,
            divisor,
            zero_line,
        ) {
            Ok(updated) => updated.0.len() == state.rows.len() && width(updated.0, j as int)
                == width(state.rows, j as int),
            Err(_) => true,
        },
    decreases width(state.rows, j as int) - k,
{
    let w = width(state.rows, j as int);
    if k >= w {
        assert(with_rows(state, state.rows) == state);
        0
    } else {
        let asking = state.update(second, i, j, k, divisor, zero_line);
        lemma_answered(asking, host);
        match number_by(host, update_of(state.rows, i as int, j as int, k as int, divisor)) {
            Err(error) => 1,
            Ok(number) => {
                let more = with_rows(state, with_entry(state.rows, j as int, k as int, number));
                let zero = zero_line && is_zero(number);
                assert(width(more.rows, j as int) == w);
                assert(asking.resume(number) == more.update(
                    second,
                    i,
                    j,
                    k + 1,
                    divisor,
                    zero,
                ));
                let rest = lemma_update(more, host, second, i, j, (k + 1) as nat, divisor, zero);
                lemma_run_in_two(asking, host, 1, rest);
                let all = updated_by(host, state.rows, w, i, j, k, divisor, zero_line);
                if all is Ok {
                    assert(with_rows(more, all->Ok_0.0) == with_rows(state, all->Ok_0.0));
                }
                1 + rest
            },
        }
    }
}

/// The machine that brings the system to triangular form comes to the
/// system in triangular form, at the end of the pass.
pub proof fn lemma_reduce(
    state: EliminationView,
    host: spec_fn(EvaluateView) -> Outcome,
    second: bool,
    i: nat,
    j: nat,
) -> (steps: nat)
    requires
        state.stage is Start,
    ensures
        reached(
            reduced_by(host, state.rows, state.rows.len(), i, j),
            run(state.reduce(second, i, j), host, steps),
            |rows: Seq<Seq<u64>>| with_rows(state, rows).reduce(second, rows.len(), rows.len()),
        ),
        reduced_by(host, state.rows, state.rows.len(), i, j) is Ok ==> reduced_by(
            host,
            state.rows,
            state.rows.len(),
            i,
            j,
        )->Ok_0.len() == state.rows.len(),
    decreases state.rows.len() - i, state.rows.len() - j,
{
    let n = state.rows.len();
    if i + 1 >= n {
        assert(with_rows(state, state.rows) == state);
        0
    } else if j >= n {
        lemma_reduce(state, host, second, i + 1, i + 2)
    } else {
        let asking = state.reduce(second, i, j);
        lemma_answered(asking, host);
        match number_by(host, divisor_of(state.rows, i as int, j as int)) {
            Err(error) => 1,
            Ok(divisor) => {
                assert(asking.resume(divisor) == state.update(second, i, j, i, divisor, true));
                let row = lemma_update(state, host, second, i, j, i, divisor, true);
                lemma_run_in_two(asking, host, 1, row);
                match updated_by(
                    host,
                    state.rows,
                    width(state.rows, j as int),
                    i,
                    j,
                    i,
                    divisor,
                    true,
                ) {
                    Err(error) => 1 + row,
                    Ok(updated) => {
                        let more = with_rows(state, updated.0);
                        if updated.1 {
                            1 + row
                        } else {
                            let rest = lemma_reduce(more, host, second, i, j + 1);
                            lemma_run_in_two(asking, host, 1 + row, rest);
                            let all = reduced_by(host, state.rows, n, i, j);
                            if all is Ok {
                                assert(with_rows(more, all->Ok_0) == with_rows(state, all->Ok_0));
                            }
                            1 + row + rest
                        }
                    },
                }
            },
        }
    }
}

/// The machine that reads the unknowns off comes to all unknowns.
pub proof fn lemma_quotients(
    state: EliminationView,
    host: spec_fn(EvaluateView) -> Outcome,
    done: Seq<u64>,
) -> (steps: nat)
    requires
        state.stage is Start,
    ensures
        reached(
            quotients_by(host, state.rows, done),
            run(state.quotients(done), host, steps),
            |unknowns: Seq<u64>| state.sums(backwards(unknowns), Seq::empty()),
        ),
    decreases state.rows.len() - done.len(),
{
    if done.len() >= state.rows.len() {
        0
    } else {
        let asking = state.quotients(done);
        lemma_answered(asking, host);
        match number_by(host, quotient_of(state.rows, done.len() as int)) {
            Err(error) => 1,
            Ok(number) => {
                assert(asking.resume(number) == state.quotients(done.push(number)));
                let rest = lemma_quotients(state, host, done.push(number));
                lemma_run_in_two(asking, host, 1, rest);
                1 + rest
            },
        }
    }
}

/// The machine that adds the step to the point comes to the new point.
pub proof fn lemma_sums(
    state: EliminationView,
    host: spec_fn(EvaluateView) -> Outcome,
    delta: Seq<u64>,
    done: Seq<u64>,
) -> (steps: nat)
    requires
        state.stage is Start,
    ensures
        run(state.sums(delta, done), host, steps).outcome() == Some(
            sums_by(host, delta, state.point, done),
        ),
    decreases state.point.len() - done.len(),
{
    if done.len() >= state.point.len() {
        0
    } else {
        let asking = state.sums(delta, done);
        lemma_answered(asking, host);
        match number_by(
            host,
            sum_of(number_at(delta, done.len() as int), number_at(state.point, done.len() as int)),
        ) {
            Err(error) => 1,
            Ok(number) => {
                assert(asking.resume(number) == state.sums(delta, done.push(number)));
                let rest = lemma_sums(state, host, delta, done.push(number));
                lemma_run_in_two(asking, host, 1, rest);
                1 + rest
            },
        }
    }
}

/// An elimination that starts comes to the next point as its host computes
/// it.
pub proof fn lemma_whole(start: EliminationView, host: spec_fn(EvaluateView) -> Outcome) -> (steps:
    nat)
    requires
        start.stage is Start,
    ensures
        run(start, host, steps).outcome() == Some(
            next_point_by(host, start.rows, start.residual, start.point),
        ),
{
    assert(start.request() is None);
    assert(run(start, host, 1) == run(start.negate(0), host, 0));
    let sides = lemma_negate(start, host, 0);
    lemma_run_in_two(start, host, 1, sides);
    match negated_by(host, start.rows, start.rows.len(), start.residual, 0) {
        Err(error) => 1 + sides,
        Ok(rows) => {
            let system = with_rows(start, rows);
            if rows.len() == 0 || rows.len() + 1 != rows[0].len() {
                1 + sides
            } else {
                let first = lemma_reduce(system, host, false, 0, 1);
                lemma_run_in_two(start, host, 1 + sides, first);
                match reduced_by(host, rows, rows.len(), 0, 1) {
                    Err(error) => 1 + sides + first,
                    Ok(upper) => {
                        let turned = with_rows(system, flipped(upper));
                        assert(with_rows(system, upper).reduce(false, upper.len(), upper.len())
                            == turned.reduce(true, 0, 1));
                        let second = lemma_reduce(turned, host, true, 0, 1);
                        lemma_run_in_two(start, host, 1 + sides + first, second);
                        match reduced_by(host, flipped(upper), rows.len(), 0, 1) {
                            Err(error) => 1 + sides + first + second,
                            Ok(lower) => {
                                let last = with_rows(turned, lower);
                                assert(last.reduce(true, lower.len(), lower.len())
                                    == last.quotients(Seq::empty()));
                                let read = lemma_quotients(last, host, Seq::empty());
                                lemma_run_in_two(start, host, 1 + sides + first + second, read);
                                match quotients_by(host, lower, Seq::empty()) {
                                    Err(error) => 1 + sides + first + second + read,
                                    Ok(unknowns) => {
                                        let added = lemma_sums(
                                            last,
                                            host,
                                            backwards(unknowns),
                                            Seq::empty(),
                                        );
                                        lemma_run_in_two(
                                            start,
                                            host,
                                            1 + sides + first + second + read,
                                            added,
                                        );
                                        1 + sides + first + second + read + added
                                    },
                                }
                            },
                        }
                    },
                }
            }
        },
    }
}

/// Run by a host that answers the request `r` by `host(r)`, an elimination
/// ends, whatever the host answers, and its outcome is the next point as
/// that host computes it (see [`next_point_by`]). The number of steps after
/// which the elimination is over is returned.
pub proof fn law_elimination(
    host: spec_fn(EvaluateView) -> Outcome,
    slopes: Seq<Seq<u64>>,
    residual: Seq<u64>,
    point: Seq<u64>,
) -> (steps: nat)
    ensures
        forall|more: nat|
            more >= steps ==> (#[trigger] run(
                EliminationView::start(slopes, residual, point),
                host,
                more,
            )).outcome() == Some(next_point_by(host, slopes, residual, point)),
{
    let start = EliminationView::start(slopes, residual, point);
    let wanted = next_point_by(host, slopes, residual, point);
    let steps = lemma_whole(start, host);
    assert forall|more: nat| more >= steps implies (#[trigger] run(start, host, more)).outcome()
        == Some(wanted) by {
        lemma_run_in_two(start, host, steps, (more - steps) as nat);
        lemma_over_stays(run(start, host, steps), host, (more - steps) as nat);
    }
    steps
}

pub enum Stage {
    Start,
    Negate { at: usize },
    Divisor { second: bool, i: usize, j: usize },
    Update { second: bool, i: usize, j: usize, k: usize, divisor: u64, zero_line: bool },
    Quotient { done: Vec<u64> },
    Sum { delta: Vec<u64>, done: Vec<u64> },
    Done(Result<Vec<u64>, EvalError>),
}

impl View for Stage {
    type V = StageView;

    open spec fn view(&self) -> StageView {
        match self {
            Stage::Start => StageView::Start,
            Stage::Negate { at } => StageView::Negate { at: *at as nat },
            Stage::Divisor { second, i, j } => StageView::Divisor {
                second: *second,
                i: *i as nat,
                j: *j as nat,
            },
            Stage::Update { second, i, j, k, divisor, zero_line } => StageView::Update {
                second: *second,
                i: *i as nat,
                j: *j as nat,
                k: *k as nat,
                divisor: *divisor,
                zero_line: *zero_line,
            },
            Stage::Quotient { done } => StageView::Quotient { done: done@ },
            Stage::Sum { delta, done } => StageView::Sum { delta: delta@, done: done@ },
            Stage::Done(outcome) => StageView::Done(point_view(*outcome)),
        }
    }
}

/// What an elimination gave, mathematically.
pub open spec fn point_view(outcome: Result<Vec<u64>, EvalError>) -> Result<
    Seq<u64>,
    EvalErrorView,
> {
    match outcome {
        Ok(point) => Ok(point@),
        Err(e) => Err(e@),
    }
}

/// What an elimination gave, if it is over.
pub open spec fn given_view(outcome: Option<Result<Vec<u64>, EvalError>>) -> Option<
    Result<Seq<u64>, EvalErrorView>,
> {
    match outcome {
        Some(o) => Some(point_view(o)),
        None => None,
    }
}

/// An elimination (see [`EliminationView`]).
pub struct Elimination {
    rows: Vec<Vec<u64>>,
    residual: Vec<u64>,
    point: Vec<u64>,
    stage: Stage,
}

impl View for Elimination {
    type V = EliminationView;

    closed spec fn view(&self) -> EliminationView {
        EliminationView {
            rows: numbers_view(self.rows@),
            residual: self.residual@,
            point: self.point@,
            stage: self.stage@,
        }
    }
}

/// The number in row `i` at place `k`, or zero if there is no such place.
fn entry_of(rows: &Vec<Vec<u64>>, i: usize, k: usize) -> (res: u64)
    ensures
        res == entry(numbers_view(rows@), i as int, k as int),
{
    assert(numbers_view(rows@).len() == rows.len());
    if i < rows.len() {
        assert(numbers_view(rows@)[i as int] == rows@[i as int]@);
        if k < rows[i].len() {
            rows[i][k]
        } else {
            ZERO_BITS
        }
    } else {
        ZERO_BITS
    }
}

/// The length of row `i`, or zero if there is no such row.
fn width_of(rows: &Vec<Vec<u64>>, i: usize) -> (res: usize)
    ensures
        res == width(numbers_view(rows@), i as int),
{
    assert(numbers_view(rows@).len() == rows.len());
    if i < rows.len() {
        assert(numbers_view(rows@)[i as int] == rows@[i as int]@);
        rows[i].len()
    } else {
        0
    }
}

/// The rows with `number` in row `i` at place `k`, if there is such a place.
fn set_entry(rows: Vec<Vec<u64>>, i: usize, k: usize, number: u64) -> (res: Vec<Vec<u64>>)
    ensures
        numbers_view(res@) == with_entry(numbers_view(rows@), i as int, k as int, number),
{
    let ghost before = numbers_view(rows@);
    assert(before.len() == rows.len());
    let mut rows = rows;
    if i < rows.len() {
        assert(before[i as int] == rows@[i as int]@);
        if k < rows[i].len() {
            let mut row = rows[i].clone();
            assert(row@ =~= before[i as int]);
            row.set(k, number);
            rows.set(i, row);
            assert(numbers_view(rows@) =~= before.update(
                i as int,
                before[i as int].update(k as int, number),
            ));
        }
    }
    rows
}

/// The rows with `number` behind row `i`, if there is such a row.
fn push_last(rows: Vec<Vec<u64>>, i: usize, number: u64) -> (res: Vec<Vec<u64>>)
    ensures
        numbers_view(res@) == with_last(numbers_view(rows@), i as int, number),
{
    let ghost before = numbers_view(rows@);
    assert(before.len() == rows.len());
    let mut rows = rows;
    if i < rows.len() {
        assert(before[i as int] == rows@[i as int]@);
        let mut row = rows[i].clone();
        assert(row@ =~= before[i as int]);
        row.push(number);
        rows.set(i, row);
        assert(numbers_view(rows@) =~= before.update(i as int, before[i as int].push(number)));
    }
    rows
}

/// Whether the number is zero.
pub fn is_zero_number(bits: u64) -> (b: bool)
    ensures
        b == is_zero(bits),
{
    bits == ZERO_BITS || bits == SIGN_BIT
}

/// The numbers from the last to the first.
fn reversed(numbers: &Vec<u64>) -> (res: Vec<u64>)
    ensures
        res@ == backwards(numbers@),
{
    let n = numbers.len();
    let mut res: Vec<u64> = Vec::new();
    let mut k: usize = 0;
    while k < n
        invariant
            k <= n,
            n == numbers.len(),
            res.len() == k,
            forall|x: int| 0 <= x < k ==> res@[x] == numbers@[n - 1 - x],
        decreases n - k,
    {
        res.push(numbers[n - 1 - k]);
        k = k + 1;
    }
    assert(res@ =~= backwards(numbers@));
    res
}

/// The row with its coefficients from the last to the first.
fn turn(row: &Vec<u64>) -> (res: Vec<u64>)
    ensures
        res@ == turned(row@),
{
    let n = row.len();
    let mut res: Vec<u64> = Vec::new();
    let mut c: usize = 0;
    while c < n
        invariant
            c <= n,
            n == row.len(),
            res.len() == c,
            forall|x: int| 0 <= x < c ==> res@[x] == turned(row@)[x],
        decreases n - c,
    {
        if c == n - 1 {
            res.push(row[c]);
        } else {
            res.push(row[n - 2 - c]);
        }
        c = c + 1;
    }
    assert(res@ =~= turned(row@));
    res
}

/// The system turned round.
fn flip(rows: &Vec<Vec<u64>>) -> (res: Vec<Vec<u64>>)
    ensures
        numbers_view(res@) == flipped(numbers_view(rows@)),
{
    let ghost all = numbers_view(rows@);
    let n = rows.len();
    assert(all.len() == n);
    let mut res: Vec<Vec<u64>> = Vec::new();
    let mut r: usize = 0;
    while r < n
        invariant
            r <= n,
            n == rows.len(),
            all == numbers_view(rows@),
            res.len() == r,
            forall|x: int| 0 <= x < r ==> (#[trigger] res@[x])@ == turned(all[n - 1 - x]),
        decreases n - r,
    {
        assert(all[n - 1 - r] == rows@[n - 1 - r]@);
        res.push(turn(&rows[n - 1 - r]));
        r = r + 1;
    }
    assert(numbers_view(res@) =~= flipped(all));
    res
}

/// A context of three variables with one number each, and no functions.
fn bind_three(first: &str, a: u64, second: &str, b: u64, third: &str, c: u64) -> (res: Context)
    ensures
        res@ == bindings(
            seq![
                binding(first@, ValueView::Scalar(a)),
                binding(second@, ValueView::Scalar(b)),
                binding(third@, ValueView::Scalar(c)),
            ],
        ),
{
    let mut vars: Vec<Variable> = Vec::new();
    vars.push(one_number(first, a));
    vars.push(one_number(second, b));
    vars.push(one_number(third, c));
    let res = Context { vars, funs: Vec::new() };
    assert(res@.vars =~= seq![
        binding(first@, ValueView::Scalar(a)),
        binding(second@, ValueView::Scalar(b)),
        binding(third@, ValueView::Scalar(c)),
    ]);
    assert(res@.funs =~= Seq::empty());
    res
}

/// A variable with one number.
fn one_number(name: &str, number: u64) -> (res: Variable)
    ensures
        res@ == binding(name@, ValueView::Scalar(number)),
{
    let mut values: Vec<Value> = Vec::new();
    values.push(Value::Scalar(number));
    assert(values_view(values@) =~= seq![ValueView::Scalar(number)]);
    Variable::new(String::from_str(name), values)
}

/// The tree `a / b`.
fn ratio() -> (res: AST)
    ensures
        res@ == ratio_tree(),
{
    binary_tree(SimpleOpType::Div, variable_tree("a"), variable_tree("b"))
}

impl Elimination {
    /// An elimination for the system with the slopes as its matrix and the
    /// negated residual as its right side, before its first step. The new
    /// point is the old one plus the solution of the system.
    pub fn new(slopes: Vec<Vec<u64>>, residual: Vec<u64>, point: Vec<u64>) -> (res: Elimination)
        ensures
            res@ == EliminationView::start(numbers_view(slopes@), residual@, point@),
    {
        Elimination { rows: slopes, residual, point, stage: Stage::Start }
    }

    /// The new point, once the elimination is over, or why there is none.
    pub fn outcome(&self) -> (res: Option<Result<Vec<u64>, EvalError>>)
        ensures
            given_view(res) == self@.outcome(),
    {
        match &self.stage {
            Stage::Done(Ok(point)) => Some(Ok(point.clone())),
            Stage::Done(Err(e)) => Some(Err(e.clone())),
            _ => None,
        }
    }

    /// What the host is asked for in this state, if anything.
    pub fn request(&self) -> (res: Option<Evaluate>)
        ensures
            evaluate_view(res) == self@.request(),
    {
        match &self.stage {
            Stage::Negate { at } => {
                let ast = binary_tree(SimpleOpType::Neg, numeral_tree("0"), variable_tree("f"));
                proof {
                    reveal_strlit("0");
                    assert("0"@ =~= seq!['0']);
                }
                let number = number_in(&self.residual, *at);
                Some(Evaluate { ast, context: bind_one("f", &Value::Scalar(number)) })
            },
            Stage::Divisor { second, i, j } => {
                let a = entry_of(&self.rows, *i, *i);
                let b = entry_of(&self.rows, *j, *i);
                Some(
                    Evaluate {
                        ast: ratio(),
                        context: bind_two("a", &Value::Scalar(a), "b", &Value::Scalar(b)),
                    },
                )
            },
            Stage::Update { second, i, j, k, divisor, zero_line } => {
                let c = entry_of(&self.rows, *j, *k);
                let a = entry_of(&self.rows, *i, *k);
                let ast = binary_tree(SimpleOpType::Sub, variable_tree("c"), ratio());
                Some(Evaluate { ast, context: bind_three("c", c, "a", a, "b", *divisor) })
            },
            Stage::Quotient { done } => {
                let i = done.len();
                let width = width_of(&self.rows, i);
                let a = if width > 0 {
                    entry_of(&self.rows, i, width - 1)
                } else {
                    ZERO_BITS
                };
                let b = entry_of(&self.rows, i, i);
                Some(
                    Evaluate {
                        ast: ratio(),
                        context: bind_two("a", &Value::Scalar(a), "b", &Value::Scalar(b)),
                    },
                )
            },
            Stage::Sum { delta, done } => {
                let a = number_in(delta, done.len());
                let b = number_in(&self.point, done.len());
                let ast = binary_tree(SimpleOpType::Add, variable_tree("a"), variable_tree("b"));
                Some(
                    Evaluate {
                        ast,
                        context: bind_two("a", &Value::Scalar(a), "b", &Value::Scalar(b)),
                    },
                )
            },
            _ => None,
        }
    }

    fn stage(self, stage: Stage) -> (res: Elimination)
        ensures
            res@ == self@.stage(stage@),
    {
        Elimination { rows: self.rows, residual: self.residual, point: self.point, stage }
    }

    fn fail(self, error: EvalError) -> (res: Elimination)
        ensures
            res@ == self@.fail(error@),
    {
        self.stage(Stage::Done(Err(error)))
    }

    fn sums(self, delta: Vec<u64>, done: Vec<u64>) -> (res: Elimination)
        ensures
            res@ == self@.sums(delta@, done@),
    {
        if done.len() >= self.point.len() {
            self.stage(Stage::Done(Ok(done)))
        } else {
            self.stage(Stage::Sum { delta, done })
        }
    }

    fn quotients(self, done: Vec<u64>) -> (res: Elimination)
        ensures
            res@ == self@.quotients(done@),
    {
        assert(numbers_view(self.rows@).len() == self.rows.len());
        if done.len() >= self.rows.len() {
            let delta = reversed(&done);
            self.sums(delta, Vec::new())
        } else {
            self.stage(Stage::Quotient { done })
        }
    }

    fn reduce(self, second: bool, i: usize, j: usize) -> (res: Elimination)
        ensures
            res@ == self@.reduce(second, i as nat, j as nat),
        decreases
                (if second {
                    0nat
                } else {
                    1nat
                }),
                self.rows.len() - i,
    {
        assert(numbers_view(self.rows@).len() == self.rows.len());
        if i >= self.rows.len() || i + 1 >= self.rows.len() {
            if second {
                self.quotients(Vec::new())
            } else {
                let rows = flip(&self.rows);
                assert(numbers_view(rows@).len() == self.rows.len());
                let turned = Elimination {
                    rows,
                    residual: self.residual,
                    point: self.point,
                    stage: self.stage,
                };
                turned.reduce(true, 0, 1)
            }
        } else if j >= self.rows.len() {
            self.reduce(second, i + 1, i + 2)
        } else {
            self.stage(Stage::Divisor { second, i, j })
        }
    }

    fn negate(self, at: usize) -> (res: Elimination)
        ensures
            res@ == self@.negate(at as nat),
    {
        assert(numbers_view(self.rows@).len() == self.rows.len());
        if at >= self.rows.len() {
            let square = if self.rows.len() == 0 {
                false
            } else {
                assert(numbers_view(self.rows@)[0] == self.rows@[0]@);
                self.rows[0].len() > 0 && self.rows[0].len() - 1 == self.rows.len()
            };
            if square {
                self.reduce(false, 0, 1)
            } else {
                self.fail(EvalError::UnderdeterminedSystem)
            }
        } else {
            self.stage(Stage::Negate { at })
        }
    }

    fn update(self, second: bool, i: usize, j: usize, k: usize, divisor: u64, zero_line: bool) -> (res:
        Elimination)
        ensures
            res@ == self@.update(second, i as nat, j as nat, k as nat, divisor, zero_line),
    {
        if k >= width_of(&self.rows, j) {
            if zero_line {
                self.fail(EvalError::InfiniteSolutions)
            } else {
                assert(numbers_view(self.rows@).len() == self.rows.len());
                let below = if j < self.rows.len() {
                    j + 1
                } else {
                    j
                };
                self.reduce(second, i, below)
            }
        } else {
            self.stage(Stage::Update { second, i, j, k, divisor, zero_line })
        }
    }

    fn resume(self, number: u64) -> (res: Elimination)
        ensures
            res@ == self@.resume(number),
    {
        let Elimination { rows, residual, point, stage } = self;
        assert(numbers_view(rows@).len() == rows.len());
        match stage {
            Stage::Negate { at } => {
                let rows = push_last(rows, at, number);
                assert(numbers_view(rows@).len() == rows.len());
                let idle = Elimination { rows, residual, point, stage: Stage::Start };
                let behind = if at < idle.rows.len() {
                    at + 1
                } else {
                    at
                };
                idle.negate(behind)
            },
            Stage::Divisor { second, i, j } => {
                let idle = Elimination { rows, residual, point, stage: Stage::Start };
                idle.update(second, i, j, i, number, true)
            },
            Stage::Update { second, i, j, k, divisor, zero_line } => {
                let rows = set_entry(rows, j, k, number);
                let wide = width_of(&rows, j);
                let idle = Elimination { rows, residual, point, stage: Stage::Start };
                let behind = if k < wide {
                    k + 1
                } else {
                    k
                };
                let zero = zero_line && is_zero_number(number);
                idle.update(second, i, j, behind, divisor, zero)
            },
            Stage::Quotient { done } => {
                let idle = Elimination { rows, residual, point, stage: Stage::Start };
                idle.quotients(with_number(done, number))
            },
            Stage::Sum { delta, done } => {
                let idle = Elimination { rows, residual, point, stage: Stage::Start };
                idle.sums(delta, with_number(done, number))
            },
            other => Elimination { rows, residual, point, stage: other },
        }
    }

    /// One step of the machine (see [`EliminationView::next`]). The request
    /// that comes back is the one that the new state waits for, if it
    /// waits.
    pub fn step(self, reply: Option<Result<Vec<Value>, EvalError>>) -> (res: (
        Elimination,
        Option<Evaluate>,
    ))
        ensures
            res.0@ == self@.next(reply_view(reply)),
            evaluate_view(res.1) == res.0@.request(),
    {
        let kind: u8 = match &self.stage {
            Stage::Done(_) => 0,
            Stage::Start => 1,
            _ => 2,
        };
        let next = if kind == 0 {
            self
        } else if kind == 1 {
            self.negate(0)
        } else {
            match reply {
                None => self,
                Some(Err(error)) => self.fail(error),
                Some(Ok(values)) => match number_from(&values) {
                    Err(error) => self.fail(error),
                    Ok(number) => self.resume(number),
                },
            }
        };
        let request = next.request();
        (next, request)
    }
}

} // verus!
