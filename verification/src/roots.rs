//! The solver of equations: the machine of [`crate::newton`], as a program.
//!
//! A host creates a [`RootFinder`], calls [`RootFinder::step`] until
//! [`RootFinder::outcome`] gives the roots, and answers every question that a
//! step returns before it makes the next step.

use crate::basetypes::{
    asts_view, clone_functions, clone_values, clone_variables, lemma_operation_view, names_view,
    numbers_view, values_view, variables_view, Context, ContextView, SimpleOpType, Value,
    ValueView, Variable, VariableView, AST,
};
use crate::calculus::{bind_one, binary_tree, numeral_tree, variable_tree, Evaluate};
use crate::errors::{integer, EvalError, EvalErrorView};
use crate::evaluator::{holds_name, outcome_view};
use crate::newton::{
    left_over, norm_of, number_at, number_of, objection, picked, probe_context, range, root_of,
    start_of, uniform, with_others, with_unknowns, within_tolerance, AnswerView, FinderView,
    PhaseView, QuestionView, END_START, FIRST_START, MOST_STEPS, ROOT_DIGITS, TOLERANCE_BITS,
};
use crate::numbers::{any_inf_or_nan, is_less, SIGN_BIT, ZERO_BITS};
use crate::selection::{clean_results, generate_combinations, indices_view};
use crate::unknowns::{infer_unknowns, unknowns_of};
use vstd::prelude::*;
use vstd::string::StringExecFns;

verus! {

/// What a solver asks of its host.
#[derive(Debug, PartialEq)]
pub enum Question {
    /// The values of a tree in a context.
    Evaluate(Evaluate),
    /// The derivative of `expr` by `in_terms_of` at `at`, where `expr` has the
    /// value `known` at that point. Of every evaluation the first value
    /// counts.
    Differentiate { expr: AST, in_terms_of: String, at: Value, known: Value, context: Context },
    /// The next point of Newton's method: the point plus the solution of the
    /// linear system with the slopes as its matrix and the negated residual
    /// as its right side (see [`crate::elimination`]).
    Improve { slopes: Vec<Vec<u64>>, residual: Vec<u64>, point: Vec<u64> },
    /// The value with its numbers rounded to `digits` digits behind the
    /// point.
    Round { value: Value, digits: usize },
}

/// What a host hands in.
#[derive(Debug, PartialEq)]
pub enum Answer {
    Evaluated(Result<Vec<Value>, EvalError>),
    Point(Result<Vec<u64>, EvalError>),
    Rounded(Value),
}

pub enum Phase {
    ProbeValue,
    Probe { value: Value, index: usize },
    StartValue,
    Residual { done: Vec<u64> },
    Norm { residual: Vec<u64> },
    Check { done: Vec<u64> },
    CheckNorm { values: Vec<u64> },
    Slope { residual: Vec<u64>, rows: Vec<Vec<u64>>, row: Vec<u64> },
    Improve { residual: Vec<u64>, slopes: Vec<Vec<u64>> },
    Round { rounded: Vec<Value> },
    Done(Result<Vec<Value>, EvalError>),
}

/// A solver (see [`FinderView`]).
pub struct RootFinder {
    expressions: Vec<AST>,
    combinations: Vec<Vec<usize>>,
    context: Context,
    search_vars_names: Vec<String>,
    combination: usize,
    start: i64,
    steps: usize,
    point: Vec<u64>,
    roots: Vec<Value>,
    phase: Phase,
}

impl View for Question {
    type V = QuestionView;

    open spec fn view(&self) -> QuestionView {
        match self {
            Question::Evaluate(evaluate) => QuestionView::Evaluate(evaluate@),
            Question::Differentiate { expr, in_terms_of, at, known, context } => {
                QuestionView::Differentiate {
                    expr: expr@,
                    in_terms_of: in_terms_of@,
                    at: at@,
                    known: known@,
                    context: context@,
                }
            },
            Question::Improve { slopes, residual, point } => QuestionView::Improve {
                slopes: numbers_view(slopes@),
                residual: residual@,
                point: point@,
            },
            Question::Round { value, digits } => QuestionView::Round {
                value: value@,
                digits: *digits as nat,
            },
        }
    }
}

impl View for Answer {
    type V = AnswerView;

    open spec fn view(&self) -> AnswerView {
        match self {
            Answer::Evaluated(evaluated) => AnswerView::Evaluated(outcome_view(*evaluated)),
            Answer::Point(point) => AnswerView::Point(
                match point {
                    Ok(numbers) => Ok(numbers@),
                    Err(e) => Err(e@),
                },
            ),
            Answer::Rounded(value) => AnswerView::Rounded(value@),
        }
    }
}

impl View for Phase {
    type V = PhaseView;

    open spec fn view(&self) -> PhaseView {
        match self {
            Phase::ProbeValue => PhaseView::ProbeValue,
            Phase::Probe { value, index } => PhaseView::Probe {
                value: value@,
                index: *index as nat,
            },
            Phase::StartValue => PhaseView::StartValue,
            Phase::Residual { done } => PhaseView::Residual { done: done@ },
            Phase::Norm { residual } => PhaseView::Norm { residual: residual@ },
            Phase::Check { done } => PhaseView::Check { done: done@ },
            Phase::CheckNorm { values } => PhaseView::CheckNorm { values: values@ },
            Phase::Slope { residual, rows, row } => PhaseView::Slope {
                residual: residual@,
                rows: numbers_view(rows@),
                row: row@,
            },
            Phase::Improve { residual, slopes } => PhaseView::Improve {
                residual: residual@,
                slopes: numbers_view(slopes@),
            },
            Phase::Round { rounded } => PhaseView::Round { rounded: values_view(rounded@) },
            Phase::Done(outcome) => PhaseView::Done(outcome_view(*outcome)),
        }
    }
}

impl View for RootFinder {
    type V = FinderView;

    closed spec fn view(&self) -> FinderView {
        FinderView {
            expressions: asts_view(self.expressions@),
            combinations: indices_view(self.combinations@),
            context: self.context@,
            unknowns: names_view(self.search_vars_names@),
            combination: self.combination as nat,
            start: self.start as int,
            steps: self.steps as nat,
            point: self.point@,
            roots: values_view(self.roots@),
            phase: self.phase@,
        }
    }
}

/// What a question is, if one was asked.
pub open spec fn question_view(question: Option<Question>) -> Option<QuestionView> {
    match question {
        Some(q) => Some(q@),
        None => None,
    }
}

/// What an answer is, if one was handed in.
pub open spec fn answer_view(answer: Option<Answer>) -> Option<AnswerView> {
    match answer {
        Some(a) => Some(a@),
        None => None,
    }
}

/// What the making of a solver returned, mathematically.
pub open spec fn made_view(r: Result<RootFinder, EvalError>) -> Result<FinderView, EvalErrorView> {
    match r {
        Ok(finder) => Ok(finder@),
        Err(e) => Err(e@),
    }
}

/// What is asked for the norm of the numbers.
fn norm_question(numbers: &Vec<u64>) -> (res: Evaluate)
    ensures
        res@ == norm_of(numbers@),
{
    let ast = binary_tree(SimpleOpType::Abs, variable_tree("v"), numeral_tree("0"));
    proof {
        reveal_strlit("0");
        assert("0"@ =~= seq!['0']);
    }
    Evaluate { ast, context: bind_one("v", &Value::Vector(numbers.clone())) }
}

/// Whether the number is zero within the tolerance.
pub fn is_within_tolerance(number: u64) -> (b: bool)
    ensures
        b == within_tolerance(number),
{
    is_less(TOLERANCE_BITS + SIGN_BIT, number) && is_less(number, TOLERANCE_BITS)
}

/// The indices `0, 1, ..., n - 1`.
fn range_list(n: usize) -> (res: Vec<usize>)
    ensures
        res@ == range(n as nat),
{
    let mut res: Vec<usize> = Vec::new();
    let mut i: usize = 0;
    while i < n
        invariant
            i <= n,
            res.len() == i,
            forall|k: int| 0 <= k < i ==> res@[k] == k,
        decreases n - i,
    {
        res.push(i);
        i = i + 1;
    }
    assert(res@ =~= range(n as nat));
    res
}

/// Whether `k` is among the indices.
fn has_index(indices: &Vec<usize>, k: usize) -> (b: bool)
    ensures
        b == indices@.contains(k),
{
    let mut i: usize = 0;
    while i < indices.len()
        invariant
            i <= indices.len(),
            forall|j: int| 0 <= j < i ==> indices@[j] != k,
        decreases indices.len() - i,
    {
        if indices[i] == k {
            return true;
        }
        i = i + 1;
    }
    false
}

/// The expressions with the given indices.
fn picked_list(expressions: &Vec<AST>, indices: &Vec<usize>) -> (res: Vec<AST>)
    ensures
        asts_view(res@) == picked(asts_view(expressions@), indices@),
{
    let ghost all = asts_view(expressions@);
    let ghost valid = |k: usize| k < all.len();
    let ghost at = |k: usize| all[k as int];
    let mut res: Vec<AST> = Vec::new();
    let mut i: usize = 0;
    proof {
        assert(indices@.take(0) =~= Seq::empty());
        assert(asts_view(res@) =~= Seq::empty());
    }
    while i < indices.len()
        invariant
            i <= indices.len(),
            all == asts_view(expressions@),
            valid == |k: usize| k < all.len(),
            at == |k: usize| all[k as int],
            asts_view(res@) == indices@.take(i as int).filter(valid).map_values(at),
        decreases indices.len() - i,
    {
        let ghost done = indices@.take(i as int);
        let ghost before = asts_view(res@);
        let k = indices[i];
        proof {
            assert(indices@.take(i + 1) == done.push(k));
            done.lemma_filter_push(k, valid);
        }
        if k < expressions.len() {
            res.push(expressions[k].clone());
            proof {
                assert(all[k as int] == expressions@[k as int]@);
                assert(asts_view(res@) =~= before.push(all[k as int]));
                assert(done.filter(valid).push(k).map_values(at) =~= done.filter(
                    valid,
                ).map_values(at).push(all[k as int]));
            }
        }
        i = i + 1;
    }
    assert(indices@.take(indices.len() as int) == indices@);
    res
}

/// The expressions whose indices are not among the given ones.
fn left_over_list(expressions: &Vec<AST>, indices: &Vec<usize>) -> (res: Vec<AST>)
    ensures
        asts_view(res@) == left_over(asts_view(expressions@), indices@),
{
    let ghost all = asts_view(expressions@);
    let ghost free = |k: usize| !indices@.contains(k);
    let ghost at = |k: usize| all[k as int];
    let ghost places = range(all.len());
    let mut res: Vec<AST> = Vec::new();
    let mut i: usize = 0;
    proof {
        assert(places.take(0) =~= Seq::empty());
        assert(asts_view(res@) =~= Seq::empty());
    }
    while i < expressions.len()
        invariant
            i <= expressions.len(),
            all == asts_view(expressions@),
            places == range(all.len()),
            free == |k: usize| !indices@.contains(k),
            at == |k: usize| all[k as int],
            asts_view(res@) == places.take(i as int).filter(free).map_values(at),
        decreases expressions.len() - i,
    {
        let ghost done = places.take(i as int);
        let ghost before = asts_view(res@);
        proof {
            assert(places.take(i + 1) == done.push(i));
            done.lemma_filter_push(i, free);
        }
        if !has_index(indices, i) {
            res.push(expressions[i].clone());
            proof {
                assert(all[i as int] == expressions@[i as int]@);
                assert(asts_view(res@) =~= before.push(all[i as int]));
                assert(done.filter(free).push(i).map_values(at) =~= done.filter(free).map_values(
                    at,
                ).push(all[i as int]));
            }
        }
        i = i + 1;
    }
    assert(places.take(expressions.len() as int) == places);
    res
}

/// A variable with one number as its value.
fn number_variable(name: &String, number: u64) -> (res: Variable)
    ensures
        res@ == (VariableView { name: name@, values: seq![ValueView::Scalar(number)] }),
{
    let mut values: Vec<Value> = Vec::new();
    values.push(Value::Scalar(number));
    assert(values_view(values@) =~= seq![ValueView::Scalar(number)]);
    Variable::new(name.clone(), values)
}

/// The number at place `k`, or zero if there is no such place.
pub(crate) fn number_in(numbers: &Vec<u64>, k: usize) -> (res: u64)
    ensures
        res == number_at(numbers@, k as int),
{
    if k < numbers.len() {
        numbers[k]
    } else {
        ZERO_BITS
    }
}

/// The context with the unknowns added, each bound to its number of the
/// point.
fn context_at(context: &Context, unknowns: &Vec<String>, point: &Vec<u64>) -> (res: Context)
    ensures
        res@ == with_unknowns(context@, names_view(unknowns@), point@, unknowns.len() as int),
{
    let mut res = context.clone();
    let mut n: usize = 0;
    while n < unknowns.len()
        invariant
            n <= unknowns.len(),
            res@ == with_unknowns(context@, names_view(unknowns@), point@, n as int),
        decreases unknowns.len() - n,
    {
        assert(names_view(unknowns@)[n as int] == unknowns@[n as int]@);
        let variable = number_variable(&unknowns[n], number_in(point, n));
        res.add_var(&variable);
        n = n + 1;
    }
    res
}

/// The context with the unknowns added, each bound to `value`.
fn context_of_probe(context: &Context, unknowns: &Vec<String>, value: &Value) -> (res: Context)
    ensures
        res@ == probe_context(context@, names_view(unknowns@), value@, unknowns.len() as int),
{
    let mut res = context.clone();
    let mut n: usize = 0;
    while n < unknowns.len()
        invariant
            n <= unknowns.len(),
            res@ == probe_context(context@, names_view(unknowns@), value@, n as int),
        decreases unknowns.len() - n,
    {
        assert(names_view(unknowns@)[n as int] == unknowns@[n as int]@);
        let mut values: Vec<Value> = Vec::new();
        values.push(value.clone());
        assert(values_view(values@) =~= seq![value@]);
        let variable = Variable::new(unknowns[n].clone(), values);
        res.add_var(&variable);
        n = n + 1;
    }
    res
}

/// The variables with the unknowns behind them, but for the unknown `skip`.
fn variables_with_others(
    vars: &Vec<Variable>,
    unknowns: &Vec<String>,
    point: &Vec<u64>,
    skip: usize,
) -> (res: Vec<Variable>)
    ensures
        variables_view(res@) == with_others(
            variables_view(vars@),
            names_view(unknowns@),
            point@,
            skip as int,
            unknowns.len() as int,
        ),
{
    let mut res = clone_variables(vars);
    let mut n: usize = 0;
    while n < unknowns.len()
        invariant
            n <= unknowns.len(),
            variables_view(res@) == with_others(
                variables_view(vars@),
                names_view(unknowns@),
                point@,
                skip as int,
                n as int,
            ),
        decreases unknowns.len() - n,
    {
        assert(names_view(unknowns@)[n as int] == unknowns@[n as int]@);
        if n != skip {
            let ghost before = variables_view(res@);
            let variable = number_variable(&unknowns[n], number_in(point, n));
            res.push(variable);
            assert(variables_view(res@) =~= before.push(variable@));
        }
        n = n + 1;
    }
    res
}

/// The point at which all unknowns have the same value.
fn uniform_point(value: u64, unknowns: usize) -> (res: Vec<u64>)
    ensures
        res@ == uniform(value, unknowns as nat),
{
    let mut res: Vec<u64> = Vec::new();
    let mut k: usize = 0;
    while k < unknowns
        invariant
            k <= unknowns,
            res.len() == k,
            forall|j: int| 0 <= j < k ==> res@[j] == value,
        decreases unknowns - k,
    {
        res.push(value);
        k = k + 1;
    }
    assert(res@ =~= uniform(value, unknowns as nat));
    res
}

/// The root that a point is.
fn root_value(point: &Vec<u64>) -> (res: Value)
    ensures
        res@ == root_of(point@),
{
    if point.len() == 1 {
        Value::Scalar(point[0])
    } else {
        let copy = point.clone();
        assert(copy@ =~= point@);
        Value::Vector(copy)
    }
}

/// The number that an evaluation gave.
pub(crate) fn number_from(values: &Vec<Value>) -> (res: Result<u64, EvalError>)
    ensures
        match res {
            Ok(number) => number_of(values_view(values@)) == Ok::<u64, EvalErrorView>(number),
            Err(e) => number_of(values_view(values@)) == Err::<u64, EvalErrorView>(e@),
        },
{
    if values.len() == 0 {
        return Err(EvalError::NothingToDoEq);
    }
    assert(values_view(values@)[0] == values@[0]@);
    match &values[0] {
        Value::Scalar(s) => Ok(*s),
        Value::Vector(_) => Err(EvalError::VectorInEq),
        Value::Matrix(_) => Err(EvalError::MatrixInEq),
    }
}

/// A context without variables and functions.
fn empty_context() -> (res: Context)
    ensures
        res@ == (ContextView { vars: Seq::empty(), funs: Seq::empty() }),
{
    let res = Context { vars: Vec::new(), funs: Vec::new() };
    assert(res@.vars =~= Seq::empty());
    assert(res@.funs =~= Seq::empty());
    res
}

/// The numbers with one more number at their end.
pub(crate) fn with_number(numbers: Vec<u64>, number: u64) -> (res: Vec<u64>)
    ensures
        res@ == numbers@.push(number),
{
    let mut res = numbers;
    res.push(number);
    res
}

/// No numbers.
fn no_numbers() -> (res: Vec<u64>)
    ensures
        res@ == Seq::<u64>::empty(),
{
    Vec::new()
}

/// No rows.
fn no_rows() -> (res: Vec<Vec<u64>>)
    ensures
        numbers_view(res@) == Seq::<Seq<u64>>::empty(),
{
    let res: Vec<Vec<u64>> = Vec::new();
    assert(numbers_view(res@) =~= Seq::<Seq<u64>>::empty());
    res
}

/// No values.
fn no_values() -> (res: Vec<Value>)
    ensures
        values_view(res@) == Seq::<ValueView>::empty(),
{
    let res: Vec<Value> = Vec::new();
    assert(values_view(res@) =~= Seq::<ValueView>::empty());
    res
}

impl RootFinder {
    /// A solver for the expressions, before its first step; or the reason why
    /// there is nothing to solve (see [`objection`]). Where no unknowns are
    /// named, the names that stand free in the expressions are the unknowns
    /// (see [`unknowns_of`]).
    #[verifier::loop_isolation(false)]
    pub fn new(expressions: Vec<AST>, context: Context, search_vars_names: Vec<String>) -> (res:
        Result<RootFinder, EvalError>)
        ensures
            match objection(
                asts_view(expressions@),
                context@,
                unknowns_of(asts_view(expressions@), context@, names_view(search_vars_names@)),
            ) {
                Some(error) => made_view(res) == Err::<FinderView, EvalErrorView>(error),
                None => made_view(res) == Ok::<FinderView, EvalErrorView>(
                    start_of(
                        asts_view(expressions@),
                        context@,
                        unknowns_of(
                            asts_view(expressions@),
                            context@,
                            names_view(search_vars_names@),
                        ),
                    ),
                ),
            },
    {
        let ghost trees = asts_view(expressions@);
        assert(names_view(search_vars_names@).len() == search_vars_names.len());
        let search_vars_names = if search_vars_names.len() == 0 {
            infer_unknowns(&expressions, &context)
        } else {
            search_vars_names
        };
        let ghost names = names_view(search_vars_names@);
        if expressions.len() == 0 {
            return Err(EvalError::NothingToDoEq);
        }
        let mut i: usize = 0;
        while i < expressions.len()
            invariant
                i <= expressions.len(),
                trees == asts_view(expressions@),
                forall|k: int| 0 <= k < i ==> crate::newton::is_operation(#[trigger] trees[k]),
            decreases expressions.len() - i,
        {
            proof {
                lemma_operation_view(expressions@[i as int]);
                assert(trees[i as int] == expressions@[i as int]@);
            }
            match &expressions[i] {
                AST::Operation(_) => {},
                _ => {
                    assert(!crate::newton::is_operation(trees[i as int]));
                    return Err(EvalError::NothingToDoEq);
                },
            }
            i = i + 1;
        }
        let mut j: usize = 0;
        while j < search_vars_names.len()
            invariant
                j <= search_vars_names.len(),
                names == names_view(search_vars_names@),
                forall|k: int| 0 <= k < j ==> !crate::newton::bound_in(context@, #[trigger] names[k]),
            decreases search_vars_names.len() - j,
        {
            assert(names[j as int] == search_vars_names@[j as int]@);
            if holds_name(&context.vars, search_vars_names[j].as_str()) {
                assert(crate::newton::bound_in(context@, names[j as int]));
                return Err(EvalError::SearchVarsInVars);
            }
            j = j + 1;
        }
        assert(trees.len() == expressions.len());
        assert(names.len() == search_vars_names.len());
        if search_vars_names.len() > expressions.len() {
            return Err(EvalError::UnderdeterminedSystem);
        }
        let combinations = if search_vars_names.len() < expressions.len() {
            generate_combinations(
                range_list(expressions.len()),
                search_vars_names.len(),
                Vec::new(),
            )
        } else {
            let mut all: Vec<Vec<usize>> = Vec::new();
            all.push(range_list(expressions.len()));
            assert(indices_view(all@) =~= seq![range(expressions.len() as nat)]);
            all
        };
        let finder = RootFinder {
            expressions,
            combinations,
            context,
            search_vars_names,
            combination: 0,
            start: FIRST_START,
            steps: 0,
            point: Vec::new(),
            roots: Vec::new(),
            phase: Phase::ProbeValue,
        };
        assert(values_view(finder.roots@) =~= Seq::empty());
        Ok(finder)
    }

    /// The outcome, once the solver is done.
    pub fn outcome(&self) -> (res: Option<Result<Vec<Value>, EvalError>>)
        ensures
            crate::calculus::reply_view(res) == self@.outcome(),
    {
        match &self.phase {
            Phase::Done(Ok(values)) => Some(Ok(clone_values(values))),
            Phase::Done(Err(e)) => Some(Err(e.clone())),
            _ => None,
        }
    }

    fn search_list(&self) -> (res: Vec<AST>)
        ensures
            asts_view(res@) == self@.search(),
    {
        if self.combination < self.combinations.len() {
            assert(indices_view(self.combinations@)[self.combination as int]
                == self.combinations@[self.combination as int]@);
            picked_list(&self.expressions, &self.combinations[self.combination])
        } else {
            let none: Vec<AST> = Vec::new();
            assert(asts_view(none@) =~= Seq::empty());
            none
        }
    }

    fn check_list(&self) -> (res: Vec<AST>)
        ensures
            asts_view(res@) == self@.check(),
    {
        if self.combination < self.combinations.len() {
            assert(indices_view(self.combinations@)[self.combination as int]
                == self.combinations@[self.combination as int]@);
            left_over_list(&self.expressions, &self.combinations[self.combination])
        } else {
            let none: Vec<AST> = Vec::new();
            assert(asts_view(none@) =~= Seq::empty());
            none
        }
    }

    fn at_point(&self) -> (res: Context)
        ensures
            res@ == self@.at_point(),
    {
        context_at(&self.context, &self.search_vars_names, &self.point)
    }

    /// What the host is asked for in this state, if anything.
    pub fn question(&self) -> (res: Option<Question>)
        ensures
            question_view(res) == self@.question(),
    {
        match &self.phase {
            Phase::ProbeValue => Some(
                Question::Evaluate(
                    Evaluate {
                        ast: AST::Scalar(String::from_str("8.21785")),
                        context: empty_context(),
                    },
                ),
            ),
            Phase::Probe { value, index } => {
                assert(asts_view(self.expressions@).len() == self.expressions.len());
                if *index < self.expressions.len() {
                    assert(asts_view(self.expressions@)[*index as int]
                        == self.expressions@[*index as int]@);
                    Some(
                        Question::Evaluate(
                            Evaluate {
                                ast: self.expressions[*index].clone(),
                                context: context_of_probe(
                                    &self.context,
                                    &self.search_vars_names,
                                    value,
                                ),
                            },
                        ),
                    )
                } else {
                    None
                }
            },
            Phase::StartValue => Some(
                Question::Evaluate(
                    Evaluate {
                        ast: AST::Scalar(integer(self.start)),
                        context: empty_context(),
                    },
                ),
            ),
            Phase::Residual { done } => {
                let search = self.search_list();
                assert(asts_view(search@).len() == search.len());
                if done.len() < search.len() {
                    assert(asts_view(search@)[done.len() as int] == search@[done.len() as int]@);
                    Some(
                        Question::Evaluate(
                            Evaluate { ast: search[done.len()].clone(), context: self.at_point() },
                        ),
                    )
                } else {
                    None
                }
            },
            Phase::Norm { residual } => Some(Question::Evaluate(norm_question(residual))),
            Phase::Check { done } => {
                let check = self.check_list();
                assert(asts_view(check@).len() == check.len());
                if done.len() < check.len() {
                    assert(asts_view(check@)[done.len() as int] == check@[done.len() as int]@);
                    Some(
                        Question::Evaluate(
                            Evaluate { ast: check[done.len()].clone(), context: self.at_point() },
                        ),
                    )
                } else {
                    None
                }
            },
            Phase::CheckNorm { values } => Some(Question::Evaluate(norm_question(values))),
            Phase::Slope { residual, rows, row } => {
                let search = self.search_list();
                assert(asts_view(search@).len() == search.len());
                assert(numbers_view(rows@).len() == rows.len());
                assert(names_view(self.search_vars_names@).len() == self.search_vars_names.len());
                if rows.len() < search.len() && row.len() < self.search_vars_names.len() {
                    assert(asts_view(search@)[rows.len() as int] == search@[rows.len() as int]@);
                    assert(names_view(self.search_vars_names@)[row.len() as int]
                        == self.search_vars_names@[row.len() as int]@);
                    Some(
                        Question::Differentiate {
                            expr: search[rows.len()].clone(),
                            in_terms_of: self.search_vars_names[row.len()].clone(),
                            at: Value::Scalar(number_in(&self.point, row.len())),
                            known: Value::Scalar(number_in(residual, rows.len())),
                            context: Context {
                                vars: variables_with_others(
                                    &self.context.vars,
                                    &self.search_vars_names,
                                    &self.point,
                                    row.len(),
                                ),
                                funs: clone_functions(&self.context.funs),
                            },
                        },
                    )
                } else {
                    None
                }
            },
            Phase::Improve { residual, slopes } => Some(
                Question::Improve {
                    slopes: crate::basetypes::clone_numbers(slopes),
                    residual: residual.clone(),
                    point: self.point.clone(),
                },
            ),
            Phase::Round { rounded } => {
                assert(values_view(rounded@).len() == rounded.len());
                assert(values_view(self.roots@).len() == self.roots.len());
                if rounded.len() < self.roots.len() {
                    assert(values_view(self.roots@)[rounded.len() as int]
                        == self.roots@[rounded.len() as int]@);
                    Some(
                        Question::Round {
                            value: self.roots[rounded.len()].clone(),
                            digits: ROOT_DIGITS,
                        },
                    )
                } else {
                    None
                }
            },
            _ => None,
        }
    }

    fn phase(self, phase: Phase) -> (res: RootFinder)
        ensures
            res@ == self@.phase(phase@),
    {
        RootFinder {
            expressions: self.expressions,
            combinations: self.combinations,
            context: self.context,
            search_vars_names: self.search_vars_names,
            combination: self.combination,
            start: self.start,
            steps: self.steps,
            point: self.point,
            roots: self.roots,
            phase,
        }
    }

    fn fail(self, error: EvalError) -> (res: RootFinder)
        ensures
            res@ == self@.fail(error@),
    {
        self.phase(Phase::Done(Err(error)))
    }

    fn probe(self, value: Value, index: usize) -> (res: RootFinder)
        ensures
            res@ == self@.probe(value@, index as nat),
    {
        assert(asts_view(self.expressions@).len() == self.expressions.len());
        if index >= self.expressions.len() {
            self.take_choice(0)
        } else {
            self.phase(Phase::Probe { value, index })
        }
    }

    fn take_choice(self, combination: usize) -> (res: RootFinder)
        ensures
            res@ == self@.take_choice(combination as nat),
        decreases self.combinations.len() - combination, 2nat,
    {
        assert(indices_view(self.combinations@).len() == self.combinations.len());
        if combination >= self.combinations.len() {
            self.phase(Phase::Done(Ok(no_values())))
        } else {
            let chosen = RootFinder {
                expressions: self.expressions,
                combinations: self.combinations,
                context: self.context,
                search_vars_names: self.search_vars_names,
                combination,
                start: self.start,
                steps: self.steps,
                point: self.point,
                roots: no_values(),
                phase: self.phase,
            };
            chosen.begin(FIRST_START)
        }
    }

    fn begin(self, start: i64) -> (res: RootFinder)
        ensures
            res@ == self@.begin(start as int),
        decreases self.combinations.len() - self.combination, 1nat,
    {
        if start >= END_START {
            let ended = RootFinder {
                expressions: self.expressions,
                combinations: self.combinations,
                context: self.context,
                search_vars_names: self.search_vars_names,
                combination: self.combination,
                start,
                steps: self.steps,
                point: self.point,
                roots: self.roots,
                phase: self.phase,
            };
            ended.round(no_values())
        } else {
            RootFinder {
                expressions: self.expressions,
                combinations: self.combinations,
                context: self.context,
                search_vars_names: self.search_vars_names,
                combination: self.combination,
                start,
                steps: 0,
                point: self.point,
                roots: self.roots,
                phase: Phase::StartValue,
            }
        }
    }

    fn round(self, rounded: Vec<Value>) -> (res: RootFinder)
        ensures
            res@ == self@.round(values_view(rounded@)),
        decreases self.combinations.len() - self.combination, 0nat,
    {
        assert(values_view(rounded@).len() == rounded.len());
        assert(values_view(self.roots@).len() == self.roots.len());
        assert(indices_view(self.combinations@).len() == self.combinations.len());
        if rounded.len() >= self.roots.len() {
            let cleaned = clean_results(&self.roots, &rounded);
            assert(values_view(cleaned@).len() == cleaned.len());
            if cleaned.len() > 0 {
                self.phase(Phase::Done(Ok(cleaned)))
            } else if self.combination < self.combinations.len() {
                let next = self.combination + 1;
                self.take_choice(next)
            } else {
                self.phase(Phase::Done(Ok(no_values())))
            }
        } else {
            self.phase(Phase::Round { rounded })
        }
    }

    fn next_start(self) -> (res: RootFinder)
        ensures
            res@ == self@.next_start(),
    {
        let next = if self.start < END_START {
            self.start + 1
        } else {
            END_START
        };
        self.begin(next)
    }

    fn residual(self, done: Vec<u64>) -> (res: RootFinder)
        ensures
            res@ == self@.residual(done@),
    {
        let search = self.search_list();
        assert(asts_view(search@).len() == search.len());
        if done.len() >= search.len() {
            self.phase(Phase::Norm { residual: done })
        } else {
            self.phase(Phase::Residual { done })
        }
    }

    fn accept(self) -> (res: RootFinder)
        ensures
            res@ == self@.accept(),
    {
        let root = root_value(&self.point);
        let mut roots = self.roots;
        let ghost before = values_view(roots@);
        roots.push(root);
        assert(values_view(roots@) =~= before.push(root@));
        let grown = RootFinder {
            expressions: self.expressions,
            combinations: self.combinations,
            context: self.context,
            search_vars_names: self.search_vars_names,
            combination: self.combination,
            start: self.start,
            steps: self.steps,
            point: self.point,
            roots,
            phase: self.phase,
        };
        grown.next_start()
    }

    fn checks(self, done: Vec<u64>) -> (res: RootFinder)
        ensures
            res@ == self@.checks(done@),
    {
        let check = self.check_list();
        assert(asts_view(check@).len() == check.len());
        if done.len() >= check.len() {
            if check.len() == 0 {
                self.accept()
            } else {
                self.phase(Phase::CheckNorm { values: done })
            }
        } else {
            self.phase(Phase::Check { done })
        }
    }

    fn slopes(self, residual: Vec<u64>, rows: Vec<Vec<u64>>, row: Vec<u64>) -> (res: RootFinder)
        ensures
            res@ == self@.slopes(residual@, numbers_view(rows@), row@),
    {
        let search = self.search_list();
        let ghost first_rows = numbers_view(rows@);
        let ghost first_row = row@;
        let mut rows = rows;
        let mut row = row;
        assert(asts_view(search@).len() == search.len());
        assert(names_view(self.search_vars_names@).len() == self.search_vars_names.len());
        while rows.len() < search.len() && row.len() >= self.search_vars_names.len()
            invariant
                search.len() == self@.search().len(),
                names_view(self.search_vars_names@).len() == self.search_vars_names.len(),
                self@.slopes(residual@, numbers_view(rows@), row@) == self@.slopes(
                    residual@,
                    first_rows,
                    first_row,
                ),
            decreases search.len() - rows.len(),
        {
            let ghost before = numbers_view(rows@);
            assert(before.len() == rows.len());
            rows.push(row);
            assert(numbers_view(rows@) =~= before.push(row@));
            row = no_numbers();
        }
        assert(numbers_view(rows@).len() == rows.len());
        if rows.len() >= search.len() {
            self.phase(Phase::Improve { residual, slopes: rows })
        } else {
            self.phase(Phase::Slope { residual, rows, row })
        }
    }

    fn stumble(self, error: EvalError) -> (res: RootFinder)
        ensures
            res@ == self@.stumble(error@),
    {
        match error {
            EvalError::InfiniteSolutions => self.round(no_values()),
            EvalError::NaNOrInf => self.next_start(),
            EvalError::ExpressionCheckFailed => self.next_start(),
            other => self.fail(other),
        }
    }

    /// Whether the answer answers the question that is out.
    fn accepts(&self, answer: &Answer) -> (b: bool)
        ensures
            b == self@.accepts(answer@),
    {
        match (&self.phase, answer) {
            (Phase::ProbeValue, Answer::Evaluated(_)) => true,
            (Phase::Probe { .. }, Answer::Evaluated(_)) => true,
            (Phase::StartValue, Answer::Evaluated(_)) => true,
            (Phase::Residual { .. }, Answer::Evaluated(_)) => true,
            (Phase::Norm { .. }, Answer::Evaluated(_)) => true,
            (Phase::Check { .. }, Answer::Evaluated(_)) => true,
            (Phase::CheckNorm { .. }, Answer::Evaluated(_)) => true,
            (Phase::Slope { .. }, Answer::Evaluated(_)) => true,
            (Phase::Improve { .. }, Answer::Point(_)) => true,
            (Phase::Round { .. }, Answer::Rounded(_)) => true,
            _ => false,
        }
    }

    fn with_point(self, point: Vec<u64>, steps: usize) -> (res: RootFinder)
        ensures
            res@ == (FinderView { point: point@, steps: steps as nat, ..self@ }),
    {
        RootFinder {
            expressions: self.expressions,
            combinations: self.combinations,
            context: self.context,
            search_vars_names: self.search_vars_names,
            combination: self.combination,
            start: self.start,
            steps,
            point,
            roots: self.roots,
            phase: self.phase,
        }
    }

    fn resume(self, answer: Answer) -> (res: RootFinder)
        requires
            self@.accepts(answer@),
        ensures
            res@ == self@.resume(answer@),
    {
        let RootFinder {
            expressions,
            combinations,
            context,
            search_vars_names,
            combination,
            start,
            steps,
            point,
            roots,
            phase,
        } = self;
        let idle = RootFinder {
            expressions,
            combinations,
            context,
            search_vars_names,
            combination,
            start,
            steps,
            point,
            roots,
            phase: Phase::ProbeValue,
        };
        match (phase, answer) {
            (Phase::ProbeValue, Answer::Evaluated(Ok(values))) => {
                assert(values_view(values@).len() == values.len());
                let value = if values.len() > 0 {
                    assert(values_view(values@)[0] == values@[0]@);
                    values[0].clone()
                } else {
                    Value::Scalar(ZERO_BITS)
                };
                idle.probe(value, 0)
            },
            (Phase::ProbeValue, Answer::Evaluated(Err(error))) => idle.fail(error),
            (Phase::Probe { value, index }, Answer::Evaluated(Ok(values))) => {
                assert(values_view(values@).len() == values.len());
                let kind: u8 = if values.len() > 0 {
                    assert(values_view(values@)[0] == values@[0]@);
                    match &values[0] {
                        Value::Vector(_) => 1,
                        Value::Matrix(_) => 2,
                        Value::Scalar(_) => 0,
                    }
                } else {
                    0
                };
                if kind == 1 {
                    idle.fail(EvalError::VectorInEq)
                } else if kind == 2 {
                    idle.fail(EvalError::MatrixInEq)
                } else if index < usize::MAX {
                    idle.probe(value, index + 1)
                } else {
                    assert(asts_view(idle.expressions@).len() == idle.expressions.len());
                    idle.take_choice(0)
                }
            },
            (Phase::Probe { value, index }, Answer::Evaluated(Err(error))) => idle.fail(error),
            (Phase::StartValue, Answer::Evaluated(Ok(values))) => {
                assert(values_view(values@).len() == values.len());
                let first: Option<u64> = if values.len() > 0 {
                    assert(values_view(values@)[0] == values@[0]@);
                    match &values[0] {
                        Value::Scalar(s) => Some(*s),
                        _ => None,
                    }
                } else {
                    None
                };
                match first {
                    Some(number) => {
                        assert(names_view(idle.search_vars_names@).len()
                            == idle.search_vars_names.len());
                        let point = uniform_point(number, idle.search_vars_names.len());
                        let steps = idle.steps;
                        idle.with_point(point, steps).residual(no_numbers())
                    },
                    None => idle.next_start(),
                }
            },
            (Phase::StartValue, Answer::Evaluated(Err(error))) => idle.stumble(error),
            (Phase::Residual { done }, Answer::Evaluated(Ok(values))) => {
                match number_from(&values) {
                    Err(error) => idle.stumble(error),
                    Ok(number) => idle.residual(with_number(done, number)),
                }
            },
            (Phase::Check { done }, Answer::Evaluated(Ok(values))) => match number_from(&values) {
                Err(error) => idle.stumble(error),
                Ok(number) => idle.checks(with_number(done, number)),
            },
            (Phase::Slope { residual, rows, row }, Answer::Evaluated(Ok(values))) => {
                match number_from(&values) {
                    Err(error) => idle.stumble(error),
                    Ok(number) => idle.slopes(residual, rows, with_number(row, number)),
                }
            },
            (Phase::Norm { residual }, Answer::Evaluated(Ok(values))) => {
                match number_from(&values) {
                    Err(error) => idle.stumble(error),
                    Ok(norm) => if is_within_tolerance(norm) {
                        idle.checks(no_numbers())
                    } else {
                        idle.slopes(residual, no_rows(), no_numbers())
                    },
                }
            },
            (Phase::CheckNorm { values: checked }, Answer::Evaluated(Ok(values))) => {
                match number_from(&values) {
                    Err(error) => idle.stumble(error),
                    Ok(norm) => if is_within_tolerance(norm) {
                        idle.accept()
                    } else {
                        idle.next_start()
                    },
                }
            },
            (Phase::Residual { .. }, Answer::Evaluated(Err(error))) => idle.stumble(error),
            (Phase::Check { .. }, Answer::Evaluated(Err(error))) => idle.stumble(error),
            (Phase::Slope { .. }, Answer::Evaluated(Err(error))) => idle.stumble(error),
            (Phase::Norm { .. }, Answer::Evaluated(Err(error))) => idle.stumble(error),
            (Phase::CheckNorm { .. }, Answer::Evaluated(Err(error))) => idle.stumble(error),
            (Phase::Improve { residual, slopes }, Answer::Point(Ok(point))) => {
                if any_inf_or_nan(&point) {
                    idle.next_start()
                } else if idle.steps >= MOST_STEPS - 1 {
                    let steps = idle.steps;
                    idle.with_point(point, steps).next_start()
                } else {
                    let steps = idle.steps + 1;
                    idle.with_point(point, steps).residual(no_numbers())
                }
            },
            (Phase::Improve { residual, slopes }, Answer::Point(Err(error))) => idle.stumble(error),
            (Phase::Round { rounded }, Answer::Rounded(value)) => {
                let mut rounded = rounded;
                let ghost before = values_view(rounded@);
                rounded.push(value);
                assert(values_view(rounded@) =~= before.push(value@));
                idle.round(rounded)
            },
            (phase, _) => idle.phase(phase),
        }
    }

    /// One step of the machine (see [`FinderView::next`]). The question that
    /// comes back is the one that the new state waits for, if it waits.
    pub fn step(self, answer: Option<Answer>) -> (res: (RootFinder, Option<Question>))
        ensures
            res.0@ == self@.next(answer_view(answer)),
            question_view(res.1) == res.0@.question(),
    {
        let done = match &self.phase {
            Phase::Done(_) => true,
            _ => false,
        };
        let next = if done {
            self
        } else {
            match answer {
                Some(a) => if self.accepts(&a) {
                    self.resume(a)
                } else {
                    self
                },
                None => self,
            }
        };
        let question = next.question();
        (next, question)
    }
}

} // verus!
