//! The evaluator: the machine of [`crate::semantics`], as a program.
//!
//! A host creates an [`Evaluation`], calls [`Evaluation::step`] until
//! [`Evaluation::outcome`] gives the outcome, and answers every request that a
//! step returns before it makes the next step.

use crate::basetypes::{
    asts_view, choices_view, clone_asts, clone_functions, clone_values, clone_variables,
    functions_view, lemma_ast_view, lemma_equation_view, lemma_operation_view, names_view,
    numbers_view, pairs_view, rows_view, text_eq, values_view, variables_view, AdvancedOperation,
    AstView, Context, Function, Operation, SimpleOpType, Value, ValueView, Values, Variable,
    VariableView, AST,
};
use crate::errors::{EvalError, EvalErrorView, QuickEvalError, QuickEvalErrorView};
use crate::grammar::parse_spec;
use crate::helpers::{
    cart_prod, combinations, index_choices, lemma_index_choices, lengths, lists_view, pick,
};
use crate::parser::parse;
use crate::semantics::{
    absorb, body_scope, defects, find_function, has_name, lefts_of, lookup, matrices_of,
    pairs_of, parameters, primitive, row_start, scalars_of, shadowed, singles_of, table_of,
    vectors_of, EvaluationView, FocusView, FrameView, Outcome, PendingView, ReplyView,
    RequestView,
};
use vstd::prelude::*;

verus! {

/// What a node waits for while its operands are evaluated, and what it has
/// gathered of them so far.
pub enum Pending {
    Vector { fields: Vec<Vec<u64>> },
    Matrix { widths: Vec<usize>, fields: Vec<Vec<u64>> },
    List { outcomes: Vec<Value> },
    Call { function: Function, arguments: Vec<Vec<Value>> },
    Simple { op_type: SimpleOpType, operands: Vec<Vec<Value>> },
    Integral { expr: AST, in_terms_of: String, bounds: Vec<Vec<Value>> },
    Derivative { expr: AST, in_terms_of: String, points: Vec<Vec<Value>> },
}

/// A node that waits for the outcomes of a tree below it.
pub enum Frame {
    Gather { pending: Pending, rest: Vec<AST> },
    Calls {
        function: Function,
        choices: Vec<Vec<Value>>,
        results: Vec<Value>,
        caller_vars: Vec<Variable>,
        caller_guard: String,
    },
}

/// What the machine does next.
pub enum Focus {
    Descend(AST),
    Ascend(Vec<Value>),
    Number { text: String },
    Apply {
        op_type: SimpleOpType,
        left: Value,
        right: Value,
        second: bool,
        rest: Vec<(Value, Value)>,
        results: Vec<Value>,
    },
    Integrate {
        expr: AST,
        in_terms_of: String,
        lower: Value,
        upper: Value,
        rest: Vec<(Value, Value)>,
        results: Vec<Value>,
    },
    Differentiate {
        expr: AST,
        in_terms_of: String,
        at: Value,
        points: Vec<Value>,
        results: Vec<Value>,
    },
    Solve { expressions: Vec<AST>, search_vars: Vec<String> },
    Done(Result<Vec<Value>, EvalError>),
}

/// What an evaluation asks of its host.
#[derive(Debug, PartialEq)]
pub enum Request {
    /// The number that the numeral writes, as the bits of a binary64. The
    /// text is a numeral wherever the tree came out of the parser.
    Number { text: String },
    /// The result of a primitive on two values. A primitive with one operand
    /// gets both values and uses the one on its side: `-a` the right one,
    /// every function the left one.
    Apply { op_type: SimpleOpType, left: Value, right: Value },
    /// The integral of `expr` over `in_terms_of` from `lower` to `upper`.
    Integrate { expr: AST, in_terms_of: String, lower: Value, upper: Value, context: Context },
    /// The derivative of `expr` by `in_terms_of` at `at`.
    Differentiate { expr: AST, in_terms_of: String, at: Value, context: Context },
    /// The common roots of the expressions in the unknowns.
    Solve { expressions: Vec<AST>, search_vars: Vec<String>, context: Context },
}

/// What a host hands in.
#[derive(Debug, PartialEq)]
pub enum Reply {
    Number(u64),
    Applied(Result<Vec<Value>, String>),
    Evaluated(Result<Vec<Value>, EvalError>),
}

/// The state of an evaluation.
pub struct Evaluation {
    vars: Vec<Variable>,
    funs: Vec<Function>,
    guard: String,
    stack: Vec<Frame>,
    focus: Focus,
}

/// The widths of a table, as numbers.
pub open spec fn widths_view(widths: Seq<usize>) -> Seq<nat> {
    widths.map_values(|w: usize| w as nat)
}

/// The views of a list of pairs of values.
pub open spec fn value_pairs_view(pairs: Seq<(Value, Value)>) -> Seq<(ValueView, ValueView)> {
    pairs.map_values(|p: (Value, Value)| (p.0@, p.1@))
}

/// What an evaluation returned, mathematically.
pub open spec fn outcome_view(r: Result<Vec<Value>, EvalError>) -> Outcome {
    match r {
        Ok(values) => Ok(values_view(values@)),
        Err(e) => Err(e@),
    }
}

impl View for Pending {
    type V = PendingView;

    open spec fn view(&self) -> PendingView {
        match self {
            Pending::Vector { fields } => PendingView::Vector { fields: numbers_view(fields@) },
            Pending::Matrix { widths, fields } => PendingView::Matrix {
                widths: widths_view(widths@),
                fields: numbers_view(fields@),
            },
            Pending::List { outcomes } => PendingView::List { outcomes: values_view(outcomes@) },
            Pending::Call { function, arguments } => PendingView::Call {
                function: function@,
                arguments: choices_view(arguments@),
            },
            Pending::Simple { op_type, operands } => PendingView::Simple {
                op_type: *op_type,
                operands: choices_view(operands@),
            },
            Pending::Integral { expr, in_terms_of, bounds } => PendingView::Integral {
                expr: expr@,
                in_terms_of: in_terms_of@,
                bounds: choices_view(bounds@),
            },
            Pending::Derivative { expr, in_terms_of, points } => PendingView::Derivative {
                expr: expr@,
                in_terms_of: in_terms_of@,
                points: choices_view(points@),
            },
        }
    }
}

impl View for Frame {
    type V = FrameView;

    open spec fn view(&self) -> FrameView {
        match self {
            Frame::Gather { pending, rest } => FrameView::Gather {
                pending: pending@,
                rest: asts_view(rest@),
            },
            Frame::Calls { function, choices, results, caller_vars, caller_guard } => {
                FrameView::Calls {
                    function: function@,
                    choices: choices_view(choices@),
                    results: values_view(results@),
                    caller_vars: variables_view(caller_vars@),
                    caller_guard: caller_guard@,
                }
            },
        }
    }
}

impl View for Focus {
    type V = FocusView;

    open spec fn view(&self) -> FocusView {
        match self {
            Focus::Descend(ast) => FocusView::Descend(ast@),
            Focus::Ascend(values) => FocusView::Ascend(values_view(values@)),
            Focus::Number { text } => FocusView::Number { text: text@ },
            Focus::Apply { op_type, left, right, second, rest, results } => FocusView::Apply {
                op_type: *op_type,
                left: left@,
                right: right@,
                second: *second,
                rest: value_pairs_view(rest@),
                results: values_view(results@),
            },
            Focus::Integrate { expr, in_terms_of, lower, upper, rest, results } => {
                FocusView::Integrate {
                    expr: expr@,
                    in_terms_of: in_terms_of@,
                    lower: lower@,
                    upper: upper@,
                    rest: value_pairs_view(rest@),
                    results: values_view(results@),
                }
            },
            Focus::Differentiate { expr, in_terms_of, at, points, results } => {
                FocusView::Differentiate {
                    expr: expr@,
                    in_terms_of: in_terms_of@,
                    at: at@,
                    points: values_view(points@),
                    results: values_view(results@),
                }
            },
            Focus::Solve { expressions, search_vars } => FocusView::Solve {
                expressions: asts_view(expressions@),
                search_vars: names_view(search_vars@),
            },
            Focus::Done(outcome) => FocusView::Done(outcome_view(*outcome)),
        }
    }
}

impl View for Request {
    type V = RequestView;

    open spec fn view(&self) -> RequestView {
        match self {
            Request::Number { text } => RequestView::Number { text: text@ },
            Request::Apply { op_type, left, right } => RequestView::Apply {
                op_type: *op_type,
                left: left@,
                right: right@,
            },
            Request::Integrate { expr, in_terms_of, lower, upper, context } => {
                RequestView::Integrate {
                    expr: expr@,
                    in_terms_of: in_terms_of@,
                    lower: lower@,
                    upper: upper@,
                    context: context@,
                }
            },
            Request::Differentiate { expr, in_terms_of, at, context } => {
                RequestView::Differentiate {
                    expr: expr@,
                    in_terms_of: in_terms_of@,
                    at: at@,
                    context: context@,
                }
            },
            Request::Solve { expressions, search_vars, context } => RequestView::Solve {
                expressions: asts_view(expressions@),
                search_vars: names_view(search_vars@),
                context: context@,
            },
        }
    }
}

impl View for Reply {
    type V = ReplyView;

    open spec fn view(&self) -> ReplyView {
        match self {
            Reply::Number(bits) => ReplyView::Number(*bits),
            Reply::Applied(applied) => ReplyView::Applied(
                match applied {
                    Ok(values) => Ok(values_view(values@)),
                    Err(message) => Err(message@),
                },
            ),
            Reply::Evaluated(evaluated) => ReplyView::Evaluated(outcome_view(*evaluated)),
        }
    }
}

/// The views of a stack of frames.
pub open spec fn stack_view(stack: Seq<Frame>) -> Seq<FrameView> {
    stack.map_values(|f: Frame| f@)
}

impl View for Evaluation {
    type V = EvaluationView;

    closed spec fn view(&self) -> EvaluationView {
        EvaluationView {
            vars: variables_view(self.vars@),
            funs: functions_view(self.funs@),
            guard: self.guard@,
            stack: stack_view(self.stack@),
            focus: self.focus@,
        }
    }
}

/// What a reply is, if one was handed in.
pub open spec fn reply_view(reply: Option<Reply>) -> Option<ReplyView> {
    match reply {
        Some(r) => Some(r@),
        None => None,
    }
}

/// What a request is, if one was made.
pub open spec fn request_view(request: Option<Request>) -> Option<RequestView> {
    match request {
        Some(r) => Some(r@),
        None => None,
    }
}

// Values

/// The numbers of a list of values that are all numbers.
fn scalars(values: &Vec<Value>) -> (res: Option<Vec<u64>>)
    ensures
        match res {
            Some(numbers) => scalars_of(values_view(values@)) == Some(numbers@),
            None => scalars_of(values_view(values@)) is None,
        },
{
    let mut numbers: Vec<u64> = Vec::new();
    let mut i: usize = 0;
    while i < values.len()
        invariant
            i <= values.len(),
            numbers.len() == i,
            forall|k: int| 0 <= k < i ==> #[trigger] values_view(values@)[k] is Scalar,
            forall|k: int| 0 <= k < i ==> numbers@[k] == values_view(values@)[k]->Scalar_0,
        decreases values.len() - i,
    {
        assert(values_view(values@)[i as int] == values@[i as int]@);
        match &values[i] {
            Value::Scalar(bits) => {
                numbers.push(*bits);
            },
            _ => {
                assert(!(values_view(values@)[i as int] is Scalar));
                return None;
            },
        }
        i = i + 1;
    }
    assert(numbers@ =~= values_view(values@).map_values(|v: ValueView| v->Scalar_0));
    Some(numbers)
}

/// All ways to pick one number from each list.
fn number_choices(fields: &Vec<Vec<u64>>) -> (res: Vec<Vec<u64>>)
    ensures
        numbers_view(res@) == combinations(numbers_view(fields@)),
{
    let res = cart_prod(fields);
    proof {
        let lists = lists_view(fields@);
        assert(lists =~= numbers_view(fields@));
        let want = combinations(lists);
        lemma_index_choices(lengths(lists));
        assert(numbers_view(res@).len() == want.len());
        assert forall|k: int| 0 <= k < want.len() implies numbers_view(res@)[k] =~= want[k] by {
            assert(numbers_view(res@)[k] == res@[k]@);
            assert(want[k] == pick(lists, index_choices(lengths(lists))[k]));
            assert forall|p: int| 0 <= p < fields.len() implies res@[k]@[p] == want[k][p] by {
                assert(cloned::<u64>(want[k][p], res@[k]@[p]));
            }
        }
        assert(numbers_view(res@) =~= want);
    }
    res
}

/// All ways to pick one value from each list.
fn value_choices(lists: &Vec<Vec<Value>>) -> (res: Vec<Vec<Value>>)
    ensures
        choices_view(res@) == combinations(choices_view(lists@)),
{
    let res = cart_prod(lists);
    proof {
        let held = lists_view(lists@);
        let seen = choices_view(lists@);
        assert(lengths(held) =~= lengths(seen)) by {
            assert forall|p: int| 0 <= p < lists.len() implies lengths(held)[p] == lengths(
                seen,
            )[p] by {
                assert(held[p] == lists@[p]@);
                assert(seen[p] == values_view(lists@[p]@));
            }
        }
        let want = combinations(seen);
        lemma_index_choices(lengths(held));
        assert(choices_view(res@).len() == want.len());
        assert forall|k: int| 0 <= k < want.len() implies choices_view(res@)[k] =~= want[k] by {
            let choice = index_choices(lengths(held))[k];
            assert(choices_view(res@)[k] == values_view(res@[k]@));
            assert(want[k] == pick(seen, choice));
            assert(combinations(held)[k] == pick(held, choice));
            assert forall|p: int| 0 <= p < lists.len() implies values_view(res@[k]@)[p]
                == want[k][p] by {
                assert(cloned::<Value>(combinations(held)[k][p], res@[k]@[p]));
                assert(held[p] == lists@[p]@);
                assert(seen[p] == values_view(lists@[p]@));
                assert(0 <= choice[p] < lengths(held)[p]);
                assert(seen[p][choice[p]] == held[p][choice[p]]@);
            }
        }
        assert(choices_view(res@) =~= want);
    }
    res
}

/// The vectors that the choices of numbers make.
fn vectors(choices: Vec<Vec<u64>>) -> (res: Vec<Value>)
    ensures
        values_view(res@) == vectors_of(numbers_view(choices@)),
{
    let mut res: Vec<Value> = Vec::new();
    let mut i: usize = 0;
    while i < choices.len()
        invariant
            i <= choices.len(),
            res.len() == i,
            forall|k: int| 0 <= k < i ==> (#[trigger] res@[k])@ == ValueView::Vector(choices@[k]@),
        decreases choices.len() - i,
    {
        let copy = choices[i].clone();
        assert(copy@ =~= choices@[i as int]@);
        res.push(Value::Vector(copy));
        i = i + 1;
    }
    assert(values_view(res@) =~= vectors_of(numbers_view(choices@)));
    res
}

/// A row starts at most as many full rows behind the start as stand before
/// it.
pub proof fn lemma_row_start_bound(widths: Seq<nat>, r: int, limit: nat)
    requires
        0 <= r <= widths.len(),
        forall|k: int| 0 <= k < widths.len() ==> #[trigger] widths[k] <= limit,
    ensures
        0 <= row_start(widths, r) <= r * limit,
    decreases r,
{
    if r > 0 {
        lemma_row_start_bound(widths, r - 1, limit);
        assert((r - 1) * limit + limit == r * limit) by (nonlinear_arith);
    }
}

/// The table with rows of the given widths that a row-major list of numbers
/// fills.
fn table(widths: &Vec<usize>, cells: &Vec<u64>) -> (res: Vec<Vec<u64>>)
    ensures
        numbers_view(res@) == table_of(widths_view(widths@), cells@),
{
    let mut res: Vec<Vec<u64>> = Vec::new();
    let ghost all = widths_view(widths@);
    let mut start: u128 = 0;
    let mut r: usize = 0;
    while r < widths.len()
        invariant
            r <= widths.len(),
            res.len() == r,
            all == widths_view(widths@),
            start == row_start(all, r as int),
            forall|k: int| 0 <= k < r ==> (#[trigger] res@[k])@ == table_of(all, cells@)[k],
        decreases widths.len() - r,
    {
        proof {
            assert forall|k: int| 0 <= k < all.len() implies #[trigger] all[k]
                <= usize::MAX as nat by {}
            lemma_row_start_bound(all, r as int, usize::MAX as nat);
            lemma_row_start_bound(all, r + 1, usize::MAX as nat);
            assert(all[r as int] == widths@[r as int]);
            assert((r + 1) * (usize::MAX as nat) <= 0xFFFF_FFFF_FFFF_FFFF
                * 0xFFFF_FFFF_FFFF_FFFF) by (nonlinear_arith)
                requires
                    0 <= r + 1 <= 0xFFFF_FFFF_FFFF_FFFF,
                    usize::MAX <= 0xFFFF_FFFF_FFFF_FFFF,
            ;
        }
        let width = widths[r];
        let mut row: Vec<u64> = Vec::new();
        let mut c: usize = 0;
        while c < width
            invariant
                c <= width,
                start + width <= u128::MAX,
                row.len() == c,
                forall|k: int|
                    0 <= k < c ==> #[trigger] row@[k] == (if start + k < cells.len() {
                        cells@[start + k]
                    } else {
                        0
                    }),
            decreases width - c,
        {
            let at: u128 = start + (c as u128);
            let cell = if at < cells.len() as u128 {
                cells[at as usize]
            } else {
                0
            };
            row.push(cell);
            c = c + 1;
        }
        assert(row@ =~= table_of(all, cells@)[r as int]);
        res.push(row);
        start = start + (width as u128);
        r = r + 1;
    }
    assert(all.len() == widths.len());
    assert(numbers_view(res@) =~= table_of(all, cells@));
    res
}

/// The matrices that the choices of numbers make.
fn matrices(widths: &Vec<usize>, choices: &Vec<Vec<u64>>) -> (res: Vec<Value>)
    ensures
        values_view(res@) == matrices_of(widths_view(widths@), numbers_view(choices@)),
{
    let mut res: Vec<Value> = Vec::new();
    let mut i: usize = 0;
    while i < choices.len()
        invariant
            i <= choices.len(),
            res.len() == i,
            forall|k: int|
                0 <= k < i ==> (#[trigger] res@[k])@ == ValueView::Matrix(
                    table_of(widths_view(widths@), choices@[k]@),
                ),
        decreases choices.len() - i,
    {
        res.push(Value::Matrix(table(widths, &choices[i])));
        i = i + 1;
    }
    assert(values_view(res@) =~= matrices_of(widths_view(widths@), numbers_view(choices@)));
    res
}

/// The choices that have two operands, as pairs.
fn pairs(choices: &Vec<Vec<Value>>) -> (res: Vec<(Value, Value)>)
    ensures
        value_pairs_view(res@) == pairs_of(choices_view(choices@)),
{
    let mut res: Vec<(Value, Value)> = Vec::new();
    let ghost two = |c: Seq<ValueView>| c.len() == 2;
    let ghost pair = |c: Seq<ValueView>| (c[0], c[1]);
    let mut i: usize = 0;
    proof {
        assert(choices_view(choices@).take(0) =~= Seq::empty());
        assert(value_pairs_view(res@) =~= Seq::empty());
    }
    while i < choices.len()
        invariant
            i <= choices.len(),
            two == |c: Seq<ValueView>| c.len() == 2,
            pair == |c: Seq<ValueView>| (c[0], c[1]),
            value_pairs_view(res@) == choices_view(choices@).take(i as int).filter(
                two,
            ).map_values(pair),
        decreases choices.len() - i,
    {
        let ghost done = choices_view(choices@).take(i as int);
        let ghost choice = values_view(choices@[i as int]@);
        let ghost before = value_pairs_view(res@);
        proof {
            assert(choices_view(choices@).take(i + 1) == done.push(choice));
            done.lemma_filter_push(choice, two);
        }
        if choices[i].len() == 2 {
            res.push((choices[i][0].clone(), choices[i][1].clone()));
            proof {
                assert(choice[0] == choices@[i as int]@[0]@);
                assert(choice[1] == choices@[i as int]@[1]@);
                assert(value_pairs_view(res@) =~= before.push((choice[0], choice[1])));
                assert(done.filter(two).push(choice).map_values(pair) =~= done.filter(
                    two,
                ).map_values(pair).push((choice[0], choice[1])));
            }
        }
        i = i + 1;
    }
    assert(choices_view(choices@).take(choices.len() as int) == choices_view(choices@));
    res
}

/// The choices that have one operand, as values.
fn singles(choices: &Vec<Vec<Value>>) -> (res: Vec<Value>)
    ensures
        values_view(res@) == singles_of(choices_view(choices@)),
{
    let mut res: Vec<Value> = Vec::new();
    let ghost one = |c: Seq<ValueView>| c.len() == 1;
    let ghost first = |c: Seq<ValueView>| c[0];
    let mut i: usize = 0;
    proof {
        assert(choices_view(choices@).take(0) =~= Seq::empty());
        assert(values_view(res@) =~= Seq::empty());
    }
    while i < choices.len()
        invariant
            i <= choices.len(),
            one == |c: Seq<ValueView>| c.len() == 1,
            first == |c: Seq<ValueView>| c[0],
            values_view(res@) == choices_view(choices@).take(i as int).filter(one).map_values(
                first,
            ),
        decreases choices.len() - i,
    {
        let ghost done = choices_view(choices@).take(i as int);
        let ghost choice = values_view(choices@[i as int]@);
        let ghost before = values_view(res@);
        proof {
            assert(choices_view(choices@).take(i + 1) == done.push(choice));
            done.lemma_filter_push(choice, one);
        }
        if choices[i].len() == 1 {
            res.push(choices[i][0].clone());
            proof {
                assert(choice[0] == choices@[i as int]@[0]@);
                assert(values_view(res@) =~= before.push(choice[0]));
                assert(done.filter(one).push(choice).map_values(first) =~= done.filter(
                    one,
                ).map_values(first).push(choice[0]));
            }
        }
        i = i + 1;
    }
    assert(choices_view(choices@).take(choices.len() as int) == choices_view(choices@));
    res
}

/// The left values of the pairs.
fn lefts(pairs: Vec<(Value, Value)>) -> (res: Vec<Value>)
    ensures
        values_view(res@) == lefts_of(value_pairs_view(pairs@)),
{
    let mut res: Vec<Value> = Vec::new();
    let mut i: usize = 0;
    while i < pairs.len()
        invariant
            i <= pairs.len(),
            res.len() == i,
            forall|k: int| 0 <= k < i ==> (#[trigger] res@[k])@ == pairs@[k].0@,
        decreases pairs.len() - i,
    {
        res.push(pairs[i].0.clone());
        i = i + 1;
    }
    assert(values_view(res@) =~= lefts_of(value_pairs_view(pairs@)));
    res
}

/// No values.
fn no_values() -> (res: Vec<Value>)
    ensures
        values_view(res@) == Seq::<ValueView>::empty(),
{
    let res: Vec<Value> = Vec::new();
    assert(values_view(res@) =~= Seq::<ValueView>::empty());
    res
}

/// No lists of values.
fn no_choices() -> (res: Vec<Vec<Value>>)
    ensures
        choices_view(res@) == Seq::<Seq<ValueView>>::empty(),
{
    let res: Vec<Vec<Value>> = Vec::new();
    assert(choices_view(res@) =~= Seq::<Seq<ValueView>>::empty());
    res
}

/// No lists of numbers.
fn no_numbers() -> (res: Vec<Vec<u64>>)
    ensures
        numbers_view(res@) == Seq::<Seq<u64>>::empty(),
{
    let res: Vec<Vec<u64>> = Vec::new();
    assert(numbers_view(res@) =~= Seq::<Seq<u64>>::empty());
    res
}

/// `first`, then `second`.
fn joined(first: Vec<Value>, second: Vec<Value>) -> (res: Vec<Value>)
    ensures
        values_view(res@) == values_view(first@) + values_view(second@),
{
    let mut res = first;
    let mut tail = second;
    res.append(&mut tail);
    assert(values_view(res@) =~= values_view(first@) + values_view(second@));
    res
}

// Scopes

/// The values of the first variable with the given name.
fn lookup_variable(vars: &Vec<Variable>, name: &str) -> (res: Option<Vec<Value>>)
    ensures
        match res {
            Some(values) => lookup(variables_view(vars@), name@) == Some(values_view(values@)),
            None => lookup(variables_view(vars@), name@) is None,
        },
{
    let ghost all = variables_view(vars@);
    let mut i: usize = 0;
    assert(all.skip(0) =~= all);
    while i < vars.len()
        invariant
            i <= vars.len(),
            all == variables_view(vars@),
            lookup(all, name@) == lookup(all.skip(i as int), name@),
        decreases vars.len() - i,
    {
        proof {
            assert(all.skip(i as int)[0] == vars@[i as int]@);
            assert(all.skip(i as int).drop_first() == all.skip(i + 1));
        }
        if text_eq(vars[i].name.as_str(), name) {
            return Some(clone_values(&vars[i].values.0));
        }
        i = i + 1;
    }
    None
}

/// The first function with the given name.
fn lookup_function(funs: &Vec<Function>, name: &str) -> (res: Option<Function>)
    ensures
        match res {
            Some(function) => find_function(functions_view(funs@), name@) == Some(function@),
            None => find_function(functions_view(funs@), name@) is None,
        },
{
    let ghost all = functions_view(funs@);
    let mut i: usize = 0;
    assert(all.skip(0) =~= all);
    while i < funs.len()
        invariant
            i <= funs.len(),
            all == functions_view(funs@),
            find_function(all, name@) == find_function(all.skip(i as int), name@),
        decreases funs.len() - i,
    {
        proof {
            assert(all.skip(i as int)[0] == funs@[i as int]@);
            assert(all.skip(i as int).drop_first() == all.skip(i + 1));
        }
        if text_eq(funs[i].name.as_str(), name) {
            return Some(funs[i].clone());
        }
        i = i + 1;
    }
    None
}

/// Whether a variable of the given name is among the variables.
pub fn holds_name(vars: &Vec<Variable>, name: &str) -> (b: bool)
    ensures
        b == has_name(variables_view(vars@), name@),
{
    let mut i: usize = 0;
    while i < vars.len()
        invariant
            i <= vars.len(),
            forall|k: int| 0 <= k < i ==> (#[trigger] variables_view(vars@)[k]).name != name@,
        decreases vars.len() - i,
    {
        assert(variables_view(vars@)[i as int] == vars@[i as int]@);
        if text_eq(vars[i].name.as_str(), name) {
            return true;
        }
        i = i + 1;
    }
    false
}

/// The scope of the body of a function (see [`body_scope`]).
fn scope_of(function: &Function, arguments: &Vec<Value>, caller_vars: &Vec<Variable>) -> (res: Vec<
    Variable,
>)
    ensures
        variables_view(res@) == body_scope(
            function@,
            values_view(arguments@),
            variables_view(caller_vars@),
        ),
{
    let mut scope: Vec<Variable> = Vec::new();
    let count = if function.inputs.len() <= arguments.len() {
        function.inputs.len()
    } else {
        arguments.len()
    };
    let mut i: usize = 0;
    while i < count
        invariant
            i <= count,
            count <= function.inputs.len(),
            count <= arguments.len(),
            scope.len() == i,
            forall|k: int|
                0 <= k < i ==> (#[trigger] scope@[k])@ == (VariableView {
                    name: function.inputs@[k]@,
                    values: seq![arguments@[k]@],
                }),
        decreases count - i,
    {
        let mut single: Vec<Value> = Vec::new();
        single.push(arguments[i].clone());
        assert(values_view(single@) =~= seq![arguments@[i as int]@]);
        scope.push(Variable::new(function.inputs[i].clone(), single));
        i = i + 1;
    }
    proof {
        let bound = parameters(function@.inputs, values_view(arguments@));
        assert(variables_view(scope@).len() == bound.len());
        assert forall|k: int| 0 <= k < bound.len() implies variables_view(scope@)[k]
            == bound[k] by {
            assert(names_view(function.inputs@)[k] == function.inputs@[k]@);
            assert(values_view(arguments@)[k] == arguments@[k]@);
        }
        assert(variables_view(scope@) =~= bound);
    }
    let ghost bound = variables_view(scope@);
    let ghost outer = variables_view(caller_vars@);
    let mut n: usize = 0;
    while n < caller_vars.len()
        invariant
            n <= caller_vars.len(),
            outer == variables_view(caller_vars@),
            variables_view(scope@) == shadowed(bound, outer, n as int),
        decreases caller_vars.len() - n,
    {
        assert(outer[n as int] == caller_vars@[n as int]@);
        if !holds_name(&scope, caller_vars[n].name.as_str()) {
            let ghost before = variables_view(scope@);
            scope.push(caller_vars[n].clone());
            assert(variables_view(scope@) =~= before.push(caller_vars@[n as int]@));
        }
        n = n + 1;
    }
    scope
}

/// The expressions whose common roots solve the equations.
pub fn defect_expressions(equations: Vec<(AST, AST)>) -> (res: Vec<AST>)
    ensures
        asts_view(res@) == defects(pairs_view(equations@)),
{
    let mut res: Vec<AST> = Vec::new();
    let mut i: usize = 0;
    while i < equations.len()
        invariant
            i <= equations.len(),
            res.len() == i,
            forall|k: int|
                0 <= k < i ==> (#[trigger] res@[k])@ == (AstView::Simple {
                    op_type: SimpleOpType::Sub,
                    left: Box::new(equations@[k].0@),
                    right: Box::new(equations@[k].1@),
                }),
        decreases equations.len() - i,
    {
        let defect = AST::Operation(
            Box::new(
                Operation::SimpleOperation {
                    op_type: SimpleOpType::Sub,
                    left: equations[i].0.clone(),
                    right: equations[i].1.clone(),
                },
            ),
        );
        proof {
            lemma_operation_view(defect);
        }
        res.push(defect);
        i = i + 1;
    }
    assert(asts_view(res@) =~= defects(pairs_view(equations@)));
    res
}

/// The items of all rows, one row after the other, and the widths of the
/// rows.
fn flattened(rows: Vec<Vec<AST>>) -> (res: (Vec<AST>, Vec<usize>))
    ensures
        asts_view(res.0@) == rows_view(rows@).flatten(),
        widths_view(res.1@) == rows_view(rows@).map_values(|r: Seq<AstView>| r.len()),
{
    let mut items: Vec<AST> = Vec::new();
    let mut widths: Vec<usize> = Vec::new();
    let ghost all = rows_view(rows@);
    let mut i: usize = 0;
    proof {
        assert(all.take(0) =~= Seq::empty());
        assert(asts_view(items@) =~= Seq::empty());
    }
    while i < rows.len()
        invariant
            i <= rows.len(),
            all == rows_view(rows@),
            asts_view(items@) == all.take(i as int).flatten(),
            widths.len() == i,
            forall|k: int| 0 <= k < i ==> widths@[k] == rows@[k].len(),
        decreases rows.len() - i,
    {
        let ghost before = asts_view(items@);
        let mut row = clone_asts(&rows[i]);
        widths.push(row.len());
        proof {
            assert(asts_view(row@).len() == row.len());
            assert(asts_view(rows@[i as int]@).len() == rows@[i as int].len());
            assert(all.take(i + 1) == all.take(i as int).push(all[i as int]));
            all.take(i as int).lemma_flatten_push(all[i as int]);
            assert(all[i as int] == asts_view(rows@[i as int]@));
        }
        let ghost added = asts_view(row@);
        items.append(&mut row);
        assert(asts_view(items@) =~= before + added);
        i = i + 1;
    }
    proof {
        assert(all.take(rows.len() as int) == all);
        assert(widths_view(widths@) =~= all.map_values(|r: Seq<AstView>| r.len())) by {
            assert forall|k: int| 0 <= k < rows.len() implies widths_view(widths@)[k]
                == all.map_values(|r: Seq<AstView>| r.len())[k] by {
                assert(all[k] == asts_view(rows@[k]@));
            }
        }
    }
    (items, widths)
}

impl Pending {
    /// What the node holds once the outcomes of one more operand came in
    /// (see [`absorb`]).
    fn absorb(self, values: Vec<Value>) -> (res: Result<Pending, EvalError>)
        ensures
            match res {
                Ok(pending) => absorb(self@, values_view(values@)) == Ok::<
                    PendingView,
                    EvalErrorView,
                >(pending@),
                Err(e) => absorb(self@, values_view(values@)) == Err::<
                    PendingView,
                    EvalErrorView,
                >(e@),
            },
    {
        match self {
            Pending::Vector { fields } => match scalars(&values) {
                None => Err(EvalError::NonScalarInVector),
                Some(numbers) => {
                    let mut fields = fields;
                    let ghost before = numbers_view(fields@);
                    fields.push(numbers);
                    assert(numbers_view(fields@) =~= before.push(numbers@));
                    Ok(Pending::Vector { fields })
                },
            },
            Pending::Matrix { widths, fields } => match scalars(&values) {
                None => Err(EvalError::NonScalarInMatrix),
                Some(numbers) => {
                    let mut fields = fields;
                    let ghost before = numbers_view(fields@);
                    fields.push(numbers);
                    assert(numbers_view(fields@) =~= before.push(numbers@));
                    Ok(Pending::Matrix { widths, fields })
                },
            },
            Pending::List { outcomes } => Ok(Pending::List { outcomes: joined(outcomes, values) }),
            Pending::Call { function, arguments } => {
                let mut arguments = arguments;
                let ghost before = choices_view(arguments@);
                arguments.push(values);
                assert(choices_view(arguments@) =~= before.push(values_view(values@)));
                Ok(Pending::Call { function, arguments })
            },
            Pending::Simple { op_type, operands } => {
                let mut operands = operands;
                let ghost before = choices_view(operands@);
                operands.push(values);
                assert(choices_view(operands@) =~= before.push(values_view(values@)));
                Ok(Pending::Simple { op_type, operands })
            },
            Pending::Integral { expr, in_terms_of, bounds } => {
                let mut bounds = bounds;
                let ghost before = choices_view(bounds@);
                bounds.push(values);
                assert(choices_view(bounds@) =~= before.push(values_view(values@)));
                Ok(Pending::Integral { expr, in_terms_of, bounds })
            },
            Pending::Derivative { expr, in_terms_of, points } => {
                let mut points = points;
                let ghost before = choices_view(points@);
                points.push(values);
                assert(choices_view(points@) =~= before.push(values_view(values@)));
                Ok(Pending::Derivative { expr, in_terms_of, points })
            },
        }
    }
}

/// The first of the pairs and the pairs behind it.
fn first_pair(pairs: Vec<(Value, Value)>) -> (res: ((Value, Value), Vec<(Value, Value)>))
    requires
        pairs.len() > 0,
    ensures
        (res.0.0@, res.0.1@) == value_pairs_view(pairs@)[0],
        value_pairs_view(res.1@) == value_pairs_view(pairs@).drop_first(),
{
    let mut rest = pairs;
    let first = rest.remove(0);
    assert(value_pairs_view(rest@) =~= value_pairs_view(pairs@).drop_first());
    (first, rest)
}

/// The first of the values and the values behind it.
fn first_value(values: Vec<Value>) -> (res: (Value, Vec<Value>))
    requires
        values.len() > 0,
    ensures
        res.0@ == values_view(values@)[0],
        values_view(res.1@) == values_view(values@).drop_first(),
{
    let mut rest = values;
    let first = rest.remove(0);
    assert(values_view(rest@) =~= values_view(values@).drop_first());
    (first, rest)
}

/// The first of the choices and the choices behind it.
fn first_choice(choices: Vec<Vec<Value>>) -> (res: (Vec<Value>, Vec<Vec<Value>>))
    requires
        choices.len() > 0,
    ensures
        values_view(res.0@) == choices_view(choices@)[0],
        choices_view(res.1@) == choices_view(choices@).drop_first(),
{
    let mut rest = choices;
    let first = rest.remove(0);
    assert(choices_view(rest@) =~= choices_view(choices@).drop_first());
    (first, rest)
}

/// The first of the trees and the trees behind it.
fn first_tree(trees: Vec<AST>) -> (res: (AST, Vec<AST>))
    requires
        trees.len() > 0,
    ensures
        res.0@ == asts_view(trees@)[0],
        asts_view(res.1@) == asts_view(trees@).drop_first(),
{
    let mut rest = trees;
    let first = rest.remove(0);
    assert(asts_view(rest@) =~= asts_view(trees@).drop_first());
    (first, rest)
}

impl Evaluation {
    /// The evaluation of `ast` in `context`, before its first step.
    fn new(ast: &AST, context: &Context) -> (res: Evaluation)
        ensures
            res@ == EvaluationView::start(ast@, context@),
    {
        let res = Evaluation {
            vars: clone_variables(&context.vars),
            funs: clone_functions(&context.funs),
            guard: String::new(),
            stack: Vec::new(),
            focus: Focus::Descend(ast.clone()),
        };
        assert(stack_view(res.stack@) =~= Seq::empty());
        res
    }

    /// The outcome, once the evaluation is over.
    pub fn outcome(&self) -> (res: Option<Result<Values, EvalError>>)
        ensures
            match res {
                Some(Ok(values)) => self@.outcome() == Some(
                    Ok::<Seq<ValueView>, EvalErrorView>(values@),
                ),
                Some(Err(e)) => self@.outcome() == Some(Err::<Seq<ValueView>, EvalErrorView>(e@)),
                None => self@.outcome() is None,
            },
    {
        match &self.focus {
            Focus::Done(Ok(values)) => Some(Ok(Values(clone_values(values)))),
            Focus::Done(Err(e)) => Some(Err(e.clone())),
            _ => None,
        }
    }

    /// What the host is asked for in this state, if anything.
    pub fn request(&self) -> (res: Option<Request>)
        ensures
            request_view(res) == self@.request(),
    {
        match &self.focus {
            Focus::Number { text } => Some(Request::Number { text: text.clone() }),
            Focus::Apply { op_type, left, right, second, rest, results } => {
                let asked = if *op_type == SimpleOpType::HiddenMult {
                    SimpleOpType::Mult
                } else if *op_type == SimpleOpType::AddSub {
                    if *second {
                        SimpleOpType::Sub
                    } else {
                        SimpleOpType::Add
                    }
                } else {
                    *op_type
                };
                Some(Request::Apply { op_type: asked, left: left.clone(), right: right.clone() })
            },
            Focus::Integrate { expr, in_terms_of, lower, upper, rest, results } => Some(
                Request::Integrate {
                    expr: expr.clone(),
                    in_terms_of: in_terms_of.clone(),
                    lower: lower.clone(),
                    upper: upper.clone(),
                    context: self.context(),
                },
            ),
            Focus::Differentiate { expr, in_terms_of, at, points, results } => Some(
                Request::Differentiate {
                    expr: expr.clone(),
                    in_terms_of: in_terms_of.clone(),
                    at: at.clone(),
                    context: self.context(),
                },
            ),
            Focus::Solve { expressions, search_vars } => Some(
                Request::Solve {
                    expressions: clone_asts(expressions),
                    search_vars: crate::basetypes::clone_names(search_vars),
                    context: self.context(),
                },
            ),
            _ => None,
        }
    }

    /// The variables in scope and the functions.
    fn context(&self) -> (res: Context)
        ensures
            res@ == self@.context(),
    {
        Context { vars: clone_variables(&self.vars), funs: clone_functions(&self.funs) }
    }

    fn focus_on(self, focus: Focus) -> (res: Evaluation)
        ensures
            res@ == self@.focus_on(focus@),
    {
        Evaluation {
            vars: self.vars,
            funs: self.funs,
            guard: self.guard,
            stack: self.stack,
            focus,
        }
    }

    fn fail(self, error: EvalError) -> (res: Evaluation)
        ensures
            res@ == self@.fail(error@),
    {
        self.focus_on(Focus::Done(Err(error)))
    }

    fn apply(self, op_type: SimpleOpType, pairs: Vec<(Value, Value)>, results: Vec<Value>) -> (res:
        Evaluation)
        ensures
            res@ == self@.apply(op_type, value_pairs_view(pairs@), values_view(results@)),
    {
        if pairs.len() == 0 {
            self.focus_on(Focus::Ascend(results))
        } else {
            let parted = first_pair(pairs);
            self.focus_on(
                Focus::Apply {
                    op_type,
                    left: parted.0.0,
                    right: parted.0.1,
                    second: false,
                    rest: parted.1,
                    results,
                },
            )
        }
    }

    fn integrate(
        self,
        expr: AST,
        in_terms_of: String,
        pairs: Vec<(Value, Value)>,
        results: Vec<Value>,
    ) -> (res: Evaluation)
        ensures
            res@ == self@.integrate(
                expr@,
                in_terms_of@,
                value_pairs_view(pairs@),
                values_view(results@),
            ),
    {
        if pairs.len() == 0 {
            self.focus_on(Focus::Ascend(results))
        } else {
            let parted = first_pair(pairs);
            self.focus_on(
                Focus::Integrate {
                    expr,
                    in_terms_of,
                    lower: parted.0.0,
                    upper: parted.0.1,
                    rest: parted.1,
                    results,
                },
            )
        }
    }

    fn differentiate(self, expr: AST, in_terms_of: String, points: Vec<Value>, results: Vec<Value>)
        -> (res: Evaluation)
        ensures
            res@ == self@.differentiate(
                expr@,
                in_terms_of@,
                values_view(points@),
                values_view(results@),
            ),
    {
        if points.len() == 0 {
            self.focus_on(Focus::Ascend(results))
        } else {
            let parted = first_value(points);
            self.focus_on(
                Focus::Differentiate {
                    expr,
                    in_terms_of,
                    at: parted.0,
                    points: parted.1,
                    results,
                },
            )
        }
    }

    fn call(
        self,
        function: Function,
        choices: Vec<Vec<Value>>,
        results: Vec<Value>,
        caller_vars: Vec<Variable>,
        caller_guard: String,
    ) -> (res: Evaluation)
        ensures
            res@ == self@.call(
                function@,
                choices_view(choices@),
                values_view(results@),
                variables_view(caller_vars@),
                caller_guard@,
            ),
    {
        if choices.len() == 0 {
            Evaluation {
                vars: caller_vars,
                funs: self.funs,
                guard: caller_guard,
                stack: self.stack,
                focus: Focus::Ascend(results),
            }
        } else {
            let parted = first_choice(choices);
            let vars = scope_of(&function, &parted.0, &caller_vars);
            let guard = function.name.clone();
            let body = function.ast.clone();
            let mut stack = self.stack;
            let ghost below = stack_view(stack@);
            let frame = Frame::Calls {
                function,
                choices: parted.1,
                results,
                caller_vars,
                caller_guard,
            };
            stack.push(frame);
            assert(stack_view(stack@) =~= below.push(frame@));
            Evaluation { vars, funs: self.funs, guard, stack, focus: Focus::Descend(body) }
        }
    }

    fn finish(self, pending: Pending) -> (res: Evaluation)
        ensures
            res@ == self@.finish(pending@),
    {
        match pending {
            Pending::Vector { fields } => {
                let choices = number_choices(&fields);
                self.focus_on(Focus::Ascend(vectors(choices)))
            },
            Pending::Matrix { widths, fields } => {
                let choices = number_choices(&fields);
                self.focus_on(Focus::Ascend(matrices(&widths, &choices)))
            },
            Pending::List { outcomes } => self.focus_on(Focus::Ascend(outcomes)),
            Pending::Call { function, arguments } => {
                let choices = value_choices(&arguments);
                let caller_vars = clone_variables(&self.vars);
                let caller_guard = self.guard.clone();
                self.call(function, choices, no_values(), caller_vars, caller_guard)
            },
            Pending::Simple { op_type, operands } => {
                let choices = value_choices(&operands);
                let operand_pairs = pairs(&choices);
                if op_type == SimpleOpType::Parenths {
                    self.focus_on(Focus::Ascend(lefts(operand_pairs)))
                } else {
                    self.apply(op_type, operand_pairs, no_values())
                }
            },
            Pending::Integral { expr, in_terms_of, bounds } => {
                let choices = value_choices(&bounds);
                let bound_pairs = pairs(&choices);
                self.integrate(expr, in_terms_of, bound_pairs, no_values())
            },
            Pending::Derivative { expr, in_terms_of, points } => {
                let choices = value_choices(&points);
                let all = singles(&choices);
                self.differentiate(expr, in_terms_of, all, no_values())
            },
        }
    }

    fn gather(self, pending: Pending, operands: Vec<AST>) -> (res: Evaluation)
        ensures
            res@ == self@.gather(pending@, asts_view(operands@)),
    {
        if operands.len() == 0 {
            self.finish(pending)
        } else {
            let parted = first_tree(operands);
            let mut stack = self.stack;
            let ghost below = stack_view(stack@);
            let frame = Frame::Gather { pending, rest: parted.1 };
            stack.push(frame);
            assert(stack_view(stack@) =~= below.push(frame@));
            Evaluation {
                vars: self.vars,
                funs: self.funs,
                guard: self.guard,
                stack,
                focus: Focus::Descend(parted.0),
            }
        }
    }

    fn descend(self, ast: AST) -> (res: Evaluation)
        ensures
            res@ == self@.descend(ast@),
    {
        proof {
            lemma_ast_view(ast);
            lemma_operation_view(ast);
        }
        match ast {
            AST::Scalar(text) => self.focus_on(Focus::Number { text }),
            AST::Variable(name) => match lookup_variable(&self.vars, name.as_str()) {
                Some(values) => self.focus_on(Focus::Ascend(values)),
                None => self.fail(EvalError::NoVariable(name)),
            },
            AST::Vector(items) => self.gather(Pending::Vector { fields: no_numbers() }, *items),
            AST::Matrix(rows) => {
                let parted = flattened(*rows);
                self.gather(Pending::Matrix { widths: parted.1, fields: no_numbers() }, parted.0)
            },
            AST::List(items) => self.gather(Pending::List { outcomes: no_values() }, items),
            AST::Function { name, inputs } => {
                if text_eq(self.guard.as_str(), name.as_str()) {
                    return self.fail(EvalError::RecursiveFunction);
                }
                match lookup_function(&self.funs, name.as_str()) {
                    None => self.fail(EvalError::NoFunction(name)),
                    Some(function) => {
                        assert(function@.inputs.len() == function.inputs.len());
                        assert(asts_view(inputs@).len() == inputs.len());
                        if inputs.len() != function.inputs.len() {
                            let counts = (function.inputs.len(), inputs.len());
                            self.fail(EvalError::WrongNumberOfArgs(counts))
                        } else {
                            self.gather(
                                Pending::Call { function, arguments: no_choices() },
                                *inputs,
                            )
                        }
                    },
                }
            },
            AST::Operation(operation) => match *operation {
                Operation::SimpleOperation { op_type, left, right } => {
                    let mut operands: Vec<AST> = Vec::new();
                    operands.push(left);
                    operands.push(right);
                    assert(asts_view(operands@) =~= seq![left@, right@]);
                    self.gather(Pending::Simple { op_type, operands: no_choices() }, operands)
                },
                Operation::AdvancedOperation(advanced) => {
                    proof {
                        lemma_equation_view(advanced);
                    }
                    match advanced {
                        AdvancedOperation::Integral {
                            expr,
                            in_terms_of,
                            lower_bound,
                            upper_bound,
                        } => {
                            let mut operands: Vec<AST> = Vec::new();
                            operands.push(lower_bound);
                            operands.push(upper_bound);
                            assert(asts_view(operands@) =~= seq![lower_bound@, upper_bound@]);
                            self.gather(
                                Pending::Integral { expr, in_terms_of, bounds: no_choices() },
                                operands,
                            )
                        },
                        AdvancedOperation::Derivative { expr, in_terms_of, at } => {
                            let mut operands: Vec<AST> = Vec::new();
                            operands.push(at);
                            assert(asts_view(operands@) =~= seq![at@]);
                            self.gather(
                                Pending::Derivative { expr, in_terms_of, points: no_choices() },
                                operands,
                            )
                        },
                        AdvancedOperation::Equation { equations, search_vars } => {
                            let expressions = defect_expressions(equations);
                            self.focus_on(Focus::Solve { expressions, search_vars })
                        },
                    }
                },
            },
        }
    }

    fn ascend(self, values: Vec<Value>) -> (res: Evaluation)
        ensures
            res@ == self@.ascend(values_view(values@)),
    {
        let Evaluation { vars, funs, guard, stack, focus } = self;
        let mut stack = stack;
        let ghost whole = stack_view(stack@);
        match stack.pop() {
            None => Evaluation { vars, funs, guard, stack, focus: Focus::Done(Ok(values)) },
            Some(frame) => {
                proof {
                    assert(stack_view(stack@) =~= whole.drop_last());
                    assert(whole.last() == frame@);
                }
                match frame {
                    Frame::Gather { pending, rest } => match pending.absorb(values) {
                        Err(error) => {
                            // The frames do not matter once the evaluation is over.
                            let ended = Evaluation {
                                vars,
                                funs,
                                guard,
                                stack,
                                focus: Focus::Done(Err(error)),
                            };
                            ended
                        },
                        Ok(gathered) => {
                            let below = Evaluation {
                                vars,
                                funs,
                                guard,
                                stack,
                                focus: Focus::Ascend(Vec::new()),
                            };
                            below.gather(gathered, rest)
                        },
                    },
                    Frame::Calls { function, choices, results, caller_vars, caller_guard } => {
                        let below = Evaluation {
                            vars,
                            funs,
                            guard,
                            stack,
                            focus: Focus::Ascend(Vec::new()),
                        };
                        below.call(
                            function,
                            choices,
                            joined(results, values),
                            caller_vars,
                            caller_guard,
                        )
                    },
                }
            },
        }
    }

    fn resume(self, reply: Reply) -> (res: Evaluation)
        requires
            self@.accepts(reply@),
        ensures
            res@ == self@.resume(reply@),
    {
        let Evaluation { vars, funs, guard, stack, focus } = self;
        let state = Evaluation { vars, funs, guard, stack, focus: Focus::Ascend(Vec::new()) };
        match (focus, reply) {
            (Focus::Number { text }, Reply::Number(bits)) => {
                let mut values: Vec<Value> = Vec::new();
                values.push(Value::Scalar(bits));
                assert(values_view(values@) =~= seq![ValueView::Scalar(bits)]);
                state.focus_on(Focus::Ascend(values))
            },
            (
                Focus::Apply { op_type, left, right, second, rest, results },
                Reply::Applied(applied),
            ) => match applied {
                Err(message) => state.fail(EvalError::MathError(message)),
                Ok(values) => {
                    let all = joined(results, values);
                    if op_type == SimpleOpType::AddSub && !second {
                        state.focus_on(
                            Focus::Apply { op_type, left, right, second: true, rest, results: all },
                        )
                    } else {
                        state.apply(op_type, rest, all)
                    }
                },
            },
            (
                Focus::Integrate { expr, in_terms_of, lower, upper, rest, results },
                Reply::Evaluated(evaluated),
            ) => match evaluated {
                Err(error) => state.fail(error),
                Ok(values) => state.integrate(expr, in_terms_of, rest, joined(results, values)),
            },
            (
                Focus::Differentiate { expr, in_terms_of, at, points, results },
                Reply::Evaluated(evaluated),
            ) => match evaluated {
                Err(error) => state.fail(error),
                Ok(values) => state.differentiate(
                    expr,
                    in_terms_of,
                    points,
                    joined(results, values),
                ),
            },
            (Focus::Solve { expressions, search_vars }, Reply::Evaluated(evaluated)) => {
                match evaluated {
                    Err(error) => state.fail(error),
                    Ok(values) => state.focus_on(Focus::Ascend(values)),
                }
            },
            (focus, _) => Evaluation {
                vars: state.vars,
                funs: state.funs,
                guard: state.guard,
                stack: state.stack,
                focus,
            },
        }
    }

    /// Whether the reply answers the request that is out.
    fn accepts(&self, reply: &Reply) -> (b: bool)
        ensures
            b == self@.accepts(reply@),
    {
        match (&self.focus, reply) {
            (Focus::Number { .. }, Reply::Number(_)) => true,
            (Focus::Apply { .. }, Reply::Applied(_)) => true,
            (Focus::Integrate { .. }, Reply::Evaluated(_)) => true,
            (Focus::Differentiate { .. }, Reply::Evaluated(_)) => true,
            (Focus::Solve { .. }, Reply::Evaluated(_)) => true,
            _ => false,
        }
    }

    /// One step of the machine (see [`EvaluationView::next`]). The request
    /// that comes back is the one that the new state waits for, if it waits.
    pub fn step(self, reply: Option<Reply>) -> (res: (Evaluation, Option<Request>))
        ensures
            res.0@ == self@.next(reply_view(reply)),
            request_view(res.1) == res.0@.request(),
    {
        let Evaluation { vars, funs, guard, stack, focus } = self;
        let state = Evaluation { vars, funs, guard, stack, focus: Focus::Ascend(Vec::new()) };
        let next = match focus {
            Focus::Done(outcome) => state.focus_on(Focus::Done(outcome)),
            Focus::Descend(ast) => state.descend(ast),
            Focus::Ascend(values) => state.ascend(values),
            waiting => {
                let state = state.focus_on(waiting);
                match reply {
                    Some(r) => if state.accepts(&r) {
                        state.resume(r)
                    } else {
                        state
                    },
                    None => state,
                }
            },
        };
        let request = next.request();
        (next, request)
    }
}

/// The evaluation of the tree in the context, before its first step.
pub fn eval(b: &AST, context: &Context) -> (res: Evaluation)
    ensures
        res@ == EvaluationView::start(b@, context@),
{
    Evaluation::new(b, context)
}

/// The evaluation of the expression that the text writes, in the context,
/// before its first step; or the reason why the text writes no expression.
pub fn quick_eval(expr: &str, context: &Context) -> (res: Result<Evaluation, QuickEvalError>)
    ensures
        match parse_spec(expr@) {
            Ok(ast) => res matches Ok(evaluation) && evaluation@ == EvaluationView::start(
                ast,
                context@,
            ),
            Err(error) => res matches Err(e) && e@ == QuickEvalErrorView::ParserError(error),
        },
{
    match parse(expr) {
        Ok(ast) => Ok(eval(&ast, context)),
        Err(error) => Err(QuickEvalError::ParserError(error)),
    }
}

} // verus!
