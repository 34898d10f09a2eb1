//! The evaluation of a syntax tree, as mathematics.
//!
//! An evaluation is a machine that moves in small steps. It never computes
//! with numbers: whenever a number has to be read or two values have to be
//! combined, the machine stops with a request, and goes on when its host hands
//! in the reply. Integrals, derivatives and systems of equations are requests
//! too. What the machine decides is everything else: the order of evaluation,
//! the scopes of variables, the guard against self-recursion, the errors, and
//! the way in which the outcomes of the operands are combined.
//!
//! Every node yields a list of outcomes. A node with operands first gathers
//! the outcomes of all its operands, from left to right, then forms their
//! cartesian product, and does its work once for every choice of the product,
//! in order; its outcomes are the outcomes of all choices, one after the
//! other. Only a list differs: its outcomes are those of its items, one item
//! after the other.

use crate::basetypes::{
    AstView, ContextView, FunctionView, SimpleOpType, ValueView, VariableView,
};
use crate::errors::EvalErrorView;
use crate::helpers::combinations;
use vstd::prelude::*;

verus! {

pub type Outcome = Result<Seq<ValueView>, EvalErrorView>;

/// What a node waits for while its operands are evaluated, and what it has
/// gathered of them so far.
pub enum PendingView {
    Vector { fields: Seq<Seq<u64>> },
    Matrix { widths: Seq<nat>, fields: Seq<Seq<u64>> },
    List { outcomes: Seq<ValueView> },
    Call { function: FunctionView, arguments: Seq<Seq<ValueView>> },
    Simple { op_type: SimpleOpType, operands: Seq<Seq<ValueView>> },
    Integral { expr: AstView, in_terms_of: Seq<char>, bounds: Seq<Seq<ValueView>> },
    Derivative { expr: AstView, in_terms_of: Seq<char>, points: Seq<Seq<ValueView>> },
}

/// A node that waits for the outcomes of a tree below it.
pub enum FrameView {
    /// The operands still to evaluate, and what was gathered.
    Gather { pending: PendingView, rest: Seq<AstView> },
    /// A call of a function of the user: the choices of arguments still to
    /// run, the outcomes so far, and the scope of the caller.
    Calls {
        function: FunctionView,
        choices: Seq<Seq<ValueView>>,
        results: Seq<ValueView>,
        caller_vars: Seq<VariableView>,
        caller_guard: Seq<char>,
    },
}

/// What the machine does next.
pub enum FocusView {
    /// Evaluate this tree.
    Descend(AstView),
    /// Hand these outcomes to the innermost waiting node.
    Ascend(Seq<ValueView>),
    /// The number of a numeral was asked for.
    Number { text: Seq<char> },
    /// A primitive on `left` and `right` was asked for. `second` tells that of
    /// the two primitives of `a&b` the second one is out.
    Apply {
        op_type: SimpleOpType,
        left: ValueView,
        right: ValueView,
        second: bool,
        rest: Seq<(ValueView, ValueView)>,
        results: Seq<ValueView>,
    },
    /// An integral from `lower` to `upper` was asked for.
    Integrate {
        expr: AstView,
        in_terms_of: Seq<char>,
        lower: ValueView,
        upper: ValueView,
        rest: Seq<(ValueView, ValueView)>,
        results: Seq<ValueView>,
    },
    /// A derivative at `at` was asked for.
    Differentiate {
        expr: AstView,
        in_terms_of: Seq<char>,
        at: ValueView,
        points: Seq<ValueView>,
        results: Seq<ValueView>,
    },
    /// The solutions of a system of equations were asked for.
    Solve { expressions: Seq<AstView>, search_vars: Seq<Seq<char>> },
    /// The evaluation is over.
    Done(Outcome),
}

/// What the machine asks of its host.
pub enum RequestView {
    /// The number that the numeral writes.
    Number { text: Seq<char> },
    /// The result of a primitive on two values. A primitive with one operand
    /// gets both values and uses the one on its side.
    Apply { op_type: SimpleOpType, left: ValueView, right: ValueView },
    /// The integral of `expr` over `in_terms_of` from `lower` to `upper`.
    Integrate {
        expr: AstView,
        in_terms_of: Seq<char>,
        lower: ValueView,
        upper: ValueView,
        context: ContextView,
    },
    /// The derivative of `expr` by `in_terms_of` at `at`.
    Differentiate { expr: AstView, in_terms_of: Seq<char>, at: ValueView, context: ContextView },
    /// The common roots of the expressions in the unknowns.
    Solve { expressions: Seq<AstView>, search_vars: Seq<Seq<char>>, context: ContextView },
}

/// What the host hands in.
pub enum ReplyView {
    Number(u64),
    Applied(Result<Seq<ValueView>, Seq<char>>),
    Evaluated(Outcome),
}

/// The state of an evaluation.
pub struct EvaluationView {
    /// The variables in scope.
    pub vars: Seq<VariableView>,
    /// The functions.
    pub funs: Seq<FunctionView>,
    /// The name of the function whose body is evaluated; empty outside all
    /// functions.
    pub guard: Seq<char>,
    /// The waiting nodes, the innermost last.
    pub stack: Seq<FrameView>,
    pub focus: FocusView,
}

// Values

/// The numbers of a list of values that are all numbers.
pub open spec fn scalars_of(values: Seq<ValueView>) -> Option<Seq<u64>> {
    if forall|k: int| 0 <= k < values.len() ==> #[trigger] values[k] is Scalar {
        Some(values.map_values(|v: ValueView| v->Scalar_0))
    } else {
        None
    }
}

/// The vectors that the choices of numbers make.
pub open spec fn vectors_of(choices: Seq<Seq<u64>>) -> Seq<ValueView> {
    choices.map_values(|c: Seq<u64>| ValueView::Vector(c))
}

/// The position in a row-major list at which row `r` of a table starts.
pub open spec fn row_start(widths: Seq<nat>, r: int) -> int
    decreases r,
{
    if r <= 0 || r > widths.len() {
        0
    } else {
        row_start(widths, r - 1) + widths[r - 1]
    }
}

/// The table with rows of the given widths that a row-major list of numbers
/// fills.
pub open spec fn table_of(widths: Seq<nat>, cells: Seq<u64>) -> Seq<Seq<u64>> {
    Seq::new(
        widths.len(),
        |r: int|
            Seq::new(
                widths[r],
                |c: int|
                    if 0 <= row_start(widths, r) + c < cells.len() {
                        cells[row_start(widths, r) + c]
                    } else {
                        0
                    },
            ),
    )
}

/// The matrices that the choices of numbers make.
pub open spec fn matrices_of(widths: Seq<nat>, choices: Seq<Seq<u64>>) -> Seq<ValueView> {
    choices.map_values(|c: Seq<u64>| ValueView::Matrix(table_of(widths, c)))
}

/// The choices that have two operands, as pairs.
pub open spec fn pairs_of(choices: Seq<Seq<ValueView>>) -> Seq<(ValueView, ValueView)> {
    choices.filter(|c: Seq<ValueView>| c.len() == 2).map_values(
        |c: Seq<ValueView>| (c[0], c[1]),
    )
}

/// The choices that have one operand, as values.
pub open spec fn singles_of(choices: Seq<Seq<ValueView>>) -> Seq<ValueView> {
    choices.filter(|c: Seq<ValueView>| c.len() == 1).map_values(|c: Seq<ValueView>| c[0])
}

/// The left values of the pairs.
pub open spec fn lefts_of(pairs: Seq<(ValueView, ValueView)>) -> Seq<ValueView> {
    pairs.map_values(|p: (ValueView, ValueView)| p.0)
}

// Scopes

/// The values of the first variable with the given name.
pub open spec fn lookup(vars: Seq<VariableView>, name: Seq<char>) -> Option<Seq<ValueView>>
    decreases vars.len(),
{
    if vars.len() == 0 {
        None
    } else if vars[0].name == name {
        Some(vars[0].values)
    } else {
        lookup(vars.drop_first(), name)
    }
}

/// The first function with the given name.
pub open spec fn find_function(funs: Seq<FunctionView>, name: Seq<char>) -> Option<FunctionView>
    decreases funs.len(),
{
    if funs.len() == 0 {
        None
    } else if funs[0].name == name {
        Some(funs[0])
    } else {
        find_function(funs.drop_first(), name)
    }
}

/// A variable of the given name is among the variables.
pub open spec fn has_name(vars: Seq<VariableView>, name: Seq<char>) -> bool {
    exists|k: int| 0 <= k < vars.len() && (#[trigger] vars[k]).name == name
}

/// The parameters bound to the arguments, one value each.
pub open spec fn parameters(names: Seq<Seq<char>>, arguments: Seq<ValueView>) -> Seq<VariableView> {
    Seq::new(
        if names.len() <= arguments.len() {
            names.len()
        } else {
            arguments.len()
        },
        |k: int| VariableView { name: names[k], values: seq![arguments[k]] },
    )
}

/// The scope, extended by the first `n` of the outer variables: each of them
/// is added unless a variable of its name is in the scope already.
pub open spec fn shadowed(scope: Seq<VariableView>, outer: Seq<VariableView>, n: int) -> Seq<
    VariableView,
>
    decreases n,
{
    if n <= 0 || n > outer.len() {
        scope
    } else {
        let before = shadowed(scope, outer, n - 1);
        if has_name(before, outer[n - 1].name) {
            before
        } else {
            before.push(outer[n - 1])
        }
    }
}

/// The scope of the body of a function: its parameters, bound to the
/// arguments, and behind them the variables of the caller that no parameter
/// and no earlier variable shadows.
pub open spec fn body_scope(
    function: FunctionView,
    arguments: Seq<ValueView>,
    caller_vars: Seq<VariableView>,
) -> Seq<VariableView> {
    shadowed(parameters(function.inputs, arguments), caller_vars, caller_vars.len() as int)
}

// Requests

/// The primitive that the host is asked for: the operator itself, but a
/// multiplication for a hidden multiplication, and for `a&b` first an
/// addition, then a subtraction.
pub open spec fn primitive(op_type: SimpleOpType, second: bool) -> SimpleOpType {
    if op_type == SimpleOpType::HiddenMult {
        SimpleOpType::Mult
    } else if op_type == SimpleOpType::AddSub {
        if second {
            SimpleOpType::Sub
        } else {
            SimpleOpType::Add
        }
    } else {
        op_type
    }
}

/// The expressions whose common roots solve the equations: left side minus
/// right side.
pub open spec fn defects(equations: Seq<(AstView, AstView)>) -> Seq<AstView> {
    equations.map_values(
        |e: (AstView, AstView)|
            AstView::Simple {
                op_type: SimpleOpType::Sub,
                left: Box::new(e.0),
                right: Box::new(e.1),
            },
    )
}

impl EvaluationView {
    /// The state in which the evaluation of `ast` in `context` starts.
    pub open spec fn start(ast: AstView, context: ContextView) -> EvaluationView {
        EvaluationView {
            vars: context.vars,
            funs: context.funs,
            guard: Seq::empty(),
            stack: Seq::empty(),
            focus: FocusView::Descend(ast),
        }
    }

    pub open spec fn context(self) -> ContextView {
        ContextView { vars: self.vars, funs: self.funs }
    }

    /// The same state with another focus.
    pub open spec fn focus_on(self, focus: FocusView) -> EvaluationView {
        EvaluationView { focus, ..self }
    }

    /// The evaluation ends with an error.
    pub open spec fn fail(self, error: EvalErrorView) -> EvaluationView {
        self.focus_on(FocusView::Done(Err(error)))
    }

    /// What the host is asked for in this state, if anything.
    pub open spec fn request(self) -> Option<RequestView> {
        match self.focus {
            FocusView::Number { text } => Some(RequestView::Number { text }),
            FocusView::Apply { op_type, left, right, second, rest, results } => Some(
                RequestView::Apply { op_type: primitive(op_type, second), left, right },
            ),
            FocusView::Integrate { expr, in_terms_of, lower, upper, rest, results } => Some(
                RequestView::Integrate {
                    expr,
                    in_terms_of,
                    lower,
                    upper,
                    context: self.context(),
                },
            ),
            FocusView::Differentiate { expr, in_terms_of, at, points, results } => Some(
                RequestView::Differentiate { expr, in_terms_of, at, context: self.context() },
            ),
            FocusView::Solve { expressions, search_vars } => Some(
                RequestView::Solve { expressions, search_vars, context: self.context() },
            ),
            _ => None,
        }
    }

    /// The outcome, once the evaluation is over.
    pub open spec fn outcome(self) -> Option<Outcome> {
        match self.focus {
            FocusView::Done(outcome) => Some(outcome),
            _ => None,
        }
    }

    /// A node starts to gather its operands: the first operand is evaluated
    /// next. A node without operands has gathered them already.
    pub open spec fn gather(self, pending: PendingView, operands: Seq<AstView>) -> EvaluationView {
        if operands.len() == 0 {
            self.finish(pending)
        } else {
            EvaluationView {
                stack: self.stack.push(
                    FrameView::Gather { pending, rest: operands.drop_first() },
                ),
                focus: FocusView::Descend(operands[0]),
                ..self
            }
        }
    }

    /// The evaluation of a tree starts.
    pub open spec fn descend(self, ast: AstView) -> EvaluationView {
        match ast {
            AstView::Scalar(text) => self.focus_on(FocusView::Number { text }),
            AstView::Variable(name) => match lookup(self.vars, name) {
                Some(values) => self.focus_on(FocusView::Ascend(values)),
                None => self.fail(EvalErrorView::NoVariable(name)),
            },
            AstView::Vector(items) => self.gather(
                PendingView::Vector { fields: Seq::empty() },
                items,
            ),
            AstView::Matrix(rows) => self.gather(
                PendingView::Matrix {
                    widths: rows.map_values(|r: Seq<AstView>| r.len()),
                    fields: Seq::empty(),
                },
                rows.flatten(),
            ),
            AstView::List(items) => self.gather(
                PendingView::List { outcomes: Seq::empty() },
                items,
            ),
            AstView::Function { name, inputs } => if self.guard == name {
                self.fail(EvalErrorView::RecursiveFunction)
            } else {
                match find_function(self.funs, name) {
                    None => self.fail(EvalErrorView::NoFunction(name)),
                    Some(function) => if inputs.len() != function.inputs.len() {
                        self.fail(
                            EvalErrorView::WrongNumberOfArgs(
                                function.inputs.len(),
                                inputs.len(),
                            ),
                        )
                    } else {
                        self.gather(
                            PendingView::Call { function, arguments: Seq::empty() },
                            inputs,
                        )
                    },
                }
            },
            AstView::Simple { op_type, left, right } => self.gather(
                PendingView::Simple { op_type, operands: Seq::empty() },
                seq![*left, *right],
            ),
            AstView::Integral { expr, in_terms_of, lower_bound, upper_bound } => self.gather(
                PendingView::Integral { expr: *expr, in_terms_of, bounds: Seq::empty() },
                seq![*lower_bound, *upper_bound],
            ),
            AstView::Derivative { expr, in_terms_of, at } => self.gather(
                PendingView::Derivative { expr: *expr, in_terms_of, points: Seq::empty() },
                seq![*at],
            ),
            AstView::Equation { equations, search_vars } => self.focus_on(
                FocusView::Solve { expressions: defects(equations), search_vars },
            ),
        }
    }

    /// The outcomes of a tree reach the innermost waiting node, or end the
    /// evaluation if no node waits.
    pub open spec fn ascend(self, values: Seq<ValueView>) -> EvaluationView {
        if self.stack.len() == 0 {
            self.focus_on(FocusView::Done(Ok(values)))
        } else {
            let below = EvaluationView { stack: self.stack.drop_last(), ..self };
            match self.stack.last() {
                FrameView::Gather { pending, rest } => match absorb(pending, values) {
                    Err(error) => below.fail(error),
                    Ok(gathered) => below.gather(gathered, rest),
                },
                FrameView::Calls { function, choices, results, caller_vars, caller_guard } => {
                    below.call(function, choices, results + values, caller_vars, caller_guard)
                },
            }
        }
    }

    /// All operands of a node are gathered: the node does its work.
    pub open spec fn finish(self, pending: PendingView) -> EvaluationView {
        match pending {
            PendingView::Vector { fields } => self.focus_on(
                FocusView::Ascend(vectors_of(combinations(fields))),
            ),
            PendingView::Matrix { widths, fields } => self.focus_on(
                FocusView::Ascend(matrices_of(widths, combinations(fields))),
            ),
            PendingView::List { outcomes } => self.focus_on(FocusView::Ascend(outcomes)),
            PendingView::Call { function, arguments } => self.call(
                function,
                combinations(arguments),
                Seq::empty(),
                self.vars,
                self.guard,
            ),
            PendingView::Simple { op_type, operands } => if op_type == SimpleOpType::Parenths {
                self.focus_on(FocusView::Ascend(lefts_of(pairs_of(combinations(operands)))))
            } else {
                self.apply(op_type, pairs_of(combinations(operands)), Seq::empty())
            },
            PendingView::Integral { expr, in_terms_of, bounds } => self.integrate(
                expr,
                in_terms_of,
                pairs_of(combinations(bounds)),
                Seq::empty(),
            ),
            PendingView::Derivative { expr, in_terms_of, points } => self.differentiate(
                expr,
                in_terms_of,
                singles_of(combinations(points)),
                Seq::empty(),
            ),
        }
    }

    /// The body of a function is evaluated for the next choice of arguments,
    /// in a scope of its own and with the function's name as the guard; after
    /// the last choice the scope of the caller is back, and the outcomes of
    /// all choices are those of the call.
    pub open spec fn call(
        self,
        function: FunctionView,
        choices: Seq<Seq<ValueView>>,
        results: Seq<ValueView>,
        caller_vars: Seq<VariableView>,
        caller_guard: Seq<char>,
    ) -> EvaluationView {
        if choices.len() == 0 {
            EvaluationView {
                vars: caller_vars,
                guard: caller_guard,
                focus: FocusView::Ascend(results),
                ..self
            }
        } else {
            EvaluationView {
                vars: body_scope(function, choices[0], caller_vars),
                funs: self.funs,
                guard: function.name,
                stack: self.stack.push(
                    FrameView::Calls {
                        function,
                        choices: choices.drop_first(),
                        results,
                        caller_vars,
                        caller_guard,
                    },
                ),
                focus: FocusView::Descend(function.ast),
            }
        }
    }

    /// The primitive is asked for the next pair of operands; after the last
    /// pair the outcomes of all pairs are those of the operation.
    pub open spec fn apply(
        self,
        op_type: SimpleOpType,
        pairs: Seq<(ValueView, ValueView)>,
        results: Seq<ValueView>,
    ) -> EvaluationView {
        if pairs.len() == 0 {
            self.focus_on(FocusView::Ascend(results))
        } else {
            self.focus_on(
                FocusView::Apply {
                    op_type,
                    left: pairs[0].0,
                    right: pairs[0].1,
                    second: false,
                    rest: pairs.drop_first(),
                    results,
                },
            )
        }
    }

    /// The integral is asked for the next pair of bounds.
    pub open spec fn integrate(
        self,
        expr: AstView,
        in_terms_of: Seq<char>,
        pairs: Seq<(ValueView, ValueView)>,
        results: Seq<ValueView>,
    ) -> EvaluationView {
        if pairs.len() == 0 {
            self.focus_on(FocusView::Ascend(results))
        } else {
            self.focus_on(
                FocusView::Integrate {
                    expr,
                    in_terms_of,
                    lower: pairs[0].0,
                    upper: pairs[0].1,
                    rest: pairs.drop_first(),
                    results,
                },
            )
        }
    }

    /// The derivative is asked for the next point.
    pub open spec fn differentiate(
        self,
        expr: AstView,
        in_terms_of: Seq<char>,
        points: Seq<ValueView>,
        results: Seq<ValueView>,
    ) -> EvaluationView {
        if points.len() == 0 {
            self.focus_on(FocusView::Ascend(results))
        } else {
            self.focus_on(
                FocusView::Differentiate {
                    expr,
                    in_terms_of,
                    at: points[0],
                    points: points.drop_first(),
                    results,
                },
            )
        }
    }

    /// The reply answers the request that is out.
    pub open spec fn accepts(self, reply: ReplyView) -> bool {
        match (self.focus, reply) {
            (FocusView::Number { .. }, ReplyView::Number(_)) => true,
            (FocusView::Apply { .. }, ReplyView::Applied(_)) => true,
            (FocusView::Integrate { .. }, ReplyView::Evaluated(_)) => true,
            (FocusView::Differentiate { .. }, ReplyView::Evaluated(_)) => true,
            (FocusView::Solve { .. }, ReplyView::Evaluated(_)) => true,
            _ => false,
        }
    }

    /// The machine goes on with the reply to its request. An error in the
    /// reply ends the evaluation.
    pub open spec fn resume(self, reply: ReplyView) -> EvaluationView {
        match (self.focus, reply) {
            (FocusView::Number { text }, ReplyView::Number(bits)) => self.focus_on(
                FocusView::Ascend(seq![ValueView::Scalar(bits)]),
            ),
            (
                FocusView::Apply { op_type, left, right, second, rest, results },
                ReplyView::Applied(applied),
            ) => match applied {
                Err(message) => self.fail(EvalErrorView::MathError(message)),
                Ok(values) => if op_type == SimpleOpType::AddSub && !second {
                    self.focus_on(
                        FocusView::Apply {
                            op_type,
                            left,
                            right,
                            second: true,
                            rest,
                            results: results + values,
                        },
                    )
                } else {
                    self.apply(op_type, rest, results + values)
                },
            },
            (
                FocusView::Integrate { expr, in_terms_of, lower, upper, rest, results },
                ReplyView::Evaluated(evaluated),
            ) => match evaluated {
                Err(error) => self.fail(error),
                Ok(values) => self.integrate(expr, in_terms_of, rest, results + values),
            },
            (
                FocusView::Differentiate { expr, in_terms_of, at, points, results },
                ReplyView::Evaluated(evaluated),
            ) => match evaluated {
                Err(error) => self.fail(error),
                Ok(values) => self.differentiate(expr, in_terms_of, points, results + values),
            },
            (FocusView::Solve { expressions, search_vars }, ReplyView::Evaluated(evaluated)) => {
                match evaluated {
                    Err(error) => self.fail(error),
                    Ok(values) => self.focus_on(FocusView::Ascend(values)),
                }
            },
            _ => self,
        }
    }

    /// One step of the machine. A machine that waits for a reply takes the
    /// reply if it answers the request, and stays as it is otherwise; a
    /// machine that does not wait ignores the reply. A finished machine stays
    /// as it is.
    pub open spec fn next(self, reply: Option<ReplyView>) -> EvaluationView {
        match self.focus {
            FocusView::Done(_) => self,
            FocusView::Descend(ast) => self.descend(ast),
            FocusView::Ascend(values) => self.ascend(values),
            _ => match reply {
                Some(r) => if self.accepts(r) {
                    self.resume(r)
                } else {
                    self
                },
                None => self,
            },
        }
    }
}

/// What a gathering node holds once the outcomes of one more operand came in.
/// The slots of a vector and of a matrix take numbers only.
pub open spec fn absorb(pending: PendingView, values: Seq<ValueView>) -> Result<
    PendingView,
    EvalErrorView,
> {
    match pending {
        PendingView::Vector { fields } => match scalars_of(values) {
            None => Err(EvalErrorView::NonScalarInVector),
            Some(numbers) => Ok(PendingView::Vector { fields: fields.push(numbers) }),
        },
        PendingView::Matrix { widths, fields } => match scalars_of(values) {
            None => Err(EvalErrorView::NonScalarInMatrix),
            Some(numbers) => Ok(PendingView::Matrix { widths, fields: fields.push(numbers) }),
        },
        PendingView::List { outcomes } => Ok(PendingView::List { outcomes: outcomes + values }),
        PendingView::Call { function, arguments } => Ok(
            PendingView::Call { function, arguments: arguments.push(values) },
        ),
        PendingView::Simple { op_type, operands } => Ok(
            PendingView::Simple { op_type, operands: operands.push(values) },
        ),
        PendingView::Integral { expr, in_terms_of, bounds } => Ok(
            PendingView::Integral { expr, in_terms_of, bounds: bounds.push(values) },
        ),
        PendingView::Derivative { expr, in_terms_of, points } => Ok(
            PendingView::Derivative { expr, in_terms_of, points: points.push(values) },
        ),
    }
}

/// A function whose body calls the function by its own name fails: the call
/// inside the body meets the guard.
pub proof fn law_recursion_guard(state: EvaluationView, name: Seq<char>, inputs: Seq<AstView>)
    requires
        state.guard == name,
    ensures
        state.descend(AstView::Function { name, inputs }).outcome() == Some(
            Err::<Seq<ValueView>, EvalErrorView>(EvalErrorView::RecursiveFunction),
        ),
{
}

/// While the body of a function is evaluated, the guard is the name of that
/// function.
pub proof fn law_guard_in_body(
    state: EvaluationView,
    function: FunctionView,
    choices: Seq<Seq<ValueView>>,
    results: Seq<ValueView>,
)
    requires
        choices.len() > 0,
    ensures
        state.call(function, choices, results, state.vars, state.guard).guard == function.name,
        state.call(function, choices, results, state.vars, state.guard).focus
            == FocusView::Descend(function.ast),
{
}

/// The arguments of a call are evaluated under the guard of the caller: a
/// call whose argument calls the same function meets no guard on that
/// account.
pub proof fn law_arguments_keep_guard(
    state: EvaluationView,
    pending: PendingView,
    operands: Seq<AstView>,
)
    requires
        operands.len() > 0,
    ensures
        state.gather(pending, operands).guard == state.guard,
        state.gather(pending, operands).vars == state.vars,
        state.gather(pending, operands).focus == FocusView::Descend(operands[0]),
{
}

/// A filter that every element passes changes nothing.
pub proof fn lemma_filter_all<A>(s: Seq<A>, pred: spec_fn(A) -> bool)
    requires
        forall|i: int| 0 <= i < s.len() ==> pred(#[trigger] s[i]),
    ensures
        s.filter(pred) == s,
    decreases s.len(),
{
    reveal(Seq::filter);
    if s.len() > 0 {
        lemma_filter_all(s.drop_last(), pred);
        assert(s.drop_last().push(s.last()) =~= s);
    }
}

/// The outcomes of two operands are combined as a cartesian product, the left
/// operand slowest: an operation on operands with the outcomes `left` and
/// `right` does its work on `left.len() * right.len()` pairs, and the pair at
/// the place `i * right.len() + j` is made of the outcome `i` of the left and
/// the outcome `j` of the right operand.
pub proof fn law_pairs_left_major(left: Seq<ValueView>, right: Seq<ValueView>, i: int, j: int)
    requires
        0 <= i < left.len(),
        0 <= j < right.len(),
    ensures
        pairs_of(combinations(seq![left, right])).len() == left.len() * right.len(),
        0 <= i * right.len() + j < left.len() * right.len(),
        pairs_of(combinations(seq![left, right]))[i * right.len() + j] == (left[i], right[j]),
{
    let all = combinations(seq![left, right]);
    let two = |c: Seq<ValueView>| c.len() == 2;
    crate::helpers::law_product_of_two(left, right, i, j);
    assert forall|k: int| 0 <= k < all.len() implies two(#[trigger] all[k]) by {
        crate::helpers::law_product_widths(seq![left, right], k);
    }
    lemma_filter_all(all, two);
}

/// A tree without operands has the outcomes of its one empty choice: the
/// empty vector is the one outcome of a vector without items.
pub proof fn law_empty_vector(state: EvaluationView)
    ensures
        state.descend(AstView::Vector(Seq::empty())).focus == FocusView::Ascend(
            seq![ValueView::Vector(Seq::empty())],
        ),
{
    crate::helpers::law_product_of_none::<u64>();
    assert(vectors_of(seq![Seq::<u64>::empty()]) =~= seq![ValueView::Vector(Seq::empty())]);
}

} // verus!
