//! The solving of equations that are given by their two sides.

use crate::basetypes::{names_view, pairs_view, Context, AST};
use crate::errors::{EvalError, EvalErrorView};
use crate::evaluator::defect_expressions;
use crate::newton::{objection, start_of, FinderView};
use crate::roots::{made_view, RootFinder};
use crate::semantics::defects;
use crate::unknowns::unknowns_of;
use vstd::prelude::*;

verus! {

/// A solver for the equations, each given by its left and its right side: a
/// solver for the roots of left side minus right side (see
/// [`RootFinder::new`]).
pub fn solve(equations: Vec<(AST, AST)>, context: &Context, search_vars: Vec<String>) -> (res:
    Result<RootFinder, EvalError>)
    ensures
        match objection(
            defects(pairs_view(equations@)),
            context@,
            unknowns_of(defects(pairs_view(equations@)), context@, names_view(search_vars@)),
        ) {
            Some(error) => made_view(res) == Err::<FinderView, EvalErrorView>(error),
            None => made_view(res) == Ok::<FinderView, EvalErrorView>(
                start_of(
                    defects(pairs_view(equations@)),
                    context@,
                    unknowns_of(
                        defects(pairs_view(equations@)),
                        context@,
                        names_view(search_vars@),
                    ),
                ),
            ),
        },
{
    let expressions = defect_expressions(equations);
    RootFinder::new(expressions, context.clone(), search_vars)
}

} // verus!
