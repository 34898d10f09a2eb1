//! The unknowns of equations that name none: the names that stand free in the
//! expressions and are not bound in the context.
//!
//! A name stands free where it is the name of a variable and no operation
//! around it binds it: an integral and a derivative bind their variable in
//! their expression, a system of equations binds its unknowns in its
//! equations.

use crate::basetypes::{
    asts_view, lemma_ast_view, lemma_equation_view, lemma_operation_view, names_view, pairs_view,
    rows_view, text_eq, AdvancedOperation, AstView, Context, ContextView, Operation, Variable,
    AST,
};
use crate::evaluator::holds_name;
use crate::semantics::has_name;
use vstd::prelude::*;

verus! {

/// The names but `name`, in their order.
pub open spec fn without_name(names: Seq<Seq<char>>, name: Seq<char>) -> Seq<Seq<char>> {
    names.filter(|n: Seq<char>| n != name)
}

/// The names that are not among `bound`, in their order.
pub open spec fn without_names(names: Seq<Seq<char>>, bound: Seq<Seq<char>>) -> Seq<Seq<char>> {
    names.filter(|n: Seq<char>| !bound.contains(n))
}

/// The names that stand free in the tree, one for every place where one
/// stands, in the order of the places.
pub open spec fn free_names(ast: AstView) -> Seq<Seq<char>>
    decreases ast, 0nat,
{
    match ast {
        AstView::Scalar(_) => Seq::empty(),
        AstView::Variable(name) => seq![name],
        AstView::Vector(items) => free_in_list(items, items.len() as int),
        AstView::Matrix(rows) => free_in_rows(rows, rows.len() as int),
        AstView::List(items) => free_in_list(items, items.len() as int),
        AstView::Function { name, inputs } => free_in_list(inputs, inputs.len() as int),
        AstView::Simple { op_type, left, right } => free_names(*left) + free_names(*right),
        AstView::Integral { expr, in_terms_of, lower_bound, upper_bound } => without_name(
            free_names(*expr),
            in_terms_of,
        ) + free_names(*lower_bound) + free_names(*upper_bound),
        AstView::Derivative { expr, in_terms_of, at } => without_name(
            free_names(*expr),
            in_terms_of,
        ) + free_names(*at),
        AstView::Equation { equations, search_vars } => without_names(
            free_in_pairs(equations, equations.len() as int),
            search_vars,
        ),
    }
}

/// The names that stand free in the first `n` trees of a list.
pub open spec fn free_in_list(items: Seq<AstView>, n: int) -> Seq<Seq<char>>
    decreases items, n,
{
    if n <= 0 || n > items.len() {
        Seq::empty()
    } else {
        free_in_list(items, n - 1) + free_names(items[n - 1])
    }
}

/// The names that stand free in the first `n` rows of a table.
pub open spec fn free_in_rows(rows: Seq<Seq<AstView>>, n: int) -> Seq<Seq<char>>
    decreases rows, n,
{
    if n <= 0 || n > rows.len() {
        Seq::empty()
    } else {
        free_in_rows(rows, n - 1) + free_in_list(rows[n - 1], rows[n - 1].len() as int)
    }
}

/// The names that stand free in the first `n` equations, left side before
/// right side.
pub open spec fn free_in_pairs(equations: Seq<(AstView, AstView)>, n: int) -> Seq<Seq<char>>
    decreases equations, n,
{
    if n <= 0 || n > equations.len() {
        Seq::empty()
    } else {
        free_in_pairs(equations, n - 1) + free_names(equations[n - 1].0) + free_names(
            equations[n - 1].1,
        )
    }
}

/// The names that stand free in the trees.
pub open spec fn free_in_all(trees: Seq<AstView>) -> Seq<Seq<char>> {
    free_in_list(trees, trees.len() as int)
}

/// The first `n` names, each name once, at the place where it stands first.
pub open spec fn each_once(names: Seq<Seq<char>>, n: int) -> Seq<Seq<char>>
    decreases n,
{
    if n <= 0 || n > names.len() {
        Seq::empty()
    } else {
        let before = each_once(names, n - 1);
        if before.contains(names[n - 1]) {
            before
        } else {
            before.push(names[n - 1])
        }
    }
}

/// The names that stand free in the expressions and are not bound in the
/// context, each once, in the order in which they stand first.
pub open spec fn inferred(expressions: Seq<AstView>, context: ContextView) -> Seq<Seq<char>> {
    let free = free_in_all(expressions).filter(|n: Seq<char>| !has_name(context.vars, n));
    each_once(free, free.len() as int)
}

/// The unknowns of a system: the names that are given, or, where none is
/// given, the names that stand free in the expressions.
pub open spec fn unknowns_of(
    expressions: Seq<AstView>,
    context: ContextView,
    given: Seq<Seq<char>>,
) -> Seq<Seq<char>> {
    if given.len() == 0 {
        inferred(expressions, context)
    } else {
        given
    }
}

/// `first`, then `second`.
fn join_names(first: Vec<String>, second: Vec<String>) -> (res: Vec<String>)
    ensures
        names_view(res@) == names_view(first@) + names_view(second@),
{
    let mut res = first;
    let mut tail = second;
    res.append(&mut tail);
    assert(names_view(res@) =~= names_view(first@) + names_view(second@));
    res
}

/// Whether `name` is among the names.
fn has_text(names: &Vec<String>, name: &str) -> (b: bool)
    ensures
        b == names_view(names@).contains(name@),
{
    let mut i: usize = 0;
    while i < names.len()
        invariant
            i <= names.len(),
            forall|k: int| 0 <= k < i ==> names_view(names@)[k] != name@,
        decreases names.len() - i,
    {
        assert(names_view(names@)[i as int] == names@[i as int]@);
        if text_eq(names[i].as_str(), name) {
            return true;
        }
        i = i + 1;
    }
    false
}

/// The names but `name`.
fn drop_name(names: Vec<String>, name: &str) -> (res: Vec<String>)
    ensures
        names_view(res@) == without_name(names_view(names@), name@),
{
    let ghost all = names_view(names@);
    let ghost keep = |n: Seq<char>| n != name@;
    let mut res: Vec<String> = Vec::new();
    let mut i: usize = 0;
    proof {
        assert(all.take(0) =~= Seq::empty());
        assert(names_view(res@) =~= Seq::empty());
    }
    while i < names.len()
        invariant
            i <= names.len(),
            all == names_view(names@),
            keep == |n: Seq<char>| n != name@,
            names_view(res@) == all.take(i as int).filter(keep),
        decreases names.len() - i,
    {
        let ghost done = all.take(i as int);
        let ghost before = names_view(res@);
        proof {
            assert(all[i as int] == names@[i as int]@);
            assert(all.take(i + 1) == done.push(all[i as int]));
            done.lemma_filter_push(all[i as int], keep);
        }
        if !text_eq(names[i].as_str(), name) {
            res.push(names[i].clone());
            assert(names_view(res@) =~= before.push(all[i as int]));
        }
        i = i + 1;
    }
    assert(all.take(names.len() as int) == all);
    res
}

/// The names that are not among `bound`.
fn drop_names(names: Vec<String>, bound: &Vec<String>) -> (res: Vec<String>)
    ensures
        names_view(res@) == without_names(names_view(names@), names_view(bound@)),
{
    let ghost all = names_view(names@);
    let ghost keep = |n: Seq<char>| !names_view(bound@).contains(n);
    let mut res: Vec<String> = Vec::new();
    let mut i: usize = 0;
    proof {
        assert(all.take(0) =~= Seq::empty());
        assert(names_view(res@) =~= Seq::empty());
    }
    while i < names.len()
        invariant
            i <= names.len(),
            all == names_view(names@),
            keep == |n: Seq<char>| !names_view(bound@).contains(n),
            names_view(res@) == all.take(i as int).filter(keep),
        decreases names.len() - i,
    {
        let ghost done = all.take(i as int);
        let ghost before = names_view(res@);
        proof {
            assert(all[i as int] == names@[i as int]@);
            assert(all.take(i + 1) == done.push(all[i as int]));
            done.lemma_filter_push(all[i as int], keep);
        }
        if !has_text(bound, names[i].as_str()) {
            res.push(names[i].clone());
            assert(names_view(res@) =~= before.push(all[i as int]));
        }
        i = i + 1;
    }
    assert(all.take(names.len() as int) == all);
    res
}

/// The names that stand free in the trees of a list.
#[verifier::loop_isolation(false)]
fn names_in_list(items: &Vec<AST>) -> (res: Vec<String>)
    ensures
        names_view(res@) == free_in_list(asts_view(items@), items.len() as int),
    decreases items,
{
    let ghost trees = asts_view(items@);
    let mut res: Vec<String> = Vec::new();
    let mut i: usize = 0;
    assert(names_view(res@) =~= Seq::empty());
    while i < items.len()
        invariant
            i <= items.len(),
            names_view(res@) == free_in_list(trees, i as int),
        decreases items.len() - i,
    {
        assert(trees[i as int] == items@[i as int]@);
        let more = names_in(&items[i]);
        res = join_names(res, more);
        i = i + 1;
    }
    res
}

/// The names that stand free in the tree (see [`free_names`]).
#[verifier::loop_isolation(false)]
pub fn names_in(ast: &AST) -> (res: Vec<String>)
    ensures
        names_view(res@) == free_names(ast@),
    decreases ast,
{
    proof {
        lemma_ast_view(*ast);
        lemma_operation_view(*ast);
    }
    match ast {
        AST::Scalar(_) => {
            let res: Vec<String> = Vec::new();
            assert(names_view(res@) =~= Seq::empty());
            res
        },
        AST::Variable(name) => {
            let mut res: Vec<String> = Vec::new();
            res.push(name.clone());
            assert(names_view(res@) =~= seq![name@]);
            res
        },
        AST::Vector(items) => {
            assert(asts_view(items@).len() == items.len());
            names_in_list(items)
        },
        AST::List(items) => {
            assert(asts_view(items@).len() == items.len());
            names_in_list(items)
        },
        AST::Function { name, inputs } => {
            assert(asts_view(inputs@).len() == inputs.len());
            names_in_list(inputs)
        },
        AST::Matrix(rows) => {
            let ghost table = rows_view(rows@);
            let mut res: Vec<String> = Vec::new();
            let mut i: usize = 0;
            assert(names_view(res@) =~= Seq::empty());
            while i < rows.len()
                invariant
                    i <= rows.len(),
                    names_view(res@) == free_in_rows(table, i as int),
                decreases rows.len() - i,
            {
                let more = names_in_list(&rows[i]);
                proof {
                    assert(table[i as int] == asts_view(rows@[i as int]@));
                    assert(table[i as int].len() == rows@[i as int].len());
                }
                res = join_names(res, more);
                i = i + 1;
            }
            assert(table.len() == rows.len());
            res
        },
        AST::Operation(operation) => match &**operation {
            Operation::SimpleOperation { op_type, left, right } => {
                join_names(names_in(left), names_in(right))
            },
            Operation::AdvancedOperation(advanced) => {
                proof {
                    lemma_equation_view(*advanced);
                }
                match advanced {
                    AdvancedOperation::Integral { expr, in_terms_of, lower_bound, upper_bound } => {
                        let inner = drop_name(names_in(expr), in_terms_of.as_str());
                        join_names(
                            join_names(inner, names_in(lower_bound)),
                            names_in(upper_bound),
                        )
                    },
                    AdvancedOperation::Derivative { expr, in_terms_of, at } => {
                        let inner = drop_name(names_in(expr), in_terms_of.as_str());
                        join_names(inner, names_in(at))
                    },
                    AdvancedOperation::Equation { equations, search_vars } => {
                        let ghost pairs = pairs_view(equations@);
                        let mut all: Vec<String> = Vec::new();
                        let mut i: usize = 0;
                        assert(names_view(all@) =~= Seq::empty());
                        while i < equations.len()
                            invariant
                                i <= equations.len(),
                                names_view(all@) == free_in_pairs(pairs, i as int),
                            decreases equations.len() - i,
                        {
                            proof {
                                assert(pairs[i as int] == (
                                    equations@[i as int].0@,
                                    equations@[i as int].1@,
                                ));
                            }
                            let left = names_in(&equations[i].0);
                            let right = names_in(&equations[i].1);
                            all = join_names(join_names(all, left), right);
                            i = i + 1;
                        }
                        assert(pairs.len() == equations.len());
                        drop_names(all, search_vars)
                    },
                }
            },
        },
    }
}

/// The names that stand free in the expressions and are not bound in the
/// context, each once (see [`inferred`]).
pub fn infer_unknowns(expressions: &Vec<AST>, context: &Context) -> (res: Vec<String>)
    ensures
        names_view(res@) == inferred(asts_view(expressions@), context@),
{
    let all = names_in_list(expressions);
    assert(asts_view(expressions@).len() == expressions.len());
    let ghost unbound = |n: Seq<char>| !has_name(context@.vars, n);
    let ghost found = names_view(all@);
    let mut free: Vec<String> = Vec::new();
    let mut j: usize = 0;
    proof {
        assert(found.take(0) =~= Seq::empty());
        assert(names_view(free@) =~= Seq::empty());
    }
    while j < all.len()
        invariant
            j <= all.len(),
            found == names_view(all@),
            unbound == |n: Seq<char>| !has_name(context@.vars, n),
            names_view(free@) == found.take(j as int).filter(unbound),
        decreases all.len() - j,
    {
        let ghost done = found.take(j as int);
        let ghost before = names_view(free@);
        proof {
            assert(found[j as int] == all@[j as int]@);
            assert(found.take(j + 1) == done.push(found[j as int]));
            done.lemma_filter_push(found[j as int], unbound);
        }
        if !holds_name(&context.vars, all[j].as_str()) {
            free.push(all[j].clone());
            assert(names_view(free@) =~= before.push(found[j as int]));
        }
        j = j + 1;
    }
    assert(found.take(all.len() as int) == found);
    let ghost names = names_view(free@);
    let mut res: Vec<String> = Vec::new();
    let mut n: usize = 0;
    assert(names_view(res@) =~= Seq::empty());
    while n < free.len()
        invariant
            n <= free.len(),
            names == names_view(free@),
            names_view(res@) == each_once(names, n as int),
        decreases free.len() - n,
    {
        let ghost before = names_view(res@);
        assert(names[n as int] == free@[n as int]@);
        if !has_text(&res, free[n].as_str()) {
            res.push(free[n].clone());
            assert(names_view(res@) =~= before.push(names[n as int]));
        }
        n = n + 1;
    }
    assert(names.len() == free.len());
    res
}

} // verus!
