//! The parser: from a text to its syntax tree.
//!
//! Every function here computes what the function of the same name in
//! [`crate::grammar`] defines.

use crate::basetypes::{
    asts_view, clone_asts, lemma_ast_view, lemma_equation_view, lemma_operation_view, names_view,
    pairs_view, placeholder, rows_view, AdvancedOperation, AstView, Operation, SimpleOpType, AST,
};
use crate::errors::{ParserError, ParserErrorView};
use crate::grammar;
use crate::grammar::{
    all_vectors, builtin_from, builtins, collect, equation_entries, equation_side, find, inside,
    parse_each, parse_equations, parse_spec, parse_text, rectangular, rows_of, transposed,
    unknown_entries, Parsed,
};
use crate::helpers::{get_args, lemma_split_args_lengths, texts};
use crate::lexer::{
    begins_with, find_char, find_split, is_numeral_text, round_balance, valid_name_chars,
};
use crate::text::{
    chars_of, encoded_len, is_name_start, push_char, slice_of, string_of, strip_whitespace,
};
use vstd::prelude::*;
use vstd::string::StringExecFns;

verus! {

/// What the parser returned, mathematically.
pub open spec fn parsed_view(r: Result<AST, ParserError>) -> Parsed {
    match r {
        Ok(a) => Ok(a@),
        Err(e) => Err(e@),
    }
}

pub open spec fn parsed_all_view(r: Result<Vec<AST>, ParserError>) -> Result<
    Seq<AstView>,
    ParserErrorView,
> {
    match r {
        Ok(items) => Ok(asts_view(items@)),
        Err(e) => Err(e@),
    }
}

pub open spec fn parsed_pair_view(r: Result<(AST, AST), ParserError>) -> Result<
    (AstView, AstView),
    ParserErrorView,
> {
    match r {
        Ok(pair) => Ok((pair.0@, pair.1@)),
        Err(e) => Err(e@),
    }
}

pub open spec fn parsed_pairs_view(r: Result<Vec<(AST, AST)>, ParserError>) -> Result<
    Seq<(AstView, AstView)>,
    ParserErrorView,
> {
    match r {
        Ok(pairs) => Ok(pairs_view(pairs@)),
        Err(e) => Err(e@),
    }
}

/// An error among the first results is the error of all results.
pub proof fn lemma_collect_prefix<A, E>(results: Seq<Result<A, E>>, k: int)
    requires
        0 <= k <= results.len(),
        collect(results.take(k)) is Err,
    ensures
        collect(results) == Err::<Seq<A>, E>(collect(results.take(k))->Err_0),
    decreases results.len() - k,
{
    if k < results.len() {
        assert(results.take(k + 1).drop_last() == results.take(k));
        lemma_collect_prefix(results, k + 1);
    } else {
        assert(results.take(k) == results);
    }
}

/// The tree that stands on the unused side of a unary operator.
fn placeholder_ast() -> (a: AST)
    ensures
        a@ == placeholder(),
{
    let mut zero = String::new();
    push_char(&mut zero, '0');
    assert(zero@ =~= seq!['0']);
    AST::Scalar(zero)
}

fn simple(op_type: SimpleOpType, left: AST, right: AST) -> (a: AST)
    ensures
        a@ == (AstView::Simple { op_type, left: Box::new(left@), right: Box::new(right@) }),
{
    let a = AST::Operation(Box::new(Operation::SimpleOperation { op_type, left, right }));
    proof {
        lemma_operation_view(a);
    }
    a
}

fn advanced(operation: AdvancedOperation) -> (a: AST)
    ensures
        a@ == operation@,
{
    let a = AST::Operation(Box::new(Operation::AdvancedOperation(operation)));
    proof {
        lemma_operation_view(a);
        lemma_equation_view(operation);
    }
    a
}

/// The text between an opening of `opening` characters and the last
/// character.
fn inner_of(v: &Vec<char>, opening: usize) -> (r: Vec<char>)
    ensures
        r@ == inside(v@, opening as int),
        r.len() < v.len() || v.len() == 0,
{
    if v.len() >= 1 && opening <= v.len() - 1 {
        slice_of(v, opening, v.len() - 1)
    } else {
        Vec::new()
    }
}

/// The built-in functions by the text that opens their call.
fn builtin_table() -> (table: Vec<(SimpleOpType, Vec<char>)>)
    ensures
        table@.map_values(|entry: (SimpleOpType, Vec<char>)| (entry.0, entry.1@)) == builtins(),
{
    let mut table: Vec<(SimpleOpType, Vec<char>)> = Vec::new();
    table.push((SimpleOpType::Sin, chars_of("sin(")));
    table.push((SimpleOpType::Cos, chars_of("cos(")));
    table.push((SimpleOpType::Tan, chars_of("tan(")));
    table.push((SimpleOpType::Abs, chars_of("abs(")));
    table.push((SimpleOpType::Sqrt, chars_of("sqrt(")));
    table.push((SimpleOpType::Root, chars_of("root(")));
    table.push((SimpleOpType::Ln, chars_of("ln(")));
    table.push((SimpleOpType::Arcsin, chars_of("arcsin(")));
    table.push((SimpleOpType::Arccos, chars_of("arccos(")));
    table.push((SimpleOpType::Arctan, chars_of("arctan(")));
    table.push((SimpleOpType::Det, chars_of("det(")));
    table.push((SimpleOpType::Inv, chars_of("inv(")));
    assert(table@.map_values(|entry: (SimpleOpType, Vec<char>)| (entry.0, entry.1@))
        =~= builtins());
    table
}

/// The built-in function whose call the text opens with, and the length of
/// the opening.
fn builtin_call(v: &Vec<char>) -> (found: Option<(SimpleOpType, usize)>)
    ensures
        found matches Some(call) ==> builtin_from(v@, 0) matches Some(entry) && entry.0 == call.0
            && entry.1.len() == call.1,
        found is None ==> builtin_from(v@, 0) is None,
{
    let table = builtin_table();
    let ghost views = table@.map_values(|entry: (SimpleOpType, Vec<char>)| (entry.0, entry.1@));
    let mut rank: usize = 0;
    while rank < table.len()
        invariant
            rank <= table.len(),
            views == table@.map_values(|entry: (SimpleOpType, Vec<char>)| (entry.0, entry.1@)),
            views == builtins(),
            builtin_from(v@, 0) == builtin_from(v@, rank as int),
        decreases table.len() - rank,
    {
        assert(views[rank as int] == (table@[rank as int].0, table@[rank as int].1@));
        if begins_with(v, &table[rank].1) {
            return Some((table[rank].0, table[rank].1.len()));
        }
        rank = rank + 1;
    }
    None
}

/// The syntax tree of a text without white space.
pub fn parse_inner(v: &Vec<char>) -> (r: Result<AST, ParserError>)
    ensures
        parsed_view(r) == parse_text(v@),
    decreases v.len(), 4nat,
{
    if v.len() == 0 {
        return Err(ParserError::EmptyExpr);
    }
    let balance = round_balance(v);
    if balance.0 > 0 {
        return Err(ParserError::UnmatchedOpenDelimiter);
    }
    if balance.0 < 0 {
        return Err(ParserError::UnmatchedCloseDelimiter);
    }
    if balance.1 && v.len() >= 2 && v[0] == '(' && v[v.len() - 1] == ')' {
        let inner = slice_of(v, 1, v.len() - 1);
        return match parse_inner(&inner) {
            Err(e) => Err(e),
            Ok(tree) => Ok(simple(SimpleOpType::Parenths, tree, placeholder_ast())),
        };
    }
    match find_split(v) {
        Some(found) => parse_operation(v, found.0, found.1),
        None => parse_operand(v),
    }
}

fn parse_operation(v: &Vec<char>, op: SimpleOpType, at: usize) -> (r: Result<AST, ParserError>)
    requires
        at == grammar::split_position(v@, op),
        at < v.len(),
    ensures
        parsed_view(r) == grammar::parse_operation(v@, op),
    decreases v.len(), 3nat,
{
    let behind = if op == SimpleOpType::HiddenMult {
        at
    } else {
        at + 1
    };
    if !(0 < behind && behind <= v.len()) {
        return Err(ParserError::EmptyExpr);
    }
    let right_text = slice_of(v, behind, v.len());
    let right = match parse_inner(&right_text) {
        Err(e) => {
            return Err(e);
        },
        Ok(tree) => tree,
    };
    if at == 0 {
        return Ok(simple(op, placeholder_ast(), right));
    }
    let left_text = slice_of(v, 0, at);
    match parse_inner(&left_text) {
        Err(e) => Err(e),
        Ok(left) => Ok(simple(op, left, right)),
    }
}

/// The trees of the texts, or the first error.
fn parse_all(items: &Vec<Vec<char>>, Ghost(bound): Ghost<nat>) -> (r: Result<
    Vec<AST>,
    ParserError,
>)
    requires
        forall|k: int| 0 <= k < items.len() ==> (#[trigger] items@[k]).len() < bound,
    ensures
        parsed_all_view(r) == collect(parse_each(texts(items@), bound)),
    decreases bound, 0nat,
{
    let ghost results = parse_each(texts(items@), bound);
    let mut out: Vec<AST> = Vec::new();
    let mut i: usize = 0;
    proof {
        assert(results.take(0) =~= Seq::empty());
        assert(asts_view(out@) =~= Seq::empty());
    }
    while i < items.len()
        invariant
            i <= items.len(),
            results == parse_each(texts(items@), bound),
            forall|k: int| 0 <= k < items.len() ==> (#[trigger] items@[k]).len() < bound,
            collect(results.take(i as int)) == Ok::<Seq<AstView>, ParserErrorView>(
                asts_view(out@),
            ),
        decreases items.len() - i,
    {
        proof {
            assert(results.take(i + 1).drop_last() == results.take(i as int));
            assert(results.take(i + 1).last() == results[i as int]);
            assert(texts(items@)[i as int] == items@[i as int]@);
            assert(results[i as int] == parse_text(items@[i as int]@));
        }
        match parse_inner(&items[i]) {
            Err(e) => {
                proof {
                    lemma_collect_prefix(results, i + 1);
                }
                return Err(e);
            },
            Ok(tree) => {
                let ghost before = asts_view(out@);
                out.push(tree);
                assert(asts_view(out@) =~= before.push(tree@));
            },
        }
        i = i + 1;
    }
    assert(results.take(items.len() as int) == results);
    Ok(out)
}

fn parse_operand(v: &Vec<char>) -> (r: Result<AST, ParserError>)
    ensures
        parsed_view(r) == grammar::parse_operand(v@),
    decreases v.len(), 3nat,
{
    if v.len() == 0 {
        return Err(ParserError::EmptyExpr);
    }
    match builtin_call(v) {
        Some(call) => {
            return parse_builtin(v, call.0, call.1);
        },
        None => {},
    }
    let integral = chars_of("I(");
    if begins_with(v, &integral) {
        return parse_integral(v);
    }
    let derivative = chars_of("D(");
    if begins_with(v, &derivative) {
        return parse_derivative(v);
    }
    let system = chars_of("eq(");
    if begins_with(v, &system) {
        return parse_system(v);
    }
    let open = find_char(v, '(', 0);
    if 0 < open && open < v.len() && v[v.len() - 1] == ')' {
        return parse_call(v);
    }
    if is_name_start(v[0]) {
        if valid_name_chars(v) {
            return Ok(AST::Variable(string_of(v)));
        } else {
            return Err(ParserError::InvalidVariableName(string_of(v)));
        }
    }
    if v[0] == '{' && v[v.len() - 1] == '}' {
        let body = inner_of(v, 1);
        let args = get_args(&body);
        proof {
            lemma_split_args_lengths(body@);
            assert forall|k: int| 0 <= k < args.len() implies (#[trigger] args@[k]).len()
                < v.len() by {
                assert(texts(args@)[k] == args@[k]@);
            }
        }
        return match parse_all(&args, Ghost(v.len() as nat)) {
            Err(e) => Err(e),
            Ok(items) => {
                let list = AST::List(items);
                proof {
                    lemma_ast_view(list);
                }
                Ok(list)
            },
        };
    }
    parse_literal(v)
}

fn parse_builtin(v: &Vec<char>, op: SimpleOpType, opening: usize) -> (r: Result<
    AST,
    ParserError,
>)
    ensures
        parsed_view(r) == grammar::parse_builtin(v@, op, opening as nat),
    decreases v.len(), 2nat,
{
    let body = inner_of(v, opening);
    if opening == 0 || body.len() >= v.len() {
        return Err(ParserError::EmptyExpr);
    }
    if op == SimpleOpType::Root {
        let args = get_args(&body);
        proof {
            lemma_split_args_lengths(body@);
            assert(texts(args@).len() == args.len());
        }
        if args.len() != 2 {
            return Err(ParserError::WrongNumberOfArgs(String::from_str("root")));
        }
        proof {
            assert(texts(args@)[0] == args@[0]@);
            assert(texts(args@)[1] == args@[1]@);
        }
        let left = match parse_inner(&args[0]) {
            Err(e) => {
                return Err(e);
            },
            Ok(tree) => tree,
        };
        return match parse_inner(&args[1]) {
            Err(e) => Err(e),
            Ok(right) => Ok(simple(op, left, right)),
        };
    }
    match parse_inner(&body) {
        Err(e) => Err(e),
        Ok(left) => Ok(simple(op, left, placeholder_ast())),
    }
}

fn parse_integral(v: &Vec<char>) -> (r: Result<AST, ParserError>)
    ensures
        parsed_view(r) == grammar::parse_integral(v@),
    decreases v.len(), 2nat,
{
    let body = inner_of(v, 2);
    let args = get_args(&body);
    proof {
        lemma_split_args_lengths(body@);
        assert(texts(args@).len() == args.len());
    }
    if args.len() != 4 {
        return Err(ParserError::WrongNumberOfArgs(String::from_str("integral")));
    }
    proof {
        assert(texts(args@)[0] == args@[0]@);
        assert(texts(args@)[1] == args@[1]@);
        assert(texts(args@)[2] == args@[2]@);
        assert(texts(args@)[3] == args@[3]@);
    }
    if v.len() == 0 {
        return Err(ParserError::EmptyExpr);
    }
    let expr = match parse_inner(&args[0]) {
        Err(e) => {
            return Err(e);
        },
        Ok(tree) => tree,
    };
    let lower_bound = match parse_inner(&args[2]) {
        Err(e) => {
            return Err(e);
        },
        Ok(tree) => tree,
    };
    let upper_bound = match parse_inner(&args[3]) {
        Err(e) => {
            return Err(e);
        },
        Ok(tree) => tree,
    };
    Ok(
        advanced(
            AdvancedOperation::Integral {
                expr,
                in_terms_of: string_of(&args[1]),
                lower_bound,
                upper_bound,
            },
        ),
    )
}

fn parse_derivative(v: &Vec<char>) -> (r: Result<AST, ParserError>)
    ensures
        parsed_view(r) == grammar::parse_derivative(v@),
    decreases v.len(), 2nat,
{
    let body = inner_of(v, 2);
    let args = get_args(&body);
    proof {
        lemma_split_args_lengths(body@);
        assert(texts(args@).len() == args.len());
    }
    if args.len() != 3 {
        return Err(ParserError::WrongNumberOfArgs(String::from_str("derivative")));
    }
    proof {
        assert(texts(args@)[0] == args@[0]@);
        assert(texts(args@)[1] == args@[1]@);
        assert(texts(args@)[2] == args@[2]@);
    }
    if v.len() == 0 {
        return Err(ParserError::EmptyExpr);
    }
    let expr = match parse_inner(&args[0]) {
        Err(e) => {
            return Err(e);
        },
        Ok(tree) => tree,
    };
    let at = match parse_inner(&args[2]) {
        Err(e) => {
            return Err(e);
        },
        Ok(tree) => tree,
    };
    Ok(advanced(AdvancedOperation::Derivative { expr, in_terms_of: string_of(&args[1]), at }))
}

/// A side of an equation.
fn side_of(entry: &Vec<char>, right: bool) -> (side: Vec<char>)
    ensures
        side@ == equation_side(entry@, right),
        side.len() <= entry.len(),
{
    let first = find_char(entry, '=', 0);
    if !right {
        slice_of(entry, 0, first)
    } else if first < entry.len() {
        let second = find_char(entry, '=', first + 1);
        slice_of(entry, first + 1, second)
    } else {
        Vec::new()
    }
}

/// The two sides of an equation, the longer one first.
fn parse_equation(entry: &Vec<char>, Ghost(bound): Ghost<nat>) -> (r: Result<
    (AST, AST),
    ParserError,
>)
    requires
        entry.len() < bound,
    ensures
        parsed_pair_view(r) == grammar::parse_equation(entry@, bound),
    decreases bound, 0nat,
{
    let left = side_of(entry, false);
    let right = side_of(entry, true);
    let left_first = encoded_len(&left) >= encoded_len(&right);
    let first = if left_first {
        &left
    } else {
        &right
    };
    let second = if left_first {
        &right
    } else {
        &left
    };
    let a = match parse_inner(first) {
        Err(e) => {
            return Err(e);
        },
        Ok(tree) => tree,
    };
    match parse_inner(second) {
        Err(e) => Err(e),
        Ok(b) => Ok((a, b)),
    }
}

/// The sides of the equations, or the first error.
fn parse_equation_list(entries: &Vec<Vec<char>>, Ghost(bound): Ghost<nat>) -> (r: Result<
    Vec<(AST, AST)>,
    ParserError,
>)
    requires
        forall|k: int| 0 <= k < entries.len() ==> (#[trigger] entries@[k]).len() < bound,
    ensures
        parsed_pairs_view(r) == collect(parse_equations(texts(entries@), bound)),
    decreases bound, 1nat,
{
    let ghost results = parse_equations(texts(entries@), bound);
    let mut out: Vec<(AST, AST)> = Vec::new();
    let mut i: usize = 0;
    proof {
        assert(results.take(0) =~= Seq::empty());
        assert(pairs_view(out@) =~= Seq::empty());
    }
    while i < entries.len()
        invariant
            i <= entries.len(),
            results == parse_equations(texts(entries@), bound),
            forall|k: int| 0 <= k < entries.len() ==> (#[trigger] entries@[k]).len() < bound,
            collect(results.take(i as int)) == Ok::<Seq<(AstView, AstView)>, ParserErrorView>(
                pairs_view(out@),
            ),
        decreases entries.len() - i,
    {
        proof {
            assert(results.take(i + 1).drop_last() == results.take(i as int));
            assert(results.take(i + 1).last() == results[i as int]);
            assert(texts(entries@)[i as int] == entries@[i as int]@);
        }
        match parse_equation(&entries[i], Ghost((entries[i as int].len() + 1) as nat)) {
            Err(e) => {
                proof {
                    lemma_collect_prefix(results, i + 1);
                }
                return Err(e);
            },
            Ok(pair) => {
                let ghost before = pairs_view(out@);
                out.push(pair);
                assert(pairs_view(out@) =~= before.push((pair.0@, pair.1@)));
            },
        }
        i = i + 1;
    }
    assert(results.take(entries.len() as int) == results);
    Ok(out)
}

/// The entries of an `eq(..)`, parted into equations and names of unknowns.
fn part_entries(entries: &Vec<Vec<char>>, Ghost(limit): Ghost<nat>) -> (parts: (
    Vec<Vec<char>>,
    Vec<String>,
))
    requires
        forall|k: int| 0 <= k < entries.len() ==> (#[trigger] entries@[k]).len() <= limit,
    ensures
        texts(parts.0@) == equation_entries(texts(entries@)),
        names_view(parts.1@) == unknown_entries(texts(entries@)),
        forall|k: int| 0 <= k < parts.0.len() ==> (#[trigger] parts.0@[k]).len() <= limit,
{
    let mut equations: Vec<Vec<char>> = Vec::new();
    let mut unknowns: Vec<String> = Vec::new();
    let ghost is_equation = |e: Seq<char>| find(e, '=', 0) < e.len();
    let ghost is_unknown = |e: Seq<char>| !(find(e, '=', 0) < e.len());
    let mut i: usize = 0;
    proof {
        assert(texts(entries@).take(0) =~= Seq::empty());
        assert(texts(equations@) =~= Seq::empty());
        assert(names_view(unknowns@) =~= Seq::empty());
    }
    while i < entries.len()
        invariant
            i <= entries.len(),
            is_equation == |e: Seq<char>| find(e, '=', 0) < e.len(),
            is_unknown == |e: Seq<char>| !(find(e, '=', 0) < e.len()),
            texts(equations@) == texts(entries@).take(i as int).filter(is_equation),
            names_view(unknowns@) == texts(entries@).take(i as int).filter(is_unknown),
            forall|k: int| 0 <= k < entries.len() ==> (#[trigger] entries@[k]).len() <= limit,
            forall|k: int| 0 <= k < equations.len() ==> (#[trigger] equations@[k]).len() <= limit,
        decreases entries.len() - i,
    {
        let ghost done = texts(entries@).take(i as int);
        let ghost entry = entries@[i as int]@;
        proof {
            assert(texts(entries@).take(i + 1) == done.push(entry));
            done.lemma_filter_push(entry, is_equation);
            done.lemma_filter_push(entry, is_unknown);
        }
        let first = find_char(&entries[i], '=', 0);
        if first < entries[i].len() {
            let ghost before = texts(equations@);
            let copy = slice_of(&entries[i], 0, entries[i].len());
            assert(copy@ == entry);
            equations.push(copy);
            assert(texts(equations@) =~= before.push(entry));
        } else {
            let ghost before = names_view(unknowns@);
            unknowns.push(string_of(&entries[i]));
            assert(names_view(unknowns@) =~= before.push(entry));
        }
        i = i + 1;
    }
    assert(texts(entries@).take(entries.len() as int) == texts(entries@));
    (equations, unknowns)
}

fn parse_system(v: &Vec<char>) -> (r: Result<AST, ParserError>)
    ensures
        parsed_view(r) == grammar::parse_system(v@),
    decreases v.len(), 2nat,
{
    if v.len() == 0 {
        return Err(ParserError::EmptyExpr);
    }
    let body = inner_of(v, 3);
    let entries = get_args(&body);
    proof {
        lemma_split_args_lengths(body@);
        assert forall|k: int| 0 <= k < entries.len() implies (#[trigger] entries@[k]).len()
            <= body.len() by {
            assert(texts(entries@)[k] == entries@[k]@);
        }
    }
    let parts = part_entries(&entries, Ghost(body.len() as nat));
    match parse_equation_list(&parts.0, Ghost(v.len() as nat)) {
        Err(e) => Err(e),
        Ok(equations) => {
            let system = AdvancedOperation::Equation { equations, search_vars: parts.1 };
            proof {
                lemma_equation_view(system);
            }
            Ok(advanced(system))
        },
    }
}

fn parse_call(v: &Vec<char>) -> (r: Result<AST, ParserError>)
    ensures
        parsed_view(r) == grammar::parse_call(v@),
    decreases v.len(), 2nat,
{
    let open = find_char(v, '(', 0);
    if !(0 < open && open < v.len()) {
        return Err(ParserError::EmptyExpr);
    }
    let name = slice_of(v, 0, open);
    let body = inner_of(v, open + 1);
    let args = get_args(&body);
    proof {
        lemma_split_args_lengths(body@);
        assert forall|k: int| 0 <= k < args.len() implies (#[trigger] args@[k]).len()
            < v.len() by {
            assert(texts(args@)[k] == args@[k]@);
        }
    }
    match parse_all(&args, Ghost(v.len() as nat)) {
        Err(e) => Err(e),
        Ok(inputs) => {
            if valid_name_chars(&name) {
                let call = AST::Function { name: string_of(&name), inputs: Box::new(inputs) };
                proof {
                    lemma_ast_view(call);
                }
                Ok(call)
            } else {
                Err(ParserError::InvalidFunctionName(string_of(&name)))
            }
        },
    }
}

/// The rows held by a list of vectors, or nothing if an item is no vector.
fn rows_from(items: &Vec<AST>) -> (rows: Option<Vec<Vec<AST>>>)
    ensures
        rows is Some == all_vectors(asts_view(items@)),
        rows matches Some(table) ==> rows_view(table@) == rows_of(asts_view(items@)),
{
    let mut table: Vec<Vec<AST>> = Vec::new();
    let mut i: usize = 0;
    while i < items.len()
        invariant
            i <= items.len(),
            table.len() == i,
            forall|k: int| 0 <= k < i ==> #[trigger] asts_view(items@)[k] is Vector,
            forall|k: int|
                0 <= k < i ==> asts_view(#[trigger] table@[k]@) == asts_view(
                    items@,
                )[k]->Vector_0,
        decreases items.len() - i,
    {
        proof {
            lemma_ast_view(items@[i as int]);
            lemma_operation_view(items@[i as int]);
            assert(asts_view(items@)[i as int] == items@[i as int]@);
        }
        match &items[i] {
            AST::Vector(inner) => {
                table.push(clone_asts(inner));
            },
            _ => {
                assert(!(asts_view(items@)[i as int] is Vector));
                return None;
            },
        }
        i = i + 1;
    }
    assert(rows_view(table@) =~= rows_of(asts_view(items@)));
    Some(table)
}

/// Whether every row is as long as the first.
fn is_rectangular(table: &Vec<Vec<AST>>) -> (b: bool)
    ensures
        b == rectangular(rows_view(table@)),
{
    let mut i: usize = 0;
    while i < table.len()
        invariant
            i <= table.len(),
            forall|k: int|
                0 <= k < i ==> (#[trigger] rows_view(table@)[k]).len() == rows_view(
                    table@,
                )[0].len(),
        decreases table.len() - i,
    {
        assert(rows_view(table@)[i as int].len() == table@[i as int].len());
        assert(rows_view(table@)[0].len() == table@[0].len());
        if table[i].len() != table[0].len() {
            return false;
        }
        i = i + 1;
    }
    true
}

/// The table that holds in its row `i` the items at place `i` of the rows of
/// `table`.
fn transpose(table: &Vec<Vec<AST>>) -> (res: Vec<Vec<AST>>)
    requires
        rectangular(rows_view(table@)),
    ensures
        rows_view(res@) == transposed(rows_view(table@)),
{
    let mut res: Vec<Vec<AST>> = Vec::new();
    if table.len() == 0 {
        assert(rows_view(res@) =~= transposed(rows_view(table@)));
        return res;
    }
    let width = table[0].len();
    assert(rows_view(table@)[0].len() == width);
    let mut i: usize = 0;
    while i < width
        invariant
            i <= width,
            table.len() > 0,
            width == table@[0].len(),
            rectangular(rows_view(table@)),
            res.len() == i,
            forall|a: int, b: int|
                0 <= a < i && 0 <= b < table.len() ==> (#[trigger] res@[a]).len() == table.len()
                    && (#[trigger] res@[a]@[b])@ == table@[b]@[a]@,
            forall|a: int| 0 <= a < i ==> (#[trigger] res@[a]).len() == table.len(),
        decreases width - i,
    {
        let mut row: Vec<AST> = Vec::new();
        let mut j: usize = 0;
        while j < table.len()
            invariant
                j <= table.len(),
                i < width,
                width == table@[0].len(),
                rectangular(rows_view(table@)),
                row.len() == j,
                forall|b: int| 0 <= b < j ==> (#[trigger] row@[b])@ == table@[b]@[i as int]@,
            decreases table.len() - j,
        {
            assert(rows_view(table@)[j as int].len() == table@[j as int].len());
            assert(rows_view(table@)[0].len() == table@[0].len());
            row.push(table[j][i].clone());
            j = j + 1;
        }
        res.push(row);
        i = i + 1;
    }
    proof {
        let got = rows_view(res@);
        let want = transposed(rows_view(table@));
        assert(got.len() == want.len());
        assert forall|a: int| 0 <= a < got.len() implies got[a] =~= want[a] by {
            assert(got[a] == asts_view(res@[a]@));
            assert(got[a].len() == table.len());
            assert forall|b: int| 0 <= b < table.len() implies got[a][b] == want[a][b] by {
                assert(res@[a]@[b]@ == table@[b]@[a]@);
                assert(rows_view(table@)[b] == asts_view(table@[b]@));
                assert(rows_view(table@)[b].len() == rows_view(table@)[0].len());
            }
        }
        assert(got =~= want);
    }
    res
}

/// Whether an item is a vector, and whether an item is a matrix.
fn kinds_of(items: &Vec<AST>) -> (kinds: (bool, bool))
    ensures
        kinds.0 == exists|k: int|
            0 <= k < items.len() && #[trigger] asts_view(items@)[k] is Vector,
        kinds.1 == exists|k: int|
            0 <= k < items.len() && #[trigger] asts_view(items@)[k] is Matrix,
{
    let mut vector = false;
    let mut matrix = false;
    let mut i: usize = 0;
    while i < items.len()
        invariant
            i <= items.len(),
            vector ==> exists|k: int| 0 <= k < i && #[trigger] asts_view(items@)[k] is Vector,
            !vector ==> forall|k: int| 0 <= k < i ==> !(#[trigger] asts_view(items@)[k] is Vector),
            matrix ==> exists|k: int| 0 <= k < i && #[trigger] asts_view(items@)[k] is Matrix,
            !matrix ==> forall|k: int| 0 <= k < i ==> !(#[trigger] asts_view(items@)[k] is Matrix),
        decreases items.len() - i,
    {
        proof {
            lemma_operation_view(items@[i as int]);
            assert(asts_view(items@)[i as int] == items@[i as int]@);
        }
        match &items[i] {
            AST::Vector(_) => {
                vector = true;
            },
            AST::Matrix(_) => {
                matrix = true;
            },
            _ => {},
        }
        i = i + 1;
    }
    (vector, matrix)
}

fn parse_literal(v: &Vec<char>) -> (r: Result<AST, ParserError>)
    ensures
        parsed_view(r) == grammar::parse_literal(v@),
    decreases v.len(), 2nat,
{
    if find_char(v, '[', 0) >= v.len() {
        if is_numeral_text(v) {
            return Ok(AST::Scalar(string_of(v)));
        } else {
            return Err(ParserError::ParseValue(string_of(v)));
        }
    }
    if v.len() < 2 {
        return Err(ParserError::ParseValue(string_of(v)));
    }
    if !(v[0] == '[' && v[v.len() - 1] == ']') {
        return Err(ParserError::MissingBracket);
    }
    let body = inner_of(v, 1);
    let args = get_args(&body);
    proof {
        lemma_split_args_lengths(body@);
        assert(texts(args@).len() == args.len());
        assert(texts(args@)[0] == args@[0]@);
        assert forall|k: int| 0 <= k < args.len() implies (#[trigger] args@[k]).len()
            < v.len() by {
            assert(texts(args@)[k] == args@[k]@);
        }
    }
    if args[0].len() == 0 {
        return Err(ParserError::EmptyVec);
    }
    let items = match parse_all(&args, Ghost(v.len() as nat)) {
        Err(e) => {
            return Err(e);
        },
        Ok(items) => items,
    };
    let kinds = kinds_of(&items);
    if kinds.1 {
        return Err(ParserError::ParseValue(string_of(v)));
    }
    if !kinds.0 {
        let vector = AST::Vector(Box::new(items));
        proof {
            lemma_ast_view(vector);
        }
        return Ok(vector);
    }
    match rows_from(&items) {
        None => Err(ParserError::NotRectMatrix),
        Some(table) => {
            if !is_rectangular(&table) {
                return Err(ParserError::NotRectMatrix);
            }
            let matrix = AST::Matrix(Box::new(transpose(&table)));
            proof {
                lemma_ast_view(matrix);
            }
            Ok(matrix)
        },
    }
}

/// The syntax tree that a text stands for, or the reason why it stands for
/// none. White space in the text counts for nothing.
pub fn parse(expr: &str) -> (r: Result<AST, ParserError>)
    ensures
        parsed_view(r) == parse_spec(expr@),
{
    let chars = chars_of(expr);
    let stripped = strip_whitespace(&chars);
    parse_inner(&stripped)
}

} // verus!
