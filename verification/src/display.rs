//! How syntax trees are written out: as plain text and as LaTeX.
//!
//! A numeral is written as it stands in the tree.

use crate::basetypes::{
    asts_view, lemma_ast_view, lemma_equation_view, lemma_operation_view, names_view, pairs_view,
    rows_view, text_eq, AdvancedOperation, AstView, Function, Operation, SimpleOpType, AST,
};
use vstd::prelude::*;
use vstd::string::StringExecFns;

verus! {

/// The plain text of an operation with at most two operands, given the texts
/// of its operands.
pub open spec fn simple_text(op_type: SimpleOpType, lv: Seq<char>, rv: Seq<char>) -> Seq<char> {
    match op_type {
        SimpleOpType::Get => lv + "_"@ + rv,
        SimpleOpType::Add => lv + " + "@ + rv,
        SimpleOpType::Sub => lv + " - "@ + rv,
        SimpleOpType::AddSub => lv + " +- "@ + rv,
        SimpleOpType::Mult => lv + " * "@ + rv,
        SimpleOpType::Neg => "-"@ + rv,
        SimpleOpType::Div => lv + " / "@ + rv,
        SimpleOpType::HiddenMult => lv + rv,
        SimpleOpType::Pow => lv + "^("@ + rv + ")"@,
        SimpleOpType::Cross => lv + "x"@ + rv,
        SimpleOpType::Abs => "|"@ + lv + "|"@,
        SimpleOpType::Sin => "sin("@ + lv + ")"@,
        SimpleOpType::Cos => "cos("@ + lv + ")"@,
        SimpleOpType::Tan => "tan("@ + lv + ")"@,
        SimpleOpType::Sqrt => "sqrt("@ + lv + ")"@,
        SimpleOpType::Root => "root("@ + lv + ", "@ + rv + ")"@,
        SimpleOpType::Ln => "ln("@ + lv + ")"@,
        SimpleOpType::Arcsin => "arcsin("@ + lv + ")"@,
        SimpleOpType::Arccos => "arccos("@ + lv + ")"@,
        SimpleOpType::Arctan => "arctan("@ + lv + ")"@,
        SimpleOpType::Det => "det("@ + lv + ")"@,
        SimpleOpType::Inv => "inv("@ + lv + ")"@,
        SimpleOpType::Parenths => "("@ + lv + ")"@,
    }
}

/// The LaTeX of an operation with at most two operands, given the LaTeX of
/// its operands.
pub open spec fn simple_latex(op_type: SimpleOpType, lv: Seq<char>, rv: Seq<char>) -> Seq<char> {
    match op_type {
        SimpleOpType::Get => lv + "_{"@ + rv + "}"@,
        SimpleOpType::Add => lv + "+"@ + rv,
        SimpleOpType::Sub => lv + "-"@ + rv,
        SimpleOpType::AddSub => lv + "\\pm"@ + rv,
        SimpleOpType::Mult => lv + "\\cdot "@ + rv,
        SimpleOpType::Neg => "-"@ + rv,
        SimpleOpType::Div => "\\frac{"@ + lv + "}{"@ + rv + "}"@,
        SimpleOpType::HiddenMult => lv + rv,
        SimpleOpType::Pow => lv + "^{"@ + rv + "}"@,
        SimpleOpType::Cross => lv + "\\times "@ + rv,
        SimpleOpType::Abs => "|"@ + lv + "|"@,
        SimpleOpType::Sin => "\\sin\\left("@ + lv + "\\right)"@,
        SimpleOpType::Cos => "\\cos\\left("@ + lv + "\\right)"@,
        SimpleOpType::Tan => "\\tan\\left("@ + lv + "\\right)"@,
        SimpleOpType::Sqrt => "\\sqrt{"@ + lv + "}"@,
        SimpleOpType::Root => "\\sqrt["@ + rv + "]{"@ + lv + "}"@,
        SimpleOpType::Ln => "\\ln\\left("@ + lv + "\\right)"@,
        SimpleOpType::Arcsin => "\\arcsin\\left("@ + lv + "\\right)"@,
        SimpleOpType::Arccos => "\\arccos\\left("@ + lv + "\\right)"@,
        SimpleOpType::Arctan => "\\arctan\\left("@ + lv + "\\right)"@,
        SimpleOpType::Det => "\\det\\left("@ + lv + "\\right)"@,
        SimpleOpType::Inv => lv + "^{-1}"@,
        SimpleOpType::Parenths => "\\left("@ + lv + "\\right)"@,
    }
}

/// The plain text of a tree.
pub open spec fn text_of(ast: AstView) -> Seq<char>
    decreases ast, 0nat,
{
    match ast {
        AstView::Scalar(numeral) => numeral,
        AstView::Vector(items) => "["@ + text_of_list(items, items.len() as int) + "]"@,
        AstView::Matrix(rows) => "["@ + text_of_rows(rows, rows.len() as int) + "]"@,
        AstView::List(items) => "{"@ + text_of_list(items, items.len() as int) + "}"@,
        AstView::Variable(name) => name,
        AstView::Function { name, inputs } => name + "("@ + text_of_list(
            inputs,
            inputs.len() as int,
        ) + ")"@,
        AstView::Simple { op_type, left, right } => simple_text(
            op_type,
            text_of(*left),
            text_of(*right),
        ),
        AstView::Integral { expr, in_terms_of, lower_bound, upper_bound } => "I("@ + text_of(
            *expr,
        ) + ", "@ + in_terms_of + ", "@ + text_of(*lower_bound) + ", "@ + text_of(*upper_bound)
            + ")"@,
        AstView::Derivative { expr, in_terms_of, at } => "D("@ + text_of(*expr) + ", "@
            + in_terms_of + ", "@ + text_of(*at) + ")"@,
        AstView::Equation { equations, search_vars } => "eq("@ + text_of_equations(
            equations,
            equations.len() as int,
        ) + ")"@,
    }
}

/// The plain texts of the first `n` trees, with `, ` between them.
pub open spec fn text_of_list(items: Seq<AstView>, n: int) -> Seq<char>
    decreases items, n,
{
    if n <= 0 || n > items.len() {
        Seq::empty()
    } else if n == 1 {
        text_of(items[0])
    } else {
        text_of_list(items, n - 1) + ", "@ + text_of(items[n - 1])
    }
}

/// The plain texts of the first `n` rows, each in square brackets, with `, `
/// between them.
pub open spec fn text_of_rows(rows: Seq<Seq<AstView>>, n: int) -> Seq<char>
    decreases rows, n,
{
    if n <= 0 || n > rows.len() {
        Seq::empty()
    } else if n == 1 {
        "["@ + text_of_list(rows[0], rows[0].len() as int) + "]"@
    } else {
        text_of_rows(rows, n - 1) + ", "@ + "["@ + text_of_list(
            rows[n - 1],
            rows[n - 1].len() as int,
        ) + "]"@
    }
}

/// The plain texts of the first `n` equations, with `,` between them.
pub open spec fn text_of_equations(equations: Seq<(AstView, AstView)>, n: int) -> Seq<char>
    decreases equations, n,
{
    if n <= 0 || n > equations.len() {
        Seq::empty()
    } else if n == 1 {
        text_of(equations[0].0) + "="@ + text_of(equations[0].1)
    } else {
        text_of_equations(equations, n - 1) + ","@ + text_of(equations[n - 1].0) + "="@
            + text_of(equations[n - 1].1)
    }
}

/// The LaTeX of a tree.
pub open spec fn latex_of(ast: AstView) -> Seq<char>
    decreases ast, 0nat,
{
    match ast {
        AstView::Scalar(numeral) => numeral,
        AstView::Vector(items) => "\\begin{pmatrix}"@ + latex_of_list(
            items,
            "\\\\ "@,
            items.len() as int,
        ) + "\\end{pmatrix}"@,
        AstView::Matrix(rows) => "\\begin{bmatrix}"@ + latex_of_rows(rows, rows.len() as int)
            + "\\end{bmatrix}"@,
        AstView::List(items) => "\\left\\{"@ + latex_of_list(items, "; "@, items.len() as int)
            + "\\right\\}"@,
        AstView::Variable(name) => if name == "pi"@ {
            "\\pi"@
        } else {
            name
        },
        AstView::Function { name, inputs } => name + "\\left("@ + latex_of_list(
            inputs,
            ", "@,
            inputs.len() as int,
        ) + "\\right)"@,
        AstView::Simple { op_type, left, right } => simple_latex(
            op_type,
            latex_of(*left),
            latex_of(*right),
        ),
        AstView::Integral { expr, in_terms_of, lower_bound, upper_bound } => "\\int_{"@
            + latex_of(*lower_bound) + "}^{"@ + latex_of(*upper_bound) + "}"@ + latex_of(*expr)
            + " d"@ + in_terms_of,
        AstView::Derivative { expr, in_terms_of, at } => "\\frac{\\partial}{\\partial "@
            + in_terms_of + "}\\left("@ + latex_of(*expr) + "\\right)_{\\text{at }"@ + in_terms_of
            + " = "@ + latex_of(*at) + "}"@,
        AstView::Equation { equations, search_vars } => "\\left|\\begin{align}"@
            + latex_of_equations(equations, equations.len() as int) + "\\end{align}\\right|"@,
    }
}

/// The LaTeX of the first `n` trees, with `sep` between them.
pub open spec fn latex_of_list(items: Seq<AstView>, sep: Seq<char>, n: int) -> Seq<char>
    decreases items, n,
{
    if n <= 0 || n > items.len() {
        Seq::empty()
    } else if n == 1 {
        latex_of(items[0])
    } else {
        latex_of_list(items, sep, n - 1) + sep + latex_of(items[n - 1])
    }
}

/// The LaTeX of the first `n` rows of a matrix: in every row the items with
/// ` & ` between them, and ` \\` behind every row that is not empty.
pub open spec fn latex_of_rows(rows: Seq<Seq<AstView>>, n: int) -> Seq<char>
    decreases rows, n,
{
    if n <= 0 || n > rows.len() {
        Seq::empty()
    } else {
        latex_of_rows(rows, n - 1) + latex_of_list(rows[n - 1], " & "@, rows[n - 1].len() as int)
            + (if rows[n - 1].len() > 0 {
            " \\\\"@
        } else {
            Seq::empty()
        })
    }
}

/// The LaTeX of the first `n` equations, each on a line of its own.
pub open spec fn latex_of_equations(equations: Seq<(AstView, AstView)>, n: int) -> Seq<char>
    decreases equations, n,
{
    if n <= 0 || n > equations.len() {
        Seq::empty()
    } else if n == 1 {
        latex_of(equations[0].0) + "&="@ + latex_of(equations[0].1)
    } else {
        latex_of_equations(equations, n - 1) + "\\\\ \n "@ + latex_of(equations[n - 1].0)
            + "&="@ + latex_of(equations[n - 1].1)
    }
}

/// The names with `, ` between them.
pub open spec fn listed(names: Seq<Seq<char>>, n: int) -> Seq<char>
    decreases n,
{
    if n <= 0 || n > names.len() {
        Seq::empty()
    } else if n == 1 {
        names[0]
    } else {
        listed(names, n - 1) + ", "@ + names[n - 1]
    }
}

/// The LaTeX of the definition of a function: its name, its parameters, and
/// the LaTeX of its expression behind `=`, or behind `&=` where the
/// definitions of several lines are aligned.
pub open spec fn latex_at_fun(
    ast: AstView,
    fun_name: Seq<char>,
    fun_inputs: Seq<Seq<char>>,
    add_aligner: bool,
) -> Seq<char> {
    fun_name + "("@ + listed(fun_inputs, fun_inputs.len() as int) + ") "@ + (if add_aligner {
        "&"@
    } else {
        Seq::empty()
    }) + "= "@ + latex_of(ast)
}

/// `a`, then `b`, then `c`.
fn glue3(a: &str, b: &str, c: &str) -> (s: String)
    ensures
        s@ == a@ + b@ + c@,
{
    let mut s = String::from_str(a);
    s.append(b);
    s.append(c);
    s
}

/// `a`, then `b`, then `c`, then `d`, then `e`.
fn glue5(a: &str, b: &str, c: &str, d: &str, e: &str) -> (s: String)
    ensures
        s@ == a@ + b@ + c@ + d@ + e@,
{
    let mut s = String::from_str(a);
    s.append(b);
    s.append(c);
    s.append(d);
    s.append(e);
    s
}

/// `a`, then `b`.
fn glue2(a: &str, b: &str) -> (s: String)
    ensures
        s@ == a@ + b@,
{
    let mut s = String::from_str(a);
    s.append(b);
    s
}

/// The plain text of an operation (see [`simple_text`]).
fn simple_string(op_type: SimpleOpType, lv: &str, rv: &str) -> (s: String)
    ensures
        s@ == simple_text(op_type, lv@, rv@),
{
    match op_type {
        SimpleOpType::Get => glue3(lv, "_", rv),
        SimpleOpType::Add => glue3(lv, " + ", rv),
        SimpleOpType::Sub => glue3(lv, " - ", rv),
        SimpleOpType::AddSub => glue3(lv, " +- ", rv),
        SimpleOpType::Mult => glue3(lv, " * ", rv),
        SimpleOpType::Neg => glue2("-", rv),
        SimpleOpType::Div => glue3(lv, " / ", rv),
        SimpleOpType::HiddenMult => glue2(lv, rv),
        SimpleOpType::Pow => {
            let mut s = glue3(lv, "^(", rv);
            s.append(")");
            s
        },
        SimpleOpType::Cross => glue3(lv, "x", rv),
        SimpleOpType::Abs => glue3("|", lv, "|"),
        SimpleOpType::Sin => glue3("sin(", lv, ")"),
        SimpleOpType::Cos => glue3("cos(", lv, ")"),
        SimpleOpType::Tan => glue3("tan(", lv, ")"),
        SimpleOpType::Sqrt => glue3("sqrt(", lv, ")"),
        SimpleOpType::Root => glue5("root(", lv, ", ", rv, ")"),
        SimpleOpType::Ln => glue3("ln(", lv, ")"),
        SimpleOpType::Arcsin => glue3("arcsin(", lv, ")"),
        SimpleOpType::Arccos => glue3("arccos(", lv, ")"),
        SimpleOpType::Arctan => glue3("arctan(", lv, ")"),
        SimpleOpType::Det => glue3("det(", lv, ")"),
        SimpleOpType::Inv => glue3("inv(", lv, ")"),
        SimpleOpType::Parenths => glue3("(", lv, ")"),
    }
}

/// The LaTeX of an operation (see [`simple_latex`]).
fn simple_latex_string(op_type: SimpleOpType, lv: &str, rv: &str) -> (s: String)
    ensures
        s@ == simple_latex(op_type, lv@, rv@),
{
    match op_type {
        SimpleOpType::Get => {
            let mut s = glue3(lv, "_{", rv);
            s.append("}");
            s
        },
        SimpleOpType::Add => glue3(lv, "+", rv),
        SimpleOpType::Sub => glue3(lv, "-", rv),
        SimpleOpType::AddSub => glue3(lv, "\\pm", rv),
        SimpleOpType::Mult => glue3(lv, "\\cdot ", rv),
        SimpleOpType::Neg => glue2("-", rv),
        SimpleOpType::Div => glue5("\\frac{", lv, "}{", rv, "}"),
        SimpleOpType::HiddenMult => glue2(lv, rv),
        SimpleOpType::Pow => {
            let mut s = glue3(lv, "^{", rv);
            s.append("}");
            s
        },
        SimpleOpType::Cross => glue3(lv, "\\times ", rv),
        SimpleOpType::Abs => glue3("|", lv, "|"),
        SimpleOpType::Sin => glue3("\\sin\\left(", lv, "\\right)"),
        SimpleOpType::Cos => glue3("\\cos\\left(", lv, "\\right)"),
        SimpleOpType::Tan => glue3("\\tan\\left(", lv, "\\right)"),
        SimpleOpType::Sqrt => glue3("\\sqrt{", lv, "}"),
        SimpleOpType::Root => glue5("\\sqrt[", rv, "]{", lv, "}"),
        SimpleOpType::Ln => glue3("\\ln\\left(", lv, "\\right)"),
        SimpleOpType::Arcsin => glue3("\\arcsin\\left(", lv, "\\right)"),
        SimpleOpType::Arccos => glue3("\\arccos\\left(", lv, "\\right)"),
        SimpleOpType::Arctan => glue3("\\arctan\\left(", lv, "\\right)"),
        SimpleOpType::Det => glue3("\\det\\left(", lv, "\\right)"),
        SimpleOpType::Inv => glue2(lv, "^{-1}"),
        SimpleOpType::Parenths => glue3("\\left(", lv, "\\right)"),
    }
}

/// The plain texts of the trees, with `, ` between them.
#[verifier::loop_isolation(false)]
fn list_string(items: &Vec<AST>) -> (s: String)
    ensures
        s@ == text_of_list(asts_view(items@), items.len() as int),
    decreases items,
{
    let ghost trees = asts_view(items@);
    let mut s = String::new();
    let mut i: usize = 0;
    while i < items.len()
        invariant
            i <= items.len(),
            s@ == text_of_list(trees, i as int),
        decreases items.len() - i,
    {
        assert(trees[i as int] == items@[i as int]@);
        let part = items[i].as_string();
        if i > 0 {
            s.append(", ");
        } else {
            assert(s@ + part@ =~= part@);
        }
        s.append(part.as_str());
        i = i + 1;
    }
    s
}

/// The LaTeX of the trees, with `sep` between them.
#[verifier::loop_isolation(false)]
fn list_latex(items: &Vec<AST>, sep: &str) -> (s: String)
    ensures
        s@ == latex_of_list(asts_view(items@), sep@, items.len() as int),
    decreases items,
{
    let ghost trees = asts_view(items@);
    let mut s = String::new();
    let mut i: usize = 0;
    while i < items.len()
        invariant
            i <= items.len(),
            s@ == latex_of_list(trees, sep@, i as int),
        decreases items.len() - i,
    {
        assert(trees[i as int] == items@[i as int]@);
        let part = items[i].as_latex();
        if i > 0 {
            s.append(sep);
        } else {
            assert(s@ + part@ =~= part@);
        }
        s.append(part.as_str());
        i = i + 1;
    }
    s
}

/// The names with `, ` between them.
fn list_names(names: &Vec<String>) -> (s: String)
    ensures
        s@ == listed(names_view(names@), names.len() as int),
{
    let ghost all = names_view(names@);
    let mut s = String::new();
    let mut i: usize = 0;
    while i < names.len()
        invariant
            i <= names.len(),
            all == names_view(names@),
            s@ == listed(all, i as int),
        decreases names.len() - i,
    {
        assert(all[i as int] == names@[i as int]@);
        if i > 0 {
            s.append(", ");
        } else {
            assert(s@ + names@[i as int]@ =~= names@[i as int]@);
        }
        s.append(names[i].as_str());
        i = i + 1;
    }
    s
}

impl AST {
    /// The plain text of the tree (see [`text_of`]).
    #[verifier::loop_isolation(false)]
    pub fn as_string(&self) -> (s: String)
        ensures
            s@ == text_of(self@),
        decreases self,
    {
        proof {
            lemma_ast_view(*self);
            lemma_operation_view(*self);
        }
        match self {
            AST::Scalar(numeral) => numeral.clone(),
            AST::Vector(items) => {
                assert(asts_view(items@).len() == items.len());
                let inner = list_string(items);
                glue3("[", inner.as_str(), "]")
            },
            AST::Matrix(rows) => {
                let ghost table = rows_view(rows@);
                let mut inner = String::new();
                let mut i: usize = 0;
                while i < rows.len()
                    invariant
                        i <= rows.len(),
                        inner@ == text_of_rows(table, i as int),
                    decreases rows.len() - i,
                {
                    proof {
                        assert(table[i as int] == asts_view(rows@[i as int]@));
                        assert(table[i as int].len() == rows@[i as int].len());
                    }
                    let row = list_string(&rows[i]);
                    if i > 0 {
                        inner.append(", ");
                    } else {
                        assert(inner@ + "["@ =~= "["@);
                    }
                    inner.append("[");
                    inner.append(row.as_str());
                    inner.append("]");
                    i = i + 1;
                }
                assert(table.len() == rows.len());
                glue3("[", inner.as_str(), "]")
            },
            AST::List(items) => {
                assert(asts_view(items@).len() == items.len());
                let inner = list_string(items);
                glue3("{", inner.as_str(), "}")
            },
            AST::Variable(name) => name.clone(),
            AST::Function { name, inputs } => {
                assert(asts_view(inputs@).len() == inputs.len());
                let inner = list_string(inputs);
                let mut s = glue3(name.as_str(), "(", inner.as_str());
                s.append(")");
                s
            },
            AST::Operation(operation) => match &**operation {
                Operation::SimpleOperation { op_type, left, right } => {
                    let lv = left.as_string();
                    let rv = right.as_string();
                    simple_string(*op_type, lv.as_str(), rv.as_str())
                },
                Operation::AdvancedOperation(advanced) => {
                    proof {
                        lemma_equation_view(*advanced);
                    }
                    match advanced {
                        AdvancedOperation::Integral {
                            expr,
                            in_terms_of,
                            lower_bound,
                            upper_bound,
                        } => {
                            let e = expr.as_string();
                            let l = lower_bound.as_string();
                            let u = upper_bound.as_string();
                            let mut s = glue5("I(", e.as_str(), ", ", in_terms_of.as_str(), ", ");
                            s.append(l.as_str());
                            s.append(", ");
                            s.append(u.as_str());
                            s.append(")");
                            s
                        },
                        AdvancedOperation::Derivative { expr, in_terms_of, at } => {
                            let e = expr.as_string();
                            let a = at.as_string();
                            let mut s = glue5("D(", e.as_str(), ", ", in_terms_of.as_str(), ", ");
                            s.append(a.as_str());
                            s.append(")");
                            s
                        },
                        AdvancedOperation::Equation { equations, search_vars } => {
                            let ghost pairs = pairs_view(equations@);
                            let mut inner = String::new();
                            let mut i: usize = 0;
                            while i < equations.len()
                                invariant
                                    i <= equations.len(),
                                    inner@ == text_of_equations(pairs, i as int),
                                decreases equations.len() - i,
                            {
                                proof {
                                    assert(pairs[i as int] == (
                                        equations@[i as int].0@,
                                        equations@[i as int].1@,
                                    ));
                                }
                                let l = equations[i].0.as_string();
                                let r = equations[i].1.as_string();
                                if i > 0 {
                                    inner.append(",");
                                } else {
                                    assert(inner@ + l@ =~= l@);
                                }
                                inner.append(l.as_str());
                                inner.append("=");
                                inner.append(r.as_str());
                                i = i + 1;
                            }
                            assert(pairs.len() == equations.len());
                            glue3("eq(", inner.as_str(), ")")
                        },
                    }
                },
            },
        }
    }

    /// The LaTeX of the tree (see [`latex_of`]).
    #[verifier::loop_isolation(false)]
    pub fn as_latex(&self) -> (s: String)
        ensures
            s@ == latex_of(self@),
        decreases self,
    {
        proof {
            lemma_ast_view(*self);
            lemma_operation_view(*self);
        }
        match self {
            AST::Scalar(numeral) => numeral.clone(),
            AST::Vector(items) => {
                assert(asts_view(items@).len() == items.len());
                let inner = list_latex(items, "\\\\ ");
                glue3("\\begin{pmatrix}", inner.as_str(), "\\end{pmatrix}")
            },
            AST::Matrix(rows) => {
                let ghost table = rows_view(rows@);
                let mut inner = String::new();
                let mut i: usize = 0;
                while i < rows.len()
                    invariant
                        i <= rows.len(),
                        inner@ == latex_of_rows(table, i as int),
                    decreases rows.len() - i,
                {
                    proof {
                        assert(table[i as int] == asts_view(rows@[i as int]@));
                        assert(table[i as int].len() == rows@[i as int].len());
                    }
                    let row = list_latex(&rows[i], " & ");
                    inner.append(row.as_str());
                    if rows[i].len() > 0 {
                        inner.append(" \\\\");
                    } else {
                        assert(inner@ + Seq::<char>::empty() =~= inner@);
                    }
                    i = i + 1;
                }
                assert(table.len() == rows.len());
                glue3("\\begin{bmatrix}", inner.as_str(), "\\end{bmatrix}")
            },
            AST::List(items) => {
                assert(asts_view(items@).len() == items.len());
                let inner = list_latex(items, "; ");
                glue3("\\left\\{", inner.as_str(), "\\right\\}")
            },
            AST::Variable(name) => {
                if text_eq(name.as_str(), "pi") {
                    String::from_str("\\pi")
                } else {
                    name.clone()
                }
            },
            AST::Function { name, inputs } => {
                assert(asts_view(inputs@).len() == inputs.len());
                let inner = list_latex(inputs, ", ");
                let mut s = glue3(name.as_str(), "\\left(", inner.as_str());
                s.append("\\right)");
                s
            },
            AST::Operation(operation) => match &**operation {
                Operation::SimpleOperation { op_type, left, right } => {
                    let lv = left.as_latex();
                    let rv = right.as_latex();
                    simple_latex_string(*op_type, lv.as_str(), rv.as_str())
                },
                Operation::AdvancedOperation(advanced) => {
                    proof {
                        lemma_equation_view(*advanced);
                    }
                    match advanced {
                        AdvancedOperation::Integral {
                            expr,
                            in_terms_of,
                            lower_bound,
                            upper_bound,
                        } => {
                            let e = expr.as_latex();
                            let l = lower_bound.as_latex();
                            let u = upper_bound.as_latex();
                            let mut s = glue5("\\int_{", l.as_str(), "}^{", u.as_str(), "}");
                            s.append(e.as_str());
                            s.append(" d");
                            s.append(in_terms_of.as_str());
                            s
                        },
                        AdvancedOperation::Derivative { expr, in_terms_of, at } => {
                            let e = expr.as_latex();
                            let a = at.as_latex();
                            let mut s = glue5(
                                "\\frac{\\partial}{\\partial ",
                                in_terms_of.as_str(),
                                "}\\left(",
                                e.as_str(),
                                "\\right)_{\\text{at }",
                            );
                            s.append(in_terms_of.as_str());
                            s.append(" = ");
                            s.append(a.as_str());
                            s.append("}");
                            s
                        },
                        AdvancedOperation::Equation { equations, search_vars } => {
                            let ghost pairs = pairs_view(equations@);
                            let mut inner = String::new();
                            let mut i: usize = 0;
                            while i < equations.len()
                                invariant
                                    i <= equations.len(),
                                    inner@ == latex_of_equations(pairs, i as int),
                                decreases equations.len() - i,
                            {
                                proof {
                                    assert(pairs[i as int] == (
                                        equations@[i as int].0@,
                                        equations@[i as int].1@,
                                    ));
                                }
                                let l = equations[i].0.as_latex();
                                let r = equations[i].1.as_latex();
                                if i > 0 {
                                    inner.append("\\\\ \n ");
                                } else {
                                    assert(inner@ + l@ =~= l@);
                                }
                                inner.append(l.as_str());
                                inner.append("&=");
                                inner.append(r.as_str());
                                i = i + 1;
                            }
                            assert(pairs.len() == equations.len());
                            glue3(
                                "\\left|\\begin{align}",
                                inner.as_str(),
                                "\\end{align}\\right|",
                            )
                        },
                    }
                },
            },
        }
    }

    /// The LaTeX of the definition of a function with this tree as its
    /// expression (see [`latex_at_fun`]).
    pub fn as_latex_at_fun(&self, fun_name: &str, fun_inputs: &Vec<String>, add_aligner: bool) -> (s:
        String)
        ensures
            s@ == latex_at_fun(self@, fun_name@, names_view(fun_inputs@), add_aligner),
    {
        let inputs = list_names(fun_inputs);
        let body = self.as_latex();
        assert(names_view(fun_inputs@).len() == fun_inputs.len());
        let mut s = glue3(fun_name, "(", inputs.as_str());
        s.append(") ");
        if add_aligner {
            s.append("&");
        } else {
            assert(s@ + Seq::<char>::empty() =~= s@);
        }
        s.append("= ");
        s.append(body.as_str());
        s
    }
}

impl Function {
    /// The LaTeX of the definition of the function: its name, its
    /// parameters, and its expression behind `=`, or behind `&=` where an
    /// aligner is asked for.
    pub fn as_latex(&self, add_aligner: bool) -> (s: String)
        ensures
            s@ == latex_at_fun(self@.ast, self@.name, self@.inputs, add_aligner),
    {
        self.ast.as_latex_at_fun(self.name.as_str(), &self.inputs, add_aligner)
    }
}

} // verus!
