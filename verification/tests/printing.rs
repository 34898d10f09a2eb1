use math_utils_lib::basetypes::{
    AdvancedOperation, Function, Operation, SimpleOpType, AST,
};
use math_utils_lib::parser::parse;
use math_utils_lib::picture::symbol;
use math_utils_lib::steps::{export_history, Export, ExportType, Step};
use math_utils_lib::written::{
    join, values_as_latex, values_as_latex_at_var, values_as_string, Written,
};

fn tree(text: &str) -> AST {
    parse(text).unwrap()
}

fn var(name: &str) -> AST {
    AST::Variable(name.to_string())
}

fn numeral(text: &str) -> AST {
    AST::Scalar(text.to_string())
}

fn simple(op_type: SimpleOpType, left: AST, right: AST) -> AST {
    AST::Operation(Box::new(Operation::SimpleOperation { op_type, left, right }))
}

fn advanced(operation: AdvancedOperation) -> AST {
    AST::Operation(Box::new(Operation::AdvancedOperation(operation)))
}

fn texts(cells: &[&str]) -> Vec<String> {
    cells.iter().map(|c| c.to_string()).collect()
}

fn number(text: &str) -> Written {
    Written::Scalar(text.to_string())
}

fn column(cells: &[&str]) -> Written {
    Written::Vector(texts(cells))
}

fn grid(rows: &[&[&str]]) -> Written {
    Written::Matrix(rows.iter().map(|r| texts(r)).collect())
}

#[test]
fn easy_eval11() {
    let parsed_ast = parse("-1").unwrap();
    assert_eq!(parsed_ast.as_latex(), "-1".to_string());
}

#[test]
fn every_operation_as_text_and_as_latex() {
    let cases = [
        (SimpleOpType::Get, "a_b", "a_{b}"),
        (SimpleOpType::Add, "a + b", "a+b"),
        (SimpleOpType::Sub, "a - b", "a-b"),
        (SimpleOpType::AddSub, "a +- b", "a\\pmb"),
        (SimpleOpType::Mult, "a * b", "a\\cdot b"),
        (SimpleOpType::Neg, "-b", "-b"),
        (SimpleOpType::Div, "a / b", "\\frac{a}{b}"),
        (SimpleOpType::HiddenMult, "ab", "ab"),
        (SimpleOpType::Pow, "a^(b)", "a^{b}"),
        (SimpleOpType::Cross, "axb", "a\\times b"),
        (SimpleOpType::Abs, "|a|", "|a|"),
        (SimpleOpType::Sin, "sin(a)", "\\sin\\left(a\\right)"),
        (SimpleOpType::Cos, "cos(a)", "\\cos\\left(a\\right)"),
        (SimpleOpType::Tan, "tan(a)", "\\tan\\left(a\\right)"),
        (SimpleOpType::Sqrt, "sqrt(a)", "\\sqrt{a}"),
        (SimpleOpType::Root, "root(a, b)", "\\sqrt[b]{a}"),
        (SimpleOpType::Ln, "ln(a)", "\\ln\\left(a\\right)"),
        (SimpleOpType::Arcsin, "arcsin(a)", "\\arcsin\\left(a\\right)"),
        (SimpleOpType::Arccos, "arccos(a)", "\\arccos\\left(a\\right)"),
        (SimpleOpType::Arctan, "arctan(a)", "\\arctan\\left(a\\right)"),
        (SimpleOpType::Det, "det(a)", "\\det\\left(a\\right)"),
        (SimpleOpType::Inv, "inv(a)", "a^{-1}"),
        (SimpleOpType::Parenths, "(a)", "\\left(a\\right)"),
    ];
    for (op_type, text, latex) in cases {
        let ast = simple(op_type, var("a"), var("b"));
        assert_eq!(ast.as_string(), text);
        assert_eq!(ast.as_latex(), latex);
    }
}

#[test]
fn trees_as_text() {
    assert_eq!(tree("3*x+sin(2)").as_string(), "3 * x + sin(2)");
    assert_eq!(tree("[1,2,3]").as_string(), "[1, 2, 3]");
    assert_eq!(tree("f(x,2)").as_string(), "f(x, 2)");
    assert_eq!(tree("2x").as_string(), "2x");
    assert_eq!(tree("(1+2)^3").as_string(), "(1 + 2)^(3)");
    assert_eq!(numeral("1.50").as_string(), "1.50");
    assert_eq!(var("pi").as_string(), "pi");
    assert_eq!(AST::Vector(Box::new(vec![])).as_string(), "[]");
    assert_eq!(AST::List(vec![numeral("1"), var("x")]).as_string(), "{1, x}");
    assert_eq!(
        AST::Matrix(Box::new(vec![
            vec![numeral("1"), numeral("2")],
            vec![numeral("3"), numeral("4")]
        ]))
        .as_string(),
        "[[1, 2], [3, 4]]"
    );
    assert_eq!(
        advanced(AdvancedOperation::Integral {
            expr: tree("x^2"),
            in_terms_of: "x".to_string(),
            lower_bound: numeral("0"),
            upper_bound: numeral("1"),
        })
        .as_string(),
        "I(x^(2), x, 0, 1)"
    );
    assert_eq!(
        advanced(AdvancedOperation::Derivative {
            expr: tree("x^2"),
            in_terms_of: "x".to_string(),
            at: numeral("3"),
        })
        .as_string(),
        "D(x^(2), x, 3)"
    );
    assert_eq!(
        advanced(AdvancedOperation::Equation {
            equations: vec![(tree("x+y"), numeral("2")), (tree("x-y"), numeral("0"))],
            search_vars: texts(&["x", "y"]),
        })
        .as_string(),
        "eq(x + y=2,x - y=0)"
    );
    assert_eq!(
        advanced(AdvancedOperation::Equation { equations: vec![], search_vars: vec![] })
            .as_string(),
        "eq()"
    );
}

#[test]
fn trees_as_latex() {
    assert_eq!(tree("3*x+sin(2)").as_latex(), "3\\cdot x+\\sin\\left(2\\right)");
    assert_eq!(tree("[1,2,3]").as_latex(), "\\begin{pmatrix}1\\\\ 2\\\\ 3\\end{pmatrix}");
    assert_eq!(tree("f(x,2)").as_latex(), "f\\left(x, 2\\right)");
    assert_eq!(tree("2pi").as_latex(), "2\\pi");
    assert_eq!(var("pi").as_latex(), "\\pi");
    assert_eq!(var("pie").as_latex(), "pie");
    assert_eq!(AST::Vector(Box::new(vec![])).as_latex(), "\\begin{pmatrix}\\end{pmatrix}");
    assert_eq!(AST::List(vec![numeral("1"), var("x")]).as_latex(), "\\left\\{1; x\\right\\}");
    assert_eq!(
        AST::Matrix(Box::new(vec![
            vec![numeral("1"), numeral("2")],
            vec![numeral("3"), numeral("4")]
        ]))
        .as_latex(),
        "\\begin{bmatrix}1 & 2 \\\\3 & 4 \\\\\\end{bmatrix}"
    );
    assert_eq!(
        AST::Matrix(Box::new(vec![vec![], vec![numeral("3")]])).as_latex(),
        "\\begin{bmatrix}3 \\\\\\end{bmatrix}"
    );
    assert_eq!(
        advanced(AdvancedOperation::Integral {
            expr: tree("x^2"),
            in_terms_of: "x".to_string(),
            lower_bound: numeral("0"),
            upper_bound: numeral("1"),
        })
        .as_latex(),
        "\\int_{0}^{1}x^{2} dx"
    );
    assert_eq!(
        advanced(AdvancedOperation::Derivative {
            expr: tree("x^2"),
            in_terms_of: "x".to_string(),
            at: numeral("3"),
        })
        .as_latex(),
        "\\frac{\\partial}{\\partial x}\\left(x^{2}\\right)_{\\text{at }x = 3}"
    );
    assert_eq!(
        advanced(AdvancedOperation::Equation {
            equations: vec![(tree("x^2"), numeral("9"))],
            search_vars: texts(&["x"]),
        })
        .as_latex(),
        "\\left|\\begin{align}x^{2}&=9\\end{align}\\right|"
    );
    assert_eq!(
        advanced(AdvancedOperation::Equation {
            equations: vec![(tree("x+y"), numeral("2")), (tree("x-y"), numeral("0"))],
            search_vars: texts(&["x", "y"]),
        })
        .as_latex(),
        "\\left|\\begin{align}x+y&=2\\\\ \n x-y&=0\\end{align}\\right|"
    );
}

#[test]
fn printing_what_was_parsed() {
    assert_eq!(tree("I(x^2,x,0,1)").as_string(), "I(x^(2), x, 0, 1)");
    assert_eq!(tree("D(x^2,x,3)").as_string(), "D(x^(2), x, 3)");
    assert_eq!(tree("eq(x^2=9,x)").as_string(), "eq(x^(2)=9)");
    assert_eq!(tree("{1,2}").as_string(), "{1, 2}");
    assert_eq!(tree("3&2").as_latex(), "3\\pm2");
    assert_eq!(tree("[1,2]#[3,4]").as_latex(),
        "\\begin{pmatrix}1\\\\ 2\\end{pmatrix}\\times \\begin{pmatrix}3\\\\ 4\\end{pmatrix}");
    assert_eq!(tree("v?1").as_latex(), "v_{1}");
    assert_eq!(tree("root(8,3)").as_latex(), "\\sqrt[3]{8}");
}

#[test]
fn definitions_of_functions() {
    let body = tree("x^2");
    assert_eq!(body.as_latex_at_fun("f", &texts(&["x"]), true), "f(x) &= x^{2}");
    assert_eq!(body.as_latex_at_fun("f", &texts(&["x"]), false), "f(x) = x^{2}");
    assert_eq!(body.as_latex_at_fun("g", &texts(&["x", "y"]), false), "g(x, y) = x^{2}");
    assert_eq!(body.as_latex_at_fun("h", &vec![], true), "h() &= x^{2}");

    let function = Function::new("f".to_string(), tree("x*y"), texts(&["x", "y"]));
    assert_eq!(function.as_latex(true), "f(x, y) &= x\\cdot y");
    assert_eq!(function.as_latex(false), "f(x, y) = x\\cdot y");
}

#[test]
fn texts_are_joined() {
    assert_eq!(join(&vec![], ", "), "");
    assert_eq!(join(&texts(&["a"]), ", "), "a");
    assert_eq!(join(&texts(&["a", "b", "c"]), "; "), "a; b; c");
    assert_eq!(join(&texts(&["", ""]), "-"), "-");
}

#[test]
fn written_values_as_text() {
    assert_eq!(number("3").as_string(), "3");
    assert_eq!(column(&["1", "2.5"]).as_string(), "[1,2.5]");
    assert_eq!(column(&[]).as_string(), "[]");
    assert_eq!(grid(&[&["1", "2"], &["3", "4"]]).as_string(), "[[1,2],[3,4]]");
    assert_eq!(grid(&[]).as_string(), "[]");
    assert_eq!(values_as_string(&vec![]), "{}");
    assert_eq!(values_as_string(&vec![number("3")]), "{3}");
    assert_eq!(values_as_string(&vec![number("3"), column(&["1", "2"])]), "{3, [1,2]}");
}

#[test]
fn written_values_as_latex() {
    assert_eq!(number("3").as_latex(), "3");
    assert_eq!(column(&["1", "2"]).as_latex(), "\\begin{pmatrix}1\\\\ 2\\end{pmatrix}");
    assert_eq!(column(&[]).as_latex(), "\\begin{pmatrix}\\end{pmatrix}");
    assert_eq!(
        grid(&[&["1", "2"], &["3", "4"]]).as_latex(),
        "\\begin{bmatrix}1 & 2 \\\\3 & 4 \\\\\\end{bmatrix}"
    );
    assert_eq!(number("3").as_latex_at_var("x", true), "x &= 3");
    assert_eq!(number("3").as_latex_at_var("x", false), "x = 3");
    assert_eq!(number("3").as_latex_at_var("pi", false), "\\pi = 3");

    assert_eq!(values_as_latex(&vec![]), "No solutions");
    assert_eq!(values_as_latex(&vec![number("3")]), "3");
    assert_eq!(values_as_latex(&vec![number("3"), number("-3")]), "\\left\\{3; -3\\right\\}");

    assert_eq!(values_as_latex_at_var(&vec![], "x", true), "x: No solutions");
    assert_eq!(values_as_latex_at_var(&vec![], "pi", true), "\\pi: No solutions");
    assert_eq!(values_as_latex_at_var(&vec![number("3")], "x", true), "x &= 3");
    assert_eq!(values_as_latex_at_var(&vec![number("3")], "x", false), "x = 3");
    assert_eq!(
        values_as_latex_at_var(&vec![number("3"), number("-3")], "x", false),
        "x = \\left\\{3; -3\\right\\}"
    );
    assert_eq!(
        values_as_latex_at_var(&vec![number("3"), number("-3")], "pi", true),
        "\\pi &= \\left\\{3; -3\\right\\}"
    );
}

#[test]
fn names_with_letters_of_their_own() {
    assert_eq!(symbol("\\alpha"), "𝛼");
    assert_eq!(symbol("\\Omega"), "𝛺");
    assert_eq!(symbol("pi"), "𝜋");
    assert_eq!(symbol("\\pi"), "\\pi");
    assert_eq!(symbol("x"), "x");
    assert_eq!(symbol(""), "");
}

#[test]
fn pictures_of_numbers() {
    assert_eq!(number("3").as_unicode(), "3");
    assert_eq!(number("3").as_unicode_at_var("x"), "x = 3");
    assert_eq!(number("3").as_unicode_at_var("\\alpha"), "𝛼 = 3");
    assert_eq!(number("3").pretty_print(Some("\\alpha".to_string())), "\\alpha = 3");
    assert_eq!(number("3").pretty_print(None), "3");
}

#[test]
fn pictures_of_vectors() {
    assert_eq!(column(&["1", "22", "3"]).as_unicode(), "⎛1 ⎞\n⎜22⎟\n⎝3 ⎠");
    assert_eq!(
        column(&["1", "22", "3"]).as_unicode_at_var("v"),
        "    ⎛1 ⎞\nv = ⎜22⎟\n    ⎝3 ⎠"
    );
    assert_eq!(column(&["1", "2"]).as_unicode_at_var("v"), "v = ⎛1⎞\n    ⎝2⎠");
    assert_eq!(
        column(&["1", "2", "3", "4"]).as_unicode_at_var("v"),
        "    ⎛1⎞\nv = ⎜2⎟\n    ⎜3⎟\n    ⎝4⎠"
    );
    assert_eq!(column(&["7"]).as_unicode(), "⎛7⎞");
    assert_eq!(column(&["7"]).as_unicode_at_var("v"), "v = ⎛7⎞");
    assert_eq!(column(&[]).as_unicode(), "");
    // A number is centred with the longer padding on its right.
    assert_eq!(column(&["1", "-0.25"]).as_unicode(), "⎛  1  ⎞\n⎝-0.25⎠");
    assert_eq!(column(&["1", "2.25"]).as_unicode(), "⎛ 1  ⎞\n⎝2.25⎠");
    // The letter of a name takes four bytes, and so the other lines start
    // with seven spaces.
    assert_eq!(
        column(&["1", "2", "3"]).as_unicode_at_var("\\beta"),
        "       ⎛1⎞\n𝛽 = ⎜2⎟\n       ⎝3⎠"
    );
    // Widths are counted in bytes.
    assert_eq!(column(&["é", "ab"]).as_unicode(), "⎛é⎞\n⎝ab⎠");
}

#[test]
fn pictures_of_matrices() {
    assert_eq!(grid(&[&["1", "2"], &["3", "44"]]).as_unicode(), "⎡1  2 ⎤\n⎣3  44⎦");
    assert_eq!(
        grid(&[&["1", "2"], &["3", "4"], &["5", "6"]]).as_unicode_at_var("A"),
        "    ⎡1 2⎤\nA = ⎢3 4⎥\n    ⎣5 6⎦"
    );
    assert_eq!(grid(&[&["1", "2"]]).as_unicode(), "⎡1 2⎤");
    assert_eq!(grid(&[&["1"], &["-10"]]).as_unicode_at_var("M"), "M = ⎡ 1 ⎤\n    ⎣-10⎦");
    assert_eq!(grid(&[]).as_unicode(), "");
}

fn product() -> Step {
    Step::Calc {
        term: tree("3*3"),
        result: vec![number("9")],
        variable_save: Some("x".to_string()),
    }
}

fn unnamed() -> Step {
    Step::Calc { term: tree("3*3"), result: vec![number("9")], variable_save: None }
}

fn definition() -> Step {
    Step::Fun { term: tree("x^2"), inputs: texts(&["x"]), name: "f".to_string() }
}

#[test]
fn steps_as_latex() {
    assert_eq!(product().as_latex(), "x &= 3\\cdot 3 = 9");
    assert_eq!(unnamed().as_latex(), "3\\cdot 3 &= 9");
    assert_eq!(definition().as_latex(), "f(x) &= x^{2}");

    // A result that reads like the expression is not repeated.
    let plain = Step::Calc { term: tree("9"), result: vec![number("9")], variable_save: None };
    assert_eq!(plain.as_latex(), "9");
    let saved = Step::Calc {
        term: tree("9"),
        result: vec![number("9")],
        variable_save: Some("x".to_string()),
    };
    assert_eq!(saved.as_latex(), "x &= 9");

    let roots = Step::Calc {
        term: tree("sqrt(9)"),
        result: vec![number("3"), number("-3")],
        variable_save: None,
    };
    assert_eq!(roots.as_latex(), "\\sqrt{9} &= \\left\\{3; -3\\right\\}");
    // The longer side of an equation stands on the left.
    let none = Step::Calc { term: tree("eq(x=x+1,x)"), result: vec![], variable_save: None };
    assert_eq!(
        none.as_latex(),
        "\\left|\\begin{align}x+1&=x\\end{align}\\right| &= No solutions"
    );
}

#[test]
fn steps_with_tags() {
    assert_eq!(
        product().as_latex_with_tag(1),
        "x &= 3\\cdot 3 = 9 \\tag{1}\\label{eq:1} \\\\ \\\\ \n"
    );
    assert_eq!(
        unnamed().as_latex_with_tag(12),
        "3\\cdot 3 &= 9 \\tag{12}\\label{eq:12} \\\\ \\\\ \n"
    );
    assert_eq!(
        definition().as_latex_with_tag(-3),
        "f(x) &= x^{2} \\tag{-3}\\label{eq:-3} \\\\ \\\\ \n"
    );
    assert_eq!(
        definition().as_latex_with_tag(i32::MIN),
        "f(x) &= x^{2} \\tag{-2147483648}\\label{eq:-2147483648} \\\\ \\\\ \n"
    );
    assert_eq!(
        definition().as_latex_with_tag(0),
        "f(x) &= x^{2} \\tag{0}\\label{eq:0} \\\\ \\\\ \n"
    );
}

#[test]
fn steps_within_a_line() {
    assert_eq!(product().as_latex_inline(), "x = 3\\cdot 3 = 9");
    assert_eq!(unnamed().as_latex_inline(), "3\\cdot 3 = 9");
    assert_eq!(definition().as_latex_inline(), "f(x) &= x^{2}");
    let saved = Step::Calc {
        term: tree("9"),
        result: vec![number("9")],
        variable_save: Some("x".to_string()),
    };
    assert_eq!(saved.as_latex_inline(), "x = 9");
}

const HEAD: &str = "\\documentclass[12pt, letterpaper]{article}\n\\usepackage{amsmath}\n\\usepackage[margin=1in]{geometry}\n\\allowdisplaybreaks\n\\begin{document}\n\\begin{align*}\n";
const FOOT: &str = "\\end{align*}\n\\end{document}";

#[test]
fn history_as_a_document() {
    assert_eq!(Step::history(&vec![]), format!("{}{}", HEAD, FOOT));
    assert_eq!(
        Step::history(&vec![product(), definition()]),
        format!(
            "{}x &= 3\\cdot 3 = 9 \\tag{{1}}\\label{{eq:1}} \\\\ \\\\ \nf(x) &= x^{{2}} \\tag{{2}}\\label{{eq:2}} \\\\ \\\\ \n{}",
            HEAD, FOOT
        )
    );
    let many: Vec<Step> = (0..11).map(|_| definition()).collect();
    let document = Step::history(&many);
    assert!(document.contains("\\tag{10}\\label{eq:10}"));
    assert!(document.contains("\\tag{11}\\label{eq:11}"));
    assert!(!document.contains("\\tag{12}"));
    assert!(!document.contains("\\tag{0}"));
}

#[test]
fn exports_of_a_history() {
    let document = Step::history(&vec![product()]);
    assert_eq!(
        export_history(&vec![product()], ExportType::Tex),
        Export::Source(document.clone())
    );
    assert_eq!(export_history(&vec![product()], ExportType::Pdf), Export::Typeset(document));
    assert_eq!(
        export_history(&vec![], ExportType::Tex),
        Export::Source(format!("{}{}", HEAD, FOOT))
    );
}
