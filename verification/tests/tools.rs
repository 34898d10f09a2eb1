use math_utils_lib::basetypes::{
    Context, Function, Operation, SimpleOpType, Value, Values, Variable, AST, E_BITS, PI_BITS,
};
use math_utils_lib::errors::{
    decimal, EvalError, LatexError, MathLibError, ParserError, QuickEvalError,
};
use math_utils_lib::helpers::{cart_prod, center_in_string, get_args, index_prod};
use math_utils_lib::latex::recolor;
use math_utils_lib::lexer::get_op_symbol;
use math_utils_lib::numbers::{is_equal, is_inf_or_nan, is_less, is_same_value, is_smaller};
use math_utils_lib::parser::parse;
use math_utils_lib::selection::{clean_results, generate_combinations, sort_values};
use math_utils_lib::text::{is_digit, is_whitespace};
use math_utils_lib::unknowns::{infer_unknowns, names_in};

fn chars(text: &str) -> Vec<char> {
    text.chars().collect()
}

fn texts(parts: Vec<Vec<char>>) -> Vec<String> {
    parts.into_iter().map(|p| p.into_iter().collect()).collect()
}

fn scalar(x: f64) -> Value {
    Value::Scalar(x.to_bits())
}

fn vector(xs: &[f64]) -> Value {
    Value::Vector(xs.iter().map(|x| x.to_bits()).collect())
}

fn variable(name: &str, value: Value) -> Variable {
    Variable::new(name.to_string(), vec![value])
}

fn function(name: &str, body: &str, inputs: &[&str]) -> Function {
    Function::new(
        name.to_string(),
        parse(body).unwrap(),
        inputs.iter().map(|s| s.to_string()).collect(),
    )
}

#[test]
fn cartesian_product_counts_with_the_last_list_fastest() {
    assert_eq!(
        cart_prod(&vec![vec![1, 2], vec![10, 20, 30]]),
        vec![vec![1, 10], vec![1, 20], vec![1, 30], vec![2, 10], vec![2, 20], vec![2, 30]]
    );
    assert_eq!(
        cart_prod(&vec![vec!['a', 'b'], vec!['c'], vec!['d', 'e']]),
        vec![vec!['a', 'c', 'd'], vec!['a', 'c', 'e'], vec!['b', 'c', 'd'], vec!['b', 'c', 'e']]
    );
}

#[test]
fn cartesian_product_of_no_lists_is_one_empty_choice() {
    let none: Vec<Vec<u8>> = vec![];
    assert_eq!(cart_prod(&none), vec![Vec::<u8>::new()]);
}

#[test]
fn cartesian_product_with_an_empty_list_is_empty() {
    let lists: Vec<Vec<u8>> = vec![vec![1, 2], vec![], vec![3]];
    assert_eq!(cart_prod(&lists), Vec::<Vec<u8>>::new());
}

#[test]
fn index_choices() {
    assert_eq!(
        index_prod(&vec![2, 2]),
        vec![vec![0, 0], vec![0, 1], vec![1, 0], vec![1, 1]]
    );
    assert_eq!(index_prod(&vec![]), vec![Vec::<usize>::new()]);
    assert_eq!(index_prod(&vec![3, 0]), Vec::<Vec<usize>>::new());
}

#[test]
fn arguments_are_cut_at_commas_outside_brackets() {
    assert_eq!(texts(get_args(&chars("a,b,c"))), vec!["a", "b", "c"]);
    assert_eq!(texts(get_args(&chars("f(a,b),[1,2],{3,4}"))), vec!["f(a,b)", "[1,2]", "{3,4}"]);
    assert_eq!(texts(get_args(&chars(""))), vec![""]);
    assert_eq!(texts(get_args(&chars("a,"))), vec!["a", ""]);
    assert_eq!(texts(get_args(&chars(",a"))), vec!["", "a"]);
}

#[test]
fn combinations_of_equations() {
    assert_eq!(
        generate_combinations(vec![0, 1, 2], 2, vec![]),
        vec![vec![0, 1], vec![0, 2], vec![1, 2]]
    );
    assert_eq!(
        generate_combinations(vec![0, 1, 2], 1, vec![]),
        vec![vec![0], vec![1], vec![2]]
    );
    assert_eq!(generate_combinations(vec![0, 1, 2], 3, vec![]), vec![vec![0, 1, 2]]);
    assert_eq!(generate_combinations(vec![0, 1], 0, vec![]), vec![Vec::<usize>::new()]);
    assert_eq!(generate_combinations(vec![0, 1], 3, vec![]), Vec::<Vec<usize>>::new());
    assert_eq!(generate_combinations(vec![5, 6], 2, vec![9]), vec![vec![9, 5], vec![9, 6]]);
}

#[test]
fn centring() {
    assert_eq!(center_in_string("ab".to_string(), 6), "  ab  ");
    assert_eq!(center_in_string("ab".to_string(), 5), " ab  ");
    assert_eq!(center_in_string("abc".to_string(), 3), "abc");
    assert_eq!(center_in_string("abcd".to_string(), 3), "abcd");
    assert_eq!(center_in_string("ab".to_string(), -1), "ab");
    assert_eq!(center_in_string("".to_string(), 2), "  ");
    // The width counts bytes: the two letters take four bytes.
    assert_eq!(center_in_string("éé".to_string(), 6), " éé ");
}

#[test]
fn decimal_numerals() {
    assert_eq!(decimal(0), "0");
    assert_eq!(decimal(7), "7");
    assert_eq!(decimal(10), "10");
    assert_eq!(decimal(1905), "1905");
    assert_eq!(decimal(u64::MAX), u64::MAX.to_string());
}

#[test]
fn character_classes() {
    for c in ['0', '5', '9'] {
        assert!(is_digit(c));
    }
    for c in ['a', ' ', '/', ':', '٣'] {
        assert!(!is_digit(c));
    }
    for code in 0..=0x3100u32 {
        if let Some(c) = char::from_u32(code) {
            assert_eq!(is_whitespace(c), c.is_whitespace());
        }
    }
}

#[test]
fn operator_symbols() {
    assert_eq!(get_op_symbol('+'), Some(SimpleOpType::Add));
    assert_eq!(get_op_symbol('-'), Some(SimpleOpType::Sub));
    assert_eq!(get_op_symbol('&'), Some(SimpleOpType::AddSub));
    assert_eq!(get_op_symbol('*'), Some(SimpleOpType::Mult));
    assert_eq!(get_op_symbol('/'), Some(SimpleOpType::Div));
    assert_eq!(get_op_symbol('^'), Some(SimpleOpType::Pow));
    assert_eq!(get_op_symbol('#'), Some(SimpleOpType::Cross));
    assert_eq!(get_op_symbol('?'), Some(SimpleOpType::Get));
    assert_eq!(get_op_symbol('='), None);
    assert_eq!(get_op_symbol('x'), None);
}

#[test]
fn numbers_compare_as_the_standard_library_compares_them() {
    let samples = [
        0.0,
        -0.0,
        1.0,
        -1.0,
        0.5,
        -0.5,
        1e-320,
        -1e-320,
        f64::MIN_POSITIVE,
        f64::MAX,
        f64::MIN,
        f64::INFINITY,
        f64::NEG_INFINITY,
        f64::NAN,
        -f64::NAN,
        3.0,
        -3.0,
        1e308,
        2.5e-8,
    ];
    for a in samples {
        assert_eq!(is_inf_or_nan(a.to_bits()), a.is_infinite() || a.is_nan());
        for b in samples {
            assert_eq!(is_less(a.to_bits(), b.to_bits()), a < b, "{} < {}", a, b);
            assert_eq!(is_equal(a.to_bits(), b.to_bits()), a == b, "{} == {}", a, b);
            assert_eq!(
                is_smaller(a.to_bits(), b.to_bits()),
                a.abs() < b.abs(),
                "|{}| < |{}|",
                a,
                b
            );
        }
    }
}

#[test]
fn values_compare_place_by_place() {
    assert!(is_same_value(&scalar(0.), &scalar(-0.)));
    assert!(!is_same_value(&scalar(f64::NAN), &scalar(f64::NAN)));
    assert!(is_same_value(&vector(&[1., 2.]), &vector(&[1., 2.])));
    assert!(!is_same_value(&vector(&[1., 2.]), &vector(&[1., 3.])));
    assert!(!is_same_value(&vector(&[1., 2.]), &vector(&[1.])));
    assert!(!is_same_value(&vector(&[1.]), &scalar(1.)));
    let a = Value::Matrix(vec![vec![1f64.to_bits()], vec![2f64.to_bits()]]);
    let b = Value::Matrix(vec![vec![1f64.to_bits()], vec![2f64.to_bits()]]);
    let c = Value::Matrix(vec![vec![1f64.to_bits()], vec![3f64.to_bits()]]);
    assert!(is_same_value(&a, &b));
    assert!(!is_same_value(&a, &c));
    assert!(scalar(f64::INFINITY).is_inf_or_nan());
    assert!(vector(&[1., f64::NAN]).is_inf_or_nan());
    assert!(!vector(&[1., 2.]).is_inf_or_nan());
    assert!(!a.is_inf_or_nan());
    assert!(Value::Matrix(vec![vec![1f64.to_bits()], vec![f64::INFINITY.to_bits()]])
        .is_inf_or_nan());
}

#[test]
fn shapes_of_values() {
    assert_eq!(scalar(2.).get_scalar(), Some(2f64.to_bits()));
    assert_eq!(vector(&[2.]).get_scalar(), None);
    assert_eq!(vector(&[2.]).get_vector(), Some(vec![2f64.to_bits()]));
    assert_eq!(scalar(2.).get_vector(), None);
    assert_eq!(scalar(2.).get_matrix(), None);
    assert_eq!(
        Value::Matrix(vec![vec![1, 2]]).get_matrix(),
        Some(vec![vec![1, 2]])
    );
    assert!(scalar(1.).is_scalar() && !scalar(1.).is_vector() && !scalar(1.).is_matrix());
    assert!(vector(&[1.]).is_vector() && !vector(&[1.]).is_scalar());
    assert!(Value::Matrix(vec![]).is_matrix());
    let values = Values::from_vec(vec![scalar(1.), scalar(2.)]);
    assert_eq!(values.len(), 2);
    assert_eq!(values.get(1), Some(&scalar(2.)));
    assert_eq!(values.get(2), None);
    assert_eq!(values.clone().to_vec(), vec![scalar(1.), scalar(2.)]);
}

#[test]
fn sorting_keeps_the_order_of_equal_keys() {
    let values = vec![scalar(3.), scalar(-1.), scalar(2.), scalar(-3.), scalar(1.)];
    assert_eq!(
        sort_values(&values, false),
        vec![scalar(-3.), scalar(-1.), scalar(1.), scalar(2.), scalar(3.)]
    );
    assert_eq!(
        sort_values(&values, true),
        vec![scalar(-1.), scalar(1.), scalar(2.), scalar(3.), scalar(-3.)]
    );
    let vectors = vec![vector(&[2., 0.]), vector(&[1., 5.]), vector(&[2., -1.])];
    assert_eq!(
        sort_values(&vectors, false),
        vec![vector(&[1., 5.]), vector(&[2., 0.]), vector(&[2., -1.])]
    );
}

#[test]
fn roots_that_round_to_the_same_are_one_root() {
    let roots = vec![scalar(3.0000001), scalar(-3.), scalar(2.9999999), scalar(-3.)];
    let rounded = vec![scalar(3.), scalar(-3.), scalar(3.), scalar(-3.)];
    assert_eq!(clean_results(&roots, &rounded), vec![scalar(3.0000001), scalar(-3.)]);
    assert_eq!(clean_results(&vec![], &vec![]), Vec::<Value>::new());
}

#[test]
fn more_than_ten_roots_are_cut_to_the_ten_smallest() {
    let found: Vec<f64> = vec![8., -7., 6., -5., 4., -3., 2., -1., 0., 9., -10., 11.];
    let roots: Vec<Value> = found.iter().map(|x| scalar(*x)).collect();
    let got = clean_results(&roots, &roots);
    let want: Vec<Value> =
        [-7., -5., -3., -1., 0., 2., 4., 6., 8., 9.].iter().map(|x| scalar(*x)).collect();
    assert_eq!(got, want);
    // Up to ten roots stay in the order in which they were found.
    let few: Vec<Value> = found[0..10].iter().map(|x| scalar(*x)).collect();
    assert_eq!(clean_results(&few, &few), few);
}

#[test]
fn a_variable_that_is_added_again_takes_the_place_of_the_old_one() {
    let mut context = Context::from_vars(vec![
        variable("x", scalar(1.)),
        variable("y", scalar(2.)),
    ]);
    context.add_var(&variable("x", scalar(3.)));
    assert_eq!(
        context.vars,
        vec![variable("y", scalar(2.)), variable("x", scalar(3.))]
    );
    context.add_var(&variable("x", scalar(3.)));
    assert_eq!(context.vars.len(), 2);
    context.add_var(&variable("z", scalar(4.)));
    assert_eq!(context.vars.len(), 3);
    context.remove_var("y");
    assert_eq!(
        context.vars,
        vec![variable("x", scalar(3.)), variable("z", scalar(4.))]
    );
    context.remove_var("nothing");
    assert_eq!(context.vars.len(), 2);
}

#[test]
fn a_function_that_is_added_again_takes_the_place_of_the_old_one() {
    let mut context = Context::from_funs(vec![function("f", "x", &["x"]), function("g", "2x", &["x"])]);
    context.add_fun(&function("f", "3x", &["x"]));
    assert_eq!(context.funs, vec![function("g", "2x", &["x"]), function("f", "3x", &["x"])]);
    context.add_fun(&function("f", "3x", &["x"]));
    assert_eq!(context.funs.len(), 2);
    context.remove_fun("g");
    assert_eq!(context.funs, vec![function("f", "3x", &["x"])]);
}

#[test]
fn contexts() {
    let usual = Context::default();
    assert_eq!(usual.vars.len(), 2);
    assert_eq!(usual.vars[0], variable("pi", scalar(std::f64::consts::PI)));
    assert_eq!(usual.vars[1], variable("e", scalar(std::f64::consts::E)));
    assert_eq!(PI_BITS, std::f64::consts::PI.to_bits());
    assert_eq!(E_BITS, std::f64::consts::E.to_bits());
    assert!(usual.funs.is_empty());
    let empty = Context::empty();
    assert!(empty.vars.is_empty() && empty.funs.is_empty());
    let both = Context::new(vec![variable("x", scalar(1.))], vec![function("f", "x", &["x"])]);
    assert_eq!(both.vars.len(), 1);
    assert_eq!(both.funs.len(), 1);
    assert_eq!(both.clone(), both);
    let named = Variable::new_from_values("v".to_string(), Values::from_vec(vec![scalar(1.)]));
    assert_eq!(named, variable("v", scalar(1.)));
}

#[test]
fn trees_are_built_from_their_parts() {
    assert_eq!(AST::from_variable_name("x".to_string()), AST::Variable("x".to_string()));
    let sum = Operation::SimpleOperation {
        op_type: SimpleOpType::Add,
        left: AST::Scalar("1".to_string()),
        right: AST::Scalar("2".to_string()),
    };
    assert_eq!(AST::from_operation(sum.clone()), parse("1+2").unwrap());
    let tree = parse("eq(f(x)+[a,{b,c}]=I(t^2,t,0,u), x)").unwrap();
    assert_eq!(tree.clone(), tree);
}

#[test]
fn free_names() {
    let names = |text: &str| names_in(&parse(text).unwrap());
    assert_eq!(names("x+y*x"), vec!["x", "y", "x"]);
    assert_eq!(names("3"), Vec::<String>::new());
    assert_eq!(names("f(a, [b, c])"), vec!["a", "b", "c"]);
    assert_eq!(names("[[a, b], [c, d]]"), vec!["a", "c", "b", "d"]);
    assert_eq!(names("{a, b}"), vec!["a", "b"]);
    assert_eq!(names("I(t^2+a, t, b, c)"), vec!["a", "b", "c"]);
    assert_eq!(names("D(t^2+a, t, t)"), vec!["a", "t"]);
    assert_eq!(names("eq(x^2=a, x)"), vec!["a"]);
    assert_eq!(names("eq(x^2=a)"), vec!["x", "a"]);
}

#[test]
fn unknowns_are_the_free_names_that_the_context_does_not_bind() {
    let context = Context::from_vars(vec![variable("a", scalar(1.))]);
    let expressions = vec![parse("x^2-a+y").unwrap(), parse("y-x").unwrap()];
    assert_eq!(infer_unknowns(&expressions, &context), vec!["x", "y"]);
    assert_eq!(infer_unknowns(&vec![], &context), Vec::<String>::new());
}

#[test]
fn colour_of_a_picture() {
    assert_eq!(
        recolor("<g stroke=\"currentColor\" fill=\"currentColor\">", "#FFFFFF"),
        "<g stroke=\"#FFFFFF\" fill=\"#FFFFFF\">"
    );
    assert_eq!(recolor("nothing to do", "#FFFFFF"), "nothing to do");
    assert_eq!(recolor("currentColocurrentColor", "red"), "currentColored");
    assert_eq!(recolor("", "red"), "");
    assert_eq!(
        recolor("currentColorcurrentColor", "currentColor"),
        "currentColorcurrentColor"
    );
    for text in ["acurrentColorb", "currentColo", "ccurrentColor", "currentColorr"] {
        assert_eq!(recolor(text, "x"), text.replace("currentColor", "x"));
    }
}


#[test]
fn reasons_of_errors() {
    let parser = [
        (ParserError::ParseValue("1.2.3".to_string()), "Could not parse value 1.2.3!"),
        (
            ParserError::MissingBracket,
            "Could not parse vector/matrix because of missing brackets!",
        ),
        (
            ParserError::EmptyVec,
            "Could not parse vector/matrix because it is (partially) empty!",
        ),
        (
            ParserError::NotRectMatrix,
            "Could not parse matrix because it is not rectangular!",
        ),
        (ParserError::EmptyExpr, "Could not parse empty expression!"),
        (ParserError::UnmatchedOpenDelimiter, "Unmatched opening delimiter!"),
        (ParserError::UnmatchedCloseDelimiter, "Unmatched closing delimiter!"),
        (ParserError::EquationWithoutEqual, "Must have = in equation!"),
        (
            ParserError::TooManyEquals,
            "Too many = in equation. If you want to specify a system of equations please seperate each equation with a ','.",
        ),
        (ParserError::NoEquation, "Equation does not contain an '='!"),
        (
            ParserError::InvalidVariableName("x1".to_string()),
            "Found invalid variable name: x1!",
        ),
        (
            ParserError::InvalidFunctionName("f=".to_string()),
            "Found invalid function name: f=!",
        ),
        (
            ParserError::WrongNumberOfArgs("integral".to_string()),
            "Wrong number of arguments for integral operation!",
        ),
    ];
    for (error, reason) in parser {
        assert_eq!(error.get_reason(), reason);
        assert_eq!(error.clone(), error);
        assert_eq!(QuickEvalError::from(error.clone()).get_reason(), reason);
        assert_eq!(MathLibError::from(error).get_reason(), reason);
    }
    let eval = [
        (EvalError::NonScalarInVector, "Vectors can only contain scalars!"),
        (EvalError::NonScalarInMatrix, "Matrices can only contain scalars!"),
        (EvalError::RecursiveFunction, "Can't call a recursive function!"),
        (
            EvalError::VectorInEq,
            "Can't have vectors in equations! Please convert your equation into a system of equations!",
        ),
        (EvalError::MatrixInEq, "Can't have matrices in equations!"),
        (EvalError::NothingToDoEq, "Nothing to do!"),
        (EvalError::UnderdeterminedSystem, "Underdetermined system of equations!"),
        (EvalError::InfiniteSolutions, "Infinite Solutions!"),
        (EvalError::NaNOrInf, "NaN or Inf"),
        (EvalError::ExpressionCheckFailed, "Expression Check Failed!"),
        (
            EvalError::SearchVarsInVars,
            "The given solve variables already exist in the context!",
        ),
        (EvalError::NoVariable("x".to_string()), "Could not find variable x!"),
        (EvalError::NoFunction("f".to_string()), "Could not find function f!"),
        (
            EvalError::WrongNumberOfArgs((12, 0)),
            "Wrong number of arguments! Expected 12 arguments, 0 were given!",
        ),
        (EvalError::MathError("Can't add scalar to vector!".to_string()), "Can't add scalar to vector!"),
    ];
    for (error, reason) in eval {
        assert_eq!(error.get_reason(), reason);
        assert_eq!(error.clone(), error);
        assert_eq!(QuickEvalError::from(error.clone()).get_reason(), reason);
        assert_eq!(MathLibError::from(error).get_reason(), reason);
    }
    assert_eq!(
        EvalError::from("message".to_string()),
        EvalError::MathError("message".to_string())
    );
    assert_eq!(QuickEvalError::DuplicateVars.get_reason(), "Can't specify e and pi twice!");
    assert_eq!(
        MathLibError::from(QuickEvalError::DuplicateVars).get_reason(),
        "Can't specify e and pi twice!"
    );
    assert_eq!(MathLibError::Other("other".to_string()).get_reason(), "other");
    let latex = [
        (LatexError::LatexToPdfError("x".to_string()), "Could not convert Latex to PDF: x!"),
        (LatexError::LatexToImageError("x".to_string()), "Could not convert Latex to Image: x!"),
        (LatexError::LatexToSvgError("x".to_string()), "Could not convert Latex to SVG: x!"),
    ];
    for (error, reason) in latex {
        assert_eq!(error.get_reason(), reason);
        assert_eq!(MathLibError::from(error).get_reason(), reason);
    }
}
