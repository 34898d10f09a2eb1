use math_utils_lib::basetypes::{Context, Function, Operation, SimpleOpType, Value, Variable, AST};
use math_utils_lib::calculus::{
    calculate_derivative, calculate_derivative_newton, Evaluate, PREC,
};
use math_utils_lib::elimination::{is_zero_number, Elimination};
use math_utils_lib::errors::{EvalError, ParserError, QuickEvalError};
use math_utils_lib::integral::calculate_integral;
use math_utils_lib::newton::{ROOT_DIGITS, TOLERANCE_BITS};
use math_utils_lib::parser::parse;
use math_utils_lib::roots::{is_within_tolerance, Answer, Question, RootFinder};
use math_utils_lib::solver::solve;
use math_utils_lib::unknowns::infer_unknowns;

fn scalar(x: f64) -> Value {
    Value::Scalar(x.to_bits())
}

fn tree(text: &str) -> AST {
    parse(text).unwrap()
}

fn binary(op_type: SimpleOpType, left: AST, right: AST) -> AST {
    AST::Operation(Box::new(Operation::SimpleOperation { op_type, left, right }))
}

fn var(name: &str) -> AST {
    AST::Variable(name.to_string())
}

fn numeral(text: &str) -> AST {
    AST::Scalar(text.to_string())
}

fn bound(pairs: &[(&str, Vec<Value>)]) -> Context {
    Context::new(
        pairs.iter().map(|p| Variable::new(p.0.to_string(), p.1.clone())).collect(),
        vec![],
    )
}

fn ask(ast: AST, context: Context) -> Option<Evaluate> {
    Some(Evaluate { ast, context })
}

#[test]
fn derivative_asks_for_values_shift_and_quotient() {
    let expr = tree("x^2");
    let machine = calculate_derivative(&expr, "x", &scalar(3.), &Context::empty());
    assert_eq!(machine.request(), None);
    assert_eq!(machine.outcome(), None);

    let (machine, request) = machine.step(None);
    assert_eq!(request, ask(tree("x^2"), bound(&[("x", vec![scalar(3.)])])));
    assert_eq!(machine.request(), request);

    // Without a reply the machine waits.
    let (machine, request) = machine.step(None);
    assert_eq!(request, ask(tree("x^2"), bound(&[("x", vec![scalar(3.)])])));

    let (machine, request) = machine.step(Some(Ok(vec![scalar(9.)])));
    assert_eq!(
        request,
        ask(
            binary(SimpleOpType::Add, var("x"), numeral("1e-8")),
            bound(&[("x", vec![scalar(3.)])])
        )
    );

    let (machine, request) = machine.step(Some(Ok(vec![scalar(3.5)])));
    assert_eq!(request, ask(tree("x^2"), bound(&[("x", vec![scalar(3.5)])])));

    let (machine, request) = machine.step(Some(Ok(vec![scalar(12.25)])));
    assert_eq!(
        request,
        ask(
            binary(
                SimpleOpType::Div,
                binary(SimpleOpType::Sub, var("a"), var("b")),
                numeral("1e-8")
            ),
            bound(&[("a", vec![scalar(12.25)]), ("b", vec![scalar(9.)])])
        )
    );

    let (machine, request) = machine.step(Some(Ok(vec![scalar(6.5)])));
    assert_eq!(request, None);
    assert_eq!(machine.outcome(), Some(Ok(vec![scalar(6.5)])));

    // A machine that is done stays as it is.
    let (machine, request) = machine.step(Some(Ok(vec![scalar(1.)])));
    assert_eq!(request, None);
    assert_eq!(machine.outcome(), Some(Ok(vec![scalar(6.5)])));
}

#[test]
fn derivative_of_every_value() {
    let expr = tree("sqrt(x)");
    let machine = calculate_derivative(&expr, "x", &scalar(4.), &Context::empty());
    let (machine, _) = machine.step(None);
    let (machine, _) = machine.step(Some(Ok(vec![scalar(2.), scalar(-2.)])));
    let (machine, _) = machine.step(Some(Ok(vec![scalar(5.)])));
    let (machine, request) = machine.step(Some(Ok(vec![scalar(3.), scalar(-3.)])));
    assert_eq!(
        request.map(|r| r.context),
        Some(bound(&[("a", vec![scalar(3.)]), ("b", vec![scalar(2.)])]))
    );
    let (machine, request) = machine.step(Some(Ok(vec![scalar(10.)])));
    assert_eq!(
        request.map(|r| r.context),
        Some(bound(&[("a", vec![scalar(-3.)]), ("b", vec![scalar(-2.)])]))
    );
    let (machine, request) = machine.step(Some(Ok(vec![scalar(-10.)])));
    assert_eq!(request, None);
    assert_eq!(machine.outcome(), Some(Ok(vec![scalar(10.), scalar(-10.)])));
}

#[test]
fn derivative_with_different_numbers_of_values() {
    let expr = tree("sqrt(x)");
    let machine = calculate_derivative(&expr, "x", &scalar(4.), &Context::empty());
    let (machine, _) = machine.step(None);
    let (machine, _) = machine.step(Some(Ok(vec![scalar(2.), scalar(-2.)])));
    let (machine, _) = machine.step(Some(Ok(vec![scalar(5.)])));
    let (machine, request) = machine.step(Some(Ok(vec![scalar(3.)])));
    assert_eq!(request, None);
    assert_eq!(
        machine.outcome(),
        Some(Err(EvalError::MathError(
            "Amount of solutions for f(x) and f(x+h) are different!".to_string()
        )))
    );
}

#[test]
fn derivative_with_a_known_value_skips_the_first_evaluation() {
    let expr = tree("x^2");
    let machine = calculate_derivative_newton(
        &expr,
        "x",
        &scalar(3.),
        Some(scalar(9.)),
        &Context::empty(),
    );
    let (machine, request) = machine.step(None);
    assert_eq!(
        request,
        ask(
            binary(SimpleOpType::Add, var("x"), numeral("1e-8")),
            bound(&[("x", vec![scalar(3.)])])
        )
    );
    let (machine, _) = machine.step(Some(Ok(vec![scalar(3.5)])));
    // Of the values of the expression only the first one counts.
    let (machine, request) = machine.step(Some(Ok(vec![scalar(12.25), scalar(1.)])));
    assert_eq!(
        request.map(|r| r.context),
        Some(bound(&[("a", vec![scalar(12.25)]), ("b", vec![scalar(9.)])]))
    );
    let (machine, _) = machine.step(Some(Ok(vec![scalar(6.5), scalar(7.)])));
    assert_eq!(machine.outcome(), Some(Ok(vec![scalar(6.5)])));
}

#[test]
fn derivative_at_a_vector_is_an_error() {
    let expr = tree("x^2");
    let at = Value::Vector(vec![1f64.to_bits()]);
    let machine = calculate_derivative(&expr, "x", &at, &Context::empty());
    let (machine, request) = machine.step(None);
    assert_eq!(request, None);
    assert_eq!(
        machine.outcome(),
        Some(Err(EvalError::MathError("Only scalar values are allowed!".to_string())))
    );
}

#[test]
fn derivative_ends_with_the_error_of_an_evaluation() {
    let expr = tree("x^2");
    let machine = calculate_derivative(&expr, "x", &scalar(3.), &Context::empty());
    let (machine, _) = machine.step(None);
    let (machine, request) = machine.step(Some(Err(EvalError::NoVariable("y".to_string()))));
    assert_eq!(request, None);
    assert_eq!(machine.outcome(), Some(Err(EvalError::NoVariable("y".to_string()))));
}

#[test]
fn derivative_hides_the_variable_of_the_context() {
    let expr = tree("x*y");
    let context = bound(&[("x", vec![scalar(1.)]), ("y", vec![scalar(2.)])]);
    let machine = calculate_derivative(&expr, "x", &scalar(3.), &context);
    let (_, request) = machine.step(None);
    assert_eq!(
        request.map(|r| r.context),
        Some(bound(&[("y", vec![scalar(2.)]), ("x", vec![scalar(3.)])]))
    );
}

#[test]
fn integral_of_equal_bounds_is_zero() {
    let expr = tree("x");
    let machine =
        calculate_integral(&expr, "x".to_string(), scalar(2.), scalar(2.), &Context::empty());
    assert_eq!(machine.outcome(), None);
    let (machine, request) = machine.step(None);
    assert_eq!(request, None);
    assert_eq!(machine.outcome(), Some(Ok(vec![scalar(0.)])));
}

#[test]
fn integral_needs_numbers_as_bounds() {
    let expr = tree("x");
    let lower = Value::Vector(vec![0f64.to_bits()]);
    let machine = calculate_integral(&expr, "x".to_string(), lower, scalar(2.), &Context::empty());
    let (machine, request) = machine.step(None);
    assert_eq!(request, None);
    assert_eq!(
        machine.outcome(),
        Some(Err(EvalError::MathError("Only scalar bounds are allowed!".to_string())))
    );
}

#[test]
fn integral_sweeps_from_the_smaller_bound() {
    let expr = tree("x^2");
    let context = bound(&[("x", vec![scalar(7.)]), ("k", vec![scalar(1.)])]);
    // The bounds are given the wrong way round.
    let machine = calculate_integral(&expr, "x".to_string(), scalar(1.), scalar(0.), &context);
    let (machine, request) = machine.step(None);
    assert_eq!(
        request,
        ask(
            binary(
                SimpleOpType::Div,
                binary(SimpleOpType::Sub, var("u"), var("l")),
                numeral("1e5")
            ),
            bound(&[("u", vec![scalar(1.)]), ("l", vec![scalar(0.)])])
        )
    );

    // A width of 0.6 gives two slices.
    let (machine, request) = machine.step(Some(Ok(vec![scalar(0.6)])));
    assert_eq!(
        request,
        ask(
            binary(
                SimpleOpType::Div,
                binary(
                    SimpleOpType::Add,
                    var("b"),
                    binary(SimpleOpType::Sub, var("b"), var("d"))
                ),
                numeral("2.0")
            ),
            bound(&[("b", vec![scalar(0.)]), ("d", vec![scalar(0.6)])])
        )
    );

    let (machine, request) = machine.step(Some(Ok(vec![scalar(-0.3)])));
    assert_eq!(
        request,
        ask(tree("x^2"), bound(&[("k", vec![scalar(1.)]), ("x", vec![scalar(-0.3)])]))
    );

    // The first sample becomes the sum; the position moves on.
    let (machine, request) = machine.step(Some(Ok(vec![scalar(0.09)])));
    assert_eq!(
        request,
        ask(
            binary(SimpleOpType::Add, var("b"), var("d")),
            bound(&[("b", vec![scalar(0.)]), ("d", vec![scalar(0.6)])])
        )
    );

    let (machine, request) = machine.step(Some(Ok(vec![scalar(0.6)])));
    assert_eq!(
        request.map(|r| r.context),
        Some(bound(&[("b", vec![scalar(0.6)]), ("d", vec![scalar(0.6)])]))
    );

    let (machine, request) = machine.step(Some(Ok(vec![scalar(0.3)])));
    assert_eq!(
        request,
        ask(tree("x^2"), bound(&[("k", vec![scalar(1.)]), ("x", vec![scalar(0.3)])]))
    );

    // The second sample is added to the sum.
    let (machine, request) = machine.step(Some(Ok(vec![scalar(0.25)])));
    assert_eq!(
        request,
        ask(
            binary(SimpleOpType::Add, var("s"), var("e")),
            bound(&[("s", vec![scalar(0.09)]), ("e", vec![scalar(0.25)])])
        )
    );

    let (machine, request) = machine.step(Some(Ok(vec![scalar(0.34)])));
    assert_eq!(
        request.map(|r| r.context),
        Some(bound(&[("b", vec![scalar(0.6)]), ("d", vec![scalar(0.6)])]))
    );

    // The position 1.2 is behind the larger bound: the sum is scaled.
    let (machine, request) = machine.step(Some(Ok(vec![scalar(1.2)])));
    assert_eq!(
        request,
        ask(
            binary(SimpleOpType::Mult, var("s"), var("d")),
            bound(&[("s", vec![scalar(0.34)]), ("d", vec![scalar(0.6)])])
        )
    );

    let (machine, request) = machine.step(Some(Ok(vec![scalar(0.204)])));
    assert_eq!(request, None);
    assert_eq!(machine.outcome(), Some(Ok(vec![scalar(0.204)])));
}

#[test]
fn integral_ends_with_the_error_of_an_evaluation() {
    let expr = tree("x");
    let machine =
        calculate_integral(&expr, "x".to_string(), scalar(0.), scalar(1.), &Context::empty());
    let (machine, _) = machine.step(None);
    let (machine, request) = machine.step(Some(Err(EvalError::NaNOrInf)));
    assert_eq!(request, None);
    assert_eq!(machine.outcome(), Some(Err(EvalError::NaNOrInf)));
}

fn evaluated(x: f64) -> Option<Answer> {
    Some(Answer::Evaluated(Ok(vec![scalar(x)])))
}

fn asked(ast: AST, context: Context) -> Option<Question> {
    Some(Question::Evaluate(Evaluate { ast, context }))
}

fn norm_asked(numbers: &[f64]) -> Option<Question> {
    let vector = Value::Vector(numbers.iter().map(|x| x.to_bits()).collect());
    asked(binary(SimpleOpType::Abs, var("v"), numeral("0")), bound(&[("v", vec![vector])]))
}

#[test]
fn solver_runs_newtons_method() {
    let machine =
        RootFinder::new(vec![tree("x-2")], Context::empty(), vec!["x".to_string()]).unwrap();
    assert_eq!(machine.outcome(), None);
    assert_eq!(machine.question(), asked(numeral("8.21785"), Context::empty()));

    // An answer of the wrong kind is not taken.
    let (machine, question) = machine.step(Some(Answer::Rounded(scalar(1.))));
    assert_eq!(question, asked(numeral("8.21785"), Context::empty()));

    // The expression is probed.
    let (machine, question) = machine.step(evaluated(8.21785));
    assert_eq!(question, asked(tree("x-2"), bound(&[("x", vec![scalar(8.21785)])])));

    // The first start.
    let (machine, question) = machine.step(evaluated(6.21785));
    assert_eq!(question, asked(numeral("-1000"), Context::empty()));

    let (machine, question) = machine.step(evaluated(-1000.));
    assert_eq!(question, asked(tree("x-2"), bound(&[("x", vec![scalar(-1000.)])])));

    // The norm of the residual is asked for; it is not zero.
    let (machine, question) = machine.step(evaluated(-1002.));
    assert_eq!(question, norm_asked(&[-1002.]));

    let (machine, question) = machine.step(evaluated(1002.));
    assert_eq!(
        question,
        Some(Question::Differentiate {
            expr: tree("x-2"),
            in_terms_of: "x".to_string(),
            at: scalar(-1000.),
            known: scalar(-1002.),
            context: Context::empty(),
        })
    );

    let (machine, question) = machine.step(evaluated(1.));
    assert_eq!(
        question,
        Some(Question::Improve {
            slopes: vec![vec![1f64.to_bits()]],
            residual: vec![(-1002f64).to_bits()],
            point: vec![(-1000f64).to_bits()],
        })
    );

    let (machine, question) = machine.step(Some(Answer::Point(Ok(vec![2f64.to_bits()]))));
    assert_eq!(question, asked(tree("x-2"), bound(&[("x", vec![scalar(2.)])])));

    let (machine, question) = machine.step(evaluated(1e-9));
    assert_eq!(question, norm_asked(&[1e-9]));

    // The norm is zero within the tolerance: the point is a root; the next
    // start follows.
    let (machine, question) = machine.step(evaluated(1e-9));
    assert_eq!(question, asked(numeral("-999"), Context::empty()));

    // A system with infinitely many solutions ends the search: the roots
    // are rounded and handed out.
    let (machine, question) =
        machine.step(Some(Answer::Evaluated(Err(EvalError::InfiniteSolutions))));
    assert_eq!(question, Some(Question::Round { value: scalar(2.), digits: 6 }));

    let (machine, question) = machine.step(Some(Answer::Rounded(scalar(2.))));
    assert_eq!(question, None);
    assert_eq!(machine.outcome(), Some(Ok(vec![scalar(2.)])));
}

#[test]
fn solver_gives_up_a_start_at_a_point_that_is_no_number() {
    let machine =
        RootFinder::new(vec![tree("x-2")], Context::empty(), vec!["x".to_string()]).unwrap();
    let (machine, _) = machine.step(evaluated(8.21785));
    let (machine, _) = machine.step(evaluated(6.21785));
    let (machine, _) = machine.step(evaluated(-1000.));
    let (machine, _) = machine.step(evaluated(-1002.));
    let (machine, _) = machine.step(evaluated(1002.));
    let (machine, _) = machine.step(evaluated(0.));
    let (machine, question) = machine.step(Some(Answer::Point(Ok(vec![f64::NAN.to_bits()]))));
    assert_eq!(question, asked(numeral("-999"), Context::empty()));
    let (machine, question) = machine.step(Some(Answer::Evaluated(Err(EvalError::NaNOrInf))));
    assert_eq!(question, asked(numeral("-998"), Context::empty()));
    assert_eq!(machine.outcome(), None);
}

#[test]
fn solver_gives_up_a_start_after_a_failed_check() {
    let machine =
        RootFinder::new(vec![tree("x-2")], Context::empty(), vec!["x".to_string()]).unwrap();
    let (machine, _) = machine.step(evaluated(8.21785));
    let (machine, _) = machine.step(evaluated(6.21785));
    let (machine, question) = machine.step(evaluated(-1000.));
    assert_eq!(question, asked(tree("x-2"), bound(&[("x", vec![scalar(-1000.)])])));
    let (machine, question) =
        machine.step(Some(Answer::Evaluated(Err(EvalError::ExpressionCheckFailed))));
    assert_eq!(question, asked(numeral("-999"), Context::empty()));
    assert_eq!(machine.outcome(), None);
}

#[test]
fn solver_ends_with_any_other_error() {
    let machine =
        RootFinder::new(vec![tree("x-y")], Context::empty(), vec!["x".to_string()]).unwrap();
    let (machine, _) = machine.step(evaluated(8.21785));
    let (machine, question) =
        machine.step(Some(Answer::Evaluated(Err(EvalError::NoVariable("y".to_string())))));
    assert_eq!(question, None);
    assert_eq!(machine.outcome(), Some(Err(EvalError::NoVariable("y".to_string()))));
}

#[test]
fn solver_refuses_a_vector_at_the_probe() {
    let machine =
        RootFinder::new(vec![tree("x*[1,2]")], Context::empty(), vec!["x".to_string()]).unwrap();
    let (machine, _) = machine.step(evaluated(8.21785));
    let (machine, _) = machine.step(Some(Answer::Evaluated(Ok(vec![Value::Vector(vec![
        1f64.to_bits(),
        2f64.to_bits(),
    ])]))));
    assert_eq!(machine.outcome(), Some(Err(EvalError::VectorInEq)));

    let machine =
        RootFinder::new(vec![tree("x*[[1]]")], Context::empty(), vec!["x".to_string()]).unwrap();
    let (machine, _) = machine.step(evaluated(8.21785));
    let (machine, _) =
        machine.step(Some(Answer::Evaluated(Ok(vec![Value::Matrix(vec![vec![1f64.to_bits()]])]))));
    assert_eq!(machine.outcome(), Some(Err(EvalError::MatrixInEq)));
}

#[test]
fn solver_checks_the_expressions_that_it_did_not_search_with() {
    let machine = RootFinder::new(
        vec![tree("x-2"), tree("x*x-4")],
        Context::empty(),
        vec!["x".to_string()],
    )
    .unwrap();
    let (machine, _) = machine.step(evaluated(8.21785));
    let (machine, _) = machine.step(evaluated(6.21785));
    let (machine, question) = machine.step(evaluated(63.5));
    assert_eq!(question, asked(numeral("-1000"), Context::empty()));
    let (machine, question) = machine.step(evaluated(2.));
    assert_eq!(question, asked(tree("x-2"), bound(&[("x", vec![scalar(2.)])])));
    let (machine, _) = machine.step(evaluated(0.));
    // The residual is zero: the other expression is checked at the point.
    let (machine, question) = machine.step(evaluated(0.));
    assert_eq!(question, asked(tree("x*x-4"), bound(&[("x", vec![scalar(2.)])])));
    let (machine, question) = machine.step(evaluated(0.5));
    assert_eq!(question, norm_asked(&[0.5]));
    // The check fails: the point is no root, the next start follows.
    let (machine, question) = machine.step(evaluated(0.5));
    assert_eq!(question, asked(numeral("-999"), Context::empty()));
    // Without roots the search goes on with the other expression.
    let (machine, question) =
        machine.step(Some(Answer::Evaluated(Err(EvalError::InfiniteSolutions))));
    assert_eq!(question, asked(numeral("-1000"), Context::empty()));
    let (machine, question) = machine.step(evaluated(3.));
    assert_eq!(question, asked(tree("x*x-4"), bound(&[("x", vec![scalar(3.)])])));
    // Behind the last choice there are no roots.
    let (machine, question) =
        machine.step(Some(Answer::Evaluated(Err(EvalError::InfiniteSolutions))));
    assert_eq!(question, None);
    assert_eq!(machine.outcome(), Some(Ok(vec![])));
}

#[test]
fn solver_with_two_unknowns_asks_for_every_slope() {
    let context = bound(&[("k", vec![scalar(5.)])]);
    let machine = RootFinder::new(
        vec![tree("x+y"), tree("x-y")],
        context,
        vec!["x".to_string(), "y".to_string()],
    )
    .unwrap();
    let (machine, _) = machine.step(evaluated(8.21785));
    let (machine, _) = machine.step(evaluated(1.));
    let (machine, _) = machine.step(evaluated(1.));
    let (machine, question) = machine.step(evaluated(-1000.));
    let at_point = bound(&[
        ("k", vec![scalar(5.)]),
        ("x", vec![scalar(-1000.)]),
        ("y", vec![scalar(-1000.)]),
    ]);
    assert_eq!(question, asked(tree("x+y"), at_point));
    let (machine, _) = machine.step(evaluated(-2000.));
    let (machine, question) = machine.step(evaluated(0.));
    assert_eq!(question, norm_asked(&[-2000., 0.]));
    let (machine, question) = machine.step(evaluated(2000.));
    assert_eq!(
        question,
        Some(Question::Differentiate {
            expr: tree("x+y"),
            in_terms_of: "x".to_string(),
            at: scalar(-1000.),
            known: scalar(-2000.),
            context: bound(&[("k", vec![scalar(5.)]), ("y", vec![scalar(-1000.)])]),
        })
    );
    let (machine, question) = machine.step(evaluated(1.));
    assert_eq!(
        question,
        Some(Question::Differentiate {
            expr: tree("x+y"),
            in_terms_of: "y".to_string(),
            at: scalar(-1000.),
            known: scalar(-2000.),
            context: bound(&[("k", vec![scalar(5.)]), ("x", vec![scalar(-1000.)])]),
        })
    );
    let (machine, _) = machine.step(evaluated(1.));
    let (machine, _) = machine.step(evaluated(1.));
    let (machine, question) = machine.step(evaluated(-1.));
    assert_eq!(
        question,
        Some(Question::Improve {
            slopes: vec![
                vec![1f64.to_bits(), 1f64.to_bits()],
                vec![1f64.to_bits(), (-1f64).to_bits()]
            ],
            residual: vec![(-2000f64).to_bits(), 0f64.to_bits()],
            point: vec![(-1000f64).to_bits(), (-1000f64).to_bits()],
        })
    );
    let (machine, _) =
        machine.step(Some(Answer::Point(Ok(vec![0f64.to_bits(), 0f64.to_bits()]))));
    let (machine, _) = machine.step(evaluated(0.));
    let (machine, _) = machine.step(evaluated(0.));
    let (machine, _) = machine.step(evaluated(0.));
    let (machine, question) =
        machine.step(Some(Answer::Evaluated(Err(EvalError::InfiniteSolutions))));
    let root = Value::Vector(vec![0f64.to_bits(), 0f64.to_bits()]);
    assert_eq!(question, Some(Question::Round { value: root.clone(), digits: 6 }));
    let (machine, _) = machine.step(Some(Answer::Rounded(root.clone())));
    assert_eq!(machine.outcome(), Some(Ok(vec![root])));
}

#[test]
fn solver_refuses_what_it_cannot_solve() {
    let unknown = vec!["x".to_string()];
    assert_eq!(
        RootFinder::new(vec![], Context::empty(), unknown.clone()).err(),
        Some(EvalError::NothingToDoEq)
    );
    assert_eq!(
        RootFinder::new(vec![tree("x-1"), var("x")], Context::empty(), unknown.clone()).err(),
        Some(EvalError::NothingToDoEq)
    );
    assert_eq!(
        RootFinder::new(vec![numeral("3")], Context::empty(), unknown.clone()).err(),
        Some(EvalError::NothingToDoEq)
    );
    assert_eq!(
        RootFinder::new(vec![tree("x-1")], bound(&[("x", vec![scalar(1.)])]), unknown.clone())
            .err(),
        Some(EvalError::SearchVarsInVars)
    );
    assert_eq!(
        RootFinder::new(
            vec![tree("x-y")],
            Context::empty(),
            vec!["x".to_string(), "y".to_string()]
        )
        .err(),
        Some(EvalError::UnderdeterminedSystem)
    );
    // No expression comes before an unknown that is bound.
    assert_eq!(
        RootFinder::new(vec![], bound(&[("x", vec![scalar(1.)])]), unknown.clone()).err(),
        Some(EvalError::NothingToDoEq)
    );
    // An unknown that is bound comes before too many unknowns.
    assert_eq!(
        RootFinder::new(
            vec![tree("x-y")],
            bound(&[("y", vec![scalar(1.)])]),
            vec!["x".to_string(), "y".to_string()]
        )
        .err(),
        Some(EvalError::SearchVarsInVars)
    );
    assert!(RootFinder::new(vec![tree("x-1")], Context::empty(), unknown).is_ok());
}

#[test]
fn solver_looks_for_the_free_names_where_no_unknown_is_given() {
    let context = Context::new(
        vec![Variable::new("a".to_string(), vec![scalar(2.)])],
        vec![Function::new("f".to_string(), tree("t*2"), vec!["t".to_string()])],
    );
    let expressions = vec![tree("a*x+f(y)-3"), tree("y-x")];
    assert_eq!(infer_unknowns(&expressions, &context), vec!["x".to_string(), "y".to_string()]);

    let machine = RootFinder::new(expressions, context, vec![]).unwrap();
    let (_, question) = machine.step(evaluated(8.21785));
    let probed = match question {
        Some(Question::Evaluate(e)) => e.context.vars,
        _ => vec![],
    };
    assert_eq!(
        probed,
        vec![
            Variable::new("a".to_string(), vec![scalar(2.)]),
            Variable::new("x".to_string(), vec![scalar(8.21785)]),
            Variable::new("y".to_string(), vec![scalar(8.21785)]),
        ]
    );

    // Three free names in two expressions are too many.
    assert_eq!(
        RootFinder::new(vec![tree("x+y+z"), tree("x-y")], Context::empty(), vec![]).err(),
        Some(EvalError::UnderdeterminedSystem)
    );
}

#[test]
fn equations_become_differences() {
    let machine = solve(
        vec![(tree("x^2"), tree("9")), (tree("y"), tree("2*x"))],
        &Context::empty(),
        vec!["x".to_string(), "y".to_string()],
    )
    .unwrap();
    let (machine, question) = machine.step(evaluated(8.21785));
    let context = bound(&[("x", vec![scalar(8.21785)]), ("y", vec![scalar(8.21785)])]);
    assert_eq!(
        question,
        asked(binary(SimpleOpType::Sub, tree("x^2"), tree("9")), context.clone())
    );
    let (_, question) = machine.step(evaluated(1.));
    assert_eq!(question, asked(binary(SimpleOpType::Sub, tree("y"), tree("2*x")), context));

    assert_eq!(
        solve(vec![], &Context::empty(), vec!["x".to_string()]).err(),
        Some(EvalError::NothingToDoEq)
    );
    assert_eq!(
        solve(
            vec![(tree("x"), tree("1"))],
            &bound(&[("x", vec![scalar(1.)])]),
            vec!["x".to_string()]
        )
        .err(),
        Some(EvalError::SearchVarsInVars)
    );
}

#[test]
fn quick_evaluations_start_with_the_parsed_tree() {
    let machine = math_utils_lib::quick_eval(" 3 * x ", &Context::empty()).ok().unwrap();
    let direct = math_utils_lib::eval(&tree("3*x"), &Context::empty());
    assert_eq!(machine.request(), direct.request());
    let (machine, _) = machine.step(None);
    let (direct, _) = direct.step(None);
    let (machine, request) = machine.step(None);
    let (_, wanted) = direct.step(None);
    assert_eq!(request, wanted);
    assert!(request.is_some());
    assert!(machine.outcome().is_none());
    assert_eq!(
        math_utils_lib::quick_eval("(3", &Context::empty()).err(),
        Some(QuickEvalError::ParserError(ParserError::UnmatchedOpenDelimiter))
    );
    assert_eq!(
        math_utils_lib::quick_eval("", &Context::default()).err(),
        Some(QuickEvalError::ParserError(ParserError::EmptyExpr))
    );
}

#[test]
fn zero_within_the_tolerance() {
    for (number, near) in [
        (0., true),
        (-0., true),
        (9.9e-9, true),
        (-9.9e-9, true),
        (1e-8, false),
        (-1e-8, false),
        (1.1e-8, false),
        (1., false),
        (-1., false),
        (f64::INFINITY, false),
        (f64::NEG_INFINITY, false),
        (f64::NAN, false),
        (5e-324, true),
    ] {
        assert_eq!(is_within_tolerance(number.to_bits()), near, "{}", number);
        assert_eq!(-1e-8 < number && number < 1e-8, near, "{}", number);
    }
    assert_eq!(TOLERANCE_BITS, 10f64.powi(-(PREC as i32)).to_bits());
    assert_eq!(ROOT_DIGITS, 6);
}

#[test]
fn zeros_of_both_signs() {
    assert!(is_zero_number(0f64.to_bits()));
    assert!(is_zero_number((-0f64).to_bits()));
    assert!(!is_zero_number(5e-324f64.to_bits()));
    assert!(!is_zero_number(f64::NAN.to_bits()));
    assert!(!is_zero_number(1f64.to_bits()));
}

fn numbers(xs: &[f64]) -> Vec<u64> {
    xs.iter().map(|x| x.to_bits()).collect()
}

fn given(x: f64) -> Option<Result<Vec<Value>, EvalError>> {
    Some(Ok(vec![scalar(x)]))
}

fn ratio(a: f64, b: f64) -> Option<Evaluate> {
    ask(
        binary(SimpleOpType::Div, var("a"), var("b")),
        bound(&[("a", vec![scalar(a)]), ("b", vec![scalar(b)])]),
    )
}

fn reduction(c: f64, a: f64, b: f64) -> Option<Evaluate> {
    ask(
        binary(SimpleOpType::Sub, var("c"), binary(SimpleOpType::Div, var("a"), var("b"))),
        bound(&[("c", vec![scalar(c)]), ("a", vec![scalar(a)]), ("b", vec![scalar(b)])]),
    )
}

fn negation(f: f64) -> Option<Evaluate> {
    ask(binary(SimpleOpType::Neg, numeral("0"), var("f")), bound(&[("f", vec![scalar(f)])]))
}

fn sum(a: f64, b: f64) -> Option<Evaluate> {
    ask(
        binary(SimpleOpType::Add, var("a"), var("b")),
        bound(&[("a", vec![scalar(a)]), ("b", vec![scalar(b)])]),
    )
}

#[test]
fn elimination_with_one_unknown() {
    let machine = Elimination::new(vec![numbers(&[4.])], numbers(&[-2.]), numbers(&[1.]));
    assert_eq!(machine.request(), None);
    assert_eq!(machine.outcome(), None);
    let (machine, request) = machine.step(None);
    assert_eq!(request, negation(-2.));
    assert_eq!(machine.request(), request);
    // Without a reply the machine waits.
    let (machine, request) = machine.step(None);
    assert_eq!(request, negation(-2.));
    // The right side by the pivot.
    let (machine, request) = machine.step(given(2.));
    assert_eq!(request, ratio(2., 4.));
    // The step is added to the point.
    let (machine, request) = machine.step(given(0.5));
    assert_eq!(request, sum(0.5, 1.));
    let (machine, request) = machine.step(given(1.5));
    assert_eq!(request, None);
    assert_eq!(machine.outcome(), Some(Ok(numbers(&[1.5]))));
    // A machine that is done stays as it is.
    let (machine, request) = machine.step(given(7.));
    assert_eq!(request, None);
    assert_eq!(machine.outcome(), Some(Ok(numbers(&[1.5]))));
}

#[test]
fn elimination_with_two_unknowns() {
    // 2x + y = 5 and x + 3y = 10.
    let machine = Elimination::new(
        vec![numbers(&[2., 1.]), numbers(&[1., 3.])],
        numbers(&[-5., -10.]),
        numbers(&[10., 20.]),
    );
    let (machine, request) = machine.step(None);
    assert_eq!(request, negation(-5.));
    let (machine, request) = machine.step(given(5.));
    assert_eq!(request, negation(-10.));
    // The first pass: the second row loses its first number.
    let (machine, request) = machine.step(given(10.));
    assert_eq!(request, ratio(2., 1.));
    let (machine, request) = machine.step(given(2.));
    assert_eq!(request, reduction(1., 2., 2.));
    let (machine, request) = machine.step(given(0.));
    assert_eq!(request, reduction(3., 1., 2.));
    let (machine, request) = machine.step(given(2.5));
    assert_eq!(request, reduction(10., 5., 2.));
    // The system is turned round: the rows are now (2.5, 0 | 7.5) and
    // (1, 2 | 5). The second pass.
    let (machine, request) = machine.step(given(7.5));
    assert_eq!(request, ratio(2.5, 1.));
    let (machine, request) = machine.step(given(2.5));
    assert_eq!(request, reduction(1., 2.5, 2.5));
    let (machine, request) = machine.step(given(0.));
    assert_eq!(request, reduction(2., 0., 2.5));
    let (machine, request) = machine.step(given(2.));
    assert_eq!(request, reduction(5., 7.5, 2.5));
    // The rows are (2.5, 0 | 7.5) and (0, 2 | 2): the unknowns are read off,
    // the last one first.
    let (machine, request) = machine.step(given(2.));
    assert_eq!(request, ratio(7.5, 2.5));
    let (machine, request) = machine.step(given(3.));
    assert_eq!(request, ratio(2., 2.));
    // The step (1, 3) is added to the point.
    let (machine, request) = machine.step(given(1.));
    assert_eq!(request, sum(1., 10.));
    let (machine, request) = machine.step(given(11.));
    assert_eq!(request, sum(3., 20.));
    let (machine, request) = machine.step(given(23.));
    assert_eq!(request, None);
    assert_eq!(machine.outcome(), Some(Ok(numbers(&[11., 23.]))));
}

#[test]
fn elimination_meets_a_row_of_zeros() {
    let start = || {
        let machine = Elimination::new(
            vec![numbers(&[1., 2.]), numbers(&[2., 4.])],
            numbers(&[-3., -6.]),
            numbers(&[0., 0.]),
        );
        let (machine, _) = machine.step(None);
        let (machine, _) = machine.step(given(3.));
        let (machine, _) = machine.step(given(6.));
        let (machine, _) = machine.step(given(0.5));
        machine
    };
    // Zeros of both signs are zeros.
    let (machine, _) = start().step(given(0.));
    let (machine, _) = machine.step(given(-0.));
    let (machine, request) = machine.step(given(0.));
    assert_eq!(request, None);
    assert_eq!(machine.outcome(), Some(Err(EvalError::InfiniteSolutions)));
    // One number that is not zero, and the row is no row of zeros.
    let (machine, _) = start().step(given(0.));
    let (machine, _) = machine.step(given(1e-300));
    let (machine, request) = machine.step(given(0.));
    assert_eq!(machine.outcome(), None);
    assert_eq!(request, ratio(1e-300, 2.));
    // What is no number is not zero.
    let (machine, _) = start().step(given(0.));
    let (machine, _) = machine.step(given(0.));
    let (machine, _) = machine.step(given(f64::NAN));
    assert_eq!(machine.outcome(), None);
}

#[test]
fn elimination_needs_a_row_for_every_unknown() {
    let machine = Elimination::new(vec![], vec![], vec![]);
    let (machine, request) = machine.step(None);
    assert_eq!(request, None);
    assert_eq!(machine.outcome(), Some(Err(EvalError::UnderdeterminedSystem)));

    let machine = Elimination::new(vec![numbers(&[1., 2.])], numbers(&[3.]), numbers(&[0., 0.]));
    let (machine, request) = machine.step(None);
    assert_eq!(request, negation(3.));
    let (machine, request) = machine.step(given(-3.));
    assert_eq!(request, None);
    assert_eq!(machine.outcome(), Some(Err(EvalError::UnderdeterminedSystem)));

    // A residual that is too short is filled up with zeros.
    let machine =
        Elimination::new(vec![numbers(&[1., 2.]), numbers(&[3., 4.])], vec![], numbers(&[0., 0.]));
    let (machine, request) = machine.step(None);
    assert_eq!(request, negation(0.));
    let (_, request) = machine.step(given(-0.));
    assert_eq!(request, negation(0.));
}

#[test]
fn elimination_ends_with_what_is_no_number() {
    let start = || {
        let machine = Elimination::new(vec![numbers(&[4.])], numbers(&[-2.]), numbers(&[1.]));
        machine.step(None).0
    };
    let (machine, request) = start().step(Some(Err(EvalError::NoVariable("f".to_string()))));
    assert_eq!(request, None);
    assert_eq!(machine.outcome(), Some(Err(EvalError::NoVariable("f".to_string()))));
    let (machine, _) = start().step(Some(Ok(vec![])));
    assert_eq!(machine.outcome(), Some(Err(EvalError::NothingToDoEq)));
    let (machine, _) = start().step(Some(Ok(vec![Value::Vector(numbers(&[1.]))])));
    assert_eq!(machine.outcome(), Some(Err(EvalError::VectorInEq)));
    let (machine, _) = start().step(Some(Ok(vec![Value::Matrix(vec![numbers(&[1.])])])));
    assert_eq!(machine.outcome(), Some(Err(EvalError::MatrixInEq)));
    // Of several values the first one counts.
    let (_, request) = start().step(Some(Ok(vec![scalar(2.), scalar(9.)])));
    assert_eq!(request, ratio(2., 4.));
}
