use math_utils_lib::basetypes::{AdvancedOperation, Operation, SimpleOpType, AST};
use math_utils_lib::errors::ParserError;
use math_utils_lib::lexer::is_valid_var_name;
use math_utils_lib::parser::parse;

fn num(text: &str) -> AST {
    AST::Scalar(text.to_string())
}

fn var(name: &str) -> AST {
    AST::Variable(name.to_string())
}

fn op(op_type: SimpleOpType, left: AST, right: AST) -> AST {
    AST::Operation(Box::new(Operation::SimpleOperation { op_type, left, right }))
}

fn unary(op_type: SimpleOpType, operand: AST) -> AST {
    op(op_type, operand, num("0"))
}

#[test]
fn product_of_two_numerals() {
    assert_eq!(parse("3*3"), Ok(op(SimpleOpType::Mult, num("3"), num("3"))));
}

#[test]
fn subtraction_groups_from_the_left() {
    assert_eq!(
        parse("3-4-5"),
        Ok(op(SimpleOpType::Sub, op(SimpleOpType::Sub, num("3"), num("4")), num("5")))
    );
}

#[test]
fn multiplication_groups_from_the_left() {
    assert_eq!(
        parse("2*3*4"),
        Ok(op(SimpleOpType::Mult, op(SimpleOpType::Mult, num("2"), num("3")), num("4")))
    );
}

#[test]
fn power_groups_from_the_right() {
    assert_eq!(
        parse("3^2^4"),
        Ok(op(SimpleOpType::Pow, num("3"), op(SimpleOpType::Pow, num("2"), num("4"))))
    );
}

#[test]
fn addition_splits_before_subtraction() {
    assert_eq!(
        parse("1-2+3"),
        Ok(op(SimpleOpType::Add, op(SimpleOpType::Sub, num("1"), num("2")), num("3")))
    );
}

#[test]
fn white_space_counts_for_nothing() {
    assert_eq!(parse(" 3 *\t3\n"), parse("3*3"));
    assert_eq!(parse("   "), Err(ParserError::EmptyExpr));
}

#[test]
fn leading_minus_negates() {
    assert_eq!(parse("-1"), Ok(op(SimpleOpType::Neg, num("0"), num("1"))));
}

#[test]
fn leading_plus_minus_keeps_placeholder() {
    assert_eq!(
        parse("&sqrt(9)"),
        Ok(op(SimpleOpType::AddSub, num("0"), unary(SimpleOpType::Sqrt, num("9"))))
    );
}

#[test]
fn redundant_parentheses_are_kept() {
    assert_eq!(
        parse("((3*3))"),
        Ok(unary(
            SimpleOpType::Parenths,
            unary(SimpleOpType::Parenths, op(SimpleOpType::Mult, num("3"), num("3")))
        ))
    );
}

#[test]
fn hidden_multiplication_before_a_name() {
    assert_eq!(parse("3x"), Ok(op(SimpleOpType::HiddenMult, num("3"), var("x"))));
}

#[test]
fn hidden_multiplication_before_a_bracket() {
    assert_eq!(
        parse("3(6+2)"),
        Ok(op(
            SimpleOpType::HiddenMult,
            num("3"),
            unary(SimpleOpType::Parenths, op(SimpleOpType::Add, num("6"), num("2")))
        ))
    );
    assert_eq!(
        parse("3[4,5]"),
        Ok(op(
            SimpleOpType::HiddenMult,
            num("3"),
            AST::Vector(Box::new(vec![num("4"), num("5")]))
        ))
    );
}

#[test]
fn hidden_multiplication_between_brackets() {
    assert_eq!(
        parse("(1)(2)"),
        Ok(op(
            SimpleOpType::HiddenMult,
            unary(SimpleOpType::Parenths, num("1")),
            unary(SimpleOpType::Parenths, num("2"))
        ))
    );
}

#[test]
fn polynomial_with_hidden_multiplications() {
    let square = op(SimpleOpType::Pow, var("x"), num("2"));
    let first = op(SimpleOpType::HiddenMult, num("5"), square);
    let second = op(SimpleOpType::HiddenMult, num("2"), var("x"));
    assert_eq!(
        parse("5x^2+2x+x"),
        Ok(op(SimpleOpType::Add, first, op(SimpleOpType::Add, second, var("x"))))
    );
}

#[test]
fn subscript_with_operators_is_one_name() {
    assert_eq!(
        parse("A_{3*6}*3"),
        Ok(op(SimpleOpType::Mult, var("A_{3*6}"), num("3")))
    );
}

#[test]
fn built_in_function_call() {
    assert_eq!(parse("sin(x)"), Ok(unary(SimpleOpType::Sin, var("x"))));
    assert_eq!(parse("arctan(1)"), Ok(unary(SimpleOpType::Arctan, num("1"))));
    assert_eq!(parse("det(A)"), Ok(unary(SimpleOpType::Det, var("A"))));
}

#[test]
fn root_takes_two_arguments() {
    assert_eq!(parse("root(8, 3)"), Ok(op(SimpleOpType::Root, num("8"), num("3"))));
    assert_eq!(
        parse("root(8)"),
        Err(ParserError::WrongNumberOfArgs("root".to_string()))
    );
    assert_eq!(
        parse("root(8,3,1)"),
        Err(ParserError::WrongNumberOfArgs("root".to_string()))
    );
}

#[test]
fn integral_and_derivative() {
    assert_eq!(
        parse("I(x^2, x, 0, 5)"),
        Ok(AST::Operation(Box::new(Operation::AdvancedOperation(
            AdvancedOperation::Integral {
                expr: op(SimpleOpType::Pow, var("x"), num("2")),
                in_terms_of: "x".to_string(),
                lower_bound: num("0"),
                upper_bound: num("5"),
            }
        ))))
    );
    assert_eq!(
        parse("D(x^2, x, 3)"),
        Ok(AST::Operation(Box::new(Operation::AdvancedOperation(
            AdvancedOperation::Derivative {
                expr: op(SimpleOpType::Pow, var("x"), num("2")),
                in_terms_of: "x".to_string(),
                at: num("3"),
            }
        ))))
    );
    assert_eq!(
        parse("I(x, x, 0)"),
        Err(ParserError::WrongNumberOfArgs("integral".to_string()))
    );
    assert_eq!(
        parse("D(x, x)"),
        Err(ParserError::WrongNumberOfArgs("derivative".to_string()))
    );
}

#[test]
fn system_of_equations() {
    assert_eq!(
        parse("eq(x^2=9, x)"),
        Ok(AST::Operation(Box::new(Operation::AdvancedOperation(
            AdvancedOperation::Equation {
                equations: vec![(op(SimpleOpType::Pow, var("x"), num("2")), num("9"))],
                search_vars: vec!["x".to_string()],
            }
        ))))
    );
}

#[test]
fn longer_side_of_an_equation_comes_first() {
    assert_eq!(
        parse("eq(y=4x+7, x, y)"),
        Ok(AST::Operation(Box::new(Operation::AdvancedOperation(
            AdvancedOperation::Equation {
                equations: vec![(
                    op(
                        SimpleOpType::Add,
                        op(SimpleOpType::HiddenMult, num("4"), var("x")),
                        num("7")
                    ),
                    var("y")
                )],
                search_vars: vec!["x".to_string(), "y".to_string()],
            }
        ))))
    );
}

#[test]
fn call_of_a_user_function() {
    assert_eq!(
        parse("f(5, x)"),
        Ok(AST::Function {
            name: "f".to_string(),
            inputs: Box::new(vec![num("5"), var("x")])
        })
    );
    assert_eq!(
        parse("f(f(6))"),
        Ok(AST::Function {
            name: "f".to_string(),
            inputs: Box::new(vec![AST::Function {
                name: "f".to_string(),
                inputs: Box::new(vec![num("6")])
            }])
        })
    );
}

#[test]
fn invalid_names() {
    assert_eq!(
        parse("x1"),
        Err(ParserError::InvalidVariableName("x1".to_string()))
    );
    assert_eq!(
        parse("f1(2)"),
        Err(ParserError::InvalidVariableName("f1".to_string()))
    );
    assert_eq!(
        parse("f=(2)"),
        Err(ParserError::InvalidFunctionName("f=".to_string()))
    );
    assert_eq!(
        parse("f=()"),
        Err(ParserError::EmptyExpr)
    );
}

#[test]
fn list_of_alternatives() {
    assert_eq!(parse("{3, 2}"), Ok(AST::List(vec![num("3"), num("2")])));
}

#[test]
fn vector_literal() {
    assert_eq!(
        parse("[3, 3/4, 6]"),
        Ok(AST::Vector(Box::new(vec![
            num("3"),
            op(SimpleOpType::Div, num("3"), num("4")),
            num("6")
        ])))
    );
}

#[test]
fn matrix_literal_is_stored_by_columns() {
    assert_eq!(
        parse("[[3, 4, 5], [1, 2, 3]]"),
        Ok(AST::Matrix(Box::new(vec![
            vec![num("3"), num("1")],
            vec![num("4"), num("2")],
            vec![num("5"), num("3")]
        ])))
    );
}

#[test]
fn ragged_matrix_is_not_rectangular() {
    assert_eq!(parse("[[3, 0, 5], [2, 4], [1, 2]]"), Err(ParserError::NotRectMatrix));
    assert_eq!(parse("[[3, 0, 5], 2]"), Err(ParserError::NotRectMatrix));
}

#[test]
fn empty_vector_slot() {
    assert_eq!(parse("[[], [], []]"), Err(ParserError::EmptyVec));
    assert_eq!(parse("[]"), Err(ParserError::EmptyVec));
}

#[test]
fn empty_expression() {
    assert_eq!(parse(""), Err(ParserError::EmptyExpr));
    assert_eq!(parse("[[3, 0,], [2, 4, 5], [1, 2]]"), Err(ParserError::EmptyExpr));
    assert_eq!(parse("[[3, 0, 5], [2, 4], [1, 2,]]"), Err(ParserError::EmptyExpr));
    assert_eq!(parse("f()"), Err(ParserError::EmptyExpr));
}

#[test]
fn unmatched_delimiters() {
    assert_eq!(parse("(3+4"), Err(ParserError::UnmatchedOpenDelimiter));
    assert_eq!(parse("3+4)"), Err(ParserError::UnmatchedCloseDelimiter));
}

#[test]
fn missing_bracket() {
    assert_eq!(parse("[3, 4"), Err(ParserError::MissingBracket));
}

#[test]
fn values_that_are_no_numerals() {
    assert_eq!(parse("5+"), Err(ParserError::ParseValue("5+".to_string())));
    assert_eq!(parse("1.2.3"), Err(ParserError::ParseValue("1.2.3".to_string())));
    assert_eq!(parse("."), Err(ParserError::ParseValue(".".to_string())));
    assert_eq!(parse("["), Err(ParserError::ParseValue("[".to_string())));
    assert_eq!(
        parse("[[[1,2],[3,4]],[5,6]]"),
        Err(ParserError::ParseValue("[[[1,2],[3,4]],[5,6]]".to_string()))
    );
}

#[test]
fn numerals() {
    assert_eq!(parse("0.5"), Ok(num("0.5")));
    assert_eq!(parse("5."), Ok(num("5.")));
    assert_eq!(parse(".5"), Ok(num(".5")));
    assert_eq!(parse("1.e5"), Ok(num("1.e5")));
    assert_eq!(parse("1.E5"), Ok(num("1.E5")));
}

#[test]
fn every_numeral_is_read_by_the_standard_library() {
    for text in ["0", "3", "0.5", "5.", ".5", "1.e5", "1.E5", "12.25", "007"] {
        assert_eq!(parse(text), Ok(num(text)));
        assert!(text.parse::<f64>().is_ok());
    }
    for text in [".", "1.2.3", "1.e", "5+", "1.e5.", "0x10", "1_0"] {
        assert!(parse(text).is_err());
        assert!(text.parse::<f64>().is_err());
    }
}

#[test]
fn names() {
    assert!(is_valid_var_name("x".to_string()));
    assert!(is_valid_var_name("\\alpha".to_string()));
    assert!(is_valid_var_name("A_{3*6}".to_string()));
    assert!(is_valid_var_name("x_1".to_string()));
    assert!(!is_valid_var_name("x1".to_string()));
    assert!(!is_valid_var_name("1x".to_string()));
    assert!(!is_valid_var_name("a+b".to_string()));
    assert!(!is_valid_var_name("a=b".to_string()));
    assert!(!is_valid_var_name("".to_string()));
}

#[test]
fn reasons() {
    assert_eq!(
        ParserError::ParseValue("5+".to_string()).get_reason(),
        "Could not parse value 5+!"
    );
    assert_eq!(
        ParserError::WrongNumberOfArgs("root".to_string()).get_reason(),
        "Wrong number of arguments for root operation!"
    );
    assert_eq!(
        ParserError::NotRectMatrix.get_reason(),
        "Could not parse matrix because it is not rectangular!"
    );
}
