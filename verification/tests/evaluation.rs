use math_utils_lib::basetypes::{
    Context, Function, Operation, SimpleOpType, Value, Values, Variable, AST,
};
use math_utils_lib::calculus::{calculate_derivative, calculate_derivative_newton};
use math_utils_lib::elimination::Elimination;
use math_utils_lib::errors::{EvalError, ParserError, QuickEvalError};
use math_utils_lib::evaluator::{Evaluation, Reply, Request};
use math_utils_lib::integral::calculate_integral;
use math_utils_lib::parser::parse;
use math_utils_lib::roots::{Answer, Question, RootFinder};

// A host for the evaluator: the numeric primitives in binary64.

fn bits(x: f64) -> u64 {
    x.to_bits()
}

fn num(b: u64) -> f64 {
    f64::from_bits(b)
}

fn scalar(x: f64) -> Value {
    Value::Scalar(bits(x))
}

fn vector(xs: &[f64]) -> Value {
    Value::Vector(xs.iter().map(|x| bits(*x)).collect())
}

fn matrix(rows: &[&[f64]]) -> Value {
    Value::Matrix(rows.iter().map(|r| r.iter().map(|x| bits(*x)).collect()).collect())
}

fn floats(v: &[u64]) -> Vec<f64> {
    v.iter().map(|b| num(*b)).collect()
}

fn table(m: &[Vec<u64>]) -> Vec<Vec<f64>> {
    m.iter().map(|r| floats(r)).collect()
}

fn from_floats(v: Vec<f64>) -> Value {
    Value::Vector(v.into_iter().map(bits).collect())
}

fn from_table(m: Vec<Vec<f64>>) -> Value {
    Value::Matrix(m.into_iter().map(|r| r.into_iter().map(bits).collect()).collect())
}

fn det(a: &[Vec<f64>]) -> Result<f64, String> {
    if a.is_empty() || a.iter().any(|r| r.len() != a[0].len()) || a.len() != a[0].len() {
        return Err("Can't calculate determinant of a non-square matrix!".to_string());
    }
    if a.len() == 1 {
        return Ok(a[0][0]);
    }
    if a.len() == 2 {
        return Ok(a[0][0] * a[1][1] - a[0][1] * a[1][0]);
    }
    let mut sum = 0.0;
    for i in 0..a[0].len() {
        let minor: Vec<Vec<f64>> = a[1..]
            .iter()
            .map(|r| r[0..i].iter().cloned().chain(r[i + 1..].iter().cloned()).collect())
            .collect();
        sum += (-1f64).powi(i as i32) * a[0][i] * det(&minor)?;
    }
    Ok(sum)
}

fn reduce(v: &mut Vec<Vec<f64>>) -> Result<(), String> {
    for i in 0..v.len() - 1 {
        for j in (i + 1)..v.len() {
            let divisor = v[i][i] / v[j][i];
            let mut zero_line = true;
            for k in i..v[j].len() {
                v[j][k] -= v[i][k] / divisor;
                if v[j][k] != 0. {
                    zero_line = false;
                }
            }
            if zero_line {
                return Err("Infinite solutions".to_string());
            }
        }
    }
    Ok(())
}

fn inv(a: &[Vec<f64>]) -> Result<Vec<Vec<f64>>, String> {
    match det(a) {
        Err(_) => return Err("Can't calculate inverse of a non-square matrix!".to_string()),
        Ok(d) if d == 0. => {
            return Err("Can't calculate inverse of a matrix with determinant 0!".to_string())
        }
        _ => {}
    }
    let n = a.len();
    let mut v: Vec<Vec<f64>> = a.to_vec();
    for i in 0..n {
        for j in 0..n {
            v[i].push(if j == i { 1. } else { 0. });
        }
    }
    reduce(&mut v)?;
    v.reverse();
    v.iter_mut().for_each(|x| x.reverse());
    for row in v.iter_mut() {
        for _ in 0..n {
            let value = row.remove(0);
            row.push(value);
        }
    }
    reduce(&mut v)?;
    let mut result: Vec<Vec<f64>> = vec![];
    for i in 0..v.len() {
        let mut row = vec![];
        let mult = 1. / v[i][i];
        for j in v[i].len() - n..v[i].len() {
            row.insert(0, v[i][j] * mult);
        }
        result.insert(0, row);
    }
    Ok(result)
}

fn mat_mul(a: &[Vec<f64>], b: &[Vec<f64>]) -> Result<Vec<Vec<f64>>, String> {
    if a[0].len() != b.len() {
        return Err("Matrices have incompatible dimensions".to_string());
    }
    let mut out = vec![];
    for i in 0..a.len() {
        let mut row = vec![];
        for j in 0..b[0].len() {
            let mut sum = 0f64;
            for k in 0..a[0].len() {
                sum += a[i][k] * b[k][j];
            }
            row.push(sum);
        }
        out.push(row);
    }
    Ok(out)
}

fn add(l: &Value, r: &Value) -> Result<Value, String> {
    match (l, r) {
        (Value::Scalar(a), Value::Scalar(b)) => Ok(scalar(num(*a) + num(*b))),
        (Value::Vector(a), Value::Vector(b)) => {
            if a.len() != b.len() {
                return Err("Vectors have different dimensions!".to_string());
            }
            Ok(from_floats(a.iter().zip(b).map(|(x, y)| num(*x) + num(*y)).collect()))
        }
        (Value::Matrix(a), Value::Matrix(b)) => {
            if a.len() != b.len() || a[0].len() != b[0].len() {
                return Err("Matrices have different dimensions!".to_string());
            }
            Ok(from_table(
                a.iter()
                    .zip(b)
                    .map(|(x, y)| x.iter().zip(y).map(|(p, q)| num(*p) + num(*q)).collect())
                    .collect(),
            ))
        }
        (Value::Vector(_), Value::Scalar(_)) => Err("Can't add scalar to vector!".to_string()),
        (Value::Scalar(_), Value::Vector(_)) => Err("Can't add vector to scalar!".to_string()),
        (Value::Matrix(_), Value::Scalar(_)) => Err("Can't add scalar to matrix!".to_string()),
        (Value::Scalar(_), Value::Matrix(_)) => Err("Can't add matrix to scalar!".to_string()),
        (Value::Vector(_), Value::Matrix(_)) => Err("Can't add matrix to vector!".to_string()),
        (Value::Matrix(_), Value::Vector(_)) => Err("Can't add vector to matrix!".to_string()),
    }
}

fn neg(v: &Value) -> Value {
    match v {
        Value::Scalar(a) => scalar(-1. * num(*a)),
        Value::Vector(a) => from_floats(a.iter().map(|x| -1. * num(*x)).collect()),
        Value::Matrix(a) => {
            from_table(a.iter().map(|r| r.iter().map(|x| -1. * num(*x)).collect()).collect())
        }
    }
}

fn sub(l: &Value, r: &Value) -> Result<Value, String> {
    match (l, r) {
        (Value::Scalar(_), Value::Scalar(_))
        | (Value::Vector(_), Value::Vector(_))
        | (Value::Matrix(_), Value::Matrix(_)) => add(l, &neg(r)),
        (Value::Vector(_), Value::Scalar(_)) => {
            Err("Can't subtract scalar from vector!".to_string())
        }
        (Value::Scalar(_), Value::Vector(_)) => {
            Err("Can't subtract vector from scalar!".to_string())
        }
        (Value::Matrix(_), Value::Scalar(_)) => {
            Err("Can't subtract scalar from matrix!".to_string())
        }
        (Value::Scalar(_), Value::Matrix(_)) => {
            Err("Can't subtract matrix from scalar!".to_string())
        }
        (Value::Vector(_), Value::Matrix(_)) => {
            Err("Can't subtract matrix from vector!".to_string())
        }
        (Value::Matrix(_), Value::Vector(_)) => {
            Err("Can't subtract vector from matrix!".to_string())
        }
    }
}

fn scale(a: f64, v: &[u64]) -> Value {
    from_floats(v.iter().map(|x| num(*x) * a).collect())
}

fn scale_table(a: f64, m: &[Vec<u64>]) -> Value {
    from_table(m.iter().map(|r| r.iter().map(|x| num(*x) * a).collect()).collect())
}

fn mult(l: &Value, r: &Value) -> Result<Value, String> {
    match (l, r) {
        (Value::Scalar(a), Value::Scalar(b)) => Ok(scalar(num(*a) * num(*b))),
        (Value::Vector(a), Value::Scalar(b)) => Ok(scale(num(*b), a)),
        (Value::Scalar(a), Value::Vector(b)) => Ok(scale(num(*a), b)),
        (Value::Scalar(a), Value::Matrix(b)) => Ok(scale_table(num(*a), b)),
        (Value::Matrix(a), Value::Scalar(b)) => Ok(scale_table(num(*b), a)),
        (Value::Matrix(a), Value::Matrix(b)) => Ok(from_table(mat_mul(&table(a), &table(b))?)),
        (Value::Vector(a), Value::Vector(b)) => {
            if a.len() != b.len() {
                return Err("Vectors have different dimensions!".to_string());
            }
            let mut sum = 0f64;
            for i in 0..a.len() {
                sum += num(a[i]) * num(b[i]);
            }
            Ok(scalar(sum))
        }
        (Value::Matrix(a), Value::Vector(b)) => {
            if a[0].len() != b.len() {
                return Err("Vector and matrix have incompatible dimensions!".to_string());
            }
            let mut out = vec![];
            for i in 0..a.len() {
                let mut sum = 0f64;
                for j in 0..a[i].len() {
                    sum += num(a[i][j]) * num(b[j]);
                }
                out.push(sum);
            }
            Ok(from_floats(out))
        }
        (Value::Vector(_), Value::Matrix(_)) => {
            Err("Vector has to be on the right side of linear transformation!".to_string())
        }
    }
}

fn div(l: &Value, r: &Value) -> Result<Value, String> {
    match (l, r) {
        (Value::Scalar(a), Value::Scalar(b)) => Ok(scalar(num(*a) / num(*b))),
        (Value::Vector(a), Value::Scalar(b)) => Ok(scale(1f64 / num(*b), a)),
        (Value::Matrix(a), Value::Scalar(b)) => Ok(scale_table(1f64 / num(*b), a)),
        (Value::Vector(_), Value::Vector(_)) => Err("Can't divide vector by vector!".to_string()),
        (Value::Scalar(_), Value::Vector(_)) => Err("Can't divide scalar by vector!".to_string()),
        (Value::Scalar(_), Value::Matrix(_)) => Err("Can't divide scalar by matrix!".to_string()),
        (Value::Matrix(_), Value::Vector(_)) => Err("Can't divide matrix by vector!".to_string()),
        (Value::Vector(_), Value::Matrix(_)) => Err("Can't divide vector by matrix!".to_string()),
        (Value::Matrix(_), Value::Matrix(_)) => Err("Can't divide matrix by matrix!".to_string()),
    }
}

fn cross(l: &Value, r: &Value) -> Result<Value, String> {
    match (l, r) {
        (Value::Vector(a), Value::Vector(b)) => {
            if a.len() != b.len() {
                return Err("Vectors have different dimensions!".to_string());
            }
            if a.len() > 3 {
                return Err("Can't compute cross product with dim(V) > 3!".to_string());
            }
            let mut x = floats(a);
            let mut y = floats(b);
            x.resize(3, 0.);
            y.resize(3, 0.);
            Ok(from_floats(vec![
                x[1] * y[2] - x[2] * y[1],
                x[2] * y[0] - x[0] * y[2],
                x[0] * y[1] - x[1] * y[0],
            ]))
        }
        _ => Err("Cross product can only be computed between two vectors!".to_string()),
    }
}

fn get(l: &Value, r: &Value) -> Result<Value, String> {
    match (l, r) {
        (Value::Vector(a), Value::Scalar(b)) => {
            let index = num(*b);
            if index % 1. != 0. || index.is_sign_negative() {
                return Err("Index must be a positive Integer!".to_string());
            }
            if a.is_empty() || index as usize > a.len() - 1 {
                return Err("Index out of bounds for vector!".to_string());
            }
            Ok(Value::Scalar(a[index as usize]))
        }
        _ => Err("Can only index vector with scalar!".to_string()),
    }
}

fn pow(l: &Value, r: &Value) -> Result<Value, String> {
    match (l, r) {
        (Value::Scalar(a), Value::Scalar(b)) => Ok(scalar(num(*a).powf(num(*b)))),
        (Value::Matrix(a), Value::Scalar(b)) => {
            let exponent = num(*b);
            if exponent.round() != exponent {
                return Err("Exponent must be an integer!".to_string());
            }
            let base = table(a);
            let mut product: Vec<Vec<f64>> = (0..base.len())
                .map(|i| (0..base[0].len()).map(|j| if i == j { 1. } else { 0. }).collect())
                .collect();
            for _ in 0..(exponent as i32) {
                product = mat_mul(&product, &base)?;
            }
            Ok(from_table(product))
        }
        _ => Err("Can only raise scalar to the power of scalar!".to_string()),
    }
}

fn of_scalar(v: &Value, name: &str, f: fn(f64) -> f64) -> Result<Vec<Value>, String> {
    match v {
        Value::Scalar(a) => Ok(vec![scalar(f(num(*a)))]),
        Value::Vector(_) => Err(format!("Can't take {} of vector!", name)),
        Value::Matrix(_) => Err(format!("Can't take {} of matrix!", name)),
    }
}

fn primitive(op: SimpleOpType, l: &Value, r: &Value) -> Result<Vec<Value>, String> {
    match op {
        SimpleOpType::Get => get(l, r).map(|v| vec![v]),
        SimpleOpType::Add => add(l, r).map(|v| vec![v]),
        SimpleOpType::Sub => sub(l, r).map(|v| vec![v]),
        SimpleOpType::Mult => mult(l, r).map(|v| vec![v]),
        SimpleOpType::Neg => Ok(vec![neg(r)]),
        SimpleOpType::Div => div(l, r).map(|v| vec![v]),
        SimpleOpType::Cross => cross(l, r).map(|v| vec![v]),
        SimpleOpType::Pow => pow(l, r).map(|v| vec![v]),
        SimpleOpType::Sin => of_scalar(l, "sin", f64::sin),
        SimpleOpType::Cos => of_scalar(l, "cos", f64::cos),
        SimpleOpType::Tan => of_scalar(l, "tan", f64::tan),
        SimpleOpType::Arcsin => of_scalar(l, "arcsin", f64::asin),
        SimpleOpType::Arccos => of_scalar(l, "arccos", f64::acos),
        SimpleOpType::Arctan => of_scalar(l, "arctan", f64::atan),
        SimpleOpType::Ln => of_scalar(l, "ln", f64::ln),
        SimpleOpType::Abs => match l {
            Value::Scalar(a) => Ok(vec![scalar(num(*a).abs())]),
            Value::Vector(a) => {
                let mut sum = 0.;
                for i in a {
                    sum += num(*i).powi(2);
                }
                Ok(vec![scalar(sum.sqrt())])
            }
            Value::Matrix(_) => Err("Can't take abs of matrix!".to_string()),
        },
        SimpleOpType::Sqrt => match l {
            Value::Scalar(a) => Ok(vec![scalar(num(*a).sqrt()), scalar(-1. * num(*a).sqrt())]),
            Value::Vector(_) => Err("Can't take sqrt of vector!".to_string()),
            Value::Matrix(_) => Err("Can't take sqrt of matrix!".to_string()),
        },
        SimpleOpType::Root => match (l, r) {
            (Value::Scalar(a), Value::Scalar(b)) => {
                let root = num(*a).powf(1. / num(*b));
                if num(*b) % 2. == 0. {
                    Ok(vec![scalar(root), scalar(-1. * root)])
                } else {
                    Ok(vec![scalar(root)])
                }
            }
            _ => Err("Can only take root of a scalar!".to_string()),
        },
        SimpleOpType::Det => match l {
            Value::Matrix(m) => det(&table(m)).map(|d| vec![scalar(d)]),
            _ => Err("Can only take the determinant of a matrix!".to_string()),
        },
        SimpleOpType::Inv => match l {
            Value::Matrix(m) => inv(&table(m)).map(|m| vec![from_table(m)]),
            _ => Err("Can only take the inverse of a matrix!".to_string()),
        },
        SimpleOpType::HiddenMult | SimpleOpType::AddSub | SimpleOpType::Parenths => {
            Err("Not a primitive!".to_string())
        }
    }
}

fn differentiate(
    expr: &AST,
    in_terms_of: &str,
    at: &Value,
    context: &Context,
    known: Option<Value>,
    single: bool,
) -> Result<Vec<Value>, EvalError> {
    let mut machine = if single {
        calculate_derivative_newton(expr, in_terms_of, at, known, context)
    } else {
        calculate_derivative(expr, in_terms_of, at, context)
    };
    let mut reply = None;
    loop {
        if let Some(outcome) = machine.outcome() {
            return outcome;
        }
        let (next, request) = machine.step(reply.take());
        machine = next;
        if let Some(request) = request {
            reply = Some(eval(&request.ast, &request.context).map(|v| v.to_vec()));
        }
    }
}

fn integrate(
    expr: &AST,
    in_terms_of: &str,
    lower: &Value,
    upper: &Value,
    context: &Context,
) -> Result<Vec<Value>, EvalError> {
    let mut machine =
        calculate_integral(expr, in_terms_of.to_string(), lower.clone(), upper.clone(), context);
    let mut reply = None;
    loop {
        if let Some(outcome) = machine.outcome() {
            return outcome;
        }
        let (next, request) = machine.step(reply.take());
        machine = next;
        if let Some(request) = request {
            reply = Some(eval(&request.ast, &request.context).map(|v| v.to_vec()));
        }
    }
}

// The elimination in plain arithmetic, to hold the machine against.
fn gauss(v: &mut Vec<Vec<f64>>) -> Result<Vec<f64>, EvalError> {
    if v.is_empty() || v.len() + 1 != v[0].len() {
        return Err(EvalError::UnderdeterminedSystem);
    }
    reduce(v).map_err(|_| EvalError::InfiniteSolutions)?;
    v.reverse();
    v.iter_mut().for_each(|x| x.reverse());
    let aug_col = v.iter().map(|x| x[0]).collect::<Vec<f64>>();
    for i in 0..v.len() {
        v[i].remove(0);
        v[i].push(aug_col[i]);
    }
    reduce(v).map_err(|_| EvalError::InfiniteSolutions)?;
    let mut result = vec![];
    for i in 0..v.len() {
        result.push(v[i][v[i].len() - 1] / v[i][i]);
    }
    result.reverse();
    Ok(result)
}

fn improve_directly(
    slopes: &[Vec<u64>],
    residual: &[u64],
    point: &[u64],
) -> Result<Vec<u64>, EvalError> {
    let mut system = table(slopes);
    for i in 0..system.len() {
        system[i].push(-1. * num(residual[i]));
    }
    let delta = gauss(&mut system)?;
    Ok((0..point.len()).map(|i| bits(delta[i] + num(point[i]))).collect())
}

fn improve(
    slopes: Vec<Vec<u64>>,
    residual: Vec<u64>,
    point: Vec<u64>,
) -> Result<Vec<u64>, EvalError> {
    let mut machine = Elimination::new(slopes, residual, point);
    let mut reply = None;
    loop {
        if let Some(outcome) = machine.outcome() {
            return outcome;
        }
        let (next, request) = machine.step(reply.take());
        machine = next;
        if let Some(request) = request {
            reply = Some(eval(&request.ast, &request.context).map(|v| v.to_vec()));
        }
    }
}

fn solve(
    expressions: Vec<AST>,
    search_vars: Vec<String>,
    context: Context,
) -> Result<Vec<Value>, EvalError> {
    let mut machine = RootFinder::new(expressions, context, search_vars)?;
    let mut answer = None;
    loop {
        if let Some(outcome) = machine.outcome() {
            return outcome;
        }
        let (next, question) = machine.step(answer.take());
        machine = next;
        answer = match question {
            None => None,
            Some(Question::Evaluate(e)) => {
                Some(Answer::Evaluated(eval(&e.ast, &e.context).map(|v| v.to_vec())))
            }
            Some(Question::Differentiate { expr, in_terms_of, at, known, context }) => Some(
                Answer::Evaluated(differentiate(
                    &expr,
                    &in_terms_of,
                    &at,
                    &context,
                    Some(known),
                    true,
                )),
            ),
            Some(Question::Improve { slopes, residual, point }) => {
                Some(Answer::Point(improve(slopes, residual, point)))
            }
            Some(Question::Round { value, digits }) => {
                Some(Answer::Rounded(rounded(&value, digits as i32)))
            }
        };
    }
}

fn answer(request: Request) -> Reply {
    match request {
        Request::Number { text } => Reply::Number(bits(text.parse::<f64>().unwrap())),
        Request::Apply { op_type, left, right } => {
            Reply::Applied(primitive(op_type, &left, &right))
        }
        Request::Integrate { expr, in_terms_of, lower, upper, context } => {
            Reply::Evaluated(integrate(&expr, &in_terms_of, &lower, &upper, &context))
        }
        Request::Differentiate { expr, in_terms_of, at, context } => {
            Reply::Evaluated(differentiate(&expr, &in_terms_of, &at, &context, None, false))
        }
        Request::Solve { expressions, search_vars, context } => {
            Reply::Evaluated(solve(expressions, search_vars, context))
        }
    }
}

fn run(mut machine: Evaluation) -> Result<Values, EvalError> {
    let mut reply = None;
    loop {
        if let Some(outcome) = machine.outcome() {
            return outcome;
        }
        let (next, request) = machine.step(reply.take());
        machine = next;
        if let Some(request) = request {
            reply = Some(answer(request));
        }
    }
}

fn eval(ast: &AST, context: &Context) -> Result<Values, EvalError> {
    run(math_utils_lib::eval(ast, context))
}

#[derive(Debug, PartialEq)]
enum Failure {
    Parser(ParserError),
    Eval(EvalError),
}

fn quick_eval(text: &str, context: &Context) -> Result<Vec<Value>, Failure> {
    match math_utils_lib::quick_eval(text, context) {
        Ok(machine) => run(machine).map(|v| v.to_vec()).map_err(Failure::Eval),
        Err(QuickEvalError::ParserError(e)) => Err(Failure::Parser(e)),
        Err(QuickEvalError::EvalError(e)) => Err(Failure::Eval(e)),
        Err(QuickEvalError::DuplicateVars) => panic!("no variables were checked"),
    }
}

fn variable(name: &str, value: Value) -> Variable {
    Variable::new(name.to_string(), vec![value])
}

fn function(name: &str, body: &str, inputs: &[&str]) -> Function {
    Function::new(
        name.to_string(),
        parse(body).unwrap(),
        inputs.iter().map(|s| s.to_string()).collect(),
    )
}

fn rounded(v: &Value, places: i32) -> Value {
    let r = |b: &u64| bits((num(*b) * 10f64.powi(places)).round() / 10f64.powi(places));
    match v {
        Value::Scalar(a) => Value::Scalar(r(a)),
        Value::Vector(a) => Value::Vector(a.iter().map(r).collect()),
        Value::Matrix(a) => Value::Matrix(a.iter().map(|x| x.iter().map(r).collect()).collect()),
    }
}

#[test]
fn easy_eval1() {
    let res = quick_eval("3*3", &Context::empty()).unwrap();
    assert_eq!(res[0], scalar(9.));
}

#[test]
fn easy_eval2() {
    let res = quick_eval("3-4-5", &Context::empty()).unwrap();
    assert_eq!(res[0], scalar(-6.));
}

#[test]
fn easy_eval3() {
    let res = quick_eval("3^2^4", &Context::empty()).unwrap();
    assert_eq!(res[0], scalar(43_046_721.));
}

#[test]
fn easy_eval4() {
    let res = quick_eval("[[3, 4, 5], [1, 2, 3], [5, 6, 7]]", &Context::empty()).unwrap();
    assert_eq!(res[0], matrix(&[&[3., 1., 5.], &[4., 2., 6.], &[5., 3., 7.]]));
}

#[test]
fn easy_eval5() {
    let res = quick_eval("[3, 3/4, 6]", &Context::empty()).unwrap();
    assert_eq!(res[0], vector(&[3., 0.75, 6.]));
}

#[test]
fn easy_eval6() {
    let res = quick_eval("root(8, 3)", &Context::empty()).unwrap();
    assert_eq!(res[0], scalar(2.));
}

#[test]
fn easy_eval9() {
    let res = quick_eval("[{3, 5}, 0, 0]", &Context::empty()).unwrap();
    assert_eq!(res, vec![vector(&[3., 0., 0.]), vector(&[5., 0., 0.])]);
}

#[test]
fn easy_eval10() {
    let a = variable(
        "A",
        matrix(&[&[6., 1., 13., 8.], &[4., 3., 9., 10.], &[4., 0., 14., 8.]]),
    );
    let b = variable("B", matrix(&[&[3., 0.], &[1., 1.], &[0., 6.], &[2.5, 2.]]));
    let res = quick_eval("A*B", &Context::from_vars(vec![a, b])).unwrap();
    assert_eq!(res[0], matrix(&[&[39., 95.], &[40., 77.], &[32., 100.]]));
}

#[test]
fn easy_eval12() {
    let a = variable("A", matrix(&[&[2.]]));
    let res = quick_eval("inv(A)", &Context::from_vars(vec![a])).unwrap();
    assert_eq!(res[0], matrix(&[&[0.5]]));
}

#[test]
fn medium_eval1() {
    let x = variable("x", scalar(3.));
    let res = quick_eval("3x", &Context::from_vars(vec![x])).unwrap();
    assert_eq!(res[0], scalar(9.));
}

#[test]
fn medium_eval2() {
    let a = variable("A", vector(&[3., 5., 8.]));
    let res = quick_eval("3A", &Context::from_vars(vec![a])).unwrap();
    assert_eq!(res[0], vector(&[9., 15., 24.]));
}

#[test]
fn medium_eval3() {
    let a = variable("A", vector(&[3., 5., 8.]));
    let b = variable("B", matrix(&[&[2., 0., 0.], &[0., 2., 0.], &[0., 0., 1.]]));
    let res = quick_eval("B*A", &Context::from_vars(vec![a, b])).unwrap();
    assert_eq!(res[0], vector(&[6., 10., 8.]));
}

#[test]
fn medium_eval4() {
    let a = variable("A", matrix(&[&[3., 5., 7.], &[4., 8., 2.], &[1., 9., 2.]]));
    let b = variable("B", matrix(&[&[7., 9., 10.], &[1., 55., 8.], &[22., 9., 2.]]));
    let res = quick_eval("A*B", &Context::from_vars(vec![a, b])).unwrap();
    assert_eq!(
        res[0],
        matrix(&[&[180., 365., 84.], &[80., 494., 108.], &[60., 522., 86.]])
    );
}

#[test]
fn medium_eval5() {
    let res = quick_eval("((3*3))", &Context::empty()).unwrap();
    assert_eq!(res[0], scalar(9.));
}

#[test]
fn medium_eval6() {
    let res = quick_eval("[[3, 0, 5], [2, 4, 5], [1, 2]]", &Context::empty());
    assert_eq!(res.unwrap_err(), Failure::Parser(ParserError::NotRectMatrix));
}

#[test]
fn medium_eval7() {
    let res = quick_eval("[[], [], []]", &Context::empty());
    assert_eq!(res.unwrap_err(), Failure::Parser(ParserError::EmptyVec));
}

#[test]
fn medium_eval8() {
    let res = quick_eval("", &Context::empty());
    assert_eq!(res.unwrap_err(), Failure::Parser(ParserError::EmptyExpr));
}

#[test]
fn medium_eval9() {
    let res = quick_eval("[[3, 0,], [2, 4, 5], [1, 2]]", &Context::empty());
    assert_eq!(res.unwrap_err(), Failure::Parser(ParserError::EmptyExpr));
}

#[test]
fn medium_eval10() {
    let res = quick_eval("[[3, 0, 5], [2, 4], [1, 2,]]", &Context::empty());
    assert_eq!(res.unwrap_err(), Failure::Parser(ParserError::EmptyExpr));
}

#[test]
fn medium_eval11() {
    let res = quick_eval("[-3 ,-5, -2]", &Context::empty()).unwrap();
    assert_eq!(res[0], vector(&[-3., -5., -2.]));
}

#[test]
fn medium_eval12() {
    let res = quick_eval("[3, 3*3, -5]", &Context::empty()).unwrap();
    assert_eq!(res[0], vector(&[3., 9., -5.]));
}

#[test]
fn medium_eval13() {
    let vars = vec![variable("A_{3*6}", scalar(3.))];
    let res = quick_eval("A_{3*6}*3", &Context::from_vars(vars)).unwrap();
    assert_eq!(res[0], scalar(9.));
}

#[test]
fn medium_eval14() {
    let res = quick_eval("[[1, 0], [0, 6], [0, 0]]*[3, 4, 5]", &Context::empty()).unwrap();
    assert_eq!(res[0], vector(&[3., 24.]));
}

#[test]
fn medium_eval15() {
    let res = quick_eval("3(6+2)", &Context::empty()).unwrap();
    assert_eq!(res[0], scalar(24.));
}

#[test]
fn medium_eval16() {
    let res = quick_eval("3[4, 5, 6]", &Context::empty()).unwrap();
    assert_eq!(res[0], vector(&[12., 15., 18.]));
}

#[test]
fn medium_eval17() {
    let res = quick_eval(
        "3*[[2, 0, 0], [0, 1, 0], [0, 0, 5]]*[[1, 0, 0], [0, 1, 0], [0, 0, 1]]*[3, 4, 5]",
        &Context::empty(),
    )
    .unwrap();
    assert_eq!(res[0], vector(&[18., 12., 75.]));
}

#[test]
fn medium_eval18() {
    let res = quick_eval("[sqrt(25), 2pi, 3]", &Context::default()).unwrap();
    assert_eq!(res[0], vector(&[5., 2. * std::f64::consts::PI, 3.]));
}

#[test]
fn medium_eval19() {
    let res = quick_eval("[0, 0.5, 0]#[-0.8, 0, 0.6]", &Context::empty()).unwrap();
    let got = match &res[0] {
        Value::Vector(v) => floats(v),
        _ => panic!("no vector"),
    };
    assert_eq!(got, vec![0.3, 0., 0.4]);
}

#[test]
fn medium_eval20() {
    let f = function("f", "5x^2+2x+x", &["x"]);
    let res = quick_eval("f(5)", &Context::from_funs(vec![f])).unwrap();
    assert_eq!(res[0], scalar(140.));
}

#[test]
fn medium_eval21() {
    let f = function("f", "x-A", &["x"]);
    let a = variable("A", vector(&[3., 4., 5.]));
    let res = quick_eval("f([3, 4, 5])", &Context::new(vec![a], vec![f])).unwrap();
    assert_eq!(res[0], vector(&[0., 0., 0.]));
}

#[test]
fn medium_eval22() {
    let f = function("f", "3*f(x)", &["x"]);
    let res = quick_eval("f(5)", &Context::new(vec![], vec![f]));
    assert_eq!(res.err().unwrap(), Failure::Eval(EvalError::RecursiveFunction));
}

#[test]
fn medium_eval23() {
    let f = function("f", "3*x", &["x"]);
    let res = quick_eval("f(f(6))", &Context::new(vec![], vec![f])).unwrap();
    assert_eq!(res[0], scalar(54.));
}

#[test]
fn medium_eval27() {
    let res = quick_eval("{3, 2}*{7, 3, 2}", &Context::empty()).unwrap();
    assert_eq!(
        res,
        vec![scalar(21.), scalar(9.), scalar(6.), scalar(14.), scalar(6.), scalar(4.)]
    );
}

#[test]
fn medium_eval28() {
    let a = variable("A", matrix(&[&[1., 2., 3.], &[4., 5., 6.], &[7., 8., 9.]]));
    let res = quick_eval("det(A)", &Context::from_vars(vec![a])).unwrap();
    assert_eq!(res[0], scalar(0.));
}

#[test]
fn medium_eval29() {
    let a = variable(
        "A",
        matrix(&[
            &[0., 6., -2., -1., 5.],
            &[0., 0., 0., -9., -7.],
            &[0., 15., 35., 0., 0.],
            &[0., -1., -11., -2., 1.],
            &[-2., -2., 3., 0., -2.],
        ]),
    );
    let res = quick_eval("det(A)", &Context::from_vars(vec![a])).unwrap();
    assert_eq!(res[0], scalar(2480.));
}

#[test]
fn medium_eval30() {
    let a = variable("A", matrix(&[&[-1., 3. / 2.], &[1., -1.]]));
    let res = quick_eval("inv(A)", &Context::from_vars(vec![a])).unwrap();
    assert_eq!(rounded(&res[0], 3), matrix(&[&[2., 3.], &[2., 2.]]));
}

#[test]
fn medium_eval31() {
    let m = variable("M", matrix(&[&[0.7, 0.1, 0.3], &[0.1, 0.5, 0.1], &[0.2, 0.4, 0.6]]));
    let res = quick_eval("M^20", &Context::from_vars(vec![m])).unwrap();
    assert_eq!(
        rounded(&res[0], 3),
        matrix(&[&[0.444, 0.444, 0.444], &[0.167, 0.167, 0.167], &[0.389, 0.389, 0.389]])
    );
}

#[test]
fn hard_eval1() {
    let x = variable("x", scalar(3.));
    let a = variable("A", vector(&[3., 2., 1.]));
    let b = variable("B", matrix(&[&[2., 3., 4.], &[5., 1., 7.], &[2., 3., 6.]]));
    let res = quick_eval("(x*B*A)?1", &Context::from_vars(vec![a, x, b])).unwrap();
    assert_eq!(res[0], scalar(72.));
}

#[test]
fn hard_eval2() {
    let a = variable(
        "A",
        matrix(&[
            &[-3., -1., 2., -3.],
            &[-3., 1., 2., -2.],
            &[-2., 3., 0., 1.],
            &[1., -2., -3., 1.],
        ]),
    );
    let res = quick_eval("inv(A)", &Context::from_vars(vec![a])).unwrap();
    let want = matrix(&[
        &[-11. / 7., 2., -1., 2. / 7.],
        &[-15. / 7., 3., -1., 4. / 7.],
        &[2., -3., 1., -1.],
        &[23. / 7., -5., 2., -8. / 7.],
    ]);
    assert_eq!(rounded(&res[0], 3), rounded(&want, 3));
}

fn rounded_all(values: &[Value], places: i32) -> Vec<Value> {
    values.iter().map(|v| rounded(v, places)).collect()
}

/// A value as numbers, so that values compare as numbers do.
#[derive(Debug, PartialEq)]
enum Shown {
    Scalar(f64),
    Vector(Vec<f64>),
    Matrix(Vec<Vec<f64>>),
}

fn shown_all(values: &[Value]) -> Vec<Shown> {
    values
        .iter()
        .map(|v| match v {
            Value::Scalar(s) => Shown::Scalar(num(*s)),
            Value::Vector(v) => Shown::Vector(floats(v)),
            Value::Matrix(m) => Shown::Matrix(table(m)),
        })
        .collect()
}

#[test]
fn calculus_eval1() {
    let res = quick_eval("D(x^2, x, 3)", &Context::empty()).unwrap();
    assert_eq!(rounded(&res[0], 6), scalar(6.));
}

#[test]
fn calculus_eval2() {
    let res = quick_eval("I(x^2, x, 0, 5)", &Context::empty()).unwrap();
    assert_eq!(rounded(&res[0], 4), scalar(41.6667));
}

#[test]
fn calculus_eval3() {
    let res = quick_eval(
        "1/sqrt(2*250^2*pi)*I(e^(-(x-4000)^2/(2*250^2)), x, 3500, 4500)",
        &Context::default(),
    )
    .unwrap();
    assert_eq!(rounded(&res[0], 4), scalar(0.9545));
}

#[test]
fn easy_solve1() {
    let res = quick_eval("eq(x^2=9, x)", &Context::empty()).unwrap();
    assert_eq!(rounded_all(&res, 3), vec![scalar(-3.), scalar(3.)]);
}

#[test]
fn medium_solve1() {
    let res = quick_eval("eq(3x^2+2x-1=0, x)", &Context::empty()).unwrap();
    assert_eq!(
        rounded_all(&res, 3),
        vec![scalar(-1.), scalar(((1. / 3.) as f64 * 1000.).round() / 1000.)]
    );
}

#[test]
fn medium_solve2() {
    let equation = "eq(2x+5y+2z=-38, 3x-2y+4z=17, -6x+y-7z=-12, x, y, z)";
    let res = quick_eval(equation, &Context::empty()).unwrap();
    assert_eq!(rounded_all(&res, 3), vec![vector(&[3., -8., -2.])]);
}

#[test]
fn medium_solve3() {
    let equation = "eq(3x-9z=33, 7x-4y-z=-15, 4x+6y+5z=-6, x, y, z)";
    let res = quick_eval(equation, &Context::empty()).unwrap();
    assert_eq!(rounded_all(&res, 3), vec![vector(&[-1., 3., -4.])]);
}

#[test]
fn medium_solve4() {
    let f = function("f", "4x^2-9", &["x"]);
    let res = quick_eval("eq(f(x)=0, x)", &Context::from_funs(vec![f])).unwrap();
    assert_eq!(rounded_all(&res, 3), vec![scalar(-1.5), scalar(1.5)]);
}

#[test]
fn calculus_solve1() {
    let res = quick_eval("eq(D(3x^2+2x-1, x, k)=0, k)", &Context::empty()).unwrap();
    assert_eq!(
        rounded_all(&res, 3),
        vec![scalar(-(((1. / 3.) as f64 * 1000.).round() / 1000.))]
    );
}

#[test]
fn hard_solve1() {
    let equation = "eq(((25x^3-96x^2+512x+384)/(x^4+2x^3+90x^2-128x+1664)^(1.5))/(-sqrt(1-((32-x+x^2)/(((x-1)^2+25)(x^2+64)))^2))=0, x)";
    let res = quick_eval(equation, &Context::empty()).unwrap();
    assert_eq!(rounded_all(&res, 3).contains(&scalar(-0.656)), true);
}

#[test]
fn hard_solve2() {
    let res = quick_eval("eq(x*[3, 4, 5]=[6, 8, 10], x)", &Context::empty());
    assert_eq!(res.unwrap_err(), Failure::Eval(EvalError::VectorInEq));
}

#[test]
fn hard_solve3() {
    let equation = "eq(400-100x=600-100x, -600-100x=-400-100x, 1000-100x=0+100x, x)";
    let res = quick_eval(equation, &Context::empty()).unwrap();
    assert_eq!(res, vec![]);
}

#[test]
fn hard_solve4() {
    let equation = "eq(400-100g=600-100k, -600-100g=-400-100k, 1000-100g=100k, g, k)";
    let res = quick_eval(equation, &Context::empty()).unwrap();
    assert_eq!(rounded_all(&res, 3), vec![vector(&[4., 6.])]);
}

#[test]
fn hard_solve5() {
    let equation = "eq(y=x^2+6x-8, y=4x+7, x, y)";
    let res = quick_eval(equation, &Context::empty()).unwrap();
    assert_eq!(rounded_all(&res, 3), vec![vector(&[-5., -13.]), vector(&[3., 19.])]);
}

#[test]
fn hard_solve6() {
    let equation = "eq(y=1-3x, x^2/4+y^2=1, x, y)";
    let res = quick_eval(equation, &Context::empty()).unwrap();
    assert_eq!(
        shown_all(&rounded_all(&res, 3)),
        shown_all(&[rounded(&vector(&[24. / 37., -35. / 37.]), 3), vector(&[0., 1.])])
    );
}

#[test]
fn square_root_has_two_values() {
    assert_eq!(
        quick_eval("sqrt(9)", &Context::empty()).unwrap(),
        vec![scalar(3.), scalar(-3.)]
    );
    assert_eq!(
        quick_eval("2*sqrt(9)", &Context::empty()).unwrap(),
        vec![scalar(6.), scalar(-6.)]
    );
}

#[test]
fn odd_root_has_one_value() {
    assert_eq!(quick_eval("root(8,3)", &Context::empty()).unwrap(), vec![scalar(2.)]);
}

#[test]
fn vector_of_two_valued_slots_has_four_values() {
    assert_eq!(
        quick_eval("[sqrt(9),sqrt(9),0]", &Context::empty()).unwrap(),
        vec![
            vector(&[3., 3., 0.]),
            vector(&[3., -3., 0.]),
            vector(&[-3., 3., 0.]),
            vector(&[-3., -3., 0.])
        ]
    );
}

#[test]
fn matrix_of_two_valued_slot_has_two_values() {
    assert_eq!(
        quick_eval("[[sqrt(9), 0, 0], [0, 1, 0], [0, 0, 1]]", &Context::empty()).unwrap(),
        vec![
            matrix(&[&[3., 0., 0.], &[0., 1., 0.], &[0., 0., 1.]]),
            matrix(&[&[-3., 0., 0.], &[0., 1., 0.], &[0., 0., 1.]])
        ]
    );
}

#[test]
fn plus_minus_yields_sum_then_difference() {
    assert_eq!(
        quick_eval("5&2", &Context::empty()).unwrap(),
        vec![scalar(7.), scalar(3.)]
    );
    assert_eq!(
        quick_eval("{1,2}&{10,20}", &Context::empty()).unwrap(),
        vec![
            scalar(11.),
            scalar(-9.),
            scalar(21.),
            scalar(-19.),
            scalar(12.),
            scalar(-8.),
            scalar(22.),
            scalar(-18.)
        ]
    );
}

#[test]
fn plus_minus_in_front_counts_from_zero() {
    assert_eq!(quick_eval("&4", &Context::empty()).unwrap(), vec![scalar(4.), scalar(-4.)]);
    // Both values of the root get both signs.
    assert_eq!(
        shown_all(&quick_eval("&root(9, 2)", &Context::empty()).unwrap()),
        shown_all(&[scalar(3.), scalar(-3.), scalar(-3.), scalar(3.)])
    );
    assert_eq!(
        shown_all(&quick_eval("2*(&sqrt(9))", &Context::empty()).unwrap()),
        shown_all(&[scalar(6.), scalar(-6.), scalar(-6.), scalar(6.)])
    );
}

#[test]
fn function_runs_once_for_every_choice_of_arguments() {
    let f = function("f", "x-y", &["x", "y"]);
    assert_eq!(
        quick_eval("f({1,2},{10,20})", &Context::from_funs(vec![f])).unwrap(),
        vec![scalar(-9.), scalar(-19.), scalar(-8.), scalar(-18.)]
    );
}

#[test]
fn parameters_shadow_outer_variables() {
    let f = function("f", "x+y", &["x"]);
    let x = variable("x", scalar(100.));
    let y = variable("y", scalar(1.));
    assert_eq!(
        quick_eval("f(2)+x", &Context::new(vec![x, y], vec![f])).unwrap(),
        vec![scalar(103.)]
    );
}

#[test]
fn mutual_calls_are_no_self_recursion() {
    let f = function("f", "g(x)+1", &["x"]);
    let g = function("g", "2x", &["x"]);
    assert_eq!(
        quick_eval("f(3)", &Context::from_funs(vec![f, g])).unwrap(),
        vec![scalar(7.)]
    );
}

#[test]
fn evaluation_errors() {
    let f = function("f", "x", &["x"]);
    let context = Context::from_funs(vec![f]);
    assert_eq!(
        quick_eval("y", &context),
        Err(Failure::Eval(EvalError::NoVariable("y".to_string())))
    );
    assert_eq!(
        quick_eval("g(1)", &context),
        Err(Failure::Eval(EvalError::NoFunction("g".to_string())))
    );
    assert_eq!(
        quick_eval("f(1,2)", &context),
        Err(Failure::Eval(EvalError::WrongNumberOfArgs((1, 2))))
    );
    assert_eq!(
        quick_eval("[[1,2],3]+1", &Context::empty()),
        Err(Failure::Parser(ParserError::NotRectMatrix))
    );
    let v = variable("v", vector(&[1., 2.]));
    assert_eq!(
        quick_eval("[v, 1]", &Context::from_vars(vec![v])),
        Err(Failure::Eval(EvalError::NonScalarInVector))
    );
    let v = variable("v", vector(&[1., 2.]));
    assert_eq!(
        quick_eval("[[v, 1], [1, 1]]", &Context::from_vars(vec![v])),
        Err(Failure::Eval(EvalError::NonScalarInMatrix))
    );
    assert_eq!(
        quick_eval("[1,2]+1", &Context::empty()),
        Err(Failure::Eval(EvalError::MathError("Can't add scalar to vector!".to_string())))
    );
    assert_eq!(
        EvalError::WrongNumberOfArgs((1, 2)).get_reason(),
        "Wrong number of arguments! Expected 1 arguments, 2 were given!"
    );
}

#[test]
fn steps_of_a_product() {
    let ast = parse("3*4").unwrap();
    let machine = math_utils_lib::eval(&ast, &Context::empty());
    assert!(machine.outcome().is_none());
    // The product starts to gather its operands.
    let (machine, request) = machine.step(None);
    assert_eq!(request, None);
    // The left operand is a numeral.
    let (machine, request) = machine.step(None);
    assert_eq!(request, Some(Request::Number { text: "3".to_string() }));
    // A reply of the wrong kind changes nothing.
    let (machine, request) = machine.step(Some(Reply::Applied(Ok(vec![]))));
    assert_eq!(request, Some(Request::Number { text: "3".to_string() }));
    let (machine, request) = machine.step(Some(Reply::Number(bits(3.))));
    assert_eq!(request, None);
    // The number reaches the product, which goes on with its right operand.
    let (machine, request) = machine.step(None);
    assert_eq!(request, None);
    let (machine, request) = machine.step(None);
    assert_eq!(request, Some(Request::Number { text: "4".to_string() }));
    let (machine, request) = machine.step(Some(Reply::Number(bits(4.))));
    assert_eq!(request, None);
    let (machine, request) = machine.step(None);
    assert_eq!(
        request,
        Some(Request::Apply { op_type: SimpleOpType::Mult, left: scalar(3.), right: scalar(4.) })
    );
    let (machine, request) = machine.step(Some(Reply::Applied(Ok(vec![scalar(12.)]))));
    assert_eq!(request, None);
    let (machine, request) = machine.step(None);
    assert_eq!(request, None);
    assert_eq!(machine.outcome(), Some(Ok(Values(vec![scalar(12.)]))));
    // A finished machine stays as it is.
    let (machine, request) = machine.step(None);
    assert_eq!(request, None);
    assert_eq!(machine.outcome(), Some(Ok(Values(vec![scalar(12.)]))));
}

#[test]
fn error_of_a_primitive_ends_the_evaluation() {
    let tree = AST::Operation(Box::new(Operation::SimpleOperation {
        op_type: SimpleOpType::Sin,
        left: AST::Variable("v".to_string()),
        right: AST::Scalar("0".to_string()),
    }));
    let v = variable("v", vector(&[1., 2.]));
    assert_eq!(
        eval(&tree, &Context::from_vars(vec![v])),
        Err(EvalError::MathError("Can't take sin of vector!".to_string()))
    );
}

#[test]
fn inverse_times_matrix_is_the_identity() {
    let a = variable("A", matrix(&[&[2., 1., 0.], &[1., 3., 1.], &[0., 1., 4.]]));
    let context = Context::from_vars(vec![a]);
    let identity = matrix(&[&[1., 0., 0.], &[0., 1., 0.], &[0., 0., 1.]]);
    let res = quick_eval("inv(A)*A", &context).unwrap();
    assert_eq!(shown_all(&rounded_all(&res, 6)), shown_all(&[identity.clone()]));
    let res = quick_eval("A*inv(A)", &context).unwrap();
    assert_eq!(shown_all(&rounded_all(&res, 6)), shown_all(&[identity]));
}

#[test]
fn determinant_of_a_singular_matrix_is_zero() {
    let a = variable("A", matrix(&[&[2., 4.], &[1., 2.]]));
    let res = quick_eval("det(A)", &Context::from_vars(vec![a])).unwrap();
    assert_eq!(res, vec![scalar(0.)]);
    let a = variable("A", matrix(&[&[2., 4.], &[1., 2.]]));
    assert_eq!(
        quick_eval("inv(A)", &Context::from_vars(vec![a])),
        Err(Failure::Eval(EvalError::MathError(
            "Can't calculate inverse of a matrix with determinant 0!".to_string()
        )))
    );
}

fn numbers(xs: &[f64]) -> Vec<u64> {
    xs.iter().map(|x| bits(*x)).collect()
}

fn rows_of(rows: &[&[f64]]) -> Vec<Vec<u64>> {
    rows.iter().map(|r| numbers(r)).collect()
}

#[test]
fn elimination_solves_a_system() {
    // 2x + y = 5, x + 3y = 10 has the solution (1, 3); the residual is the
    // negated right side, and the point is the origin.
    let res = improve(rows_of(&[&[2., 1.], &[1., 3.]]), numbers(&[-5., -10.]), numbers(&[0., 0.]));
    assert_eq!(res.map(|p| floats(&p)), Ok(vec![1., 3.]));
    // The solution is added to the point.
    let res =
        improve(rows_of(&[&[2., 1.], &[1., 3.]]), numbers(&[-5., -10.]), numbers(&[10., 20.]));
    assert_eq!(res.map(|p| floats(&p)), Ok(vec![11., 23.]));
    let res = improve(rows_of(&[&[4.]]), numbers(&[-2.]), numbers(&[1.]));
    assert_eq!(res.map(|p| floats(&p)), Ok(vec![1.5]));
    let slopes = rows_of(&[&[2., 5., 2.], &[3., -2., 4.], &[-6., 1., -7.]]);
    let res = improve(slopes, numbers(&[38., -17., 12.]), numbers(&[0., 0., 0.]));
    let point = Value::Vector(res.unwrap());
    assert_eq!(rounded(&point, 9), vector(&[3., -8., -2.]));
}

#[test]
fn elimination_agrees_with_plain_arithmetic() {
    let systems: Vec<(Vec<Vec<u64>>, Vec<u64>, Vec<u64>)> = vec![
        (rows_of(&[&[2., 1.], &[1., 3.]]), numbers(&[-5., -10.]), numbers(&[0.5, -0.25])),
        (rows_of(&[&[0.1, 0.7], &[1.3, -3.3]]), numbers(&[0.3, 1e-3]), numbers(&[7., 9.])),
        (
            rows_of(&[&[2., 5., 2.], &[3., -2., 4.], &[-6., 1., -7.]]),
            numbers(&[38., -17., 12.]),
            numbers(&[1., 2., 3.]),
        ),
        (
            rows_of(&[&[1., 2., 3., 4.], &[2., 1., 5., 1.], &[3., 3., 1., 2.], &[1., 7., 2., 9.]]),
            numbers(&[0.1, 0.2, 0.3, 0.4]),
            numbers(&[4., 3., 2., 1.]),
        ),
        (rows_of(&[&[0.]]), numbers(&[1.]), numbers(&[0.])),
        (rows_of(&[&[0., 1.], &[1., 0.]]), numbers(&[1., 1.]), numbers(&[0., 0.])),
        (rows_of(&[&[1., 1.], &[1., 1.]]), numbers(&[1., 2.]), numbers(&[0., 0.])),
        (rows_of(&[&[1., 2.], &[2., 4.]]), numbers(&[1., 2.]), numbers(&[0., 0.])),
    ];
    let written = |p: Vec<u64>| p.iter().map(|b| num(*b).to_string()).collect::<Vec<String>>();
    for (slopes, residual, point) in systems {
        let direct = improve_directly(&slopes, &residual, &point);
        let stepped = improve(slopes, residual, point);
        assert_eq!(stepped.map(written), direct.map(written));
    }
}

#[test]
fn elimination_of_a_system_without_a_single_solution() {
    assert_eq!(
        improve(rows_of(&[&[1., 2.], &[2., 4.]]), numbers(&[-3., -6.]), numbers(&[0., 0.])),
        Err(EvalError::InfiniteSolutions)
    );
    assert_eq!(
        improve(rows_of(&[&[1., 2.]]), numbers(&[-3.]), numbers(&[0., 0.])),
        Err(EvalError::UnderdeterminedSystem)
    );
    assert_eq!(improve(vec![], vec![], vec![]), Err(EvalError::UnderdeterminedSystem));
    assert_eq!(
        improve(rows_of(&[&[1., 2., 3.], &[4., 5., 6.]]), numbers(&[1., 1.]), numbers(&[0., 0.])),
        Err(EvalError::UnderdeterminedSystem)
    );
}

#[test]
fn unknowns_are_found_where_none_is_named() {
    let res = quick_eval("eq(x^2=9)", &Context::empty()).unwrap();
    assert_eq!(rounded_all(&res, 3), vec![scalar(-3.), scalar(3.)]);
    let k = variable("k", scalar(2.));
    let res = quick_eval("eq(k*t=8)", &Context::from_vars(vec![k])).unwrap();
    assert_eq!(rounded_all(&res, 3), vec![scalar(4.)]);
    let res = quick_eval("eq(x+y=3, x-y=1)", &Context::empty()).unwrap();
    assert_eq!(rounded_all(&res, 3), vec![vector(&[2., 1.])]);
}
