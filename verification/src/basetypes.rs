//! The data model: operator tags, syntax trees, values, variables, functions
//! and contexts, each with the mathematical view that the contracts of the
//! library speak of.
//!
//! Numbers are never computed here. A number inside a syntax tree is the
//! numeral as it was written; a number inside a value is the bit pattern of an
//! IEEE 754 binary64, which the library carries around and hands to the
//! numeric primitives of its host without looking inside.

use vstd::prelude::*;
use vstd::string::StringExecFns;

verus! {

/// The operators and built-in functions with at most two operands.
///
/// The order of the variants is the reverse of the operators' priority:
/// earlier variants bind more loosely.
#[derive(Debug, Clone, Copy, PartialEq, Eq, Structural)]
pub enum SimpleOpType {
    /// `a+b`
    Add,
    /// `a-b`
    Sub,
    /// `a&b`: both `a+b` and `a-b`
    AddSub,
    /// `-a`
    Neg,
    /// `a*b`
    Mult,
    /// `a/b`
    Div,
    /// `a#b`, the cross product
    Cross,
    /// Multiplication written by juxtaposition: `3a`, `5(3+3)`, `(3+5)(2+6)`
    HiddenMult,
    /// `a^b`
    Pow,
    /// `a?b`, the component of `a` with index `b`
    Get,
    /// `sin(a)`
    Sin,
    /// `cos(a)`
    Cos,
    /// `tan(a)`
    Tan,
    /// `abs(a)`
    Abs,
    /// `sqrt(a)`
    Sqrt,
    /// `root(a, n)`
    Root,
    /// `ln(a)`
    Ln,
    /// `arcsin(a)`
    Arcsin,
    /// `arccos(a)`
    Arccos,
    /// `arctan(a)`
    Arctan,
    /// `det(M)`
    Det,
    /// `inv(M)`
    Inv,
    /// An expression in parentheses
    Parenths,
}

/// The operations with more than two operands.
#[derive(Debug, Clone, Copy, PartialEq, Eq, Structural)]
pub enum AdvancedOpType {
    /// `D(f, n, m)`: the derivative of `f` with respect to `n` at `m`
    Derivative,
    /// `I(f, n, a, b)`: the integral of `f` with respect to `n` from `a` to `b`
    Integral,
    /// `eq(eq_1, eq_2, ..., x, y, ...)`: the solutions of the equations in the
    /// given unknowns
    Equation,
}

/// A syntax tree.
#[derive(Debug, PartialEq)]
pub enum AST {
    /// A number, held as the numeral that was written.
    Scalar(String),
    Vector(Box<Vec<AST>>),
    Matrix(Box<Vec<Vec<AST>>>),
    /// Alternatives: the outcomes of all items, one after the other.
    List(Vec<AST>),
    Variable(String),
    Function { name: String, inputs: Box<Vec<AST>> },
    Operation(Box<Operation>),
}

#[derive(Debug, PartialEq)]
pub enum Operation {
    /// A unary operator keeps a placeholder on the side it does not use.
    SimpleOperation { op_type: SimpleOpType, left: AST, right: AST },
    AdvancedOperation(AdvancedOperation),
}

#[derive(Debug, PartialEq)]
pub enum AdvancedOperation {
    Integral { expr: AST, in_terms_of: String, lower_bound: AST, upper_bound: AST },
    Derivative { expr: AST, in_terms_of: String, at: AST },
    Equation { equations: Vec<(AST, AST)>, search_vars: Vec<String> },
}

/// What a syntax tree is, mathematically.
pub enum AstView {
    Scalar(Seq<char>),
    Vector(Seq<AstView>),
    Matrix(Seq<Seq<AstView>>),
    List(Seq<AstView>),
    Variable(Seq<char>),
    Function { name: Seq<char>, inputs: Seq<AstView> },
    Simple { op_type: SimpleOpType, left: Box<AstView>, right: Box<AstView> },
    Integral {
        expr: Box<AstView>,
        in_terms_of: Seq<char>,
        lower_bound: Box<AstView>,
        upper_bound: Box<AstView>,
    },
    Derivative { expr: Box<AstView>, in_terms_of: Seq<char>, at: Box<AstView> },
    Equation { equations: Seq<(AstView, AstView)>, search_vars: Seq<Seq<char>> },
}

/// The numeral that stands on the unused side of a unary operator.
pub open spec fn placeholder() -> AstView {
    AstView::Scalar(seq!['0'])
}

impl View for AST {
    type V = AstView;

    open spec fn view(&self) -> AstView
        decreases self,
    {
        match self {
            AST::Scalar(n) => AstView::Scalar(n@),
            AST::Vector(items) => AstView::Vector(
                Seq::new(
                    items@.len(),
                    |i: int|
                        if 0 <= i < items@.len() {
                            items@[i].view()
                        } else {
                            placeholder()
                        },
                ),
            ),
            AST::Matrix(rows) => AstView::Matrix(
                Seq::new(
                    rows@.len(),
                    |i: int|
                        Seq::new(
                            if 0 <= i < rows@.len() {
                                rows@[i]@.len()
                            } else {
                                0
                            },
                            |j: int|
                                if 0 <= i < rows@.len() && 0 <= j < rows@[i]@.len() {
                                    rows@[i]@[j].view()
                                } else {
                                    placeholder()
                                },
                        ),
                ),
            ),
            AST::List(items) => AstView::List(
                Seq::new(
                    items@.len(),
                    |i: int|
                        if 0 <= i < items@.len() {
                            items@[i].view()
                        } else {
                            placeholder()
                        },
                ),
            ),
            AST::Variable(name) => AstView::Variable(name@),
            AST::Function { name, inputs } => AstView::Function {
                name: name@,
                inputs: Seq::new(
                    inputs@.len(),
                    |i: int|
                        if 0 <= i < inputs@.len() {
                            inputs@[i].view()
                        } else {
                            placeholder()
                        },
                ),
            },
            AST::Operation(operation) => operation_view(**operation),
        }
    }
}

/// What an operation is, mathematically.
pub open spec fn operation_view(operation: Operation) -> AstView
    decreases operation,
{
    match operation {
        Operation::SimpleOperation { op_type, left, right } => AstView::Simple {
            op_type,
            left: Box::new(left.view()),
            right: Box::new(right.view()),
        },
        Operation::AdvancedOperation(advanced) => advanced_view(advanced),
    }
}

/// What an operation with more than two operands is, mathematically.
pub open spec fn advanced_view(advanced: AdvancedOperation) -> AstView
    decreases advanced,
{
    {
        match advanced {
            AdvancedOperation::Integral { expr, in_terms_of, lower_bound, upper_bound } => {
                AstView::Integral {
                    expr: Box::new(expr.view()),
                    in_terms_of: in_terms_of@,
                    lower_bound: Box::new(lower_bound.view()),
                    upper_bound: Box::new(upper_bound.view()),
                }
            },
            AdvancedOperation::Derivative { expr, in_terms_of, at } => AstView::Derivative {
                expr: Box::new(expr.view()),
                in_terms_of: in_terms_of@,
                at: Box::new(at.view()),
            },
            AdvancedOperation::Equation { equations, search_vars } => AstView::Equation {
                equations: Seq::new(
                    equations@.len(),
                    |i: int|
                        if 0 <= i < equations@.len() {
                            (equations@[i].0.view(), equations@[i].1.view())
                        } else {
                            (placeholder(), placeholder())
                        },
                ),
                search_vars: names_view(search_vars@),
            },
        }
    }
}

impl View for Operation {
    type V = AstView;

    open spec fn view(&self) -> AstView {
        operation_view(*self)
    }
}

impl View for AdvancedOperation {
    type V = AstView;

    open spec fn view(&self) -> AstView {
        advanced_view(*self)
    }
}

/// The texts of a list of strings.
pub open spec fn names_view(names: Seq<String>) -> Seq<Seq<char>> {
    names.map_values(|n: String| n@)
}

/// The views of a list of syntax trees.
pub open spec fn asts_view(items: Seq<AST>) -> Seq<AstView> {
    items.map_values(|a: AST| a@)
}

/// The views of a table of syntax trees.
pub open spec fn rows_view(rows: Seq<Vec<AST>>) -> Seq<Seq<AstView>> {
    rows.map_values(|r: Vec<AST>| asts_view(r@))
}

/// The views of a list of pairs of syntax trees.
pub open spec fn pairs_view(pairs: Seq<(AST, AST)>) -> Seq<(AstView, AstView)> {
    pairs.map_values(|p: (AST, AST)| (p.0@, p.1@))
}

/// The view of a tree is built from the views of its parts.
pub proof fn lemma_ast_view(a: AST)
    ensures
        a matches AST::Vector(items) ==> a@ == AstView::Vector(asts_view(items@)),
        a matches AST::Matrix(rows) ==> a@ == AstView::Matrix(rows_view(rows@)),
        a matches AST::List(items) ==> a@ == AstView::List(asts_view(items@)),
        a matches AST::Function { name, inputs } ==> a@ == (AstView::Function {
            name: name@,
            inputs: asts_view(inputs@),
        }),
{
    match a {
        AST::Vector(items) => {
            assert(a@->Vector_0 =~= asts_view(items@));
        },
        AST::Matrix(rows) => {
            assert forall|i: int| 0 <= i < rows@.len() implies #[trigger] a@->Matrix_0[i]
                =~= rows_view(rows@)[i] by {}
            assert(a@->Matrix_0 =~= rows_view(rows@));
        },
        AST::List(items) => {
            assert(a@->List_0 =~= asts_view(items@));
        },
        AST::Function { name, inputs } => {
            assert(a@->Function_inputs =~= asts_view(inputs@));
        },
        _ => {},
    }
}

/// The view of a system of equations is built from the views of its sides.
pub proof fn lemma_equation_view(a: AdvancedOperation)
    ensures
        a matches AdvancedOperation::Equation { equations, search_vars } ==> a@
            == (AstView::Equation {
            equations: pairs_view(equations@),
            search_vars: names_view(search_vars@),
        }),
{
    match a {
        AdvancedOperation::Equation { equations, search_vars } => {
            assert(a@->Equation_equations =~= pairs_view(equations@));
        },
        _ => {},
    }
}

/// The view of an operation is built from the views of its operands.
pub proof fn lemma_operation_view(a: AST)
    ensures
        a matches AST::Operation(operation) ==> a@ == operation_view(*operation) && match *operation {
            Operation::SimpleOperation { op_type, left, right } => a@ == (AstView::Simple {
                op_type,
                left: Box::new(left@),
                right: Box::new(right@),
            }),
            Operation::AdvancedOperation(
                AdvancedOperation::Integral { expr, in_terms_of, lower_bound, upper_bound },
            ) => a@ == (AstView::Integral {
                expr: Box::new(expr@),
                in_terms_of: in_terms_of@,
                lower_bound: Box::new(lower_bound@),
                upper_bound: Box::new(upper_bound@),
            }),
            Operation::AdvancedOperation(AdvancedOperation::Derivative { expr, in_terms_of, at }) => a@
                == (AstView::Derivative {
                expr: Box::new(expr@),
                in_terms_of: in_terms_of@,
                at: Box::new(at@),
            }),
            Operation::AdvancedOperation(AdvancedOperation::Equation { equations, search_vars }) => a@
                == (AstView::Equation {
                equations: pairs_view(equations@),
                search_vars: names_view(search_vars@),
            }),
        },
        a is Operation ==> !(a@ is Scalar) && !(a@ is Vector) && !(a@ is Matrix) && !(a@ is List)
            && !(a@ is Variable) && !(a@ is Function),
        a is Scalar <==> a@ is Scalar,
        a is Vector <==> a@ is Vector,
        a is Matrix <==> a@ is Matrix,
        a is List <==> a@ is List,
        a is Variable <==> a@ is Variable,
        a is Function <==> a@ is Function,
{
    match a {
        AST::Operation(operation) => {
            assert(a@ == operation_view(*operation));
            match *operation {
                Operation::SimpleOperation { op_type, left, right } => {},
                Operation::AdvancedOperation(advanced) => {
                    assert(a@ == advanced_view(advanced));
                    lemma_equation_view(advanced);
                },
            }
        },
        _ => {},
    }
}

/// A copy of a list of strings.
pub fn clone_names(names: &Vec<String>) -> (res: Vec<String>)
    ensures
        names_view(res@) == names_view(names@),
{
    let mut res: Vec<String> = Vec::new();
    let mut i: usize = 0;
    while i < names.len()
        invariant
            i <= names.len(),
            names_view(res@) == names_view(names@.take(i as int)),
        decreases names.len() - i,
    {
        let ghost before = names_view(res@);
        res.push(names[i].clone());
        assert(names_view(res@) =~= before.push(names@[i as int]@));
        assert(names_view(names@.take(i + 1)) =~= names_view(names@.take(i as int)).push(
            names@[i as int]@,
        ));
        i = i + 1;
    }
    assert(names@.take(names.len() as int) == names@);
    res
}

/// A copy of a list of syntax trees.
#[verifier::loop_isolation(false)]
pub fn clone_asts(items: &Vec<AST>) -> (res: Vec<AST>)
    ensures
        asts_view(res@) == asts_view(items@),
    decreases items,
{
    let mut res: Vec<AST> = Vec::new();
    let mut i: usize = 0;
    while i < items.len()
        invariant
            i <= items.len(),
            res.len() == i,
            forall|k: int| 0 <= k < i ==> res@[k]@ == items@[k]@,
        decreases items.len() - i,
    {
        res.push(items[i].clone());
        i = i + 1;
    }
    assert(asts_view(res@) =~= asts_view(items@));
    res
}

/// A copy of a table of syntax trees.
#[verifier::loop_isolation(false)]
pub fn clone_rows(rows: &Vec<Vec<AST>>) -> (res: Vec<Vec<AST>>)
    ensures
        rows_view(res@) == rows_view(rows@),
    decreases rows,
{
    let mut res: Vec<Vec<AST>> = Vec::new();
    let mut i: usize = 0;
    while i < rows.len()
        invariant
            i <= rows.len(),
            res.len() == i,
            forall|k: int| 0 <= k < i ==> asts_view(res@[k]@) == asts_view(rows@[k]@),
        decreases rows.len() - i,
    {
        res.push(clone_asts(&rows[i]));
        i = i + 1;
    }
    assert(rows_view(res@) =~= rows_view(rows@));
    res
}

/// A copy of a list of pairs of syntax trees.
#[verifier::loop_isolation(false)]
pub fn clone_pairs(pairs: &Vec<(AST, AST)>) -> (res: Vec<(AST, AST)>)
    ensures
        pairs_view(res@) == pairs_view(pairs@),
    decreases pairs,
{
    let mut res: Vec<(AST, AST)> = Vec::new();
    let mut i: usize = 0;
    while i < pairs.len()
        invariant
            i <= pairs.len(),
            res.len() == i,
            forall|k: int|
                0 <= k < i ==> res@[k].0@ == pairs@[k].0@ && res@[k].1@ == pairs@[k].1@,
        decreases pairs.len() - i,
    {
        let left = pairs[i].0.clone();
        let right = pairs[i].1.clone();
        res.push((left, right));
        i = i + 1;
    }
    assert(pairs_view(res@) =~= pairs_view(pairs@));
    res
}

impl Clone for AdvancedOperation {
    fn clone(&self) -> (res: AdvancedOperation)
        ensures
            res@ == self@,
        decreases self,
    {
        match self {
            AdvancedOperation::Integral { expr, in_terms_of, lower_bound, upper_bound } => {
                AdvancedOperation::Integral {
                    expr: expr.clone(),
                    in_terms_of: in_terms_of.clone(),
                    lower_bound: lower_bound.clone(),
                    upper_bound: upper_bound.clone(),
                }
            },
            AdvancedOperation::Derivative { expr, in_terms_of, at } => {
                AdvancedOperation::Derivative {
                    expr: expr.clone(),
                    in_terms_of: in_terms_of.clone(),
                    at: at.clone(),
                }
            },
            AdvancedOperation::Equation { equations, search_vars } => {
                let res = AdvancedOperation::Equation {
                    equations: clone_pairs(equations),
                    search_vars: clone_names(search_vars),
                };
                proof {
                    lemma_equation_view(res);
                    lemma_equation_view(*self);
                }
                res
            },
        }
    }
}

impl Clone for Operation {
    fn clone(&self) -> (res: Operation)
        ensures
            res@ == self@,
        decreases self,
    {
        match self {
            Operation::SimpleOperation { op_type, left, right } => Operation::SimpleOperation {
                op_type: *op_type,
                left: left.clone(),
                right: right.clone(),
            },
            Operation::AdvancedOperation(advanced) => Operation::AdvancedOperation(
                advanced.clone(),
            ),
        }
    }
}

impl Clone for AST {
    fn clone(&self) -> (res: AST)
        ensures
            res@ == self@,
        decreases self,
    {
        let res = match self {
            AST::Scalar(n) => AST::Scalar(n.clone()),
            AST::Vector(items) => AST::Vector(Box::new(clone_asts(items))),
            AST::Matrix(rows) => AST::Matrix(Box::new(clone_rows(rows))),
            AST::List(items) => AST::List(clone_asts(items)),
            AST::Variable(name) => AST::Variable(name.clone()),
            AST::Function { name, inputs } => AST::Function {
                name: name.clone(),
                inputs: Box::new(clone_asts(inputs)),
            },
            AST::Operation(operation) => AST::Operation(Box::new((**operation).clone())),
        };
        proof {
            lemma_ast_view(res);
            lemma_ast_view(*self);
        }
        res
    }
}

impl AST {
    /// The tree of a variable.
    pub fn from_variable_name(val: String) -> (res: AST)
        ensures
            res@ == AstView::Variable(val@),
    {
        AST::Variable(val)
    }

    /// The tree of an operation.
    pub fn from_operation(val: Operation) -> (res: AST)
        ensures
            res@ == val@,
    {
        let res = AST::Operation(Box::new(val));
        proof {
            lemma_operation_view(res);
        }
        res
    }
}

/// A value: a number, a vector of numbers or a matrix of numbers. A number is
/// held as the bit pattern of an IEEE 754 binary64.
#[derive(Debug, PartialEq)]
pub enum Value {
    Matrix(Vec<Vec<u64>>),
    Vector(Vec<u64>),
    Scalar(u64),
}

pub enum ValueView {
    Matrix(Seq<Seq<u64>>),
    Vector(Seq<u64>),
    Scalar(u64),
}

/// The rows held by a list of vectors of numbers.
pub open spec fn numbers_view(rows: Seq<Vec<u64>>) -> Seq<Seq<u64>> {
    rows.map_values(|r: Vec<u64>| r@)
}

impl View for Value {
    type V = ValueView;

    open spec fn view(&self) -> ValueView {
        match self {
            Value::Matrix(m) => ValueView::Matrix(numbers_view(m@)),
            Value::Vector(v) => ValueView::Vector(v@),
            Value::Scalar(s) => ValueView::Scalar(*s),
        }
    }
}

/// The views of a list of values.
pub open spec fn values_view(values: Seq<Value>) -> Seq<ValueView> {
    values.map_values(|v: Value| v@)
}

/// The views of a list of lists of values.
pub open spec fn choices_view(choices: Seq<Vec<Value>>) -> Seq<Seq<ValueView>> {
    choices.map_values(|c: Vec<Value>| values_view(c@))
}

/// A copy of a list of vectors of numbers.
pub fn clone_numbers(rows: &Vec<Vec<u64>>) -> (res: Vec<Vec<u64>>)
    ensures
        numbers_view(res@) == numbers_view(rows@),
{
    let mut res: Vec<Vec<u64>> = Vec::new();
    let mut i: usize = 0;
    while i < rows.len()
        invariant
            i <= rows.len(),
            res.len() == i,
            forall|k: int| 0 <= k < i ==> (#[trigger] res@[k])@ == rows@[k]@,
        decreases rows.len() - i,
    {
        let row = rows[i].clone();
        assert(row@ =~= rows@[i as int]@);
        res.push(row);
        i = i + 1;
    }
    assert(numbers_view(res@) =~= numbers_view(rows@));
    res
}

impl Clone for Value {
    fn clone(&self) -> (res: Value)
        ensures
            res@ == self@,
    {
        match self {
            Value::Matrix(m) => Value::Matrix(clone_numbers(m)),
            Value::Vector(v) => {
                let copy = v.clone();
                assert(copy@ =~= v@);
                Value::Vector(copy)
            },
            Value::Scalar(s) => Value::Scalar(*s),
        }
    }
}

/// A copy of a list of values.
pub fn clone_values(values: &Vec<Value>) -> (res: Vec<Value>)
    ensures
        values_view(res@) == values_view(values@),
{
    let mut res: Vec<Value> = Vec::new();
    let mut i: usize = 0;
    while i < values.len()
        invariant
            i <= values.len(),
            res.len() == i,
            forall|k: int| 0 <= k < i ==> (#[trigger] res@[k])@ == values@[k]@,
        decreases values.len() - i,
    {
        res.push(values[i].clone());
        i = i + 1;
    }
    assert(values_view(res@) =~= values_view(values@));
    res
}

impl Value {
    /// The number, if the value is a number.
    pub fn get_scalar(&self) -> (res: Option<u64>)
        ensures
            res == (match self@ {
                ValueView::Scalar(s) => Some(s),
                _ => None,
            }),
    {
        match self {
            Value::Scalar(a) => Some(*a),
            Value::Matrix(_) => None,
            Value::Vector(_) => None,
        }
    }

    /// The numbers of the vector, if the value is a vector.
    pub fn get_vector(&self) -> (res: Option<Vec<u64>>)
        ensures
            match self@ {
                ValueView::Vector(v) => res matches Some(r) && r@ == v,
                _ => res is None,
            },
    {
        match self {
            Value::Vector(a) => {
                let copy = a.clone();
                assert(copy@ =~= a@);
                Some(copy)
            },
            Value::Matrix(_) => None,
            Value::Scalar(_) => None,
        }
    }

    /// The rows of the matrix, if the value is a matrix.
    pub fn get_matrix(&self) -> (res: Option<Vec<Vec<u64>>>)
        ensures
            match self@ {
                ValueView::Matrix(m) => res matches Some(r) && numbers_view(r@) == m,
                _ => res is None,
            },
    {
        match self {
            Value::Matrix(a) => Some(clone_numbers(a)),
            Value::Scalar(_) => None,
            Value::Vector(_) => None,
        }
    }

    pub fn is_scalar(&self) -> (b: bool)
        ensures
            b == (self@ is Scalar),
    {
        match self {
            Value::Scalar(_) => true,
            _ => false,
        }
    }

    pub fn is_vector(&self) -> (b: bool)
        ensures
            b == (self@ is Vector),
    {
        match self {
            Value::Vector(_) => true,
            _ => false,
        }
    }

    pub fn is_matrix(&self) -> (b: bool)
        ensures
            b == (self@ is Matrix),
    {
        match self {
            Value::Matrix(_) => true,
            _ => false,
        }
    }
}

/// All outcomes of one evaluation, in order. Only the solving of equations
/// yields no outcome at all.
#[derive(Debug, PartialEq)]
pub struct Values(pub Vec<Value>);

impl View for Values {
    type V = Seq<ValueView>;

    open spec fn view(&self) -> Seq<ValueView> {
        values_view(self.0@)
    }
}

impl Clone for Values {
    fn clone(&self) -> (res: Values)
        ensures
            res@ == self@,
    {
        Values(clone_values(&self.0))
    }
}

impl Values {
    pub fn from_vec(values: Vec<Value>) -> (res: Values)
        ensures
            res@ == values_view(values@),
    {
        Values(values)
    }

    pub fn to_vec(self) -> (res: Vec<Value>)
        ensures
            values_view(res@) == self@,
    {
        self.0
    }

    /// The outcome with index `i`, if there are that many.
    pub fn get(&self, i: usize) -> (res: Option<&Value>)
        ensures
            i < self@.len() ==> (res matches Some(v) && v@ == self@[i as int]),
            i >= self@.len() ==> res is None,
    {
        if i < self.0.len() {
            Some(&self.0[i])
        } else {
            None
        }
    }

    pub fn len(&self) -> (n: usize)
        ensures
            n == self@.len(),
    {
        self.0.len()
    }
}

/// A variable: a name and the values bound to it. A variable may hold several
/// values at once, so that the solutions of an equation can be one variable.
#[derive(Debug, PartialEq)]
pub struct Variable {
    pub name: String,
    pub values: Values,
}

pub struct VariableView {
    pub name: Seq<char>,
    pub values: Seq<ValueView>,
}

impl View for Variable {
    type V = VariableView;

    open spec fn view(&self) -> VariableView {
        VariableView { name: self.name@, values: self.values@ }
    }
}

impl Clone for Variable {
    fn clone(&self) -> (res: Variable)
        ensures
            res@ == self@,
    {
        Variable { name: self.name.clone(), values: self.values.clone() }
    }
}

impl Variable {
    pub fn new(name: String, values: Vec<Value>) -> (res: Variable)
        ensures
            res@ == (VariableView { name: name@, values: values_view(values@) }),
    {
        Variable { name, values: Values(values) }
    }

    pub fn new_from_values(name: String, values: Values) -> (res: Variable)
        ensures
            res@ == (VariableView { name: name@, values: values@ }),
    {
        Variable { name, values }
    }
}

/// A function: a name, the expression that defines it, and the names of its
/// parameters.
#[derive(Debug, PartialEq)]
pub struct Function {
    pub name: String,
    pub ast: AST,
    pub inputs: Vec<String>,
}

pub struct FunctionView {
    pub name: Seq<char>,
    pub ast: AstView,
    pub inputs: Seq<Seq<char>>,
}

impl View for Function {
    type V = FunctionView;

    open spec fn view(&self) -> FunctionView {
        FunctionView { name: self.name@, ast: self.ast@, inputs: names_view(self.inputs@) }
    }
}

impl Clone for Function {
    fn clone(&self) -> (res: Function)
        ensures
            res@ == self@,
    {
        Function {
            name: self.name.clone(),
            ast: self.ast.clone(),
            inputs: clone_names(&self.inputs),
        }
    }
}

impl Function {
    pub fn new(name: String, ast: AST, inputs: Vec<String>) -> (res: Function)
        ensures
            res@ == (FunctionView { name: name@, ast: ast@, inputs: names_view(inputs@) }),
    {
        Function { name, ast, inputs }
    }
}

/// The views of a list of variables.
pub open spec fn variables_view(vars: Seq<Variable>) -> Seq<VariableView> {
    vars.map_values(|v: Variable| v@)
}

/// The views of a list of functions.
pub open spec fn functions_view(funs: Seq<Function>) -> Seq<FunctionView> {
    funs.map_values(|f: Function| f@)
}

/// A copy of a list of variables.
pub fn clone_variables(vars: &Vec<Variable>) -> (res: Vec<Variable>)
    ensures
        variables_view(res@) == variables_view(vars@),
{
    let mut res: Vec<Variable> = Vec::new();
    let mut i: usize = 0;
    while i < vars.len()
        invariant
            i <= vars.len(),
            res.len() == i,
            forall|k: int| 0 <= k < i ==> (#[trigger] res@[k])@ == vars@[k]@,
        decreases vars.len() - i,
    {
        res.push(vars[i].clone());
        i = i + 1;
    }
    assert(variables_view(res@) =~= variables_view(vars@));
    res
}

/// A copy of a list of functions.
pub fn clone_functions(funs: &Vec<Function>) -> (res: Vec<Function>)
    ensures
        functions_view(res@) == functions_view(funs@),
{
    let mut res: Vec<Function> = Vec::new();
    let mut i: usize = 0;
    while i < funs.len()
        invariant
            i <= funs.len(),
            res.len() == i,
            forall|k: int| 0 <= k < i ==> (#[trigger] res@[k])@ == funs@[k]@,
        decreases funs.len() - i,
    {
        res.push(funs[i].clone());
        i = i + 1;
    }
    assert(functions_view(res@) =~= functions_view(funs@));
    res
}

/// The variables and functions that an evaluation can see.
#[derive(Debug, PartialEq)]
pub struct Context {
    pub vars: Vec<Variable>,
    pub funs: Vec<Function>,
}

pub struct ContextView {
    pub vars: Seq<VariableView>,
    pub funs: Seq<FunctionView>,
}

impl View for Context {
    type V = ContextView;

    open spec fn view(&self) -> ContextView {
        ContextView { vars: variables_view(self.vars@), funs: functions_view(self.funs@) }
    }
}

impl Clone for Context {
    fn clone(&self) -> (res: Context)
        ensures
            res@ == self@,
    {
        Context { vars: clone_variables(&self.vars), funs: clone_functions(&self.funs) }
    }
}

/// The variables but those with the given name, in their order.
pub open spec fn without_variable(vars: Seq<VariableView>, name: Seq<char>) -> Seq<VariableView> {
    vars.filter(|v: VariableView| v.name != name)
}

/// The functions but those with the given name, in their order.
pub open spec fn without_function(funs: Seq<FunctionView>, name: Seq<char>) -> Seq<FunctionView> {
    funs.filter(|f: FunctionView| f.name != name)
}

/// The binary64 nearest to the number pi.
pub const PI_BITS: u64 = 0x400921FB54442D18;

/// The binary64 nearest to Euler's number.
pub const E_BITS: u64 = 0x4005BF0A8B145769;

impl ContextView {
    /// The context after a variable was added: the variable stands at the
    /// end, and no other variable has its name.
    pub open spec fn with_variable(self, var: VariableView) -> ContextView {
        ContextView { vars: without_variable(self.vars, var.name).push(var), funs: self.funs }
    }

    /// The context after a function was added: the function stands at the
    /// end, and no other function has its name.
    pub open spec fn with_function(self, fun: FunctionView) -> ContextView {
        ContextView { vars: self.vars, funs: without_function(self.funs, fun.name).push(fun) }
    }

    /// How many variables have the given name.
    pub open spec fn variables_named(self, name: Seq<char>) -> nat {
        self.vars.filter(|v: VariableView| v.name == name).len()
    }

    /// How many functions have the given name.
    pub open spec fn functions_named(self, name: Seq<char>) -> nat {
        self.funs.filter(|f: FunctionView| f.name == name).len()
    }
}

/// The variables of `vars` whose name is not `name`, in their order.
pub fn remove_named_variable(vars: &Vec<Variable>, name: &str) -> (res: Vec<Variable>)
    ensures
        variables_view(res@) == without_variable(variables_view(vars@), name@),
{
    let mut res: Vec<Variable> = Vec::new();
    let ghost keep = |v: VariableView| v.name != name@;
    let mut i: usize = 0;
    proof {
        assert(variables_view(vars@).take(0) =~= Seq::empty());
        assert(variables_view(res@) =~= Seq::empty());
    }
    while i < vars.len()
        invariant
            i <= vars.len(),
            keep == |v: VariableView| v.name != name@,
            variables_view(res@) == variables_view(vars@).take(i as int).filter(keep),
        decreases vars.len() - i,
    {
        let ghost done = variables_view(vars@).take(i as int);
        let ghost before = variables_view(res@);
        proof {
            assert(variables_view(vars@).take(i + 1) == done.push(vars@[i as int]@));
            done.lemma_filter_push(vars@[i as int]@, keep);
        }
        if !text_eq(vars[i].name.as_str(), name) {
            res.push(vars[i].clone());
            assert(variables_view(res@) =~= before.push(vars@[i as int]@));
        }
        i = i + 1;
    }
    assert(variables_view(vars@).take(vars.len() as int) == variables_view(vars@));
    res
}

/// The functions of `funs` whose name is not `name`, in their order.
pub fn remove_named_function(funs: &Vec<Function>, name: &str) -> (res: Vec<Function>)
    ensures
        functions_view(res@) == without_function(functions_view(funs@), name@),
{
    let mut res: Vec<Function> = Vec::new();
    let ghost keep = |f: FunctionView| f.name != name@;
    let mut i: usize = 0;
    proof {
        assert(functions_view(funs@).take(0) =~= Seq::empty());
        assert(functions_view(res@) =~= Seq::empty());
    }
    while i < funs.len()
        invariant
            i <= funs.len(),
            keep == |f: FunctionView| f.name != name@,
            functions_view(res@) == functions_view(funs@).take(i as int).filter(keep),
        decreases funs.len() - i,
    {
        let ghost done = functions_view(funs@).take(i as int);
        let ghost before = functions_view(res@);
        proof {
            assert(functions_view(funs@).take(i + 1) == done.push(funs@[i as int]@));
            done.lemma_filter_push(funs@[i as int]@, keep);
        }
        if !text_eq(funs[i].name.as_str(), name) {
            res.push(funs[i].clone());
            assert(functions_view(res@) =~= before.push(funs@[i as int]@));
        }
        i = i + 1;
    }
    assert(functions_view(funs@).take(funs.len() as int) == functions_view(funs@));
    res
}

impl Context {
    /// The context with the variables `pi` and `e` and no functions.
    pub fn default() -> (res: Context)
        ensures
            res@.funs.len() == 0,
            res@.vars == seq![
                VariableView { name: "pi"@, values: seq![ValueView::Scalar(PI_BITS)] },
                VariableView { name: "e"@, values: seq![ValueView::Scalar(E_BITS)] },
            ],
    {
        let mut pi_values: Vec<Value> = Vec::new();
        pi_values.push(Value::Scalar(PI_BITS));
        let mut e_values: Vec<Value> = Vec::new();
        e_values.push(Value::Scalar(E_BITS));
        let mut vars: Vec<Variable> = Vec::new();
        vars.push(Variable::new(String::from_str("pi"), pi_values));
        vars.push(Variable::new(String::from_str("e"), e_values));
        let res = Context { vars, funs: Vec::new() };
        proof {
            assert(res@.vars[0].values =~= seq![ValueView::Scalar(PI_BITS)]);
            assert(res@.vars[1].values =~= seq![ValueView::Scalar(E_BITS)]);
            assert(res@.vars =~= seq![
                VariableView { name: "pi"@, values: seq![ValueView::Scalar(PI_BITS)] },
                VariableView { name: "e"@, values: seq![ValueView::Scalar(E_BITS)] },
            ]);
        }
        res
    }

    pub fn new(vars: Vec<Variable>, funs: Vec<Function>) -> (res: Context)
        ensures
            res@ == (ContextView {
                vars: variables_view(vars@),
                funs: functions_view(funs@),
            }),
    {
        Context { vars, funs }
    }

    pub fn empty() -> (res: Context)
        ensures
            res@.vars.len() == 0,
            res@.funs.len() == 0,
    {
        Context { vars: Vec::new(), funs: Vec::new() }
    }

    pub fn from_vars(vars: Vec<Variable>) -> (res: Context)
        ensures
            res@.vars == variables_view(vars@),
            res@.funs.len() == 0,
    {
        Context { vars, funs: Vec::new() }
    }

    pub fn from_funs(funs: Vec<Function>) -> (res: Context)
        ensures
            res@.vars.len() == 0,
            res@.funs == functions_view(funs@),
    {
        Context { vars: Vec::new(), funs }
    }

    /// Adds a variable; it takes the place of the variables that had its
    /// name.
    pub fn add_var(&mut self, var: &Variable)
        ensures
            final(self)@ == old(self)@.with_variable(var@),
    {
        let mut vars = remove_named_variable(&self.vars, var.name.as_str());
        let ghost before = variables_view(vars@);
        vars.push(var.clone());
        assert(variables_view(vars@) =~= before.push(var@));
        self.vars = vars;
    }

    /// Adds a function; it takes the place of the functions that had its
    /// name.
    pub fn add_fun(&mut self, fun: &Function)
        ensures
            final(self)@ == old(self)@.with_function(fun@),
    {
        let mut funs = remove_named_function(&self.funs, fun.name.as_str());
        let ghost before = functions_view(funs@);
        funs.push(fun.clone());
        assert(functions_view(funs@) =~= before.push(fun@));
        self.funs = funs;
    }

    /// Removes the variables with the given name.
    pub fn remove_var(&mut self, var_name: &str)
        ensures
            final(self)@.vars == without_variable(old(self)@.vars, var_name@),
            final(self)@.funs == old(self)@.funs,
    {
        self.vars = remove_named_variable(&self.vars, var_name);
    }

    /// Removes the functions with the given name.
    pub fn remove_fun(&mut self, fun_name: &str)
        ensures
            final(self)@.funs == without_function(old(self)@.funs, fun_name@),
            final(self)@.vars == old(self)@.vars,
    {
        self.funs = remove_named_function(&self.funs, fun_name);
    }
}

/// Whether two texts are the same.
pub fn text_eq(a: &str, b: &str) -> (same: bool)
    ensures
        same == (a@ == b@),
{
    let x = a.to_owned();
    let y = b.to_owned();
    x == y
}

/// A variable that was added is in the context once, whatever the context
/// held before, and it is the last variable.
pub proof fn law_added_variable_is_unique(context: ContextView, var: VariableView)
    ensures
        context.with_variable(var).variables_named(var.name) == 1,
        context.with_variable(var).vars.last() == var,
        context.with_variable(var).funs == context.funs,
{
    let kept = without_variable(context.vars, var.name);
    let same = |v: VariableView| v.name == var.name;
    lemma_none_left(context.vars, var.name);
    kept.lemma_filter_push(var, same);
}

/// A function that was added is in the context once, whatever the context
/// held before, and it is the last function.
pub proof fn law_added_function_is_unique(context: ContextView, fun: FunctionView)
    ensures
        context.with_function(fun).functions_named(fun.name) == 1,
        context.with_function(fun).funs.last() == fun,
        context.with_function(fun).vars == context.vars,
{
    let kept = without_function(context.funs, fun.name);
    let same = |f: FunctionView| f.name == fun.name;
    lemma_none_left_function(context.funs, fun.name);
    kept.lemma_filter_push(fun, same);
}

/// To add a variable a second time changes nothing.
pub proof fn law_adding_variable_twice(context: ContextView, var: VariableView)
    ensures
        context.with_variable(var).with_variable(var) == context.with_variable(var),
{
    let kept = without_variable(context.vars, var.name);
    let keep = |v: VariableView| v.name != var.name;
    kept.lemma_filter_push(var, keep);
    lemma_filter_twice(context.vars, keep);
    assert(without_variable(kept.push(var), var.name) == kept);
}

/// To add a function a second time changes nothing.
pub proof fn law_adding_function_twice(context: ContextView, fun: FunctionView)
    ensures
        context.with_function(fun).with_function(fun) == context.with_function(fun),
{
    let kept = without_function(context.funs, fun.name);
    let keep = |f: FunctionView| f.name != fun.name;
    kept.lemma_filter_push(fun, keep);
    lemma_filter_twice(context.funs, keep);
    assert(without_function(kept.push(fun), fun.name) == kept);
}

/// The variables of another name are kept when a variable is added, in their
/// order.
pub proof fn law_other_variables_stay(context: ContextView, var: VariableView, name: Seq<char>)
    requires
        name != var.name,
    ensures
        context.with_variable(var).vars.filter(|v: VariableView| v.name == name)
            == context.vars.filter(|v: VariableView| v.name == name),
{
    let keep = |v: VariableView| v.name != var.name;
    let named = |v: VariableView| v.name == name;
    let kept = context.vars.filter(keep);
    kept.lemma_filter_push(var, named);
    lemma_filter_within(context.vars, keep, named);
}

/// What passes a filter passes it again.
pub proof fn lemma_filter_twice<A>(s: Seq<A>, keep: spec_fn(A) -> bool)
    ensures
        s.filter(keep).filter(keep) == s.filter(keep),
    decreases s.len(),
{
    reveal(Seq::filter);
    if s.len() > 0 {
        lemma_filter_twice(s.drop_last(), keep);
        if keep(s.last()) {
            s.drop_last().filter(keep).lemma_filter_push(s.last(), keep);
        }
    }
}

/// A filter behind a wider filter is the filter alone.
pub proof fn lemma_filter_within<A>(s: Seq<A>, wide: spec_fn(A) -> bool, narrow: spec_fn(A) -> bool)
    requires
        forall|a: A| #[trigger] narrow(a) ==> wide(a),
    ensures
        s.filter(wide).filter(narrow) == s.filter(narrow),
    decreases s.len(),
{
    reveal(Seq::filter);
    if s.len() > 0 {
        lemma_filter_within(s.drop_last(), wide, narrow);
        if wide(s.last()) {
            s.drop_last().filter(wide).lemma_filter_push(s.last(), narrow);
        }
    }
}

/// After the variables of a name are taken out, none has that name.
pub proof fn lemma_none_left(vars: Seq<VariableView>, name: Seq<char>)
    ensures
        without_variable(vars, name).filter(|v: VariableView| v.name == name).len() == 0,
    decreases vars.len(),
{
    reveal(Seq::filter);
    let keep = |v: VariableView| v.name != name;
    let same = |v: VariableView| v.name == name;
    if vars.len() > 0 {
        lemma_none_left(vars.drop_last(), name);
        if keep(vars.last()) {
            vars.drop_last().filter(keep).lemma_filter_push(vars.last(), same);
        }
    }
}

/// After the functions of a name are taken out, none has that name.
pub proof fn lemma_none_left_function(funs: Seq<FunctionView>, name: Seq<char>)
    ensures
        without_function(funs, name).filter(|f: FunctionView| f.name == name).len() == 0,
    decreases funs.len(),
{
    reveal(Seq::filter);
    let keep = |f: FunctionView| f.name != name;
    let same = |f: FunctionView| f.name == name;
    if funs.len() > 0 {
        lemma_none_left_function(funs.drop_last(), name);
        if keep(funs.last()) {
            funs.drop_last().filter(keep).lemma_filter_push(funs.last(), same);
        }
    }
}

} // verus!
