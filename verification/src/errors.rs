//! The errors of the library and the sentences that explain them.

use vstd::prelude::*;
use vstd::std_specs::convert::FromSpecImpl;
use vstd::string::StringExecFns;

verus! {

/// The decimal numeral of a natural number, without leading zeros.
pub open spec fn decimal_text(n: nat) -> Seq<char>
    decreases n,
{
    if n < 10 {
        seq![digit_char(n)]
    } else {
        decimal_text(n / 10).push(digit_char(n % 10))
    }
}

/// The character of a digit value below ten.
pub open spec fn digit_char(d: nat) -> char {
    if d == 0 {
        '0'
    } else if d == 1 {
        '1'
    } else if d == 2 {
        '2'
    } else if d == 3 {
        '3'
    } else if d == 4 {
        '4'
    } else if d == 5 {
        '5'
    } else if d == 6 {
        '6'
    } else if d == 7 {
        '7'
    } else if d == 8 {
        '8'
    } else {
        '9'
    }
}

fn digit_of(d: u64) -> (c: char)
    requires
        d < 10,
    ensures
        c == digit_char(d as nat),
{
    if d == 0 {
        '0'
    } else if d == 1 {
        '1'
    } else if d == 2 {
        '2'
    } else if d == 3 {
        '3'
    } else if d == 4 {
        '4'
    } else if d == 5 {
        '5'
    } else if d == 6 {
        '6'
    } else if d == 7 {
        '7'
    } else if d == 8 {
        '8'
    } else {
        '9'
    }
}

/// The decimal numeral of `n`.
pub fn decimal(n: u64) -> (s: String)
    ensures
        s@ == decimal_text(n as nat),
    decreases n,
{
    if n < 10 {
        let mut s = String::new();
        crate::text::push_char(&mut s, digit_of(n));
        assert(s@ =~= seq![digit_char(n as nat)]);
        s
    } else {
        let mut s = decimal(n / 10);
        crate::text::push_char(&mut s, digit_of(n % 10));
        s
    }
}

/// The numeral of an integer.
pub open spec fn integer_text(n: int) -> Seq<char> {
    if n < 0 {
        seq!['-'] + decimal_text((-n) as nat)
    } else {
        decimal_text(n as nat)
    }
}

/// The numeral of `n`.
pub fn integer(n: i64) -> (res: String)
    ensures
        res@ == integer_text(n as int),
{
    if n < 0 {
        let magnitude: u64 = ((-(n + 1)) as u64) + 1;
        let digits = decimal(magnitude);
        let mut res = String::new();
        crate::text::push_char(&mut res, '-');
        assert(res@ =~= seq!['-']);
        res.append(digits.as_str());
        res
    } else {
        decimal(n as u64)
    }
}

/// Why a text is no expression.
#[derive(Debug, PartialEq)]
pub enum ParserError {
    ParseValue(String),
    MissingBracket,
    EmptyVec,
    NotRectMatrix,
    EmptyExpr,
    UnmatchedOpenDelimiter,
    UnmatchedCloseDelimiter,
    EquationWithoutEqual,
    TooManyEquals,
    NoEquation,
    InvalidVariableName(String),
    InvalidFunctionName(String),
    WrongNumberOfArgs(String),
}

pub enum ParserErrorView {
    ParseValue(Seq<char>),
    MissingBracket,
    EmptyVec,
    NotRectMatrix,
    EmptyExpr,
    UnmatchedOpenDelimiter,
    UnmatchedCloseDelimiter,
    EquationWithoutEqual,
    TooManyEquals,
    NoEquation,
    InvalidVariableName(Seq<char>),
    InvalidFunctionName(Seq<char>),
    WrongNumberOfArgs(Seq<char>),
}

impl View for ParserError {
    type V = ParserErrorView;

    open spec fn view(&self) -> ParserErrorView {
        match self {
            ParserError::ParseValue(s) => ParserErrorView::ParseValue(s@),
            ParserError::MissingBracket => ParserErrorView::MissingBracket,
            ParserError::EmptyVec => ParserErrorView::EmptyVec,
            ParserError::NotRectMatrix => ParserErrorView::NotRectMatrix,
            ParserError::EmptyExpr => ParserErrorView::EmptyExpr,
            ParserError::UnmatchedOpenDelimiter => ParserErrorView::UnmatchedOpenDelimiter,
            ParserError::UnmatchedCloseDelimiter => ParserErrorView::UnmatchedCloseDelimiter,
            ParserError::EquationWithoutEqual => ParserErrorView::EquationWithoutEqual,
            ParserError::TooManyEquals => ParserErrorView::TooManyEquals,
            ParserError::NoEquation => ParserErrorView::NoEquation,
            ParserError::InvalidVariableName(s) => ParserErrorView::InvalidVariableName(s@),
            ParserError::InvalidFunctionName(s) => ParserErrorView::InvalidFunctionName(s@),
            ParserError::WrongNumberOfArgs(s) => ParserErrorView::WrongNumberOfArgs(s@),
        }
    }
}

impl ParserErrorView {
    /// The sentence that explains the error.
    pub open spec fn reason(self) -> Seq<char> {
        match self {
            ParserErrorView::ParseValue(s) => "Could not parse value "@ + s + "!"@,
            ParserErrorView::MissingBracket => "Could not parse vector/matrix because of missing brackets!"@,
            ParserErrorView::EmptyVec => "Could not parse vector/matrix because it is (partially) empty!"@,
            ParserErrorView::NotRectMatrix => "Could not parse matrix because it is not rectangular!"@,
            ParserErrorView::EmptyExpr => "Could not parse empty expression!"@,
            ParserErrorView::UnmatchedOpenDelimiter => "Unmatched opening delimiter!"@,
            ParserErrorView::UnmatchedCloseDelimiter => "Unmatched closing delimiter!"@,
            ParserErrorView::EquationWithoutEqual => "Must have = in equation!"@,
            ParserErrorView::TooManyEquals => "Too many = in equation. If you want to specify a system of equations please seperate each equation with a ','."@,
            ParserErrorView::NoEquation => "Equation does not contain an '='!"@,
            ParserErrorView::InvalidVariableName(s) => "Found invalid variable name: "@ + s + "!"@,
            ParserErrorView::InvalidFunctionName(s) => "Found invalid function name: "@ + s + "!"@,
            ParserErrorView::WrongNumberOfArgs(s) => "Wrong number of arguments for "@ + s
                + " operation!"@,
        }
    }
}

/// The text `before`, then `middle`, then `after`.
fn framed(before: &str, middle: &str, after: &str) -> (s: String)
    ensures
        s@ == before@ + middle@ + after@,
{
    let mut s = String::from_str(before);
    s.append(middle);
    s.append(after);
    s
}

impl ParserError {
    pub fn get_reason(&self) -> (reason: String)
        ensures
            reason@ == self@.reason(),
    {
        match self {
            ParserError::ParseValue(s) => framed("Could not parse value ", s.as_str(), "!"),
            ParserError::MissingBracket => String::from_str(
                "Could not parse vector/matrix because of missing brackets!",
            ),
            ParserError::EmptyVec => String::from_str(
                "Could not parse vector/matrix because it is (partially) empty!",
            ),
            ParserError::NotRectMatrix => String::from_str(
                "Could not parse matrix because it is not rectangular!",
            ),
            ParserError::EmptyExpr => String::from_str("Could not parse empty expression!"),
            ParserError::UnmatchedOpenDelimiter => String::from_str("Unmatched opening delimiter!"),
            ParserError::UnmatchedCloseDelimiter => String::from_str(
                "Unmatched closing delimiter!",
            ),
            ParserError::EquationWithoutEqual => String::from_str("Must have = in equation!"),
            ParserError::TooManyEquals => String::from_str(
                "Too many = in equation. If you want to specify a system of equations please seperate each equation with a ','.",
            ),
            ParserError::NoEquation => String::from_str("Equation does not contain an '='!"),
            ParserError::InvalidVariableName(s) => framed(
                "Found invalid variable name: ",
                s.as_str(),
                "!",
            ),
            ParserError::InvalidFunctionName(s) => framed(
                "Found invalid function name: ",
                s.as_str(),
                "!",
            ),
            ParserError::WrongNumberOfArgs(s) => framed(
                "Wrong number of arguments for ",
                s.as_str(),
                " operation!",
            ),
        }
    }
}

/// Why an expression has no value.
#[derive(Debug, PartialEq)]
pub enum EvalError {
    NonScalarInVector,
    NonScalarInMatrix,
    RecursiveFunction,
    VectorInEq,
    MatrixInEq,
    NothingToDoEq,
    UnderdeterminedSystem,
    InfiniteSolutions,
    NaNOrInf,
    ExpressionCheckFailed,
    SearchVarsInVars,
    NoVariable(String),
    NoFunction(String),
    /// The number of arguments expected, then the number given.
    WrongNumberOfArgs((usize, usize)),
    MathError(String),
}

pub enum EvalErrorView {
    NonScalarInVector,
    NonScalarInMatrix,
    RecursiveFunction,
    VectorInEq,
    MatrixInEq,
    NothingToDoEq,
    UnderdeterminedSystem,
    InfiniteSolutions,
    NaNOrInf,
    ExpressionCheckFailed,
    SearchVarsInVars,
    NoVariable(Seq<char>),
    NoFunction(Seq<char>),
    WrongNumberOfArgs(nat, nat),
    MathError(Seq<char>),
}

impl View for EvalError {
    type V = EvalErrorView;

    open spec fn view(&self) -> EvalErrorView {
        match self {
            EvalError::NonScalarInVector => EvalErrorView::NonScalarInVector,
            EvalError::NonScalarInMatrix => EvalErrorView::NonScalarInMatrix,
            EvalError::RecursiveFunction => EvalErrorView::RecursiveFunction,
            EvalError::VectorInEq => EvalErrorView::VectorInEq,
            EvalError::MatrixInEq => EvalErrorView::MatrixInEq,
            EvalError::NothingToDoEq => EvalErrorView::NothingToDoEq,
            EvalError::UnderdeterminedSystem => EvalErrorView::UnderdeterminedSystem,
            EvalError::InfiniteSolutions => EvalErrorView::InfiniteSolutions,
            EvalError::NaNOrInf => EvalErrorView::NaNOrInf,
            EvalError::ExpressionCheckFailed => EvalErrorView::ExpressionCheckFailed,
            EvalError::SearchVarsInVars => EvalErrorView::SearchVarsInVars,
            EvalError::NoVariable(s) => EvalErrorView::NoVariable(s@),
            EvalError::NoFunction(s) => EvalErrorView::NoFunction(s@),
            EvalError::WrongNumberOfArgs(counts) => EvalErrorView::WrongNumberOfArgs(
                counts.0 as nat,
                counts.1 as nat,
            ),
            EvalError::MathError(s) => EvalErrorView::MathError(s@),
        }
    }
}

impl EvalErrorView {
    /// The sentence that explains the error.
    pub open spec fn reason(self) -> Seq<char> {
        match self {
            EvalErrorView::RecursiveFunction => "Can't call a recursive function!"@,
            EvalErrorView::NonScalarInVector => "Vectors can only contain scalars!"@,
            EvalErrorView::NonScalarInMatrix => "Matrices can only contain scalars!"@,
            EvalErrorView::VectorInEq => "Can't have vectors in equations! Please convert your equation into a system of equations!"@,
            EvalErrorView::MatrixInEq => "Can't have matrices in equations!"@,
            EvalErrorView::NothingToDoEq => "Nothing to do!"@,
            EvalErrorView::UnderdeterminedSystem => "Underdetermined system of equations!"@,
            EvalErrorView::InfiniteSolutions => "Infinite Solutions!"@,
            EvalErrorView::NaNOrInf => "NaN or Inf"@,
            EvalErrorView::ExpressionCheckFailed => "Expression Check Failed!"@,
            EvalErrorView::SearchVarsInVars => "The given solve variables already exist in the context!"@,
            EvalErrorView::NoVariable(s) => "Could not find variable "@ + s + "!"@,
            EvalErrorView::NoFunction(s) => "Could not find function "@ + s + "!"@,
            EvalErrorView::WrongNumberOfArgs(expected, given) => "Wrong number of arguments! Expected "@
                + decimal_text(expected) + " arguments, "@ + decimal_text(given)
                + " were given!"@,
            EvalErrorView::MathError(s) => s,
        }
    }
}

impl EvalError {
    pub fn get_reason(&self) -> (reason: String)
        ensures
            reason@ == self@.reason(),
    {
        match self {
            EvalError::RecursiveFunction => String::from_str("Can't call a recursive function!"),
            EvalError::NonScalarInVector => String::from_str("Vectors can only contain scalars!"),
            EvalError::NonScalarInMatrix => String::from_str("Matrices can only contain scalars!"),
            EvalError::VectorInEq => String::from_str(
                "Can't have vectors in equations! Please convert your equation into a system of equations!",
            ),
            EvalError::MatrixInEq => String::from_str("Can't have matrices in equations!"),
            EvalError::NothingToDoEq => String::from_str("Nothing to do!"),
            EvalError::UnderdeterminedSystem => String::from_str(
                "Underdetermined system of equations!",
            ),
            EvalError::InfiniteSolutions => String::from_str("Infinite Solutions!"),
            EvalError::NaNOrInf => String::from_str("NaN or Inf"),
            EvalError::ExpressionCheckFailed => String::from_str("Expression Check Failed!"),
            EvalError::SearchVarsInVars => String::from_str(
                "The given solve variables already exist in the context!",
            ),
            EvalError::NoVariable(s) => framed("Could not find variable ", s.as_str(), "!"),
            EvalError::NoFunction(s) => framed("Could not find function ", s.as_str(), "!"),
            EvalError::WrongNumberOfArgs(counts) => {
                let expected = decimal(counts.0 as u64);
                let given = decimal(counts.1 as u64);
                let mut s = String::from_str("Wrong number of arguments! Expected ");
                s.append(expected.as_str());
                s.append(" arguments, ");
                s.append(given.as_str());
                s.append(" were given!");
                s
            },
            EvalError::MathError(s) => s.clone(),
        }
    }
}

impl From<String> for EvalError {
    fn from(value: String) -> (e: EvalError) {
        EvalError::MathError(value)
    }
}

impl FromSpecImpl<String> for EvalError {
    open spec fn obeys_from_spec() -> bool {
        true
    }

    open spec fn from_spec(value: String) -> EvalError {
        EvalError::MathError(value)
    }
}

/// Why a text could not be evaluated in one go.
#[derive(Debug, PartialEq)]
pub enum QuickEvalError {
    DuplicateVars,
    ParserError(ParserError),
    EvalError(EvalError),
}

pub enum QuickEvalErrorView {
    DuplicateVars,
    ParserError(ParserErrorView),
    EvalError(EvalErrorView),
}

impl View for QuickEvalError {
    type V = QuickEvalErrorView;

    open spec fn view(&self) -> QuickEvalErrorView {
        match self {
            QuickEvalError::DuplicateVars => QuickEvalErrorView::DuplicateVars,
            QuickEvalError::ParserError(e) => QuickEvalErrorView::ParserError(e@),
            QuickEvalError::EvalError(e) => QuickEvalErrorView::EvalError(e@),
        }
    }
}

impl QuickEvalErrorView {
    /// The sentence that explains the error.
    pub open spec fn reason(self) -> Seq<char> {
        match self {
            QuickEvalErrorView::DuplicateVars => "Can't specify e and pi twice!"@,
            QuickEvalErrorView::EvalError(e) => e.reason(),
            QuickEvalErrorView::ParserError(e) => e.reason(),
        }
    }
}

impl QuickEvalError {
    pub fn get_reason(&self) -> (reason: String)
        ensures
            reason@ == self@.reason(),
    {
        match self {
            QuickEvalError::DuplicateVars => String::from_str("Can't specify e and pi twice!"),
            QuickEvalError::EvalError(e) => e.get_reason(),
            QuickEvalError::ParserError(e) => e.get_reason(),
        }
    }
}

impl From<EvalError> for QuickEvalError {
    fn from(value: EvalError) -> (e: QuickEvalError) {
        QuickEvalError::EvalError(value)
    }
}

impl FromSpecImpl<EvalError> for QuickEvalError {
    open spec fn obeys_from_spec() -> bool {
        true
    }

    open spec fn from_spec(value: EvalError) -> QuickEvalError {
        QuickEvalError::EvalError(value)
    }
}

impl From<ParserError> for QuickEvalError {
    fn from(value: ParserError) -> (e: QuickEvalError) {
        QuickEvalError::ParserError(value)
    }
}

impl FromSpecImpl<ParserError> for QuickEvalError {
    open spec fn obeys_from_spec() -> bool {
        true
    }

    open spec fn from_spec(value: ParserError) -> QuickEvalError {
        QuickEvalError::ParserError(value)
    }
}

/// Why a rendering of LaTeX was not made.
#[derive(Debug, PartialEq)]
pub enum LatexError {
    LatexToPdfError(String),
    LatexToImageError(String),
    LatexToSvgError(String),
}

pub enum LatexErrorView {
    LatexToPdfError(Seq<char>),
    LatexToImageError(Seq<char>),
    LatexToSvgError(Seq<char>),
}

impl View for LatexError {
    type V = LatexErrorView;

    open spec fn view(&self) -> LatexErrorView {
        match self {
            LatexError::LatexToPdfError(s) => LatexErrorView::LatexToPdfError(s@),
            LatexError::LatexToImageError(s) => LatexErrorView::LatexToImageError(s@),
            LatexError::LatexToSvgError(s) => LatexErrorView::LatexToSvgError(s@),
        }
    }
}

impl LatexErrorView {
    /// The sentence that explains the error.
    pub open spec fn reason(self) -> Seq<char> {
        match self {
            LatexErrorView::LatexToPdfError(s) => "Could not convert Latex to PDF: "@ + s + "!"@,
            LatexErrorView::LatexToImageError(s) => "Could not convert Latex to Image: "@ + s
                + "!"@,
            LatexErrorView::LatexToSvgError(s) => "Could not convert Latex to SVG: "@ + s + "!"@,
        }
    }
}

impl LatexError {
    pub fn get_reason(&self) -> (reason: String)
        ensures
            reason@ == self@.reason(),
    {
        match self {
            LatexError::LatexToPdfError(s) => framed(
                "Could not convert Latex to PDF: ",
                s.as_str(),
                "!",
            ),
            LatexError::LatexToImageError(s) => framed(
                "Could not convert Latex to Image: ",
                s.as_str(),
                "!",
            ),
            LatexError::LatexToSvgError(s) => framed(
                "Could not convert Latex to SVG: ",
                s.as_str(),
                "!",
            ),
        }
    }
}

/// Any error of the library, for callers that want a single error type.
#[derive(Debug, PartialEq)]
pub enum MathLibError {
    ParserError(ParserError),
    EvalError(EvalError),
    QuickEvalError(QuickEvalError),
    LatexError(LatexError),
    Other(String),
}

pub enum MathLibErrorView {
    ParserError(ParserErrorView),
    EvalError(EvalErrorView),
    QuickEvalError(QuickEvalErrorView),
    LatexError(LatexErrorView),
    Other(Seq<char>),
}

impl View for MathLibError {
    type V = MathLibErrorView;

    open spec fn view(&self) -> MathLibErrorView {
        match self {
            MathLibError::ParserError(e) => MathLibErrorView::ParserError(e@),
            MathLibError::EvalError(e) => MathLibErrorView::EvalError(e@),
            MathLibError::QuickEvalError(e) => MathLibErrorView::QuickEvalError(e@),
            MathLibError::LatexError(e) => MathLibErrorView::LatexError(e@),
            MathLibError::Other(s) => MathLibErrorView::Other(s@),
        }
    }
}

impl MathLibErrorView {
    /// The sentence that explains the error.
    pub open spec fn reason(self) -> Seq<char> {
        match self {
            MathLibErrorView::ParserError(e) => e.reason(),
            MathLibErrorView::EvalError(e) => e.reason(),
            MathLibErrorView::QuickEvalError(e) => e.reason(),
            MathLibErrorView::LatexError(e) => e.reason(),
            MathLibErrorView::Other(s) => s,
        }
    }
}

impl MathLibError {
    pub fn get_reason(&self) -> (reason: String)
        ensures
            reason@ == self@.reason(),
    {
        match self {
            MathLibError::ParserError(e) => e.get_reason(),
            MathLibError::EvalError(e) => e.get_reason(),
            MathLibError::QuickEvalError(e) => e.get_reason(),
            MathLibError::LatexError(e) => e.get_reason(),
            MathLibError::Other(s) => s.clone(),
        }
    }
}

impl From<ParserError> for MathLibError {
    fn from(value: ParserError) -> (e: MathLibError) {
        MathLibError::ParserError(value)
    }
}

impl FromSpecImpl<ParserError> for MathLibError {
    open spec fn obeys_from_spec() -> bool {
        true
    }

    open spec fn from_spec(value: ParserError) -> MathLibError {
        MathLibError::ParserError(value)
    }
}

impl From<EvalError> for MathLibError {
    fn from(value: EvalError) -> (e: MathLibError) {
        MathLibError::EvalError(value)
    }
}

impl FromSpecImpl<EvalError> for MathLibError {
    open spec fn obeys_from_spec() -> bool {
        true
    }

    open spec fn from_spec(value: EvalError) -> MathLibError {
        MathLibError::EvalError(value)
    }
}

impl From<QuickEvalError> for MathLibError {
    fn from(value: QuickEvalError) -> (e: MathLibError) {
        MathLibError::QuickEvalError(value)
    }
}

impl FromSpecImpl<QuickEvalError> for MathLibError {
    open spec fn obeys_from_spec() -> bool {
        true
    }

    open spec fn from_spec(value: QuickEvalError) -> MathLibError {
        MathLibError::QuickEvalError(value)
    }
}

impl From<LatexError> for MathLibError {
    fn from(value: LatexError) -> (e: MathLibError) {
        MathLibError::LatexError(value)
    }
}

impl FromSpecImpl<LatexError> for MathLibError {
    open spec fn obeys_from_spec() -> bool {
        true
    }

    open spec fn from_spec(value: LatexError) -> MathLibError {
        MathLibError::LatexError(value)
    }
}

impl Clone for ParserError {
    fn clone(&self) -> (res: ParserError)
        ensures
            res == *self,
    {
        match self {
            ParserError::ParseValue(s) => ParserError::ParseValue(s.clone()),
            ParserError::MissingBracket => ParserError::MissingBracket,
            ParserError::EmptyVec => ParserError::EmptyVec,
            ParserError::NotRectMatrix => ParserError::NotRectMatrix,
            ParserError::EmptyExpr => ParserError::EmptyExpr,
            ParserError::UnmatchedOpenDelimiter => ParserError::UnmatchedOpenDelimiter,
            ParserError::UnmatchedCloseDelimiter => ParserError::UnmatchedCloseDelimiter,
            ParserError::EquationWithoutEqual => ParserError::EquationWithoutEqual,
            ParserError::TooManyEquals => ParserError::TooManyEquals,
            ParserError::NoEquation => ParserError::NoEquation,
            ParserError::InvalidVariableName(s) => ParserError::InvalidVariableName(s.clone()),
            ParserError::InvalidFunctionName(s) => ParserError::InvalidFunctionName(s.clone()),
            ParserError::WrongNumberOfArgs(s) => ParserError::WrongNumberOfArgs(s.clone()),
        }
    }
}

impl Clone for EvalError {
    fn clone(&self) -> (res: EvalError)
        ensures
            res == *self,
    {
        match self {
            EvalError::NonScalarInVector => EvalError::NonScalarInVector,
            EvalError::NonScalarInMatrix => EvalError::NonScalarInMatrix,
            EvalError::RecursiveFunction => EvalError::RecursiveFunction,
            EvalError::VectorInEq => EvalError::VectorInEq,
            EvalError::MatrixInEq => EvalError::MatrixInEq,
            EvalError::NothingToDoEq => EvalError::NothingToDoEq,
            EvalError::UnderdeterminedSystem => EvalError::UnderdeterminedSystem,
            EvalError::InfiniteSolutions => EvalError::InfiniteSolutions,
            EvalError::NaNOrInf => EvalError::NaNOrInf,
            EvalError::ExpressionCheckFailed => EvalError::ExpressionCheckFailed,
            EvalError::SearchVarsInVars => EvalError::SearchVarsInVars,
            EvalError::NoVariable(s) => EvalError::NoVariable(s.clone()),
            EvalError::NoFunction(s) => EvalError::NoFunction(s.clone()),
            EvalError::WrongNumberOfArgs(counts) => EvalError::WrongNumberOfArgs(
                (counts.0, counts.1),
            ),
            EvalError::MathError(s) => EvalError::MathError(s.clone()),
        }
    }
}

impl Clone for QuickEvalError {
    fn clone(&self) -> (res: QuickEvalError)
        ensures
            res == *self,
    {
        match self {
            QuickEvalError::DuplicateVars => QuickEvalError::DuplicateVars,
            QuickEvalError::ParserError(e) => QuickEvalError::ParserError(e.clone()),
            QuickEvalError::EvalError(e) => QuickEvalError::EvalError(e.clone()),
        }
    }
}

impl Clone for LatexError {
    fn clone(&self) -> (res: LatexError)
        ensures
            res == *self,
    {
        match self {
            LatexError::LatexToPdfError(s) => LatexError::LatexToPdfError(s.clone()),
            LatexError::LatexToImageError(s) => LatexError::LatexToImageError(s.clone()),
            LatexError::LatexToSvgError(s) => LatexError::LatexToSvgError(s.clone()),
        }
    }
}

impl Clone for MathLibError {
    fn clone(&self) -> (res: MathLibError)
        ensures
            res == *self,
    {
        match self {
            MathLibError::ParserError(e) => MathLibError::ParserError(e.clone()),
            MathLibError::EvalError(e) => MathLibError::EvalError(e.clone()),
            MathLibError::QuickEvalError(e) => MathLibError::QuickEvalError(e.clone()),
            MathLibError::LatexError(e) => MathLibError::LatexError(e.clone()),
            MathLibError::Other(s) => MathLibError::Other(s.clone()),
        }
    }
}

} // verus!
