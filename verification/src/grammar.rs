//! The grammar of expressions, as mathematics: which syntax tree a text
//! stands for, or why it stands for none.
//!
//! A text is read without a separate pass that cuts it into tokens. At every
//! level the text is split at the operator that binds most loosely, and both
//! sides are read in the same way; a text without an operator outside brackets
//! is a call of a function, a name, a list or a literal.

use crate::basetypes::{placeholder, AstView, SimpleOpType};
use crate::errors::ParserErrorView;
use crate::helpers::{depth, split_args, top_level};
use crate::text::{digit, name_start, numeric, utf8_len, without_whitespace};
use vstd::prelude::*;

verus! {

pub type Parsed = Result<AstView, ParserErrorView>;

/// The operator that a character writes.
pub open spec fn op_symbol(c: char) -> Option<SimpleOpType> {
    if c == '?' {
        Some(SimpleOpType::Get)
    } else if c == '+' {
        Some(SimpleOpType::Add)
    } else if c == '-' {
        Some(SimpleOpType::Sub)
    } else if c == '&' {
        Some(SimpleOpType::AddSub)
    } else if c == '*' {
        Some(SimpleOpType::Mult)
    } else if c == '/' {
        Some(SimpleOpType::Div)
    } else if c == '^' {
        Some(SimpleOpType::Pow)
    } else if c == '#' {
        Some(SimpleOpType::Cross)
    } else {
        None
    }
}

/// The first position at or after `from` that holds `c`, or the length of the
/// text if there is none.
pub open spec fn find(s: Seq<char>, c: char, from: int) -> int
    decreases s.len() - from,
{
    if from < 0 || from >= s.len() {
        s.len() as int
    } else if s[from] == c {
        from
    } else {
        find(s, c, from + 1)
    }
}

/// `s` begins with `prefix`.
pub open spec fn starts_with(s: Seq<char>, prefix: Seq<char>) -> bool {
    prefix.len() <= s.len() && s.subrange(0, prefix.len() as int) == prefix
}

// Names

/// A character that may stand in a name only inside curly brackets.
pub open spec fn reserved(c: char) -> bool {
    op_symbol(c) is Some || c == '='
}

/// The character before position `i` of a name; before the first character
/// stands the escape marker.
pub open spec fn previous(s: Seq<char>, i: int) -> char {
    if 0 < i <= s.len() {
        s[i - 1]
    } else {
        '\\'
    }
}

/// The character at position `i` may stand where it stands in a name: an
/// operator character or `=` only inside curly brackets, a digit only inside
/// curly brackets or directly behind `_`. The bracket that a position holds
/// already counts for that position.
pub open spec fn name_char_ok(s: Seq<char>, i: int) -> bool {
    let inside = depth(s, '{', '}', i + 1) != 0;
    &&& reserved(s[i]) ==> inside
    &&& numeric(s[i]) ==> inside || previous(s, i) == '_'
}

/// The text is a name of a variable or a function.
pub open spec fn valid_name(s: Seq<char>) -> bool {
    &&& s.len() > 0
    &&& name_start(s[0])
    &&& forall|i: int| 0 <= i < s.len() ==> name_char_ok(s, i)
}

// Numerals

pub open spec fn sign(c: char) -> bool {
    c == '+' || c == '-'
}

/// The position behind the digits that start at `from`.
pub open spec fn digits_end(s: Seq<char>, from: int) -> int
    decreases s.len() - from,
{
    if from < 0 || from >= s.len() || !digit(s[from]) {
        from
    } else {
        digits_end(s, from + 1)
    }
}

/// `c` is the lower-case ASCII letter `letter` or its upper-case form, or the
/// two are the same character.
pub open spec fn same_letter(c: char, letter: char) -> bool {
    c == letter || ('a' <= letter <= 'z' && (c as u32) + 32 == (letter as u32))
}

/// `s` is the lower-case `word`, but for the case of its ASCII letters.
pub open spec fn spells(s: Seq<char>, word: Seq<char>) -> bool {
    s.len() == word.len() && forall|i: int| 0 <= i < s.len() ==> same_letter(s[i], word[i])
}

/// From position `from` on, `s` is a decimal number: digits with at most one
/// point among them and at least one digit, then possibly `e` or `E`, a sign
/// if wanted, and at least one digit.
pub open spec fn decimal_from(s: Seq<char>, from: int) -> bool {
    let whole_end = digits_end(s, from);
    let has_point = whole_end < s.len() && s[whole_end] == '.';
    let mantissa_end = if has_point {
        digits_end(s, whole_end + 1)
    } else {
        whole_end
    };
    let digits = if has_point {
        mantissa_end - from - 1
    } else {
        mantissa_end - from
    };
    &&& digits >= 1
    &&& mantissa_end == s.len() || {
        let exponent = if mantissa_end + 1 < s.len() && sign(s[mantissa_end + 1]) {
            mantissa_end + 2
        } else {
            mantissa_end + 1
        };
        &&& s[mantissa_end] == 'e' || s[mantissa_end] == 'E'
        &&& exponent < s.len()
        &&& digits_end(s, exponent) == s.len()
    }
}

/// The text is a numeral: what the standard library reads as a binary64. A
/// sign may stand in front; behind it stands a decimal number or one of the
/// words `inf`, `infinity` and `nan` in any case.
pub open spec fn is_numeral(s: Seq<char>) -> bool {
    let from: int = if s.len() > 0 && sign(s[0]) {
        1
    } else {
        0
    };
    let body = s.subrange(from, s.len() as int);
    ||| spells(body, seq!['i', 'n', 'f'])
    ||| spells(body, seq!['i', 'n', 'f', 'i', 'n', 'i', 't', 'y'])
    ||| spells(body, seq!['n', 'a', 'n'])
    ||| decimal_from(s, from)
}

// Operators

/// The operators at which a text is split, those that bind most loosely
/// first.
pub open spec fn priority() -> Seq<SimpleOpType> {
    seq![
        SimpleOpType::Add,
        SimpleOpType::Sub,
        SimpleOpType::AddSub,
        SimpleOpType::Mult,
        SimpleOpType::Neg,
        SimpleOpType::Div,
        SimpleOpType::Cross,
        SimpleOpType::HiddenMult,
        SimpleOpType::Pow,
        SimpleOpType::Get,
    ]
}

/// A multiplication is understood between positions `i - 1` and `i`: a digit
/// is followed by the start of a name or by an opening bracket, or `)` by `(`.
/// Behind a one-character subscript nothing is understood.
pub open spec fn hidden_mult_at(s: Seq<char>, i: int) -> bool {
    &&& 1 <= i < s.len()
    &&& {
        ||| digit(s[i - 1]) && (name_start(s[i]) || s[i] == '(' || s[i] == '[')
        ||| s[i - 1] == ')' && s[i] == '('
    }
    &&& !(i >= 3 && s[i - 2] == '_')
}

/// The operator written at position `i`, if one is written there outside all
/// brackets and before the last character. A `-` at the very start negates.
pub open spec fn symbol_at(s: Seq<char>, i: int) -> Option<SimpleOpType> {
    if 0 <= i < s.len() - 1 && top_level(s, i) {
        match op_symbol(s[i]) {
            Some(op) => if i == 0 && op == SimpleOpType::Sub {
                Some(SimpleOpType::Neg)
            } else {
                Some(op)
            },
            None => None,
        }
    } else {
        None
    }
}

/// The text can be split at position `i` with the operator `op`.
pub open spec fn occurs(s: Seq<char>, op: SimpleOpType, i: int) -> bool {
    &&& 0 <= i < s.len()
    &&& {
        ||| op == SimpleOpType::HiddenMult && top_level(s, i) && hidden_mult_at(s, i)
        ||| symbol_at(s, i) == Some(op)
    }
}

/// The first position at or after `from` where `op` occurs, or the length of
/// the text if there is none.
pub open spec fn first_occurrence(s: Seq<char>, op: SimpleOpType, from: int) -> int
    decreases s.len() - from,
{
    if from < 0 || from >= s.len() {
        s.len() as int
    } else if occurs(s, op, from) {
        from
    } else {
        first_occurrence(s, op, from + 1)
    }
}

/// The last position before `until` where `op` occurs, or -1 if there is none.
pub open spec fn last_occurrence(s: Seq<char>, op: SimpleOpType, until: int) -> int
    decreases until,
{
    if until <= 0 || until > s.len() {
        -1
    } else if occurs(s, op, until - 1) {
        until - 1
    } else {
        last_occurrence(s, op, until - 1)
    }
}

/// Where the text is split once `op` is the operator to split at: a
/// subtraction or a multiplication at its last occurrence, so that a chain of
/// them is read from the left; every other operator at its first occurrence.
pub open spec fn split_position(s: Seq<char>, op: SimpleOpType) -> int {
    if op == SimpleOpType::Sub || op == SimpleOpType::Mult {
        last_occurrence(s, op, s.len() as int)
    } else {
        first_occurrence(s, op, 0)
    }
}

/// The first operator of [`priority`], from rank `rank` on, that occurs in the
/// text.
pub open spec fn loosest_from(s: Seq<char>, rank: int) -> Option<SimpleOpType>
    decreases priority().len() - rank,
{
    if rank < 0 || rank >= priority().len() {
        None
    } else if first_occurrence(s, priority()[rank], 0) < s.len() {
        Some(priority()[rank])
    } else {
        loosest_from(s, rank + 1)
    }
}

/// The operator at which the text is split, if any operator occurs in it.
pub open spec fn loosest(s: Seq<char>) -> Option<SimpleOpType> {
    loosest_from(s, 0)
}

/// The closing bracket that brings the depth of round brackets back to zero
/// is the last character of the text, if there is any such bracket.
pub open spec fn closes_at_end(s: Seq<char>) -> bool {
    forall|i: int|
        0 <= i < s.len() - 1 ==> !(s[i] == ')' && #[trigger] depth(s, '(', ')', i + 1) == 0)
}

/// The whole text stands in one pair of round brackets.
pub open spec fn enclosed(s: Seq<char>) -> bool {
    s.len() >= 2 && closes_at_end(s) && s[0] == '(' && s.last() == ')'
}

// Calls of built-in functions

/// The built-in functions by the text that opens their call.
pub open spec fn builtins() -> Seq<(SimpleOpType, Seq<char>)> {
    seq![
        (SimpleOpType::Sin, "sin("@),
        (SimpleOpType::Cos, "cos("@),
        (SimpleOpType::Tan, "tan("@),
        (SimpleOpType::Abs, "abs("@),
        (SimpleOpType::Sqrt, "sqrt("@),
        (SimpleOpType::Root, "root("@),
        (SimpleOpType::Ln, "ln("@),
        (SimpleOpType::Arcsin, "arcsin("@),
        (SimpleOpType::Arccos, "arccos("@),
        (SimpleOpType::Arctan, "arctan("@),
        (SimpleOpType::Det, "det("@),
        (SimpleOpType::Inv, "inv("@),
    ]
}

/// The first built-in function, from rank `rank` on, whose call the text
/// opens with.
pub open spec fn builtin_from(s: Seq<char>, rank: int) -> Option<(SimpleOpType, Seq<char>)>
    decreases builtins().len() - rank,
{
    if rank < 0 || rank >= builtins().len() {
        None
    } else if starts_with(s, builtins()[rank].1) {
        Some(builtins()[rank])
    } else {
        builtin_from(s, rank + 1)
    }
}

/// The text between an opening of `opening` characters and the last character.
pub open spec fn inside(s: Seq<char>, opening: int) -> Seq<char> {
    if 0 <= opening <= s.len() - 1 {
        s.subrange(opening, s.len() - 1)
    } else {
        Seq::empty()
    }
}

// Lists of sub-expressions

/// All values in order, or the first error.
pub open spec fn collect<A, E>(results: Seq<Result<A, E>>) -> Result<Seq<A>, E>
    decreases results.len(),
{
    if results.len() == 0 {
        Ok(Seq::empty())
    } else {
        match collect(results.drop_last()) {
            Err(e) => Err(e),
            Ok(values) => match results.last() {
                Err(e) => Err(e),
                Ok(value) => Ok(values.push(value)),
            },
        }
    }
}

/// A side of an equation: the text before the first `=`, or between the first
/// and the second.
pub open spec fn equation_side(entry: Seq<char>, right: bool) -> Seq<char> {
    let first = find(entry, '=', 0);
    if !right {
        entry.subrange(0, first)
    } else if first < entry.len() {
        let second = find(entry, '=', first + 1);
        entry.subrange(first + 1, second)
    } else {
        Seq::empty()
    }
}

/// The entries of an `eq(..)` that are equations: those that hold a `=`.
pub open spec fn equation_entries(entries: Seq<Seq<char>>) -> Seq<Seq<char>> {
    entries.filter(|e: Seq<char>| find(e, '=', 0) < e.len())
}

/// The entries of an `eq(..)` that name unknowns: those that hold no `=`.
pub open spec fn unknown_entries(entries: Seq<Seq<char>>) -> Seq<Seq<char>> {
    entries.filter(|e: Seq<char>| !(find(e, '=', 0) < e.len()))
}

/// The storage of a table that was written row by row: the item in row `i` at
/// place `j` of the text is held in row `j` at place `i`.
pub open spec fn transposed(rows: Seq<Seq<AstView>>) -> Seq<Seq<AstView>> {
    if rows.len() == 0 {
        Seq::empty()
    } else {
        Seq::new(rows[0].len(), |i: int| Seq::new(rows.len(), |j: int| rows[j][i]))
    }
}

/// Every row is as long as the first.
pub open spec fn rectangular(rows: Seq<Seq<AstView>>) -> bool {
    forall|j: int| 0 <= j < rows.len() ==> (#[trigger] rows[j]).len() == rows[0].len()
}

// The grammar

/// The syntax tree that the text stands for, or the reason why it stands for
/// none. The text holds no white space.
pub open spec fn parse_text(s: Seq<char>) -> Parsed
    decreases s.len(), 4nat,
{
    if s.len() == 0 {
        Err(ParserErrorView::EmptyExpr)
    } else if depth(s, '(', ')', s.len() as int) > 0 {
        Err(ParserErrorView::UnmatchedOpenDelimiter)
    } else if depth(s, '(', ')', s.len() as int) < 0 {
        Err(ParserErrorView::UnmatchedCloseDelimiter)
    } else if enclosed(s) {
        match parse_text(s.subrange(1, s.len() - 1)) {
            Err(e) => Err(e),
            Ok(inner) => Ok(
                AstView::Simple {
                    op_type: SimpleOpType::Parenths,
                    left: Box::new(inner),
                    right: Box::new(placeholder()),
                },
            ),
        }
    } else {
        match loosest(s) {
            Some(op) => parse_operation(s, op),
            None => parse_operand(s),
        }
    }
}

/// The tree of a text that is split at the operator `op`. The right side is
/// read first; a text that starts with the operator has the placeholder on
/// its left.
pub open spec fn parse_operation(s: Seq<char>, op: SimpleOpType) -> Parsed
    decreases s.len(), 3nat,
{
    let at = split_position(s, op);
    let behind = if op == SimpleOpType::HiddenMult {
        at
    } else {
        at + 1
    };
    if 0 <= at < s.len() && 0 < behind <= s.len() {
        match parse_text(s.subrange(behind, s.len() as int)) {
            Err(e) => Err(e),
            Ok(right) => if at == 0 {
                Ok(
                    AstView::Simple {
                        op_type: op,
                        left: Box::new(placeholder()),
                        right: Box::new(right),
                    },
                )
            } else {
                match parse_text(s.subrange(0, at)) {
                    Err(e) => Err(e),
                    Ok(left) => Ok(
                        AstView::Simple {
                            op_type: op,
                            left: Box::new(left),
                            right: Box::new(right),
                        },
                    ),
                }
            },
        }
    } else {
        Err(ParserErrorView::EmptyExpr)
    }
}

/// What each of the texts stands for. Every text is shorter than `bound`.
pub open spec fn parse_each(items: Seq<Seq<char>>, bound: nat) -> Seq<Parsed>
    decreases bound, 0nat,
{
    Seq::new(
        items.len(),
        |k: int|
            if 0 <= k < items.len() && items[k].len() < bound {
                parse_text(items[k])
            } else {
                Err(ParserErrorView::EmptyExpr)
            },
    )
}

/// What an equation stands for: its two sides, the longer one (in bytes of
/// UTF-8) first, which is also read first; of two sides of equal length the
/// left one.
pub open spec fn parse_equation(entry: Seq<char>, bound: nat) -> Result<
    (AstView, AstView),
    ParserErrorView,
>
    decreases bound, 0nat,
{
    let left = equation_side(entry, false);
    let right = equation_side(entry, true);
    let first = if utf8_len(left) >= utf8_len(right) {
        left
    } else {
        right
    };
    let second = if utf8_len(left) >= utf8_len(right) {
        right
    } else {
        left
    };
    if first.len() < bound && second.len() < bound {
        match parse_text(first) {
            Err(e) => Err(e),
            Ok(a) => match parse_text(second) {
                Err(e) => Err(e),
                Ok(b) => Ok((a, b)),
            },
        }
    } else {
        Err(ParserErrorView::EmptyExpr)
    }
}

/// What each of the equations stands for. Every equation is shorter than
/// `bound`.
pub open spec fn parse_equations(entries: Seq<Seq<char>>, bound: nat) -> Seq<
    Result<(AstView, AstView), ParserErrorView>,
>
    decreases bound, 1nat,
{
    Seq::new(
        entries.len(),
        |k: int|
            if 0 <= k < entries.len() && entries[k].len() < bound {
                parse_equation(entries[k], entries[k].len() + 1)
            } else {
                Err(ParserErrorView::EmptyExpr)
            },
    )
}

/// The tree of a text without an operator outside brackets: a call of a
/// built-in function, an integral, a derivative, a system of equations, a call
/// of a function of the user, a variable, a list, or a literal.
pub open spec fn parse_operand(s: Seq<char>) -> Parsed
    decreases s.len(), 3nat,
{
    if s.len() == 0 {
        Err(ParserErrorView::EmptyExpr)
    } else if let Some(found) = builtin_from(s, 0) {
        parse_builtin(s, found.0, found.1.len())
    } else if starts_with(s, "I("@) {
        parse_integral(s)
    } else if starts_with(s, "D("@) {
        parse_derivative(s)
    } else if starts_with(s, "eq("@) {
        parse_system(s)
    } else if 0 < find(s, '(', 0) < s.len() && s.last() == ')' {
        parse_call(s)
    } else if name_start(s[0]) {
        if valid_name(s) {
            Ok(AstView::Variable(s))
        } else {
            Err(ParserErrorView::InvalidVariableName(s))
        }
    } else if s[0] == '{' && s.last() == '}' {
        match collect(parse_each(split_args(inside(s, 1)), s.len())) {
            Err(e) => Err(e),
            Ok(items) => Ok(AstView::List(items)),
        }
    } else {
        parse_literal(s)
    }
}

/// The tree of a call of a built-in function whose opening takes `opening`
/// characters. The last character of the text closes the call, whatever it
/// is. `root` takes two arguments, every other function one.
pub open spec fn parse_builtin(s: Seq<char>, op: SimpleOpType, opening: nat) -> Parsed
    decreases s.len(), 2nat,
{
    let body = inside(s, opening as int);
    if opening == 0 || body.len() >= s.len() {
        Err(ParserErrorView::EmptyExpr)
    } else if op == SimpleOpType::Root {
        let args = split_args(body);
        if args.len() != 2 {
            Err(ParserErrorView::WrongNumberOfArgs("root"@))
        } else if args[0].len() < s.len() && args[1].len() < s.len() {
            match parse_text(args[0]) {
                Err(e) => Err(e),
                Ok(left) => match parse_text(args[1]) {
                    Err(e) => Err(e),
                    Ok(right) => Ok(
                        AstView::Simple {
                            op_type: op,
                            left: Box::new(left),
                            right: Box::new(right),
                        },
                    ),
                },
            }
        } else {
            Err(ParserErrorView::EmptyExpr)
        }
    } else {
        match parse_text(body) {
            Err(e) => Err(e),
            Ok(left) => Ok(
                AstView::Simple {
                    op_type: op,
                    left: Box::new(left),
                    right: Box::new(placeholder()),
                },
            ),
        }
    }
}

/// The tree of `I(expr, var, lower, upper)`. The name of the variable is
/// taken as it is written.
pub open spec fn parse_integral(s: Seq<char>) -> Parsed
    decreases s.len(), 2nat,
{
    let args = split_args(inside(s, 2));
    if args.len() != 4 {
        Err(ParserErrorView::WrongNumberOfArgs("integral"@))
    } else if args[0].len() < s.len() && args[2].len() < s.len() && args[3].len() < s.len() {
        match parse_text(args[0]) {
            Err(e) => Err(e),
            Ok(expr) => match parse_text(args[2]) {
                Err(e) => Err(e),
                Ok(lower) => match parse_text(args[3]) {
                    Err(e) => Err(e),
                    Ok(upper) => Ok(
                        AstView::Integral {
                            expr: Box::new(expr),
                            in_terms_of: args[1],
                            lower_bound: Box::new(lower),
                            upper_bound: Box::new(upper),
                        },
                    ),
                },
            },
        }
    } else {
        Err(ParserErrorView::EmptyExpr)
    }
}

/// The tree of `D(expr, var, at)`. The name of the variable is taken as it is
/// written.
pub open spec fn parse_derivative(s: Seq<char>) -> Parsed
    decreases s.len(), 2nat,
{
    let args = split_args(inside(s, 2));
    if args.len() != 3 {
        Err(ParserErrorView::WrongNumberOfArgs("derivative"@))
    } else if args[0].len() < s.len() && args[2].len() < s.len() {
        match parse_text(args[0]) {
            Err(e) => Err(e),
            Ok(expr) => match parse_text(args[2]) {
                Err(e) => Err(e),
                Ok(at) => Ok(
                    AstView::Derivative {
                        expr: Box::new(expr),
                        in_terms_of: args[1],
                        at: Box::new(at),
                    },
                ),
            },
        }
    } else {
        Err(ParserErrorView::EmptyExpr)
    }
}

/// The tree of `eq(entry, entry, ...)`: the entries with a `=` are the
/// equations, the others the names of the unknowns, taken as they are
/// written.
pub open spec fn parse_system(s: Seq<char>) -> Parsed
    decreases s.len(), 2nat,
{
    let entries = split_args(inside(s, 3));
    if s.len() == 0 {
        Err(ParserErrorView::EmptyExpr)
    } else {
        match collect(parse_equations(equation_entries(entries), s.len())) {
            Err(e) => Err(e),
            Ok(equations) => Ok(
                AstView::Equation { equations, search_vars: unknown_entries(entries) },
            ),
        }
    }
}

/// The tree of `name(arg, arg, ...)`. The arguments are read before the name
/// is looked at.
pub open spec fn parse_call(s: Seq<char>) -> Parsed
    decreases s.len(), 2nat,
{
    let open = find(s, '(', 0);
    let name = s.subrange(0, open);
    if 0 < open < s.len() {
        match collect(parse_each(split_args(inside(s, open + 1)), s.len())) {
            Err(e) => Err(e),
            Ok(inputs) => if valid_name(name) {
                Ok(AstView::Function { name, inputs })
            } else {
                Err(ParserErrorView::InvalidFunctionName(name))
            },
        }
    } else {
        Err(ParserErrorView::EmptyExpr)
    }
}

/// The tree of a literal: a numeral, or a vector or a matrix in square
/// brackets. A vector whose items are all vectors of one length is a matrix;
/// the matrix holds in its row `i` the items that were written at place `i`
/// of the inner vectors.
pub open spec fn parse_literal(s: Seq<char>) -> Parsed
    decreases s.len(), 2nat,
{
    if find(s, '[', 0) >= s.len() {
        if is_numeral(s) {
            Ok(AstView::Scalar(s))
        } else {
            Err(ParserErrorView::ParseValue(s))
        }
    } else if s.len() < 2 {
        Err(ParserErrorView::ParseValue(s))
    } else if !(s[0] == '[' && s.last() == ']') {
        Err(ParserErrorView::MissingBracket)
    } else {
        let args = split_args(inside(s, 1));
        if args[0].len() == 0 {
            Err(ParserErrorView::EmptyVec)
        } else {
            match collect(parse_each(args, s.len())) {
                Err(e) => Err(e),
                Ok(items) => literal_of(s, items),
            }
        }
    }
}

/// The items of a vector literal are all vectors.
pub open spec fn all_vectors(items: Seq<AstView>) -> bool {
    forall|k: int| 0 <= k < items.len() ==> #[trigger] items[k] is Vector
}

/// The rows that a list of vectors holds.
pub open spec fn rows_of(items: Seq<AstView>) -> Seq<Seq<AstView>> {
    items.map_values(|a: AstView| a->Vector_0)
}

/// The vector or matrix made of the items that stand in square brackets in
/// the text `s`.
pub open spec fn literal_of(s: Seq<char>, items: Seq<AstView>) -> Parsed {
    if exists|k: int| 0 <= k < items.len() && #[trigger] items[k] is Matrix {
        Err(ParserErrorView::ParseValue(s))
    } else if !exists|k: int| 0 <= k < items.len() && #[trigger] items[k] is Vector {
        Ok(AstView::Vector(items))
    } else if !all_vectors(items) || !rectangular(rows_of(items)) {
        Err(ParserErrorView::NotRectMatrix)
    } else {
        Ok(AstView::Matrix(transposed(rows_of(items))))
    }
}

/// The syntax tree that a text stands for once its white space is deleted.
pub open spec fn parse_spec(text: Seq<char>) -> Parsed {
    parse_text(without_whitespace(text))
}

/// White space counts for nothing: a text stands for what it stands for
/// without its white space, and so do two texts that are the same without
/// their white space.
pub proof fn law_whitespace(text: Seq<char>, other: Seq<char>)
    ensures
        parse_spec(without_whitespace(text)) == parse_spec(text),
        without_whitespace(text) == without_whitespace(other) ==> parse_spec(text) == parse_spec(
            other,
        ),
{
    crate::basetypes::lemma_filter_twice(text, |c: char| !crate::text::whitespace(c));
}

} // verus!
