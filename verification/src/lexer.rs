//! The questions that the parser asks of a text before it splits it: is it a
//! name, is it a numeral, where does an operator stand outside all brackets.

use crate::basetypes::SimpleOpType;
use crate::grammar::{
    closes_at_end, decimal_from, digits_end, find, first_occurrence, is_numeral, last_occurrence,
    loosest, loosest_from, name_char_ok, occurs, op_symbol, previous, priority, same_letter,
    spells, split_position, starts_with, valid_name,
};
use crate::helpers::{depth, lemma_depth_bounds, Nesting};
use crate::text::{chars_of, digit, is_digit, is_name_start, is_numeric};
use vstd::prelude::*;

verus! {

/// The operator that a character writes.
pub fn get_op_symbol(c: char) -> (op: Option<SimpleOpType>)
    ensures
        op == op_symbol(c),
{
    if c == '?' {
        Some(SimpleOpType::Get)
    } else if c == '+' {
        Some(SimpleOpType::Add)
    } else if c == '-' {
        Some(SimpleOpType::Sub)
    } else if c == '&' {
        Some(SimpleOpType::AddSub)
    } else if c == '*' {
        Some(SimpleOpType::Mult)
    } else if c == '/' {
        Some(SimpleOpType::Div)
    } else if c == '^' {
        Some(SimpleOpType::Pow)
    } else if c == '#' {
        Some(SimpleOpType::Cross)
    } else {
        None
    }
}

/// The first position at or after `from` that holds `c`, or the length of the
/// text.
pub fn find_char(v: &Vec<char>, c: char, from: usize) -> (at: usize)
    ensures
        at == find(v@, c, from as int),
        from <= at <= v.len() || (from > v.len() && at == v.len()),
{
    let mut i: usize = from;
    while i < v.len()
        invariant
            from <= i,
            find(v@, c, from as int) == find(v@, c, i as int),
        decreases v.len() - i,
    {
        if v[i] == c {
            return i;
        }
        i = i + 1;
    }
    v.len()
}

/// Whether the text begins with `prefix`.
pub fn begins_with(v: &Vec<char>, prefix: &Vec<char>) -> (b: bool)
    ensures
        b == starts_with(v@, prefix@),
{
    if prefix.len() > v.len() {
        return false;
    }
    let mut i: usize = 0;
    while i < prefix.len()
        invariant
            i <= prefix.len() <= v.len(),
            v@.subrange(0, i as int) == prefix@.subrange(0, i as int),
        decreases prefix.len() - i,
    {
        if v[i] != prefix[i] {
            assert(v@.subrange(0, prefix.len() as int)[i as int] != prefix@[i as int]);
            return false;
        }
        assert(v@.subrange(0, i + 1) == v@.subrange(0, i as int).push(v@[i as int]));
        assert(prefix@.subrange(0, i + 1) == prefix@.subrange(0, i as int).push(
            prefix@[i as int],
        ));
        i = i + 1;
    }
    assert(prefix@.subrange(0, prefix.len() as int) == prefix@);
    true
}

/// Whether the text is a name of a variable or a function (see
/// [`valid_name`]).
pub fn valid_name_chars(v: &Vec<char>) -> (b: bool)
    ensures
        b == valid_name(v@),
{
    if v.len() == 0 {
        return false;
    }
    if !is_name_start(v[0]) {
        return false;
    }
    let mut curly: i128 = 0;
    let mut before: char = '\\';
    let mut i: usize = 0;
    while i < v.len()
        invariant
            i <= v.len(),
            curly == depth(v@, '{', '}', i as int),
            before == previous(v@, i as int),
            forall|k: int| 0 <= k < i ==> name_char_ok(v@, k),
        decreases v.len() - i,
    {
        proof {
            lemma_depth_bounds(v@, '{', '}', i as int);
        }
        let c = v[i];
        if c == '{' {
            curly = curly + 1;
        }
        if c == '}' {
            curly = curly - 1;
        }
        let is_reserved = get_op_symbol(c).is_some() || c == '=';
        if is_reserved && curly == 0 {
            assert(!name_char_ok(v@, i as int));
            return false;
        }
        if is_numeric(c) && curly == 0 && before != '_' {
            assert(!name_char_ok(v@, i as int));
            return false;
        }
        before = c;
        i = i + 1;
    }
    true
}

/// Whether the text is a name of a variable or a function: it starts with a
/// letter or with `\`; an operator character or `=` stands only inside curly
/// brackets; a digit stands only inside curly brackets or directly behind
/// `_`. The empty text is no name.
pub fn is_valid_var_name(var: String) -> (b: bool)
    ensures
        b == valid_name(var@),
{
    let chars = chars_of(var.as_str());
    valid_name_chars(&chars)
}

/// The position behind the digits that start at `from`.
fn skip_digits(v: &Vec<char>, from: usize) -> (end: usize)
    requires
        from <= v.len(),
    ensures
        end == digits_end(v@, from as int),
        from <= end <= v.len(),
{
    let mut i: usize = from;
    while i < v.len() && is_digit(v[i])
        invariant
            from <= i <= v.len(),
            digits_end(v@, from as int) == digits_end(v@, i as int),
        decreases v.len() - i,
    {
        i = i + 1;
    }
    i
}

fn is_same_letter(c: char, letter: char) -> (b: bool)
    ensures
        b == same_letter(c, letter),
{
    c == letter || ('a' <= letter && letter <= 'z' && (c as u32) <= 0x10FFFF && (c as u32) + 32 == (
    letter as u32))
}

/// Whether the text from `from` on is `word`, but for the case of its ASCII
/// letters.
fn spells_word(v: &Vec<char>, from: usize, word: &Vec<char>) -> (b: bool)
    requires
        from <= v.len(),
    ensures
        b == spells(v@.subrange(from as int, v.len() as int), word@),
{
    if v.len() - from != word.len() {
        return false;
    }
    let ghost body = v@.subrange(from as int, v.len() as int);
    let mut i: usize = 0;
    while i < word.len()
        invariant
            from <= v.len(),
            v.len() - from == word.len(),
            i <= word.len(),
            body == v@.subrange(from as int, v.len() as int),
            forall|k: int| 0 <= k < i ==> same_letter(body[k], word@[k]),
        decreases word.len() - i,
    {
        if !is_same_letter(v[from + i], word[i]) {
            assert(body[i as int] == v@[from + i]);
            return false;
        }
        assert(body[i as int] == v@[from + i]);
        i = i + 1;
    }
    true
}

/// Whether the text from `from` on is a decimal number.
fn decimal_at(v: &Vec<char>, from: usize) -> (b: bool)
    requires
        from <= v.len(),
    ensures
        b == decimal_from(v@, from as int),
{
    let whole_end = skip_digits(v, from);
    let has_point = whole_end < v.len() && v[whole_end] == '.';
    let mantissa_end = if has_point {
        skip_digits(v, whole_end + 1)
    } else {
        whole_end
    };
    let digits = if has_point {
        mantissa_end - from - 1
    } else {
        mantissa_end - from
    };
    if digits < 1 {
        return false;
    }
    if mantissa_end == v.len() {
        return true;
    }
    let exponent = if mantissa_end + 1 < v.len() && (v[mantissa_end + 1] == '+' || v[mantissa_end
        + 1] == '-') {
        mantissa_end + 2
    } else {
        mantissa_end + 1
    };
    if !(v[mantissa_end] == 'e' || v[mantissa_end] == 'E') {
        return false;
    }
    if exponent >= v.len() {
        return false;
    }
    skip_digits(v, exponent) == v.len()
}

/// Whether the text is a numeral (see [`is_numeral`]).
pub fn is_numeral_text(v: &Vec<char>) -> (b: bool)
    ensures
        b == is_numeral(v@),
{
    let from: usize = if v.len() > 0 && (v[0] == '+' || v[0] == '-') {
        1
    } else {
        0
    };
    let inf = chars_of("inf");
    let infinity = chars_of("infinity");
    let nan = chars_of("nan");
    proof {
        reveal_strlit("inf");
        reveal_strlit("infinity");
        reveal_strlit("nan");
        assert(inf@ =~= seq!['i', 'n', 'f']);
        assert(infinity@ =~= seq!['i', 'n', 'f', 'i', 'n', 'i', 't', 'y']);
        assert(nan@ =~= seq!['n', 'a', 'n']);
    }
    spells_word(v, from, &inf) || spells_word(v, from, &infinity) || spells_word(v, from, &nan)
        || decimal_at(v, from)
}

/// The depth of round brackets at the end of the text, and whether that depth
/// goes back to zero at the last character only (see [`closes_at_end`]).
pub fn round_balance(v: &Vec<char>) -> (r: (i128, bool))
    ensures
        r.0 == depth(v@, '(', ')', v.len() as int),
        r.1 == closes_at_end(v@),
{
    let mut open: i128 = 0;
    let mut at_end: bool = true;
    let mut i: usize = 0;
    while i < v.len()
        invariant
            i <= v.len(),
            open == depth(v@, '(', ')', i as int),
            at_end == (forall|k: int|
                0 <= k < i && k < v.len() - 1 ==> !(v@[k] == ')' && #[trigger] depth(
                    v@,
                    '(',
                    ')',
                    k + 1,
                ) == 0)),
        decreases v.len() - i,
    {
        proof {
            lemma_depth_bounds(v@, '(', ')', i as int);
        }
        let ghost before = at_end;
        if v[i] == '(' {
            open = open + 1;
        }
        if v[i] == ')' {
            open = open - 1;
            if open == 0 && i != v.len() - 1 {
                at_end = false;
            }
        }
        proof {
            let here = i as int;
            let early = v@[here] == ')' && depth(v@, '(', ')', here + 1) == 0 && here < v.len()
                - 1;
            assert(open == depth(v@, '(', ')', here + 1));
            assert(at_end == (before && !early));
            if at_end {
                assert forall|k: int| 0 <= k < here + 1 && k < v.len() - 1 implies !(v@[k] == ')'
                    && #[trigger] depth(v@, '(', ')', k + 1) == 0) by {
                    if k < here {
                    }
                }
            }
        }
        i = i + 1;
    }
    (open, at_end)
}

/// Whether the text can be split at position `i` with the operator `op`,
/// given the bracket depths at that position.
fn occurs_at(v: &Vec<char>, op: SimpleOpType, i: usize, nesting: &Nesting) -> (b: bool)
    requires
        i < v.len(),
        nesting.at(v@, i as int),
    ensures
        b == occurs(v@, op, i as int),
{
    if !nesting.is_top() {
        return false;
    }
    if op == SimpleOpType::HiddenMult {
        if i >= 1 {
            let joined = (is_digit(v[i - 1]) && (is_name_start(v[i]) || v[i] == '(' || v[i]
                == '[')) || (v[i - 1] == ')' && v[i] == '(');
            if joined && !(i >= 3 && v[i - 2] == '_') {
                return true;
            }
        }
    }
    if i == v.len() - 1 {
        return false;
    }
    match get_op_symbol(v[i]) {
        Some(symbol) => {
            let written = if i == 0 && symbol == SimpleOpType::Sub {
                SimpleOpType::Neg
            } else {
                symbol
            };
            written == op
        },
        None => false,
    }
}

/// The first position where `op` occurs, or the length of the text.
fn first_split(v: &Vec<char>, op: SimpleOpType) -> (at: usize)
    ensures
        at == first_occurrence(v@, op, 0),
        at <= v.len(),
        at < v.len() ==> occurs(v@, op, at as int),
{
    let mut nesting = Nesting::start();
    let mut i: usize = 0;
    while i < v.len()
        invariant
            i <= v.len(),
            nesting.at(v@, i as int),
            first_occurrence(v@, op, 0) == first_occurrence(v@, op, i as int),
        decreases v.len() - i,
    {
        if occurs_at(v, op, i, &nesting) {
            return i;
        }
        nesting.step(v, i);
        i = i + 1;
    }
    v.len()
}

/// The last position where `op` occurs, if there is one.
fn last_split(v: &Vec<char>, op: SimpleOpType) -> (at: Option<usize>)
    ensures
        at matches Some(i) ==> i == last_occurrence(v@, op, v.len() as int) && i < v.len()
            && occurs(v@, op, i as int),
        at is None ==> last_occurrence(v@, op, v.len() as int) == -1,
{
    let mut nesting = Nesting::start();
    let mut last: Option<usize> = None;
    let mut i: usize = 0;
    while i < v.len()
        invariant
            i <= v.len(),
            nesting.at(v@, i as int),
            last matches Some(k) ==> k == last_occurrence(v@, op, i as int) && k < i && occurs(
                v@,
                op,
                k as int,
            ),
            last is None ==> last_occurrence(v@, op, i as int) == -1,
        decreases v.len() - i,
    {
        if occurs_at(v, op, i, &nesting) {
            last = Some(i);
        }
        nesting.step(v, i);
        i = i + 1;
    }
    last
}

/// The operators at which a text is split, those that bind most loosely
/// first.
fn priority_list() -> (list: Vec<SimpleOpType>)
    ensures
        list@ == priority(),
{
    let mut list: Vec<SimpleOpType> = Vec::new();
    list.push(SimpleOpType::Add);
    list.push(SimpleOpType::Sub);
    list.push(SimpleOpType::AddSub);
    list.push(SimpleOpType::Mult);
    list.push(SimpleOpType::Neg);
    list.push(SimpleOpType::Div);
    list.push(SimpleOpType::Cross);
    list.push(SimpleOpType::HiddenMult);
    list.push(SimpleOpType::Pow);
    list.push(SimpleOpType::Get);
    assert(list@ =~= priority());
    list
}

/// A first occurrence means that there is a last one, and the other way
/// round.
proof fn lemma_last_exists(s: Seq<char>, op: SimpleOpType, at: int, until: int)
    requires
        0 <= at < until <= s.len(),
        occurs(s, op, at),
    ensures
        at <= last_occurrence(s, op, until) < until,
    decreases until,
{
    if !occurs(s, op, until - 1) {
        lemma_last_exists(s, op, at, until - 1);
    }
}

/// The operator at which the text is split and the position of the split, if
/// any operator occurs in the text outside all brackets.
pub fn find_split(v: &Vec<char>) -> (split: Option<(SimpleOpType, usize)>)
    ensures
        split matches Some(found) ==> loosest(v@) == Some(found.0) && found.1 == split_position(
            v@,
            found.0,
        ) && found.1 < v.len() && occurs(v@, found.0, found.1 as int),
        split is None ==> loosest(v@) is None,
{
    let list = priority_list();
    let mut rank: usize = 0;
    while rank < list.len()
        invariant
            rank <= list.len(),
            list@ == priority(),
            loosest(v@) == loosest_from(v@, rank as int),
        decreases list.len() - rank,
    {
        let op = list[rank];
        let first = first_split(v, op);
        if first < v.len() {
            if op == SimpleOpType::Sub || op == SimpleOpType::Mult {
                proof {
                    lemma_last_exists(v@, op, first as int, v.len() as int);
                }
                match last_split(v, op) {
                    Some(last) => {
                        return Some((op, last));
                    },
                    None => {
                        return None;
                    },
                }
            }
            return Some((op, first));
        }
        rank = rank + 1;
    }
    None
}

} // verus!
