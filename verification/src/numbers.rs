//! What the bits of a binary64 tell without any arithmetic: whether the
//! number is finite, and how two numbers compare.
//!
//! Bit 63 is the sign. The other bits, read as a natural number, grow with the
//! magnitude of the number; above the magnitude of infinity they are no
//! number at all.

use crate::basetypes::{numbers_view, Value, ValueView};
use vstd::prelude::*;

verus! {

/// The bits of positive zero.
pub const ZERO_BITS: u64 = 0;

/// The bit of the sign alone.
pub const SIGN_BIT: u64 = 0x8000_0000_0000_0000;

/// The bits of positive infinity.
pub const INFINITY_BITS: u64 = 0x7FF0_0000_0000_0000;

/// The number is negative, or negative zero.
pub open spec fn negative(bits: u64) -> bool {
    bits >= SIGN_BIT
}

/// The bits without the sign.
pub open spec fn magnitude(bits: u64) -> int {
    if negative(bits) {
        bits - SIGN_BIT
    } else {
        bits as int
    }
}

/// The bits are no number.
pub open spec fn not_a_number(bits: u64) -> bool {
    magnitude(bits) > INFINITY_BITS
}

/// The bits are no number, or an infinity.
pub open spec fn inf_or_nan(bits: u64) -> bool {
    magnitude(bits) >= INFINITY_BITS
}

/// The place of a number on the number line: numbers compare as their places
/// do. Both zeros have the place 0.
pub open spec fn place(bits: u64) -> int {
    if negative(bits) {
        -magnitude(bits)
    } else {
        magnitude(bits)
    }
}

/// `a < b` as numbers. Nothing is less than, and less than nothing is, what is
/// no number.
pub open spec fn less(a: u64, b: u64) -> bool {
    !not_a_number(a) && !not_a_number(b) && place(a) < place(b)
}

/// `a == b` as numbers. What is no number equals nothing, not even itself;
/// the two zeros are equal.
pub open spec fn equal(a: u64, b: u64) -> bool {
    !not_a_number(a) && !not_a_number(b) && place(a) == place(b)
}

/// `|a| < |b|` as numbers.
pub open spec fn smaller(a: u64, b: u64) -> bool {
    !not_a_number(a) && !not_a_number(b) && magnitude(a) < magnitude(b)
}

/// Some number of the list is no number or an infinity.
pub open spec fn some_inf_or_nan(numbers: Seq<u64>) -> bool {
    exists|i: int| 0 <= i < numbers.len() && inf_or_nan(#[trigger] numbers[i])
}

/// Some number of the value is no number or an infinity.
pub open spec fn value_inf_or_nan(value: ValueView) -> bool {
    match value {
        ValueView::Scalar(s) => inf_or_nan(s),
        ValueView::Vector(v) => some_inf_or_nan(v),
        ValueView::Matrix(m) => rows_inf_or_nan(m, m.len() as int),
    }
}

/// Some number in the first `n` rows is no number or an infinity.
pub open spec fn rows_inf_or_nan(rows: Seq<Seq<u64>>, n: int) -> bool
    decreases n,
{
    if n <= 0 || n > rows.len() {
        false
    } else {
        rows_inf_or_nan(rows, n - 1) || some_inf_or_nan(rows[n - 1])
    }
}

/// The two values have the same shape and, place by place, equal numbers.
pub open spec fn same_value(a: ValueView, b: ValueView) -> bool {
    match (a, b) {
        (ValueView::Scalar(x), ValueView::Scalar(y)) => equal(x, y),
        (ValueView::Vector(x), ValueView::Vector(y)) => same_numbers(x, y),
        (ValueView::Matrix(x), ValueView::Matrix(y)) => x.len() == y.len() && forall|i: int|
            0 <= i < x.len() ==> same_numbers(#[trigger] x[i], y[i]),
        _ => false,
    }
}

/// The two lists are equally long and hold, place by place, equal numbers.
pub open spec fn same_numbers(a: Seq<u64>, b: Seq<u64>) -> bool {
    a.len() == b.len() && forall|i: int| 0 <= i < a.len() ==> equal(#[trigger] a[i], b[i])
}

/// What holds of the first rows holds of more rows.
pub proof fn lemma_rows_inf_or_nan(rows: Seq<Seq<u64>>, n: int, more: int)
    requires
        0 <= n <= more <= rows.len(),
        rows_inf_or_nan(rows, n),
    ensures
        rows_inf_or_nan(rows, more),
    decreases more - n,
{
    if n < more {
        lemma_rows_inf_or_nan(rows, n, more - 1);
    }
}

fn magnitude_of(bits: u64) -> (m: u64)
    ensures
        m == magnitude(bits),
{
    if bits >= SIGN_BIT {
        bits - SIGN_BIT
    } else {
        bits
    }
}

/// Whether the bits are no number or an infinity.
pub fn is_inf_or_nan(bits: u64) -> (b: bool)
    ensures
        b == inf_or_nan(bits),
{
    magnitude_of(bits) >= INFINITY_BITS
}

fn is_nan(bits: u64) -> (b: bool)
    ensures
        b == not_a_number(bits),
{
    magnitude_of(bits) > INFINITY_BITS
}

/// Whether `a < b` as numbers.
pub fn is_less(a: u64, b: u64) -> (r: bool)
    ensures
        r == less(a, b),
{
    if is_nan(a) || is_nan(b) {
        return false;
    }
    let x = magnitude_of(a);
    let y = magnitude_of(b);
    if a >= SIGN_BIT {
        if b >= SIGN_BIT {
            x > y
        } else {
            x > 0 || y > 0
        }
    } else {
        if b >= SIGN_BIT {
            false
        } else {
            x < y
        }
    }
}

/// Whether `a == b` as numbers.
pub fn is_equal(a: u64, b: u64) -> (r: bool)
    ensures
        r == equal(a, b),
{
    if is_nan(a) || is_nan(b) {
        return false;
    }
    let x = magnitude_of(a);
    let y = magnitude_of(b);
    if (a >= SIGN_BIT) == (b >= SIGN_BIT) {
        x == y
    } else {
        x == 0 && y == 0
    }
}

/// Whether `|a| < |b|` as numbers.
pub fn is_smaller(a: u64, b: u64) -> (r: bool)
    ensures
        r == smaller(a, b),
{
    if is_nan(a) || is_nan(b) {
        return false;
    }
    magnitude_of(a) < magnitude_of(b)
}

/// Whether the two lists are equally long and hold equal numbers.
pub fn are_same_numbers(a: &Vec<u64>, b: &Vec<u64>) -> (r: bool)
    ensures
        r == same_numbers(a@, b@),
{
    if a.len() != b.len() {
        return false;
    }
    let mut i: usize = 0;
    while i < a.len()
        invariant
            i <= a.len(),
            a.len() == b.len(),
            forall|k: int| 0 <= k < i ==> equal(#[trigger] a@[k], b@[k]),
        decreases a.len() - i,
    {
        if !is_equal(a[i], b[i]) {
            return false;
        }
        i = i + 1;
    }
    true
}

/// Whether the two values have the same shape and equal numbers.
#[verifier::loop_isolation(false)]
pub fn is_same_value(a: &Value, b: &Value) -> (r: bool)
    ensures
        r == same_value(a@, b@),
{
    match (a, b) {
        (Value::Scalar(x), Value::Scalar(y)) => is_equal(*x, *y),
        (Value::Vector(x), Value::Vector(y)) => are_same_numbers(x, y),
        (Value::Matrix(x), Value::Matrix(y)) => {
            if x.len() != y.len() {
                return false;
            }
            let mut i: usize = 0;
            while i < x.len()
                invariant
                    i <= x.len(),
                    x.len() == y.len(),
                    forall|k: int|
                        0 <= k < i ==> same_numbers(
                            #[trigger] numbers_view(x@)[k],
                            numbers_view(y@)[k],
                        ),
                decreases x.len() - i,
            {
                assert(numbers_view(x@)[i as int] == x@[i as int]@);
                assert(numbers_view(y@)[i as int] == y@[i as int]@);
                if !are_same_numbers(&x[i], &y[i]) {
                    assert(!same_numbers(numbers_view(x@)[i as int], numbers_view(y@)[i as int]));
                    return false;
                }
                i = i + 1;
            }
            true
        },
        _ => false,
    }
}

/// Whether some number of the list is no number or an infinity.
pub fn any_inf_or_nan(v: &Vec<u64>) -> (r: bool)
    ensures
        r == some_inf_or_nan(v@),
{
    let mut i: usize = 0;
    while i < v.len()
        invariant
            i <= v.len(),
            forall|k: int| 0 <= k < i ==> !inf_or_nan(#[trigger] v@[k]),
        decreases v.len() - i,
    {
        if is_inf_or_nan(v[i]) {
            return true;
        }
        i = i + 1;
    }
    false
}

impl Value {
    /// Whether some number of the value is no number or an infinity.
    #[verifier::loop_isolation(false)]
    pub fn is_inf_or_nan(&self) -> (r: bool)
        ensures
            r == value_inf_or_nan(self@),
    {
        match self {
            Value::Scalar(s) => is_inf_or_nan(*s),
            Value::Vector(v) => any_inf_or_nan(v),
            Value::Matrix(m) => {
                let mut i: usize = 0;
                while i < m.len()
                    invariant
                        i <= m.len(),
                        !rows_inf_or_nan(numbers_view(m@), i as int),
                    decreases m.len() - i,
                {
                    assert(numbers_view(m@)[i as int] == m@[i as int]@);
                    if any_inf_or_nan(&m[i]) {
                        assert(some_inf_or_nan(numbers_view(m@)[i as int]));
                        assert(self@ == ValueView::Matrix(numbers_view(m@)));
                        assert(0 <= i < numbers_view(m@).len());
                        proof {
                            assert(rows_inf_or_nan(numbers_view(m@), i + 1));
                            lemma_rows_inf_or_nan(numbers_view(m@), i + 1, m.len() as int);
                        }
                        return true;
                    }
                    i = i + 1;
                }
                false
            },
        }
    }
}

/// A number is less than another one just if the other one is not less and
/// not equal, as long as both are numbers.
pub proof fn law_trichotomy(a: u64, b: u64)
    requires
        !not_a_number(a),
        !not_a_number(b),
    ensures
        less(a, b) || equal(a, b) || less(b, a),
        !(less(a, b) && equal(a, b)),
        !(less(a, b) && less(b, a)),
{
}

} // verus!
