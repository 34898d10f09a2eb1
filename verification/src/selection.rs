//! What the solver selects: the equations of a square system out of too many
//! equations, and the roots that it hands out of all roots that it found.

use crate::basetypes::{values_view, Value, ValueView};
use crate::numbers::{is_less, is_same_value, is_smaller, less, same_value, smaller, ZERO_BITS};
use vstd::prelude::*;

verus! {

/// The ways to choose further elements of `arr`, in their order, behind the
/// elements `prev` that are chosen already, until `len` elements are chosen.
/// The ways stand in the order of the first element in which they differ.
pub open spec fn chosen(arr: Seq<usize>, len: nat, prev: Seq<usize>) -> Seq<Seq<usize>>
    decreases arr.len(), arr.len() + 1,
{
    if prev.len() == len {
        seq![prev]
    } else {
        chosen_among(arr, len, prev, arr.len() as int)
    }
}

/// The ways of [`chosen`] whose next element is among the first `n` elements
/// of `arr`.
pub open spec fn chosen_among(arr: Seq<usize>, len: nat, prev: Seq<usize>, n: int) -> Seq<
    Seq<usize>,
>
    decreases arr.len(), n,
{
    if n <= 0 || n > arr.len() {
        Seq::empty()
    } else {
        chosen_among(arr, len, prev, n - 1) + chosen(arr.skip(n), len, prev.push(arr[n - 1]))
    }
}

/// The views of a list of lists of indices.
pub open spec fn indices_view(lists: Seq<Vec<usize>>) -> Seq<Seq<usize>> {
    lists.map_values(|l: Vec<usize>| l@)
}

/// The ways to choose `len` elements of `arr` in their order, behind the
/// elements `prev_arr` (see [`chosen`]).
pub fn generate_combinations(arr: Vec<usize>, len: usize, prev_arr: Vec<usize>) -> (res: Vec<
    Vec<usize>,
>)
    ensures
        indices_view(res@) == chosen(arr@, len as nat, prev_arr@),
    decreases arr.len(),
{
    let mut combs: Vec<Vec<usize>> = Vec::new();
    if prev_arr.len() == len {
        combs.push(prev_arr);
        assert(indices_view(combs@) =~= seq![prev_arr@]);
        return combs;
    }
    let mut i: usize = 0;
    assert(indices_view(combs@) =~= Seq::empty());
    while i < arr.len()
        invariant
            i <= arr.len(),
            prev_arr.len() != len,
            indices_view(combs@) == chosen_among(arr@, len as nat, prev_arr@, i as int),
        decreases arr.len() - i,
    {
        let mut extended = prev_arr.clone();
        assert(extended@ =~= prev_arr@);
        extended.push(arr[i]);
        let mut rest: Vec<usize> = Vec::new();
        let mut k: usize = i + 1;
        while k < arr.len()
            invariant
                i + 1 <= k <= arr.len(),
                rest@ == arr@.subrange(i + 1, k as int),
            decreases arr.len() - k,
        {
            rest.push(arr[k]);
            k = k + 1;
        }
        assert(rest@ =~= arr@.skip(i + 1));
        let ghost before = indices_view(combs@);
        let mut more = generate_combinations(rest, len, extended);
        let ghost added = indices_view(more@);
        combs.append(&mut more);
        assert(indices_view(combs@) =~= before + added);
        i = i + 1;
    }
    combs
}

/// Every way of [`chosen`] has `len` elements, as long as no more than `len`
/// are chosen at the start.
pub proof fn law_chosen_lengths(arr: Seq<usize>, len: nat, prev: Seq<usize>, k: int)
    requires
        0 <= k < chosen(arr, len, prev).len(),
    ensures
        chosen(arr, len, prev)[k].len() == len,
    decreases arr.len(), arr.len() + 1,
{
    if prev.len() != len {
        lemma_chosen_among_lengths(arr, len, prev, arr.len() as int, k);
    }
}

pub proof fn lemma_chosen_among_lengths(arr: Seq<usize>, len: nat, prev: Seq<usize>, n: int, k: int)
    requires
        0 <= n <= arr.len(),
        0 <= k < chosen_among(arr, len, prev, n).len(),
    ensures
        chosen_among(arr, len, prev, n)[k].len() == len,
    decreases arr.len(), n,
{
    if n > 0 {
        let first = chosen_among(arr, len, prev, n - 1);
        if k < first.len() {
            lemma_chosen_among_lengths(arr, len, prev, n - 1, k);
        } else {
            law_chosen_lengths(arr.skip(n), len, prev.push(arr[n - 1]), k - first.len());
        }
    }
}

// The roots that are handed out

/// How many roots are handed out at most.
pub const MOST_ROOTS: usize = 10;

/// The places, among the first `n`, of the values that are kept when equal
/// values are dropped: a value is kept unless it is the same as a value kept
/// before it.
pub open spec fn kept_places(rounded: Seq<ValueView>, n: int) -> Seq<int>
    decreases n,
{
    if n <= 0 || n > rounded.len() {
        Seq::empty()
    } else {
        let before = kept_places(rounded, n - 1);
        if exists|j: int| 0 <= j < before.len() && same_value(rounded[n - 1], rounded[#[trigger] before[j]]) {
            before
        } else {
            before.push(n - 1)
        }
    }
}

/// The roots that differ after rounding: `rounded` holds the rounded form of
/// every root, place by place.
pub open spec fn distinct(roots: Seq<ValueView>, rounded: Seq<ValueView>) -> Seq<ValueView> {
    kept_places(rounded, rounded.len() as int).filter(|i: int| 0 <= i < roots.len()).map_values(
        |i: int| roots[i],
    )
}

/// The number by which a root is ordered: the root itself, or the first
/// component of a vector.
pub open spec fn key(root: ValueView) -> u64 {
    match root {
        ValueView::Scalar(s) => s,
        ValueView::Vector(v) => if v.len() > 0 {
            v[0]
        } else {
            ZERO_BITS
        },
        ValueView::Matrix(_) => ZERO_BITS,
    }
}

/// The place at which a value goes into a sorted list: before the first value
/// that comes after it, behind all others.
pub open spec fn place_in(sorted: Seq<ValueView>, value: ValueView, by_size: bool, from: int) -> int
    decreases sorted.len() - from,
{
    if from < 0 || from >= sorted.len() {
        sorted.len() as int
    } else if comes_before(value, sorted[from], by_size) {
        from
    } else {
        place_in(sorted, value, by_size, from + 1)
    }
}

/// `a` comes before `b`: by size if `by_size`, else by value.
pub open spec fn comes_before(a: ValueView, b: ValueView, by_size: bool) -> bool {
    if by_size {
        smaller(key(a), key(b))
    } else {
        less(key(a), key(b))
    }
}

/// The first `n` values in ascending order, by size if `by_size`, else by
/// value. Values of which none comes before the other keep their order.
pub open spec fn sorted(values: Seq<ValueView>, by_size: bool, n: int) -> Seq<ValueView>
    decreases n,
{
    if n <= 0 || n > values.len() {
        Seq::empty()
    } else {
        let before = sorted(values, by_size, n - 1);
        before.insert(place_in(before, values[n - 1], by_size, 0), values[n - 1])
    }
}

/// The roots that are handed out: the roots that differ after rounding; if
/// these are more than ten numbers or vectors, the ten of the smallest size,
/// in ascending order.
pub open spec fn cleaned(roots: Seq<ValueView>, rounded: Seq<ValueView>) -> Seq<ValueView> {
    let all = distinct(roots, rounded);
    if roots.len() == 0 {
        Seq::empty()
    } else if all.len() > MOST_ROOTS && !(roots[0] is Matrix) {
        let smallest = sorted(all, true, all.len() as int).take(MOST_ROOTS as int);
        sorted(smallest, false, smallest.len() as int)
    } else {
        all
    }
}

/// The number by which a root is ordered.
fn key_of(root: &Value) -> (k: u64)
    ensures
        k == key(root@),
{
    match root {
        Value::Scalar(s) => *s,
        Value::Vector(v) => if v.len() > 0 {
            v[0]
        } else {
            ZERO_BITS
        },
        Value::Matrix(_) => ZERO_BITS,
    }
}

fn is_before(a: &Value, b: &Value, by_size: bool) -> (r: bool)
    ensures
        r == comes_before(a@, b@, by_size),
{
    if by_size {
        is_smaller(key_of(a), key_of(b))
    } else {
        is_less(key_of(a), key_of(b))
    }
}

/// The values in ascending order (see [`sorted`]).
pub fn sort_values(values: &Vec<Value>, by_size: bool) -> (res: Vec<Value>)
    ensures
        values_view(res@) == sorted(values_view(values@), by_size, values.len() as int),
        res.len() == values.len(),
{
    let ghost all = values_view(values@);
    let mut res: Vec<Value> = Vec::new();
    let mut n: usize = 0;
    assert(values_view(res@) =~= Seq::empty());
    while n < values.len()
        invariant
            n <= values.len(),
            res.len() == n,
            all == values_view(values@),
            values_view(res@) == sorted(all, by_size, n as int),
        decreases values.len() - n,
    {
        let ghost before = values_view(res@);
        assert(all[n as int] == values@[n as int]@);
        let mut at: usize = 0;
        while at < res.len() && !is_before(&values[n], &res[at], by_size)
            invariant
                at <= res.len(),
                n < values.len(),
                before == values_view(res@),
                place_in(before, values@[n as int]@, by_size, 0) == place_in(
                    before,
                    values@[n as int]@,
                    by_size,
                    at as int,
                ),
            decreases res.len() - at,
        {
            assert(before[at as int] == res@[at as int]@);
            at = at + 1;
        }
        proof {
            if at < res.len() {
                assert(before[at as int] == res@[at as int]@);
            }
        }
        res.insert(at, values[n].clone());
        assert(values_view(res@) =~= before.insert(at as int, values@[n as int]@));
        n = n + 1;
    }
    res
}

/// The roots that are handed out (see [`cleaned`]); `rounded` holds the
/// rounded form of every root, place by place.
pub fn clean_results(roots: &Vec<Value>, rounded: &Vec<Value>) -> (res: Vec<Value>)
    ensures
        values_view(res@) == cleaned(values_view(roots@), values_view(rounded@)),
{
    let ghost all_roots = values_view(roots@);
    let ghost all_rounded = values_view(rounded@);
    let ghost within = |i: int| 0 <= i < all_roots.len();
    let ghost root_at = |i: int| all_roots[i];
    let mut places: Vec<usize> = Vec::new();
    let mut unique: Vec<Value> = Vec::new();
    let mut n: usize = 0;
    proof {
        assert(places@.map_values(|p: usize| p as int) =~= Seq::<int>::empty());
        assert(Seq::<int>::empty().filter(within) =~= Seq::<int>::empty());
        assert(values_view(unique@) =~= Seq::<int>::empty().map_values(root_at));
    }
    while n < rounded.len()
        invariant
            n <= rounded.len(),
            all_roots == values_view(roots@),
            all_rounded == values_view(rounded@),
            within == |i: int| 0 <= i < all_roots.len(),
            root_at == |i: int| all_roots[i],
            places@.map_values(|p: usize| p as int) == kept_places(all_rounded, n as int),
            forall|j: int| 0 <= j < places.len() ==> #[trigger] places@[j] < n,
            values_view(unique@) == kept_places(all_rounded, n as int).filter(within).map_values(
                root_at,
            ),
        decreases rounded.len() - n,
    {
        let ghost before = kept_places(all_rounded, n as int);
        let mut found = false;
        let mut j: usize = 0;
        while j < places.len() && !found
            invariant
                j <= places.len(),
                n < rounded.len(),
                all_rounded == values_view(rounded@),
                places@.map_values(|p: usize| p as int) == before,
                forall|q: int| 0 <= q < places.len() ==> #[trigger] places@[q] < n,
                found ==> exists|q: int|
                    0 <= q < before.len() && same_value(
                        all_rounded[n as int],
                        all_rounded[#[trigger] before[q]],
                    ),
                !found ==> forall|q: int|
                    0 <= q < j ==> !same_value(
                        all_rounded[n as int],
                        all_rounded[#[trigger] before[q]],
                    ),
            decreases places.len() - j + (if found {
                0int
            } else {
                1int
            }),
        {
            let at = places[j];
            proof {
                assert(before[j as int] == places@[j as int] as int);
                assert(all_rounded[at as int] == rounded@[at as int]@);
                assert(all_rounded[n as int] == rounded@[n as int]@);
            }
            if is_same_value(&rounded[n], &rounded[at]) {
                found = true;
            } else {
                j = j + 1;
            }
        }
        if !found {
            let ghost old_places = places@.map_values(|p: usize| p as int);
            let ghost old_unique = values_view(unique@);
            places.push(n);
            proof {
                assert(places@.map_values(|p: usize| p as int) =~= old_places.push(n as int));
                before.lemma_filter_push(n as int, within);
            }
            if n < roots.len() {
                unique.push(roots[n].clone());
                proof {
                    assert(all_roots[n as int] == roots@[n as int]@);
                    assert(values_view(unique@) =~= old_unique.push(all_roots[n as int]));
                    assert(before.filter(within).push(n as int).map_values(root_at)
                        =~= before.filter(within).map_values(root_at).push(all_roots[n as int]));
                }
            }
        }
        n = n + 1;
    }
    if roots.len() == 0 {
        let none: Vec<Value> = Vec::new();
        assert(values_view(none@) =~= Seq::empty());
        return none;
    }
    assert(all_roots[0] == roots@[0]@);
    let is_matrix = roots[0].is_matrix();
    assert(values_view(unique@).len() == unique.len());
    if unique.len() > MOST_ROOTS && !is_matrix {
        let by_size = sort_values(&unique, true);
        let mut smallest: Vec<Value> = Vec::new();
        let mut k: usize = 0;
        assert(values_view(by_size@).len() == by_size.len());
        while k < MOST_ROOTS
            invariant
                k <= MOST_ROOTS,
                by_size.len() > MOST_ROOTS,
                smallest.len() == k,
                forall|q: int| 0 <= q < k ==> (#[trigger] smallest@[q])@ == by_size@[q]@,
            decreases MOST_ROOTS - k,
        {
            smallest.push(by_size[k].clone());
            k = k + 1;
        }
        assert(values_view(smallest@) =~= values_view(by_size@).take(MOST_ROOTS as int));
        sort_values(&smallest, false)
    } else {
        unique
    }
}

} // verus!
