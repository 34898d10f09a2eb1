//! Small tools shared by the parser and the evaluator: bracket depths, the
//! splitting of argument lists, the combinations of alternatives, and the
//! centring of a text in a field.

use vstd::prelude::*;

verus! {

/// How many more `open` than `close` stand among the first `i` characters.
pub open spec fn depth(s: Seq<char>, open: char, close: char, i: int) -> int
    decreases i,
{
    if i <= 0 || i > s.len() {
        0
    } else {
        depth(s, open, close, i - 1) + (if s[i - 1] == open {
            1int
        } else if s[i - 1] == close {
            -1int
        } else {
            0int
        })
    }
}

/// Position `i` stands outside all round, square and curly brackets.
pub open spec fn top_level(s: Seq<char>, i: int) -> bool {
    &&& depth(s, '(', ')', i) == 0
    &&& depth(s, '[', ']', i) == 0
    &&& depth(s, '{', '}', i) == 0
}

/// Position `i` holds a comma that separates two arguments.
pub open spec fn separator_at(s: Seq<char>, i: int) -> bool {
    0 <= i < s.len() && s[i] == ',' && top_level(s, i)
}

/// The arguments written in the first `i` characters: the characters between
/// the separating commas, one text for each argument, the last one still open.
pub open spec fn split_prefix(s: Seq<char>, i: int) -> Seq<Seq<char>>
    decreases i,
{
    if i <= 0 || i > s.len() {
        seq![Seq::<char>::empty()]
    } else if separator_at(s, i - 1) {
        split_prefix(s, i - 1).push(Seq::<char>::empty())
    } else {
        let before = split_prefix(s, i - 1);
        before.drop_last().push(before.last().push(s[i - 1]))
    }
}

/// The arguments of an argument list: the text cut at every comma that stands
/// outside all brackets. There is always at least one argument; an empty text
/// has one empty argument.
pub open spec fn split_args(s: Seq<char>) -> Seq<Seq<char>> {
    split_prefix(s, s.len() as int)
}

/// The characters of all arguments and the commas between them make up the
/// text that was split.
pub proof fn lemma_split_prefix_lengths(s: Seq<char>, i: int)
    requires
        0 <= i <= s.len(),
    ensures
        split_prefix(s, i).len() >= 1,
        forall|k: int|
            0 <= k < split_prefix(s, i).len() ==> (#[trigger] split_prefix(s, i)[k]).len() <= i,
    decreases i,
{
    if i > 0 {
        lemma_split_prefix_lengths(s, i - 1);
        let before = split_prefix(s, i - 1);
        if separator_at(s, i - 1) {
        } else {
            let now = split_prefix(s, i);
            assert forall|k: int| 0 <= k < now.len() implies (#[trigger] now[k]).len() <= i by {
                if k < now.len() - 1 {
                    assert(now[k] == before[k]);
                }
            }
        }
    }
}

/// No argument is longer than the list it was cut from.
pub proof fn lemma_split_args_lengths(s: Seq<char>)
    ensures
        split_args(s).len() >= 1,
        forall|k: int| 0 <= k < split_args(s).len() ==> (#[trigger] split_args(s)[k]).len() <= s.len(),
{
    lemma_split_prefix_lengths(s, s.len() as int);
}

/// The bracket depths at one position of a text.
pub struct Nesting {
    pub round: i128,
    pub square: i128,
    pub curly: i128,
}

impl Nesting {
    /// The depths at position `i` of `s`.
    pub open spec fn at(self, s: Seq<char>, i: int) -> bool {
        &&& self.round == depth(s, '(', ')', i)
        &&& self.square == depth(s, '[', ']', i)
        &&& self.curly == depth(s, '{', '}', i)
    }

    pub fn start() -> (n: Nesting)
        ensures
            forall|s: Seq<char>| n.at(s, 0),
    {
        Nesting { round: 0, square: 0, curly: 0 }
    }

    pub fn is_top(&self) -> (b: bool)
        ensures
            forall|s: Seq<char>, i: int| self.at(s, i) ==> b == top_level(s, i),
    {
        self.round == 0 && self.square == 0 && self.curly == 0
    }

    /// Moves over the character at position `i`.
    pub fn step(&mut self, v: &Vec<char>, i: usize)
        requires
            i < v.len(),
            old(self).at(v@, i as int),
        ensures
            final(self).at(v@, i + 1),
    {
        proof {
            lemma_depth_bounds(v@, '(', ')', i as int);
            lemma_depth_bounds(v@, '[', ']', i as int);
            lemma_depth_bounds(v@, '{', '}', i as int);
        }
        let c = v[i];
        if c == '(' {
            self.round = self.round + 1;
        } else if c == ')' {
            self.round = self.round - 1;
        } else if c == '[' {
            self.square = self.square + 1;
        } else if c == ']' {
            self.square = self.square - 1;
        } else if c == '{' {
            self.curly = self.curly + 1;
        } else if c == '}' {
            self.curly = self.curly - 1;
        }
    }
}

/// A depth is at most the number of characters it was counted over.
pub proof fn lemma_depth_bounds(s: Seq<char>, open: char, close: char, i: int)
    requires
        0 <= i <= s.len(),
    ensures
        -i <= depth(s, open, close, i) <= i,
    decreases i,
{
    if i > 0 {
        lemma_depth_bounds(s, open, close, i - 1);
    }
}

/// The texts held by a list of character vectors.
pub open spec fn texts(v: Seq<Vec<char>>) -> Seq<Seq<char>> {
    v.map_values(|x: Vec<char>| x@)
}

/// The arguments of an argument list (see [`split_args`]).
pub fn get_args(chars: &Vec<char>) -> (args: Vec<Vec<char>>)
    ensures
        texts(args@) == split_args(chars@),
{
    let mut args: Vec<Vec<char>> = Vec::new();
    let mut buffer: Vec<char> = Vec::new();
    let mut nesting = Nesting::start();
    let mut i: usize = 0;
    while i < chars.len()
        invariant
            i <= chars.len(),
            nesting.at(chars@, i as int),
            texts(args@).push(buffer@) == split_prefix(chars@, i as int),
        decreases chars.len() - i,
    {
        let ghost before = split_prefix(chars@, i as int);
        let ghost done = texts(args@);
        assert(before.drop_last() == done);
        assert(before.last() == buffer@);
        let c = chars[i];
        if c == ',' && nesting.is_top() {
            args.push(buffer);
            buffer = Vec::new();
            assert(texts(args@) == before);
        } else {
            buffer.push(c);
        }
        nesting.step(chars, i);
        i = i + 1;
    }
    let ghost done = texts(args@);
    args.push(buffer);
    assert(texts(args@) == done.push(buffer@));
    args
}

/// All ways to pick one index below each of the given lengths. The ways stand
/// in the order of counting: the last index moves fastest, the first slowest.
pub open spec fn index_choices(lens: Seq<nat>) -> Seq<Seq<int>>
    decreases lens.len(),
{
    if lens.len() == 0 {
        seq![Seq::<int>::empty()]
    } else {
        let before = index_choices(lens.drop_last());
        let last = lens.last() as int;
        Seq::new(
            (before.len() * last) as nat,
            |k: int|
                if last > 0 {
                    before[k / last].push(k % last)
                } else {
                    Seq::<int>::empty()
                },
        )
    }
}

/// The lengths of the lists.
pub open spec fn lengths<T>(lists: Seq<Seq<T>>) -> Seq<nat> {
    lists.map_values(|l: Seq<T>| l.len())
}

/// The elements that a choice of indices picks, one from each list.
pub open spec fn pick<T>(lists: Seq<Seq<T>>, choice: Seq<int>) -> Seq<T> {
    Seq::new(lists.len(), |p: int| lists[p][choice[p]])
}

/// The cartesian product of the lists: all ways to pick one element from each
/// list. The ways stand in the order of counting: the element from the last
/// list changes fastest, the element from the first list slowest.
pub open spec fn combinations<T>(lists: Seq<Seq<T>>) -> Seq<Seq<T>> {
    index_choices(lengths(lists)).map_values(|choice: Seq<int>| pick(lists, choice))
}

/// Every choice has one index for each length, and each index lies below its
/// length.
pub proof fn lemma_index_choices(lens: Seq<nat>)
    ensures
        forall|k: int, p: int|
            #![trigger index_choices(lens)[k][p]]
            0 <= k < index_choices(lens).len() && 0 <= p < lens.len() ==> index_choices(
                lens,
            )[k].len() == lens.len() && 0 <= index_choices(lens)[k][p] < lens[p],
        forall|k: int|
            0 <= k < index_choices(lens).len() ==> (#[trigger] index_choices(lens)[k]).len()
                == lens.len(),
    decreases lens.len(),
{
    if lens.len() > 0 {
        lemma_index_choices(lens.drop_last());
        let before = index_choices(lens.drop_last());
        let last = lens.last() as int;
        let all = index_choices(lens);
        assert forall|k: int| 0 <= k < all.len() implies (#[trigger] all[k]).len()
            == lens.len() by {
            lemma_product_positive(before.len() as int, last, k);
            lemma_quotient_in_range(before.len() as int, last, k);
            assert(all[k] == before[k / last].push(k % last));
            assert(before[k / last].len() == lens.len() - 1);
        }
        assert forall|k: int, p: int|
            #![trigger all[k][p]]
            0 <= k < all.len() && 0 <= p < lens.len() implies all[k].len() == lens.len() && 0
            <= all[k][p] < lens[p] by {
            lemma_product_positive(before.len() as int, last, k);
            lemma_quotient_in_range(before.len() as int, last, k);
            assert(all[k] == before[k / last].push(k % last));
            assert(before[k / last].len() == lens.len() - 1);
            if p < lens.len() - 1 {
                assert(all[k][p] == before[k / last][p]);
                assert(lens.drop_last()[p] == lens[p]);
            }
        }
    }
}

/// A number below a product of two factors shows that the factors are
/// positive.
pub proof fn lemma_product_positive(a: int, b: int, k: int)
    requires
        0 <= a,
        0 <= b,
        0 <= k < a * b,
    ensures
        a > 0,
        b > 0,
{
    assert(a > 0 && b > 0) by (nonlinear_arith)
        requires
            0 <= a,
            0 <= b,
            0 <= k < a * b,
    ;
}

/// A number below `a * b` has a quotient by `b` below `a`.
pub proof fn lemma_quotient_in_range(a: int, b: int, k: int)
    requires
        0 <= a,
        0 < b,
        0 <= k < a * b,
    ensures
        0 <= k / b < a,
        0 <= k % b < b,
        k == (k / b) * b + k % b,
{
    vstd::arithmetic::div_mod::lemma_fundamental_div_mod(k, b);
    vstd::arithmetic::div_mod::lemma_mod_bound(k, b);
    assert(0 <= k / b < a) by (nonlinear_arith)
        requires
            0 <= a,
            0 < b,
            0 <= k < a * b,
            k == b * (k / b) + k % b,
            0 <= k % b < b,
    ;
    assert((k / b) * b == b * (k / b)) by (nonlinear_arith);
}

/// The choices for one more length: every choice for the lengths before it,
/// extended by every index below the new length.
pub proof fn lemma_index_choices_step(lens: Seq<nat>, r: int, e: int)
    requires
        lens.len() > 0,
        0 <= r < index_choices(lens.drop_last()).len(),
        0 <= e < lens.last(),
    ensures
        index_choices(lens).len() == index_choices(lens.drop_last()).len() * lens.last(),
        0 <= r * lens.last() + e < index_choices(lens).len(),
        index_choices(lens)[r * lens.last() + e] == index_choices(lens.drop_last())[r].push(e),
{
    let before = index_choices(lens.drop_last());
    let last = lens.last() as int;
    let k = r * last + e;
    lemma_split_index(r, last, e);
    assert(0 <= k < before.len() * last) by (nonlinear_arith)
        requires
            k == r * last + e,
            0 <= e < last,
            0 <= r < before.len(),
    ;
}

/// The number `r * b + e` with `e` below `b` has the quotient `r` and the
/// remainder `e`.
pub proof fn lemma_split_index(r: int, b: int, e: int)
    requires
        0 <= r,
        0 <= e < b,
    ensures
        (r * b + e) / b == r,
        (r * b + e) % b == e,
{
    vstd::arithmetic::div_mod::lemma_fundamental_div_mod_converse(r * b + e, b, r, e);
}

/// All ways to pick one index below each of the given lengths (see
/// [`index_choices`]).
#[verifier::loop_isolation(false)]
pub fn index_prod(lens: &Vec<usize>) -> (res: Vec<Vec<usize>>)
    ensures
        res.len() == index_choices(lens@.map_values(|l: usize| l as nat)).len(),
        forall|k: int|
            0 <= k < res.len() ==> (#[trigger] res@[k])@.map_values(|x: usize| x as int)
                == index_choices(lens@.map_values(|l: usize| l as nat))[k],
{
    let ghost all_lens = lens@.map_values(|l: usize| l as nat);
    let mut results: Vec<Vec<usize>> = Vec::new();
    results.push(Vec::new());
    let mut i: usize = 0;
    proof {
        assert(all_lens.take(0) =~= Seq::empty());
        assert(results@[0]@.map_values(|x: usize| x as int) =~= Seq::<int>::empty());
    }
    while i < lens.len()
        invariant
            i <= lens.len(),
            all_lens == lens@.map_values(|l: usize| l as nat),
            results.len() == index_choices(all_lens.take(i as int)).len(),
            forall|k: int|
                0 <= k < results.len() ==> (#[trigger] results@[k])@.map_values(
                    |x: usize| x as int,
                ) == index_choices(all_lens.take(i as int))[k],
        decreases lens.len() - i,
    {
        let ghost before = index_choices(all_lens.take(i as int));
        let ghost now = index_choices(all_lens.take(i + 1));
        let last = lens[i];
        proof {
            assert(all_lens.take(i + 1).drop_last() == all_lens.take(i as int));
            assert(all_lens.take(i + 1).last() == last as nat);
            assert(now.len() == before.len() * (last as int));
        }
        let mut extended: Vec<Vec<usize>> = Vec::new();
        let mut r: usize = 0;
        while r < results.len()
            invariant
                r <= results.len(),
                i < lens.len(),
                last == lens@[i as int],
                results.len() == before.len(),
                now.len() == before.len() * (last as int),
                now == index_choices(all_lens.take(i + 1)),
                before == index_choices(all_lens.take(i as int)),
                all_lens.take(i + 1).drop_last() == all_lens.take(i as int),
                all_lens.take(i + 1).last() == last as nat,
                forall|k: int|
                    0 <= k < results.len() ==> (#[trigger] results@[k])@.map_values(
                        |x: usize| x as int,
                    ) == before[k],
                extended.len() == r * (last as int),
                forall|k: int|
                    0 <= k < extended.len() ==> (#[trigger] extended@[k])@.map_values(
                        |x: usize| x as int,
                    ) == now[k],
            decreases results.len() - r,
        {
            let mut e: usize = 0;
            while e < last
                invariant
                    e <= last,
                    r < results.len(),
                    results.len() == before.len(),
                    now.len() == before.len() * (last as int),
                    now == index_choices(all_lens.take(i + 1)),
                    before == index_choices(all_lens.take(i as int)),
                    all_lens.take(i + 1).drop_last() == all_lens.take(i as int),
                    all_lens.take(i + 1).last() == last as nat,
                    results@[r as int]@.map_values(|x: usize| x as int) == before[r as int],
                    extended.len() == r * (last as int) + e,
                    forall|k: int|
                        0 <= k < extended.len() ==> (#[trigger] extended@[k])@.map_values(
                            |x: usize| x as int,
                        ) == now[k],
                decreases last - e,
            {
                let mut choice = results[r].clone();
                assert(choice@ =~= results@[r as int]@);
                choice.push(e);
                proof {
                    let k = r * (last as int) + e;
                    lemma_index_choices_step(all_lens.take(i + 1), r as int, e as int);
                    assert(now[k] == before[r as int].push(e as int));
                    assert(choice@.map_values(|x: usize| x as int) =~= before[r as int].push(
                        e as int,
                    ));
                }
                extended.push(choice);
                e = e + 1;
            }
            proof {
                assert((r + 1) * (last as int) == r * (last as int) + last) by (nonlinear_arith);
            }
            r = r + 1;
        }
        results = extended;
        i = i + 1;
    }
    assert(all_lens.take(lens.len() as int) == all_lens);
    results
}

/// The views of a list of lists.
pub open spec fn lists_view<T>(lists: Seq<Vec<T>>) -> Seq<Seq<T>> {
    lists.map_values(|l: Vec<T>| l@)
}

/// The cartesian product of the lists (see [`combinations`]): the result
/// holds, in the order of counting, one list for every way to pick one
/// element from each list, made of clones of the elements picked.
pub fn cart_prod<T: Clone>(arr: &Vec<Vec<T>>) -> (res: Vec<Vec<T>>)
    ensures
        res.len() == combinations(lists_view(arr@)).len(),
        forall|k: int|
            0 <= k < res.len() ==> (#[trigger] res@[k]).len() == arr.len(),
        forall|k: int, p: int|
            0 <= k < res.len() && 0 <= p < arr.len() ==> cloned::<T>(
                combinations(lists_view(arr@))[k][p],
                #[trigger] res@[k]@[p],
            ),
{
    let ghost lists = lists_view(arr@);
    let mut lens: Vec<usize> = Vec::new();
    let mut i: usize = 0;
    while i < arr.len()
        invariant
            i <= arr.len(),
            lens.len() == i,
            forall|p: int| 0 <= p < i ==> lens@[p] == arr@[p].len(),
        decreases arr.len() - i,
    {
        lens.push(arr[i].len());
        i = i + 1;
    }
    let ghost all_lens = lens@.map_values(|l: usize| l as nat);
    proof {
        assert(all_lens =~= lengths(lists));
        lemma_index_choices(all_lens);
    }
    let choices = index_prod(&lens);
    let mut res: Vec<Vec<T>> = Vec::new();
    let mut k: usize = 0;
    while k < choices.len()
        invariant
            k <= choices.len(),
            lists == lists_view(arr@),
            all_lens == lengths(lists),
            all_lens.len() == arr.len(),
            choices.len() == index_choices(all_lens).len(),
            forall|c: int|
                0 <= c < choices.len() ==> (#[trigger] choices@[c])@.map_values(
                    |x: usize| x as int,
                ) == index_choices(all_lens)[c],
            res.len() == k,
            forall|c: int| 0 <= c < k ==> (#[trigger] res@[c]).len() == arr.len(),
            forall|c: int, p: int|
                0 <= c < k && 0 <= p < arr.len() ==> cloned::<T>(
                    combinations(lists)[c][p],
                    #[trigger] res@[c]@[p],
                ),
        decreases choices.len() - k,
    {
        let ghost choice = index_choices(all_lens)[k as int];
        let mut picked: Vec<T> = Vec::new();
        let mut p: usize = 0;
        proof {
            lemma_index_choices(all_lens);
            assert(choices@[k as int]@.map_values(|x: usize| x as int) == choice);
            assert(choices@[k as int]@.len() == choice.len());
            assert(choice.len() == all_lens.len());
            assert forall|q: int| 0 <= q < arr.len() implies 0 <= #[trigger] choice[q]
                < all_lens[q] by {
                assert(0 <= index_choices(all_lens)[k as int][q] < all_lens[q]);
            }
        }
        while p < arr.len()
            invariant
                p <= arr.len(),
                k < choices.len(),
                lists == lists_view(arr@),
                all_lens == lengths(lists),
                all_lens.len() == arr.len(),
                choice == index_choices(all_lens)[k as int],
                choices@[k as int]@.map_values(|x: usize| x as int) == choice,
                choices@[k as int]@.len() == arr.len(),
                forall|q: int| 0 <= q < arr.len() ==> 0 <= #[trigger] choice[q] < all_lens[q],
                picked.len() == p,
                forall|q: int|
                    0 <= q < p ==> cloned::<T>(lists[q][choice[q]], #[trigger] picked@[q]),
            decreases arr.len() - p,
        {
            let at = choices[k][p];
            proof {
                assert(choices@[k as int]@.map_values(|x: usize| x as int)[p as int] == at as int);
                assert(choice[p as int] == at as int);
                assert(all_lens[p as int] == lists[p as int].len());
                assert(lists[p as int] == arr@[p as int]@);
            }
            picked.push(arr[p][at].clone());
            p = p + 1;
        }
        proof {
            assert(combinations(lists)[k as int] == pick(lists, choice));
            assert forall|q: int| 0 <= q < arr.len() implies cloned::<T>(
                combinations(lists)[k as int][q],
                #[trigger] picked@[q],
            ) by {
                assert(pick(lists, choice)[q] == lists[q][choice[q]]);
            }
        }
        res.push(picked);
        k = k + 1;
    }
    res
}

/// A text of `n` spaces.
pub open spec fn spaces(n: int) -> Seq<char> {
    Seq::new(
        if n > 0 {
            n as nat
        } else {
            0
        },
        |i: int| ' ',
    )
}

/// The text in the middle of a field that takes `n` bytes in UTF-8. A text
/// that does not fit stays as it is; where the padding cannot be parted
/// evenly, the right side gets one space more.
pub open spec fn centered(f: Seq<char>, n: int) -> Seq<char> {
    let padding = n - crate::text::utf8_len(f);
    if padding < 0 {
        f
    } else {
        spaces(padding / 2) + f + spaces(padding - padding / 2)
    }
}

/// The text in the middle of a field of `n` bytes (see [`centered`]).
pub fn center_in_string(f: String, n: i32) -> (res: String)
    ensures
        res@ == centered(f@, n as int),
{
    if n < 0 {
        return f;
    }
    center(f.as_str(), n as u128)
}

/// The text in the middle of a field of `width` bytes (see [`centered`]).
pub fn center(f: &str, width: u128) -> (res: String)
    ensures
        res@ == centered(f@, width as int),
{
    let chars = crate::text::chars_of(f);
    let len = crate::text::encoded_len(&chars);
    if len > width {
        return crate::text::string_of(&chars);
    }
    let padding: u128 = width - len;
    let left: u128 = padding / 2;
    let right: u128 = padding - left;
    let mut res = String::new();
    let mut i: u128 = 0;
    while i < left
        invariant
            i <= left,
            res@ == spaces(i as int),
        decreases left - i,
    {
        crate::text::push_char(&mut res, ' ');
        assert(res@ =~= spaces(i + 1));
        i = i + 1;
    }
    let mut j: usize = 0;
    while j < chars.len()
        invariant
            j <= chars.len(),
            res@ == spaces(left as int) + chars@.take(j as int),
        decreases chars.len() - j,
    {
        crate::text::push_char(&mut res, chars[j]);
        assert(chars@.take(j + 1) == chars@.take(j as int).push(chars@[j as int]));
        assert(res@ =~= spaces(left as int) + chars@.take(j + 1));
        j = j + 1;
    }
    assert(chars@.take(chars.len() as int) == chars@);
    let mut k: u128 = 0;
    while k < right
        invariant
            k <= right,
            res@ == spaces(left as int) + chars@ + spaces(k as int),
        decreases right - k,
    {
        crate::text::push_char(&mut res, ' ');
        assert(res@ =~= spaces(left as int) + chars@ + spaces(k + 1));
        k = k + 1;
    }
    res
}

/// The cartesian product of two lists pairs every element of the first list
/// with every element of the second, the first list slowest: the pair of the
/// elements at the places `i` and `j` stands at the place `i * b.len() + j`.
pub proof fn law_product_of_two<T>(a: Seq<T>, b: Seq<T>, i: int, j: int)
    requires
        0 <= i < a.len(),
        0 <= j < b.len(),
    ensures
        combinations(seq![a, b]).len() == a.len() * b.len(),
        0 <= i * b.len() + j < combinations(seq![a, b]).len(),
        combinations(seq![a, b])[i * b.len() + j] == seq![a[i], b[j]],
{
    let lists = seq![a, b];
    let lens = lengths(lists);
    assert(lens =~= seq![a.len(), b.len()]);
    assert(lens.drop_last() =~= seq![a.len()]);
    assert(lens.drop_last().drop_last() =~= Seq::<nat>::empty());
    let none = index_choices(Seq::<nat>::empty());
    assert(none =~= seq![Seq::<int>::empty()]);
    lemma_index_choices_step(lens.drop_last(), 0, i);
    assert(0 * (a.len() as int) + i == i) by (nonlinear_arith);
    assert(1 * (a.len() as int) == a.len()) by (nonlinear_arith);
    let ones = index_choices(lens.drop_last());
    assert(ones[i] == Seq::<int>::empty().push(i));
    lemma_index_choices_step(lens, i, j);
    let twos = index_choices(lens);
    let k = i * b.len() + j;
    assert(twos[k] == ones[i].push(j));
    assert(twos[k] =~= seq![i, j]);
    assert(pick(lists, twos[k]) =~= seq![a[i], b[j]]);
}

/// Every way to pick one element from each list has one element for each
/// list.
pub proof fn law_product_widths<T>(lists: Seq<Seq<T>>, k: int)
    requires
        0 <= k < combinations(lists).len(),
    ensures
        combinations(lists)[k].len() == lists.len(),
{
}

/// The cartesian product of no lists is the one empty choice.
pub proof fn law_product_of_none<T>()
    ensures
        combinations(Seq::<Seq<T>>::empty()) == seq![Seq::<T>::empty()],
{
    let lists = Seq::<Seq<T>>::empty();
    assert(lengths(lists) =~= Seq::<nat>::empty());
    assert(index_choices(Seq::<nat>::empty()) =~= seq![Seq::<int>::empty()]);
    assert(combinations(lists).len() == 1);
    assert(combinations(lists)[0] =~= Seq::<T>::empty());
    assert(combinations(lists) =~= seq![Seq::<T>::empty()]);
}

} // verus!
