//! The texts around a rendering: the document that holds the steps of a
//! calculation, and the colour of the lines of a picture.

use crate::text::{chars_of, string_of};
use vstd::prelude::*;

verus! {

/// The text in which every place where `from` stands holds `to` instead. The
/// places are found from the left, and a place that is replaced is not
/// looked at again. `from` is not empty.
pub open spec fn replaced(s: Seq<char>, from: Seq<char>, to: Seq<char>) -> Seq<char>
    decreases s.len(),
{
    if from.len() == 0 || s.len() < from.len() {
        s
    } else if s.subrange(0, from.len() as int) == from {
        to + replaced(s.subrange(from.len() as int, s.len() as int), from, to)
    } else {
        seq![s[0]] + replaced(s.subrange(1, s.len() as int), from, to)
    }
}

/// The word that stands in a picture where the colour of its lines belongs.
pub open spec fn colour_mark() -> Seq<char> {
    "currentColor"@
}

/// The picture with its lines in the given colour.
pub open spec fn recoloured(svg: Seq<char>, line_color: Seq<char>) -> Seq<char> {
    replaced(svg, colour_mark(), line_color)
}

/// The start of a document.
pub open spec fn document_head() -> Seq<char> {
    "\\documentclass[12pt, letterpaper]{article}\n\\usepackage{amsmath}\n\\usepackage[margin=1in]{geometry}\n\\allowdisplaybreaks\n\\begin{document}\n\\begin{align*}\n"@
}

/// The end of a document.
pub open spec fn document_foot() -> Seq<char> {
    "\\end{align*}\n\\end{document}"@
}

/// Whether `pattern` stands in `s` at the place `at`.
fn stands_at(s: &Vec<char>, at: usize, pattern: &Vec<char>) -> (b: bool)
    requires
        at <= s.len(),
    ensures
        b == (pattern.len() <= s.len() - at && s@.subrange(at as int, at + pattern.len())
            == pattern@),
{
    if pattern.len() > s.len() - at {
        return false;
    }
    let mut i: usize = 0;
    while i < pattern.len()
        invariant
            i <= pattern.len(),
            at + pattern.len() <= s.len(),
            s@.subrange(at as int, at + i) == pattern@.subrange(0, i as int),
        decreases pattern.len() - i,
    {
        if s[at + i] != pattern[i] {
            assert(s@.subrange(at as int, at + pattern.len())[i as int] != pattern@[i as int]);
            return false;
        }
        assert(s@.subrange(at as int, at + i + 1) == s@.subrange(at as int, at + i).push(
            s@[at + i],
        ));
        assert(pattern@.subrange(0, i + 1) == pattern@.subrange(0, i as int).push(
            pattern@[i as int],
        ));
        i = i + 1;
    }
    assert(pattern@.subrange(0, pattern.len() as int) == pattern@);
    true
}

/// The text in which every place where `from` stands holds `to` instead (see
/// [`replaced`]).
pub fn replace_all(s: &Vec<char>, from: &Vec<char>, to: &Vec<char>) -> (res: Vec<char>)
    requires
        from.len() > 0,
    ensures
        res@ == replaced(s@, from@, to@),
{
    let mut res: Vec<char> = Vec::new();
    let mut at: usize = 0;
    proof {
        assert(s@.subrange(0, s.len() as int) == s@);
        assert(res@ + replaced(s@, from@, to@) =~= replaced(s@, from@, to@));
    }
    while at < s.len()
        invariant
            at <= s.len(),
            from.len() > 0,
            replaced(s@, from@, to@) == res@ + replaced(
                s@.subrange(at as int, s.len() as int),
                from@,
                to@,
            ),
        decreases s.len() - at,
    {
        let ghost rest = s@.subrange(at as int, s.len() as int);
        let ghost before = res@;
        if stands_at(s, at, from) {
            let mut k: usize = 0;
            while k < to.len()
                invariant
                    k <= to.len(),
                    res@ == before + to@.subrange(0, k as int),
                decreases to.len() - k,
            {
                res.push(to[k]);
                assert(to@.subrange(0, k + 1) == to@.subrange(0, k as int).push(to@[k as int]));
                k = k + 1;
            }
            proof {
                assert(to@.subrange(0, to.len() as int) == to@);
                assert(rest.subrange(0, from.len() as int) == s@.subrange(
                    at as int,
                    at + from.len(),
                ));
                assert(rest.subrange(from.len() as int, rest.len() as int) == s@.subrange(
                    at + from.len(),
                    s.len() as int,
                ));
                assert(before + (to@ + replaced(
                    s@.subrange(at + from.len(), s.len() as int),
                    from@,
                    to@,
                )) =~= res@ + replaced(
                    s@.subrange(at + from.len(), s.len() as int),
                    from@,
                    to@,
                ));
            }
            at = at + from.len();
        } else {
            res.push(s[at]);
            proof {
                assert(rest[0] == s@[at as int]);
                assert(rest.subrange(1, rest.len() as int) == s@.subrange(
                    at + 1,
                    s.len() as int,
                ));
                if rest.len() >= from.len() {
                    assert(rest.subrange(0, from.len() as int) == s@.subrange(
                        at as int,
                        at + from.len(),
                    ));
                    assert(before + (seq![s@[at as int]] + replaced(
                        s@.subrange(at + 1, s.len() as int),
                        from@,
                        to@,
                    )) =~= res@ + replaced(s@.subrange(at + 1, s.len() as int), from@, to@));
                } else {
                    lemma_short_text(rest, from@, to@);
                    lemma_short_text(s@.subrange(at + 1, s.len() as int), from@, to@);
                    assert(before + rest =~= res@ + s@.subrange(at + 1, s.len() as int));
                }
            }
            at = at + 1;
        }
    }
    proof {
        assert(s@.subrange(s.len() as int, s.len() as int) =~= Seq::<char>::empty());
        assert(res@ + Seq::<char>::empty() =~= res@);
        assert(s@.subrange(0, s.len() as int) == s@);
    }
    res
}

/// In a text that is shorter than `from`, `from` stands nowhere.
pub proof fn lemma_short_text(s: Seq<char>, from: Seq<char>, to: Seq<char>)
    requires
        s.len() < from.len(),
    ensures
        replaced(s, from, to) == s,
{
}

/// The picture with its lines in the given colour: every `currentColor` in
/// the picture is replaced by the colour.
pub fn recolor(svg: &str, line_color: &str) -> (res: String)
    ensures
        res@ == recoloured(svg@, line_color@),
{
    let picture = chars_of(svg);
    let mark = chars_of("currentColor");
    let colour = chars_of(line_color);
    if mark.len() == 0 {
        return string_of(&picture);
    }
    let res = replace_all(&picture, &mark, &colour);
    string_of(&res)
}

} // verus!
