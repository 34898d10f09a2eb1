//! A written value as a picture made of characters: a vector between round
//! brackets, a matrix between square brackets, each drawn over several
//! lines.

use crate::basetypes::{names_view, text_eq};
use crate::helpers::{center, centered, spaces};
use crate::text::{chars_of, encoded_len, push_char, utf8_len};
use crate::written::{table_view, Written, WrittenView};
use vstd::prelude::*;
use vstd::string::StringExecFns;

verus! {

/// The names that are written with a letter of their own, and their letters.
pub open spec fn symbols() -> Seq<(Seq<char>, Seq<char>)> {
    seq![
        ("\\alpha"@, "𝛼"@),
        ("\\Alpha"@, "𝛢"@),
        ("\\beta"@, "𝛽"@),
        ("\\Beta"@, "𝛣"@),
        ("\\gamma"@, "𝛾"@),
        ("\\Gamma"@, "𝚪"@),
        ("\\delta"@, "𝛿"@),
        ("\\Delta"@, "𝛥"@),
        ("\\epsilon"@, "𝜺"@),
        ("\\Epsilon"@, "𝛦"@),
        ("\\zeta"@, "𝜁"@),
        ("\\Zeta"@, "𝛧"@),
        ("\\eta"@, "𝜂"@),
        ("\\Eta"@, "𝛨"@),
        ("\\theta"@, "𝜃"@),
        ("\\Theta"@, "𝛩"@),
        ("\\iota"@, "𝜄"@),
        ("\\Iota"@, "𝛪"@),
        ("\\kappa"@, "𝜅"@),
        ("\\Kappa"@, "𝛫"@),
        ("\\lambda"@, "𝜆"@),
        ("\\Lambda"@, "𝛬"@),
        ("\\mu"@, "𝜇"@),
        ("\\Mu"@, "𝛭"@),
        ("\\nu"@, "𝜈"@),
        ("\\Nu"@, "𝛮"@),
        ("\\xi"@, "𝜉"@),
        ("\\Xi"@, "𝛯"@),
        ("\\omicron"@, "𝜊"@),
        ("\\Omicron"@, "𝛰"@),
        ("pi"@, "𝜋"@),
        ("\\Pi"@, "𝛱"@),
        ("\\rho"@, "𝜌"@),
        ("\\Rho"@, "𝛲"@),
        ("\\sigma"@, "𝜎"@),
        ("\\Sigma"@, "𝛴"@),
        ("\\tau"@, "𝜏"@),
        ("\\Tau"@, "𝛵"@),
        ("\\upsilon"@, "𝜐"@),
        ("\\Upsilon"@, "𝛶"@),
        ("\\phi"@, "𝜑"@),
        ("\\Phi"@, "𝛷"@),
        ("\\psi"@, "𝜓"@),
        ("\\Psi"@, "𝛹"@),
        ("\\omega"@, "𝜔"@),
        ("\\Omega"@, "𝛺"@),
    ]
}

/// The letter of the first entry, from `from` on, that has the name; the
/// name itself if no entry has it.
pub open spec fn symbol_from(name: Seq<char>, from: int) -> Seq<char>
    decreases symbols().len() - from,
{
    if from < 0 || from >= symbols().len() {
        name
    } else if symbols()[from].0 == name {
        symbols()[from].1
    } else {
        symbol_from(name, from + 1)
    }
}

/// The name as it is written in a picture.
pub open spec fn symbol_of(name: Seq<char>) -> Seq<char> {
    symbol_from(name, 0)
}

/// The greatest number of bytes that one of the first `n` texts takes.
pub open spec fn widest(cells: Seq<Seq<char>>, n: int) -> nat
    decreases n,
{
    if n <= 0 || n > cells.len() {
        0
    } else if widest(cells, n - 1) >= utf8_len(cells[n - 1]) {
        widest(cells, n - 1)
    } else {
        utf8_len(cells[n - 1])
    }
}

/// The greatest number of bytes that a text in one of the first `n` rows
/// takes.
pub open spec fn widest_in(rows: Seq<Seq<Seq<char>>>, n: int) -> nat
    decreases n,
{
    if n <= 0 || n > rows.len() {
        0
    } else if widest_in(rows, n - 1) >= widest(rows[n - 1], rows[n - 1].len() as int) {
        widest_in(rows, n - 1)
    } else {
        widest(rows[n - 1], rows[n - 1].len() as int)
    }
}

/// The line that carries the name, of `lines` lines: the middle one, or the
/// one above the middle.
pub open spec fn middle(lines: nat) -> int {
    (lines + 1) / 2 - 1
}

/// What stands in front of a value with a name.
pub open spec fn label(name: Option<Seq<char>>) -> Seq<char> {
    match name {
        Some(n) => n + " = "@,
        None => Seq::empty(),
    }
}

/// What stands in front of the bracket in line `i`: the label in the middle
/// line, as many spaces as the label takes bytes in the others.
pub open spec fn line_start(name: Option<Seq<char>>, i: int, lines: nat) -> Seq<char> {
    if name is Some && i == middle(lines) {
        label(name)
    } else {
        spaces(utf8_len(label(name)) as int)
    }
}

/// The piece of the opening bracket in line `i`.
pub open spec fn opening(round: bool, i: int, lines: nat) -> Seq<char> {
    if i == 0 {
        if round {
            "⎛"@
        } else {
            "⎡"@
        }
    } else if i == lines - 1 {
        if round {
            "⎝"@
        } else {
            "⎣"@
        }
    } else {
        if round {
            "⎜"@
        } else {
            "⎢"@
        }
    }
}

/// The piece of the closing bracket in line `i`.
pub open spec fn closing(round: bool, i: int, lines: nat) -> Seq<char> {
    if i == 0 {
        if round {
            "⎞"@
        } else {
            "⎤"@
        }
    } else if i == lines - 1 {
        if round {
            "⎠"@
        } else {
            "⎦"@
        }
    } else {
        if round {
            "⎟"@
        } else {
            "⎥"@
        }
    }
}

/// The end of line `i`: a line feed, but behind the last line.
pub open spec fn line_end(i: int, lines: nat) -> Seq<char> {
    if i != lines - 1 {
        "\n"@
    } else {
        Seq::empty()
    }
}

/// The first `n` cells of a row, each in the middle of a field of `width`
/// bytes, with a space between them.
pub open spec fn row_cells(cells: Seq<Seq<char>>, width: nat, n: int) -> Seq<char>
    decreases n,
{
    if n <= 0 || n > cells.len() {
        Seq::empty()
    } else {
        row_cells(cells, width, n - 1) + centered(cells[n - 1], width as int) + (if n
            != cells.len() {
            " "@
        } else {
            Seq::empty()
        })
    }
}

/// The first `n` lines of the picture of a vector.
pub open spec fn vector_lines(cells: Seq<Seq<char>>, name: Option<Seq<char>>, n: int) -> Seq<char>
    decreases n,
{
    if n <= 0 || n > cells.len() {
        Seq::empty()
    } else {
        vector_lines(cells, name, n - 1) + line_start(name, n - 1, cells.len()) + opening(
            true,
            n - 1,
            cells.len(),
        ) + centered(cells[n - 1], widest(cells, cells.len() as int) as int) + closing(
            true,
            n - 1,
            cells.len(),
        ) + line_end(n - 1, cells.len())
    }
}

/// The first `n` lines of the picture of a matrix.
pub open spec fn matrix_lines(rows: Seq<Seq<Seq<char>>>, name: Option<Seq<char>>, n: int) -> Seq<
    char,
>
    decreases n,
{
    if n <= 0 || n > rows.len() {
        Seq::empty()
    } else {
        matrix_lines(rows, name, n - 1) + line_start(name, n - 1, rows.len()) + opening(
            false,
            n - 1,
            rows.len(),
        ) + row_cells(rows[n - 1], widest_in(rows, rows.len() as int), rows[n - 1].len() as int)
            + closing(false, n - 1, rows.len()) + line_end(n - 1, rows.len())
    }
}

/// The picture of a value, behind its name if it has one. Every number
/// stands in the middle of a field as wide as the widest number.
pub open spec fn picture(value: WrittenView, name: Option<Seq<char>>) -> Seq<char> {
    match value {
        WrittenView::Scalar(text) => label(name) + text,
        WrittenView::Vector(cells) => vector_lines(cells, name, cells.len() as int),
        WrittenView::Matrix(rows) => matrix_lines(rows, name, rows.len() as int),
    }
}

/// The names that are written with a letter of their own, and their letters.
fn symbol_table() -> (table: Vec<(&'static str, &'static str)>)
    ensures
        table@.map_values(|e: (&'static str, &'static str)| (e.0@, e.1@)) == symbols(),
{
    let mut table: Vec<(&'static str, &'static str)> = Vec::new();
    table.push(("\\alpha", "𝛼"));
    table.push(("\\Alpha", "𝛢"));
    table.push(("\\beta", "𝛽"));
    table.push(("\\Beta", "𝛣"));
    table.push(("\\gamma", "𝛾"));
    table.push(("\\Gamma", "𝚪"));
    table.push(("\\delta", "𝛿"));
    table.push(("\\Delta", "𝛥"));
    table.push(("\\epsilon", "𝜺"));
    table.push(("\\Epsilon", "𝛦"));
    table.push(("\\zeta", "𝜁"));
    table.push(("\\Zeta", "𝛧"));
    table.push(("\\eta", "𝜂"));
    table.push(("\\Eta", "𝛨"));
    table.push(("\\theta", "𝜃"));
    table.push(("\\Theta", "𝛩"));
    table.push(("\\iota", "𝜄"));
    table.push(("\\Iota", "𝛪"));
    table.push(("\\kappa", "𝜅"));
    table.push(("\\Kappa", "𝛫"));
    table.push(("\\lambda", "𝜆"));
    table.push(("\\Lambda", "𝛬"));
    table.push(("\\mu", "𝜇"));
    table.push(("\\Mu", "𝛭"));
    table.push(("\\nu", "𝜈"));
    table.push(("\\Nu", "𝛮"));
    table.push(("\\xi", "𝜉"));
    table.push(("\\Xi", "𝛯"));
    table.push(("\\omicron", "𝜊"));
    table.push(("\\Omicron", "𝛰"));
    table.push(("pi", "𝜋"));
    table.push(("\\Pi", "𝛱"));
    table.push(("\\rho", "𝜌"));
    table.push(("\\Rho", "𝛲"));
    table.push(("\\sigma", "𝜎"));
    table.push(("\\Sigma", "𝛴"));
    table.push(("\\tau", "𝜏"));
    table.push(("\\Tau", "𝛵"));
    table.push(("\\upsilon", "𝜐"));
    table.push(("\\Upsilon", "𝛶"));
    table.push(("\\phi", "𝜑"));
    table.push(("\\Phi", "𝛷"));
    table.push(("\\psi", "𝜓"));
    table.push(("\\Psi", "𝛹"));
    table.push(("\\omega", "𝜔"));
    table.push(("\\Omega", "𝛺"));
    assert(table@.map_values(|e: (&'static str, &'static str)| (e.0@, e.1@)) =~= symbols());
    table
}

/// The name as it is written in a picture (see [`symbol_of`]).
pub fn symbol(name: &str) -> (res: String)
    ensures
        res@ == symbol_of(name@),
{
    let table = symbol_table();
    let ghost views = table@.map_values(|e: (&'static str, &'static str)| (e.0@, e.1@));
    let mut i: usize = 0;
    while i < table.len()
        invariant
            i <= table.len(),
            views == table@.map_values(|e: (&'static str, &'static str)| (e.0@, e.1@)),
            views == symbols(),
            symbol_of(name@) == symbol_from(name@, i as int),
        decreases table.len() - i,
    {
        assert(views[i as int] == (table@[i as int].0@, table@[i as int].1@));
        if text_eq(table[i].0, name) {
            return String::from_str(table[i].1);
        }
        i = i + 1;
    }
    String::from_str(name)
}

/// The number of bytes that the text takes.
fn bytes_of(text: &str) -> (n: u128)
    ensures
        n == utf8_len(text@),
{
    let chars = chars_of(text);
    encoded_len(&chars)
}

/// The greatest number of bytes that one of the texts takes.
fn widest_of(cells: &Vec<String>) -> (w: u128)
    ensures
        w == widest(names_view(cells@), cells.len() as int),
{
    let ghost all = names_view(cells@);
    let mut w: u128 = 0;
    let mut i: usize = 0;
    while i < cells.len()
        invariant
            i <= cells.len(),
            all == names_view(cells@),
            w == widest(all, i as int),
        decreases cells.len() - i,
    {
        assert(all[i as int] == cells@[i as int]@);
        let n = bytes_of(cells[i].as_str());
        if n > w {
            w = n;
        }
        i = i + 1;
    }
    w
}

/// As many spaces as `n` says.
fn blank(n: u128) -> (s: String)
    ensures
        s@ == spaces(n as int),
{
    let mut s = String::new();
    let mut i: u128 = 0;
    assert(s@ =~= spaces(0));
    while i < n
        invariant
            i <= n,
            s@ == spaces(i as int),
        decreases n - i,
    {
        push_char(&mut s, ' ');
        assert(s@ =~= spaces(i + 1));
        i = i + 1;
    }
    s
}

/// What stands in front of a value with a name.
fn label_of(name: &Option<String>) -> (s: String)
    ensures
        s@ == label(
            match name {
                Some(n) => Some(n@),
                None => None,
            },
        ),
{
    match name {
        Some(n) => {
            let mut s = n.clone();
            s.append(" = ");
            s
        },
        None => String::new(),
    }
}

/// What a name is, if there is one.
pub open spec fn name_view(name: Option<String>) -> Option<Seq<char>> {
    match name {
        Some(n) => Some(n@),
        None => None,
    }
}

/// The start, the opening bracket, the cells, the closing bracket and the
/// end of line `i`, appended to the picture.
fn push_line(
    picture: &mut String,
    name: &Option<String>,
    round: bool,
    i: usize,
    lines: usize,
    cells: &str,
)
    requires
        i < lines,
    ensures
        final(picture)@ == old(picture)@ + line_start(name_view(*name), i as int, lines as nat)
            + opening(round, i as int, lines as nat) + cells@ + closing(
            round,
            i as int,
            lines as nat,
        ) + line_end(i as int, lines as nat),
{
    let tag = label_of(name);
    let middle_line: usize = (lines - 1) / 2;
    assert(middle_line == middle(lines as nat));
    if name.is_some() && i == middle_line {
        picture.append(tag.as_str());
    } else {
        let gap = blank(bytes_of(tag.as_str()));
        picture.append(gap.as_str());
    }
    if i == 0 {
        picture.append(
            if round {
                "⎛"
            } else {
                "⎡"
            },
        );
    } else if i == lines - 1 {
        picture.append(
            if round {
                "⎝"
            } else {
                "⎣"
            },
        );
    } else {
        picture.append(
            if round {
                "⎜"
            } else {
                "⎢"
            },
        );
    }
    picture.append(cells);
    if i == 0 {
        picture.append(
            if round {
                "⎞"
            } else {
                "⎤"
            },
        );
    } else if i == lines - 1 {
        picture.append(
            if round {
                "⎠"
            } else {
                "⎦"
            },
        );
    } else {
        picture.append(
            if round {
                "⎟"
            } else {
                "⎥"
            },
        );
    }
    if i != lines - 1 {
        picture.append("\n");
    } else {
        assert(picture@ + Seq::<char>::empty() =~= picture@);
    }
}

impl Written {
    /// The picture of the value, behind its name if it has one (see
    /// [`picture`]).
    pub fn pretty_print(&self, var_name: Option<String>) -> (res: String)
        ensures
            res@ == picture(self@, name_view(var_name)),
    {
        match self {
            Written::Scalar(text) => {
                let mut res = label_of(&var_name);
                res.append(text.as_str());
                res
            },
            Written::Vector(cells) => {
                let ghost all = names_view(cells@);
                let width = widest_of(cells);
                let mut res = String::new();
                let mut i: usize = 0;
                assert(all.len() == cells.len());
                while i < cells.len()
                    invariant
                        i <= cells.len(),
                        all == names_view(cells@),
                        width == widest(all, cells.len() as int),
                        res@ == vector_lines(all, name_view(var_name), i as int),
                    decreases cells.len() - i,
                {
                    assert(all[i as int] == cells@[i as int]@);
                    let cell = center(cells[i].as_str(), width);
                    push_line(&mut res, &var_name, true, i, cells.len(), cell.as_str());
                    i = i + 1;
                }
                res
            },
            Written::Matrix(rows) => {
                let ghost table = table_view(rows@);
                let mut width: u128 = 0;
                let mut k: usize = 0;
                while k < rows.len()
                    invariant
                        k <= rows.len(),
                        table == table_view(rows@),
                        width == widest_in(table, k as int),
                    decreases rows.len() - k,
                {
                    proof {
                        assert(table[k as int] == names_view(rows@[k as int]@));
                        assert(table[k as int].len() == rows@[k as int].len());
                    }
                    let w = widest_of(&rows[k]);
                    if w > width {
                        width = w;
                    }
                    k = k + 1;
                }
                let mut res = String::new();
                let mut i: usize = 0;
                assert(table.len() == rows.len());
                while i < rows.len()
                    invariant
                        i <= rows.len(),
                        table == table_view(rows@),
                        width == widest_in(table, rows.len() as int),
                        res@ == matrix_lines(table, name_view(var_name), i as int),
                    decreases rows.len() - i,
                {
                    let ghost row = names_view(rows@[i as int]@);
                    proof {
                        assert(table[i as int] == row);
                        assert(row.len() == rows@[i as int].len());
                    }
                    let mut cells = String::new();
                    let mut j: usize = 0;
                    while j < rows[i].len()
                        invariant
                            i < rows.len(),
                            j <= rows@[i as int].len(),
                            row == names_view(rows@[i as int]@),
                            row.len() == rows@[i as int].len(),
                            cells@ == row_cells(row, width as nat, j as int),
                        decreases rows@[i as int].len() - j,
                    {
                        assert(row[j as int] == rows@[i as int]@[j as int]@);
                        let cell = center(rows[i][j].as_str(), width);
                        cells.append(cell.as_str());
                        if j != rows[i].len() - 1 {
                            cells.append(" ");
                        } else {
                            assert(cells@ + Seq::<char>::empty() =~= cells@);
                        }
                        j = j + 1;
                    }
                    push_line(&mut res, &var_name, false, i, rows.len(), cells.as_str());
                    i = i + 1;
                }
                res
            },
        }
    }

    /// The picture of the value without a name.
    pub fn as_unicode(&self) -> (res: String)
        ensures
            res@ == picture(self@, None),
    {
        self.pretty_print(None)
    }

    /// The picture of the value behind the name of a variable; a Greek
    /// letter that is named is written as the letter.
    pub fn as_unicode_at_var(&self, var_name: &str) -> (res: String)
        ensures
            res@ == picture(self@, Some(symbol_of(var_name@))),
    {
        self.pretty_print(Some(symbol(var_name)))
    }
}

} // verus!
