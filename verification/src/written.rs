//! How values are written out, once their numbers are written: as plain
//! text, as LaTeX, and as a picture made of characters.
//!
//! The library holds a number as bits and cannot write it. A host writes the
//! numbers of a value in the form that it wants and hands them in as a
//! [`Written`] value; what stands around the numbers is decided here.

use crate::basetypes::{names_view, text_eq};
use vstd::prelude::*;
use vstd::string::StringExecFns;

verus! {

/// A value whose numbers are written out.
#[derive(Debug, PartialEq)]
pub enum Written {
    Matrix(Vec<Vec<String>>),
    Vector(Vec<String>),
    Scalar(String),
}

pub enum WrittenView {
    Matrix(Seq<Seq<Seq<char>>>),
    Vector(Seq<Seq<char>>),
    Scalar(Seq<char>),
}

/// The texts of a table of strings.
pub open spec fn table_view(rows: Seq<Vec<String>>) -> Seq<Seq<Seq<char>>> {
    rows.map_values(|r: Vec<String>| names_view(r@))
}

impl View for Written {
    type V = WrittenView;

    open spec fn view(&self) -> WrittenView {
        match self {
            Written::Matrix(rows) => WrittenView::Matrix(table_view(rows@)),
            Written::Vector(cells) => WrittenView::Vector(names_view(cells@)),
            Written::Scalar(text) => WrittenView::Scalar(text@),
        }
    }
}

/// The views of a list of written values.
pub open spec fn written_view(values: Seq<Written>) -> Seq<WrittenView> {
    values.map_values(|v: Written| v@)
}

/// The first `n` texts, with `sep` between them.
pub open spec fn joined(parts: Seq<Seq<char>>, sep: Seq<char>, n: int) -> Seq<char>
    decreases n,
{
    if n <= 0 || n > parts.len() {
        Seq::empty()
    } else if n == 1 {
        parts[0]
    } else {
        joined(parts, sep, n - 1) + sep + parts[n - 1]
    }
}

/// The first `n` rows as plain text: each in square brackets, its cells
/// with `,` between them, and `,` between the rows.
pub open spec fn rows_text(rows: Seq<Seq<Seq<char>>>, n: int) -> Seq<char>
    decreases n,
{
    if n <= 0 || n > rows.len() {
        Seq::empty()
    } else if n == 1 {
        "["@ + joined(rows[0], ","@, rows[0].len() as int) + "]"@
    } else {
        rows_text(rows, n - 1) + ","@ + "["@ + joined(rows[n - 1], ","@, rows[n - 1].len() as int)
            + "]"@
    }
}

/// The first `n` rows as LaTeX: in every row the cells with ` & ` between
/// them, and ` \\` behind every row that is not empty.
pub open spec fn rows_latex(rows: Seq<Seq<Seq<char>>>, n: int) -> Seq<char>
    decreases n,
{
    if n <= 0 || n > rows.len() {
        Seq::empty()
    } else {
        rows_latex(rows, n - 1) + joined(rows[n - 1], " & "@, rows[n - 1].len() as int) + (
        if rows[n - 1].len() > 0 {
            " \\\\"@
        } else {
            Seq::empty()
        })
    }
}

/// The name in front of a value in LaTeX: `pi` is written as the letter.
pub open spec fn latex_name(name: Seq<char>) -> Seq<char> {
    if name == "pi"@ {
        "\\pi"@
    } else {
        name
    }
}

/// `&` where the lines of several values are aligned, else nothing.
pub open spec fn aligner(add_aligner: bool) -> Seq<char> {
    if add_aligner {
        "&"@
    } else {
        Seq::empty()
    }
}

impl WrittenView {
    /// The value as plain text.
    pub open spec fn text(self) -> Seq<char> {
        match self {
            WrittenView::Matrix(rows) => "["@ + rows_text(rows, rows.len() as int) + "]"@,
            WrittenView::Vector(cells) => "["@ + joined(cells, ","@, cells.len() as int) + "]"@,
            WrittenView::Scalar(text) => text,
        }
    }

    /// The value as LaTeX.
    pub open spec fn latex(self) -> Seq<char> {
        match self {
            WrittenView::Scalar(text) => text,
            WrittenView::Vector(cells) => "\\begin{pmatrix}"@ + joined(
                cells,
                "\\\\ "@,
                cells.len() as int,
            ) + "\\end{pmatrix}"@,
            WrittenView::Matrix(rows) => "\\begin{bmatrix}"@ + rows_latex(rows, rows.len() as int)
                + "\\end{bmatrix}"@,
        }
    }

    /// The value as LaTeX behind the name of a variable.
    pub open spec fn latex_at_var(self, var_name: Seq<char>, add_aligner: bool) -> Seq<char> {
        latex_name(var_name) + " "@ + aligner(add_aligner) + "= "@ + self.latex()
    }
}

/// The texts of the first `n` values.
pub open spec fn texts_of(values: Seq<WrittenView>, n: int) -> Seq<Seq<char>> {
    Seq::new(
        if 0 <= n <= values.len() {
            n as nat
        } else {
            0
        },
        |i: int| values[i].text(),
    )
}

/// The LaTeX of the first `n` values.
pub open spec fn latex_of_values(values: Seq<WrittenView>, n: int) -> Seq<Seq<char>> {
    Seq::new(
        if 0 <= n <= values.len() {
            n as nat
        } else {
            0
        },
        |i: int| values[i].latex(),
    )
}

/// The outcomes of an evaluation as plain text: in curly brackets, with `, `
/// between them.
pub open spec fn values_text(values: Seq<WrittenView>) -> Seq<char> {
    "{"@ + joined(texts_of(values, values.len() as int), ", "@, values.len() as int) + "}"@
}

/// The outcomes of an evaluation as LaTeX: one outcome as it is, several in
/// curly brackets with `; ` between them, none as the words `No solutions`.
pub open spec fn values_latex(values: Seq<WrittenView>) -> Seq<char> {
    if values.len() == 1 {
        values[0].latex()
    } else if values.len() == 0 {
        "No solutions"@
    } else {
        "\\left\\{"@ + joined(latex_of_values(values, values.len() as int), "; "@, values.len() as int)
            + "\\right\\}"@
    }
}

/// The outcomes of an evaluation as LaTeX behind the name of a variable.
pub open spec fn values_latex_at_var(
    values: Seq<WrittenView>,
    var_name: Seq<char>,
    add_aligner: bool,
) -> Seq<char> {
    if values.len() == 0 {
        latex_name(var_name) + ": No solutions"@
    } else {
        latex_name(var_name) + " "@ + aligner(add_aligner) + "= "@ + values_latex(values)
    }
}

/// The strings with `sep` between them.
pub fn join(parts: &Vec<String>, sep: &str) -> (s: String)
    ensures
        s@ == joined(names_view(parts@), sep@, parts.len() as int),
{
    let ghost all = names_view(parts@);
    let mut s = String::new();
    let mut i: usize = 0;
    while i < parts.len()
        invariant
            i <= parts.len(),
            all == names_view(parts@),
            s@ == joined(all, sep@, i as int),
        decreases parts.len() - i,
    {
        assert(all[i as int] == parts@[i as int]@);
        if i > 0 {
            s.append(sep);
        } else {
            assert(s@ + parts@[i as int]@ =~= parts@[i as int]@);
        }
        s.append(parts[i].as_str());
        i = i + 1;
    }
    s
}

/// `a`, then `b`, then `c`.
fn glue3(a: &str, b: &str, c: &str) -> (s: String)
    ensures
        s@ == a@ + b@ + c@,
{
    let mut s = String::from_str(a);
    s.append(b);
    s.append(c);
    s
}

/// The name in front of a value in LaTeX.
fn name_in_latex(name: &str) -> (s: String)
    ensures
        s@ == latex_name(name@),
{
    if text_eq(name, "pi") {
        String::from_str("\\pi")
    } else {
        String::from_str(name)
    }
}

impl Written {
    /// The value as plain text, with square brackets around vectors and
    /// matrices.
    pub fn as_string(&self) -> (s: String)
        ensures
            s@ == self@.text(),
    {
        match self {
            Written::Matrix(rows) => {
                let ghost table = table_view(rows@);
                let mut inner = String::new();
                let mut i: usize = 0;
                while i < rows.len()
                    invariant
                        i <= rows.len(),
                        table == table_view(rows@),
                        inner@ == rows_text(table, i as int),
                    decreases rows.len() - i,
                {
                    proof {
                        assert(table[i as int] == names_view(rows@[i as int]@));
                        assert(table[i as int].len() == rows@[i as int].len());
                    }
                    let row = join(&rows[i], ",");
                    if i > 0 {
                        inner.append(",");
                    } else {
                        assert(inner@ + "["@ =~= "["@);
                    }
                    inner.append("[");
                    inner.append(row.as_str());
                    inner.append("]");
                    i = i + 1;
                }
                assert(table.len() == rows.len());
                glue3("[", inner.as_str(), "]")
            },
            Written::Vector(cells) => {
                assert(names_view(cells@).len() == cells.len());
                let inner = join(cells, ",");
                glue3("[", inner.as_str(), "]")
            },
            Written::Scalar(text) => text.clone(),
        }
    }

    /// The value as LaTeX, a vector as a `pmatrix`, a matrix as a `bmatrix`.
    pub fn as_latex(&self) -> (s: String)
        ensures
            s@ == self@.latex(),
    {
        match self {
            Written::Scalar(text) => text.clone(),
            Written::Vector(cells) => {
                assert(names_view(cells@).len() == cells.len());
                let inner = join(cells, "\\\\ ");
                glue3("\\begin{pmatrix}", inner.as_str(), "\\end{pmatrix}")
            },
            Written::Matrix(rows) => {
                let ghost table = table_view(rows@);
                let mut inner = String::new();
                let mut i: usize = 0;
                while i < rows.len()
                    invariant
                        i <= rows.len(),
                        table == table_view(rows@),
                        inner@ == rows_latex(table, i as int),
                    decreases rows.len() - i,
                {
                    proof {
                        assert(table[i as int] == names_view(rows@[i as int]@));
                        assert(table[i as int].len() == rows@[i as int].len());
                    }
                    let row = join(&rows[i], " & ");
                    inner.append(row.as_str());
                    if rows[i].len() > 0 {
                        inner.append(" \\\\");
                    } else {
                        assert(inner@ + Seq::<char>::empty() =~= inner@);
                    }
                    i = i + 1;
                }
                assert(table.len() == rows.len());
                glue3("\\begin{bmatrix}", inner.as_str(), "\\end{bmatrix}")
            },
        }
    }

    /// The value as LaTeX behind the name of a variable and `=`, or `&=`
    /// where the lines of several values are aligned.
    pub fn as_latex_at_var(&self, var_name: &str, add_aligner: bool) -> (s: String)
        ensures
            s@ == self@.latex_at_var(var_name@, add_aligner),
    {
        let mut s = name_in_latex(var_name);
        s.append(" ");
        if add_aligner {
            s.append("&");
        } else {
            assert(s@ + Seq::<char>::empty() =~= s@);
        }
        s.append("= ");
        let body = self.as_latex();
        s.append(body.as_str());
        s
    }
}

/// The outcomes of an evaluation as plain text (see [`values_text`]).
pub fn values_as_string(values: &Vec<Written>) -> (s: String)
    ensures
        s@ == values_text(written_view(values@)),
{
    let ghost all = written_view(values@);
    let mut parts: Vec<String> = Vec::new();
    let mut i: usize = 0;
    assert(names_view(parts@) =~= texts_of(all, 0));
    while i < values.len()
        invariant
            i <= values.len(),
            all == written_view(values@),
            names_view(parts@) == texts_of(all, i as int),
        decreases values.len() - i,
    {
        assert(all[i as int] == values@[i as int]@);
        let ghost before = names_view(parts@);
        let part = values[i].as_string();
        parts.push(part);
        assert(names_view(parts@) =~= before.push(part@));
        assert(names_view(parts@) =~= texts_of(all, i + 1));
        i = i + 1;
    }
    assert(all.len() == values.len());
    assert(names_view(parts@).len() == parts.len());
    let inner = join(&parts, ", ");
    glue3("{", inner.as_str(), "}")
}

/// The outcomes of an evaluation as LaTeX (see [`values_latex`]).
pub fn values_as_latex(values: &Vec<Written>) -> (s: String)
    ensures
        s@ == values_latex(written_view(values@)),
{
    let ghost all = written_view(values@);
    assert(all.len() == values.len());
    if values.len() == 1 {
        assert(all[0] == values@[0]@);
        return values[0].as_latex();
    }
    if values.len() == 0 {
        return String::from_str("No solutions");
    }
    let mut parts: Vec<String> = Vec::new();
    let mut i: usize = 0;
    assert(names_view(parts@) =~= latex_of_values(all, 0));
    while i < values.len()
        invariant
            i <= values.len(),
            all == written_view(values@),
            names_view(parts@) == latex_of_values(all, i as int),
        decreases values.len() - i,
    {
        assert(all[i as int] == values@[i as int]@);
        let ghost before = names_view(parts@);
        let part = values[i].as_latex();
        parts.push(part);
        assert(names_view(parts@) =~= before.push(part@));
        assert(names_view(parts@) =~= latex_of_values(all, i + 1));
        i = i + 1;
    }
    assert(names_view(parts@).len() == parts.len());
    let inner = join(&parts, "; ");
    glue3("\\left\\{", inner.as_str(), "\\right\\}")
}

/// The outcomes of an evaluation as LaTeX behind the name of a variable (see
/// [`values_latex_at_var`]).
pub fn values_as_latex_at_var(values: &Vec<Written>, var_name: &str, add_aligner: bool) -> (s:
    String)
    ensures
        s@ == values_latex_at_var(written_view(values@), var_name@, add_aligner),
{
    assert(written_view(values@).len() == values.len());
    let mut s = name_in_latex(var_name);
    if values.len() == 0 {
        s.append(": No solutions");
        return s;
    }
    s.append(" ");
    if add_aligner {
        s.append("&");
    } else {
        assert(s@ + Seq::<char>::empty() =~= s@);
    }
    s.append("= ");
    let body = values_as_latex(values);
    s.append(body.as_str());
    s
}

} // verus!
