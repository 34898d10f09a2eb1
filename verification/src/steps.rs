//! The steps of a calculation, as LaTeX: a calculation with its result, or
//! the definition of a function.

use crate::basetypes::{names_view, text_eq, AstView, AST};
use crate::display::{latex_at_fun, latex_of};
use crate::errors::{integer, integer_text};
use crate::written::{values_as_latex, values_latex, written_view, Written, WrittenView};
use vstd::prelude::*;
use vstd::string::StringExecFns;

verus! {

/// A step of a calculation.
#[derive(Debug, PartialEq)]
pub enum Step {
    /// A calculation: the expression, its result with the numbers written
    /// out, and the name of the variable that holds the result, if one does.
    Calc { term: AST, result: Vec<Written>, variable_save: Option<String> },
    /// The definition of a function: its expression, the names of its
    /// parameters, and its name.
    Fun { term: AST, inputs: Vec<String>, name: String },
}

pub enum StepView {
    Calc { term: AstView, result: Seq<WrittenView>, variable_save: Option<Seq<char>> },
    Fun { term: AstView, inputs: Seq<Seq<char>>, name: Seq<char> },
}

impl View for Step {
    type V = StepView;

    open spec fn view(&self) -> StepView {
        match self {
            Step::Calc { term, result, variable_save } => StepView::Calc {
                term: term@,
                result: written_view(result@),
                variable_save: match variable_save {
                    Some(name) => Some(name@),
                    None => None,
                },
            },
            Step::Fun { term, inputs, name } => StepView::Fun {
                term: term@,
                inputs: names_view(inputs@),
                name: name@,
            },
        }
    }
}

/// The views of a list of steps.
pub open spec fn steps_view(steps: Seq<Step>) -> Seq<StepView> {
    steps.map_values(|s: Step| s@)
}

/// The first `n` steps, each with the tag of its place: the first step is
/// the equation 1.
pub open spec fn numbered(steps: Seq<StepView>, n: int) -> Seq<char>
    decreases n,
{
    if n <= 0 || n > steps.len() {
        Seq::empty()
    } else {
        numbered(steps, n - 1) + steps[n - 1].latex_with_tag(n)
    }
}

/// The document that shows the steps, one equation each.
pub open spec fn history_text(steps: Seq<StepView>) -> Seq<char> {
    crate::latex::document_head() + numbered(steps, steps.len() as int)
        + crate::latex::document_foot()
}

/// A calculation as LaTeX: the expression and its result with `=` between
/// them, or the expression alone where the result reads like the
/// expression; in front of both the name of the variable that holds the
/// result. `mark` stands in front of the first `=` of the line, `link`
/// between the name and what follows it.
pub open spec fn calculation(
    term: AstView,
    result: Seq<WrittenView>,
    variable_save: Option<Seq<char>>,
    link: Seq<char>,
    mark: Seq<char>,
    spaced: bool,
) -> Seq<char> {
    let front = match variable_save {
        Some(name) => name + link,
        None => Seq::empty(),
    };
    let between = if spaced {
        " "@ + (if variable_save is Some {
            Seq::empty()
        } else {
            mark
        }) + "= "@
    } else {
        " = "@
    };
    if latex_of(term) != values_latex(result) {
        front + latex_of(term) + between + values_latex(result)
    } else {
        front + latex_of(term)
    }
}

impl StepView {
    /// The step as a line of an aligned display.
    pub open spec fn latex(self) -> Seq<char> {
        match self {
            StepView::Calc { term, result, variable_save } => calculation(
                term,
                result,
                variable_save,
                " &= "@,
                "&"@,
                true,
            ),
            StepView::Fun { term, inputs, name } => latex_at_fun(term, name, inputs, true),
        }
    }

    /// The step as a line of an aligned display, with the tag and the label
    /// of an equation, and the end of the line.
    pub open spec fn latex_with_tag(self, equation_number: int) -> Seq<char> {
        self.latex() + " \\tag{"@ + integer_text(equation_number) + "}\\label{eq:"@
            + integer_text(equation_number) + "} \\\\ \\\\ \n"@
    }

    /// The step as a formula within a line of text.
    pub open spec fn latex_inline(self) -> Seq<char> {
        match self {
            StepView::Calc { term, result, variable_save } => calculation(
                term,
                result,
                variable_save,
                " = "@,
                Seq::empty(),
                false,
            ),
            StepView::Fun { term, inputs, name } => latex_at_fun(term, name, inputs, true),
        }
    }
}

/// A calculation as LaTeX (see [`calculation`]).
fn calculation_latex(
    term: &AST,
    result: &Vec<Written>,
    variable_save: &Option<String>,
    link: &str,
    mark: &str,
    spaced: bool,
) -> (s: String)
    ensures
        s@ == calculation(
            term@,
            written_view(result@),
            match variable_save {
                Some(name) => Some(name@),
                None => None,
            },
            link@,
            mark@,
            spaced,
        ),
{
    let mut s = String::new();
    match variable_save {
        Some(name) => {
            s.append(name.as_str());
            s.append(link);
            assert(s@ =~= name@ + link@);
        },
        None => {},
    }
    let expression = term.as_latex();
    let res = values_as_latex(result);
    s.append(expression.as_str());
    if !text_eq(expression.as_str(), res.as_str()) {
        if spaced {
            let mut between = String::from_str(" ");
            if variable_save.is_none() {
                between.append(mark);
            } else {
                assert(between@ + Seq::<char>::empty() =~= between@);
            }
            between.append("= ");
            s.append(between.as_str());
        } else {
            s.append(" = ");
        }
        s.append(res.as_str());
    }
    s
}

impl Step {
    /// The step as a line of an aligned display (see [`StepView::latex`]).
    pub fn as_latex(&self) -> (s: String)
        ensures
            s@ == self@.latex(),
    {
        match self {
            Step::Calc { term, result, variable_save } => calculation_latex(
                term,
                result,
                variable_save,
                " &= ",
                "&",
                true,
            ),
            Step::Fun { term, inputs, name } => term.as_latex_at_fun(name.as_str(), inputs, true),
        }
    }

    /// The step as a line of an aligned display, with the tag and the label
    /// of the equation with the given number.
    pub fn as_latex_with_tag(&self, equation_number: i32) -> (s: String)
        ensures
            s@ == self@.latex_with_tag(equation_number as int),
    {
        let number = integer(equation_number as i64);
        self.tagged(number.as_str())
    }

    /// The step with the tag and the label of the equation whose number is
    /// written as `number`.
    fn tagged(&self, number: &str) -> (s: String)
        ensures
            s@ == self@.latex() + " \\tag{"@ + number@ + "}\\label{eq:"@ + number@
                + "} \\\\ \\\\ \n"@,
    {
        let mut s = self.as_latex();
        s.append(" \\tag{");
        s.append(number);
        s.append("}\\label{eq:");
        s.append(number);
        s.append("} \\\\ \\\\ \n");
        s
    }

    /// The document that shows the steps, one equation each, numbered from
    /// 1 (see [`history_text`]).
    pub fn history(steps: &Vec<Step>) -> (s: String)
        ensures
            s@ == history_text(steps_view(steps@)),
    {
        let ghost all = steps_view(steps@);
        let mut s = String::from_str(
            "\\documentclass[12pt, letterpaper]{article}\n\\usepackage{amsmath}\n\\usepackage[margin=1in]{geometry}\n\\allowdisplaybreaks\n\\begin{document}\n\\begin{align*}\n",
        );
        let mut i: usize = 0;
        assert(s@ =~= crate::latex::document_head() + numbered(all, 0));
        while i < steps.len()
            invariant
                i <= steps.len(),
                all == steps_view(steps@),
                s@ == crate::latex::document_head() + numbered(all, i as int),
            decreases steps.len() - i,
        {
            assert(all[i as int] == steps@[i as int]@);
            let number = crate::errors::decimal((i as u64) + 1);
            let line = steps[i].tagged(number.as_str());
            s.append(line.as_str());
            assert(s@ =~= crate::latex::document_head() + numbered(all, i + 1));
            i = i + 1;
        }
        assert(all.len() == steps.len());
        s.append("\\end{align*}\n\\end{document}");
        s
    }

    /// The step as a formula within a line of text (see
    /// [`StepView::latex_inline`]).
    pub fn as_latex_inline(&self) -> (s: String)
        ensures
            s@ == self@.latex_inline(),
    {
        match self {
            Step::Calc { term, result, variable_save } => calculation_latex(
                term,
                result,
                variable_save,
                " = ",
                "",
                false,
            ),
            Step::Fun { term, inputs, name } => term.as_latex_at_fun(name.as_str(), inputs, true),
        }
    }
}

/// What a history is exported as: a typeset document, or the LaTeX of the
/// document.
#[derive(Debug, Clone, Copy, PartialEq, Eq)]
pub enum ExportType {
    Pdf,
    Tex,
}

/// What is left to do with the document of a history.
#[derive(Debug, PartialEq)]
pub enum Export {
    /// The document is to be typeset: the file that comes of it is the
    /// export.
    Typeset(String),
    /// The text of the document is the export.
    Source(String),
}

/// The export of a history: the document that shows its steps (see
/// [`history_text`]), to be typeset for a PDF, and as it stands otherwise.
pub fn export_history(history: &Vec<Step>, export_type: ExportType) -> (res: Export)
    ensures
        match export_type {
            ExportType::Pdf => res matches Export::Typeset(d) && d@ == history_text(
                steps_view(history@),
            ),
            ExportType::Tex => res matches Export::Source(d) && d@ == history_text(
                steps_view(history@),
            ),
        },
{
    let document = Step::history(history);
    match export_type {
        ExportType::Pdf => Export::Typeset(document),
        ExportType::Tex => Export::Source(document),
    }
}

} // verus!
