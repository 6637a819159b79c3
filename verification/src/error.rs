//! Diagnostic types and their rendering.
//!
//! Every compiler stage produces `Diagnostic`s on failure. They are shown with
//! a caret pointing at the offending column.

use vstd::prelude::*;

use crate::text;

verus! {

/// A single compiler error.
#[derive(Debug, Clone)]
pub struct Diagnostic {
    /// e.g. "E201"
    pub code: String,
    /// human-readable explanation
    pub message: String,
    /// source file path
    pub file: String,
    /// 1-based line number
    pub line: usize,
    /// 1-based column number
    pub col: usize,
    /// the full text of `line`
    pub source_line: String,
    /// Short message shown next to the caret (the main message if empty).
    pub label: String,
}

/// The model of a [`Diagnostic`].
pub struct DiagM {
    pub code: Seq<char>,
    pub message: Seq<char>,
    pub file: Seq<char>,
    pub line: nat,
    pub col: nat,
    pub source_line: Seq<char>,
    pub label: Seq<char>,
}

impl View for Diagnostic {
    type V = DiagM;

    open spec fn view(&self) -> DiagM {
        DiagM {
            code: self.code@,
            message: self.message@,
            file: self.file@,
            line: self.line as nat,
            col: self.col as nat,
            source_line: self.source_line@,
            label: self.label@,
        }
    }
}

pub open spec fn diags_view(s: Seq<Diagnostic>) -> Seq<DiagM> {
    Seq::new(s.len(), |i: int| s[i]@)
}

/// A diagnostic without a label.
pub open spec fn plain_diag(
    code: Seq<char>,
    message: Seq<char>,
    file: Seq<char>,
    line: nat,
    col: nat,
    source_line: Seq<char>,
) -> DiagM {
    DiagM { code, message, file, line, col, source_line, label: Seq::empty() }
}

/// The text of the 1-based line `line`, empty if there is no such line.
pub open spec fn source_line(src: Seq<char>, line: nat) -> Seq<char> {
    let ls = text::lines(src);
    if 1 <= line <= ls.len() {
        ls[line - 1]
    } else {
        Seq::empty()
    }
}

/// Whether the code belongs to the range of codes that starts with `E` and `d`.
pub open spec fn code_in(code: Seq<char>, d: char) -> bool {
    code.len() == 4 && code[0] == 'E' && code[1] == d
}

/// Whether all the diagnostics have codes of that range.
pub open spec fn codes_in(ds: Seq<DiagM>, d: char) -> bool {
    forall|i: int| 0 <= i < ds.len() ==> code_in(#[trigger] ds[i].code, d)
}

pub open spec fn spaces(n: nat) -> Seq<char> {
    Seq::new(n, |i: int| ' ')
}

/// What stands under the source line before the caret: a space for each
/// character before the column, and a tab for each tab.
pub open spec fn caret_prefix(source: Seq<char>, col: nat) -> Seq<char> {
    let n = if col <= 1 {
        0
    } else if source.len() < col - 1 {
        source.len()
    } else {
        (col - 1) as nat
    };
    Seq::new(
        n,
        |i: int|
            if source[i] == '\t' {
                '\t'
            } else {
                ' '
            },
    )
}

impl DiagM {
    /// The message shown next to the caret.
    pub open spec fn shown_label(self) -> Seq<char> {
        if self.label.len() == 0 {
            self.message
        } else {
            self.label
        }
    }

    /// The width of the gutter: that of the line number, and two columns at least.
    pub open spec fn gutter(self) -> nat {
        let n = text::decimal(self.line).len();
        if n < 2 {
            2
        } else {
            n
        }
    }

    /// The line number at the right of the gutter.
    pub open spec fn number(self) -> Seq<char> {
        let n = text::decimal(self.line);
        spaces((self.gutter() - n.len()) as nat) + n
    }

    /// The source line behind its number.
    pub open spec fn source_row(self) -> Seq<char> {
        self.number() + " | "@ + self.source_line
    }

    /// The line under it, with the caret and the label.
    pub open spec fn caret_row(self) -> Seq<char> {
        spaces(self.gutter()) + " | "@ + caret_prefix(self.source_line, self.col) + "^ "@
            + self.shown_label()
    }

    /// The five lines of a rendered diagnostic, each with its line feed.
    pub open spec fn rendered(self) -> Seq<char> {
        let head = "error["@ + self.code + "]: "@ + self.message + "\n"@;
        let place = "  --> "@ + self.file + ":"@ + text::decimal(self.line) + ":"@ + text::decimal(
            self.col,
        ) + "\n"@;
        let rule = spaces(self.gutter()) + " |\n"@;
        head + place + rule + (self.source_row() + "\n"@) + (self.caret_row() + "\n"@)
    }
}

/// The caret points at the column: it stands under that character of the source
/// line, and only blanks, or tabs under tabs, stand before it.
pub proof fn caret_points_at_the_column(d: DiagM)
    requires
        1 <= d.col <= d.source_line.len() + 1,
    ensures
        ({
            let gutter = d.source_row().len() - d.source_line.len();
            &&& d.source_row().skip(gutter) == d.source_line
            &&& d.caret_row()[gutter + d.col - 1] == '^'
            &&& forall|j: int|
                0 <= j < d.col - 1 ==> #[trigger] d.caret_row()[gutter + j] == (
                if d.source_line[j] == '\t' {
                    '\t'
                } else {
                    ' '
                })
        }),
{
    reveal_strlit(" | ");
    reveal_strlit("^ ");
    let gutter = d.source_row().len() - d.source_line.len();
    let prefix = caret_prefix(d.source_line, d.col);
    assert(gutter == d.gutter() + 3);
    assert(prefix.len() == d.col - 1);
    assert(d.source_row().skip(gutter) =~= d.source_line);
    assert forall|j: int| 0 <= j < d.col - 1 implies #[trigger] d.caret_row()[gutter + j]
        == prefix[j] by {}
}

/// The rendered diagnostics, each followed by a blank line.
pub open spec fn all_rendered(ds: Seq<DiagM>) -> Seq<char>
    decreases ds.len(),
{
    if ds.len() == 0 {
        Seq::empty()
    } else {
        all_rendered(ds.drop_last()) + ds.last().rendered() + "\n"@
    }
}

/// The report on the diagnostics: each of them, and how many there were.
pub open spec fn report(ds: Seq<DiagM>) -> Seq<char> {
    let body = all_rendered(ds);
    if ds.len() == 0 {
        body
    } else if ds.len() == 1 {
        body + "error: aborting due to previous error\n"@
    } else {
        body + "error: aborting due to "@ + text::decimal(ds.len()) + " previous errors\n"@
    }
}

fn blank_text(n: usize) -> (r: String)
    ensures
        r@ == spaces(n as nat),
{
    let mut s = String::new();
    let mut i: usize = 0;
    assert(s@ =~= spaces(0));
    while i < n
        invariant
            i <= n,
            s@ == spaces(i as nat),
        decreases n - i,
    {
        s.push(' ');
        i = i + 1;
        assert(s@ =~= spaces(i as nat));
    }
    s
}

fn caret_text(source: &Vec<char>, col: usize) -> (r: String)
    ensures
        r@ == caret_prefix(source@, col as nat),
{
    let n: usize = if col <= 1 {
        0
    } else if source.len() < col - 1 {
        source.len()
    } else {
        col - 1
    };
    let mut s = String::new();
    let mut i: usize = 0;
    while i < n
        invariant
            i <= n <= source@.len(),
            s@ == caret_prefix(source@, col as nat).take(i as int),
            n == caret_prefix(source@, col as nat).len(),
        decreases n - i,
    {
        s.push(
            if source[i] == '\t' {
                '\t'
            } else {
                ' '
            },
        );
        i = i + 1;
        assert(s@ =~= caret_prefix(source@, col as nat).take(i as int));
    }
    assert(s@ =~= caret_prefix(source@, col as nat));
    s
}

impl Diagnostic {
    pub fn new(
        code: &str,
        message: String,
        file: String,
        line: usize,
        col: usize,
        source_line: String,
    ) -> (r: Diagnostic)
        ensures
            r@ == plain_diag(code@, message@, file@, line as nat, col as nat, source_line@),
    {
        let label = String::new();
        assert(label@ =~= Seq::<char>::empty());
        Diagnostic { code: code.to_owned(), message, file, line, col, source_line, label }
    }

    /// Set the short caret label (builder style).
    pub fn with_label(self, label: &str) -> (r: Diagnostic)
        ensures
            r@ == (DiagM { label: label@, ..self@ }),
    {
        Diagnostic { label: label.to_owned(), ..self }
    }

    /// Render the diagnostic to a printable string.
    ///
    /// ```text
    /// error[E200]: expected return type after ')', found `{`
    ///   --> src/main.jo:5:16
    ///    |
    ///  5 | fn foo(x: int) {
    ///    |                ^ expected return type
    /// ```
    pub fn render(&self) -> (r: String)
        ensures
            r@ == self@.rendered(),
    {
        // The gutter is as wide as the line number, and two columns at least.
        let number = text::decimal_text(self.line);
        let digits: usize = text::to_chars(number.as_str()).len();
        let width: usize = if digits < 2 {
            2
        } else {
            digits
        };
        let pad = blank_text(width);
        let head = text::cat5(
            "error[",
            self.code.as_str(),
            "]: ",
            self.message.as_str(),
            "\n",
        );
        let col = text::decimal_text(self.col);
        let place = text::cat7(
            "  --> ",
            self.file.as_str(),
            ":",
            number.as_str(),
            ":",
            col.as_str(),
            "\n",
        );
        let rule = text::cat2(pad.as_str(), " |\n");
        let source = text::cat5(
            blank_text(width - digits).as_str(),
            number.as_str(),
            " | ",
            self.source_line.as_str(),
            "\n",
        );
        let prefix = caret_text(&text::to_chars(self.source_line.as_str()), self.col);
        let label = if self.label.as_str().is_empty() {
            self.message.as_str()
        } else {
            self.label.as_str()
        };
        let mut caret = text::cat5(pad.as_str(), " | ", prefix.as_str(), "^ ", label);
        caret.append("\n");
        assert(caret@ =~= self@.caret_row() + "\n"@);
        assert(source@ =~= self@.source_row() + "\n"@);
        text::cat5(head.as_str(), place.as_str(), rule.as_str(), source.as_str(), caret.as_str())
    }
}

/// The report on the diagnostics: each of them followed by a blank line, then
/// how many there were.
pub fn report_text(diags: &Vec<Diagnostic>) -> (r: String)
    ensures
        r@ == report(diags_view(diags@)),
{
    let mut s = String::new();
    let mut i: usize = 0;
    let ghost ds = diags_view(diags@);
    assert(s@ =~= all_rendered(ds.take(0)));
    while i < diags.len()
        invariant
            i <= diags@.len(),
            ds == diags_view(diags@),
            s@ == all_rendered(ds.take(i as int)),
        decreases diags@.len() - i,
    {
        s.append(diags[i].render().as_str());
        s.append("\n");
        assert(ds.take(i + 1).drop_last() =~= ds.take(i as int));
        i = i + 1;
    }
    assert(ds.take(i as int) =~= ds);
    if diags.len() == 1 {
        s.append("error: aborting due to previous error\n");
    } else if diags.len() > 1 {
        s.append("error: aborting due to ");
        s.append(text::decimal_text(diags.len()).as_str());
        s.append(" previous errors\n");
    }
    s
}

/// The 1-based `line`'s text in `src`, or "" if out of range.
pub fn source_line_of(src: &str, line: usize) -> (r: String)
    ensures
        r@ == source_line(src@, line as nat),
{
    if line == 0 {
        let e = String::new();
        assert(e@ =~= Seq::<char>::empty());
        return e;
    }
    let ls = text::split_lines(&text::to_chars(src));
    assert(text::texts(ls@).len() == ls@.len());
    if line <= ls.len() {
        text::all_text(&ls[line - 1])
    } else {
        String::new()
    }
}

} // verus!
