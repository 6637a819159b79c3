//! Findings: what the compiler printed, read back for the editor.

use vstd::prelude::*;

use crate::error;
use crate::error::DiagM;
use crate::text;
use crate::text::Class;

verus! {

/// One finding, with 0-based places.
pub struct Finding {
    pub line: u64,
    pub character: u64,
    pub end_character: u64,
    /// 1 for an error, 2 for a warning
    pub severity: u8,
    pub message: String,
}

pub struct FindingM {
    pub line: nat,
    pub character: nat,
    pub end_character: nat,
    pub severity: u8,
    pub message: Seq<char>,
}

impl View for Finding {
    type V = FindingM;

    open spec fn view(&self) -> FindingM {
        FindingM {
            line: self.line as nat,
            character: self.character as nat,
            end_character: self.end_character as nat,
            severity: self.severity,
            message: self.message@,
        }
    }
}

pub open spec fn findings_view(s: Seq<Finding>) -> Seq<FindingM> {
    Seq::new(s.len(), |i: int| s[i]@)
}

/// How many characters a finding underlines.
pub const SHOWN_WIDTH: u64 = 80;

pub open spec fn before(n: nat) -> nat {
    if n == 0 {
        0
    } else {
        (n - 1) as nat
    }
}

/// The finding at a 1-based line and column.
pub open spec fn finding(severity: u8, message: Seq<char>, line: nat, col: nat) -> FindingM {
    FindingM {
        line: before(line),
        character: before(col),
        end_character: before(col) + SHOWN_WIDTH as nat,
        severity,
        message,
    }
}

/// What follows the code in a heading.
pub open spec fn message_of(rest: Seq<char>) -> Seq<char> {
    match text::split_once(rest, "]: "@) {
        Some((_, m)) => m,
        None => Seq::empty(),
    }
}

/// The severity and the message of a heading `error[CODE]: message` or
/// `warning[CODE]: message`.
pub open spec fn heading(line: Seq<char>) -> Option<(u8, Seq<char>)> {
    match text::after_prefix(line, "error["@) {
        Some(r) => Some((1u8, message_of(r))),
        None => match text::after_prefix(line, "warning["@) {
            Some(r) => Some((2u8, message_of(r))),
            None => None,
        },
    }
}

/// What stands before and after the last `c`.
pub open spec fn cut_last(s: Seq<char>, c: char, n: int) -> Option<(Seq<char>, Seq<char>)>
    decreases n,
{
    if n <= 0 || n > s.len() {
        None
    } else if s[n - 1] == c {
        Some((s.take(n - 1), s.skip(n)))
    } else {
        cut_last(s, c, n - 1)
    }
}

/// A number that fits in 32 bits, else 1.
pub open spec fn number(s: Seq<char>) -> nat {
    match text::unsigned_value(text::trim(s)) {
        Some(n) => if n <= u32::MAX {
            n
        } else {
            1
        },
        None => 1,
    }
}

/// The line and the column of a place `--> file:line:col`. It is read from the
/// right, since the file may hold colons.
pub open spec fn place(line: Seq<char>) -> Option<(nat, nat)> {
    match text::after_prefix(text::trim(line), "--> "@) {
        None => None,
        Some(loc) => match cut_last(loc, ':', loc.len() as int) {
            None => None,
            Some((head, col)) => match cut_last(head, ':', head.len() as int) {
                None => Some((number(head), number(col))),
                Some((_, l)) => Some((number(l), number(col))),
            },
        },
    }
}

/// The findings in the lines: a heading, and on the line after it the place.
pub open spec fn findings(lines: Seq<Seq<char>>) -> Seq<FindingM>
    decreases lines.len(),
{
    if lines.len() == 0 {
        Seq::empty()
    } else {
        match heading(lines[0]) {
            None => findings(lines.skip(1)),
            Some((severity, message)) => if lines.len() == 1 {
                Seq::empty()
            } else {
                match place(lines[1]) {
                    Some((line, col)) => seq![finding(severity, message, line, col)] + findings(
                        lines.skip(2),
                    ),
                    None => findings(lines.skip(2)),
                }
            },
        }
    }
}

fn read_message(rest: &Vec<char>) -> (r: Vec<char>)
    ensures
        r@ == message_of(rest@),
{
    match text::split_text(rest, "]: ") {
        Some((_, m)) => m,
        None => {
            let none: Vec<char> = Vec::new();
            assert(none@ =~= Seq::empty());
            none
        },
    }
}

fn read_heading(line: &Vec<char>) -> (r: Option<(u8, Vec<char>)>)
    ensures
        match r {
            Some((severity, message)) => heading(line@) == Some((severity, message@)),
            None => heading(line@) is None,
        },
{
    if let Some(rest) = text::strip_head(line, "error[") {
        Some((1, read_message(&rest)))
    } else if let Some(rest) = text::strip_head(line, "warning[") {
        Some((2, read_message(&rest)))
    } else {
        None
    }
}

fn split_last(v: &Vec<char>, c: char) -> (r: Option<(Vec<char>, Vec<char>)>)
    ensures
        match r {
            Some((a, b)) => cut_last(v@, c, v@.len() as int) == Some((a@, b@)),
            None => cut_last(v@, c, v@.len() as int) is None,
        },
{
    let mut n: usize = v.len();
    while n > 0
        invariant
            n <= v@.len(),
            cut_last(v@, c, v@.len() as int) == cut_last(v@, c, n as int),
        decreases n,
    {
        if v[n - 1] == c {
            let a = text::slice_chars(v, 0, n - 1);
            let b = text::slice_chars(v, n, v.len());
            assert(a@ =~= v@.take(n - 1));
            assert(b@ =~= v@.skip(n as int));
            return Some((a, b));
        }
        n = n - 1;
    }
    None
}

fn read_number(v: &Vec<char>) -> (r: u64)
    ensures
        r == number(v@),
        r <= u32::MAX,
{
    match text::parse_unsigned(&text::trimmed(v), u32::MAX as u64) {
        Some(n) => n,
        None => 1,
    }
}

fn read_place(line: &Vec<char>) -> (r: Option<(u64, u64)>)
    ensures
        match r {
            Some((l, c)) => {
                &&& place(line@) == Some((l as nat, c as nat))
                &&& l <= u32::MAX
                &&& c <= u32::MAX
            },
            None => place(line@) is None,
        },
{
    let loc = text::strip_head(&text::trimmed(line), "--> ")?;
    let (head, col) = split_last(&loc, ':')?;
    let l: u64 = match split_last(&head, ':') {
        Some((_, l)) => read_number(&l),
        None => read_number(&head),
    };
    Some((l, read_number(&col)))
}

/// The findings in what the compiler wrote to its error output.
pub fn parse_diagnostics(stderr: &str) -> (r: Vec<Finding>)
    ensures
        findings_view(r@) == findings(text::lines(stderr@)),
{
    let lines = text::split_lines(&text::to_chars(stderr));
    let ghost ls = text::lines(stderr@);
    let mut out: Vec<Finding> = Vec::new();
    let mut i: usize = 0;
    assert(ls.skip(0) =~= ls);
    assert(ls.len() == lines@.len());
    assert(findings_view(out@) + findings(ls) =~= findings(ls));
    while i < lines.len()
        invariant
            i <= lines@.len(),
            ls == text::lines(stderr@),
            ls == text::texts(lines@),
            ls.len() == lines@.len(),
            findings_view(out@) + findings(ls.skip(i as int)) == findings(ls),
        decreases lines@.len() - i,
    {
        let ghost rest = ls.skip(i as int);
        assert(rest[0] == lines@[i as int]@);
        assert(rest.skip(1) =~= ls.skip(i + 1));
        match read_heading(&lines[i]) {
            None => {
                i = i + 1;
            },
            Some((severity, message)) => {
                if i + 1 >= lines.len() {
                    assert(findings(rest) =~= Seq::empty());
                    assert(findings_view(out@) + Seq::empty() =~= findings_view(out@));
                    return out;
                }
                assert(rest[1] == lines@[i + 1]@);
                assert(rest.skip(2) =~= ls.skip(i + 2));
                if let Some((l, c)) = read_place(&lines[i + 1]) {
                    let line: u64 = if l == 0 {
                        0
                    } else {
                        l - 1
                    };
                    let character: u64 = if c == 0 {
                        0
                    } else {
                        c - 1
                    };
                    let f = Finding {
                        line,
                        character,
                        end_character: character + SHOWN_WIDTH,
                        severity,
                        message: text::all_text(&message),
                    };
                    let ghost past = out@;
                    let ghost next = f@;
                    out.push(f);
                    assert(next == finding(severity, message@, l as nat, c as nat));
                    assert(findings_view(out@) =~= findings_view(past).push(next));
                    assert(findings_view(past) + (seq![next] + findings(ls.skip(i + 2)))
                        =~= findings_view(out@) + findings(ls.skip(i + 2)));
                }
                i = i + 2;
            },
        }
    }
    assert(ls.skip(i as int) =~= Seq::empty());
    assert(findings_view(out@) + Seq::empty() =~= findings_view(out@));
    out
}

// ---------------------------------------------------------------------------
// What is reported is what is found
// ---------------------------------------------------------------------------

/// Whether a diagnostic is rendered on five lines that can be told apart: its
/// texts hold no line ends, its code does not run into the bracket after it, and
/// its place fits in 32 bits.
pub open spec fn renders_plainly(d: DiagM) -> bool {
    &&& !d.code.contains('\n')
    &&& text::find_from(d.code + "]: "@, "]: "@, 0) == Some(d.code.len() as int)
    &&& !d.message.contains('\n')
    &&& !(d.message.len() > 0 && d.message.last() == '\r')
    &&& !d.file.contains('\n')
    &&& !d.source_line.contains('\n')
    &&& !d.label.contains('\n')
    &&& d.line <= u32::MAX
    &&& d.col <= u32::MAX
}

/// The finding that shows a diagnostic.
pub open spec fn shown(d: DiagM) -> FindingM {
    finding(1, d.message, d.line, d.col)
}

proof fn contains_sum(a: Seq<char>, b: Seq<char>, c: char)
    requires
        !a.contains(c),
        !b.contains(c),
    ensures
        !(a + b).contains(c),
{
    assert forall|i: int| 0 <= i < (a + b).len() implies (a + b)[i] != c by {
        if i < a.len() {
            assert(a.contains(a[i]));
        } else {
            assert(b.contains(b[i - a.len()]));
        }
    }
}

proof fn digits_hold_no(n: nat, c: char)
    requires
        !text::is_digit(c),
    ensures
        !text::decimal(n).contains(c),
{
    text::decimal_denotes(n);
    let s = text::decimal(n);
    if s.contains(c) {
        let i = choose|i: int| 0 <= i < s.len() && s[i] == c;
        assert(text::is_digit(s[i]));
    }
}

/// Text that starts and ends with something visible is trimmed already.
proof fn trim_keeps(s: Seq<char>)
    requires
        s.len() > 0,
        !text::is_white(s[0]),
        !text::is_white(s.last()),
    ensures
        text::trim(s) == s,
{
    text::run_end_at(s, 0, 0, Class::White);
    assert(s.skip(0) =~= s);
}

proof fn number_of_decimal(n: nat)
    requires
        n <= u32::MAX,
    ensures
        number(text::decimal(n)) == n,
{
    text::decimal_denotes(n);
    let s = text::decimal(n);
    assert(text::is_digit(s[0]));
    assert(text::is_digit(s[s.len() - 1]));
    trim_keeps(s);
}

proof fn cut_last_at(a: Seq<char>, b: Seq<char>, c: char, n: int)
    requires
        !b.contains(c),
        a.len() < n <= a.len() + 1 + b.len(),
    ensures
        cut_last(a.push(c) + b, c, n) == Some((a, b)),
    decreases n,
{
    let s = a.push(c) + b;
    if n == a.len() + 1 {
        assert(s[n - 1] == c);
        assert(s.take(n - 1) =~= a);
        assert(s.skip(n) =~= b);
    } else {
        let j = n - 2 - a.len();
        assert(s[n - 1] == b[j]);
        assert(b.contains(b[j]));
        cut_last_at(a, b, c, n - 1);
    }
}

proof fn heading_of_head(code: Seq<char>, message: Seq<char>)
    requires
        text::find_from(code + "]: "@, "]: "@, 0) == Some(code.len() as int),
    ensures
        heading("error["@ + code + "]: "@ + message) == Some((1u8, message)),
{
    reveal_strlit("error[");
    reveal_strlit("]: ");
    let n = code.len() as int;
    let s = "error["@ + code + "]: "@ + message;
    let r = code + "]: "@ + message;
    assert(s.subrange(0, 6) =~= "error["@);
    assert(s.skip(6) =~= r);
    text::find_from_spec(r, "]: "@, 0);
    text::find_from_spec(code + "]: "@, "]: "@, 0);
    assert(r.subrange(n, n + 3) =~= "]: "@);
    assert(text::occurs_at(r, "]: "@, n));
    let j = text::find_from(r, "]: "@, 0)->0;
    if j < n {
        assert((code + "]: "@).subrange(j, j + 3) =~= r.subrange(j, j + 3));
        assert(text::occurs_at(code + "]: "@, "]: "@, j));
    }
    assert(r.skip(n + 3) =~= message);
}

#[verifier::rlimit(30)]
proof fn place_of_place(file: Seq<char>, line: nat, col: nat)
    requires
        line <= u32::MAX,
        col <= u32::MAX,
    ensures
        place("  --> "@ + file + ":"@ + text::decimal(line) + ":"@ + text::decimal(col)) == Some(
            (line, col),
        ),
{
    reveal_strlit("  --> ");
    reveal_strlit("--> ");
    reveal_strlit(":");
    let l = text::decimal(line);
    let c = text::decimal(col);
    let s = "  --> "@ + file + ":"@ + l + ":"@ + c;
    let t = "--> "@ + file + ":"@ + l + ":"@ + c;
    let loc = file + ":"@ + l + ":"@ + c;
    let head = file + ":"@ + l;
    text::decimal_denotes(col);
    text::decimal_denotes(line);
    text::run_end_at(s, 0, 2, Class::White);
    assert(s.skip(2) =~= t);
    assert(t.last() == c.last());
    assert(text::is_digit(c[c.len() - 1]));
    assert(text::trim(s) == t);
    assert(t.subrange(0, 4) =~= "--> "@);
    assert(t.skip(4) =~= loc);
    digits_hold_no(line, ':');
    digits_hold_no(col, ':');
    assert(loc =~= head.push(':') + c);
    assert(head =~= file.push(':') + l);
    cut_last_at(head, c, ':', loc.len() as int);
    cut_last_at(file, l, ':', head.len() as int);
    number_of_decimal(line);
    number_of_decimal(col);
}

/// A line that starts with a character other than those of the headings.
proof fn no_heading(line: Seq<char>)
    requires
        line.len() == 0 || (line[0] != 'e' && line[0] != 'w'),
    ensures
        heading(line) is None,
{
    reveal_strlit("error[");
    reveal_strlit("warning[");
    if text::occurs_at(line, "error["@, 0) {
        assert(line.subrange(0, 6)[0] == line[0]);
    }
    if text::occurs_at(line, "warning["@, 0) {
        assert(line.subrange(0, 8)[0] == line[0]);
    }
}

proof fn cr_keeps_heading(line: Seq<char>)
    requires
        line.len() > 0,
        line[0] != 'e' && line[0] != 'w',
    ensures
        heading(text::without_cr(line)) is None,
{
    no_heading(text::without_cr(line));
}

/// The findings in one rendered diagnostic and what follows it.
#[verifier::rlimit(60)]
#[verifier::spinoff_prover]
proof fn findings_of_rendered(d: DiagM, rest: Seq<char>)
    requires
        renders_plainly(d),
    ensures
        findings(text::lines(d.rendered() + rest)) == seq![shown(d)] + findings(
            text::lines(rest),
        ),
{
    reveal_strlit("error[");
    reveal_strlit("]: ");
    reveal_strlit("  --> ");
    reveal_strlit(":");
    reveal_strlit(" |\n");
    reveal_strlit(" |");
    reveal_strlit(" | ");
    reveal_strlit("^ ");
    reveal_strlit("\n");
    let n = text::decimal(d.line);
    let c = text::decimal(d.col);
    let pad = error::spaces(d.gutter());
    let prefix = error::caret_prefix(d.source_line, d.col);
    text::decimal_denotes(d.line);
    text::decimal_denotes(d.col);
    digits_hold_no(d.line, '\n');
    digits_hold_no(d.col, '\n');
    digits_hold_no(d.col, '\r');
    let l1 = "error["@ + d.code + "]: "@ + d.message;
    let l2 = "  --> "@ + d.file + ":"@ + n + ":"@ + c;
    let l3 = pad + " |"@;
    let l4 = d.source_row();
    let l5 = pad + " | "@ + prefix + "^ "@ + d.shown_label();
    let t4 = l5 + "\n"@ + rest;
    let t3 = l4 + "\n"@ + t4;
    let t2 = l3 + "\n"@ + t3;
    let t1 = l2 + "\n"@ + t2;
    let whole = d.rendered() + rest;
    assert(" |\n"@ =~= " |"@ + "\n"@);
    assert(whole =~= l1 + "\n"@ + t1);
    assert(!"error["@.contains('\n'));
    assert(!"]: "@.contains('\n'));
    assert(!"  --> "@.contains('\n'));
    assert(!":"@.contains('\n'));
    assert(!" |"@.contains('\n'));
    assert(!" | "@.contains('\n'));
    assert(!"^ "@.contains('\n'));
    assert(!pad.contains('\n'));
    assert(!prefix.contains('\n'));
    contains_sum("error["@, d.code, '\n');
    contains_sum("error["@ + d.code, "]: "@, '\n');
    contains_sum("error["@ + d.code + "]: "@, d.message, '\n');
    contains_sum("  --> "@, d.file, '\n');
    contains_sum("  --> "@ + d.file, ":"@, '\n');
    contains_sum("  --> "@ + d.file + ":"@, n, '\n');
    contains_sum("  --> "@ + d.file + ":"@ + n, ":"@, '\n');
    contains_sum("  --> "@ + d.file + ":"@ + n + ":"@, c, '\n');
    contains_sum(pad, " |"@, '\n');
    let blanks = error::spaces((d.gutter() - n.len()) as nat);
    assert(!blanks.contains('\n'));
    contains_sum(blanks, n, '\n');
    contains_sum(d.number(), " | "@, '\n');
    contains_sum(d.number() + " | "@, d.source_line, '\n');
    contains_sum(pad, " | "@, '\n');
    contains_sum(pad + " | "@, prefix, '\n');
    contains_sum(pad + " | "@ + prefix, "^ "@, '\n');
    contains_sum(pad + " | "@ + prefix + "^ "@, d.shown_label(), '\n');
    text::lines_first(l1, t1);
    text::lines_first(l2, t2);
    text::lines_first(l3, t3);
    text::lines_first(l4, t4);
    text::lines_first(l5, rest);
    // The first two lines are read whole.
    assert(text::without_cr(l1) == l1) by {
        if d.message.len() > 0 {
            assert(l1.last() == d.message.last());
        } else {
            assert(l1.last() == ' ');
        }
    }
    assert(text::without_cr(l2) == l2) by {
        assert(l2.last() == c.last());
        assert(c.contains(c.last()));
    }
    heading_of_head(d.code, d.message);
    place_of_place(d.file, d.line, d.col);
    // The other lines start with a blank or a digit.
    assert(l3[0] == ' ');
    assert(text::is_digit(n[0]));
    assert(l4[0] == ' ' || l4[0] == n[0]);
    assert(l5[0] == ' ');
    cr_keeps_heading(l3);
    cr_keeps_heading(l4);
    cr_keeps_heading(l5);
    let w3 = text::lines(t2);
    let w4 = text::lines(t3);
    let w5 = text::lines(t4);
    let w6 = text::lines(rest);
    let all = text::lines(whole);
    assert(w5.skip(1) =~= w6);
    assert(w4.skip(1) =~= w5);
    assert(w3.skip(1) =~= w4);
    assert(all[0] == l1);
    assert(all[1] == l2);
    assert(all.skip(2) =~= w3);
    assert(findings(w5) == findings(w6));
    assert(findings(w4) == findings(w5));
    assert(findings(w3) == findings(w4));
}

proof fn rendered_first(ds: Seq<DiagM>)
    requires
        ds.len() > 0,
    ensures
        error::all_rendered(ds) == ds[0].rendered() + "\n"@ + error::all_rendered(ds.skip(1)),
    decreases ds.len(),
{
    if ds.len() == 1 {
        assert(ds.drop_last() =~= Seq::empty());
        assert(ds.skip(1) =~= Seq::empty());
        assert(error::all_rendered(ds) =~= ds[0].rendered() + "\n"@ + error::all_rendered(
            ds.skip(1),
        ));
    } else {
        rendered_first(ds.drop_last());
        assert(ds.drop_last().skip(1) =~= ds.skip(1).drop_last());
        assert(ds.drop_last()[0] == ds[0]);
        assert(ds.skip(1).last() == ds.last());
        assert(error::all_rendered(ds) =~= ds[0].rendered() + "\n"@ + error::all_rendered(
            ds.skip(1),
        ));
    }
}

proof fn findings_of_all(ds: Seq<DiagM>, rest: Seq<char>)
    requires
        forall|i: int| 0 <= i < ds.len() ==> renders_plainly(#[trigger] ds[i]),
    ensures
        findings(text::lines(error::all_rendered(ds) + rest)) == Seq::new(
            ds.len(),
            |i: int| shown(ds[i]),
        ) + findings(text::lines(rest)),
    decreases ds.len(),
{
    let all = Seq::new(ds.len(), |i: int| shown(ds[i]));
    if ds.len() == 0 {
        assert(error::all_rendered(ds) + rest =~= rest);
        assert(all + findings(text::lines(rest)) =~= findings(text::lines(rest)));
    } else {
        let tail = ds.skip(1);
        rendered_first(ds);
        findings_of_all(tail, rest);
        let more = error::all_rendered(tail) + rest;
        let none = Seq::<char>::empty();
        let after = none + "\n"@ + more;
        assert(error::all_rendered(ds) + rest =~= ds[0].rendered() + after);
        findings_of_rendered(ds[0], after);
        // The blank line between the diagnostics is passed over.
        text::lines_first(none, more);
        no_heading(none);
        assert(text::lines(after).skip(1) =~= text::lines(more));
        assert(findings(text::lines(after)) == findings(text::lines(more)));
        let others = Seq::new(tail.len(), |i: int| shown(tail[i]));
        assert(seq![shown(ds[0])] + (others + findings(text::lines(rest))) =~= all + findings(
            text::lines(rest),
        ));
    }
}

/// A rendered diagnostic is read back as one error, with its message, at its
/// place.
pub proof fn rendering_is_read_back(d: DiagM)
    requires
        renders_plainly(d),
    ensures
        findings(text::lines(d.rendered())) == seq![shown(d)],
{
    let none = Seq::<char>::empty();
    findings_of_rendered(d, none);
    assert(d.rendered() + none =~= d.rendered());
    assert(text::lines(none) =~= Seq::empty());
    assert(findings(text::lines(none)) =~= Seq::empty());
    assert(seq![shown(d)] + Seq::empty() =~= seq![shown(d)]);
}

/// The editor shows what the compiler reports: one error for each diagnostic, in
/// order, with its message, at its place.
pub proof fn report_is_read_back(ds: Seq<DiagM>)
    requires
        forall|i: int| 0 <= i < ds.len() ==> renders_plainly(#[trigger] ds[i]),
    ensures
        findings(text::lines(error::report(ds))) == Seq::new(ds.len(), |i: int| shown(ds[i])),
{
    let all = Seq::new(ds.len(), |i: int| shown(ds[i]));
    let body = error::all_rendered(ds);
    let end = if ds.len() == 0 {
        Seq::empty()
    } else if ds.len() == 1 {
        "error: aborting due to previous error\n"@
    } else {
        "error: aborting due to "@ + text::decimal(ds.len()) + " previous errors\n"@
    };
    assert(error::report(ds) =~= body + end);
    findings_of_all(ds, end);
    assert(findings(text::lines(end)) =~= Seq::empty()) by {
        count_is_no_heading(ds.len());
        assert(text::lines(Seq::<char>::empty()) =~= Seq::empty());
    }
    assert(all + Seq::empty() =~= all);
}

proof fn count_line(line: Seq<char>)
    requires
        !line.contains('\n'),
        line.len() > 6,
        line[0] == 'e',
        line[5] == ':',
    ensures
        findings(text::lines(line + "\n"@)) == Seq::<FindingM>::empty(),
{
    reveal_strlit("error[");
    reveal_strlit("warning[");
    let none = Seq::<char>::empty();
    assert(line + "\n"@ + none =~= line + "\n"@);
    text::lines_first(line, none);
    let w = text::without_cr(line);
    if text::occurs_at(w, "error["@, 0) {
        assert(w.subrange(0, 6)[5] == w[5]);
    }
    if text::occurs_at(w, "warning["@, 0) {
        assert(w.subrange(0, 8)[0] == w[0]);
    }
    let ls = text::lines(line + "\n"@);
    assert(text::lines(none) =~= Seq::empty());
    assert(ls.skip(1) =~= Seq::empty());
    assert(findings(ls.skip(1)) == Seq::<FindingM>::empty());
    assert(ls[0] == w);
}

proof fn count_is_no_heading(n: nat)
    ensures
        findings(text::lines("error: aborting due to previous error\n"@)) == Seq::<FindingM>::empty(),
        findings(
            text::lines("error: aborting due to "@ + text::decimal(n) + " previous errors\n"@),
        ) == Seq::<FindingM>::empty(),
{
    reveal_strlit("\n");
    reveal_strlit("error: aborting due to previous error\n");
    reveal_strlit("error: aborting due to previous error");
    reveal_strlit("error: aborting due to ");
    reveal_strlit(" previous errors\n");
    reveal_strlit(" previous errors");
    let one = "error: aborting due to previous error"@;
    assert("error: aborting due to previous error\n"@ =~= one + "\n"@);
    count_line(one);
    let a = "error: aborting due to "@;
    let b = " previous errors"@;
    digits_hold_no(n, '\n');
    assert(!a.contains('\n'));
    assert(!b.contains('\n'));
    contains_sum(a, text::decimal(n), '\n');
    contains_sum(a + text::decimal(n), b, '\n');
    let many = a + text::decimal(n) + b;
    assert(a + text::decimal(n) + " previous errors\n"@ =~= many + "\n"@);
    count_line(many);
}

} // verus!
