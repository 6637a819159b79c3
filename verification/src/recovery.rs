//! Where parsing goes on after an error, and how errors are shown.

use vstd::prelude::*;

use crate::ast::{ItemM, Span};
use crate::driver;
use crate::error::DiagM;
use crate::grammar;
use crate::grammar::{At, InputM};
use crate::lexer::TokenKindM;
use crate::lint;
use crate::text;
use crate::text_laws;

verus! {

/// Whether an item can start with the token, or none can follow.
pub open spec fn item_may_start(k: TokenKindM) -> bool {
    k is Eof || k is Fn || k is Struct || k is Import || k is Extend
}

/// After an error in an item parsing goes on at the next token that can start an
/// item, or at the end.
pub proof fn next_item_is_found(cx: InputM, pos: nat)
    ensures
        ({
            let e = pos + grammar::item_gap(cx, pos);
            &&& item_may_start(grammar::kind_at(cx, e))
            &&& forall|q: nat| pos <= q < e ==> !item_may_start(#[trigger] grammar::kind_at(cx, q))
        }),
    decreases grammar::left(cx, pos),
{
    reveal_with_fuel(grammar::item_gap, 1);
    if !item_may_start(grammar::kind_at(cx, pos)) {
        next_item_is_found(cx, pos + 1);
    }
}

/// Whether a statement can start with the token, or none can follow.
pub open spec fn stmt_may_start(k: TokenKindM) -> bool {
    k is Eof || k is RBrace || k is Let || k is Return || k is If || k is While || k is Break
        || k is Continue
}

/// After an error in a statement parsing goes on behind the next semicolon, or
/// before that at a token that starts a statement or ends the block.
pub proof fn next_statement_is_found(cx: InputM, pos: nat)
    ensures
        ({
            let e = pos + grammar::stmt_gap(cx, pos);
            &&& stmt_may_start(grammar::kind_at(cx, e)) || (e > pos && grammar::kind_at(
                cx,
                (e - 1) as nat,
            ) is Semicolon)
            &&& forall|q: nat|
                pos <= q < e ==> !stmt_may_start(#[trigger] grammar::kind_at(cx, q)) && (
                grammar::kind_at(cx, q) is Semicolon ==> q == e - 1)
        }),
    decreases grammar::left(cx, pos),
{
    reveal_with_fuel(grammar::stmt_gap, 1);
    let k = grammar::kind_at(cx, pos);
    if !stmt_may_start(k) && !(k is Semicolon) {
        next_statement_is_found(cx, pos + 1);
    }
}

/// A token that is asked for is taken just if it is there, and nothing is
/// reported then; else one error is reported, at the token that is there instead.
pub proof fn expected_token_is_taken(cx: InputM, s: At, k: TokenKindM, what: Seq<char>)
    ensures
        ({
            let r = grammar::expect(cx, s, k, what);
            if grammar::kind_at(cx, s.pos) == k {
                r.val == Some(grammar::tok_at(cx, s.pos)) && r.adv == 1 && r.diags == s.diags
            } else {
                &&& r.val is None && r.adv == 0
                &&& r.diags.len() == s.diags.len() + 1
                &&& r.diags.take(s.diags.len() as int) == s.diags
                &&& r.diags[s.diags.len() as int].file == cx.file
                &&& !(grammar::kind_at(cx, s.pos) is Eof) ==> r.diags[s.diags.len() as int].line
                    == grammar::tok_at(cx, s.pos).line && r.diags[s.diags.len() as int].col
                    == grammar::tok_at(cx, s.pos).col
            }
        }),
{
    reveal(grammar::unexpected);
    let r = grammar::expect(cx, s, k, what);
    if grammar::kind_at(cx, s.pos) != k {
        assert(r.diags.take(s.diags.len() as int) =~= s.diags);
    }
}

/// The editor shows a diagnostic as an error at its line and column, which it
/// counts from zero, over the width of a line.
pub proof fn diagnostics_are_shown_at_their_places(d: DiagM)
    requires
        d.line >= 1,
        d.col >= 1,
    ensures
        lint::shown(d).severity == 1,
        lint::shown(d).message == d.message,
        lint::shown(d).line == d.line - 1,
        lint::shown(d).character == d.col - 1,
        lint::shown(d).end_character == d.col - 1 + 80,
{
}

/// A heading gives its message, and whether it is an error or a warning; another
/// line is no heading.
pub proof fn headings_give_their_messages(code: Seq<char>, message: Seq<char>, line: Seq<char>)
    requires
        forall|k: int|
            0 <= k < code.len() ==> !#[trigger] text::occurs_at(
                code + "]: "@ + message,
                "]: "@,
                k,
            ),
    ensures
        lint::heading("error["@ + (code + "]: "@ + message)) == Some((1u8, message)),
        lint::heading("warning["@ + (code + "]: "@ + message)) == Some((2u8, message)),
        lint::heading(line) is Some <==> text::occurs_at(line, "error["@, 0) || text::occurs_at(
            line,
            "warning["@,
            0,
        ),
{
    reveal_strlit("error[");
    reveal_strlit("warning[");
    let rest = code + "]: "@ + message;
    text_laws::splitting_parts_at_the_first(code, "]: "@, message);
    text_laws::prefix_and_suffix_leave_the_rest(rest, "error["@);
    text_laws::prefix_and_suffix_leave_the_rest(rest, "warning["@);
    let w = "warning["@ + rest;
    assert(!text::occurs_at(w, "error["@, 0)) by {
        if text::occurs_at(w, "error["@, 0) {
            assert(w.subrange(0, 6)[0] == w[0]);
            assert("error["@[0] == 'e');
        }
    }
}

/// An item is called by its kind, and stands where it is declared.
pub proof fn items_are_called_by_their_kinds(item: ItemM)
    ensures
        match item {
            ItemM::Struct(s) => driver::kind_span(item) == ("struct"@, s.span),
            ItemM::Fn(f) => driver::kind_span(item) == ("function"@, f.span),
            ItemM::Extend(e) => driver::kind_span(item) == ("extend"@, e.span),
            ItemM::Import(_) => driver::kind_span(item).0 == "import"@,
        },
{
}

/// A name that a module brings twice is reported in the file of the module, where
/// it is declared.
pub proof fn duplicate_imports_point_into_the_module(
    module: Seq<char>,
    name: Seq<char>,
    span: Span,
    kind: Seq<char>,
)
    ensures
        ({
            let d = driver::duplicate_import(module, name, span, kind);
            &&& d.code == "E4E0"@
            &&& d.file == module + ".jo"@
            &&& d.line == span.line
            &&& d.col == span.col
        }),
{
}

/// A place in a report is read as the number that stands there, if it fits in 32
/// bits, and else as 1; white space around it does not count.
pub proof fn places_are_numbers(n: nat, a: Seq<char>, b: Seq<char>)
    requires
        text_laws::all_white(a),
        text_laws::all_white(b),
    ensures
        lint::number(a + text::decimal(n) + b) == if n <= u32::MAX {
            n
        } else {
            1
        },
{
    let d = text::decimal(n);
    text::decimal_denotes(n);
    assert(text::is_digit(d[0]));
    assert(text::is_digit(d[d.len() - 1]));
    text_laws::trimming_takes_white_ends(a, d, b);
}

} // verus!
