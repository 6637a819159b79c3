//! What the front end makes of source texts, from the text to the program that
//! the code generator takes.

use vstd::prelude::*;

use crate::ast::{ItemM, ProgramM};
use crate::desugaring;
use crate::driver;
use crate::error::DiagM;
use crate::grammar;
use crate::grammar::InputM;
use crate::lexer;
use crate::lexer::TokenM;
use crate::lexing_laws;
use crate::spelling;
use crate::typing;

verus! {

proof fn item_ends_in_a_symbol(x: ItemM, p: Seq<TokenM>)
    requires
        spelling::spells_item(x, p),
    ensures
        p.len() > 0,
        p[p.len() - 1].lexeme.len() > 0,
{
    reveal_strlit("}");
    reveal_strlit(";");
    if let ItemM::Fn(f) = x {
        reveal(spelling::spells_fn);
        let (i, j) = choose|i: int, j: int|
            {
                &&& 3 <= i < j <= p.len()
                &&& spelling::reads(#[trigger] p[i], ")"@)
                &&& spelling::spells_params(f.params, p.subrange(3, i))
                &&& spelling::spells_type(f.return_type, #[trigger] p.subrange(i + 1, j))
                &&& spelling::spells_block(f.body, p.skip(j))
            };
        reveal_with_fuel(spelling::spells_block, 1);
        reveal_with_fuel(spelling::spells_stmt, 1);
        reveal_with_fuel(spelling::spells_stmts, 1);
        let b = p.skip(j);
        assert(b.last() == p[p.len() - 1]);
    }
}

proof fn items_end_in_a_symbol(items: Seq<ItemM>, p: Seq<TokenM>)
    requires
        spelling::spells_items(items, p),
        p.len() > 0,
    ensures
        p[p.len() - 1].lexeme.len() > 0,
{
    reveal_with_fuel(spelling::spells_items, 1);
    let i = choose|i: int|
        0 <= i <= p.len() && spelling::spells_items(items.drop_last(), #[trigger] p.take(i))
            && spelling::spells_item(items.last(), p.skip(i));
    item_ends_in_a_symbol(items.last(), p.skip(i));
    assert(p.skip(i)[p.skip(i).len() - 1] == p[p.len() - 1]);
}

proof fn covering_tokens_hold_text(s: Seq<char>, p: int, toks: Seq<TokenM>, i: int)
    requires
        lexing_laws::covers(s, p, toks),
        0 <= i < toks.len(),
    ensures
        toks[i].lexeme.len() > 0,
    decreases toks.len(),
{
    let q = choose|q: int|
        {
            &&& p <= q && q + toks[0].lexeme.len() <= s.len()
            &&& #[trigger] lexing_laws::starts_at(s, q, toks[0])
            &&& lexing_laws::idle(s, p, q)
            &&& lexing_laws::goes_far(s, toks[0], q + toks[0].lexeme.len())
            &&& lexing_laws::covers(s, q + toks[0].lexeme.len(), toks.skip(1))
        };
    assert(lexing_laws::starts_at(s, q, toks[0]));
    if i > 0 {
        covering_tokens_hold_text(s, q + toks[0].lexeme.len(), toks.skip(1), i - 1);
        assert(toks.skip(1)[i - 1] == toks[i]);
    }
}

/// A text that is read as a program is that program written out: its tokens are
/// the text, but for white space and comments, and the program spells just these
/// tokens. So each operator, name, literal and place in the program is the one
/// that is written there.
pub proof fn parsed_text_is_the_program_written_out(
    src: Seq<char>,
    file: Seq<char>,
    p: ProgramM,
) -> (toks: Seq<TokenM>)
    requires
        driver::parsed(src, file) == Ok::<ProgramM, Seq<DiagM>>(p),
    ensures
        lexing_laws::covers(src, 0, toks),
        forall|i: int| 0 <= i < toks.len() ==> lexing_laws::kind_fits(#[trigger] toks[i]),
        spelling::spells_items(p.items, toks),
{
    let all = lexer::lex(src, file).tokens;
    let cx = InputM { toks: all, file, src };
    lexing_laws::tokens_are_the_text(src, file);
    assert forall|i: int| 0 <= i < all.len() implies spelling::genuine(#[trigger] all[i]) by {
        assert(lexing_laws::kind_fits(all[i]));
    }
    spelling::parsed_program_spells_its_tokens(cx);
    let end = choose|end: nat| #[trigger]
        grammar::kind_at(cx, end) is Eof && spelling::spells_items(
            grammar::program(cx).0,
            spelling::range(cx, 0, end),
        );
    let toks = all.drop_last();
    let read = spelling::range(cx, 0, end);
    let n = toks.len() as int;
    lexed_ends(src, file);
    if end > n {
        items_end_in_a_symbol(p.items, read);
        assert(read[end - 1] == grammar::tok_at(cx, (end - 1) as nat));
        if end - 1 == n {
            assert(spelling::genuine(all[n]));
        }
    } else if end < n {
        covering_tokens_hold_text(src, 0, toks, end as int);
        assert(toks[end as int] == all[end as int]);
        assert(spelling::genuine(all[end as int]));
    }
    assert(read =~= toks);
    toks
}

proof fn lexed_ends(src: Seq<char>, file: Seq<char>)
    requires
        lexer::lex(src, file).diags.len() == 0,
    ensures
        lexer::lex(src, file).tokens.len() > 0,
        lexer::lex(src, file).tokens.last().kind is Eof,
{
    let acc = lexer::LexedM { tokens: Seq::empty(), diags: Seq::empty() };
    lex_from_ends(src, file, 0, acc);
}

proof fn lex_from_ends(s: Seq<char>, file: Seq<char>, p: int, acc: lexer::LexedM)
    requires
        0 <= p <= s.len(),
    ensures
        lexer::lex_from(s, file, p, acc).tokens.len() > 0,
        lexer::lex_from(s, file, p, acc).tokens.last().kind is Eof,
    decreases s.len() - p,
{
    if p < s.len() {
        lexer::step_progress(s, p);
        lex_from_ends(
            s,
            file,
            lexer::step_at(s, p).end,
            lexer::after_step(s, file, p, acc),
        );
    }
}

proof fn modules_are_read(modules: Seq<(Seq<char>, Seq<char>)>, n: int)
    requires
        0 <= n <= modules.len(),
    ensures
        driver::parsed_modules(modules, n) matches Ok(ps) ==> ps.len() == n && forall|i: int|
            0 <= i < n ==> (#[trigger] ps[i]).0 == modules[i].0 && driver::parsed(
                modules[i].1,
                modules[i].0 + ".jo"@,
            ) == Ok::<ProgramM, Seq<DiagM>>(ps[i].1),
    decreases n,
{
    if n > 0 {
        modules_are_read(modules, n - 1);
    }
}

/// What the front end hands on is what was written: the program's own items come
/// first, each standing for the one that was parsed from the source, and behind
/// them what the modules offer, each of whose items stands for the one that was
/// parsed from the module's text.
pub proof fn front_end_hands_on_what_was_written(
    source: Seq<char>,
    modules: Seq<(Seq<char>, Seq<char>)>,
    file: Seq<char>,
    out: ProgramM,
) -> (r: (ProgramM, Seq<(Seq<char>, ProgramM)>, Seq<(Seq<char>, ProgramM)>))
    requires
        driver::front_end(source, modules, file) == Ok::<ProgramM, Seq<DiagM>>(out),
    ensures
        ({
            let (p, ps, checked) = r;
            let n = p.items.len() as int;
            &&& driver::parsed(source, file) == Ok::<ProgramM, Seq<DiagM>>(p)
            &&& ps.len() == modules.len()
            &&& forall|i: int|
                0 <= i < ps.len() ==> (#[trigger] ps[i]).0 == modules[i].0 && driver::parsed(
                    modules[i].1,
                    modules[i].0 + ".jo"@,
                ) == Ok::<ProgramM, Seq<DiagM>>(ps[i].1)
            &&& desugaring::modules_stand_for(ps, checked)
            &&& out.items.len() >= n
            &&& desugaring::items_stand_for(p.items, out.items.take(n))
            &&& exists|at: Seq<int>| #[trigger]
                driver::kept_at(
                    out.items.skip(n),
                    driver::offered_by_all(checked),
                    out.items.take(n),
                    at,
                )
        }),
{
    modules_are_read(modules, modules.len() as int);
    let ps = driver::parsed_modules(modules, modules.len() as int)->Ok_0;
    let p = driver::parsed(source, file)->Ok_0;
    let c = typing::check_program(file, source, p, ps);
    desugaring::accepted_program_stands_for_itself(file, source, p, ps);
    driver::merging_keeps_items(c.program, c.modules);
    (p, ps, c.modules)
}

} // verus!
