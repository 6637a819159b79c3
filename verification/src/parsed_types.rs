//! The types that a parsed program writes down are all known.

use vstd::prelude::*;

use crate::ast::{BlockM, ExprM, FieldDeclM, FnDeclM, ItemM, ParamM, StmtM};
use crate::driver;
use crate::grammar;
use crate::grammar::{At, InputM};
use crate::lexer;
use crate::lexer::TokenKindM;
use crate::typing;
use crate::well_typed;

verus! {

proof fn type_known(cx: InputM, s: At)
    ensures
        grammar::type_expr(cx, s).val matches Some(t) ==> well_typed::known(t),
    decreases grammar::left(cx, s.pos),
{
    reveal(grammar::type_expr);
    if grammar::kind_at(cx, s.pos) is Ampersand {
        let s1 = grammar::skip(s);
        if grammar::kind_at(cx, s1.pos) is Mut {
            type_known(cx, grammar::skip(s1));
        } else {
            type_known(cx, s1);
        }
    }
}

proof fn let_known(cx: InputM, s: At)
    ensures
        grammar::let_stmt(cx, s).val matches Some(x) ==> well_typed::stmt_known(x),
{
    reveal(grammar::let_stmt);
    let s1 = grammar::skip(s);
    let n = grammar::expect(cx, s1, TokenKindM::Ident, "variable name"@);
    type_known(cx, grammar::skip(n.next(s1)));
}

proof fn block_known(cx: InputM, s: At)
    ensures
        grammar::block(cx, s).val matches Some(b) ==> well_typed::block_known(b),
    decreases grammar::left(cx, s.pos), 0nat,
{
    reveal(grammar::block);
    reveal(grammar::block_rest);
    let o = grammar::expect(cx, s, TokenKindM::LBrace, "`{`"@);
    if o.val is Some {
        stmts_known(cx, o.next(s), Seq::empty());
    }
}

proof fn stmts_known(cx: InputM, s: At, stmts: Seq<StmtM>)
    requires
        well_typed::stmts_known(stmts),
    ensures
        grammar::block_rest(cx, s, stmts).val matches Some(x) ==> well_typed::stmts_known(x),
    decreases grammar::left(cx, s.pos), 3nat,
{
    reveal(grammar::block_rest);
    reveal(grammar::stmt);
    let k = grammar::kind_at(cx, s.pos);
    if !(k is RBrace) && !(k is Eof) {
        stmt_known(cx, s);
        let r = grammar::stmt(cx, s);
        let (s1, now) = grammar::after_stmt(cx, s, r, stmts);
        if r.val is Some {
            assert(now.drop_last() =~= stmts);
        }
        if s1.pos > s.pos {
            stmts_known(cx, s1, now);
        }
    }
}

proof fn stmt_known(cx: InputM, s: At)
    ensures
        grammar::stmt(cx, s).val matches Some(x) ==> well_typed::stmt_known(x),
    decreases grammar::left(cx, s.pos), 2nat,
{
    reveal(grammar::stmt);
    reveal(grammar::if_stmt);
    reveal(grammar::while_stmt);
    reveal(grammar::return_stmt);
    reveal(grammar::asm_stmt);
    reveal(grammar::expr_stmt);
    let_known(cx, s);
    if grammar::kind_at(cx, s.pos) is If {
        if_known(cx, s);
    }
    if grammar::kind_at(cx, s.pos) is While {
        reveal(grammar::branch);
        branch_known(cx, grammar::skip(s));
    }
}

proof fn branch_known(cx: InputM, s: At)
    ensures
        grammar::branch(cx, s).val matches Some(b) ==> well_typed::block_known(b.1),
    decreases grammar::left(cx, s.pos), 1nat,
{
    reveal(grammar::branch);
    reveal(grammar::block);
    grammar::expr_progress(cx, s, false);
    let r = grammar::cast(cx, s, false);
    block_known(cx, r.next(s));
}

proof fn if_known(cx: InputM, s: At)
    requires
        !(grammar::kind_at(cx, s.pos) is Eof),
    ensures
        grammar::if_stmt(cx, s).val matches Some(x) ==> well_typed::stmt_known(x),
    decreases grammar::left(cx, s.pos), 1nat,
{
    reveal(grammar::if_stmt);
    reveal(grammar::branch);
    reveal(grammar::if_rest);
    let s1 = grammar::skip(s);
    branch_known(cx, s1);
    let b = grammar::branch(cx, s1);
    if let Some(first) = b.val {
        let one = seq![first];
        assert(one.drop_last() =~= Seq::empty());
        assert(well_typed::branches_known(one.drop_last()));
        if_rest_known(cx, b.next(s1), one);
    }
}

proof fn if_rest_known(cx: InputM, s: At, branches: Seq<(ExprM, BlockM)>)
    requires
        well_typed::branches_known(branches),
    ensures
        grammar::if_rest(cx, s, branches).val matches Some(x) ==> well_typed::branches_known(x.0)
            && match x.1 {
            Some(b) => well_typed::block_known(b),
            None => true,
        },
    decreases grammar::left(cx, s.pos), 0nat,
{
    reveal(grammar::if_rest);
    reveal(grammar::branch);
    reveal(grammar::block);
    if grammar::kind_at(cx, s.pos) is Else {
        let s1 = grammar::skip(s);
        if grammar::kind_at(cx, s1.pos) is If {
            let s2 = grammar::skip(s1);
            branch_known(cx, s2);
            let b = grammar::branch(cx, s2);
            if let Some(next) = b.val {
                assert(branches.push(next).drop_last() =~= branches);
                if_rest_known(cx, b.next(s2), branches.push(next));
            }
        } else {
            block_known(cx, s1);
        }
    }
}

spec fn params_known(params: Seq<ParamM>) -> bool {
    forall|i: int| 0 <= i < params.len() ==> well_typed::param_known(#[trigger] params[i])
}

proof fn params_rest_known(cx: InputM, s: At, params: Seq<ParamM>)
    requires
        params_known(params),
    ensures
        grammar::params_rest(cx, s, params).val matches Some(x) ==> params_known(x),
    decreases grammar::left(cx, s.pos),
{
    reveal(grammar::params_rest);
    reveal(grammar::param);
    let e = grammar::skip(s);
    let c = grammar::expect(cx, e, TokenKindM::Colon, "`:` after parameter name"@);
    type_known(cx, c.next(e));
    let r = grammar::param(cx, s);
    let s1 = r.next(s);
    if r.val is Some && grammar::kind_at(cx, s1.pos) is Comma {
        params_rest_known(cx, grammar::skip(s1), params.push(r.val->0));
    }
}

proof fn fn_known(cx: InputM, s: At)
    ensures
        grammar::fn_decl(cx, s).val matches Some(f) ==> well_typed::fn_known(f),
{
    reveal(grammar::fn_decl);
    let s1 = grammar::skip(s);
    let n = grammar::expect(cx, s1, TokenKindM::Ident, "function name"@);
    let s2 = n.next(s1);
    let o = grammar::expect(cx, s2, TokenKindM::LParen, "`(`"@);
    let s3 = o.next(s2);
    params_rest_known(cx, s3, Seq::empty());
    let s4 = grammar::params(cx, s3).next(s3);
    let c = grammar::expect(cx, s4, TokenKindM::RParen, "`)`"@);
    let s5 = c.next(s4);
    type_known(cx, s5);
    block_known(cx, grammar::type_expr(cx, s5).next(s5));
}

proof fn struct_rest_known(cx: InputM, s: At, fields: Seq<FieldDeclM>, methods: Seq<FnDeclM>)
    requires
        well_typed::fields_known(fields),
        well_typed::fns_known(methods),
    ensures
        grammar::struct_rest(cx, s, fields, methods).val matches Some(x)
            ==> well_typed::fields_known(x.0) && well_typed::fns_known(x.1),
    decreases grammar::left(cx, s.pos),
{
    reveal(grammar::struct_rest);
    reveal(grammar::fn_decl);
    reveal(grammar::field_decl);
    let k = grammar::kind_at(cx, s.pos);
    if k is Fn {
        fn_known(cx, s);
        let r = grammar::fn_decl(cx, s);
        if r.val is Some {
            struct_rest_known(cx, r.next(s), fields, methods.push(r.val->0));
        }
    } else if k is Ident {
        let e = grammar::skip(s);
        let c = grammar::expect(cx, e, TokenKindM::Colon, "`:` after field name"@);
        type_known(cx, c.next(e));
        let r = grammar::field_decl(cx, s);
        if r.val is Some {
            struct_rest_known(cx, r.next(s), fields.push(r.val->0), methods);
        }
    }
}

proof fn extend_rest_known(cx: InputM, s: At, methods: Seq<FnDeclM>)
    requires
        well_typed::fns_known(methods),
    ensures
        grammar::extend_rest(cx, s, methods).val matches Some(x) ==> well_typed::fns_known(x),
    decreases grammar::left(cx, s.pos),
{
    reveal(grammar::extend_rest);
    reveal(grammar::fn_decl);
    if grammar::kind_at(cx, s.pos) is Fn {
        fn_known(cx, s);
        let r = grammar::fn_decl(cx, s);
        if r.val is Some {
            extend_rest_known(cx, r.next(s), methods.push(r.val->0));
        }
    }
}

proof fn item_known(cx: InputM, s: At)
    ensures
        grammar::item(cx, s).val matches Some(x) ==> well_typed::item_known(x),
{
    reveal(grammar::item);
    reveal(grammar::struct_decl);
    reveal(grammar::extend_decl);
    fn_known(cx, s);
    let s1 = grammar::skip(s);
    let n = grammar::expect(cx, s1, TokenKindM::Ident, "struct name"@);
    let s2 = n.next(s1);
    let o = grammar::expect(cx, s2, TokenKindM::LBrace, "`{`"@);
    struct_rest_known(cx, o.next(s2), Seq::empty(), Seq::empty());
    let e2 = grammar::extend_target(cx, s1).next(s1);
    let p = grammar::expect(cx, e2, TokenKindM::LBrace, "`{`"@);
    extend_rest_known(cx, p.next(e2), Seq::empty());
}

proof fn items_known(cx: InputM, s: At, items: Seq<ItemM>)
    requires
        forall|i: int| 0 <= i < items.len() ==> well_typed::item_known(#[trigger] items[i]),
    ensures
        ({
            let all = grammar::items_rest(cx, s, items).0;
            forall|i: int| 0 <= i < all.len() ==> well_typed::item_known(#[trigger] all[i])
        }),
    decreases grammar::left(cx, s.pos),
{
    reveal(grammar::items_rest);
    if !(grammar::kind_at(cx, s.pos) is Eof) {
        item_known(cx, s);
        grammar::item_progress(cx, s, items);
        let (s1, now) = grammar::after_item(cx, s, items);
        items_known(cx, s1, now);
        assert(grammar::items_rest(cx, s, items) == grammar::items_rest(cx, s1, now));
    } else {
        assert(grammar::items_rest(cx, s, items).0 == items);
    }
}

/// The types of a parsed program are known.
pub proof fn parsed_types_are_known(src: Seq<char>, file: Seq<char>)
    ensures
        driver::parsed(src, file) matches Ok(p) ==> well_typed::program_known(p),
{
    let l = lexer::lex(src, file);
    items_known(InputM { toks: l.tokens, file, src }, grammar::start(), Seq::empty());
}

proof fn parsed_modules_are_known(modules: Seq<(Seq<char>, Seq<char>)>, n: int)
    ensures
        driver::parsed_modules(modules, n) matches Ok(ps) ==> forall|i: int|
            0 <= i < ps.len() ==> well_typed::program_known((#[trigger] ps[i]).1),
    decreases n,
{
    if 0 < n <= modules.len() {
        parsed_modules_are_known(modules, n - 1);
        let (name, source) = modules[n - 1];
        parsed_types_are_known(source, name + ".jo"@);
    }
}

/// A source text that is accepted, with those of its modules, holds a well-typed
/// program: what the driver merges for the code generator are the items of
/// well-typed programs.
pub proof fn accepted_source_is_well_typed(
    source: Seq<char>,
    modules: Seq<(Seq<char>, Seq<char>)>,
    file: Seq<char>,
)
    requires
        driver::front_end(source, modules, file) is Ok,
    ensures
        ({
            let program = driver::parsed(source, file)->Ok_0;
            let programs = driver::parsed_modules(modules, modules.len() as int)->Ok_0;
            let (u, infos, _) = typing::declarations(file, source, program, programs);
            let out = typing::check_program(file, source, program, programs);
            &&& driver::front_end(source, modules, file)->Ok_0.items == driver::merged(
                out.program,
                out.modules,
            ).items
            &&& well_typed::items_typed(u, out.program.items)
            &&& forall|i: int|
                0 <= i < out.modules.len() ==> well_typed::items_typed(
                    typing::inside(u, infos[i].1),
                    (#[trigger] out.modules[i]).1.items,
                )
        }),
{
    let program = driver::parsed(source, file)->Ok_0;
    let programs = driver::parsed_modules(modules, modules.len() as int)->Ok_0;
    parsed_types_are_known(source, file);
    parsed_modules_are_known(modules, modules.len() as int);
    well_typed::accepted_program_is_well_typed(file, source, program, programs);
}

} // verus!
