//! What holds of every text that is lexed and parsed.

use vstd::prelude::*;

use crate::ast::{AsmTokenM, BlockM, ExprM, FieldDeclM, FnDeclM, ItemM, ParamM, StmtM};
use crate::ast::{Span, StructNameM};
use crate::error;
use crate::grammar;
use crate::grammar::{At, InputM, Out};
use crate::lexer;
use crate::lexer::{LexedM, ScanM, TokenKindM};
use crate::text;

verus! {

// ---------------------------------------------------------------------------
// Lexing
// ---------------------------------------------------------------------------

proof fn lexer_codes()
    ensures
        error::code_in("E102"@, '1'),
        error::code_in("E103"@, '1'),
        error::code_in("E104"@, '1'),
        error::code_in("E105"@, '1'),
{
    reveal_strlit("E102");
    reveal_strlit("E103");
    reveal_strlit("E104");
    reveal_strlit("E105");
}

/// What is read is not the end of the input, and an error has a lexer's code.
spec fn sound_scan(scan: ScanM) -> bool {
    match scan {
        ScanM::Skip => true,
        ScanM::Tok(kind, _) => !(kind is Eof),
        ScanM::Bad(code, _) => error::code_in(code, '1'),
    }
}

proof fn string_rest_sound(s: Seq<char>, i: int, value: Seq<char>)
    requires
        0 <= i <= s.len(),
    ensures
        sound_scan(lexer::string_rest(s, i, value).scan),
    decreases s.len() - i,
{
    lexer_codes();
    if i < s.len() && s[i] != '"' {
        string_rest_sound(s, i + 1, value.push(s[i]));
    }
}

proof fn step_sound(s: Seq<char>, p: int)
    requires
        0 <= p < s.len(),
    ensures
        sound_scan(lexer::step_at(s, p).scan),
{
    lexer_codes();
    string_rest_sound(s, p + 1, Seq::empty());
}

/// The tokens before the end are not the end, and errors have a lexer's code.
spec fn sound_acc(acc: LexedM) -> bool {
    &&& forall|i: int| 0 <= i < acc.tokens.len() ==> !((#[trigger] acc.tokens[i]).kind is Eof)
    &&& error::codes_in(acc.diags, '1')
}

proof fn lex_from_sound(s: Seq<char>, file: Seq<char>, p: int, acc: LexedM)
    requires
        0 <= p <= s.len(),
        sound_acc(acc),
    ensures
        ({
            let r = lexer::lex_from(s, file, p, acc);
            &&& r.tokens.len() > 0
            &&& r.tokens.last().kind is Eof
            &&& forall|i: int|
                0 <= i < r.tokens.len() - 1 ==> !((#[trigger] r.tokens[i]).kind is Eof)
            &&& error::codes_in(r.diags, '1')
        }),
    decreases s.len() - p,
{
    if p < s.len() {
        step_sound(s, p);
        lexer::step_progress(s, p);
        lex_from_sound(
            s,
            file,
            lexer::step_at(s, p).end,
            lexer::after_step(s, file, p, acc),
        );
    }
}

/// The tokens of every text end with one end-of-input token, and there is no
/// other. Every diagnostic of the lexer has a code that starts with `E1`.
pub proof fn lexing_ends_once(s: Seq<char>, file: Seq<char>)
    ensures
        ({
            let r = lexer::lex(s, file);
            &&& r.tokens.len() > 0
            &&& r.tokens.last().kind is Eof
            &&& forall|i: int|
                0 <= i < r.tokens.len() - 1 ==> !((#[trigger] r.tokens[i]).kind is Eof)
            &&& error::codes_in(r.diags, '1')
        }),
{
    lex_from_sound(s, file, 0, LexedM { tokens: Seq::empty(), diags: Seq::empty() });
}

/// What the lexer gives can be parsed.
pub proof fn lexed_tokens_end(s: Seq<char>, file: Seq<char>)
    ensures
        grammar::ends(
            InputM { toks: lexer::lex(s, file).tokens, file, src: s },
            0,
        ),
{
    reveal(grammar::ends);
    lexing_ends_once(s, file);
    let toks = lexer::lex(s, file).tokens;
    assert(toks[toks.len() - 1].kind is Eof);
}

/// The lexeme of every token is the source text itself, and the value of a
/// string or a character is what stands between its quotes.
pub proof fn lexemes_are_faithful(s: Seq<char>, p: int)
    requires
        0 <= p < s.len(),
    ensures
        match lexer::step_at(s, p).scan {
            ScanM::Tok(kind, lexeme) => {
                &&& lexeme == s.subrange(p, lexer::step_at(s, p).end)
                &&& match kind {
                    TokenKindM::CharLit(n) => lexer::step_at(s, p).end == p + 3 && n == s[p
                        + 1] as u32,
                    TokenKindM::StringLit(value) => value == s.subrange(
                        p + 1,
                        lexer::step_at(s, p).end - 1,
                    ),
                    _ => true,
                }
            },
            _ => true,
        },
{
    lexer::step_progress(s, p);
    if s[p] == '"' {
        symbol_quote();
        assert(s.subrange(p + 1, p + 1) =~= Seq::<char>::empty());
        string_rest_kept(s, p, p + 1, Seq::empty());
    }
    if s[p] == '\'' && p + 2 < s.len() {
        reveal_strlit("'");
        assert("'"@ + seq![s[p + 1]] + "'"@ =~= seq!['\'', s[p + 1], '\'']);
        if s[p + 2] == '\'' {
            assert(s.subrange(p, p + 3) =~= seq!['\'', s[p + 1], '\'']);
        }
    }
    let c = s[p];
    let next = lexer::char_at(s, p + 1);
    if lexer::step_at(s, p) == lexer::symbol_at(s, p) && lexer::symbol(c, next) is Some {
        symbol_text_is_read(c, next);
        let (kind, n) = lexer::symbol(c, next)->0;
        if p + n <= s.len() {
            assert(s.subrange(p, p + n) =~= lexer::symbol_text(kind));
        }
    }
}

proof fn symbol_quote()
    ensures
        "\""@ == seq!['"'],
{
    reveal_strlit("\"");
    assert("\""@ =~= seq!['"']);
}

/// A string that opens at `p`, of which `value` has been read up to `i`.
proof fn string_rest_kept(s: Seq<char>, p: int, i: int, value: Seq<char>)
    requires
        0 <= p < i <= s.len(),
        s[p] == '"',
        value == s.subrange(p + 1, i),
    ensures
        match lexer::string_rest(s, i, value).scan {
            ScanM::Tok(kind, lexeme) => {
                let end = lexer::string_rest(s, i, value).end;
                &&& kind == TokenKindM::StringLit(s.subrange(p + 1, end - 1))
                &&& lexeme == s.subrange(p, end)
            },
            _ => true,
        },
    decreases s.len() - i,
{
    if i < s.len() && s[i] != '"' {
        assert(value.push(s[i]) =~= s.subrange(p + 1, i + 1));
        string_rest_kept(s, p, i + 1, value.push(s[i]));
    } else if i < s.len() && s[i] == '"' {
        symbol_quote();
        assert("\""@ + value + "\""@ =~= s.subrange(p, i + 1));
    }
}

proof fn symbol_literals()
    ensures
        "("@ == seq!['('],
        ")"@ == seq![')'],
        "{"@ == seq!['{'],
        "}"@ == seq!['}'],
        "["@ == seq!['['],
        "]"@ == seq![']'],
        ","@ == seq![','],
        ";"@ == seq![';'],
        ":"@ == seq![':'],
        "::"@ == seq![':', ':'],
        "."@ == seq!['.'],
        "->"@ == seq!['-', '>'],
        "!"@ == seq!['!'],
        "#"@ == seq!['#'],
        "="@ == seq!['='],
        "=="@ == seq!['=', '='],
        "!="@ == seq!['!', '='],
        "<"@ == seq!['<'],
        ">"@ == seq!['>'],
        "<="@ == seq!['<', '='],
        ">="@ == seq!['>', '='],
        "+"@ == seq!['+'],
        "-"@ == seq!['-'],
        "*"@ == seq!['*'],
        "/"@ == seq!['/'],
        "%"@ == seq!['%'],
        "&"@ == seq!['&'],
        "&&"@ == seq!['&', '&'],
        "||"@ == seq!['|', '|'],
        ""@ == Seq::<char>::empty(),
{
    reveal_strlit("(");
    assert("("@ =~= seq!['(']);
    reveal_strlit(")");
    assert(")"@ =~= seq![')']);
    reveal_strlit("{");
    assert("{"@ =~= seq!['{']);
    reveal_strlit("}");
    assert("}"@ =~= seq!['}']);
    reveal_strlit("[");
    assert("["@ =~= seq!['[']);
    reveal_strlit("]");
    assert("]"@ =~= seq![']']);
    reveal_strlit(",");
    assert(","@ =~= seq![',']);
    reveal_strlit(";");
    assert(";"@ =~= seq![';']);
    reveal_strlit(":");
    assert(":"@ =~= seq![':']);
    reveal_strlit("::");
    assert("::"@ =~= seq![':', ':']);
    reveal_strlit(".");
    assert("."@ =~= seq!['.']);
    reveal_strlit("->");
    assert("->"@ =~= seq!['-', '>']);
    reveal_strlit("!");
    assert("!"@ =~= seq!['!']);
    reveal_strlit("#");
    assert("#"@ =~= seq!['#']);
    reveal_strlit("=");
    assert("="@ =~= seq!['=']);
    reveal_strlit("==");
    assert("=="@ =~= seq!['=', '=']);
    reveal_strlit("!=");
    assert("!="@ =~= seq!['!', '=']);
    reveal_strlit("<");
    assert("<"@ =~= seq!['<']);
    reveal_strlit(">");
    assert(">"@ =~= seq!['>']);
    reveal_strlit("<=");
    assert("<="@ =~= seq!['<', '=']);
    reveal_strlit(">=");
    assert(">="@ =~= seq!['>', '=']);
    reveal_strlit("+");
    assert("+"@ =~= seq!['+']);
    reveal_strlit("-");
    assert("-"@ =~= seq!['-']);
    reveal_strlit("*");
    assert("*"@ =~= seq!['*']);
    reveal_strlit("/");
    assert("/"@ =~= seq!['/']);
    reveal_strlit("%");
    assert("%"@ =~= seq!['%']);
    reveal_strlit("&");
    assert("&"@ =~= seq!['&']);
    reveal_strlit("&&");
    assert("&&"@ =~= seq!['&', '&']);
    reveal_strlit("||");
    assert("||"@ =~= seq!['|', '|']);
    reveal_strlit("");
    assert(""@ =~= Seq::<char>::empty());
}

/// A symbol that is read stands in the text.
pub proof fn symbol_text_is_read(c: char, next: char)
    ensures
        match lexer::symbol(c, next) {
            Some((kind, n)) => {
                &&& 1 <= n <= 2
                &&& lexer::symbol_text(kind) == seq![c, next].take(n)
            },
            None => true,
        },
{
    symbol_literals();
    match lexer::symbol(c, next) {
        Some((kind, n)) => {
            if n == 1 {
                assert(seq![c, next].take(1) =~= seq![c]);
            } else {
                assert(seq![c, next].take(2) =~= seq![c, next]);
            }
        },
        None => {},
    }
}

/// Maximal munch: where two characters are a symbol, they are read as that
/// symbol and not as two.
pub proof fn longest_symbol_is_read(kind: TokenKindM, c: char, next: char)
    requires
        lexer::symbol_text(kind) == seq![c, next],
    ensures
        lexer::symbol(c, next) == Some((kind, 2int)),
{
    symbol_literals();
    let t = lexer::symbol_text(kind);
    assert(t.len() == 2 && t[0] == c && t[1] == next);
}

// ---------------------------------------------------------------------------
// Parsing
// ---------------------------------------------------------------------------

proof fn parser_codes()
    ensures
        error::code_in("E200"@, '2'),
        error::code_in("E201"@, '2'),
        error::code_in("E202"@, '2'),
{
    reveal_strlit("E200");
    reveal_strlit("E201");
    reveal_strlit("E202");
}

/// A parsing function takes back no diagnostic, reports one where it gives no
/// node, and reports only with codes of the parser.
pub open spec fn honest<T>(s: At, out: Out<T>) -> bool {
    &&& out.diags.len() >= s.diags.len()
    &&& out.val is None ==> out.diags.len() > s.diags.len()
    &&& error::codes_in(s.diags, '2') ==> error::codes_in(out.diags, '2')
}

broadcast proof fn unexpected_code(cx: InputM, pos: nat, msg: Seq<char>, label: Seq<char>)
    ensures
        error::code_in((#[trigger] grammar::unexpected(cx, pos, msg, label)).code, '2'),
{
    reveal(grammar::unexpected);
    parser_codes();
}

broadcast proof fn expect_honest(cx: InputM, s: At, k: TokenKindM, what: Seq<char>)
    ensures
        honest(s, #[trigger] grammar::expect(cx, s, k, what)),
{
    unexpected_code(cx, s.pos, "expected "@ + what, what);
}

pub(crate) proof fn type_expr_honest(cx: InputM, s: At)
    ensures
        honest(s, grammar::type_expr(cx, s)),
    decreases grammar::left(cx, s.pos),
{
    broadcast use {expect_honest, unexpected_code};

    reveal(grammar::type_expr);
    let k = grammar::kind_at(cx, s.pos);
    if k is Ampersand {
        let s1 = grammar::skip(s);
        if grammar::kind_at(cx, s1.pos) is Mut {
            type_expr_honest(cx, grammar::skip(s1));
        } else {
            type_expr_honest(cx, s1);
        }
    }
}

pub(crate) proof fn cast_honest(cx: InputM, s: At, inits: bool)
    ensures
        honest(s, grammar::cast(cx, s, inits)),
    decreases grammar::left(cx, s.pos), 10nat,
{
    broadcast use {expect_honest, unexpected_code};

    reveal(grammar::cast);
    reveal(grammar::binary);
    reveal(grammar::cast_rest);
    binary_honest(cx, s, inits, 0);
    let l = grammar::binary(cx, s, inits, 0);
    if l.val is Some {
        cast_rest_honest(cx, l.next(s), l.val->0, false);
    }
}

proof fn cast_rest_honest(cx: InputM, s: At, e: ExprM, casted: bool)
    ensures
        honest(s, grammar::cast_rest(cx, s, e, casted)),
    decreases grammar::left(cx, s.pos), 0nat,
{
    broadcast use {expect_honest, unexpected_code};

    reveal(grammar::cast_rest);
    parser_codes();
    if grammar::kind_at(cx, s.pos) is Arrow {
        let s1 = grammar::skip(s);
        type_expr_honest(cx, s1);
        let t = grammar::type_expr(cx, s1);
        if t.val is Some {
            let next = crate::ast::untyped(
                crate::ast::ExprKindM::Cast { expr: Box::new(e), target_type: t.val->0 },
                e.span,
            );
            cast_rest_honest(cx, t.next(s1), next, true);
        }
    }
}

proof fn binary_honest(cx: InputM, s: At, inits: bool, level: nat)
    ensures
        honest(s, grammar::binary(cx, s, inits, level)),
    decreases grammar::left(cx, s.pos),
            if level < 5 {
                (9 - level) as nat
            } else {
                4
            },
{
    broadcast use {expect_honest, unexpected_code};

    reveal(grammar::binary);
    reveal(grammar::unary);
    reveal(grammar::binary_rest);
    if level >= 5 {
        unary_honest(cx, s, inits);
    } else {
        binary_honest(cx, s, inits, level + 1);
        let l = grammar::binary(cx, s, inits, level + 1);
        if l.val is Some {
            binary_rest_honest(cx, l.next(s), inits, level, l.val->0);
        }
    }
}

proof fn binary_rest_honest(cx: InputM, s: At, inits: bool, level: nat, e: ExprM)
    ensures
        honest(s, grammar::binary_rest(cx, s, inits, level, e)),
    decreases grammar::left(cx, s.pos), 0nat,
{
    broadcast use {expect_honest, unexpected_code};

    reveal(grammar::binary_rest);
    reveal(grammar::binary);
    match grammar::operator(grammar::kind_at(cx, s.pos), level) {
        None => {},
        Some(op) => {
            let s1 = grammar::skip(s);
            binary_honest(cx, s1, inits, level + 1);
            let r = grammar::binary(cx, s1, inits, level + 1);
            if r.val is Some {
                let next = crate::ast::untyped(
                    crate::ast::ExprKindM::Binary {
                        op,
                        left: Box::new(e),
                        right: Box::new(r.val->0),
                    },
                    e.span,
                );
                binary_rest_honest(cx, r.next(s1), inits, level, next);
            }
        },
    }
}

proof fn unary_honest(cx: InputM, s: At, inits: bool)
    ensures
        honest(s, grammar::unary(cx, s, inits)),
    decreases grammar::left(cx, s.pos), 3nat,
{
    broadcast use {expect_honest, unexpected_code};

    reveal(grammar::unary);
    reveal(grammar::postfix);
    let k = grammar::kind_at(cx, s.pos);
    if k is Bang || k is Minus || k is Star || k is Ampersand {
        let s1 = grammar::skip(s);
        if k is Ampersand && grammar::kind_at(cx, s1.pos) is Mut {
            unary_honest(cx, grammar::skip(s1), inits);
        } else {
            unary_honest(cx, s1, inits);
        }
    } else {
        postfix_honest(cx, s, inits);
    }
}

proof fn postfix_honest(cx: InputM, s: At, inits: bool)
    ensures
        honest(s, grammar::postfix(cx, s, inits)),
    decreases grammar::left(cx, s.pos), 2nat,
{
    broadcast use {expect_honest, unexpected_code};

    reveal(grammar::postfix);
    reveal(grammar::primary);
    reveal(grammar::postfix_rest);
    primary_honest(cx, s, inits);
    let p = grammar::primary(cx, s, inits);
    if p.val is Some {
        postfix_rest_honest(cx, p.next(s), p.val->0);
    }
}

proof fn postfix_rest_honest(cx: InputM, s: At, e: ExprM)
    ensures
        honest(s, grammar::postfix_rest(cx, s, e)),
    decreases grammar::left(cx, s.pos), 0nat,
{
    broadcast use {expect_honest, unexpected_code};

    reveal(grammar::postfix_rest);
    reveal(grammar::arg_list);
    let k = grammar::kind_at(cx, s.pos);
    let s1 = grammar::skip(s);
    if k is LParen {
        arg_list_honest(cx, s1);
        let a = grammar::arg_list(cx, s1);
        let s2 = a.next(s1);
        if a.val is Some {
            let c = grammar::expect(cx, s2, TokenKindM::RParen, "`)` after arguments"@);
            if c.val is Some {
                let next = crate::ast::untyped(
                    crate::ast::ExprKindM::Call { callee: Box::new(e), args: a.val->0 },
                    e.span,
                );
                postfix_rest_honest(cx, c.next(s2), next);
            }
        }
    } else if k is Dot {
        let f = grammar::expect(
            cx,
            s1,
            TokenKindM::Ident,
            "field or method name after `.`"@,
        );
        if f.val is Some {
            let next = crate::ast::untyped(
                crate::ast::ExprKindM::Field { object: Box::new(e), field: f.val->0.lexeme },
                e.span,
            );
            postfix_rest_honest(cx, f.next(s1), next);
        }
    }
}

proof fn arg_list_honest(cx: InputM, s: At)
    ensures
        honest(s, grammar::arg_list(cx, s)),
    decreases grammar::left(cx, s.pos), 12nat,
{
    broadcast use {expect_honest, unexpected_code};

    reveal(grammar::arg_list);
    reveal(grammar::args_rest);
    args_rest_honest(cx, s, Seq::empty());
}

proof fn args_rest_honest(cx: InputM, s: At, args: Seq<ExprM>)
    ensures
        honest(s, grammar::args_rest(cx, s, args)),
    decreases grammar::left(cx, s.pos), 11nat,
{
    broadcast use {expect_honest, unexpected_code};

    reveal(grammar::args_rest);
    reveal(grammar::cast);
    cast_honest(cx, s, true);
    let r = grammar::cast(cx, s, true);
    let s1 = r.next(s);
    if r.val is Some && grammar::kind_at(cx, s1.pos) is Comma {
        args_rest_honest(cx, grammar::skip(s1), args.push(r.val->0));
    }
}

proof fn primary_honest(cx: InputM, s: At, inits: bool)
    ensures
        honest(s, grammar::primary(cx, s, inits)),
    decreases grammar::left(cx, s.pos), 1nat,
{
    broadcast use {expect_honest, unexpected_code};

    reveal(grammar::primary);
    reveal(grammar::cast);
    reveal(grammar::init_body);
    let k = grammar::kind_at(cx, s.pos);
    let name = grammar::tok_at(cx, s.pos).lexeme;
    let span = grammar::span_at(cx, s.pos);
    let s1 = grammar::skip(s);
    if k is LParen {
        cast_honest(cx, s1, true);
    } else if k is Ident {
        if grammar::kind_at(cx, s1.pos) is ColonColon {
            let s2 = grammar::skip(s1);
            let m = grammar::expect(cx, s2, TokenKindM::Ident, "name after `::`"@);
            if m.val is Some {
                init_body_honest(
                    cx,
                    m.next(s2),
                    StructNameM::Qualified(name, m.val->0.lexeme),
                    span,
                );
            }
        } else {
            init_body_honest(cx, s1, StructNameM::Unqualified(name), span);
        }
    }
}

proof fn init_body_honest(cx: InputM, s: At, name: StructNameM, span: Span)
    ensures
        honest(s, grammar::init_body(cx, s, name, span)),
    decreases grammar::left(cx, s.pos), 12nat,
{
    broadcast use {expect_honest, unexpected_code};

    reveal(grammar::init_body);
    reveal(grammar::inits_rest);
    let o = grammar::expect(
        cx,
        s,
        TokenKindM::LBrace,
        "`{` to open struct initializer"@,
    );
    if o.val is Some {
        inits_rest_honest(cx, o.next(s), Seq::empty());
    }
}

proof fn inits_rest_honest(cx: InputM, s: At, fields: Seq<(Seq<char>, ExprM)>)
    ensures
        honest(s, grammar::inits_rest(cx, s, fields)),
    decreases grammar::left(cx, s.pos), 11nat,
{
    broadcast use {expect_honest, unexpected_code};

    reveal(grammar::inits_rest);
    reveal(grammar::cast);
    let k = grammar::kind_at(cx, s.pos);
    if !(k is RBrace) && !(k is Eof) {
        let n = grammar::expect(cx, s, TokenKindM::Ident, "field name"@);
        let s1 = n.next(s);
        if n.val is Some {
            let q = grammar::expect(
                cx,
                s1,
                TokenKindM::Eq,
                "`=` in struct field (fields use `=`, not `:`)"@,
            );
            let s2 = q.next(s1);
            if q.val is Some {
                cast_honest(cx, s2, true);
                let r = grammar::cast(cx, s2, true);
                let s3 = r.next(s2);
                if r.val is Some && grammar::kind_at(cx, s3.pos) is Comma {
                    inits_rest_honest(
                        cx,
                        grammar::skip(s3),
                        fields.push((n.val->0.lexeme, r.val->0)),
                    );
                }
            }
        }
    }
}

proof fn let_stmt_honest(cx: InputM, s: At)
    ensures
        honest(s, grammar::let_stmt(cx, s)),
{
    broadcast use {expect_honest, unexpected_code};

    reveal(grammar::let_stmt);
    let s1 = grammar::skip(s);
    let n = grammar::expect(cx, s1, TokenKindM::Ident, "variable name"@);
    let s2 = n.next(s1);
    type_expr_honest(cx, grammar::skip(s2));
    let t = grammar::opt_type(cx, s2);
    let s3 = t.next(s2);
    let q = grammar::expect(cx, s3, TokenKindM::Eq, "`=` in let binding"@);
    cast_honest(cx, q.next(s3), true);
}

proof fn return_stmt_honest(cx: InputM, s: At)
    ensures
        honest(s, grammar::return_stmt(cx, s)),
{
    broadcast use {expect_honest, unexpected_code};

    reveal(grammar::return_stmt);
    cast_honest(cx, grammar::skip(s), true);
}

proof fn expr_stmt_honest(cx: InputM, s: At)
    ensures
        honest(s, grammar::expr_stmt(cx, s)),
{
    broadcast use {expect_honest, unexpected_code};

    reveal(grammar::expr_stmt);
    parser_codes();
    cast_honest(cx, s, true);
    let s1 = grammar::expr(cx, s).next(s);
    cast_honest(cx, grammar::skip(s1), true);
}

proof fn asm_rest_honest(
    cx: InputM,
    s: At,
    lines: Seq<Seq<AsmTokenM>>,
    current: Seq<AsmTokenM>,
    last: Option<nat>,
)
    ensures
        honest(s, grammar::asm_rest(cx, s, lines, current, last)),
    decreases grammar::left(cx, s.pos),
{
    broadcast use {expect_honest, unexpected_code};

    reveal(grammar::asm_rest);
    let t = grammar::tok_at(cx, s.pos);
    if !(t.kind is RBrace) && !(t.kind is Eof) {
        let fresh = last is Some && last->0 != t.line;
        let lines1 = if fresh {
            grammar::flushed(lines, current)
        } else {
            lines
        };
        let current1 = if fresh {
            Seq::empty()
        } else {
            current
        };
        let s1 = grammar::skip(s);
        if t.kind is Percent {
            let n = grammar::expect(cx, s1, TokenKindM::Ident, "variable name after `%`"@);
            if n.val is Some {
                asm_rest_honest(
                    cx,
                    n.next(s1),
                    lines1,
                    current1.push(AsmTokenM::Value(n.val->0.lexeme)),
                    Some(t.line),
                );
            }
        } else if t.kind is Ampersand {
            let n = grammar::expect(cx, s1, TokenKindM::Ident, "variable name after `&`"@);
            if n.val is Some {
                asm_rest_honest(
                    cx,
                    n.next(s1),
                    lines1,
                    current1.push(AsmTokenM::Addr(n.val->0.lexeme)),
                    Some(t.line),
                );
            }
        } else {
            asm_rest_honest(
                cx,
                s1,
                lines1,
                current1.push(AsmTokenM::Raw(t.lexeme)),
                Some(t.line),
            );
        }
    }
}

proof fn asm_stmt_honest(cx: InputM, s: At)
    ensures
        honest(s, grammar::asm_stmt(cx, s)),
{
    broadcast use {expect_honest, unexpected_code};

    reveal(grammar::asm_stmt);
    let s1 = grammar::skip(grammar::skip(s));
    let o = grammar::expect(cx, s1, TokenKindM::LBrace, "`{` to open asm block"@);
    asm_rest_honest(cx, o.next(s1), Seq::empty(), Seq::empty(), None);
}

pub(crate) proof fn block_honest(cx: InputM, s: At)
    ensures
        honest(s, grammar::block(cx, s)),
    decreases grammar::left(cx, s.pos), 0nat,
{
    broadcast use {expect_honest, unexpected_code};

    reveal(grammar::block);
    reveal(grammar::block_rest);
    let o = grammar::expect(cx, s, TokenKindM::LBrace, "`{`"@);
    if o.val is Some {
        block_rest_honest(cx, o.next(s), Seq::empty());
    }
}

pub(crate) proof fn block_rest_honest(cx: InputM, s: At, stmts: Seq<StmtM>)
    ensures
        honest(s, grammar::block_rest(cx, s, stmts)),
    decreases grammar::left(cx, s.pos), 3nat,
{
    broadcast use {expect_honest, unexpected_code};

    reveal(grammar::block_rest);
    reveal(grammar::stmt);
    let k = grammar::kind_at(cx, s.pos);
    if !(k is RBrace) && !(k is Eof) {
        stmt_honest(cx, s);
        let (s1, now) = grammar::after_stmt(cx, s, grammar::stmt(cx, s), stmts);
        if s1.pos > s.pos {
            block_rest_honest(cx, s1, now);
        }
    }
}

pub(crate) proof fn stmt_honest(cx: InputM, s: At)
    ensures
        honest(s, grammar::stmt(cx, s)),
    decreases grammar::left(cx, s.pos), 2nat,
{
    broadcast use {expect_honest, unexpected_code};

    reveal(grammar::stmt);
    reveal(grammar::if_stmt);
    reveal(grammar::while_stmt);
    let_stmt_honest(cx, s);
    return_stmt_honest(cx, s);
    asm_stmt_honest(cx, s);
    expr_stmt_honest(cx, s);
    if grammar::kind_at(cx, s.pos) is If {
        if_stmt_honest(cx, s);
    }
    if grammar::kind_at(cx, s.pos) is While {
        while_stmt_honest(cx, s);
    }
}

pub(crate) proof fn branch_honest(cx: InputM, s: At)
    ensures
        honest(s, grammar::branch(cx, s)),
    decreases grammar::left(cx, s.pos), 1nat,
{
    broadcast use {expect_honest, unexpected_code};

    reveal(grammar::branch);
    reveal(grammar::block);
    cast_honest(cx, s, false);
    let r = grammar::cast(cx, s, false);
    block_honest(cx, r.next(s));
}

proof fn if_stmt_honest(cx: InputM, s: At)
    requires
        !(grammar::kind_at(cx, s.pos) is Eof),
    ensures
        honest(s, grammar::if_stmt(cx, s)),
    decreases grammar::left(cx, s.pos), 1nat,
{
    broadcast use {expect_honest, unexpected_code};

    reveal(grammar::if_stmt);
    reveal(grammar::branch);
    reveal(grammar::if_rest);
    let s1 = grammar::skip(s);
    branch_honest(cx, s1);
    let b = grammar::branch(cx, s1);
    if b.val is Some {
        if_rest_honest(cx, b.next(s1), seq![b.val->0]);
    }
}

pub(crate) proof fn if_rest_honest(cx: InputM, s: At, branches: Seq<(ExprM, BlockM)>)
    ensures
        honest(s, grammar::if_rest(cx, s, branches)),
    decreases grammar::left(cx, s.pos), 0nat,
{
    broadcast use {expect_honest, unexpected_code};

    reveal(grammar::if_rest);
    reveal(grammar::branch);
    reveal(grammar::block);
    if grammar::kind_at(cx, s.pos) is Else {
        let s1 = grammar::skip(s);
        if grammar::kind_at(cx, s1.pos) is If {
            let s2 = grammar::skip(s1);
            branch_honest(cx, s2);
            let b = grammar::branch(cx, s2);
            if b.val is Some {
                if_rest_honest(cx, b.next(s2), branches.push(b.val->0));
            }
        } else {
            block_honest(cx, s1);
        }
    }
}

proof fn while_stmt_honest(cx: InputM, s: At)
    requires
        !(grammar::kind_at(cx, s.pos) is Eof),
    ensures
        honest(s, grammar::while_stmt(cx, s)),
    decreases grammar::left(cx, s.pos), 1nat,
{
    broadcast use {expect_honest, unexpected_code};

    reveal(grammar::while_stmt);
    reveal(grammar::branch);
    branch_honest(cx, grammar::skip(s));
}

proof fn param_honest(cx: InputM, s: At)
    ensures
        honest(s, grammar::param(cx, s)),
{
    broadcast use {expect_honest, unexpected_code};

    reveal(grammar::param);
    let s1 = grammar::skip(s);
    let c = grammar::expect(cx, s1, TokenKindM::Colon, "`:` after parameter name"@);
    type_expr_honest(cx, c.next(s1));
}

pub(crate) proof fn params_rest_honest(cx: InputM, s: At, params: Seq<ParamM>)
    ensures
        honest(s, grammar::params_rest(cx, s, params)),
    decreases grammar::left(cx, s.pos),
{
    broadcast use {expect_honest, unexpected_code};

    reveal(grammar::params_rest);
    param_honest(cx, s);
    let r = grammar::param(cx, s);
    let s1 = r.next(s);
    if r.val is Some && grammar::kind_at(cx, s1.pos) is Comma {
        params_rest_honest(cx, grammar::skip(s1), params.push(r.val->0));
    }
}

pub(crate) proof fn fn_decl_honest(cx: InputM, s: At)
    ensures
        honest(s, grammar::fn_decl(cx, s)),
{
    broadcast use {expect_honest, unexpected_code};

    reveal(grammar::fn_decl);
    let s1 = grammar::skip(s);
    let n = grammar::expect(cx, s1, TokenKindM::Ident, "function name"@);
    let s2 = n.next(s1);
    let o = grammar::expect(cx, s2, TokenKindM::LParen, "`(`"@);
    let s3 = o.next(s2);
    params_rest_honest(cx, s3, Seq::empty());
    let s4 = grammar::params(cx, s3).next(s3);
    let c = grammar::expect(cx, s4, TokenKindM::RParen, "`)`"@);
    let s5 = c.next(s4);
    type_expr_honest(cx, s5);
    block_honest(cx, grammar::type_expr(cx, s5).next(s5));
}

proof fn import_honest(cx: InputM, s: At)
    ensures
        honest(s, grammar::import(cx, s)),
{
    broadcast use {expect_honest, unexpected_code};

    reveal(grammar::import);
}

pub(crate) proof fn field_decl_honest(cx: InputM, s: At)
    ensures
        honest(s, grammar::field_decl(cx, s)),
{
    broadcast use {expect_honest, unexpected_code};

    reveal(grammar::field_decl);
    let s1 = grammar::skip(s);
    let c = grammar::expect(cx, s1, TokenKindM::Colon, "`:` after field name"@);
    type_expr_honest(cx, c.next(s1));
}

pub(crate) proof fn struct_rest_honest(cx: InputM, s: At, fields: Seq<FieldDeclM>, methods: Seq<FnDeclM>)
    ensures
        honest(s, grammar::struct_rest(cx, s, fields, methods)),
    decreases grammar::left(cx, s.pos),
{
    broadcast use {expect_honest, unexpected_code};

    reveal(grammar::struct_rest);
    reveal(grammar::fn_decl);
    reveal(grammar::field_decl);
    let k = grammar::kind_at(cx, s.pos);
    if k is Fn {
        fn_decl_honest(cx, s);
        let r = grammar::fn_decl(cx, s);
        if r.val is Some {
            struct_rest_honest(cx, r.next(s), fields, methods.push(r.val->0));
        }
    } else if k is Ident {
        field_decl_honest(cx, s);
        let r = grammar::field_decl(cx, s);
        if r.val is Some {
            struct_rest_honest(cx, r.next(s), fields.push(r.val->0), methods);
        }
    }
}

proof fn struct_decl_honest(cx: InputM, s: At)
    ensures
        honest(s, grammar::struct_decl(cx, s)),
{
    broadcast use {expect_honest, unexpected_code};

    reveal(grammar::struct_decl);
    let s1 = grammar::skip(s);
    let n = grammar::expect(cx, s1, TokenKindM::Ident, "struct name"@);
    let s2 = n.next(s1);
    let o = grammar::expect(cx, s2, TokenKindM::LBrace, "`{`"@);
    struct_rest_honest(cx, o.next(s2), Seq::empty(), Seq::empty());
}

pub(crate) proof fn extend_rest_honest(cx: InputM, s: At, methods: Seq<FnDeclM>)
    ensures
        honest(s, grammar::extend_rest(cx, s, methods)),
    decreases grammar::left(cx, s.pos),
{
    broadcast use {expect_honest, unexpected_code};

    reveal(grammar::extend_rest);
    reveal(grammar::fn_decl);
    if grammar::kind_at(cx, s.pos) is Fn {
        fn_decl_honest(cx, s);
        let r = grammar::fn_decl(cx, s);
        if r.val is Some {
            extend_rest_honest(cx, r.next(s), methods.push(r.val->0));
        }
    }
}

proof fn extend_decl_honest(cx: InputM, s: At)
    ensures
        honest(s, grammar::extend_decl(cx, s)),
{
    broadcast use {expect_honest, unexpected_code};

    reveal(grammar::extend_decl);
    let s1 = grammar::skip(s);
    let s2 = grammar::extend_target(cx, s1).next(s1);
    let o = grammar::expect(cx, s2, TokenKindM::LBrace, "`{`"@);
    extend_rest_honest(cx, o.next(s2), Seq::empty());
}

pub(crate) proof fn item_honest(cx: InputM, s: At)
    ensures
        honest(s, grammar::item(cx, s)),
{
    broadcast use {expect_honest, unexpected_code};

    reveal(grammar::item);
    import_honest(cx, s);
    struct_decl_honest(cx, s);
    fn_decl_honest(cx, s);
    extend_decl_honest(cx, s);
}

pub(crate) proof fn items_rest_honest(cx: InputM, s: At, items: Seq<ItemM>)
    ensures
        ({
            let (_, diags) = grammar::items_rest(cx, s, items);
            &&& diags.len() >= s.diags.len()
            &&& error::codes_in(s.diags, '2') ==> error::codes_in(diags, '2')
        }),
    decreases grammar::left(cx, s.pos),
{
    reveal(grammar::items_rest);
    if !(grammar::kind_at(cx, s.pos) is Eof) {
        item_honest(cx, s);
        grammar::item_progress(cx, s, items);
        let (s1, now) = grammar::after_item(cx, s, items);
        items_rest_honest(cx, s1, now);
    }
}

/// Every diagnostic of the parser has a code that starts with `E2`.
pub proof fn parser_diagnostics_are_e2(cx: InputM)
    ensures
        error::codes_in(grammar::program(cx).1, '2'),
{
    items_rest_honest(cx, grammar::start(), Seq::empty());
}

/// An item that cannot be read is reported: where an item gives no node, the
/// whole program has diagnostics.
pub proof fn no_item_is_lost(cx: InputM, s: At, items: Seq<ItemM>)
    requires
        !(grammar::kind_at(cx, s.pos) is Eof),
        grammar::item(cx, s).val is None,
    ensures
        grammar::items_rest(cx, s, items).1.len() > 0,
{
    reveal(grammar::items_rest);
    item_honest(cx, s);
    grammar::item_progress(cx, s, items);
    let (s1, now) = grammar::after_item(cx, s, items);
    items_rest_honest(cx, s1, now);
}

} // verus!
