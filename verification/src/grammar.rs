//! The grammar of Jo: what each list of tokens is read as.
//!
//! A parsing function looks at the tokens from a position on. It gives the node
//! that it read, or none after a syntax error, how many tokens it took, and the
//! diagnostics known by then.

use vstd::prelude::*;

use crate::ast::{
    AsmTokenM, BinaryOp, BlockM, ExprKindM, ExprM, ExtendDeclM, FieldDeclM, FnDeclM, ImportKindM,
    ItemM, LValueM, ParamKindM, ParamM, Span, StmtM, StructDeclM, StructNameM, TypeM,
    UnaryOp,
};
use crate::ast;
use crate::error;
use crate::error::DiagM;
use crate::lexer;
use crate::lexer::{TokenKindM, TokenM};

verus! {

/// What is parsed: the tokens, and the file and text that diagnostics show.
pub struct InputM {
    pub toks: Seq<TokenM>,
    pub file: Seq<char>,
    pub src: Seq<char>,
}

/// How far parsing has come: the next token, and the diagnostics so far.
pub struct At {
    pub pos: nat,
    pub diags: Seq<DiagM>,
}

/// What a parsing function gives: a node if there was no syntax error, the
/// number of tokens that it took, and the diagnostics known then.
pub struct Out<T> {
    pub val: Option<T>,
    pub adv: nat,
    pub diags: Seq<DiagM>,
}

impl<T> Out<T> {
    /// Where parsing goes on if it started at `s`.
    pub open spec fn next(self, s: At) -> At {
        At { pos: s.pos + self.adv, diags: self.diags }
    }
}

/// Parsing from `s` to `e` has read `v`.
pub open spec fn done<T>(s: At, e: At, v: T) -> Out<T> {
    Out { val: Some(v), adv: (e.pos - s.pos) as nat, diags: e.diags }
}

/// Parsing from `s` has stopped at `e` at a syntax error.
pub open spec fn abort<T>(s: At, e: At) -> Out<T> {
    Out { val: None, adv: (e.pos - s.pos) as nat, diags: e.diags }
}

/// Parsing from `s` went on at `m`, with the outcome `r` from there.
pub open spec fn through<T>(s: At, m: At, r: Out<T>) -> Out<T> {
    Out { val: r.val, adv: (m.pos - s.pos) as nat + r.adv, diags: r.diags }
}

// ---------------------------------------------------------------------------
// Tokens
// ---------------------------------------------------------------------------

/// The token at `pos`; past the last one there is only the end of the input.
pub open spec fn tok_at(cx: InputM, pos: nat) -> TokenM {
    if pos < cx.toks.len() {
        cx.toks[pos as int]
    } else {
        TokenM { kind: TokenKindM::Eof, lexeme: Seq::empty(), line: 0, col: 0 }
    }
}

pub open spec fn kind_at(cx: InputM, pos: nat) -> TokenKindM {
    tok_at(cx, pos).kind
}

pub open spec fn span_of(t: TokenM) -> Span {
    Span { line: t.line as usize, col: t.col as usize }
}

pub open spec fn span_at(cx: InputM, pos: nat) -> Span {
    span_of(tok_at(cx, pos))
}

/// How many tokens there are from `pos` on.
pub open spec fn left(cx: InputM, pos: nat) -> nat {
    if pos < cx.toks.len() {
        (cx.toks.len() - pos) as nat
    } else {
        0
    }
}

/// Whether the end of the input is marked by a token at `pos` or after it.
#[verifier::opaque]
pub open spec fn ends(cx: InputM, pos: nat) -> bool {
    exists|i: int| pos <= i < cx.toks.len() && (#[trigger] cx.toks[i]).kind is Eof
}

/// The position after one token.
pub open spec fn skip(s: At) -> At {
    At { pos: s.pos + 1, ..s }
}

/// How a diagnostic speaks of a token.
pub open spec fn described(t: TokenM) -> Seq<char> {
    match t.kind {
        TokenKindM::Eof => "end of input"@,
        TokenKindM::Ident => "identifier `"@ + t.lexeme + "`"@,
        TokenKindM::IntLit(_) => "integer `"@ + t.lexeme + "`"@,
        TokenKindM::FloatLit(_) => "float `"@ + t.lexeme + "`"@,
        TokenKindM::StringLit(_) => "string literal"@,
        TokenKindM::CharLit(_) => "char `"@ + t.lexeme + "`"@,
        TokenKindM::BoolLit(b) => if b {
            "`true`"@
        } else {
            "`false`"@
        },
        _ => if t.lexeme.len() > 0 {
            "`"@ + t.lexeme + "`"@
        } else {
            lexer::kind_name(t.kind)
        },
    }
}

/// A diagnostic at a place of the source.
pub open spec fn diag_at(
    cx: InputM,
    line: nat,
    col: nat,
    code: Seq<char>,
    msg: Seq<char>,
    label: Seq<char>,
) -> DiagM {
    DiagM {
        code,
        message: msg,
        file: cx.file,
        line,
        col,
        source_line: error::source_line(cx.src, line),
        label,
    }
}

/// The diagnostic that the token at `pos` is not what was expected.
#[verifier::opaque]
pub open spec fn unexpected(cx: InputM, pos: nat, msg: Seq<char>, label: Seq<char>) -> DiagM {
    let t = tok_at(cx, pos);
    diag_at(cx, t.line, t.col, "E200"@, msg + ", found "@ + described(t), label)
}

/// Parsing from `s` stops at `e`, with that diagnostic.
pub open spec fn reject<T>(cx: InputM, s: At, e: At, msg: Seq<char>, label: Seq<char>) -> Out<T> {
    abort(s, At { diags: e.diags.push(unexpected(cx, e.pos, msg, label)), ..e })
}

/// Takes the token at `s` if it is of the kind `k`, which is not the end.
pub open spec fn expect(cx: InputM, s: At, k: TokenKindM, what: Seq<char>) -> Out<TokenM> {
    if kind_at(cx, s.pos) == k {
        done(s, skip(s), tok_at(cx, s.pos))
    } else {
        reject(cx, s, s, "expected "@ + what, what)
    }
}

// ---------------------------------------------------------------------------
// Types
// ---------------------------------------------------------------------------

pub open spec fn type_start(k: TokenKindM) -> bool {
    k is I64 || k is F64 || k is Void || k is Null || k is Ampersand || k is Ident
}

#[verifier::opaque]
pub open spec fn type_expr(cx: InputM, s: At) -> Out<TypeM>
    decreases left(cx, s.pos),
{
    let k = kind_at(cx, s.pos);
    let s1 = skip(s);
    if k is I64 {
        done(s, s1, TypeM::I64)
    } else if k is F64 {
        done(s, s1, TypeM::F64)
    } else if k is Void {
        done(s, s1, TypeM::Void)
    } else if k is Null {
        done(s, s1, TypeM::Null)
    } else if k is Ampersand {
        let mutable = kind_at(cx, s1.pos) is Mut;
        let s2 = if mutable {
            skip(s1)
        } else {
            s1
        };
        let r = type_expr(cx, s2);
        match r.val {
            None => abort(s, r.next(s2)),
            Some(t) => done(
                s,
                r.next(s2),
                if mutable {
                    TypeM::MutRef(Box::new(t))
                } else {
                    TypeM::Ref(Box::new(t))
                },
            ),
        }
    } else if k is Ident {
        let first = tok_at(cx, s.pos).lexeme;
        if kind_at(cx, s1.pos) is ColonColon {
            let s2 = skip(s1);
            let r = expect(cx, s2, TokenKindM::Ident, "type name after `::`"@);
            match r.val {
                None => abort(s, r.next(s2)),
                Some(t) => done(s, r.next(s2), TypeM::Qualified(first, t.lexeme)),
            }
        } else {
            done(s, s1, TypeM::Named(first))
        }
    } else {
        reject(cx, s, s, "expected a type"@, "expected type"@)
    }
}

// ---------------------------------------------------------------------------
// Expressions
// ---------------------------------------------------------------------------

/// The binary operator that a token is, at each level of binding: `||` binds
/// loosest, then `&&`, the comparisons, the sums and the products.
pub open spec fn operator(k: TokenKindM, level: nat) -> Option<BinaryOp> {
    if level == 0 {
        match k {
            TokenKindM::PipePipe => Some(BinaryOp::Or),
            _ => None,
        }
    } else if level == 1 {
        match k {
            TokenKindM::AmpAmp => Some(BinaryOp::And),
            _ => None,
        }
    } else if level == 2 {
        match k {
            TokenKindM::EqEq => Some(BinaryOp::Eq),
            TokenKindM::Ne => Some(BinaryOp::Ne),
            TokenKindM::Lt => Some(BinaryOp::Lt),
            TokenKindM::Gt => Some(BinaryOp::Gt),
            TokenKindM::Le => Some(BinaryOp::Le),
            TokenKindM::Ge => Some(BinaryOp::Ge),
            _ => None,
        }
    } else if level == 3 {
        match k {
            TokenKindM::Plus => Some(BinaryOp::Add),
            TokenKindM::Minus => Some(BinaryOp::Sub),
            _ => None,
        }
    } else {
        match k {
            TokenKindM::Star => Some(BinaryOp::Mul),
            TokenKindM::Slash => Some(BinaryOp::Div),
            TokenKindM::Percent => Some(BinaryOp::Mod),
            _ => None,
        }
    }
}

/// Whether the token is an infix operator.
pub open spec fn is_operator(k: TokenKindM) -> bool {
    operator(k, 0) is Some || operator(k, 1) is Some || operator(k, 2) is Some || operator(
        k,
        3,
    ) is Some || operator(k, 4) is Some
}

/// An expression.
pub open spec fn expr(cx: InputM, s: At) -> Out<ExprM> {
    cast(cx, s, true)
}

/// An expression and the casts after it. Where `inits` is false a brace does
/// not start a struct initializer.
#[verifier::opaque]
pub open spec fn cast(cx: InputM, s: At, inits: bool) -> Out<ExprM>
    decreases left(cx, s.pos), 10nat,
{
    let l = binary(cx, s, inits, 0);
    let s1 = l.next(s);
    match l.val {
        None => abort(s, s1),
        Some(e) => through(s, s1, cast_rest(cx, s1, e, false)),
    }
}

/// The casts from `s` on, of the expression `e`; `casted` tells whether `e` is
/// itself a cast. No infix operator may follow a cast.
#[verifier::opaque]
pub open spec fn cast_rest(cx: InputM, s: At, e: ExprM, casted: bool) -> Out<ExprM>
    decreases left(cx, s.pos), 0nat,
{
    if kind_at(cx, s.pos) is Arrow {
        let s1 = skip(s);
        let t = type_expr(cx, s1);
        let s2 = t.next(s1);
        match t.val {
            None => abort(s, s2),
            Some(target_type) => through(
                s,
                s2,
                cast_rest(
                    cx,
                    s2,
                    ast::untyped(ExprKindM::Cast { expr: Box::new(e), target_type }, e.span),
                    true,
                ),
            ),
        }
    } else if casted && is_operator(kind_at(cx, s.pos)) {
        let t = tok_at(cx, s.pos);
        abort(
            s,
            At {
                diags: s.diags.push(
                    diag_at(
                        cx,
                        t.line,
                        t.col,
                        "E202"@,
                        "a binary operator cannot directly follow a cast; wrap the cast in parentheses"@,
                        "wrap the cast: `(expr -> Type) <op> …`"@,
                    ),
                ),
                ..s
            },
        )
    } else {
        done(s, s, e)
    }
}

/// Operands joined from left to right by the operators of the level.
#[verifier::opaque]
pub open spec fn binary(cx: InputM, s: At, inits: bool, level: nat) -> Out<ExprM>
    decreases
            left(cx, s.pos),
            if level < 5 {
                (9 - level) as nat
            } else {
                4
            },
{
    if level >= 5 {
        unary(cx, s, inits)
    } else {
        let l = binary(cx, s, inits, level + 1);
        let s1 = l.next(s);
        match l.val {
            None => abort(s, s1),
            Some(e) => through(s, s1, binary_rest(cx, s1, inits, level, e)),
        }
    }
}

/// The operators of the level and their right operands from `s` on, when `e`
/// stands before them.
#[verifier::opaque]
pub open spec fn binary_rest(cx: InputM, s: At, inits: bool, level: nat, e: ExprM) -> Out<ExprM>
    decreases left(cx, s.pos), 0nat,
{
    match operator(kind_at(cx, s.pos), level) {
        None => done(s, s, e),
        Some(op) => {
            let s1 = skip(s);
            let r = binary(cx, s1, inits, level + 1);
            let s2 = r.next(s1);
            match r.val {
                None => abort(s, s2),
                Some(right) => through(
                    s,
                    s2,
                    binary_rest(
                        cx,
                        s2,
                        inits,
                        level,
                        ast::untyped(
                            ExprKindM::Binary { op, left: Box::new(e), right: Box::new(right) },
                            e.span,
                        ),
                    ),
                ),
            }
        },
    }
}

/// A prefix operator and its operand.
pub open spec fn prefixed(k: TokenKindM, mutable: bool, e: ExprM) -> ExprKindM {
    match k {
        TokenKindM::Bang => ExprKindM::Unary { op: UnaryOp::Not, operand: Box::new(e) },
        TokenKindM::Minus => ExprKindM::Unary { op: UnaryOp::Neg, operand: Box::new(e) },
        TokenKindM::Star => ExprKindM::Deref { operand: Box::new(e) },
        _ => ExprKindM::Ref { mutable, operand: Box::new(e) },
    }
}

#[verifier::opaque]
pub open spec fn unary(cx: InputM, s: At, inits: bool) -> Out<ExprM>
    decreases left(cx, s.pos), 3nat,
{
    let k = kind_at(cx, s.pos);
    if k is Bang || k is Minus || k is Star || k is Ampersand {
        let s1 = skip(s);
        let mutable = k is Ampersand && kind_at(cx, s1.pos) is Mut;
        let s2 = if mutable {
            skip(s1)
        } else {
            s1
        };
        let r = unary(cx, s2, inits);
        match r.val {
            None => abort(s, r.next(s2)),
            Some(e) => done(
                s,
                r.next(s2),
                ast::untyped(prefixed(k, mutable, e), span_at(cx, s.pos)),
            ),
        }
    } else {
        postfix(cx, s, inits)
    }
}

#[verifier::opaque]
pub open spec fn postfix(cx: InputM, s: At, inits: bool) -> Out<ExprM>
    decreases left(cx, s.pos), 2nat,
{
    let p = primary(cx, s, inits);
    let s1 = p.next(s);
    match p.val {
        None => abort(s, s1),
        Some(e) => through(s, s1, postfix_rest(cx, s1, e)),
    }
}

/// The calls and field accesses from `s` on, of the expression `e`.
#[verifier::opaque]
pub open spec fn postfix_rest(cx: InputM, s: At, e: ExprM) -> Out<ExprM>
    decreases left(cx, s.pos), 0nat,
{
    let k = kind_at(cx, s.pos);
    let s1 = skip(s);
    if k is LParen {
        let a = arg_list(cx, s1);
        let s2 = a.next(s1);
        match a.val {
            None => abort(s, s2),
            Some(args) => {
                let c = expect(cx, s2, TokenKindM::RParen, "`)` after arguments"@);
                let s3 = c.next(s2);
                match c.val {
                    None => abort(s, s3),
                    Some(_) => through(
                        s,
                        s3,
                        postfix_rest(
                            cx,
                            s3,
                            ast::untyped(
                                ExprKindM::Call { callee: Box::new(e), args },
                                e.span,
                            ),
                        ),
                    ),
                }
            },
        }
    } else if k is Dot {
        let f = expect(cx, s1, TokenKindM::Ident, "field or method name after `.`"@);
        let s2 = f.next(s1);
        match f.val {
            None => abort(s, s2),
            Some(t) => through(
                s,
                s2,
                postfix_rest(
                    cx,
                    s2,
                    ast::untyped(
                        ExprKindM::Field { object: Box::new(e), field: t.lexeme },
                        e.span,
                    ),
                ),
            ),
        }
    } else {
        done(s, s, e)
    }
}

/// The arguments of a call, up to the closing parenthesis.
#[verifier::opaque]
pub open spec fn arg_list(cx: InputM, s: At) -> Out<Seq<ExprM>>
    decreases left(cx, s.pos), 12nat,
{
    if kind_at(cx, s.pos) is RParen {
        done(s, s, Seq::empty())
    } else {
        args_rest(cx, s, Seq::empty())
    }
}

#[verifier::opaque]
pub open spec fn args_rest(cx: InputM, s: At, args: Seq<ExprM>) -> Out<Seq<ExprM>>
    decreases left(cx, s.pos), 11nat,
{
    let r = cast(cx, s, true);
    let s1 = r.next(s);
    match r.val {
        None => abort(s, s1),
        Some(e) => if kind_at(cx, s1.pos) is Comma {
            let s2 = skip(s1);
            if kind_at(cx, s2.pos) is RParen {
                done(s, s2, args.push(e))
            } else {
                through(s, s2, args_rest(cx, s2, args.push(e)))
            }
        } else {
            done(s, s1, args.push(e))
        },
    }
}

/// The literal that a token is.
pub open spec fn literal(k: TokenKindM) -> Option<ExprKindM> {
    match k {
        TokenKindM::IntLit(n) => Some(ExprKindM::IntLit(n)),
        TokenKindM::FloatLit(t) => Some(ExprKindM::FloatLit(t)),
        TokenKindM::CharLit(c) => Some(ExprKindM::CharLit(c)),
        TokenKindM::BoolLit(b) => Some(ExprKindM::BoolLit(b)),
        TokenKindM::StringLit(t) => Some(ExprKindM::StringLit(t)),
        // `self` inside a method body is an ordinary value.
        TokenKindM::Self_ => Some(ExprKindM::Ident("self"@)),
        // `null` is zero at the machine level.
        TokenKindM::Null => Some(ExprKindM::IntLit(0)),
        _ => None,
    }
}

#[verifier::opaque]
pub open spec fn primary(cx: InputM, s: At, inits: bool) -> Out<ExprM>
    decreases left(cx, s.pos), 1nat,
{
    let k = kind_at(cx, s.pos);
    let span = span_at(cx, s.pos);
    let name = tok_at(cx, s.pos).lexeme;
    let s1 = skip(s);
    if literal(k) is Some {
        done(s, s1, ast::untyped(literal(k)->0, span))
    } else if k is LParen {
        let r = cast(cx, s1, true);
        let s2 = r.next(s1);
        match r.val {
            None => abort(s, s2),
            Some(e) => {
                let c = expect(cx, s2, TokenKindM::RParen, "`)`"@);
                match c.val {
                    None => abort(s, c.next(s2)),
                    Some(_) => done(s, c.next(s2), e),
                }
            },
        }
    } else if k is I64 || k is F64 {
        if kind_at(cx, s1.pos) is ColonColon {
            let s2 = skip(s1);
            let m = expect(cx, s2, TokenKindM::Ident, "method name after `::`"@);
            match m.val {
                None => abort(s, m.next(s2)),
                Some(t) => done(
                    s,
                    m.next(s2),
                    ast::untyped(
                        ExprKindM::QualifiedIdent { module: name, name: t.lexeme },
                        span,
                    ),
                ),
            }
        } else {
            reject(cx, s, s1, "expected an expression"@, "expected expression"@)
        }
    } else if k is Ident {
        if kind_at(cx, s1.pos) is ColonColon {
            let s2 = skip(s1);
            let m = expect(cx, s2, TokenKindM::Ident, "name after `::`"@);
            let s3 = m.next(s2);
            match m.val {
                None => abort(s, s3),
                Some(t) => if inits && kind_at(cx, s3.pos) is LBrace {
                    through(
                        s,
                        s3,
                        init_body(cx, s3, StructNameM::Qualified(name, t.lexeme), span),
                    )
                } else {
                    done(
                        s,
                        s3,
                        ast::untyped(
                            ExprKindM::QualifiedIdent { module: name, name: t.lexeme },
                            span,
                        ),
                    )
                },
            }
        } else if inits && kind_at(cx, s1.pos) is LBrace {
            through(s, s1, init_body(cx, s1, StructNameM::Unqualified(name), span))
        } else {
            done(s, s1, ast::untyped(ExprKindM::Ident(name), span))
        }
    } else {
        reject(cx, s, s, "expected an expression"@, "expected expression"@)
    }
}

/// The braces of a struct initializer and what is between them.
#[verifier::opaque]
pub open spec fn init_body(cx: InputM, s: At, name: StructNameM, span: Span) -> Out<ExprM>
    decreases left(cx, s.pos), 12nat,
{
    let o = expect(cx, s, TokenKindM::LBrace, "`{` to open struct initializer"@);
    let s1 = o.next(s);
    match o.val {
        None => abort(s, s1),
        Some(_) => {
            let r = inits_rest(cx, s1, Seq::empty());
            let s2 = r.next(s1);
            match r.val {
                None => abort(s, s2),
                Some(fields) => {
                    let c = expect(cx, s2, TokenKindM::RBrace, "`}` to close struct initializer"@);
                    match c.val {
                        None => abort(s, c.next(s2)),
                        Some(_) => done(
                            s,
                            c.next(s2),
                            ast::untyped(ExprKindM::StructInit { name, fields }, span),
                        ),
                    }
                },
            }
        },
    }
}

/// The field values of a struct initializer from `s` on.
#[verifier::opaque]
pub open spec fn inits_rest(cx: InputM, s: At, fields: Seq<(Seq<char>, ExprM)>) -> Out<
    Seq<(Seq<char>, ExprM)>,
>
    decreases left(cx, s.pos), 11nat,
{
    let k = kind_at(cx, s.pos);
    if k is RBrace || k is Eof {
        done(s, s, fields)
    } else {
        let n = expect(cx, s, TokenKindM::Ident, "field name"@);
        let s1 = n.next(s);
        match n.val {
            None => abort(s, s1),
            Some(t) => {
                let q = expect(
                    cx,
                    s1,
                    TokenKindM::Eq,
                    "`=` in struct field (fields use `=`, not `:`)"@,
                );
                let s2 = q.next(s1);
                match q.val {
                    None => abort(s, s2),
                    Some(_) => {
                        let r = cast(cx, s2, true);
                        let s3 = r.next(s2);
                        match r.val {
                            None => abort(s, s3),
                            Some(e) => {
                                let now = fields.push((t.lexeme, e));
                                if kind_at(cx, s3.pos) is Comma {
                                    through(s, skip(s3), inits_rest(cx, skip(s3), now))
                                } else {
                                    done(s, s3, now)
                                }
                            },
                        }
                    },
                }
            },
        }
    }
}

// ---------------------------------------------------------------------------
// Statements
// ---------------------------------------------------------------------------

/// How many tokens are passed over after an error in a statement: those up to a
/// semicolon and the semicolon, or up to a token that can start or end one.
#[verifier::opaque]
pub open spec fn stmt_gap(cx: InputM, pos: nat) -> nat
    decreases left(cx, pos),
{
    let k = kind_at(cx, pos);
    if k is Eof || k is RBrace || k is Let || k is Return || k is If || k is While || k is Break
        || k is Continue {
        0
    } else if k is Semicolon {
        1
    } else {
        1 + stmt_gap(cx, pos + 1)
    }
}

/// What a block or its statements may be parsed as.
#[verifier::opaque]
pub open spec fn block(cx: InputM, s: At) -> Out<BlockM>
    decreases left(cx, s.pos), 0nat,
{
    let o = expect(cx, s, TokenKindM::LBrace, "`{`"@);
    let s1 = o.next(s);
    match o.val {
        None => abort(s, s1),
        Some(_) => {
            let r = block_rest(cx, s1, Seq::empty());
            let s2 = r.next(s1);
            match r.val {
                None => abort(s, s2),
                Some(stmts) => {
                    let c = expect(cx, s2, TokenKindM::RBrace, "`}`"@);
                    match c.val {
                        None => abort(s, c.next(s2)),
                        Some(_) => done(s, c.next(s2), BlockM { stmts }),
                    }
                },
            }
        },
    }
}

/// What has been read after a statement was tried at `s`: where parsing goes
/// on, and the statements so far. After an error the rest of the statement is
/// passed over.
pub open spec fn after_stmt(cx: InputM, s: At, r: Out<StmtM>, stmts: Seq<StmtM>) -> (
    At,
    Seq<StmtM>,
) {
    let s1 = r.next(s);
    match r.val {
        Some(x) => (s1, stmts.push(x)),
        None => (At { pos: s1.pos + stmt_gap(cx, s1.pos), ..s1 }, stmts),
    }
}

/// The statements of a block from `s` on, up to a closing brace or the end. No
/// statement is empty, so that parsing always goes forward.
#[verifier::opaque]
pub open spec fn block_rest(cx: InputM, s: At, stmts: Seq<StmtM>) -> Out<Seq<StmtM>>
    decreases left(cx, s.pos), 3nat,
{
    let k = kind_at(cx, s.pos);
    if k is RBrace || k is Eof {
        done(s, s, stmts)
    } else {
        let (s1, now) = after_stmt(cx, s, stmt(cx, s), stmts);
        if s1.pos <= s.pos {
            done(s, s1, now)
        } else {
            through(s, s1, block_rest(cx, s1, now))
        }
    }
}

#[verifier::opaque]
pub open spec fn stmt(cx: InputM, s: At) -> Out<StmtM>
    decreases left(cx, s.pos), 2nat,
{
    let k = kind_at(cx, s.pos);
    let s1 = skip(s);
    let span = span_at(cx, s.pos);
    if k is Let {
        let_stmt(cx, s)
    } else if k is Return {
        return_stmt(cx, s)
    } else if k is If {
        if_stmt(cx, s)
    } else if k is While {
        while_stmt(cx, s)
    } else if k is Break {
        let c = expect(cx, s1, TokenKindM::Semicolon, "`;` after break"@);
        match c.val {
            None => abort(s, c.next(s1)),
            Some(_) => done(s, c.next(s1), StmtM::Break(span)),
        }
    } else if k is Continue {
        let c = expect(cx, s1, TokenKindM::Semicolon, "`;` after continue"@);
        match c.val {
            None => abort(s, c.next(s1)),
            Some(_) => done(s, c.next(s1), StmtM::Continue(span)),
        }
    } else if k is Bang && kind_at(cx, s1.pos) is Asm {
        asm_stmt(cx, s)
    } else {
        expr_stmt(cx, s)
    }
}

/// The type that may follow a colon.
pub open spec fn opt_type(cx: InputM, s: At) -> Out<Option<TypeM>> {
    if kind_at(cx, s.pos) is Colon {
        let r = type_expr(cx, skip(s));
        match r.val {
            None => abort(s, r.next(skip(s))),
            Some(t) => done(s, r.next(skip(s)), Some(t)),
        }
    } else {
        done(s, s, None)
    }
}

#[verifier::opaque]
pub open spec fn let_stmt(cx: InputM, s: At) -> Out<StmtM> {
    let s1 = skip(s);
    let n = expect(cx, s1, TokenKindM::Ident, "variable name"@);
    let s2 = n.next(s1);
    match n.val {
        None => abort(s, s2),
        Some(name) => {
            let t = opt_type(cx, s2);
            let s3 = t.next(s2);
            match t.val {
                None => abort(s, s3),
                Some(ty) => {
                    let q = expect(cx, s3, TokenKindM::Eq, "`=` in let binding"@);
                    let s4 = q.next(s3);
                    match q.val {
                        None => abort(s, s4),
                        Some(_) => {
                            let r = expr(cx, s4);
                            let s5 = r.next(s4);
                            match r.val {
                                None => abort(s, s5),
                                Some(init) => {
                                    let c = expect(
                                        cx,
                                        s5,
                                        TokenKindM::Semicolon,
                                        "`;` after let"@,
                                    );
                                    match c.val {
                                        None => abort(s, c.next(s5)),
                                        Some(_) => done(
                                            s,
                                            c.next(s5),
                                            StmtM::Let {
                                                name: name.lexeme,
                                                ty,
                                                init,
                                                span: span_at(cx, s.pos),
                                            },
                                        ),
                                    }
                                },
                            }
                        },
                    }
                },
            }
        },
    }
}

#[verifier::opaque]
pub open spec fn return_stmt(cx: InputM, s: At) -> Out<StmtM> {
    let s1 = skip(s);
    let span = span_at(cx, s.pos);
    if kind_at(cx, s1.pos) is Semicolon {
        done(s, skip(s1), StmtM::Return { value: None, span })
    } else {
        let r = expr(cx, s1);
        let s2 = r.next(s1);
        match r.val {
            None => abort(s, s2),
            Some(e) => {
                let c = expect(cx, s2, TokenKindM::Semicolon, "`;` after return value"@);
                match c.val {
                    None => abort(s, c.next(s2)),
                    Some(_) => done(s, c.next(s2), StmtM::Return { value: Some(e), span }),
                }
            },
        }
    }
}

/// A condition, in which a brace does not start a struct initializer, and a block.
#[verifier::opaque]
pub open spec fn branch(cx: InputM, s: At) -> Out<(ExprM, BlockM)>
    decreases left(cx, s.pos), 1nat,
{
    let r = cast(cx, s, false);
    let s1 = r.next(s);
    match r.val {
        None => abort(s, s1),
        Some(cond) => {
            let b = block(cx, s1);
            match b.val {
                None => abort(s, b.next(s1)),
                Some(body) => done(s, b.next(s1), (cond, body)),
            }
        },
    }
}

#[verifier::opaque]
pub open spec fn if_stmt(cx: InputM, s: At) -> Out<StmtM>
    decreases left(cx, s.pos), 1nat,
    when !(kind_at(cx, s.pos) is Eof)
{
    let s1 = skip(s);
    let b = branch(cx, s1);
    let s2 = b.next(s1);
    match b.val {
        None => abort(s, s2),
        Some(first) => {
            let r = if_rest(cx, s2, seq![first]);
            match r.val {
                None => abort(s, r.next(s2)),
                Some((branches, else_block)) => done(
                    s,
                    r.next(s2),
                    StmtM::If { branches, else_block, span: span_at(cx, s.pos) },
                ),
            }
        },
    }
}

/// The `else if` branches and the `else` block from `s` on.
#[verifier::opaque]
pub open spec fn if_rest(cx: InputM, s: At, branches: Seq<(ExprM, BlockM)>) -> Out<
    (Seq<(ExprM, BlockM)>, Option<BlockM>),
>
    decreases left(cx, s.pos), 0nat,
{
    if kind_at(cx, s.pos) is Else {
        let s1 = skip(s);
        if kind_at(cx, s1.pos) is If {
            let s2 = skip(s1);
            let b = branch(cx, s2);
            let s3 = b.next(s2);
            match b.val {
                None => abort(s, s3),
                Some(next) => through(s, s3, if_rest(cx, s3, branches.push(next))),
            }
        } else {
            let b = block(cx, s1);
            match b.val {
                None => abort(s, b.next(s1)),
                Some(body) => done(s, b.next(s1), (branches, Some(body))),
            }
        }
    } else {
        done(s, s, (branches, None))
    }
}

#[verifier::opaque]
pub open spec fn while_stmt(cx: InputM, s: At) -> Out<StmtM>
    decreases left(cx, s.pos), 1nat,
    when !(kind_at(cx, s.pos) is Eof)
{
    let s1 = skip(s);
    let b = branch(cx, s1);
    match b.val {
        None => abort(s, b.next(s1)),
        Some((condition, body)) => done(
            s,
            b.next(s1),
            StmtM::While { condition, body, span: span_at(cx, s.pos) },
        ),
    }
}

/// What an expression stands for on the left of an assignment.
pub open spec fn target(e: ExprM) -> Option<LValueM> {
    match e.kind {
        ExprKindM::Ident(name) => Some(LValueM::Ident(name, e.span)),
        ExprKindM::Deref { operand } => Some(LValueM::Deref(*operand, e.span)),
        ExprKindM::Field { object, field } => Some(LValueM::Field(*object, field, e.span)),
        _ => None,
    }
}

/// An expression, or an assignment whose left side is one.
#[verifier::opaque]
pub open spec fn expr_stmt(cx: InputM, s: At) -> Out<StmtM> {
    let l = expr(cx, s);
    let s1 = l.next(s);
    match l.val {
        None => abort(s, s1),
        Some(e) => if kind_at(cx, s1.pos) is Eq {
            let s2 = skip(s1);
            match target(e) {
                None => abort(
                    s,
                    At {
                        diags: s2.diags.push(
                            diag_at(
                                cx,
                                e.span.line as nat,
                                e.span.col as nat,
                                "E201"@,
                                "invalid assignment target"@,
                                "not assignable"@,
                            ),
                        ),
                        ..s2
                    },
                ),
                Some(lvalue) => {
                    let r = expr(cx, s2);
                    let s3 = r.next(s2);
                    match r.val {
                        None => abort(s, s3),
                        Some(value) => {
                            let c = expect(
                                cx,
                                s3,
                                TokenKindM::Semicolon,
                                "`;` after assignment"@,
                            );
                            match c.val {
                                None => abort(s, c.next(s3)),
                                Some(_) => done(
                                    s,
                                    c.next(s3),
                                    StmtM::Assign {
                                        target: lvalue,
                                        value,
                                        span: span_at(cx, s.pos),
                                    },
                                ),
                            }
                        },
                    }
                },
            }
        } else {
            let c = expect(cx, s1, TokenKindM::Semicolon, "`;` after expression statement"@);
            match c.val {
                None => abort(s, c.next(s1)),
                Some(_) => done(s, c.next(s1), StmtM::Expr(e)),
            }
        },
    }
}

/// The lines of an asm block, with the current line if it holds something.
pub open spec fn flushed(lines: Seq<Seq<AsmTokenM>>, current: Seq<AsmTokenM>) -> Seq<
    Seq<AsmTokenM>,
> {
    if current.len() > 0 {
        lines.push(current)
    } else {
        lines
    }
}

/// What is between the braces of an asm block, line by line. `last` is the
/// source line of the token before, and `current` what was read of that line.
#[verifier::opaque]
pub open spec fn asm_rest(
    cx: InputM,
    s: At,
    lines: Seq<Seq<AsmTokenM>>,
    current: Seq<AsmTokenM>,
    last: Option<nat>,
) -> Out<Seq<Seq<AsmTokenM>>>
    decreases left(cx, s.pos),
{
    let t = tok_at(cx, s.pos);
    if t.kind is RBrace || t.kind is Eof {
        done(s, s, flushed(lines, current))
    } else {
        let fresh = last is Some && last->0 != t.line;
        let lines1 = if fresh {
            flushed(lines, current)
        } else {
            lines
        };
        let current1 = if fresh {
            Seq::empty()
        } else {
            current
        };
        let s1 = skip(s);
        if t.kind is Percent {
            let n = expect(cx, s1, TokenKindM::Ident, "variable name after `%`"@);
            let s2 = n.next(s1);
            match n.val {
                None => abort(s, s2),
                Some(v) => through(
                    s,
                    s2,
                    asm_rest(
                        cx,
                        s2,
                        lines1,
                        current1.push(AsmTokenM::Value(v.lexeme)),
                        Some(t.line),
                    ),
                ),
            }
        } else if t.kind is Ampersand {
            let n = expect(cx, s1, TokenKindM::Ident, "variable name after `&`"@);
            let s2 = n.next(s1);
            match n.val {
                None => abort(s, s2),
                Some(v) => through(
                    s,
                    s2,
                    asm_rest(
                        cx,
                        s2,
                        lines1,
                        current1.push(AsmTokenM::Addr(v.lexeme)),
                        Some(t.line),
                    ),
                ),
            }
        } else {
            through(
                s,
                s1,
                asm_rest(
                    cx,
                    s1,
                    lines1,
                    current1.push(AsmTokenM::Raw(t.lexeme)),
                    Some(t.line),
                ),
            )
        }
    }
}

#[verifier::opaque]
pub open spec fn asm_stmt(cx: InputM, s: At) -> Out<StmtM> {
    let s1 = skip(skip(s));
    let o = expect(cx, s1, TokenKindM::LBrace, "`{` to open asm block"@);
    let s2 = o.next(s1);
    match o.val {
        None => abort(s, s2),
        Some(_) => {
            let r = asm_rest(cx, s2, Seq::empty(), Seq::empty(), None);
            let s3 = r.next(s2);
            match r.val {
                None => abort(s, s3),
                Some(lines) => {
                    let c = expect(cx, s3, TokenKindM::RBrace, "`}` to close asm block"@);
                    match c.val {
                        None => abort(s, c.next(s3)),
                        Some(_) => done(
                            s,
                            c.next(s3),
                            StmtM::Asm { lines, span: span_at(cx, s.pos) },
                        ),
                    }
                },
            }
        },
    }
}

// ---------------------------------------------------------------------------
// Items
// ---------------------------------------------------------------------------

/// A `self` parameter that starts at `s`, whose `self` stands at `e`.
pub open spec fn self_param(cx: InputM, s: At, e: At, what: Seq<char>, kind: ParamKindM) -> Out<
    ParamM,
> {
    let r = expect(cx, e, TokenKindM::Self_, what);
    match r.val {
        None => abort(s, r.next(e)),
        Some(_) => done(s, r.next(e), ParamM { kind, span: span_at(cx, s.pos) }),
    }
}

#[verifier::opaque]
pub open spec fn param(cx: InputM, s: At) -> Out<ParamM> {
    let k = kind_at(cx, s.pos);
    let s1 = skip(s);
    if k is Ampersand {
        if kind_at(cx, s1.pos) is Mut {
            self_param(cx, s, skip(s1), "`self` after `&mut`"@, ParamKindM::SelfMutRef)
        } else {
            self_param(cx, s, s1, "`self` after `&`"@, ParamKindM::SelfRef)
        }
    } else if k is Move {
        self_param(cx, s, s1, "`self` after `move`"@, ParamKindM::SelfMove)
    } else if k is Self_ {
        reject(
            cx,
            s,
            s,
            "bare `self` is not a valid parameter (use `&self`, `&mut self`, or `move self`)"@,
            "invalid self"@,
        )
    } else if k is Ident {
        let c = expect(cx, s1, TokenKindM::Colon, "`:` after parameter name"@);
        let s2 = c.next(s1);
        match c.val {
            None => abort(s, s2),
            Some(_) => {
                let t = type_expr(cx, s2);
                match t.val {
                    None => abort(s, t.next(s2)),
                    Some(ty) => done(
                        s,
                        t.next(s2),
                        ParamM {
                            kind: ParamKindM::Named { name: tok_at(cx, s.pos).lexeme, ty },
                            span: span_at(cx, s.pos),
                        },
                    ),
                }
            },
        }
    } else {
        reject(cx, s, s, "expected a parameter"@, "unexpected token"@)
    }
}

/// The parameters from `s` on, of which there is at least one.
#[verifier::opaque]
pub open spec fn params_rest(cx: InputM, s: At, params: Seq<ParamM>) -> Out<Seq<ParamM>>
    decreases left(cx, s.pos),
{
    let r = param(cx, s);
    let s1 = r.next(s);
    match r.val {
        None => abort(s, s1),
        Some(p) => if kind_at(cx, s1.pos) is Comma {
            let s2 = skip(s1);
            if kind_at(cx, s2.pos) is RParen {
                done(s, s2, params.push(p))
            } else {
                through(s, s2, params_rest(cx, s2, params.push(p)))
            }
        } else {
            done(s, s1, params.push(p))
        },
    }
}

/// The parameters of a function, up to the closing parenthesis.
pub open spec fn params(cx: InputM, s: At) -> Out<Seq<ParamM>> {
    if kind_at(cx, s.pos) is RParen {
        done(s, s, Seq::empty())
    } else {
        params_rest(cx, s, Seq::empty())
    }
}

/// A function; the return type must be written.
#[verifier::opaque]
pub open spec fn fn_decl(cx: InputM, s: At) -> Out<FnDeclM> {
    let s1 = skip(s);
    let n = expect(cx, s1, TokenKindM::Ident, "function name"@);
    let s2 = n.next(s1);
    match n.val {
        None => abort(s, s2),
        Some(name) => {
            let o = expect(cx, s2, TokenKindM::LParen, "`(`"@);
            let s3 = o.next(s2);
            match o.val {
                None => abort(s, s3),
                Some(_) => {
                    let p = params(cx, s3);
                    let s4 = p.next(s3);
                    match p.val {
                        None => abort(s, s4),
                        Some(params) => {
                            let c = expect(cx, s4, TokenKindM::RParen, "`)`"@);
                            let s5 = c.next(s4);
                            match c.val {
                                None => abort(s, s5),
                                Some(_) => fn_rest(cx, s, s5, name.lexeme, params),
                            }
                        },
                    }
                },
            }
        },
    }
}

/// The return type and the body, at `e`, of the function that starts at `s`.
pub open spec fn fn_rest(
    cx: InputM,
    s: At,
    e: At,
    name: Seq<char>,
    params: Seq<ParamM>,
) -> Out<FnDeclM> {
    if !type_start(kind_at(cx, e.pos)) {
        reject(cx, s, e, "expected return type after ')'"@, "expected return type"@)
    } else {
        let t = type_expr(cx, e);
        let s1 = t.next(e);
        match t.val {
            None => abort(s, s1),
            Some(return_type) => {
                let b = block(cx, s1);
                match b.val {
                    None => abort(s, b.next(s1)),
                    Some(body) => done(
                        s,
                        b.next(s1),
                        FnDeclM { name, params, return_type, body, span: span_at(cx, s.pos) },
                    ),
                }
            },
        }
    }
}

proof fn fn_decl_progress(cx: InputM, s: At)
    ensures
        fn_decl(cx, s).adv > 0,
{
    reveal(fn_decl);
}

#[verifier::opaque]
pub open spec fn import(cx: InputM, s: At) -> Out<ImportKindM> {
    let s1 = skip(s);
    let m = expect(cx, s1, TokenKindM::Ident, "module name"@);
    let s2 = m.next(s1);
    match m.val {
        None => abort(s, s2),
        Some(module) => if kind_at(cx, s2.pos) is ColonColon {
            let s3 = skip(s2);
            if kind_at(cx, s3.pos) is Star {
                let s4 = skip(s3);
                let c = expect(cx, s4, TokenKindM::Semicolon, "`;`"@);
                match c.val {
                    None => abort(s, c.next(s4)),
                    Some(_) => done(
                        s,
                        c.next(s4),
                        ImportKindM::Glob { module: module.lexeme },
                    ),
                }
            } else {
                let n = expect(cx, s3, TokenKindM::Ident, "imported name"@);
                let s4 = n.next(s3);
                match n.val {
                    None => abort(s, s4),
                    Some(name) => {
                        let a = import_alias(cx, s4);
                        let s5 = a.next(s4);
                        match a.val {
                            None => abort(s, s5),
                            Some(alias) => {
                                let c = expect(cx, s5, TokenKindM::Semicolon, "`;`"@);
                                match c.val {
                                    None => abort(s, c.next(s5)),
                                    Some(_) => done(
                                        s,
                                        c.next(s5),
                                        ImportKindM::Named {
                                            module: module.lexeme,
                                            name: name.lexeme,
                                            alias,
                                        },
                                    ),
                                }
                            },
                        }
                    },
                }
            }
        } else {
            let c = expect(cx, s2, TokenKindM::Semicolon, "`;`"@);
            match c.val {
                None => abort(s, c.next(s2)),
                Some(_) => done(s, c.next(s2), ImportKindM::Module { name: module.lexeme }),
            }
        },
    }
}

/// The alias that may follow an imported name.
pub open spec fn import_alias(cx: InputM, s: At) -> Out<Option<Seq<char>>> {
    if kind_at(cx, s.pos) is As {
        let s1 = skip(s);
        let a = expect(cx, s1, TokenKindM::Ident, "alias name"@);
        match a.val {
            None => abort(s, a.next(s1)),
            Some(t) => done(s, a.next(s1), Some(t.lexeme)),
        }
    } else {
        done(s, s, None)
    }
}

/// A field of a struct declaration, with the comma after it.
#[verifier::opaque]
pub open spec fn field_decl(cx: InputM, s: At) -> Out<FieldDeclM> {
    let s1 = skip(s);
    let c = expect(cx, s1, TokenKindM::Colon, "`:` after field name"@);
    let s2 = c.next(s1);
    match c.val {
        None => abort(s, s2),
        Some(_) => {
            let t = type_expr(cx, s2);
            let s3 = t.next(s2);
            match t.val {
                None => abort(s, s3),
                Some(ty) => {
                    let e = expect(cx, s3, TokenKindM::Comma, "`,` after field declaration"@);
                    match e.val {
                        None => abort(s, e.next(s3)),
                        Some(_) => done(
                            s,
                            e.next(s3),
                            FieldDeclM {
                                name: tok_at(cx, s.pos).lexeme,
                                ty,
                                span: span_at(cx, s.pos),
                            },
                        ),
                    }
                },
            }
        },
    }
}

proof fn field_decl_progress(cx: InputM, s: At)
    ensures
        field_decl(cx, s).adv > 0,
{
    reveal(field_decl);
}

/// The fields and methods of a struct from `s` on.
#[verifier::opaque]
pub open spec fn struct_rest(
    cx: InputM,
    s: At,
    fields: Seq<FieldDeclM>,
    methods: Seq<FnDeclM>,
) -> Out<(Seq<FieldDeclM>, Seq<FnDeclM>)>
    decreases left(cx, s.pos),
    via struct_rest_decreases
{
    let k = kind_at(cx, s.pos);
    if k is RBrace || k is Eof {
        done(s, s, (fields, methods))
    } else if k is Fn {
        let r = fn_decl(cx, s);
        match r.val {
            None => abort(s, r.next(s)),
            Some(f) => through(
                s,
                r.next(s),
                struct_rest(cx, r.next(s), fields, methods.push(f)),
            ),
        }
    } else if k is Ident {
        let r = field_decl(cx, s);
        match r.val {
            None => abort(s, r.next(s)),
            Some(f) => through(
                s,
                r.next(s),
                struct_rest(cx, r.next(s), fields.push(f), methods),
            ),
        }
    } else {
        reject(cx, s, s, "expected a field or method in struct body"@, "unexpected token"@)
    }
}

#[via_fn]
proof fn struct_rest_decreases(
    cx: InputM,
    s: At,
    fields: Seq<FieldDeclM>,
    methods: Seq<FnDeclM>,
) {
    fn_decl_progress(cx, s);
    field_decl_progress(cx, s);
}

#[verifier::opaque]
pub open spec fn struct_decl(cx: InputM, s: At) -> Out<StructDeclM> {
    let s1 = skip(s);
    let n = expect(cx, s1, TokenKindM::Ident, "struct name"@);
    let s2 = n.next(s1);
    match n.val {
        None => abort(s, s2),
        Some(name) => {
            let o = expect(cx, s2, TokenKindM::LBrace, "`{`"@);
            let s3 = o.next(s2);
            match o.val {
                None => abort(s, s3),
                Some(_) => {
                    let r = struct_rest(cx, s3, Seq::empty(), Seq::empty());
                    let s4 = r.next(s3);
                    match r.val {
                        None => abort(s, s4),
                        Some((fields, methods)) => {
                            let c = expect(cx, s4, TokenKindM::RBrace, "`}` to close struct"@);
                            match c.val {
                                None => abort(s, c.next(s4)),
                                Some(_) => done(
                                    s,
                                    c.next(s4),
                                    StructDeclM {
                                        name: name.lexeme,
                                        fields,
                                        methods,
                                        span: span_at(cx, s.pos),
                                    },
                                ),
                            }
                        },
                    }
                },
            }
        },
    }
}

/// The methods of an `extend` body from `s` on.
#[verifier::opaque]
pub open spec fn extend_rest(cx: InputM, s: At, methods: Seq<FnDeclM>) -> Out<Seq<FnDeclM>>
    decreases left(cx, s.pos),
    via extend_rest_decreases
{
    let k = kind_at(cx, s.pos);
    if k is RBrace || k is Eof {
        done(s, s, methods)
    } else if k is Fn {
        let r = fn_decl(cx, s);
        match r.val {
            None => abort(s, r.next(s)),
            Some(f) => through(s, r.next(s), extend_rest(cx, r.next(s), methods.push(f))),
        }
    } else {
        reject(
            cx,
            s,
            s,
            "expected a method in extend body"@,
            "only methods allowed in extend"@,
        )
    }
}

#[via_fn]
proof fn extend_rest_decreases(cx: InputM, s: At, methods: Seq<FnDeclM>) {
    fn_decl_progress(cx, s);
}

/// The name after `extend`: a struct, or the machine type `i64` or `f64`.
pub open spec fn extend_name(cx: InputM, s: At) -> Out<Seq<char>> {
    let k = kind_at(cx, s.pos);
    if k is Ident || k is I64 || k is F64 {
        done(s, skip(s), tok_at(cx, s.pos).lexeme)
    } else {
        reject(cx, s, s, "expected struct or primitive type name"@, "expected type name"@)
    }
}

/// The struct after `extend`, with its module if that is written.
pub open spec fn extend_target(cx: InputM, s: At) -> Out<(Option<Seq<char>>, Seq<char>)> {
    let f = extend_name(cx, s);
    let s1 = f.next(s);
    match f.val {
        None => abort(s, s1),
        Some(first) => if kind_at(cx, s1.pos) is ColonColon {
            let s2 = skip(s1);
            let n = expect(cx, s2, TokenKindM::Ident, "struct name"@);
            match n.val {
                None => abort(s, n.next(s2)),
                Some(t) => done(s, n.next(s2), (Some(first), t.lexeme)),
            }
        } else {
            done(s, s1, (None, first))
        },
    }
}

#[verifier::opaque]
pub open spec fn extend_decl(cx: InputM, s: At) -> Out<ExtendDeclM> {
    let s1 = skip(s);
    let t = extend_target(cx, s1);
    let s2 = t.next(s1);
    match t.val {
        None => abort(s, s2),
        Some((module, name)) => {
            let o = expect(cx, s2, TokenKindM::LBrace, "`{`"@);
            let s3 = o.next(s2);
            match o.val {
                None => abort(s, s3),
                Some(_) => {
                    let r = extend_rest(cx, s3, Seq::empty());
                    let s4 = r.next(s3);
                    match r.val {
                        None => abort(s, s4),
                        Some(methods) => {
                            let c = expect(cx, s4, TokenKindM::RBrace, "`}` to close extend"@);
                            match c.val {
                                None => abort(s, c.next(s4)),
                                Some(_) => done(
                                    s,
                                    c.next(s4),
                                    ExtendDeclM { module, name, methods, span: span_at(cx, s.pos) },
                                ),
                            }
                        },
                    }
                },
            }
        },
    }
}

#[verifier::opaque]
pub open spec fn item(cx: InputM, s: At) -> Out<ItemM> {
    let k = kind_at(cx, s.pos);
    if k is Import {
        let r = import(cx, s);
        match r.val {
            None => abort(s, r.next(s)),
            Some(d) => done(s, r.next(s), ItemM::Import(d)),
        }
    } else if k is Struct {
        let r = struct_decl(cx, s);
        match r.val {
            None => abort(s, r.next(s)),
            Some(d) => done(s, r.next(s), ItemM::Struct(d)),
        }
    } else if k is Fn {
        let r = fn_decl(cx, s);
        match r.val {
            None => abort(s, r.next(s)),
            Some(d) => done(s, r.next(s), ItemM::Fn(d)),
        }
    } else if k is Extend {
        let r = extend_decl(cx, s);
        match r.val {
            None => abort(s, r.next(s)),
            Some(d) => done(s, r.next(s), ItemM::Extend(d)),
        }
    } else if k is Bang {
        reject(
            cx,
            s,
            s,
            "inline assembly is only valid inside a function body"@,
            "asm not allowed here"@,
        )
    } else {
        reject(
            cx,
            s,
            s,
            "expected an item (fn, struct, extend, or import)"@,
            "unexpected token"@,
        )
    }
}

/// How many tokens are passed over after an error in an item: those up to one
/// that can start an item.
#[verifier::opaque]
pub open spec fn item_gap(cx: InputM, pos: nat) -> nat
    decreases left(cx, pos),
{
    let k = kind_at(cx, pos);
    if k is Eof || k is Fn || k is Struct || k is Import || k is Extend {
        0
    } else {
        1 + item_gap(cx, pos + 1)
    }
}

/// What has been read after an item was tried at `s`.
pub open spec fn after_item(cx: InputM, s: At, items: Seq<ItemM>) -> (At, Seq<ItemM>) {
    let r = item(cx, s);
    let s1 = r.next(s);
    match r.val {
        Some(x) => (s1, items.push(x)),
        None => (At { pos: s1.pos + item_gap(cx, s1.pos), ..s1 }, items),
    }
}

/// Each item, or what was passed over after an error in it, takes a token.
pub proof fn item_progress(cx: InputM, s: At, items: Seq<ItemM>)
    requires
        !(kind_at(cx, s.pos) is Eof),
    ensures
        after_item(cx, s, items).0.pos > s.pos,
{
    reveal(item);
    reveal(item_gap);
    reveal(import);
    reveal(struct_decl);
    reveal(extend_decl);
    fn_decl_progress(cx, s);
}

/// The items from `s` on, with the diagnostics.
#[verifier::opaque]
pub open spec fn items_rest(cx: InputM, s: At, items: Seq<ItemM>) -> (Seq<ItemM>, Seq<DiagM>)
    decreases left(cx, s.pos),
    via items_rest_decreases
{
    if kind_at(cx, s.pos) is Eof {
        (items, s.diags)
    } else {
        let (s1, now) = after_item(cx, s, items);
        items_rest(cx, s1, now)
    }
}

#[via_fn]
proof fn items_rest_decreases(cx: InputM, s: At, items: Seq<ItemM>) {
    if !(kind_at(cx, s.pos) is Eof) {
        item_progress(cx, s, items);
    }
}

/// Parsing starts at the first token, with no diagnostics.
pub open spec fn start() -> At {
    At { pos: 0, diags: Seq::empty() }
}

/// The items of the input, and its syntax errors.
pub open spec fn program(cx: InputM) -> (Seq<ItemM>, Seq<DiagM>) {
    items_rest(cx, start(), Seq::empty())
}

// ---------------------------------------------------------------------------
// Progress
// ---------------------------------------------------------------------------

proof fn primary_progress(cx: InputM, s: At, inits: bool)
    ensures
        primary(cx, s, inits).val is Some ==> primary(cx, s, inits).adv > 0,
{
    reveal(primary);
}

pub proof fn unary_progress(cx: InputM, s: At, inits: bool)
    ensures
        unary(cx, s, inits).val is Some ==> unary(cx, s, inits).adv > 0,
{
    reveal(unary);
    reveal(postfix);
    reveal(primary);
    primary_progress(cx, s, inits);
    assert(postfix(cx, s, inits).val is Some ==> postfix(cx, s, inits).adv > 0);
}

proof fn binary_progress(cx: InputM, s: At, inits: bool, level: nat)
    ensures
        binary(cx, s, inits, level).val is Some ==> binary(cx, s, inits, level).adv > 0,
    decreases 5 - level,
{
    reveal(binary);
    reveal(unary);
    if level >= 5 {
        unary_progress(cx, s, inits);
    } else {
        binary_progress(cx, s, inits, level + 1);
    }
}

/// An expression takes at least one token.
pub proof fn expr_progress(cx: InputM, s: At, inits: bool)
    ensures
        cast(cx, s, inits).val is Some ==> cast(cx, s, inits).adv > 0,
{
    reveal(cast);
    reveal(binary);
    binary_progress(cx, s, inits, 0);
}

/// Each statement, or what was passed over after an error in it, takes a token.
pub proof fn stmt_progress(cx: InputM, s: At, stmts: Seq<StmtM>)
    requires
        !(kind_at(cx, s.pos) is Eof),
        !(kind_at(cx, s.pos) is RBrace),
    ensures
        after_stmt(cx, s, stmt(cx, s), stmts).0.pos > s.pos,
{
    reveal(stmt);
    reveal(stmt_gap);
    reveal(let_stmt);
    reveal(return_stmt);
    reveal(if_stmt);
    reveal(while_stmt);
    reveal(asm_stmt);
    reveal(expr_stmt);
    expr_progress(cx, s, true);
}

} // verus!
