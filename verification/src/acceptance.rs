//! What the parser accepts: from parts that are read, the whole is read.

use vstd::prelude::*;

use crate::ast::{
    BinaryOp, BlockM, ExprKindM, ExprM, FieldDeclM, FnDeclM, ImportKindM, LValueM, ParamKindM,
    ParamM, Span, StmtM, StructNameM, UnaryOp,
};
use crate::grammar;
use crate::grammar::{At, InputM, Out};
use crate::lexer::TokenKindM;
use crate::spelling;
use crate::types::TypeM;

verus! {

/// Whether parsing from `s` has read `v`, up to `e`.
pub open spec fn gives<T>(r: Out<T>, s: At, e: At, v: T) -> bool {
    r.val == Some(v) && r.next(s) == e && s.pos <= e.pos
}

/// The kind and the text of the token `n` behind `s`.
pub open spec fn kind(cx: InputM, s: At, n: nat) -> TokenKindM {
    grammar::kind_at(cx, s.pos + n)
}

pub open spec fn word(cx: InputM, s: At, n: nat) -> Seq<char> {
    grammar::tok_at(cx, s.pos + n).lexeme
}

/// Where parsing goes on `n` tokens behind `s`.
pub open spec fn past(s: At, n: nat) -> At {
    At { pos: s.pos + n, diags: s.diags }
}

/// An expression of that kind at that place.
pub open spec fn made(k: ExprKindM, span: Span) -> ExprM {
    ExprM { kind: k, ty: None, span }
}

/// Types are read: the built-in ones, names, qualified names, and references to
/// types that are read.
pub proof fn types_are_read(cx: InputM, s: At, e: At, t: TypeM)
    ensures
        kind(cx, s, 0) is I64 ==> gives(grammar::type_expr(cx, s), s, past(s, 1), TypeM::I64),
        kind(cx, s, 0) is F64 ==> gives(grammar::type_expr(cx, s), s, past(s, 1), TypeM::F64),
        kind(cx, s, 0) is Void ==> gives(grammar::type_expr(cx, s), s, past(s, 1), TypeM::Void),
        kind(cx, s, 0) is Null ==> gives(grammar::type_expr(cx, s), s, past(s, 1), TypeM::Null),
        kind(cx, s, 0) is Ident && !(kind(cx, s, 1) is ColonColon) ==> gives(
            grammar::type_expr(cx, s),
            s,
            past(s, 1),
            TypeM::Named(word(cx, s, 0)),
        ),
        kind(cx, s, 0) is Ident && kind(cx, s, 1) is ColonColon && kind(cx, s, 2) is Ident
            ==> gives(
            grammar::type_expr(cx, s),
            s,
            past(s, 3),
            TypeM::Qualified(word(cx, s, 0), word(cx, s, 2)),
        ),
        kind(cx, s, 0) is Ampersand && !(kind(cx, s, 1) is Mut) && gives(
            grammar::type_expr(cx, past(s, 1)),
            past(s, 1),
            e,
            t,
        ) ==> gives(grammar::type_expr(cx, s), s, e, TypeM::Ref(Box::new(t))),
        kind(cx, s, 0) is Ampersand && kind(cx, s, 1) is Mut && gives(
            grammar::type_expr(cx, past(s, 2)),
            past(s, 2),
            e,
            t,
        ) ==> gives(grammar::type_expr(cx, s), s, e, TypeM::MutRef(Box::new(t))),
{
    reveal_with_fuel(grammar::type_expr, 1);
}

/// The four forms of an import are read.
pub proof fn imports_are_read(cx: InputM, s: At)
    requires
        kind(cx, s, 0) is Import,
        kind(cx, s, 1) is Ident,
    ensures
        kind(cx, s, 2) is Semicolon ==> gives(
            grammar::import(cx, s),
            s,
            past(s, 3),
            ImportKindM::Module { name: word(cx, s, 1) },
        ),
        kind(cx, s, 2) is ColonColon && kind(cx, s, 3) is Star && kind(cx, s, 4) is Semicolon
            ==> gives(
            grammar::import(cx, s),
            s,
            past(s, 5),
            ImportKindM::Glob { module: word(cx, s, 1) },
        ),
        kind(cx, s, 2) is ColonColon && kind(cx, s, 3) is Ident && kind(cx, s, 4) is Semicolon
            ==> gives(
            grammar::import(cx, s),
            s,
            past(s, 5),
            ImportKindM::Named { module: word(cx, s, 1), name: word(cx, s, 3), alias: None },
        ),
        kind(cx, s, 2) is ColonColon && kind(cx, s, 3) is Ident && kind(cx, s, 4) is As && kind(
            cx,
            s,
            5,
        ) is Ident && kind(cx, s, 6) is Semicolon ==> gives(
            grammar::import(cx, s),
            s,
            past(s, 7),
            ImportKindM::Named {
                module: word(cx, s, 1),
                name: word(cx, s, 3),
                alias: Some(word(cx, s, 5)),
            },
        ),
{
    reveal(grammar::import);
}

/// Literals, names, `self`, `null` and expressions in parentheses are read as
/// operands. A name before a brace is one where no initializer can stand.
pub proof fn operands_are_read(cx: InputM, s: At, inits: bool, e: At, x: ExprM)
    ensures
        ({
            let r = grammar::primary(cx, s, inits);
            let span = grammar::span_at(cx, s.pos);
            &&& match kind(cx, s, 0) {
                TokenKindM::IntLit(n) => gives(r, s, past(s, 1), made(ExprKindM::IntLit(n), span)),
                TokenKindM::FloatLit(t) => gives(
                    r,
                    s,
                    past(s, 1),
                    made(ExprKindM::FloatLit(t), span),
                ),
                TokenKindM::CharLit(c) => gives(r, s, past(s, 1), made(ExprKindM::CharLit(c), span)),
                TokenKindM::BoolLit(b) => gives(r, s, past(s, 1), made(ExprKindM::BoolLit(b), span)),
                TokenKindM::StringLit(t) => gives(
                    r,
                    s,
                    past(s, 1),
                    made(ExprKindM::StringLit(t), span),
                ),
                TokenKindM::Self_ => gives(
                    r,
                    s,
                    past(s, 1),
                    made(ExprKindM::Ident("self"@), span),
                ),
                TokenKindM::Null => gives(r, s, past(s, 1), made(ExprKindM::IntLit(0), span)),
                TokenKindM::LParen => gives(
                    grammar::cast(cx, past(s, 1), true),
                    past(s, 1),
                    e,
                    x,
                ) && grammar::kind_at(cx, e.pos) is RParen ==> gives(r, s, past(e, 1), x),
                TokenKindM::Ident => {
                    &&& !(kind(cx, s, 1) is ColonColon) && !(inits && kind(cx, s, 1) is LBrace)
                        ==> gives(r, s, past(s, 1), made(ExprKindM::Ident(word(cx, s, 0)), span))
                    &&& kind(cx, s, 1) is ColonColon && kind(cx, s, 2) is Ident && !(inits && kind(
                        cx,
                        s,
                        3,
                    ) is LBrace) ==> gives(
                        r,
                        s,
                        past(s, 3),
                        made(
                            ExprKindM::QualifiedIdent { module: word(cx, s, 0), name: word(cx, s, 2) },
                            span,
                        ),
                    )
                    &&& inits && kind(cx, s, 1) is LBrace && gives(
                        grammar::init_body(
                            cx,
                            past(s, 1),
                            StructNameM::Unqualified(word(cx, s, 0)),
                            span,
                        ),
                        past(s, 1),
                        e,
                        x,
                    ) ==> gives(r, s, e, x)
                },
                _ => true,
            }
        }),
{
    reveal_with_fuel(grammar::cast, 1);
    reveal_with_fuel(grammar::cast_rest, 1);
    reveal_with_fuel(grammar::binary, 1);
    reveal_with_fuel(grammar::binary_rest, 1);
    reveal_with_fuel(grammar::unary, 1);
    reveal_with_fuel(grammar::postfix, 1);
    reveal_with_fuel(grammar::postfix_rest, 1);
    reveal_with_fuel(grammar::arg_list, 1);
    reveal_with_fuel(grammar::args_rest, 1);
    reveal_with_fuel(grammar::primary, 1);
    reveal_with_fuel(grammar::init_body, 1);
    reveal_with_fuel(grammar::inits_rest, 1);
}

/// A `.` and a name behind an expression is its field, and parentheses with
/// arguments are a call of it. The last argument may have a comma behind it.
pub proof fn postfixes_are_read(
    cx: InputM,
    s: At,
    x: ExprM,
    args: Seq<ExprM>,
    a: At,
    e: At,
    v: ExprM,
)
    ensures
        ({
            let field = made(
                ExprKindM::Field { object: Box::new(x), field: word(cx, s, 1) },
                x.span,
            );
            kind(cx, s, 0) is Dot && kind(cx, s, 1) is Ident && gives(
                grammar::postfix_rest(cx, past(s, 2), field),
                past(s, 2),
                e,
                v,
            ) ==> gives(grammar::postfix_rest(cx, s, x), s, e, v)
        }),
        ({
            let call = made(ExprKindM::Call { callee: Box::new(x), args }, x.span);
            kind(cx, s, 0) is LParen && gives(
                grammar::arg_list(cx, past(s, 1)),
                past(s, 1),
                a,
                args,
            ) && grammar::kind_at(cx, a.pos) is RParen && gives(
                grammar::postfix_rest(cx, past(a, 1), call),
                past(a, 1),
                e,
                v,
            ) ==> gives(grammar::postfix_rest(cx, s, x), s, e, v)
        }),
        !(kind(cx, s, 0) is Dot) && !(kind(cx, s, 0) is LParen) ==> gives(
            grammar::postfix_rest(cx, s, x),
            s,
            s,
            x,
        ),
        kind(cx, s, 0) is RParen ==> gives(grammar::arg_list(cx, s), s, s, Seq::empty()),
        gives(grammar::cast(cx, s, true), s, e, v) && grammar::kind_at(cx, e.pos) is RParen
            ==> gives(grammar::args_rest(cx, s, args), s, e, args.push(v)),
        gives(grammar::cast(cx, s, true), s, e, v) && grammar::kind_at(cx, e.pos) is Comma
            && grammar::kind_at(cx, e.pos + 1) is RParen ==> gives(
            grammar::args_rest(cx, s, args),
            s,
            past(e, 1),
            args.push(v),
        ),
{
    reveal_with_fuel(grammar::cast, 1);
    reveal_with_fuel(grammar::cast_rest, 1);
    reveal_with_fuel(grammar::binary, 1);
    reveal_with_fuel(grammar::binary_rest, 1);
    reveal_with_fuel(grammar::unary, 1);
    reveal_with_fuel(grammar::postfix, 1);
    reveal_with_fuel(grammar::postfix_rest, 1);
    reveal_with_fuel(grammar::arg_list, 1);
    reveal_with_fuel(grammar::args_rest, 1);
    reveal_with_fuel(grammar::primary, 1);
    reveal_with_fuel(grammar::init_body, 1);
    reveal_with_fuel(grammar::inits_rest, 1);
}

/// `-`, `!`, `*`, `&` and `&mut` before an operand that is read are read.
pub proof fn prefixes_are_read(cx: InputM, s: At, inits: bool, e: At, x: ExprM)
    ensures
        ({
            let r = grammar::unary(cx, s, inits);
            let span = grammar::span_at(cx, s.pos);
            let next = gives(grammar::unary(cx, past(s, 1), inits), past(s, 1), e, x);
            let after = gives(grammar::unary(cx, past(s, 2), inits), past(s, 2), e, x);
            let o = Box::new(x);
            &&& kind(cx, s, 0) is Minus && next ==> gives(
                r,
                s,
                e,
                made(ExprKindM::Unary { op: UnaryOp::Neg, operand: o }, span),
            )
            &&& kind(cx, s, 0) is Bang && next ==> gives(
                r,
                s,
                e,
                made(ExprKindM::Unary { op: UnaryOp::Not, operand: o }, span),
            )
            &&& kind(cx, s, 0) is Star && next ==> gives(
                r,
                s,
                e,
                made(ExprKindM::Deref { operand: o }, span),
            )
            &&& kind(cx, s, 0) is Ampersand && !(kind(cx, s, 1) is Mut) && next ==> gives(
                r,
                s,
                e,
                made(ExprKindM::Ref { mutable: false, operand: o }, span),
            )
            &&& kind(cx, s, 0) is Ampersand && kind(cx, s, 1) is Mut && after ==> gives(
                r,
                s,
                e,
                made(ExprKindM::Ref { mutable: true, operand: o }, span),
            )
        }),
{
    reveal_with_fuel(grammar::cast, 1);
    reveal_with_fuel(grammar::cast_rest, 1);
    reveal_with_fuel(grammar::binary, 1);
    reveal_with_fuel(grammar::binary_rest, 1);
    reveal_with_fuel(grammar::unary, 1);
    reveal_with_fuel(grammar::postfix, 1);
    reveal_with_fuel(grammar::postfix_rest, 1);
    reveal_with_fuel(grammar::arg_list, 1);
    reveal_with_fuel(grammar::args_rest, 1);
    reveal_with_fuel(grammar::primary, 1);
    reveal_with_fuel(grammar::init_body, 1);
    reveal_with_fuel(grammar::inits_rest, 1);
}

/// Which token is which operator, and how tight it binds.
pub open spec fn operator_of(k: TokenKindM, op: BinaryOp) -> bool {
    match op {
        BinaryOp::Or => k is PipePipe,
        BinaryOp::And => k is AmpAmp,
        BinaryOp::Eq => k is EqEq,
        BinaryOp::Ne => k is Ne,
        BinaryOp::Lt => k is Lt,
        BinaryOp::Gt => k is Gt,
        BinaryOp::Le => k is Le,
        BinaryOp::Ge => k is Ge,
        BinaryOp::Add => k is Plus,
        BinaryOp::Sub => k is Minus,
        BinaryOp::Mul => k is Star,
        BinaryOp::Div => k is Slash,
        BinaryOp::Mod => k is Percent,
    }
}

/// Behind a left operand an operator and a right operand that binds tighter are
/// read as that operation, which is the left operand of what follows. A token
/// that is no operator of that tightness ends the operation.
pub proof fn operations_are_read(
    cx: InputM,
    s: At,
    inits: bool,
    op: BinaryOp,
    x: ExprM,
    y: ExprM,
    m: At,
    e: At,
    v: ExprM,
)
    ensures
        ({
            let level = (spelling::tightness(op) - 1) as nat;
            let z = made(
                ExprKindM::Binary { op, left: Box::new(x), right: Box::new(y) },
                x.span,
            );
            &&& operator_of(kind(cx, s, 0), op) && gives(
                grammar::binary(cx, past(s, 1), inits, level + 1),
                past(s, 1),
                m,
                y,
            ) && gives(grammar::binary_rest(cx, m, inits, level, z), m, e, v) ==> gives(
                grammar::binary_rest(cx, s, inits, level, x),
                s,
                e,
                v,
            )
            &&& (forall|o: BinaryOp| spelling::tightness(o) == spelling::tightness(op)
                ==> !#[trigger] operator_of(kind(cx, s, 0), o)) ==> gives(
                grammar::binary_rest(cx, s, inits, level, x),
                s,
                s,
                x,
            )
        }),
{
    reveal_with_fuel(grammar::cast, 1);
    reveal_with_fuel(grammar::cast_rest, 1);
    reveal_with_fuel(grammar::binary, 1);
    reveal_with_fuel(grammar::binary_rest, 1);
    reveal_with_fuel(grammar::unary, 1);
    reveal_with_fuel(grammar::postfix, 1);
    reveal_with_fuel(grammar::postfix_rest, 1);
    reveal_with_fuel(grammar::arg_list, 1);
    reveal_with_fuel(grammar::args_rest, 1);
    reveal_with_fuel(grammar::primary, 1);
    reveal_with_fuel(grammar::init_body, 1);
    reveal_with_fuel(grammar::inits_rest, 1);
    let k = kind(cx, s, 0);
    let level = (spelling::tightness(op) - 1) as nat;
    if forall|o: BinaryOp| spelling::tightness(o) == spelling::tightness(op)
        ==> !#[trigger] operator_of(k, o) {
        assert(!operator_of(k, BinaryOp::Or) || level != 0);
        assert(!operator_of(k, BinaryOp::And) || level != 1);
        assert(!operator_of(k, BinaryOp::Eq) || level != 2);
        assert(!operator_of(k, BinaryOp::Ne) || level != 2);
        assert(!operator_of(k, BinaryOp::Lt) || level != 2);
        assert(!operator_of(k, BinaryOp::Gt) || level != 2);
        assert(!operator_of(k, BinaryOp::Le) || level != 2);
        assert(!operator_of(k, BinaryOp::Ge) || level != 2);
        assert(!operator_of(k, BinaryOp::Add) || level != 3);
        assert(!operator_of(k, BinaryOp::Sub) || level != 3);
        assert(!operator_of(k, BinaryOp::Mul) || level != 4);
        assert(!operator_of(k, BinaryOp::Div) || level != 4);
        assert(!operator_of(k, BinaryOp::Mod) || level != 4);
    }
}

/// `-> Type` behind an expression is a cast of it, and casts may follow each
/// other; an expression without one is read as it is.
pub proof fn casts_are_read(
    cx: InputM,
    s: At,
    x: ExprM,
    casted: bool,
    t: TypeM,
    m: At,
    e: At,
    v: ExprM,
)
    ensures
        ({
            let z = made(ExprKindM::Cast { expr: Box::new(x), target_type: t }, x.span);
            kind(cx, s, 0) is Arrow && gives(
                grammar::type_expr(cx, past(s, 1)),
                past(s, 1),
                m,
                t,
            ) && gives(grammar::cast_rest(cx, m, z, true), m, e, v) ==> gives(
                grammar::cast_rest(cx, s, x, casted),
                s,
                e,
                v,
            )
        }),
        !(kind(cx, s, 0) is Arrow) ==> gives(grammar::cast_rest(cx, s, x, false), s, s, x),
{
    reveal_with_fuel(grammar::cast, 1);
    reveal_with_fuel(grammar::cast_rest, 1);
    reveal_with_fuel(grammar::binary, 1);
    reveal_with_fuel(grammar::binary_rest, 1);
    reveal_with_fuel(grammar::unary, 1);
    reveal_with_fuel(grammar::postfix, 1);
    reveal_with_fuel(grammar::postfix_rest, 1);
    reveal_with_fuel(grammar::arg_list, 1);
    reveal_with_fuel(grammar::args_rest, 1);
    reveal_with_fuel(grammar::primary, 1);
    reveal_with_fuel(grammar::init_body, 1);
    reveal_with_fuel(grammar::inits_rest, 1);
}

/// A `let` is read, with a type and without one, and so are `return`, `break` and
/// `continue`.
pub proof fn simple_statements_are_read(
    cx: InputM,
    s: At,
    t: TypeM,
    m: At,
    e: At,
    x: ExprM,
)
    ensures
        ({
            let r = grammar::stmt(cx, s);
            let span = grammar::span_at(cx, s.pos);
            let name = word(cx, s, 1);
            &&& kind(cx, s, 0) is Let && kind(cx, s, 1) is Ident && kind(cx, s, 2) is Eq && gives(
                grammar::expr(cx, past(s, 3)),
                past(s, 3),
                e,
                x,
            ) && grammar::kind_at(cx, e.pos) is Semicolon ==> gives(
                r,
                s,
                past(e, 1),
                StmtM::Let { name, ty: None, init: x, span },
            )
            &&& kind(cx, s, 0) is Let && kind(cx, s, 1) is Ident && kind(cx, s, 2) is Colon
                && gives(grammar::type_expr(cx, past(s, 3)), past(s, 3), m, t) && grammar::kind_at(
                cx,
                m.pos,
            ) is Eq && gives(grammar::expr(cx, past(m, 1)), past(m, 1), e, x)
                && grammar::kind_at(cx, e.pos) is Semicolon ==> gives(
                r,
                s,
                past(e, 1),
                StmtM::Let { name, ty: Some(t), init: x, span },
            )
            &&& kind(cx, s, 0) is Return && kind(cx, s, 1) is Semicolon ==> gives(
                r,
                s,
                past(s, 2),
                StmtM::Return { value: None, span },
            )
            &&& kind(cx, s, 0) is Return && !(kind(cx, s, 1) is Semicolon) && gives(
                grammar::expr(cx, past(s, 1)),
                past(s, 1),
                e,
                x,
            ) && grammar::kind_at(cx, e.pos) is Semicolon ==> gives(
                r,
                s,
                past(e, 1),
                StmtM::Return { value: Some(x), span },
            )
            &&& kind(cx, s, 0) is Break && kind(cx, s, 1) is Semicolon ==> gives(
                r,
                s,
                past(s, 2),
                StmtM::Break(span),
            )
            &&& kind(cx, s, 0) is Continue && kind(cx, s, 1) is Semicolon ==> gives(
                r,
                s,
                past(s, 2),
                StmtM::Continue(span),
            )
        }),
{
    reveal_with_fuel(grammar::stmt, 1);
    reveal_with_fuel(grammar::block, 1);
    reveal_with_fuel(grammar::block_rest, 1);
    reveal_with_fuel(grammar::branch, 1);
    reveal_with_fuel(grammar::if_stmt, 1);
    reveal_with_fuel(grammar::if_rest, 1);
    reveal_with_fuel(grammar::while_stmt, 1);
    reveal(grammar::let_stmt);
    reveal(grammar::return_stmt);
}

/// An expression with a semicolon is a statement, and an assignment to a
/// variable, through a reference or to a field is one.
pub proof fn expressions_and_assignments_are_read(
    cx: InputM,
    s: At,
    m: At,
    x: ExprM,
    e: At,
    y: ExprM,
)
    requires
        gives(grammar::expr(cx, s), s, m, x),
        !(kind(cx, s, 0) is Let || kind(cx, s, 0) is Return || kind(cx, s, 0) is If || kind(
            cx,
            s,
            0,
        ) is While || kind(cx, s, 0) is Break || kind(cx, s, 0) is Continue || kind(
            cx,
            s,
            0,
        ) is Bang),
    ensures
        ({
            let r = grammar::stmt(cx, s);
            let place = match x.kind {
                ExprKindM::Ident(name) => Some(LValueM::Ident(name, x.span)),
                ExprKindM::Deref { operand } => Some(LValueM::Deref(*operand, x.span)),
                ExprKindM::Field { object, field } => Some(
                    LValueM::Field(*object, field, x.span),
                ),
                _ => None,
            };
            &&& grammar::kind_at(cx, m.pos) is Semicolon ==> gives(
                r,
                s,
                past(m, 1),
                StmtM::Expr(x),
            )
            &&& grammar::kind_at(cx, m.pos) is Eq && place is Some && gives(
                grammar::expr(cx, past(m, 1)),
                past(m, 1),
                e,
                y,
            ) && grammar::kind_at(cx, e.pos) is Semicolon ==> gives(
                r,
                s,
                past(e, 1),
                StmtM::Assign {
                    target: place->0,
                    value: y,
                    span: grammar::span_at(cx, s.pos),
                },
            )
            &&& grammar::kind_at(cx, m.pos) is Eq && place is None ==> r.val is None
        }),
{
    reveal_with_fuel(grammar::stmt, 1);
    reveal_with_fuel(grammar::block, 1);
    reveal_with_fuel(grammar::block_rest, 1);
    reveal_with_fuel(grammar::branch, 1);
    reveal_with_fuel(grammar::if_stmt, 1);
    reveal_with_fuel(grammar::if_rest, 1);
    reveal_with_fuel(grammar::while_stmt, 1);
    reveal(grammar::expr_stmt);
}

/// Loops and conditionals are read from a condition and a block, with as many
/// `else if` branches as there are, and an `else` block or none.
pub proof fn branches_are_read(
    cx: InputM,
    s: At,
    c: ExprM,
    b: BlockM,
    m: At,
    rest: (Seq<(ExprM, BlockM)>, Option<BlockM>),
    before: Seq<(ExprM, BlockM)>,
    e: At,
)
    requires
        gives(grammar::branch(cx, past(s, 1)), past(s, 1), m, (c, b)),
    ensures
        ({
            let span = grammar::span_at(cx, s.pos);
            &&& kind(cx, s, 0) is While ==> gives(
                grammar::stmt(cx, s),
                s,
                m,
                StmtM::While { condition: c, body: b, span },
            )
            &&& kind(cx, s, 0) is If && gives(
                grammar::if_rest(cx, m, seq![(c, b)]),
                m,
                e,
                rest,
            ) ==> gives(
                grammar::stmt(cx, s),
                s,
                e,
                StmtM::If { branches: rest.0, else_block: rest.1, span },
            )
        }),
        !(grammar::kind_at(cx, m.pos) is Else) ==> gives(
            grammar::if_rest(cx, m, before),
            m,
            m,
            (before, None::<BlockM>),
        ),
{
    reveal_with_fuel(grammar::stmt, 1);
    reveal_with_fuel(grammar::block, 1);
    reveal_with_fuel(grammar::block_rest, 1);
    reveal_with_fuel(grammar::branch, 1);
    reveal_with_fuel(grammar::if_stmt, 1);
    reveal_with_fuel(grammar::if_rest, 1);
    reveal_with_fuel(grammar::while_stmt, 1);
}

/// A function, a field of a struct and the parameters of a function are read.
pub proof fn declarations_are_read(
    cx: InputM,
    s: At,
    ps: Seq<ParamM>,
    a: At,
    t: TypeM,
    m: At,
    b: BlockM,
    e: At,
)
    ensures
        kind(cx, s, 0) is Fn && kind(cx, s, 1) is Ident && kind(cx, s, 2) is LParen && gives(
            grammar::params(cx, past(s, 3)),
            past(s, 3),
            a,
            ps,
        ) && grammar::kind_at(cx, a.pos) is RParen && gives(
            grammar::type_expr(cx, past(a, 1)),
            past(a, 1),
            m,
            t,
        ) && gives(grammar::block(cx, m), m, e, b) ==> gives(
            grammar::fn_decl(cx, s),
            s,
            e,
            FnDeclM {
                name: word(cx, s, 1),
                params: ps,
                return_type: t,
                body: b,
                span: grammar::span_at(cx, s.pos),
            },
        ),
        kind(cx, s, 0) is Ident && kind(cx, s, 1) is Colon && gives(
            grammar::type_expr(cx, past(s, 2)),
            past(s, 2),
            m,
            t,
        ) && grammar::kind_at(cx, m.pos) is Comma ==> gives(
            grammar::field_decl(cx, s),
            s,
            past(m, 1),
            FieldDeclM { name: word(cx, s, 0), ty: t, span: grammar::span_at(cx, s.pos) },
        ),
        kind(cx, s, 0) is RParen ==> gives(grammar::params(cx, s), s, s, Seq::empty()),
{
    reveal(grammar::fn_decl);
    reveal(grammar::field_decl);
    reveal_with_fuel(grammar::type_expr, 1);
}

/// A parameter is read: `&self`, `&mut self`, `move self`, or a name with its
/// type. A bare `self` is none. The last parameter may have a comma behind it.
pub proof fn parameters_are_read(
    cx: InputM,
    s: At,
    t: TypeM,
    e: At,
    p: ParamM,
    ps: Seq<ParamM>,
)
    ensures
        ({
            let r = grammar::param(cx, s);
            let span = grammar::span_at(cx, s.pos);
            &&& kind(cx, s, 0) is Ampersand && kind(cx, s, 1) is Self_ ==> gives(
                r,
                s,
                past(s, 2),
                ParamM { kind: ParamKindM::SelfRef, span },
            )
            &&& kind(cx, s, 0) is Ampersand && kind(cx, s, 1) is Mut && kind(cx, s, 2) is Self_
                ==> gives(r, s, past(s, 3), ParamM { kind: ParamKindM::SelfMutRef, span })
            &&& kind(cx, s, 0) is Move && kind(cx, s, 1) is Self_ ==> gives(
                r,
                s,
                past(s, 2),
                ParamM { kind: ParamKindM::SelfMove, span },
            )
            &&& kind(cx, s, 0) is Self_ ==> r.val is None
            &&& kind(cx, s, 0) is Ident && kind(cx, s, 1) is Colon && gives(
                grammar::type_expr(cx, past(s, 2)),
                past(s, 2),
                e,
                t,
            ) ==> gives(
                r,
                s,
                e,
                ParamM { kind: ParamKindM::Named { name: word(cx, s, 0), ty: t }, span },
            )
        }),
        gives(grammar::param(cx, s), s, e, p) && grammar::kind_at(cx, e.pos) is RParen ==> gives(
            grammar::params_rest(cx, s, ps),
            s,
            e,
            ps.push(p),
        ),
        gives(grammar::param(cx, s), s, e, p) && grammar::kind_at(cx, e.pos) is Comma
            && grammar::kind_at(cx, e.pos + 1) is RParen ==> gives(
            grammar::params_rest(cx, s, ps),
            s,
            past(e, 1),
            ps.push(p),
        ),
{
    reveal(grammar::param);
    reveal_with_fuel(grammar::params_rest, 1);
}

} // verus!
