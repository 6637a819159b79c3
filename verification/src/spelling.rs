//! A tree that is parsed spells the tokens it was parsed from.
//!
//! What a tree spells is said here from the tree's side: which text each operator
//! has, what binds tighter, and where brackets, commas and keywords stand.

use vstd::prelude::*;

use crate::ast;
use crate::ast::{
    AsmTokenM, BinaryOp, BlockM, ExprKindM, ExprM, ExtendDeclM, FieldDeclM, FnDeclM, ImportKindM,
    ItemM, LValueM, ParamKindM, ParamM, Span, StmtM, StructDeclM, StructNameM, TypeM, UnaryOp,
};
use crate::grammar;
use crate::grammar::{At, InputM};
use crate::lexer::{TokenKindM, TokenM};
use crate::syntax_laws;

verus! {

// ---------------------------------------------------------------------------
// Tokens
// ---------------------------------------------------------------------------

/// Whether the kind of a token carries its value.
pub open spec fn has_value(k: TokenKindM) -> bool {
    k is IntLit || k is FloatLit || k is CharLit || k is StringLit || k is BoolLit
}

/// Whether the text of a token is the one that its kind has in Jo.
pub open spec fn genuine(t: TokenM) -> bool {
    match t.kind {
        TokenKindM::IntLit(_) => true,
        TokenKindM::FloatLit(_) => true,
        TokenKindM::CharLit(_) => true,
        TokenKindM::StringLit(_) => true,
        TokenKindM::BoolLit(b) => t.lexeme == if b {
            "true"@
        } else {
            "false"@
        },
        TokenKindM::Ident => !reserved(t.lexeme),
        TokenKindM::Fn => t.lexeme == "fn"@,
        TokenKindM::Struct => t.lexeme == "struct"@,
        TokenKindM::Let => t.lexeme == "let"@,
        TokenKindM::Return => t.lexeme == "return"@,
        TokenKindM::If => t.lexeme == "if"@,
        TokenKindM::Else => t.lexeme == "else"@,
        TokenKindM::While => t.lexeme == "while"@,
        TokenKindM::Break => t.lexeme == "break"@,
        TokenKindM::Continue => t.lexeme == "continue"@,
        TokenKindM::Import => t.lexeme == "import"@,
        TokenKindM::As => t.lexeme == "as"@,
        TokenKindM::Move => t.lexeme == "move"@,
        TokenKindM::Self_ => t.lexeme == "self"@,
        TokenKindM::I64 => t.lexeme == "i64"@,
        TokenKindM::F64 => t.lexeme == "f64"@,
        TokenKindM::Void => t.lexeme == "void"@,
        TokenKindM::Null => t.lexeme == "null"@,
        TokenKindM::Mut => t.lexeme == "mut"@,
        TokenKindM::Asm => t.lexeme == "asm"@,
        TokenKindM::Extend => t.lexeme == "extend"@,
        TokenKindM::LParen => t.lexeme == "("@,
        TokenKindM::RParen => t.lexeme == ")"@,
        TokenKindM::LBrace => t.lexeme == "{"@,
        TokenKindM::RBrace => t.lexeme == "}"@,
        TokenKindM::LBracket => t.lexeme == "["@,
        TokenKindM::RBracket => t.lexeme == "]"@,
        TokenKindM::Comma => t.lexeme == ","@,
        TokenKindM::Semicolon => t.lexeme == ";"@,
        TokenKindM::Colon => t.lexeme == ":"@,
        TokenKindM::ColonColon => t.lexeme == "::"@,
        TokenKindM::Dot => t.lexeme == "."@,
        TokenKindM::Arrow => t.lexeme == "->"@,
        TokenKindM::Bang => t.lexeme == "!"@,
        TokenKindM::Pound => t.lexeme == "#"@,
        TokenKindM::Eq => t.lexeme == "="@,
        TokenKindM::EqEq => t.lexeme == "=="@,
        TokenKindM::Ne => t.lexeme == "!="@,
        TokenKindM::Lt => t.lexeme == "<"@,
        TokenKindM::Gt => t.lexeme == ">"@,
        TokenKindM::Le => t.lexeme == "<="@,
        TokenKindM::Ge => t.lexeme == ">="@,
        TokenKindM::Plus => t.lexeme == "+"@,
        TokenKindM::Minus => t.lexeme == "-"@,
        TokenKindM::Star => t.lexeme == "*"@,
        TokenKindM::Slash => t.lexeme == "/"@,
        TokenKindM::Percent => t.lexeme == "%"@,
        TokenKindM::Ampersand => t.lexeme == "&"@,
        TokenKindM::AmpAmp => t.lexeme == "&&"@,
        TokenKindM::PipePipe => t.lexeme == "||"@,
        TokenKindM::Eof => t.lexeme.len() == 0,
    }
}

/// The words that are no identifiers.
pub open spec fn reserved(w: Seq<char>) -> bool {
    ||| w == "fn"@ || w == "struct"@ || w == "let"@ || w == "return"@ || w == "if"@
    ||| w == "else"@ || w == "while"@ || w == "break"@ || w == "continue"@ || w == "import"@
    ||| w == "as"@ || w == "move"@ || w == "self"@ || w == "i64"@ || w == "f64"@
    ||| w == "void"@ || w == "null"@ || w == "mut"@ || w == "asm"@ || w == "extend"@
    ||| w == "true"@ || w == "false"@
}

pub open spec fn all_genuine(toks: Seq<TokenM>) -> bool {
    forall|i: int| 0 <= i < toks.len() ==> genuine(#[trigger] toks[i])
}

/// Whether the token is that word or symbol.
pub open spec fn reads(t: TokenM, w: Seq<char>) -> bool {
    t.lexeme == w && !has_value(t.kind)
}

/// The tokens from `a` up to `b`.
pub open spec fn range(cx: InputM, a: nat, b: nat) -> Seq<TokenM> {
    Seq::new((b - a) as nat, |i: int| grammar::tok_at(cx, (a + i) as nat))
}

proof fn genuine_at(cx: InputM, pos: nat)
    requires
        all_genuine(cx.toks),
    ensures
        genuine(grammar::tok_at(cx, pos)),
{
}

/// What stands before, at and after a place of a range.
proof fn range_parts(cx: InputM, a: nat, m: nat, b: nat)
    requires
        a <= m <= b,
    ensures
        range(cx, a, b).len() == b - a,
        range(cx, a, b).take(m - a) == range(cx, a, m),
        range(cx, a, b).skip(m - a) == range(cx, m, b),
        m < b ==> range(cx, a, b)[m - a] == grammar::tok_at(cx, m),
{
    assert(range(cx, a, b).take(m - a) =~= range(cx, a, m));
    assert(range(cx, a, b).skip(m - a) =~= range(cx, m, b));
}

proof fn range_inside(cx: InputM, a: nat, m: nat, n: nat, b: nat)
    requires
        a <= m <= n <= b,
    ensures
        range(cx, a, b).subrange(m - a, n - a) == range(cx, m, n),
{
    assert(range(cx, a, b).subrange(m - a, n - a) =~= range(cx, m, n));
}

// ---------------------------------------------------------------------------
// What a tree spells
// ---------------------------------------------------------------------------

/// The text of an infix operator.
pub open spec fn infix_text(op: BinaryOp) -> Seq<char> {
    match op {
        BinaryOp::Add => "+"@,
        BinaryOp::Sub => "-"@,
        BinaryOp::Mul => "*"@,
        BinaryOp::Div => "/"@,
        BinaryOp::Mod => "%"@,
        BinaryOp::Eq => "=="@,
        BinaryOp::Ne => "!="@,
        BinaryOp::Lt => "<"@,
        BinaryOp::Gt => ">"@,
        BinaryOp::Le => "<="@,
        BinaryOp::Ge => ">="@,
        BinaryOp::And => "&&"@,
        BinaryOp::Or => "||"@,
    }
}

/// How tight an infix operator binds: products tightest, `||` loosest.
pub open spec fn tightness(op: BinaryOp) -> nat {
    match op {
        BinaryOp::Mul => 5,
        BinaryOp::Div => 5,
        BinaryOp::Mod => 5,
        BinaryOp::Add => 4,
        BinaryOp::Sub => 4,
        BinaryOp::And => 2,
        BinaryOp::Or => 1,
        _ => 3,
    }
}

#[verifier::opaque]
pub open spec fn spells_type(t: TypeM, p: Seq<TokenM>) -> bool
    decreases t,
{
    match t {
        TypeM::I64 => p.len() == 1 && reads(p[0], "i64"@),
        TypeM::F64 => p.len() == 1 && reads(p[0], "f64"@),
        TypeM::Void => p.len() == 1 && reads(p[0], "void"@),
        TypeM::Null => p.len() == 1 && reads(p[0], "null"@),
        TypeM::Unknown => false,
        TypeM::Named(n) => p.len() == 1 && p[0].kind is Ident && p[0].lexeme == n,
        TypeM::Qualified(m, n) => {
            &&& p.len() == 3 && p[0].kind is Ident && p[2].kind is Ident
            &&& p[0].lexeme == m && reads(p[1], "::"@) && p[2].lexeme == n
        },
        TypeM::Ref(inner) => p.len() >= 1 && reads(p[0], "&"@) && spells_type(*inner, p.skip(1)),
        TypeM::MutRef(inner) => p.len() >= 2 && reads(p[0], "&"@) && reads(p[1], "mut"@)
            && spells_type(*inner, p.skip(2)),
    }
}

pub open spec fn spells_name(n: StructNameM, p: Seq<TokenM>) -> bool {
    match n {
        StructNameM::Unqualified(n) => p.len() == 1 && p[0].kind is Ident && p[0].lexeme == n,
        StructNameM::Qualified(m, n) => {
            &&& p.len() == 3 && p[0].kind is Ident && p[2].kind is Ident
            &&& p[0].lexeme == m && reads(p[1], "::"@) && p[2].lexeme == n
        },
    }
}

/// The place of a token.
pub open spec fn place(t: TokenM) -> Span {
    Span { line: t.line as usize, col: t.col as usize }
}

/// Whether the expression is placed at the first of its tokens. What an infix
/// operator, a cast, a call or a field starts with is its left operand.
pub open spec fn placed(e: ExprM, p: Seq<TokenM>) -> bool {
    match e.kind {
        ExprKindM::Binary { left, .. } => e.span == left.span,
        ExprKindM::Cast { expr, .. } => e.span == expr.span,
        ExprKindM::Call { callee, .. } => e.span == callee.span,
        ExprKindM::Field { object, .. } => e.span == object.span,
        _ => p.len() > 0 && e.span == place(p[0]),
    }
}

/// Whether the tokens are the expression, where what binds looser than `lv`
/// stands in parentheses. A cast binds loosest (0), then the infix operators (1
/// to 5), the prefix operators (6), and calls and fields (7).
#[verifier::opaque]
pub open spec fn spells(e: ExprM, p: Seq<TokenM>, lv: nat) -> bool
    decreases e, p.len(),
{
    ||| {
        &&& p.len() >= 2 && reads(p[0], "("@) && reads(p.last(), ")"@)
        &&& spells(e, p.subrange(1, p.len() - 1), 0)
    }
    ||| placed(e, p) && match e.kind {
        ExprKindM::IntLit(n) => p.len() == 1 && (p[0].kind == TokenKindM::IntLit(n) || n == 0
            && reads(p[0], "null"@)),
        ExprKindM::FloatLit(f) => p.len() == 1 && p[0].kind == TokenKindM::FloatLit(f),
        ExprKindM::CharLit(c) => p.len() == 1 && p[0].kind == TokenKindM::CharLit(c),
        ExprKindM::BoolLit(b) => p.len() == 1 && p[0].kind == TokenKindM::BoolLit(b),
        ExprKindM::StringLit(s) => p.len() == 1 && p[0].kind == TokenKindM::StringLit(s),
        ExprKindM::Ident(n) => p.len() == 1 && reads(p[0], n),
        ExprKindM::QualifiedIdent { module, name } => {
            &&& p.len() == 3 && reads(p[0], module)
            &&& reads(p[1], "::"@) && p[2].kind is Ident && p[2].lexeme == name
        },
        ExprKindM::Unary { op, operand } => {
            &&& lv <= 6 && p.len() >= 1 && (op == UnaryOp::Neg || op == UnaryOp::Not)
            &&& reads(
                p[0],
                if op == UnaryOp::Neg {
                    "-"@
                } else {
                    "!"@
                },
            )
            &&& spells(*operand, p.skip(1), 6)
        },
        ExprKindM::Deref { operand } => lv <= 6 && p.len() >= 1 && reads(p[0], "*"@) && spells(
            *operand,
            p.skip(1),
            6,
        ),
        ExprKindM::Ref { mutable, operand } => {
            &&& lv <= 6 && p.len() >= 2 && reads(p[0], "&"@)
            &&& if mutable {
                reads(p[1], "mut"@) && spells(*operand, p.skip(2), 6)
            } else {
                !reads(p[1], "mut"@) && spells(*operand, p.skip(1), 6)
            }
        },
        ExprKindM::Binary { op, left, right } => {
            &&& lv <= tightness(op)
            &&& exists|i: int|
                0 <= i < p.len() && reads(#[trigger] p[i], infix_text(op)) && spells(
                    *left,
                    p.take(i),
                    tightness(op),
                ) && spells(*right, p.skip(i + 1), tightness(op) + 1)
        },
        ExprKindM::Cast { expr, target_type } => {
            &&& lv == 0
            &&& exists|i: int|
                0 <= i < p.len() && reads(#[trigger] p[i], "->"@) && spells(*expr, p.take(i), 0)
                    && spells_type(target_type, p.skip(i + 1))
        },
        ExprKindM::Call { callee, args } => {
            &&& p.len() >= 1 && reads(p.last(), ")"@)
            &&& exists|i: int|
                0 <= i < p.len() - 1 && reads(#[trigger] p[i], "("@) && spells(
                    *callee,
                    p.take(i),
                    7,
                ) && spells_args(args, p.subrange(i + 1, p.len() - 1))
        },
        ExprKindM::Field { object, field } => {
            &&& p.len() >= 2 && reads(p[p.len() - 2], "."@)
            &&& p.last().kind is Ident && p.last().lexeme == field
            &&& spells(*object, p.take(p.len() - 2), 7)
        },
        ExprKindM::StructInit { name, fields } => {
            &&& p.len() >= 1 && reads(p.last(), "}"@)
            &&& exists|i: int|
                0 <= i < p.len() - 1 && reads(#[trigger] p[i], "{"@) && spells_name(name, p.take(i))
                    && spells_inits(fields, p.subrange(i + 1, p.len() - 1))
        },
    }
}

/// The arguments, each but the last followed by a comma.
#[verifier::opaque]
pub open spec fn spells_args(args: Seq<ExprM>, p: Seq<TokenM>) -> bool
    decreases args, 1nat,
{
    if args.len() == 0 {
        p.len() == 0
    } else {
        ||| spells_list(args, p)
        ||| exists|i: int|
            0 <= i <= p.len() && spells_list(args.drop_last(), #[trigger] p.take(i)) && spells(
                args.last(),
                p.skip(i),
                0,
            )
    }
}

/// The expressions, each followed by a comma.
#[verifier::opaque]
pub open spec fn spells_list(args: Seq<ExprM>, p: Seq<TokenM>) -> bool
    decreases args, 0nat,
{
    if args.len() == 0 {
        p.len() == 0
    } else {
        &&& p.len() >= 1 && reads(p.last(), ","@)
        &&& exists|i: int|
            0 <= i < p.len() && spells_list(args.drop_last(), #[trigger] p.take(i)) && spells(
                args.last(),
                p.subrange(i, p.len() - 1),
                0,
            )
    }
}

/// A field of an initializer.
pub open spec fn spells_init(f: (Seq<char>, ExprM), p: Seq<TokenM>) -> bool
    decreases f, 1nat,
{
    &&& p.len() >= 2 && p[0].kind is Ident && p[0].lexeme == f.0 && reads(p[1], "="@)
    &&& spells(f.1, p.skip(2), 0)
}

#[verifier::opaque]
pub open spec fn spells_inits(fields: Seq<(Seq<char>, ExprM)>, p: Seq<TokenM>) -> bool
    decreases fields, 1nat,
{
    if fields.len() == 0 {
        p.len() == 0
    } else {
        ||| spells_init_list(fields, p)
        ||| exists|i: int|
            0 <= i <= p.len() && spells_init_list(fields.drop_last(), #[trigger] p.take(i))
                && spells_init(fields.last(), p.skip(i))
    }
}

/// The fields of an initializer, each followed by a comma.
#[verifier::opaque]
pub open spec fn spells_init_list(fields: Seq<(Seq<char>, ExprM)>, p: Seq<TokenM>) -> bool
    decreases fields, 0nat,
{
    if fields.len() == 0 {
        p.len() == 0
    } else {
        &&& p.len() >= 1 && reads(p.last(), ","@)
        &&& exists|i: int|
            0 <= i < p.len() && spells_init_list(fields.drop_last(), #[trigger] p.take(i))
                && spells_init(fields.last(), p.subrange(i, p.len() - 1))
    }
}

// ---------------------------------------------------------------------------
// Expressions
// ---------------------------------------------------------------------------

proof fn looser(e: ExprM, p: Seq<TokenM>, hi: nat, lo: nat)
    requires
        spells(e, p, hi),
        lo <= hi,
    ensures
        spells(e, p, lo),
{
    reveal_with_fuel(spells, 1);
}

proof fn binary_spells(op: BinaryOp, l: ExprM, r: ExprM, span: Span, p: Seq<TokenM>, i: int)
    requires
        span == l.span,
        0 <= i < p.len(),
        reads(p[i], infix_text(op)),
        spells(l, p.take(i), tightness(op)),
        spells(r, p.skip(i + 1), tightness(op) + 1),
    ensures
        spells(
            ast::untyped(ExprKindM::Binary { op, left: Box::new(l), right: Box::new(r) }, span),
            p,
            tightness(op),
        ),
{
    reveal_with_fuel(spells, 1);
    reveal_with_fuel(spells_args, 1);
    reveal_with_fuel(spells_list, 1);
    reveal_with_fuel(spells_inits, 1);
    reveal_with_fuel(spells_init_list, 1);
}

proof fn cast_spells(x: ExprM, t: TypeM, span: Span, p: Seq<TokenM>, i: int)
    requires
        span == x.span,
        0 <= i < p.len(),
        reads(p[i], "->"@),
        spells(x, p.take(i), 0),
        spells_type(t, p.skip(i + 1)),
    ensures
        spells(ast::untyped(ExprKindM::Cast { expr: Box::new(x), target_type: t }, span), p, 0),
{
    reveal_with_fuel(spells, 1);
    reveal_with_fuel(spells_args, 1);
    reveal_with_fuel(spells_list, 1);
    reveal_with_fuel(spells_inits, 1);
    reveal_with_fuel(spells_init_list, 1);
}

proof fn call_spells(c: ExprM, args: Seq<ExprM>, span: Span, p: Seq<TokenM>, i: int)
    requires
        span == c.span,
        0 <= i < p.len() - 1,
        reads(p.last(), ")"@),
        reads(p[i], "("@),
        spells(c, p.take(i), 7),
        spells_args(args, p.subrange(i + 1, p.len() - 1)),
    ensures
        spells(ast::untyped(ExprKindM::Call { callee: Box::new(c), args }, span), p, 7),
{
    reveal_with_fuel(spells, 1);
    reveal_with_fuel(spells_args, 1);
    reveal_with_fuel(spells_list, 1);
    reveal_with_fuel(spells_inits, 1);
    reveal_with_fuel(spells_init_list, 1);
}

proof fn field_spells(o: ExprM, field: Seq<char>, span: Span, p: Seq<TokenM>)
    requires
        span == o.span,
        p.len() >= 2,
        reads(p[p.len() - 2], "."@),
        p.last().kind is Ident,
        p.last().lexeme == field,
        spells(o, p.take(p.len() - 2), 7),
    ensures
        spells(ast::untyped(ExprKindM::Field { object: Box::new(o), field }, span), p, 7),
{
    reveal_with_fuel(spells, 1);
    reveal_with_fuel(spells_args, 1);
    reveal_with_fuel(spells_list, 1);
    reveal_with_fuel(spells_inits, 1);
    reveal_with_fuel(spells_init_list, 1);
}

proof fn init_spells(
    name: StructNameM,
    fields: Seq<(Seq<char>, ExprM)>,
    span: Span,
    p: Seq<TokenM>,
    i: int,
)
    requires
        span == place(p[0]),
        0 <= i < p.len() - 1,
        reads(p.last(), "}"@),
        reads(p[i], "{"@),
        spells_name(name, p.take(i)),
        spells_inits(fields, p.subrange(i + 1, p.len() - 1)),
    ensures
        spells(ast::untyped(ExprKindM::StructInit { name, fields }, span), p, 7),
{
    reveal_with_fuel(spells, 1);
    reveal_with_fuel(spells_args, 1);
    reveal_with_fuel(spells_list, 1);
    reveal_with_fuel(spells_inits, 1);
    reveal_with_fuel(spells_init_list, 1);
}

proof fn group_spells(e: ExprM, p: Seq<TokenM>)
    requires
        p.len() >= 2,
        reads(p[0], "("@),
        reads(p.last(), ")"@),
        spells(e, p.subrange(1, p.len() - 1), 0),
    ensures
        spells(e, p, 7),
{
    reveal_with_fuel(spells, 1);
    reveal_with_fuel(spells_args, 1);
    reveal_with_fuel(spells_list, 1);
    reveal_with_fuel(spells_inits, 1);
    reveal_with_fuel(spells_init_list, 1);
}

/// One more in a list: with a comma after it, and as the last one.
proof fn list_spells(args: Seq<ExprM>, e: ExprM, p: Seq<TokenM>, i: int)
    requires
        0 <= i <= p.len(),
        spells_list(args, p.take(i)),
    ensures
        spells(e, p.skip(i), 0) ==> spells_args(args.push(e), p),
        i < p.len() && reads(p.last(), ","@) && spells(e, p.subrange(i, p.len() - 1), 0)
            ==> spells_list(args.push(e), p),
{
    reveal_with_fuel(spells, 1);
    reveal_with_fuel(spells_args, 1);
    reveal_with_fuel(spells_list, 1);
    reveal_with_fuel(spells_inits, 1);
    reveal_with_fuel(spells_init_list, 1);
    assert(args.push(e).drop_last() =~= args);
}

proof fn closed_list(args: Seq<ExprM>, p: Seq<TokenM>)
    requires
        spells_list(args, p),
    ensures
        spells_args(args, p),
{
    reveal_with_fuel(spells, 1);
    reveal_with_fuel(spells_args, 1);
    reveal_with_fuel(spells_list, 1);
    reveal_with_fuel(spells_inits, 1);
    reveal_with_fuel(spells_init_list, 1);
}

proof fn init_list_spells(
    fields: Seq<(Seq<char>, ExprM)>,
    f: (Seq<char>, ExprM),
    p: Seq<TokenM>,
    i: int,
)
    requires
        0 <= i <= p.len(),
        spells_init_list(fields, p.take(i)),
    ensures
        spells_init(f, p.skip(i)) ==> spells_inits(fields.push(f), p),
        i < p.len() && reads(p.last(), ","@) && spells_init(f, p.subrange(i, p.len() - 1))
            ==> spells_init_list(fields.push(f), p),
{
    reveal_with_fuel(spells, 1);
    reveal_with_fuel(spells_args, 1);
    reveal_with_fuel(spells_list, 1);
    reveal_with_fuel(spells_inits, 1);
    reveal_with_fuel(spells_init_list, 1);
    assert(fields.push(f).drop_last() =~= fields);
}

proof fn closed_init_list(fields: Seq<(Seq<char>, ExprM)>, p: Seq<TokenM>)
    requires
        spells_init_list(fields, p),
    ensures
        spells_inits(fields, p),
{
    reveal_with_fuel(spells, 1);
    reveal_with_fuel(spells_args, 1);
    reveal_with_fuel(spells_list, 1);
    reveal_with_fuel(spells_inits, 1);
    reveal_with_fuel(spells_init_list, 1);
}

proof fn type_spelled(cx: InputM, s: At)
    requires
        all_genuine(cx.toks),
    ensures
        grammar::type_expr(cx, s).val matches Some(t) ==> spells_type(
            t,
            range(cx, s.pos, s.pos + grammar::type_expr(cx, s).adv),
        ),
    decreases grammar::left(cx, s.pos),
{
    reveal(grammar::type_expr);
    reveal_with_fuel(spells_type, 1);
    genuine_at(cx, s.pos);
    genuine_at(cx, s.pos + 1);
    genuine_at(cx, s.pos + 2);
    let out = grammar::type_expr(cx, s);
    let k = grammar::kind_at(cx, s.pos);
    if k is Ampersand {
        let s1 = grammar::skip(s);
        let s2 = if grammar::kind_at(cx, s1.pos) is Mut {
            grammar::skip(s1)
        } else {
            s1
        };
        type_spelled(cx, s2);
        let r = grammar::type_expr(cx, s2);
        if r.val is Some {
            let end = s2.pos + r.adv;
            assert(out.adv == end - s.pos);
            range_parts(cx, s.pos, s2.pos, end);
            assert(range(cx, s.pos, end)[0] == grammar::tok_at(cx, s.pos));
        }
    }
}

#[verifier::rlimit(60)]
#[verifier::spinoff_prover]
proof fn cast_spelled(cx: InputM, s: At, inits: bool)
    requires
        all_genuine(cx.toks),
    ensures
        grammar::cast(cx, s, inits).val matches Some(e) ==> spells(
            e,
            range(cx, s.pos, s.pos + grammar::cast(cx, s, inits).adv),
            0,
        ),
    decreases grammar::left(cx, s.pos), 10nat,
{
    reveal(grammar::cast);
    reveal(grammar::binary);
    reveal(grammar::cast_rest);
    binary_spelled(cx, s, inits, 0);
    let l = grammar::binary(cx, s, inits, 0);
    if l.val is Some {
        looser(l.val->0, range(cx, s.pos, s.pos + l.adv), 1, 0);
        cast_rest_spelled(cx, s.pos, l.next(s), l.val->0, false);
    }
}

#[verifier::rlimit(60)]
#[verifier::spinoff_prover]
proof fn cast_rest_spelled(cx: InputM, a: nat, s: At, e: ExprM, casted: bool)
    requires
        all_genuine(cx.toks),
        a <= s.pos,
        spells(e, range(cx, a, s.pos), 0),
    ensures
        grammar::cast_rest(cx, s, e, casted).val matches Some(r) ==> spells(
            r,
            range(cx, a, s.pos + grammar::cast_rest(cx, s, e, casted).adv),
            0,
        ),
    decreases grammar::left(cx, s.pos), 0nat,
{
    reveal(grammar::cast_rest);
    genuine_at(cx, s.pos);
    if grammar::kind_at(cx, s.pos) is Arrow {
        let s1 = grammar::skip(s);
        type_spelled(cx, s1);
        let t = grammar::type_expr(cx, s1);
        if t.val is Some {
            let next = ast::untyped(
                ExprKindM::Cast { expr: Box::new(e), target_type: t.val->0 },
                e.span,
            );
            let end = t.next(s1).pos;
            let p = range(cx, a, end);
            range_parts(cx, a, s.pos, end);
            range_parts(cx, a, s1.pos, end);
            cast_spells(e, t.val->0, e.span, p, s.pos - a);
            cast_rest_spelled(cx, a, t.next(s1), next, true);
        }
    }
}

#[verifier::rlimit(60)]
#[verifier::spinoff_prover]
proof fn binary_spelled(cx: InputM, s: At, inits: bool, level: nat)
    requires
        all_genuine(cx.toks),
        level <= 5,
    ensures
        grammar::binary(cx, s, inits, level).val matches Some(e) ==> spells(
            e,
            range(cx, s.pos, s.pos + grammar::binary(cx, s, inits, level).adv),
            level + 1,
        ),
    decreases grammar::left(cx, s.pos),
            if level < 5 {
                (9 - level) as nat
            } else {
                4
            },
{
    reveal(grammar::binary);
    reveal(grammar::unary);
    reveal(grammar::binary_rest);
    if level >= 5 {
        unary_spelled(cx, s, inits);
    } else {
        binary_spelled(cx, s, inits, level + 1);
        let l = grammar::binary(cx, s, inits, level + 1);
        if l.val is Some {
            looser(l.val->0, range(cx, s.pos, s.pos + l.adv), level + 2, level + 1);
            binary_rest_spelled(cx, s.pos, l.next(s), inits, level, l.val->0);
        }
    }
}

#[verifier::rlimit(60)]
#[verifier::spinoff_prover]
proof fn binary_rest_spelled(cx: InputM, a: nat, s: At, inits: bool, level: nat, e: ExprM)
    requires
        all_genuine(cx.toks),
        level < 5,
        a <= s.pos,
        spells(e, range(cx, a, s.pos), level + 1),
    ensures
        grammar::binary_rest(cx, s, inits, level, e).val matches Some(r) ==> spells(
            r,
            range(cx, a, s.pos + grammar::binary_rest(cx, s, inits, level, e).adv),
            level + 1,
        ),
    decreases grammar::left(cx, s.pos), 0nat,
{
    reveal(grammar::binary_rest);
    reveal(grammar::binary);
    genuine_at(cx, s.pos);
    match grammar::operator(grammar::kind_at(cx, s.pos), level) {
        None => {},
        Some(op) => {
            let s1 = grammar::skip(s);
            binary_spelled(cx, s1, inits, level + 1);
            let r = grammar::binary(cx, s1, inits, level + 1);
            if r.val is Some {
                let next = ast::untyped(
                    ExprKindM::Binary { op, left: Box::new(e), right: Box::new(r.val->0) },
                    e.span,
                );
                let end = r.next(s1).pos;
                let p = range(cx, a, end);
                assert(tightness(op) == level + 1);
                range_parts(cx, a, s.pos, end);
                range_parts(cx, a, s1.pos, end);
                binary_spells(op, e, r.val->0, e.span, p, s.pos - a);
                binary_rest_spelled(cx, a, r.next(s1), inits, level, next);
            }
        },
    }
}

#[verifier::rlimit(60)]
#[verifier::spinoff_prover]
proof fn unary_spelled(cx: InputM, s: At, inits: bool)
    requires
        all_genuine(cx.toks),
    ensures
        grammar::unary(cx, s, inits).val matches Some(e) ==> spells(
            e,
            range(cx, s.pos, s.pos + grammar::unary(cx, s, inits).adv),
            6,
        ),
    decreases grammar::left(cx, s.pos), 3nat,
{
    reveal(grammar::unary);
    reveal(grammar::postfix);
    genuine_at(cx, s.pos);
    genuine_at(cx, s.pos + 1);
    let k = grammar::kind_at(cx, s.pos);
    let out = grammar::unary(cx, s, inits);
    if k is Bang || k is Minus || k is Star || k is Ampersand {
        let s1 = grammar::skip(s);
        let mutable = k is Ampersand && grammar::kind_at(cx, s1.pos) is Mut;
        let s2 = if mutable {
            grammar::skip(s1)
        } else {
            s1
        };
        unary_spelled(cx, s2, inits);
        grammar::unary_progress(cx, s2, inits);
        let r = grammar::unary(cx, s2, inits);
        if r.val is Some {
            let end = s2.pos + r.adv;
            let p = range(cx, s.pos, end);
            assert(out.adv == end - s.pos);
            range_parts(cx, s.pos, s2.pos, end);
            assert(p[0] == grammar::tok_at(cx, s.pos));
            assert(p[1] == grammar::tok_at(cx, s1.pos));
            if k is Ampersand && !mutable {
                not_mut(grammar::tok_at(cx, s1.pos));
            }
            reveal_with_fuel(spells, 1);
        }
    } else {
        postfix_spelled(cx, s, inits);
        if out.val is Some {
            looser(out.val->0, range(cx, s.pos, s.pos + out.adv), 7, 6);
        }
    }
}

/// A token of another kind does not read `mut`.
proof fn not_mut(t: TokenM)
    requires
        genuine(t),
        !(t.kind is Mut),
    ensures
        !reads(t, "mut"@),
{
    reveal_strlit("mut");
    reveal_strlit("fn");
    reveal_strlit("struct");
    reveal_strlit("let");
    reveal_strlit("return");
    reveal_strlit("if");
    reveal_strlit("else");
    reveal_strlit("while");
    reveal_strlit("break");
    reveal_strlit("continue");
    reveal_strlit("import");
    reveal_strlit("as");
    reveal_strlit("move");
    reveal_strlit("self");
    reveal_strlit("i64");
    reveal_strlit("f64");
    reveal_strlit("void");
    reveal_strlit("null");
    reveal_strlit("asm");
    reveal_strlit("extend");
    reveal_strlit("(");
    reveal_strlit(")");
    reveal_strlit("{");
    reveal_strlit("}");
    reveal_strlit("[");
    reveal_strlit("]");
    reveal_strlit(",");
    reveal_strlit(";");
    reveal_strlit(":");
    reveal_strlit("::");
    reveal_strlit(".");
    reveal_strlit("->");
    reveal_strlit("!");
    reveal_strlit("#");
    reveal_strlit("=");
    reveal_strlit("==");
    reveal_strlit("!=");
    reveal_strlit("<");
    reveal_strlit(">");
    reveal_strlit("<=");
    reveal_strlit(">=");
    reveal_strlit("+");
    reveal_strlit("-");
    reveal_strlit("*");
    reveal_strlit("/");
    reveal_strlit("%");
    reveal_strlit("&");
    reveal_strlit("&&");
    reveal_strlit("||");
    if reads(t, "mut"@) {
        assert(t.lexeme.len() == 3 && t.lexeme[0] == 'm');
    }
}

#[verifier::rlimit(60)]
#[verifier::spinoff_prover]
proof fn postfix_spelled(cx: InputM, s: At, inits: bool)
    requires
        all_genuine(cx.toks),
    ensures
        grammar::postfix(cx, s, inits).val matches Some(e) ==> spells(
            e,
            range(cx, s.pos, s.pos + grammar::postfix(cx, s, inits).adv),
            7,
        ),
    decreases grammar::left(cx, s.pos), 2nat,
{
    reveal(grammar::postfix);
    reveal(grammar::primary);
    reveal(grammar::postfix_rest);
    primary_spelled(cx, s, inits);
    let p = grammar::primary(cx, s, inits);
    if p.val is Some {
        postfix_rest_spelled(cx, s.pos, p.next(s), p.val->0);
    }
}

#[verifier::rlimit(60)]
#[verifier::spinoff_prover]
proof fn postfix_rest_spelled(cx: InputM, a: nat, s: At, e: ExprM)
    requires
        all_genuine(cx.toks),
        a <= s.pos,
        spells(e, range(cx, a, s.pos), 7),
    ensures
        grammar::postfix_rest(cx, s, e).val matches Some(r) ==> spells(
            r,
            range(cx, a, s.pos + grammar::postfix_rest(cx, s, e).adv),
            7,
        ),
    decreases grammar::left(cx, s.pos), 0nat,
{
    reveal(grammar::postfix_rest);
    reveal(grammar::arg_list);
    genuine_at(cx, s.pos);
    let k = grammar::kind_at(cx, s.pos);
    let s1 = grammar::skip(s);
    if k is LParen {
        arg_list_spelled(cx, s1);
        let g = grammar::arg_list(cx, s1);
        let s2 = g.next(s1);
        if g.val is Some {
            genuine_at(cx, s2.pos);
            let c = grammar::expect(cx, s2, TokenKindM::RParen, "`)` after arguments"@);
            if c.val is Some {
                let next = ast::untyped(
                    ExprKindM::Call { callee: Box::new(e), args: g.val->0 },
                    e.span,
                );
                let end = s2.pos + 1;
                range_parts(cx, a, s.pos, end);
                range_inside(cx, a, s1.pos, s2.pos, end);
                call_spells(e, g.val->0, e.span, range(cx, a, end), s.pos - a);
                postfix_rest_spelled(cx, a, c.next(s2), next);
            }
        }
    } else if k is Dot {
        let f = grammar::expect(cx, s1, TokenKindM::Ident, "field or method name after `.`"@);
        if f.val is Some {
            let next = ast::untyped(
                ExprKindM::Field { object: Box::new(e), field: f.val->0.lexeme },
                e.span,
            );
            let end = s1.pos + 1;
            range_parts(cx, a, s.pos, end);
            range_parts(cx, a, s1.pos, end);
            field_spells(e, f.val->0.lexeme, e.span, range(cx, a, end));
            postfix_rest_spelled(cx, a, f.next(s1), next);
        }
    }
}

#[verifier::rlimit(60)]
#[verifier::spinoff_prover]
proof fn arg_list_spelled(cx: InputM, s: At)
    requires
        all_genuine(cx.toks),
    ensures
        grammar::arg_list(cx, s).val matches Some(args) ==> spells_args(
            args,
            range(cx, s.pos, s.pos + grammar::arg_list(cx, s).adv),
        ),
    decreases grammar::left(cx, s.pos), 12nat,
{
    reveal(grammar::arg_list);
    reveal(grammar::args_rest);
    reveal_with_fuel(spells_list, 1);
    let none = range(cx, s.pos, s.pos);
    assert(none =~= Seq::empty());
    closed_list(Seq::empty(), none);
    args_rest_spelled(cx, s.pos, s, Seq::empty());
}

#[verifier::rlimit(60)]
#[verifier::spinoff_prover]
proof fn args_rest_spelled(cx: InputM, a: nat, s: At, args: Seq<ExprM>)
    requires
        all_genuine(cx.toks),
        a <= s.pos,
        spells_list(args, range(cx, a, s.pos)),
    ensures
        grammar::args_rest(cx, s, args).val matches Some(r) ==> spells_args(
            r,
            range(cx, a, s.pos + grammar::args_rest(cx, s, args).adv),
        ),
    decreases grammar::left(cx, s.pos), 11nat,
{
    reveal(grammar::args_rest);
    reveal(grammar::cast);
    cast_spelled(cx, s, true);
    let r = grammar::cast(cx, s, true);
    let s1 = r.next(s);
    genuine_at(cx, s1.pos);
    if r.val is Some {
        let now = args.push(r.val->0);
        range_parts(cx, a, s.pos, s1.pos);
        list_spells(args, r.val->0, range(cx, a, s1.pos), s.pos - a);
        if grammar::kind_at(cx, s1.pos) is Comma {
            let s2 = grammar::skip(s1);
            let q = range(cx, a, s2.pos);
            range_parts(cx, a, s.pos, s2.pos);
            range_inside(cx, a, s.pos, s1.pos, s2.pos);
            assert(q.last() == grammar::tok_at(cx, s1.pos));
            list_spells(args, r.val->0, q, s.pos - a);
            closed_list(now, q);
            args_rest_spelled(cx, a, s2, now);
        }
    }
}

#[verifier::rlimit(60)]
#[verifier::spinoff_prover]
proof fn primary_spelled(cx: InputM, s: At, inits: bool)
    requires
        all_genuine(cx.toks),
    ensures
        grammar::primary(cx, s, inits).val matches Some(e) ==> spells(
            e,
            range(cx, s.pos, s.pos + grammar::primary(cx, s, inits).adv),
            7,
        ),
    decreases grammar::left(cx, s.pos), 1nat,
{
    reveal(grammar::primary);
    reveal(grammar::cast);
    reveal(grammar::init_body);
    genuine_at(cx, s.pos);
    genuine_at(cx, s.pos + 1);
    genuine_at(cx, s.pos + 2);
    let k = grammar::kind_at(cx, s.pos);
    let name = grammar::tok_at(cx, s.pos).lexeme;
    let span = grammar::span_at(cx, s.pos);
    let s1 = grammar::skip(s);
    let out = grammar::primary(cx, s, inits);
    if grammar::literal(k) is Some {
        assert(range(cx, s.pos, s.pos + 1)[0] == grammar::tok_at(cx, s.pos));
        reveal_with_fuel(spells, 1);
    } else if k is LParen {
        cast_spelled(cx, s1, true);
        let r = grammar::cast(cx, s1, true);
        let s2 = r.next(s1);
        genuine_at(cx, s2.pos);
        if out.val is Some {
            let p = range(cx, s.pos, s2.pos + 1);
            range_inside(cx, s.pos, s1.pos, s2.pos, s2.pos + 1);
            assert(p[0] == grammar::tok_at(cx, s.pos));
            assert(p.last() == grammar::tok_at(cx, s2.pos));
            group_spells(r.val->0, p);
        }
    } else if k is Ident {
        if grammar::kind_at(cx, s1.pos) is ColonColon {
            let s2 = grammar::skip(s1);
            let m = grammar::expect(cx, s2, TokenKindM::Ident, "name after `::`"@);
            if m.val is Some {
                let s3 = m.next(s2);
                let n = StructNameM::Qualified(name, m.val->0.lexeme);
                let head = range(cx, s.pos, s3.pos);
                assert(head[0] == grammar::tok_at(cx, s.pos));
                assert(head[1] == grammar::tok_at(cx, s1.pos));
                assert(head[2] == grammar::tok_at(cx, s2.pos));
                init_body_spelled(cx, s.pos, s3, n, span);
                if !(inits && grammar::kind_at(cx, s3.pos) is LBrace) {
                    reveal_with_fuel(spells, 1);
                }
            }
        } else {
            let n = StructNameM::Unqualified(name);
            assert(range(cx, s.pos, s1.pos)[0] == grammar::tok_at(cx, s.pos));
            init_body_spelled(cx, s.pos, s1, n, span);
            if !(inits && grammar::kind_at(cx, s1.pos) is LBrace) {
                reveal_with_fuel(spells, 1);
            }
        }
    } else if k is I64 || k is F64 {
        if out.val is Some {
            let p = range(cx, s.pos, s.pos + 3);
            assert(p[0] == grammar::tok_at(cx, s.pos));
            assert(p[1] == grammar::tok_at(cx, s.pos + 1));
            assert(p[2] == grammar::tok_at(cx, s.pos + 2));
            reveal_with_fuel(spells, 1);
        }
    }
}

#[verifier::rlimit(60)]
#[verifier::spinoff_prover]
proof fn init_body_spelled(cx: InputM, a: nat, s: At, name: StructNameM, span: Span)
    requires
        all_genuine(cx.toks),
        a <= s.pos,
        spells_name(name, range(cx, a, s.pos)),
        span == place(grammar::tok_at(cx, a)),
    ensures
        grammar::init_body(cx, s, name, span).val matches Some(e) ==> spells(
            e,
            range(cx, a, s.pos + grammar::init_body(cx, s, name, span).adv),
            7,
        ),
    decreases grammar::left(cx, s.pos), 12nat,
{
    reveal(grammar::init_body);
    reveal(grammar::inits_rest);
    genuine_at(cx, s.pos);
    let o = grammar::expect(cx, s, TokenKindM::LBrace, "`{` to open struct initializer"@);
    if o.val is Some {
        let s1 = o.next(s);
        assert(range(cx, s1.pos, s1.pos) =~= Seq::empty());
        no_inits(range(cx, s1.pos, s1.pos));
        inits_rest_spelled(cx, s1.pos, s1, Seq::empty());
        let r = grammar::inits_rest(cx, s1, Seq::empty());
        let s2 = r.next(s1);
        genuine_at(cx, s2.pos);
        let out = grammar::init_body(cx, s, name, span);
        if out.val is Some {
            let end = s2.pos + 1;
            range_parts(cx, a, s.pos, end);
            range_inside(cx, a, s1.pos, s2.pos, end);
            assert(range(cx, a, end).last() == grammar::tok_at(cx, s2.pos));
            assert(range(cx, a, end)[0] == grammar::tok_at(cx, a));
            init_spells(name, r.val->0, span, range(cx, a, end), s.pos - a);
        }
    }
}

proof fn one_init_spells(f: (Seq<char>, ExprM), p: Seq<TokenM>)
    requires
        p.len() >= 2,
        p[0].kind is Ident,
        p[0].lexeme == f.0,
        reads(p[1], "="@),
        spells(f.1, p.skip(2), 0),
    ensures
        spells_init(f, p),
{
    reveal_with_fuel(spells, 1);
}

proof fn no_inits(p: Seq<TokenM>)
    requires
        p.len() == 0,
    ensures
        spells_init_list(Seq::empty(), p),
{
    reveal_with_fuel(spells_init_list, 1);
}

#[verifier::rlimit(60)]
#[verifier::spinoff_prover]
proof fn inits_rest_spelled(cx: InputM, a: nat, s: At, fields: Seq<(Seq<char>, ExprM)>)
    requires
        all_genuine(cx.toks),
        a <= s.pos,
        spells_init_list(fields, range(cx, a, s.pos)),
    ensures
        grammar::inits_rest(cx, s, fields).val matches Some(r) ==> spells_inits(
            r,
            range(cx, a, s.pos + grammar::inits_rest(cx, s, fields).adv),
        ),
    decreases grammar::left(cx, s.pos), 11nat,
{
    reveal(grammar::inits_rest);
    reveal(grammar::cast);
    let k = grammar::kind_at(cx, s.pos);
    closed_init_list(fields, range(cx, a, s.pos));
    if !(k is RBrace) && !(k is Eof) {
        let n = grammar::expect(cx, s, TokenKindM::Ident, "field name"@);
        let s1 = n.next(s);
        if n.val is Some {
            genuine_at(cx, s1.pos);
            let q = grammar::expect(
                cx,
                s1,
                TokenKindM::Eq,
                "`=` in struct field (fields use `=`, not `:`)"@,
            );
            let s2 = q.next(s1);
            if q.val is Some {
                cast_spelled(cx, s2, true);
                let r = grammar::cast(cx, s2, true);
                let s3 = r.next(s2);
                genuine_at(cx, s3.pos);
                if r.val is Some {
                    let f = (n.val->0.lexeme, r.val->0);
                    let now = fields.push(f);
                    let one = range(cx, s.pos, s3.pos);
                    range_parts(cx, s.pos, s2.pos, s3.pos);
                    assert(one[0] == grammar::tok_at(cx, s.pos));
                    assert(one[1] == grammar::tok_at(cx, s1.pos));
                    one_init_spells(f, one);
                    range_parts(cx, a, s.pos, s3.pos);
                    init_list_spells(fields, f, range(cx, a, s3.pos), s.pos - a);
                    if grammar::kind_at(cx, s3.pos) is Comma {
                        let s4 = grammar::skip(s3);
                        let w = range(cx, a, s4.pos);
                        range_parts(cx, a, s.pos, s4.pos);
                        range_inside(cx, a, s.pos, s3.pos, s4.pos);
                        assert(w.last() == grammar::tok_at(cx, s3.pos));
                        init_list_spells(fields, f, w, s.pos - a);
                        inits_rest_spelled(cx, a, s4, now);
                    }
                }
            }
        }
    }
}

/// An expression that is parsed spells the tokens that were taken for it.
pub proof fn parsed_expression_spells_its_tokens(cx: InputM, s: At)
    requires
        all_genuine(cx.toks),
    ensures
        grammar::expr(cx, s).val matches Some(e) ==> spells(
            e,
            range(cx, s.pos, s.pos + grammar::expr(cx, s).adv),
            0,
        ),
{
    cast_spelled(cx, s, true);
}

// ---------------------------------------------------------------------------
// Statements
// ---------------------------------------------------------------------------

/// The expression that a place to assign to is written as.
pub open spec fn lvalue_expr(l: LValueM) -> ExprM {
    match l {
        LValueM::Ident(n, span) => ast::untyped(ExprKindM::Ident(n), span),
        LValueM::Deref(e, span) => ast::untyped(ExprKindM::Deref { operand: Box::new(e) }, span),
        LValueM::Field(e, field, span) => ast::untyped(
            ExprKindM::Field { object: Box::new(e), field },
            span,
        ),
    }
}

/// A line of inline assembly, whose parts start on the source line `ln`.
#[verifier::opaque]
pub open spec fn spells_asm_line(line: Seq<AsmTokenM>, p: Seq<TokenM>, ln: nat) -> bool
    decreases line.len(),
{
    if line.len() == 0 {
        p.len() == 0
    } else {
        match line.last() {
            AsmTokenM::Raw(x) => {
                &&& p.len() >= 1 && p.last().lexeme == x && p.last().line == ln
                &&& spells_asm_line(line.drop_last(), p.drop_last(), ln)
            },
            AsmTokenM::Value(v) => {
                &&& p.len() >= 2 && reads(p[p.len() - 2], "%"@) && p[p.len() - 2].line == ln
                &&& p.last().kind is Ident && p.last().lexeme == v
                &&& spells_asm_line(line.drop_last(), p.take(p.len() - 2), ln)
            },
            AsmTokenM::Addr(v) => {
                &&& p.len() >= 2 && reads(p[p.len() - 2], "&"@) && p[p.len() - 2].line == ln
                &&& p.last().kind is Ident && p.last().lexeme == v
                &&& spells_asm_line(line.drop_last(), p.take(p.len() - 2), ln)
            },
        }
    }
}

/// Whether the last two of `n` lines stand on different source lines.
pub open spec fn apart(n: nat, l: nat, ln: nat) -> bool {
    n > 1 ==> l != ln
}

/// The lines of inline assembly, the last of which stands on the source line
/// `ln`. None is empty, and each stands on another source line than the one
/// before it.
#[verifier::opaque]
pub open spec fn spells_asm(lines: Seq<Seq<AsmTokenM>>, p: Seq<TokenM>, ln: nat) -> bool
    decreases lines.len(),
{
    if lines.len() == 0 {
        p.len() == 0
    } else {
        exists|i: int, l: nat|
            #![trigger p.take(i), apart(lines.len(), l, ln)]
            {
                &&& 0 <= i < p.len()
                &&& spells_asm(lines.drop_last(), p.take(i), l)
                &&& lines.last().len() > 0
                &&& spells_asm_line(lines.last(), p.skip(i), ln)
                &&& apart(lines.len(), l, ln)
            }
    }
}

pub open spec fn spells_asm_lines(lines: Seq<Seq<AsmTokenM>>, p: Seq<TokenM>) -> bool {
    exists|ln: nat| #[trigger] spells_asm(lines, p, ln)
}

#[verifier::opaque]
pub open spec fn spells_stmt(st: StmtM, p: Seq<TokenM>) -> bool
    decreases st,
{
    match st {
        StmtM::Let { name, ty, init, span } => {
            &&& p.len() >= 4 && reads(p[0], "let"@) && span == place(p[0])
            &&& p[1].kind is Ident && p[1].lexeme == name && reads(p.last(), ";"@)
            &&& exists|i: int|
                {
                    &&& 2 <= i < p.len() - 1 && reads(#[trigger] p[i], "="@)
                    &&& match ty {
                        None => i == 2,
                        Some(t) => i > 2 && reads(p[2], ":"@) && spells_type(t, p.subrange(3, i)),
                    }
                    &&& spells(init, p.subrange(i + 1, p.len() - 1), 0)
                }
        },
        StmtM::Assign { target, value, span } => {
            &&& p.len() >= 1 && reads(p.last(), ";"@) && span == place(p[0])
            &&& exists|i: int|
                0 <= i < p.len() - 1 && reads(#[trigger] p[i], "="@) && spells(
                    lvalue_expr(target),
                    p.take(i),
                    0,
                ) && spells(value, p.subrange(i + 1, p.len() - 1), 0)
        },
        StmtM::Return { value, span } => {
            &&& p.len() >= 2 && reads(p[0], "return"@) && reads(p.last(), ";"@)
            &&& span == place(p[0])
            &&& match value {
                None => p.len() == 2,
                Some(e) => spells(e, p.subrange(1, p.len() - 1), 0),
            }
        },
        StmtM::If { branches, else_block, span } => {
            &&& p.len() >= 1 && span == place(p[0])
            &&& exists|i: int|
                {
                    &&& 0 <= i <= p.len() && spells_branches(branches, #[trigger] p.take(i))
                    &&& match else_block {
                        None => i == p.len(),
                        Some(b) => i < p.len() && reads(p[i], "else"@) && spells_block(
                            b,
                            p.skip(i + 1),
                        ),
                    }
                }
        },
        StmtM::While { condition, body, span } => {
            &&& p.len() >= 1 && reads(p[0], "while"@) && span == place(p[0])
            &&& exists|i: int|
                1 <= i <= p.len() && spells(condition, #[trigger] p.subrange(1, i), 0)
                    && spells_block(body, p.skip(i))
        },
        StmtM::Break(span) => p.len() == 2 && reads(p[0], "break"@) && reads(p[1], ";"@) && span
            == place(p[0]),
        StmtM::Continue(span) => p.len() == 2 && reads(p[0], "continue"@) && reads(p[1], ";"@)
            && span == place(p[0]),
        StmtM::Expr(e) => p.len() >= 1 && reads(p.last(), ";"@) && spells(e, p.drop_last(), 0),
        StmtM::Asm { lines, span } => {
            &&& p.len() >= 4 && reads(p[0], "!"@) && reads(p[1], "asm"@) && reads(p[2], "{"@)
            &&& reads(p.last(), "}"@) && span == place(p[0])
            &&& spells_asm_lines(lines, p.subrange(3, p.len() - 1))
        },
    }
}

/// `if` with its condition and its block, and each `else if`.
#[verifier::opaque]
pub open spec fn spells_branches(branches: Seq<(ExprM, BlockM)>, p: Seq<TokenM>) -> bool
    decreases branches,
{
    if branches.len() == 0 {
        false
    } else if branches.len() == 1 {
        p.len() >= 1 && reads(p[0], "if"@) && spells_branch(branches.last(), p.skip(1))
    } else {
        exists|i: int|
            {
                &&& 0 <= i && i + 2 <= p.len()
                &&& spells_branches(branches.drop_last(), #[trigger] p.take(i))
                &&& reads(p[i], "else"@) && reads(p[i + 1], "if"@)
                &&& spells_branch(branches.last(), p.skip(i + 2))
            }
    }
}

#[verifier::opaque]
pub open spec fn spells_branch(b: (ExprM, BlockM), p: Seq<TokenM>) -> bool
    decreases b,
{
    exists|i: int|
        0 <= i <= p.len() && spells(b.0, #[trigger] p.take(i), 0) && spells_block(b.1, p.skip(i))
}

#[verifier::opaque]
pub open spec fn spells_block(b: BlockM, p: Seq<TokenM>) -> bool
    decreases b,
{
    &&& p.len() >= 2 && reads(p[0], "{"@) && reads(p.last(), "}"@)
    &&& spells_stmts(b.stmts, p.subrange(1, p.len() - 1))
}

#[verifier::opaque]
pub open spec fn spells_stmts(stmts: Seq<StmtM>, p: Seq<TokenM>) -> bool
    decreases stmts,
{
    if stmts.len() == 0 {
        p.len() == 0
    } else {
        exists|i: int|
            0 <= i <= p.len() && spells_stmts(stmts.drop_last(), #[trigger] p.take(i))
                && spells_stmt(stmts.last(), p.skip(i))
    }
}

/// Parsing from `s` was without a syntax error.
spec fn clean<T>(s: At, out: grammar::Out<T>) -> bool {
    out.val is Some && out.diags.len() == s.diags.len()
}

proof fn same_kind(e: ExprM, f: ExprM, p: Seq<TokenM>, lv: nat)
    requires
        spells(e, p, lv),
        e.kind == f.kind,
        e.span == f.span,
    ensures
        spells(f, p, lv),
    decreases p.len(),
{
    reveal_with_fuel(spells, 1);
    reveal_with_fuel(spells_args, 1);
    reveal_with_fuel(spells_list, 1);
    reveal_with_fuel(spells_inits, 1);
    reveal_with_fuel(spells_init_list, 1);
    if p.len() >= 2 && spells(e, p.subrange(1, p.len() - 1), 0) {
        same_kind(e, f, p.subrange(1, p.len() - 1), 0);
    }
}

#[verifier::rlimit(60)]
#[verifier::spinoff_prover]
proof fn let_spelled(cx: InputM, s: At)
    requires
        all_genuine(cx.toks),
        grammar::kind_at(cx, s.pos) is Let,
    ensures
        grammar::let_stmt(cx, s).val matches Some(x) ==> spells_stmt(
            x,
            range(cx, s.pos, s.pos + grammar::let_stmt(cx, s).adv),
        ),
{
    reveal(grammar::let_stmt);
    reveal_with_fuel(spells_stmt, 1);
    genuine_at(cx, s.pos);
    let s1 = grammar::skip(s);
    let n = grammar::expect(cx, s1, TokenKindM::Ident, "variable name"@);
    let s2 = n.next(s1);
    genuine_at(cx, s2.pos);
    type_spelled(cx, grammar::skip(s2));
    let t = grammar::opt_type(cx, s2);
    let s3 = t.next(s2);
    genuine_at(cx, s3.pos);
    let q = grammar::expect(cx, s3, TokenKindM::Eq, "`=` in let binding"@);
    let s4 = q.next(s3);
    cast_spelled(cx, s4, true);
    let r = grammar::expr(cx, s4);
    let s5 = r.next(s4);
    genuine_at(cx, s5.pos);
    let out = grammar::let_stmt(cx, s);
    if out.val is Some {
        let end = s5.pos + 1;
        let p = range(cx, s.pos, end);
        let i = s3.pos - s.pos;
        assert(p[0] == grammar::tok_at(cx, s.pos));
        assert(p[1] == grammar::tok_at(cx, s1.pos));
        assert(p[i] == grammar::tok_at(cx, s3.pos));
        assert(p.last() == grammar::tok_at(cx, s5.pos));
        range_inside(cx, s.pos, s4.pos, s5.pos, end);
        if grammar::kind_at(cx, s2.pos) is Colon {
            assert(p[2] == grammar::tok_at(cx, s2.pos));
            range_inside(cx, s.pos, grammar::skip(s2).pos, s3.pos, end);
        }
    }
}

proof fn return_spelled(cx: InputM, s: At)
    requires
        all_genuine(cx.toks),
        grammar::kind_at(cx, s.pos) is Return,
    ensures
        grammar::return_stmt(cx, s).val matches Some(x) ==> spells_stmt(
            x,
            range(cx, s.pos, s.pos + grammar::return_stmt(cx, s).adv),
        ),
{
    reveal(grammar::return_stmt);
    reveal_with_fuel(spells_stmt, 1);
    genuine_at(cx, s.pos);
    let s1 = grammar::skip(s);
    genuine_at(cx, s1.pos);
    cast_spelled(cx, s1, true);
    let r = grammar::expr(cx, s1);
    let s2 = r.next(s1);
    genuine_at(cx, s2.pos);
    let out = grammar::return_stmt(cx, s);
    if out.val is Some {
        let end = s.pos + out.adv;
        let p = range(cx, s.pos, end);
        assert(p[0] == grammar::tok_at(cx, s.pos));
        if grammar::kind_at(cx, s1.pos) is Semicolon {
            assert(p.last() == grammar::tok_at(cx, s1.pos));
        } else {
            assert(p.last() == grammar::tok_at(cx, s2.pos));
            range_inside(cx, s.pos, s1.pos, s2.pos, end);
        }
    }
}

#[verifier::rlimit(60)]
#[verifier::spinoff_prover]
proof fn expr_stmt_spelled(cx: InputM, s: At)
    requires
        all_genuine(cx.toks),
    ensures
        grammar::expr_stmt(cx, s).val matches Some(x) ==> spells_stmt(
            x,
            range(cx, s.pos, s.pos + grammar::expr_stmt(cx, s).adv),
        ),
{
    reveal(grammar::expr_stmt);
    reveal_with_fuel(spells_stmt, 1);
    cast_spelled(cx, s, true);
    let l = grammar::expr(cx, s);
    let s1 = l.next(s);
    genuine_at(cx, s1.pos);
    let s2 = grammar::skip(s1);
    cast_spelled(cx, s2, true);
    let r = grammar::expr(cx, s2);
    let s3 = r.next(s2);
    genuine_at(cx, s3.pos);
    let out = grammar::expr_stmt(cx, s);
    if out.val is Some {
        let e = l.val->0;
        let end = s.pos + out.adv;
        let p = range(cx, s.pos, end);
        if grammar::kind_at(cx, s1.pos) is Eq {
            let i = s1.pos - s.pos;
            assert(p[0] == grammar::tok_at(cx, s.pos));
            assert(p[i] == grammar::tok_at(cx, s1.pos));
            assert(p.last() == grammar::tok_at(cx, s3.pos));
            range_parts(cx, s.pos, s1.pos, end);
            range_inside(cx, s.pos, s2.pos, s3.pos, end);
            same_kind(e, lvalue_expr(grammar::target(e)->0), range(cx, s.pos, s1.pos), 0);
        } else {
            assert(p.last() == grammar::tok_at(cx, s1.pos));
            assert(p.drop_last() =~= range(cx, s.pos, s1.pos));
        }
    }
}

proof fn asm_lines_spell(
    lines: Seq<Seq<AsmTokenM>>,
    current: Seq<AsmTokenM>,
    p: Seq<TokenM>,
    i: int,
    l: nat,
    ln: nat,
)
    requires
        0 <= i < p.len(),
        spells_asm(lines, p.take(i), l),
        current.len() > 0,
        spells_asm_line(current, p.skip(i), ln),
        lines.len() > 0 ==> l != ln,
    ensures
        spells_asm(lines.push(current), p, ln),
{
    reveal_with_fuel(spells_asm, 1);
    assert(lines.push(current).drop_last() =~= lines);
    assert(apart(lines.push(current).len(), l, ln));
}

proof fn asm_line_grows(line: Seq<AsmTokenM>, t: AsmTokenM, p: Seq<TokenM>, n: int, ln: nat)
    requires
        0 <= n <= p.len(),
        spells_asm_line(line, p.take(n), ln),
        match t {
            AsmTokenM::Raw(x) => n + 1 == p.len() && p[n].lexeme == x && p[n].line == ln,
            AsmTokenM::Value(v) => {
                &&& n + 2 == p.len() && reads(p[n], "%"@) && p[n].line == ln
                &&& p[n + 1].kind is Ident && p[n + 1].lexeme == v
            },
            AsmTokenM::Addr(v) => {
                &&& n + 2 == p.len() && reads(p[n], "&"@) && p[n].line == ln
                &&& p[n + 1].kind is Ident && p[n + 1].lexeme == v
            },
        },
    ensures
        spells_asm_line(line.push(t), p, ln),
{
    reveal_with_fuel(spells_asm_line, 1);
    assert(line.push(t).drop_last() =~= line);
    assert(t is Raw ==> p.drop_last() =~= p.take(n));
}

/// Inline assembly whose first lines are spelled from `a` up to `m`, and whose
/// current line from there on.
#[verifier::rlimit(60)]
#[verifier::spinoff_prover]
proof fn asm_rest_spelled(
    cx: InputM,
    a: nat,
    m: nat,
    l: nat,
    s: At,
    lines: Seq<Seq<AsmTokenM>>,
    current: Seq<AsmTokenM>,
    last: Option<nat>,
)
    requires
        all_genuine(cx.toks),
        a <= m <= s.pos,
        spells_asm(lines, range(cx, a, m), l),
        match last {
            None => current.len() == 0 && m == s.pos && lines.len() == 0,
            Some(ln) => {
                &&& current.len() > 0 && m < s.pos
                &&& spells_asm_line(current, range(cx, m, s.pos), ln)
                &&& lines.len() > 0 ==> l != ln
            },
        },
    ensures
        grammar::asm_rest(cx, s, lines, current, last).val matches Some(r) ==> spells_asm_lines(
            r,
            range(cx, a, s.pos + grammar::asm_rest(cx, s, lines, current, last).adv),
        ),
    decreases grammar::left(cx, s.pos),
{
    reveal(grammar::asm_rest);
    let out = grammar::asm_rest(cx, s, lines, current, last);
    let t = grammar::tok_at(cx, s.pos);
    genuine_at(cx, s.pos);
    if last is Some {
        range_parts(cx, a, m, s.pos);
        asm_lines_spell(lines, current, range(cx, a, s.pos), m - a, l, last->0);
    }
    if !(t.kind is RBrace) && !(t.kind is Eof) {
        let fresh = last is Some && last->0 != t.line;
        let lines1 = if fresh {
            grammar::flushed(lines, current)
        } else {
            lines
        };
        let current1 = if fresh {
            Seq::empty()
        } else {
            current
        };
        let m1 = if fresh {
            s.pos
        } else {
            m
        };
        let l1 = if fresh {
            last->0
        } else {
            l
        };
        assert(spells_asm(lines1, range(cx, a, m1), l1));
        reveal_with_fuel(spells_asm_line, 1);
        assert(range(cx, s.pos, s.pos) =~= Seq::empty());
        assert(spells_asm_line(current1, range(cx, m1, s.pos), t.line));
        let s1 = grammar::skip(s);
        if t.kind is Percent || t.kind is Ampersand {
            let what = if t.kind is Percent {
                "variable name after `%`"@
            } else {
                "variable name after `&`"@
            };
            let n = grammar::expect(cx, s1, TokenKindM::Ident, what);
            if n.val is Some {
                let v = n.val->0.lexeme;
                let x = if t.kind is Percent {
                    AsmTokenM::Value(v)
                } else {
                    AsmTokenM::Addr(v)
                };
                let s2 = n.next(s1);
                range_parts(cx, m1, s.pos, s2.pos);
                range_parts(cx, m1, s1.pos, s2.pos);
                asm_line_grows(current1, x, range(cx, m1, s2.pos), s.pos - m1, t.line);
                asm_rest_spelled(cx, a, m1, l1, s2, lines1, current1.push(x), Some(t.line));
                let inner = grammar::asm_rest(cx, s2, lines1, current1.push(x), Some(t.line));
                assert(s.pos + out.adv == s2.pos + inner.adv);
                assert(out.val == inner.val);
            }
        } else {
            let x = AsmTokenM::Raw(t.lexeme);
            range_parts(cx, m1, s.pos, s1.pos);
            asm_line_grows(current1, x, range(cx, m1, s1.pos), s.pos - m1, t.line);
            asm_rest_spelled(cx, a, m1, l1, s1, lines1, current1.push(x), Some(t.line));
            let inner = grammar::asm_rest(cx, s1, lines1, current1.push(x), Some(t.line));
            assert(s.pos + out.adv == s1.pos + inner.adv);
            assert(out.val == inner.val);
        }
    } else {
        assert(out.adv == 0);
        if last is None {
            assert(spells_asm(out.val->0, range(cx, a, s.pos), l));
        } else {
            assert(spells_asm(out.val->0, range(cx, a, s.pos), last->0));
        }
    }
}

proof fn asm_spelled(cx: InputM, s: At)
    requires
        all_genuine(cx.toks),
        grammar::kind_at(cx, s.pos) is Bang,
        grammar::kind_at(cx, s.pos + 1) is Asm,
    ensures
        grammar::asm_stmt(cx, s).val matches Some(x) ==> spells_stmt(
            x,
            range(cx, s.pos, s.pos + grammar::asm_stmt(cx, s).adv),
        ),
{
    reveal(grammar::asm_stmt);
    genuine_at(cx, s.pos);
    genuine_at(cx, s.pos + 1);
    let s1 = grammar::skip(grammar::skip(s));
    genuine_at(cx, s1.pos);
    let o = grammar::expect(cx, s1, TokenKindM::LBrace, "`{` to open asm block"@);
    let s2 = o.next(s1);
    let out = grammar::asm_stmt(cx, s);
    if out.val is Some {
        assert(spells_asm(Seq::empty(), range(cx, s2.pos, s2.pos), 0)) by {
            reveal_with_fuel(spells_asm, 1);
        }
        asm_rest_spelled(cx, s2.pos, s2.pos, 0, s2, Seq::empty(), Seq::empty(), None);
        let r = grammar::asm_rest(cx, s2, Seq::empty(), Seq::empty(), None);
        let s3 = r.next(s2);
        genuine_at(cx, s3.pos);
        let end = s3.pos + 1;
        let p = range(cx, s.pos, end);
        assert(p[0] == grammar::tok_at(cx, s.pos));
        assert(p[1] == grammar::tok_at(cx, s.pos + 1));
        assert(p[2] == grammar::tok_at(cx, s1.pos));
        assert(p.last() == grammar::tok_at(cx, s3.pos));
        range_inside(cx, s.pos, s2.pos, s3.pos, end);
        reveal_with_fuel(spells_stmt, 1);
    }
}

proof fn block_spells(b: BlockM, p: Seq<TokenM>)
    requires
        p.len() >= 2,
        reads(p[0], "{"@),
        reads(p.last(), "}"@),
        spells_stmts(b.stmts, p.subrange(1, p.len() - 1)),
    ensures
        spells_block(b, p),
{
    reveal_with_fuel(spells_stmt, 1);
    reveal_with_fuel(spells_branches, 1);
    reveal_with_fuel(spells_branch, 1);
    reveal_with_fuel(spells_block, 1);
    reveal_with_fuel(spells_stmts, 1);
}

proof fn stmts_spell(stmts: Seq<StmtM>, x: StmtM, p: Seq<TokenM>, i: int)
    requires
        0 <= i <= p.len(),
        spells_stmts(stmts, p.take(i)),
        spells_stmt(x, p.skip(i)),
    ensures
        spells_stmts(stmts.push(x), p),
{
    reveal_with_fuel(spells_stmt, 1);
    reveal_with_fuel(spells_branches, 1);
    reveal_with_fuel(spells_branch, 1);
    reveal_with_fuel(spells_block, 1);
    reveal_with_fuel(spells_stmts, 1);
    assert(stmts.push(x).drop_last() =~= stmts);
}

proof fn no_stmts(p: Seq<TokenM>)
    requires
        p.len() == 0,
    ensures
        spells_stmts(Seq::empty(), p),
{
    reveal_with_fuel(spells_stmts, 1);
}

proof fn branch_spells(b: (ExprM, BlockM), p: Seq<TokenM>, i: int)
    requires
        0 <= i <= p.len(),
        spells(b.0, p.take(i), 0),
        spells_block(b.1, p.skip(i)),
    ensures
        spells_branch(b, p),
{
    reveal_with_fuel(spells_stmt, 1);
    reveal_with_fuel(spells_branches, 1);
    reveal_with_fuel(spells_branch, 1);
    reveal_with_fuel(spells_block, 1);
    reveal_with_fuel(spells_stmts, 1);
}

proof fn first_branch_spells(b: (ExprM, BlockM), p: Seq<TokenM>)
    requires
        p.len() >= 1,
        reads(p[0], "if"@),
        spells_branch(b, p.skip(1)),
    ensures
        spells_branches(seq![b], p),
{
    reveal_with_fuel(spells_stmt, 1);
    reveal_with_fuel(spells_branches, 1);
    reveal_with_fuel(spells_branch, 1);
    reveal_with_fuel(spells_block, 1);
    reveal_with_fuel(spells_stmts, 1);
}

proof fn next_branch_spells(
    branches: Seq<(ExprM, BlockM)>,
    b: (ExprM, BlockM),
    p: Seq<TokenM>,
    i: int,
)
    requires
        branches.len() > 0,
        0 <= i,
        i + 2 <= p.len(),
        spells_branches(branches, p.take(i)),
        reads(p[i], "else"@),
        reads(p[i + 1], "if"@),
        spells_branch(b, p.skip(i + 2)),
    ensures
        spells_branches(branches.push(b), p),
{
    reveal_with_fuel(spells_stmt, 1);
    reveal_with_fuel(spells_branches, 1);
    reveal_with_fuel(spells_branch, 1);
    reveal_with_fuel(spells_block, 1);
    reveal_with_fuel(spells_stmts, 1);
    assert(branches.push(b).drop_last() =~= branches);
    assert(branches.push(b).last() == b);
}

proof fn if_spells(
    branches: Seq<(ExprM, BlockM)>,
    else_block: Option<BlockM>,
    span: Span,
    p: Seq<TokenM>,
    i: int,
)
    requires
        p.len() >= 1,
        span == place(p[0]),
        0 <= i <= p.len(),
        spells_branches(branches, p.take(i)),
        match else_block {
            None => i == p.len(),
            Some(b) => i < p.len() && reads(p[i], "else"@) && spells_block(b, p.skip(i + 1)),
        },
    ensures
        spells_stmt((StmtM::If { branches, else_block, span }), p),
{
    reveal_with_fuel(spells_stmt, 1);
    reveal_with_fuel(spells_branches, 1);
    reveal_with_fuel(spells_branch, 1);
    reveal_with_fuel(spells_block, 1);
    reveal_with_fuel(spells_stmts, 1);
}

proof fn while_spells(condition: ExprM, body: BlockM, span: Span, p: Seq<TokenM>)
    requires
        p.len() >= 1,
        reads(p[0], "while"@),
        span == place(p[0]),
        spells_branch((condition, body), p.skip(1)),
    ensures
        spells_stmt((StmtM::While { condition, body, span }), p),
{
    reveal_with_fuel(spells_stmt, 1);
    reveal_with_fuel(spells_branches, 1);
    reveal_with_fuel(spells_branch, 1);
    reveal_with_fuel(spells_block, 1);
    reveal_with_fuel(spells_stmts, 1);
    let q = p.skip(1);
    let i = choose|i: int|
        0 <= i <= q.len() && spells(condition, #[trigger] q.take(i), 0) && spells_block(
            body,
            q.skip(i),
        );
    assert(p.subrange(1, i + 1) =~= q.take(i));
    assert(p.skip(i + 1) =~= q.skip(i));
}

#[verifier::rlimit(60)]
#[verifier::spinoff_prover]
proof fn block_spelled(cx: InputM, s: At)
    requires
        all_genuine(cx.toks),
    ensures
        clean(s, grammar::block(cx, s)) ==> spells_block(
            grammar::block(cx, s).val->0,
            range(cx, s.pos, s.pos + grammar::block(cx, s).adv),
        ),
    decreases grammar::left(cx, s.pos), 0nat,
{
    reveal(grammar::block);
    reveal(grammar::block_rest);
    genuine_at(cx, s.pos);
    let o = grammar::expect(cx, s, TokenKindM::LBrace, "`{`"@);
    if o.val is Some {
        let s1 = o.next(s);
        no_stmts(range(cx, s1.pos, s1.pos));
        stmts_spelled(cx, s1.pos, s1, Seq::empty());
        let r = grammar::block_rest(cx, s1, Seq::empty());
        let s2 = r.next(s1);
        genuine_at(cx, s2.pos);
        let out = grammar::block(cx, s);
        if clean(s, out) {
            let end = s2.pos + 1;
            let p = range(cx, s.pos, end);
            assert(p[0] == grammar::tok_at(cx, s.pos));
            assert(p.last() == grammar::tok_at(cx, s2.pos));
            range_inside(cx, s.pos, s1.pos, s2.pos, end);
            block_spells(out.val->0, p);
        }
    }
}

#[verifier::rlimit(60)]
#[verifier::spinoff_prover]
proof fn stmts_spelled(cx: InputM, a: nat, s: At, stmts: Seq<StmtM>)
    requires
        all_genuine(cx.toks),
        a <= s.pos,
        spells_stmts(stmts, range(cx, a, s.pos)),
    ensures
        clean(s, grammar::block_rest(cx, s, stmts)) ==> spells_stmts(
            grammar::block_rest(cx, s, stmts).val->0,
            range(cx, a, s.pos + grammar::block_rest(cx, s, stmts).adv),
        ),
    decreases grammar::left(cx, s.pos), 3nat,
{
    reveal(grammar::block_rest);
    reveal(grammar::stmt);
    let k = grammar::kind_at(cx, s.pos);
    if !(k is RBrace) && !(k is Eof) {
        syntax_laws::stmt_honest(cx, s);
        stmt_spelled(cx, s);
        grammar::stmt_progress(cx, s, stmts);
        let x = grammar::stmt(cx, s);
        let (s1, now) = grammar::after_stmt(cx, s, x, stmts);
        syntax_laws::block_rest_honest(cx, s1, now);
        if clean(s, grammar::block_rest(cx, s, stmts)) {
            range_parts(cx, a, s.pos, s1.pos);
            stmts_spell(stmts, x.val->0, range(cx, a, s1.pos), s.pos - a);
            stmts_spelled(cx, a, s1, now);
        }
    }
}

proof fn stmt_spelled(cx: InputM, s: At)
    requires
        all_genuine(cx.toks),
    ensures
        clean(s, grammar::stmt(cx, s)) ==> spells_stmt(
            grammar::stmt(cx, s).val->0,
            range(cx, s.pos, s.pos + grammar::stmt(cx, s).adv),
        ),
    decreases grammar::left(cx, s.pos), 2nat,
{
    reveal(grammar::stmt);
    reveal(grammar::if_stmt);
    reveal(grammar::while_stmt);
    let k = grammar::kind_at(cx, s.pos);
    genuine_at(cx, s.pos);
    genuine_at(cx, s.pos + 1);
    if k is Let {
        let_spelled(cx, s);
    } else if k is Return {
        return_spelled(cx, s);
    } else if k is If {
        if_spelled(cx, s);
    } else if k is While {
        while_spelled(cx, s);
    } else if k is Break || k is Continue {
        let p = range(cx, s.pos, s.pos + 2);
        assert(p[0] == grammar::tok_at(cx, s.pos));
        assert(p[1] == grammar::tok_at(cx, s.pos + 1));
        reveal_with_fuel(spells_stmt, 1);
    } else if k is Bang && grammar::kind_at(cx, s.pos + 1) is Asm {
        asm_spelled(cx, s);
    } else {
        expr_stmt_spelled(cx, s);
    }
}

proof fn branch_spelled(cx: InputM, s: At)
    requires
        all_genuine(cx.toks),
    ensures
        clean(s, grammar::branch(cx, s)) ==> spells_branch(
            grammar::branch(cx, s).val->0,
            range(cx, s.pos, s.pos + grammar::branch(cx, s).adv),
        ),
    decreases grammar::left(cx, s.pos), 1nat,
{
    reveal(grammar::branch);
    reveal(grammar::block);
    syntax_laws::cast_honest(cx, s, false);
    cast_spelled(cx, s, false);
    let r = grammar::cast(cx, s, false);
    let s1 = r.next(s);
    syntax_laws::block_honest(cx, s1);
    block_spelled(cx, s1);
    let out = grammar::branch(cx, s);
    if clean(s, out) {
        let end = s.pos + out.adv;
        range_parts(cx, s.pos, s1.pos, end);
        branch_spells(out.val->0, range(cx, s.pos, end), s1.pos - s.pos);
    }
}

proof fn while_spelled(cx: InputM, s: At)
    requires
        all_genuine(cx.toks),
        grammar::kind_at(cx, s.pos) is While,
    ensures
        clean(s, grammar::while_stmt(cx, s)) ==> spells_stmt(
            grammar::while_stmt(cx, s).val->0,
            range(cx, s.pos, s.pos + grammar::while_stmt(cx, s).adv),
        ),
    decreases grammar::left(cx, s.pos), 1nat,
{
    reveal(grammar::while_stmt);
    reveal(grammar::branch);
    genuine_at(cx, s.pos);
    let s1 = grammar::skip(s);
    branch_spelled(cx, s1);
    let b = grammar::branch(cx, s1);
    let out = grammar::while_stmt(cx, s);
    if clean(s, out) {
        let end = s.pos + out.adv;
        let p = range(cx, s.pos, end);
        range_parts(cx, s.pos, s1.pos, end);
        assert(p[0] == grammar::tok_at(cx, s.pos));
        while_spells((b.val->0).0, (b.val->0).1, grammar::span_at(cx, s.pos), p);
    }
}

#[verifier::rlimit(60)]
#[verifier::spinoff_prover]
proof fn if_spelled(cx: InputM, s: At)
    requires
        all_genuine(cx.toks),
        grammar::kind_at(cx, s.pos) is If,
    ensures
        clean(s, grammar::if_stmt(cx, s)) ==> spells_stmt(
            grammar::if_stmt(cx, s).val->0,
            range(cx, s.pos, s.pos + grammar::if_stmt(cx, s).adv),
        ),
    decreases grammar::left(cx, s.pos), 1nat,
{
    reveal(grammar::if_stmt);
    reveal(grammar::branch);
    reveal(grammar::if_rest);
    genuine_at(cx, s.pos);
    let s1 = grammar::skip(s);
    syntax_laws::branch_honest(cx, s1);
    branch_spelled(cx, s1);
    let b = grammar::branch(cx, s1);
    if b.val is Some {
        let s2 = b.next(s1);
        let one = seq![b.val->0];
        syntax_laws::if_rest_honest(cx, s2, one);
        let out = grammar::if_stmt(cx, s);
        if clean(s, out) {
            range_parts(cx, s.pos, s1.pos, s2.pos);
            assert(range(cx, s.pos, s2.pos)[0] == grammar::tok_at(cx, s.pos));
            first_branch_spells(b.val->0, range(cx, s.pos, s2.pos));
            if_rest_spelled(cx, s.pos, s2, one);
        }
    }
}

#[verifier::rlimit(60)]
#[verifier::spinoff_prover]
proof fn if_rest_spelled(cx: InputM, a: nat, s: At, branches: Seq<(ExprM, BlockM)>)
    requires
        all_genuine(cx.toks),
        a < s.pos,
        branches.len() > 0,
        spells_branches(branches, range(cx, a, s.pos)),
    ensures
        clean(s, grammar::if_rest(cx, s, branches)) ==> spells_stmt(
            (StmtM::If {
                branches: (grammar::if_rest(cx, s, branches).val->0).0,
                else_block: (grammar::if_rest(cx, s, branches).val->0).1,
                span: grammar::span_at(cx, a),
            }),
            range(cx, a, s.pos + grammar::if_rest(cx, s, branches).adv),
        ),
    decreases grammar::left(cx, s.pos), 0nat,
{
    reveal(grammar::if_rest);
    reveal(grammar::branch);
    reveal(grammar::block);
    genuine_at(cx, s.pos);
    genuine_at(cx, s.pos + 1);
    let out = grammar::if_rest(cx, s, branches);
    let span = grammar::span_at(cx, a);
    if grammar::kind_at(cx, s.pos) is Else {
        let s1 = grammar::skip(s);
        if grammar::kind_at(cx, s1.pos) is If {
            let s2 = grammar::skip(s1);
            syntax_laws::branch_honest(cx, s2);
            branch_spelled(cx, s2);
            let b = grammar::branch(cx, s2);
            if b.val is Some {
                let s3 = b.next(s2);
                let now = branches.push(b.val->0);
                syntax_laws::if_rest_honest(cx, s3, now);
                if clean(s, out) {
                    let p = range(cx, a, s3.pos);
                    range_parts(cx, a, s.pos, s3.pos);
                    range_parts(cx, a, s2.pos, s3.pos);
                    assert(p[s1.pos - a] == grammar::tok_at(cx, s1.pos));
                    next_branch_spells(branches, b.val->0, p, s.pos - a);
                    if_rest_spelled(cx, a, s3, now);
                }
            }
        } else {
            block_spelled(cx, s1);
            let b = grammar::block(cx, s1);
            if clean(s, out) {
                let end = s.pos + out.adv;
                let p = range(cx, a, end);
                range_parts(cx, a, s.pos, end);
                range_parts(cx, a, s1.pos, end);
                assert(p[0] == grammar::tok_at(cx, a));
                if_spells(branches, Some(b.val->0), span, p, s.pos - a);
            }
        }
    } else {
        let p = range(cx, a, s.pos);
        range_parts(cx, a, s.pos, s.pos);
        assert(p[0] == grammar::tok_at(cx, a));
        if_spells(branches, None, span, p, s.pos - a);
    }
}

// ---------------------------------------------------------------------------
// Items
// ---------------------------------------------------------------------------

pub open spec fn spells_param(x: ParamM, p: Seq<TokenM>) -> bool {
    &&& p.len() >= 2 && x.span == place(p[0])
    &&& match x.kind {
        ParamKindM::Named { name, ty } => p[0].kind is Ident && p[0].lexeme == name && reads(
            p[1],
            ":"@,
        ) && spells_type(ty, p.skip(2)),
        ParamKindM::SelfRef => p.len() == 2 && reads(p[0], "&"@) && reads(p[1], "self"@),
        ParamKindM::SelfMutRef => p.len() == 3 && reads(p[0], "&"@) && reads(p[1], "mut"@)
            && reads(p[2], "self"@),
        ParamKindM::SelfMove => p.len() == 2 && reads(p[0], "move"@) && reads(p[1], "self"@),
    }
}

/// The parameters, each followed by a comma.
pub open spec fn spells_param_list(params: Seq<ParamM>, p: Seq<TokenM>) -> bool
    decreases params.len(),
{
    if params.len() == 0 {
        p.len() == 0
    } else {
        &&& p.len() >= 1 && reads(p.last(), ","@)
        &&& exists|i: int|
            0 <= i < p.len() && spells_param_list(params.drop_last(), #[trigger] p.take(i))
                && spells_param(params.last(), p.subrange(i, p.len() - 1))
    }
}

/// The parameters, each but the last followed by a comma.
pub open spec fn spells_params(params: Seq<ParamM>, p: Seq<TokenM>) -> bool {
    ||| spells_param_list(params, p)
    ||| params.len() > 0 && exists|i: int|
        0 <= i <= p.len() && spells_param_list(params.drop_last(), #[trigger] p.take(i))
            && spells_param(params.last(), p.skip(i))
}

#[verifier::opaque]
pub open spec fn spells_fn(f: FnDeclM, p: Seq<TokenM>) -> bool {
    &&& p.len() >= 3 && reads(p[0], "fn"@) && p[1].kind is Ident && p[1].lexeme == f.name
    &&& reads(p[2], "("@) && f.span == place(p[0])
    &&& exists|i: int, j: int|
        {
            &&& 3 <= i < j <= p.len()
            &&& reads(#[trigger] p[i], ")"@)
            &&& spells_params(f.params, p.subrange(3, i))
            &&& spells_type(f.return_type, #[trigger] p.subrange(i + 1, j))
            &&& spells_block(f.body, p.skip(j))
        }
}

#[verifier::opaque]
pub open spec fn spells_field(f: FieldDeclM, p: Seq<TokenM>) -> bool {
    &&& p.len() >= 3 && p[0].kind is Ident && p[0].lexeme == f.name && f.span == place(p[0])
    &&& reads(p[1], ":"@) && reads(p.last(), ","@)
    &&& spells_type(f.ty, p.subrange(2, p.len() - 1))
}

/// The fields and methods of a struct, each in its own order.
#[verifier::opaque]
pub open spec fn spells_members(
    fields: Seq<FieldDeclM>,
    methods: Seq<FnDeclM>,
    p: Seq<TokenM>,
) -> bool
    decreases fields.len() + methods.len(),
{
    if fields.len() == 0 && methods.len() == 0 {
        p.len() == 0
    } else {
        ||| fields.len() > 0 && exists|i: int|
            0 <= i <= p.len() && spells_members(
                fields.drop_last(),
                methods,
                #[trigger] p.take(i),
            ) && spells_field(fields.last(), p.skip(i))
        ||| methods.len() > 0 && exists|i: int|
            0 <= i <= p.len() && spells_members(
                fields,
                methods.drop_last(),
                #[trigger] p.take(i),
            ) && spells_fn(methods.last(), p.skip(i))
    }
}

pub open spec fn spells_struct(d: StructDeclM, p: Seq<TokenM>) -> bool {
    &&& p.len() >= 4 && reads(p[0], "struct"@) && p[1].kind is Ident && p[1].lexeme == d.name
    &&& reads(p[2], "{"@) && reads(p.last(), "}"@) && d.span == place(p[0])
    &&& spells_members(d.fields, d.methods, p.subrange(3, p.len() - 1))
}

pub open spec fn spells_extend(d: ExtendDeclM, p: Seq<TokenM>) -> bool {
    let n: int = if d.module is Some {
        4
    } else {
        2
    };
    &&& p.len() >= n + 2 && reads(p[0], "extend"@) && d.span == place(p[0])
    &&& reads(p[n], "{"@) && reads(p.last(), "}"@)
    &&& match d.module {
        None => reads(p[1], d.name),
        Some(m) => reads(p[1], m) && reads(p[2], "::"@) && p[3].kind is Ident && p[3].lexeme
            == d.name,
    }
    &&& spells_members(Seq::empty(), d.methods, p.subrange(n + 1, p.len() - 1))
}

pub open spec fn spells_import(d: ImportKindM, p: Seq<TokenM>) -> bool {
    &&& p.len() >= 3 && reads(p[0], "import"@) && reads(p.last(), ";"@) && p[1].kind is Ident
    &&& match d {
        ImportKindM::Module { name } => p.len() == 3 && p[1].lexeme == name,
        ImportKindM::Glob { module } => p.len() == 5 && p[1].lexeme == module && reads(
            p[2],
            "::"@,
        ) && reads(p[3], "*"@),
        ImportKindM::Named { module, name, alias } => {
            &&& p.len() == if alias is Some {
                7int
            } else {
                5
            }
            &&& p[1].lexeme == module && reads(p[2], "::"@)
            &&& p[3].kind is Ident && p[3].lexeme == name
            &&& match alias {
                None => true,
                Some(x) => reads(p[4], "as"@) && p[5].kind is Ident && p[5].lexeme == x,
            }
        },
    }
}

pub open spec fn spells_item(x: ItemM, p: Seq<TokenM>) -> bool {
    match x {
        ItemM::Fn(f) => spells_fn(f, p),
        ItemM::Struct(d) => spells_struct(d, p),
        ItemM::Extend(d) => spells_extend(d, p),
        ItemM::Import(d) => spells_import(d, p),
    }
}

#[verifier::opaque]
pub open spec fn spells_items(items: Seq<ItemM>, p: Seq<TokenM>) -> bool
    decreases items.len(),
{
    if items.len() == 0 {
        p.len() == 0
    } else {
        exists|i: int|
            0 <= i <= p.len() && spells_items(items.drop_last(), #[trigger] p.take(i))
                && spells_item(items.last(), p.skip(i))
    }
}

proof fn param_spelled(cx: InputM, s: At)
    requires
        all_genuine(cx.toks),
    ensures
        grammar::param(cx, s).val matches Some(x) ==> spells_param(
            x,
            range(cx, s.pos, s.pos + grammar::param(cx, s).adv),
        ),
{
    reveal(grammar::param);
    genuine_at(cx, s.pos);
    genuine_at(cx, s.pos + 1);
    genuine_at(cx, s.pos + 2);
    let out = grammar::param(cx, s);
    let s1 = grammar::skip(s);
    let c = grammar::expect(cx, s1, TokenKindM::Colon, "`:` after parameter name"@);
    let s2 = c.next(s1);
    type_spelled(cx, s2);
    if out.val is Some {
        let end = s.pos + out.adv;
        let p = range(cx, s.pos, end);
        assert(p[0] == grammar::tok_at(cx, s.pos));
        if grammar::kind_at(cx, s.pos) is Ident {
            range_parts(cx, s.pos, s2.pos, end);
            assert(p[1] == grammar::tok_at(cx, s1.pos));
            type_takes_a_token(cx, s2);
        } else {
            assert(p[1] == grammar::tok_at(cx, s1.pos));
            if grammar::kind_at(cx, s1.pos) is Mut {
                assert(p[2] == grammar::tok_at(cx, s.pos + 2));
            }
        }
    }
}

proof fn type_takes_a_token(cx: InputM, s: At)
    ensures
        grammar::type_expr(cx, s).val is Some ==> grammar::type_expr(cx, s).adv > 0,
{
    reveal(grammar::type_expr);
}

proof fn params_spell(params: Seq<ParamM>, x: ParamM, p: Seq<TokenM>, i: int)
    requires
        0 <= i <= p.len(),
        spells_param_list(params, p.take(i)),
    ensures
        spells_param(x, p.skip(i)) ==> spells_params(params.push(x), p),
        i < p.len() && reads(p.last(), ","@) && spells_param(x, p.subrange(i, p.len() - 1))
            ==> spells_param_list(params.push(x), p),
{
    assert(params.push(x).drop_last() =~= params);
}

proof fn params_rest_spelled(cx: InputM, a: nat, s: At, params: Seq<ParamM>)
    requires
        all_genuine(cx.toks),
        a <= s.pos,
        spells_param_list(params, range(cx, a, s.pos)),
    ensures
        grammar::params_rest(cx, s, params).val matches Some(x) ==> spells_params(
            x,
            range(cx, a, s.pos + grammar::params_rest(cx, s, params).adv),
        ),
    decreases grammar::left(cx, s.pos),
{
    reveal(grammar::params_rest);
    param_spelled(cx, s);
    let r = grammar::param(cx, s);
    let s1 = r.next(s);
    genuine_at(cx, s1.pos);
    if r.val is Some {
        let now = params.push(r.val->0);
        range_parts(cx, a, s.pos, s1.pos);
        params_spell(params, r.val->0, range(cx, a, s1.pos), s.pos - a);
        if grammar::kind_at(cx, s1.pos) is Comma {
            let s2 = grammar::skip(s1);
            let q = range(cx, a, s2.pos);
            range_parts(cx, a, s.pos, s2.pos);
            range_inside(cx, a, s.pos, s1.pos, s2.pos);
            assert(q.last() == grammar::tok_at(cx, s1.pos));
            params_spell(params, r.val->0, q, s.pos - a);
            params_rest_spelled(cx, a, s2, now);
        }
    }
}

#[verifier::rlimit(60)]
#[verifier::spinoff_prover]
proof fn fn_spelled(cx: InputM, s: At)
    requires
        all_genuine(cx.toks),
        grammar::kind_at(cx, s.pos) is Fn,
    ensures
        clean(s, grammar::fn_decl(cx, s)) ==> spells_fn(
            grammar::fn_decl(cx, s).val->0,
            range(cx, s.pos, s.pos + grammar::fn_decl(cx, s).adv),
        ),
{
    reveal(grammar::fn_decl);
    genuine_at(cx, s.pos);
    let s1 = grammar::skip(s);
    let n = grammar::expect(cx, s1, TokenKindM::Ident, "function name"@);
    let s2 = n.next(s1);
    genuine_at(cx, s2.pos);
    let o = grammar::expect(cx, s2, TokenKindM::LParen, "`(`"@);
    let s3 = o.next(s2);
    assert(range(cx, s3.pos, s3.pos) =~= Seq::empty());
    params_rest_spelled(cx, s3.pos, s3, Seq::empty());
    syntax_laws::params_rest_honest(cx, s3, Seq::empty());
    let ps = grammar::params(cx, s3);
    let s4 = ps.next(s3);
    genuine_at(cx, s4.pos);
    let c = grammar::expect(cx, s4, TokenKindM::RParen, "`)`"@);
    let s5 = c.next(s4);
    syntax_laws::type_expr_honest(cx, s5);
    type_spelled(cx, s5);
    type_takes_a_token(cx, s5);
    let t = grammar::type_expr(cx, s5);
    let s6 = t.next(s5);
    syntax_laws::block_honest(cx, s6);
    block_spelled(cx, s6);
    let out = grammar::fn_decl(cx, s);
    if clean(s, out) {
        let end = s.pos + out.adv;
        let p = range(cx, s.pos, end);
        let i = s4.pos - s.pos;
        let j = s6.pos - s.pos;
        assert(p[0] == grammar::tok_at(cx, s.pos));
        assert(p[1] == grammar::tok_at(cx, s1.pos));
        assert(p[2] == grammar::tok_at(cx, s2.pos));
        assert(p[i] == grammar::tok_at(cx, s4.pos));
        range_inside(cx, s.pos, s3.pos, s4.pos, end);
        range_inside(cx, s.pos, s5.pos, s6.pos, end);
        range_parts(cx, s.pos, s6.pos, end);
        reveal(spells_fn);
        assert(reads(p[i], ")"@));
        assert(spells_params(out.val->0.params, p.subrange(3, i)));
        assert(spells_type(out.val->0.return_type, p.subrange(i + 1, j)));
    }
}

proof fn field_spelled(cx: InputM, s: At)
    requires
        all_genuine(cx.toks),
        grammar::kind_at(cx, s.pos) is Ident,
    ensures
        grammar::field_decl(cx, s).val matches Some(f) ==> spells_field(
            f,
            range(cx, s.pos, s.pos + grammar::field_decl(cx, s).adv),
        ),
{
    reveal(grammar::field_decl);
    reveal(spells_field);
    let s1 = grammar::skip(s);
    genuine_at(cx, s1.pos);
    let c = grammar::expect(cx, s1, TokenKindM::Colon, "`:` after field name"@);
    let s2 = c.next(s1);
    type_spelled(cx, s2);
    let t = grammar::type_expr(cx, s2);
    let s3 = t.next(s2);
    genuine_at(cx, s3.pos);
    let out = grammar::field_decl(cx, s);
    if out.val is Some {
        let end = s3.pos + 1;
        let p = range(cx, s.pos, end);
        assert(p[0] == grammar::tok_at(cx, s.pos));
        assert(p[1] == grammar::tok_at(cx, s1.pos));
        assert(p.last() == grammar::tok_at(cx, s3.pos));
        range_inside(cx, s.pos, s2.pos, s3.pos, end);
    }
}

proof fn field_joins(
    fields: Seq<FieldDeclM>,
    methods: Seq<FnDeclM>,
    f: FieldDeclM,
    p: Seq<TokenM>,
    i: int,
)
    requires
        0 <= i <= p.len(),
        spells_members(fields, methods, p.take(i)),
        spells_field(f, p.skip(i)),
    ensures
        spells_members(fields.push(f), methods, p),
{
    reveal_with_fuel(spells_members, 1);
    assert(fields.push(f).drop_last() =~= fields);
}

proof fn method_joins(
    fields: Seq<FieldDeclM>,
    methods: Seq<FnDeclM>,
    f: FnDeclM,
    p: Seq<TokenM>,
    i: int,
)
    requires
        0 <= i <= p.len(),
        spells_members(fields, methods, p.take(i)),
        spells_fn(f, p.skip(i)),
    ensures
        spells_members(fields, methods.push(f), p),
{
    reveal_with_fuel(spells_members, 1);
    assert(methods.push(f).drop_last() =~= methods);
}

proof fn no_members(p: Seq<TokenM>)
    requires
        p.len() == 0,
    ensures
        spells_members(Seq::empty(), Seq::empty(), p),
{
    reveal_with_fuel(spells_members, 1);
}

#[verifier::rlimit(60)]
#[verifier::spinoff_prover]
proof fn struct_rest_spelled(
    cx: InputM,
    a: nat,
    s: At,
    fields: Seq<FieldDeclM>,
    methods: Seq<FnDeclM>,
)
    requires
        all_genuine(cx.toks),
        a <= s.pos,
        spells_members(fields, methods, range(cx, a, s.pos)),
    ensures
        clean(s, grammar::struct_rest(cx, s, fields, methods)) ==> spells_members(
            (grammar::struct_rest(cx, s, fields, methods).val->0).0,
            (grammar::struct_rest(cx, s, fields, methods).val->0).1,
            range(cx, a, s.pos + grammar::struct_rest(cx, s, fields, methods).adv),
        ),
    decreases grammar::left(cx, s.pos),
{
    reveal(grammar::struct_rest);
    reveal(grammar::fn_decl);
    reveal(grammar::field_decl);
    let k = grammar::kind_at(cx, s.pos);
    if k is Fn {
        syntax_laws::fn_decl_honest(cx, s);
        fn_spelled(cx, s);
        let r = grammar::fn_decl(cx, s);
        if r.val is Some {
            let s1 = r.next(s);
            syntax_laws::struct_rest_honest(cx, s1, fields, methods.push(r.val->0));
            if clean(s, grammar::struct_rest(cx, s, fields, methods)) {
                range_parts(cx, a, s.pos, s1.pos);
                method_joins(fields, methods, r.val->0, range(cx, a, s1.pos), s.pos - a);
                struct_rest_spelled(cx, a, s1, fields, methods.push(r.val->0));
            }
        }
    } else if k is Ident {
        syntax_laws::field_decl_honest(cx, s);
        field_spelled(cx, s);
        let r = grammar::field_decl(cx, s);
        if r.val is Some {
            let s1 = r.next(s);
            syntax_laws::struct_rest_honest(cx, s1, fields.push(r.val->0), methods);
            if clean(s, grammar::struct_rest(cx, s, fields, methods)) {
                range_parts(cx, a, s.pos, s1.pos);
                field_joins(fields, methods, r.val->0, range(cx, a, s1.pos), s.pos - a);
                struct_rest_spelled(cx, a, s1, fields.push(r.val->0), methods);
            }
        }
    }
}

#[verifier::rlimit(60)]
#[verifier::spinoff_prover]
proof fn extend_rest_spelled(cx: InputM, a: nat, s: At, methods: Seq<FnDeclM>)
    requires
        all_genuine(cx.toks),
        a <= s.pos,
        spells_members(Seq::empty(), methods, range(cx, a, s.pos)),
    ensures
        clean(s, grammar::extend_rest(cx, s, methods)) ==> spells_members(
            Seq::empty(),
            grammar::extend_rest(cx, s, methods).val->0,
            range(cx, a, s.pos + grammar::extend_rest(cx, s, methods).adv),
        ),
    decreases grammar::left(cx, s.pos),
{
    reveal(grammar::extend_rest);
    reveal(grammar::fn_decl);
    if grammar::kind_at(cx, s.pos) is Fn {
        syntax_laws::fn_decl_honest(cx, s);
        fn_spelled(cx, s);
        let r = grammar::fn_decl(cx, s);
        if r.val is Some {
            let s1 = r.next(s);
            syntax_laws::extend_rest_honest(cx, s1, methods.push(r.val->0));
            if clean(s, grammar::extend_rest(cx, s, methods)) {
                range_parts(cx, a, s.pos, s1.pos);
                method_joins(Seq::empty(), methods, r.val->0, range(cx, a, s1.pos), s.pos - a);
                extend_rest_spelled(cx, a, s1, methods.push(r.val->0));
            }
        }
    }
}

#[verifier::rlimit(60)]
#[verifier::spinoff_prover]
proof fn struct_spelled(cx: InputM, s: At)
    requires
        all_genuine(cx.toks),
        grammar::kind_at(cx, s.pos) is Struct,
    ensures
        clean(s, grammar::struct_decl(cx, s)) ==> spells_struct(
            grammar::struct_decl(cx, s).val->0,
            range(cx, s.pos, s.pos + grammar::struct_decl(cx, s).adv),
        ),
{
    reveal(grammar::struct_decl);
    genuine_at(cx, s.pos);
    let s1 = grammar::skip(s);
    let n = grammar::expect(cx, s1, TokenKindM::Ident, "struct name"@);
    let s2 = n.next(s1);
    genuine_at(cx, s2.pos);
    let o = grammar::expect(cx, s2, TokenKindM::LBrace, "`{`"@);
    let s3 = o.next(s2);
    no_members(range(cx, s3.pos, s3.pos));
    struct_rest_spelled(cx, s3.pos, s3, Seq::empty(), Seq::empty());
    let r = grammar::struct_rest(cx, s3, Seq::empty(), Seq::empty());
    let s4 = r.next(s3);
    genuine_at(cx, s4.pos);
    let out = grammar::struct_decl(cx, s);
    if clean(s, out) {
        let end = s4.pos + 1;
        let p = range(cx, s.pos, end);
        assert(p[0] == grammar::tok_at(cx, s.pos));
        assert(p[1] == grammar::tok_at(cx, s1.pos));
        assert(p[2] == grammar::tok_at(cx, s2.pos));
        assert(p.last() == grammar::tok_at(cx, s4.pos));
        range_inside(cx, s.pos, s3.pos, s4.pos, end);
    }
}

#[verifier::rlimit(60)]
#[verifier::spinoff_prover]
proof fn extend_spelled(cx: InputM, s: At)
    requires
        all_genuine(cx.toks),
        grammar::kind_at(cx, s.pos) is Extend,
    ensures
        clean(s, grammar::extend_decl(cx, s)) ==> spells_extend(
            grammar::extend_decl(cx, s).val->0,
            range(cx, s.pos, s.pos + grammar::extend_decl(cx, s).adv),
        ),
{
    reveal(grammar::extend_decl);
    genuine_at(cx, s.pos);
    genuine_at(cx, s.pos + 1);
    genuine_at(cx, s.pos + 2);
    let s1 = grammar::skip(s);
    let g = grammar::extend_target(cx, s1);
    let s2 = g.next(s1);
    genuine_at(cx, s2.pos);
    let o = grammar::expect(cx, s2, TokenKindM::LBrace, "`{`"@);
    let s3 = o.next(s2);
    no_members(range(cx, s3.pos, s3.pos));
    extend_rest_spelled(cx, s3.pos, s3, Seq::empty());
    let r = grammar::extend_rest(cx, s3, Seq::empty());
    let s4 = r.next(s3);
    genuine_at(cx, s4.pos);
    let out = grammar::extend_decl(cx, s);
    if clean(s, out) {
        let end = s4.pos + 1;
        let p = range(cx, s.pos, end);
        assert(p[0] == grammar::tok_at(cx, s.pos));
        assert(p[1] == grammar::tok_at(cx, s1.pos));
        if out.val->0.module is Some {
            assert(p[2] == grammar::tok_at(cx, s.pos + 2));
            assert(p[3] == grammar::tok_at(cx, s.pos + 3));
        }
        assert(p[s2.pos - s.pos] == grammar::tok_at(cx, s2.pos));
        assert(p.last() == grammar::tok_at(cx, s4.pos));
        range_inside(cx, s.pos, s3.pos, s4.pos, end);
    }
}

#[verifier::rlimit(60)]
#[verifier::spinoff_prover]
proof fn import_spelled(cx: InputM, s: At)
    requires
        all_genuine(cx.toks),
        grammar::kind_at(cx, s.pos) is Import,
    ensures
        grammar::import(cx, s).val matches Some(d) ==> spells_import(
            d,
            range(cx, s.pos, s.pos + grammar::import(cx, s).adv),
        ),
{
    reveal(grammar::import);
    genuine_at(cx, s.pos);
    genuine_at(cx, s.pos + 1);
    genuine_at(cx, s.pos + 2);
    genuine_at(cx, s.pos + 3);
    genuine_at(cx, s.pos + 4);
    genuine_at(cx, s.pos + 5);
    genuine_at(cx, s.pos + 6);
    let out = grammar::import(cx, s);
    if out.val is Some {
        let p = range(cx, s.pos, s.pos + out.adv);
        assert(p[0] == grammar::tok_at(cx, s.pos));
        assert(p[1] == grammar::tok_at(cx, s.pos + 1));
        assert(p[2] == grammar::tok_at(cx, s.pos + 2));
        assert(p.last() == grammar::tok_at(cx, (s.pos + out.adv - 1) as nat));
        if out.adv >= 5 {
            assert(p[3] == grammar::tok_at(cx, s.pos + 3));
            assert(p[4] == grammar::tok_at(cx, s.pos + 4));
        }
        if out.adv == 7 {
            assert(p[5] == grammar::tok_at(cx, s.pos + 5));
        }
    }
}

proof fn item_spelled(cx: InputM, s: At)
    requires
        all_genuine(cx.toks),
    ensures
        clean(s, grammar::item(cx, s)) ==> spells_item(
            grammar::item(cx, s).val->0,
            range(cx, s.pos, s.pos + grammar::item(cx, s).adv),
        ),
{
    reveal(grammar::item);
    let k = grammar::kind_at(cx, s.pos);
    if k is Import {
        import_spelled(cx, s);
    } else if k is Struct {
        struct_spelled(cx, s);
    } else if k is Fn {
        fn_spelled(cx, s);
    } else if k is Extend {
        extend_spelled(cx, s);
    }
}

proof fn items_spell(items: Seq<ItemM>, x: ItemM, p: Seq<TokenM>, i: int)
    requires
        0 <= i <= p.len(),
        spells_items(items, p.take(i)),
        spells_item(x, p.skip(i)),
    ensures
        spells_items(items.push(x), p),
{
    reveal_with_fuel(spells_items, 1);
    assert(items.push(x).drop_last() =~= items);
}

proof fn items_spelled(cx: InputM, s: At, items: Seq<ItemM>)
    requires
        all_genuine(cx.toks),
        spells_items(items, range(cx, 0, s.pos)),
    ensures
        grammar::items_rest(cx, s, items).1.len() == s.diags.len() ==> exists|end: nat|
            #[trigger] grammar::kind_at(cx, end) is Eof && s.pos <= end && spells_items(
                grammar::items_rest(cx, s, items).0,
                range(cx, 0, end),
            ),
    decreases grammar::left(cx, s.pos),
{
    reveal(grammar::items_rest);
    if !(grammar::kind_at(cx, s.pos) is Eof) {
        syntax_laws::item_honest(cx, s);
        item_spelled(cx, s);
        grammar::item_progress(cx, s, items);
        let r = grammar::item(cx, s);
        let (s1, now) = grammar::after_item(cx, s, items);
        syntax_laws::items_rest_honest(cx, s1, now);
        if grammar::items_rest(cx, s, items).1.len() == s.diags.len() {
            range_parts(cx, 0, s.pos, s1.pos);
            items_spell(items, r.val->0, range(cx, 0, s1.pos), s.pos as int);
            items_spelled(cx, s1, now);
        }
    }
}

/// A program that is parsed spells all of its tokens, up to the end of the input.
pub proof fn parsed_program_spells_its_tokens(cx: InputM)
    requires
        all_genuine(cx.toks),
        grammar::program(cx).1.len() == 0,
    ensures
        exists|end: nat| #[trigger]
            grammar::kind_at(cx, end) is Eof && spells_items(
                grammar::program(cx).0,
                range(cx, 0, end),
            ),
{
    reveal_with_fuel(spells_items, 1);
    assert(range(cx, 0, 0) =~= Seq::empty());
    items_spelled(cx, grammar::start(), Seq::empty());
}

} // verus!
