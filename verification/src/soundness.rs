//! What holds of every program that the type checker accepts.

use vstd::prelude::*;

use crate::ast;
use crate::ast::{
    BlockM, ExprKindM, ExprM, FnDeclM, ItemM, LValueM, ProgramM, Span, StmtM, StructNameM, TypeM,
};
use crate::error;
use crate::error::DiagM;
use crate::init_order;
use crate::typing;
use crate::typing::{
    CastM, CheckM, Checked, EnvM, FnM, ModuleInfoM, Rewritten, StructInfoM, UnitM,
};

verus! {

// ---------------------------------------------------------------------------
// Finished trees
// ---------------------------------------------------------------------------

/// An expression that is ready for code generation: it and all its parts have
/// types, there are no casts left, operators only where they are machine
/// operations, and literals only as machine values.
pub open spec fn finished(e: ExprM, raw: bool) -> bool
    decreases e,
{
    e.ty is Some && match e.kind {
        ExprKindM::Unary { operand, .. } => raw && finished(*operand, raw),
        ExprKindM::Binary { left, right, .. } => raw && finished(*left, raw) && finished(
            *right,
            raw,
        ),
        ExprKindM::Cast { .. } => false,
        ExprKindM::Call { callee, args } => finished(*callee, raw) && all_finished(args, raw),
        ExprKindM::Field { object, .. } => finished(*object, raw),
        ExprKindM::Ref { operand, .. } => finished(*operand, raw),
        ExprKindM::Deref { operand } => finished(*operand, raw),
        ExprKindM::StructInit { fields, .. } => inits_finished(fields, raw),
        ExprKindM::IntLit(_) => e.ty->0 is I64,
        ExprKindM::FloatLit(_) => e.ty->0 is F64,
        ExprKindM::StringLit(_) => e.ty->0 is I64,
        ExprKindM::CharLit(_) => raw && e.ty->0 is I64,
        ExprKindM::BoolLit(_) => raw && e.ty->0 is I64,
        ExprKindM::Ident(_) => true,
        ExprKindM::QualifiedIdent { .. } => true,
    }
}

pub open spec fn all_finished(s: Seq<ExprM>, raw: bool) -> bool
    decreases s,
{
    s.len() == 0 || (finished(s.last(), raw) && all_finished(s.drop_last(), raw))
}

pub open spec fn inits_finished(s: Seq<(Seq<char>, ExprM)>, raw: bool) -> bool
    decreases s,
{
    s.len() == 0 || (finished(s.last().1, raw) && inits_finished(s.drop_last(), raw))
}

pub open spec fn lvalue_finished(l: LValueM, raw: bool) -> bool {
    match l {
        LValueM::Ident(_, _) => true,
        LValueM::Deref(e, _) => finished(e, raw),
        LValueM::Field(e, _, _) => finished(e, raw),
    }
}

pub open spec fn stmt_finished(s: StmtM, raw: bool, in_loop: bool) -> bool
    decreases s,
{
    match s {
        StmtM::Let { init, .. } => finished(init, raw),
        StmtM::Assign { target, value, .. } => lvalue_finished(target, raw) && finished(
            value,
            raw,
        ),
        StmtM::Return { value, .. } => match value {
            Some(e) => finished(e, raw),
            None => true,
        },
        StmtM::If { branches, else_block, .. } => branches_finished(branches, raw, in_loop) && (
        match else_block {
            Some(b) => block_finished(b, raw, in_loop),
            None => true,
        }),
        StmtM::While { condition, body, .. } => finished(condition, raw) && block_finished(
            body,
            raw,
            true,
        ),
        StmtM::Break(_) => in_loop,
        StmtM::Continue(_) => in_loop,
        StmtM::Expr(e) => finished(e, raw),
        StmtM::Asm { .. } => true,
    }
}

pub open spec fn branches_finished(s: Seq<(ExprM, BlockM)>, raw: bool, in_loop: bool) -> bool
    decreases s,
{
    s.len() == 0 || (finished(s.last().0, raw) && block_finished(s.last().1, raw, in_loop)
        && branches_finished(s.drop_last(), raw, in_loop))
}

pub open spec fn block_finished(b: BlockM, raw: bool, in_loop: bool) -> bool
    decreases b,
{
    stmts_finished(b.stmts, raw, in_loop)
}

pub open spec fn stmts_finished(s: Seq<StmtM>, raw: bool, in_loop: bool) -> bool
    decreases s,
{
    s.len() == 0 || (stmt_finished(s.last(), raw, in_loop) && stmts_finished(
        s.drop_last(),
        raw,
        in_loop,
    ))
}

/// A function whose body is ready, returns a value on every path if it has to,
/// and breaks or continues only loops that it is in.
pub open spec fn fn_finished(f: FnDeclM, raw: bool) -> bool {
    &&& block_finished(f.body, raw, false)
    &&& f.return_type is Void || typing::block_returns(f.body)
}

pub open spec fn fns_finished(fs: Seq<FnDeclM>, raw: bool) -> bool {
    forall|i: int| 0 <= i < fs.len() ==> fn_finished(#[trigger] fs[i], raw)
}

/// An item whose functions are ready. Only the methods of machine-backed
/// structs and those added to machine types keep machine operations.
pub open spec fn item_finished(env: EnvM, item: ItemM) -> bool {
    match item {
        ItemM::Fn(f) => fn_finished(f, false),
        ItemM::Struct(s) => fns_finished(s.methods, env.machine_backed(s.name)),
        ItemM::Extend(e) => fns_finished(e.methods, typing::is_primitive(e.name)),
        ItemM::Import(_) => true,
    }
}

pub open spec fn items_finished(env: EnvM, items: Seq<ItemM>) -> bool {
    forall|i: int| 0 <= i < items.len() ==> item_finished(env, #[trigger] items[i])
}

// ---------------------------------------------------------------------------
// Expressions
// ---------------------------------------------------------------------------

/// Diagnostics are only added, behind those that are there, and those of the type
/// checker have codes that start with `E4`.
pub open spec fn grows(before: Seq<DiagM>, after: Seq<DiagM>) -> bool {
    &&& after.len() >= before.len()
    &&& forall|i: int| 0 <= i < before.len() ==> #[trigger] after[i] == before[i]
    &&& error::codes_in(before, '4') ==> error::codes_in(after, '4')
}

proof fn checker_codes()
    ensures
        error::code_in("E400"@, '4'),
        error::code_in("E401"@, '4'),
        error::code_in("E402"@, '4'),
        error::code_in("E410"@, '4'),
        error::code_in("E411"@, '4'),
        error::code_in("E412"@, '4'),
        error::code_in("E420"@, '4'),
        error::code_in("E421"@, '4'),
        error::code_in("E422"@, '4'),
        error::code_in("E430"@, '4'),
        error::code_in("E431"@, '4'),
        error::code_in("E432"@, '4'),
        error::code_in("E440"@, '4'),
        error::code_in("E441"@, '4'),
        error::code_in("E450"@, '4'),
        error::code_in("E460"@, '4'),
        error::code_in("E461"@, '4'),
        error::code_in("E462"@, '4'),
        error::code_in("E463"@, '4'),
        error::code_in("E470"@, '4'),
        error::code_in("E471"@, '4'),
        error::code_in("E472"@, '4'),
        error::code_in("E473"@, '4'),
        error::code_in("E480"@, '4'),
        error::code_in("E481"@, '4'),
        error::code_in("E482"@, '4'),
        error::code_in("E490"@, '4'),
        error::code_in("E491"@, '4'),
        error::code_in("E492"@, '4'),
        error::code_in("E493"@, '4'),
        error::code_in("E494"@, '4'),
        error::code_in("E495"@, '4'),
        error::code_in("E496"@, '4'),
        error::code_in("E497"@, '4'),
        error::code_in("E498"@, '4'),
        error::code_in("E499"@, '4'),
        error::code_in("E4A0"@, '4'),
        error::code_in("E4A1"@, '4'),
        error::code_in("E4A2"@, '4'),
        error::code_in("E4B0"@, '4'),
        error::code_in("E4C0"@, '4'),
        error::code_in("E4C1"@, '4'),
        error::code_in("E4D0"@, '4'),
{
    reveal_strlit("E400");
    reveal_strlit("E401");
    reveal_strlit("E402");
    reveal_strlit("E410");
    reveal_strlit("E411");
    reveal_strlit("E412");
    reveal_strlit("E420");
    reveal_strlit("E421");
    reveal_strlit("E422");
    reveal_strlit("E430");
    reveal_strlit("E431");
    reveal_strlit("E432");
    reveal_strlit("E440");
    reveal_strlit("E441");
    reveal_strlit("E450");
    reveal_strlit("E460");
    reveal_strlit("E461");
    reveal_strlit("E462");
    reveal_strlit("E463");
    reveal_strlit("E470");
    reveal_strlit("E471");
    reveal_strlit("E472");
    reveal_strlit("E473");
    reveal_strlit("E480");
    reveal_strlit("E481");
    reveal_strlit("E482");
    reveal_strlit("E490");
    reveal_strlit("E491");
    reveal_strlit("E492");
    reveal_strlit("E493");
    reveal_strlit("E494");
    reveal_strlit("E495");
    reveal_strlit("E496");
    reveal_strlit("E497");
    reveal_strlit("E498");
    reveal_strlit("E499");
    reveal_strlit("E4A0");
    reveal_strlit("E4A1");
    reveal_strlit("E4A2");
    reveal_strlit("E4B0");
    reveal_strlit("E4C0");
    reveal_strlit("E4C1");
    reveal_strlit("E4D0");
}

/// What one step of checking does: it adds no casts and takes back no
/// diagnostic, and where it reports nothing its result is finished.
spec fn good_step(e: ExprM, before: Seq<DiagM>, r: ExprM, after: Seq<DiagM>, raw: bool) -> bool {
    &&& typing::casts(r) <= typing::casts(e)
    &&& grows(before, after)
    &&& after.len() == before.len() ==> finished(r, raw)
}

pub(crate) proof fn missing_grows(
    cx: CheckM,
    decl: StructInfoM,
    span: Span,
    seen: Seq<Seq<char>>,
    n: int,
    diags: Seq<DiagM>,
)
    ensures
        grows(diags, typing::missing_fields(cx, decl, span, seen, n, diags)),
    decreases n,
{
    checker_codes();
    if n > 0 && n <= decl.fields.len() {
        missing_grows(cx, decl, span, seen, n - 1, diags);
    }
}

proof fn boxed_facts(cx: CheckM, decl: StructInfoM, name: Seq<char>, c: Rewritten, span: Span)
    requires
        typing::casts(typing::typed(c.kind, c.ty, span)) == 0,
        finished(typing::typed(c.kind, c.ty, span), cx.raw),
    ensures
        ({
            let r = typing::boxed(cx, decl, name, c, span);
            let e = typing::typed(r.kind, r.ty, span);
            &&& typing::casts(e) == 0
            &&& grows(c.diags, r.diags)
            &&& finished(e, cx.raw)
        }),
{
    checker_codes();
    let inner = typing::typed(c.kind, c.ty, span);
    let (seen, d) = typing::init_field(
        cx,
        decl,
        "inner_value"@,
        c.ty,
        span,
        Seq::empty(),
        c.diags,
    );
    missing_grows(cx, decl, span, seen, decl.fields.len() as int, d);
    let fields = seq![("inner_value"@, inner)];
    one_init(("inner_value"@, inner), cx.raw);
}

pub proof fn one_init(f: (Seq<char>, ExprM), raw: bool)
    ensures
        typing::init_casts(seq![f]) == typing::casts(f.1),
        inits_finished(seq![f], raw) == finished(f.1, raw),
{
    let s = seq![f];
    assert(s.drop_last() =~= Seq::empty());
    assert(typing::init_casts(s.drop_last()) == 0);
    assert(inits_finished(s.drop_last(), raw));
}

proof fn one_arg(e: ExprM, raw: bool)
    ensures
        typing::all_casts(seq![e]) == typing::casts(e),
        all_finished(seq![e], raw) == finished(e, raw),
{
    let s = seq![e];
    assert(s.drop_last() =~= Seq::empty());
    assert(typing::all_casts(s.drop_last()) == 0);
    assert(all_finished(s.drop_last(), raw));
}

proof fn machine_literal_facts(
    cx: CheckM,
    kind: ExprKindM,
    ty: TypeM,
    name: Seq<char>,
    span: Span,
    hint: Option<TypeM>,
    diags: Seq<DiagM>,
)
    requires
        (kind is IntLit && ty is I64) || (kind is FloatLit && ty is F64),
    ensures
        ({
            let r = typing::machine_literal(cx, kind, ty, name, span, hint, diags);
            let e = typing::typed(r.kind, r.ty, span);
            &&& typing::casts(e) == 0
            &&& grows(diags, r.diags)
            &&& finished(e, cx.raw)
        }),
{
    checker_codes();
    reveal(typing::machine_literal);
    match cx.env.lookup_struct(name) {
        Some(decl) => boxed_facts(cx, decl, name, Rewritten { kind, ty, diags }, span),
        None => {},
    }
}

proof fn coded_literal_facts(
    cx: CheckM,
    kind: ExprKindM,
    n: i64,
    name: Seq<char>,
    span: Span,
    diags: Seq<DiagM>,
)
    requires
        kind is CharLit || kind is BoolLit,
    ensures
        ({
            let r = typing::coded_literal(cx, kind, n, name, span, diags);
            let e = typing::typed(r.kind, r.ty, span);
            &&& typing::casts(e) == 0
            &&& grows(diags, r.diags)
            &&& r.diags.len() == diags.len() ==> finished(e, cx.raw)
        }),
{
    checker_codes();
    reveal(typing::coded_literal);
    match cx.env.lookup_struct(name) {
        Some(decl) => {
            let hint = typing::declared(decl, "inner_value"@);
            machine_literal_facts(
                cx,
                ExprKindM::IntLit(n),
                TypeM::I64,
                "int"@,
                span,
                hint,
                diags,
            );
            boxed_facts(
                cx,
                decl,
                name,
                typing::int_literal(cx, n, span, hint, diags),
                span,
            );
        },
        None => {},
    }
}

proof fn string_literal_facts(
    cx: CheckM,
    s: Seq<char>,
    span: Span,
    hint: Option<TypeM>,
    diags: Seq<DiagM>,
)
    ensures
        ({
            let r = typing::string_literal(cx, s, span, hint, diags);
            let e = typing::typed(r.kind, r.ty, span);
            &&& typing::casts(e) == 0
            &&& grows(diags, r.diags)
            &&& finished(e, cx.raw)
        }),
{
    checker_codes();
    reveal(typing::string_literal);
    match cx.env.lookup_struct("string"@) {
        Some(decl) => {
            let (seen1, d1) = typing::init_field(
                cx,
                decl,
                "ptr"@,
                TypeM::I64,
                span,
                Seq::empty(),
                diags,
            );
            let hint2 = typing::declared(decl, "length"@);
            let n = typing::byte_len(s);
            let len = typing::int_literal(cx, n, span, hint2, d1);
            machine_literal_facts(
                cx,
                ExprKindM::IntLit(n),
                TypeM::I64,
                "int"@,
                span,
                hint2,
                d1,
            );
            let (seen2, d2) = typing::init_field(
                cx,
                decl,
                "length"@,
                len.ty,
                span,
                seen1,
                len.diags,
            );
            missing_grows(cx, decl, span, seen2, decl.fields.len() as int, d2);
            let a = ("ptr"@, typing::typed(ExprKindM::StringLit(s), TypeM::I64, span));
            let b = ("length"@, typing::typed(len.kind, len.ty, span));
            let fields = seq![a, b];
            assert(fields.drop_last() =~= seq![a]);
            one_init(a, cx.raw);
            assert(typing::init_casts(fields) == typing::init_casts(seq![a]) + typing::casts(b.1));
            assert(inits_finished(fields, cx.raw));
        },
        None => {},
    }
}

proof fn method_call_facts(
    object: ExprM,
    method: Seq<char>,
    args: Seq<ExprM>,
    span: Span,
    ty: TypeM,
    raw: bool,
)
    ensures
        ({
            let e = typing::typed(typing::method_call(object, method, args, span), ty, span);
            &&& typing::casts(e) == typing::casts(object) + typing::all_casts(args)
            &&& finished(e, raw) == (finished(object, raw) && all_finished(args, raw))
        }),
{
    let callee = typing::typed(
        ExprKindM::Field { object: Box::new(object), field: method },
        TypeM::Void,
        span,
    );
    assert(typing::casts(callee) == typing::casts(object));
    assert(finished(callee, raw) == finished(object, raw));
}

proof fn unary_op_facts(cx: CheckM, op: crate::ast::UnaryOp, c: Checked, span: Span)
    ensures
        ({
            let r = typing::unary_op(cx, op, c, span);
            let e = typing::typed(r.kind, r.ty, span);
            &&& typing::casts(e) <= typing::casts(c.expr)
            &&& grows(c.diags, r.diags)
            &&& r.diags.len() == c.diags.len() ==> finished(c.expr, cx.raw) ==> finished(
                e,
                cx.raw,
            )
        }),
{
    checker_codes();
    reveal(typing::unary_op);
    assert(typing::casts(typing::dummy(span)) == 0);
    assert(typing::all_casts(Seq::empty()) == 0);
    assert(all_finished(Seq::empty(), cx.raw));
    match crate::ast::unary_method(op) {
        Some(m) => {
            let r = typing::unary_op(cx, op, c, span);
            method_call_facts(c.expr, m, Seq::empty(), span, r.ty, cx.raw);
        },
        None => {},
    }
}

proof fn binary_op_facts(
    cx: CheckM,
    op: crate::ast::BinaryOp,
    left: ExprM,
    ty: TypeM,
    r: Checked,
    span: Span,
)
    ensures
        ({
            let out = typing::binary_op(cx, op, left, ty, r, span);
            let e = typing::typed(out.kind, out.ty, span);
            &&& typing::casts(e) <= typing::casts(left) + typing::casts(r.expr)
            &&& grows(r.diags, out.diags)
            &&& out.diags.len() == r.diags.len() && finished(left, cx.raw) && finished(
                r.expr,
                cx.raw,
            ) ==> finished(e, cx.raw)
        }),
{
    checker_codes();
    reveal(typing::binary_op);
    let out = typing::binary_op(cx, op, left, ty, r, span);
    assert(typing::casts(typing::dummy(span)) == 0);
    let arg = typing::as_reference(r.expr, r.ty, span);
    assert(typing::casts(arg) == typing::casts(r.expr));
    assert(finished(r.expr, cx.raw) ==> finished(arg, cx.raw));
    one_arg(arg, cx.raw);
    method_call_facts(
        left,
        crate::ast::binary_method(op),
        seq![arg],
        span,
        out.ty,
        cx.raw,
    );
}

proof fn cast_op_facts(cx: CheckM, c: Checked, target: TypeM, span: Span)
    requires
        c.expr.ty == Some(c.ty.settled()),
    ensures
        match typing::cast_op(cx, c, target, span) {
            CastM::Done(r) => {
                let e = typing::typed(r.kind, r.ty, span);
                &&& typing::casts(e) <= typing::casts(c.expr) + 1
                &&& grows(c.diags, r.diags)
                &&& r.diags.len() == c.diags.len() ==> finished(c.expr, cx.raw) ==> finished(
                    e,
                    cx.raw,
                )
            },
            CastM::Box(_, _) => true,
        },
{
    checker_codes();
    reveal(typing::cast_op);
    assert(typing::casts(typing::dummy(span)) == 0);
    assert(typing::all_casts(Seq::empty()) == 0);
    assert(all_finished(Seq::empty(), cx.raw));
    match typing::cast_op(cx, c, target, span) {
        CastM::Done(r) => {
            let e = typing::typed(r.kind, r.ty, span);
            let n = match target {
                TypeM::Named(n) => n,
                TypeM::Qualified(_, n) => n,
                _ => Seq::empty(),
            };
            method_call_facts(c.expr, "to_"@ + n, Seq::empty(), span, r.ty, cx.raw);
        },
        CastM::Box(_, _) => {},
    }
}

/// Checking an expression adds no casts and takes back no diagnostic. Where it
/// reports nothing, its result is finished.
pub proof fn check_expr_facts(cx: CheckM, e: ExprM, hint: Option<TypeM>, diags: Seq<DiagM>)
    ensures
        ({
            let c = typing::check_expr(cx, e, hint, diags);
            &&& typing::casts(c.expr) <= typing::casts(e)
            &&& grows(diags, c.diags)
            &&& c.diags.len() == diags.len() ==> finished(c.expr, cx.raw)
        }),
    decreases typing::casts(e), e, 2nat,
{
    reveal(typing::check_expr);
    reveal(typing::check_kind);
    check_kind_facts(cx, e, hint, diags);
}

proof fn check_kind_facts(cx: CheckM, e: ExprM, hint: Option<TypeM>, diags: Seq<DiagM>)
    ensures
        ({
            let r = typing::check_kind(cx, e, hint, diags);
            good_step(e, diags, typing::typed(r.kind, r.ty, e.span), r.diags, cx.raw)
        }),
    decreases typing::casts(e), e, 1nat,
{
    checker_codes();
    reveal(typing::check_kind);
    reveal(typing::check_expr);
    let span = e.span;
    let out = typing::check_kind(cx, e, hint, diags);
    let r = typing::typed(out.kind, out.ty, span);
    match e.kind {
        ExprKindM::IntLit(n) => {
            machine_literal_facts(cx, e.kind, TypeM::I64, "int"@, span, hint, diags);
        },
        ExprKindM::FloatLit(f) => {
            machine_literal_facts(cx, e.kind, TypeM::F64, "float"@, span, hint, diags);
        },
        ExprKindM::CharLit(c) => {
            coded_literal_facts(cx, e.kind, c as i64, "char"@, span, diags);
        },
        ExprKindM::BoolLit(b) => {
            coded_literal_facts(
                cx,
                e.kind,
                if b {
                    1
                } else {
                    0
                },
                "bool"@,
                span,
                diags,
            );
        },
        ExprKindM::StringLit(s) => {
            string_literal_facts(cx, s, span, hint, diags);
        },
        ExprKindM::Ident(name) => {},
        ExprKindM::QualifiedIdent { module, name } => {},
        ExprKindM::Ref { mutable, operand } => {
            check_expr_facts(cx, *operand, None, diags);
        },
        ExprKindM::Deref { operand } => {
            check_expr_facts(cx, *operand, None, diags);
        },
        ExprKindM::Unary { op, operand } => {
            check_expr_facts(cx, *operand, None, diags);
            let c = typing::check_expr(cx, *operand, None, diags);
            unary_op_facts(cx, op, c, span);
        },
        ExprKindM::Binary { op, left, right } => {
            check_expr_facts(cx, *left, None, diags);
            let l = typing::check_expr(cx, *left, None, diags);
            check_expr_facts(cx, *right, None, l.diags);
            let rr = typing::check_expr(cx, *right, None, l.diags);
            binary_op_facts(cx, op, l.expr, l.ty, rr, span);
        },
        ExprKindM::Cast { expr, target_type } => {
            check_expr_facts(cx, *expr, None, diags);
            let c = typing::check_expr(cx, *expr, None, diags);
            cast_op_facts(cx, c, target_type, span);
            match typing::cast_op(cx, c, target_type, span) {
                CastM::Done(_) => {},
                CastM::Box(name, field) => {
                    let fields = seq![(field, c.expr)];
                    one_init((field, c.expr), cx.raw);
                    reveal(typing::check_init);
                    check_init_facts(
                        cx,
                        name,
                        fields,
                        span,
                        c.diags,
                    );
                },
            }
        },
        ExprKindM::Call { callee, args } => {
            reveal(typing::check_call);
            check_call_facts(cx, e, diags);
        },
        ExprKindM::Field { object, field } => {
            check_expr_facts(cx, *object, None, diags);
        },
        ExprKindM::StructInit { name, fields } => {
            reveal(typing::check_init);
            check_init_facts(cx, name, fields, span, diags);
        },
    }
}

proof fn check_call_facts(cx: CheckM, e: ExprM, diags: Seq<DiagM>)
    requires
        e.kind is Call,
    ensures
        ({
            let r = typing::check_call(cx, e, diags);
            good_step(e, diags, typing::typed(r.kind, r.ty, e.span), r.diags, cx.raw)
        }),
    decreases typing::casts(e), e, 0nat,
{
    checker_codes();
    reveal(typing::check_call);
    reveal(typing::check_expr);
    reveal(typing::check_args);
    reveal(typing::method_callee);
    let span = e.span;
    let callee = e.kind->callee;
    let args = e.kind->args;
    let out = typing::check_call(cx, e, diags);
    let res = typing::typed(out.kind, out.ty, span);
    assert(decreases_to!(e => *callee));
    assert(decreases_to!(e => args));
    assert(typing::all_casts(Seq::empty()) == 0);
    assert(all_finished(Seq::empty(), cx.raw));
    match callee.kind {
        ExprKindM::Field { object, field } => {
            assert(typing::casts(*callee) == typing::casts(*object));
            check_expr_facts(cx, *object, None, diags);
            let c = typing::check_expr(cx, *object, None, diags);
            let called = typing::typed(
                ExprKindM::Field { object: Box::new(c.expr), field },
                TypeM::Void,
                callee.span,
            );
            assert(typing::casts(called) == typing::casts(c.expr));
            assert(finished(called, cx.raw) == finished(c.expr, cx.raw));
            match typing::method_callee(cx, c.ty, field, span) {
                typing::CalleeM::Known { params, shown, ty } => {
                    let d = typing::arg_count_diags(
                        cx,
                        shown,
                        params.len(),
                        args.len(),
                        span,
                        c.diags,
                    );
                    check_args_facts(cx, shown, params, args, Seq::empty(), d);
                },
                _ => {},
            }
        },
        _ => {
            let called = typing::typed(callee.kind, TypeM::Void, callee.span);
            assert(typing::casts(called) == typing::casts(*callee));
            reveal(typing::plain_callee);
            match typing::plain_callee(cx, callee.kind, span) {
                typing::CalleeM::Known { params, shown, ty } => {
                    let d = typing::arg_count_diags(
                        cx,
                        shown,
                        params.len(),
                        args.len(),
                        span,
                        diags,
                    );
                    assert(finished(called, cx.raw));
                    check_args_facts(cx, shown, params, args, Seq::empty(), d);
                },
                typing::CalleeM::Unknown(name) => {
                    let d = diags.push(
                        cx.diag(
                            span,
                            "E492"@,
                            "undeclared function `"@ + name + "`"@,
                            "not found"@,
                        ),
                    );
                    check_args_facts(cx, name, Seq::empty(), args, Seq::empty(), d);
                },
                _ => {},
            }
        },
    }
}

proof fn check_args_facts(
    cx: CheckM,
    shown: Seq<char>,
    params: Seq<TypeM>,
    args: Seq<ExprM>,
    done: Seq<ExprM>,
    diags: Seq<DiagM>,
)
    requires
        done.len() <= args.len(),
        typing::all_casts(done) <= typing::all_casts(args.take(done.len() as int)),
    ensures
        ({
            let (all, d) = typing::check_args(cx, shown, params, args, done, diags);
            &&& typing::all_casts(all) <= typing::all_casts(args)
            &&& grows(diags, d)
            &&& d.len() == diags.len() && all_finished(done, cx.raw) ==> all_finished(
                all,
                cx.raw,
            )
        }),
    decreases
            typing::all_casts(args),
            args,
            if done.len() < args.len() {
                (args.len() - done.len()) as nat
            } else {
                0
            },
{
    checker_codes();
    reveal(typing::check_args);
    reveal(typing::check_expr);
    if done.len() >= args.len() {
        assert(args.take(done.len() as int) =~= args);
    } else {
        let i = done.len() as int;
        typing::casts_at(args, i);
        let hint = typing::hint_at(params, i);
        check_expr_facts(cx, args[i], hint, diags);
        let c = typing::check_expr(cx, args[i], hint, diags);
        let d = typing::arg_diags(cx, shown, params, i as nat, c.ty, args[i].span, c.diags);
        let done1 = done.push(c.expr);
        assert(done1.drop_last() =~= done);
        assert(args.take(i + 1).drop_last() =~= args.take(i));
        check_args_facts(cx, shown, params, args, done1, d);
    }
}

proof fn check_init_facts(
    cx: CheckM,
    name: StructNameM,
    fields: Seq<(Seq<char>, ExprM)>,
    span: Span,
    diags: Seq<DiagM>,
)
    ensures
        ({
            let r = typing::check_init(cx, name, fields, span, diags);
            let e = typing::typed(r.kind, r.ty, span);
            &&& typing::casts(e) <= typing::init_casts(fields)
            &&& grows(diags, r.diags)
            &&& r.diags.len() == diags.len() ==> finished(e, cx.raw)
        }),
    decreases typing::init_casts(fields), fields, fields.len() + 1,
{
    checker_codes();
    reveal(typing::check_init);
    reveal(typing::check_inits);
    assert(typing::init_casts(Seq::empty()) == 0);
    assert(inits_finished(Seq::empty(), cx.raw));
    match typing::init_target(cx.env, name) {
        Some(decl) => {
            check_inits_facts(cx, Some(decl), fields, Seq::empty(), Seq::empty(), diags);
            let (done, seen, d) = typing::check_inits(
                cx,
                Some(decl),
                fields,
                Seq::empty(),
                Seq::empty(),
                diags,
            );
            missing_grows(cx, decl, span, seen, decl.fields.len() as int, d);
        },
        None => {
            let d = diags.push(
                cx.diag(
                    span,
                    "E495"@,
                    "unknown struct `"@ + name.base() + "`"@,
                    "unknown struct"@,
                ),
            );
            check_inits_facts(cx, None, fields, Seq::empty(), Seq::empty(), d);
        },
    }
}

proof fn check_inits_facts(
    cx: CheckM,
    decl: Option<StructInfoM>,
    fields: Seq<(Seq<char>, ExprM)>,
    done: Seq<(Seq<char>, ExprM)>,
    seen: Seq<Seq<char>>,
    diags: Seq<DiagM>,
)
    requires
        done.len() <= fields.len(),
        typing::init_casts(done) <= typing::init_casts(fields.take(done.len() as int)),
    ensures
        ({
            let (all, _, d) = typing::check_inits(cx, decl, fields, done, seen, diags);
            &&& typing::init_casts(all) <= typing::init_casts(fields)
            &&& grows(diags, d)
            &&& d.len() == diags.len() && inits_finished(done, cx.raw) ==> inits_finished(
                all,
                cx.raw,
            )
        }),
    decreases
            typing::init_casts(fields),
            fields,
            if done.len() < fields.len() {
                (fields.len() - done.len()) as nat
            } else {
                0
            },
{
    checker_codes();
    reveal(typing::check_inits);
    reveal(typing::check_expr);
    if done.len() >= fields.len() {
        assert(fields.take(done.len() as int) =~= fields);
    } else {
        let i = done.len() as int;
        let name = fields[i].0;
        typing::init_casts_at(fields, i);
        let hint = match decl {
            Some(s) => typing::declared(s, name),
            None => None,
        };
        check_expr_facts(cx, fields[i].1, hint, diags);
        let c = typing::check_expr(cx, fields[i].1, hint, diags);
        let (seen1, d) = match decl {
            Some(s) => typing::init_field(
                cx,
                s,
                name,
                c.ty,
                fields[i].1.span,
                seen,
                c.diags,
            ),
            None => (seen, c.diags),
        };
        let done1 = done.push((name, c.expr));
        assert(done1.drop_last() =~= done);
        assert(fields.take(i + 1).drop_last() =~= fields.take(i));
        check_inits_facts(cx, decl, fields, done1, seen1, d);
    }
}

// ---------------------------------------------------------------------------
// Statements
// ---------------------------------------------------------------------------

proof fn asm_line_grows(
    cx: CheckM,
    line: Seq<crate::ast::AsmTokenM>,
    n: int,
    span: Span,
    diags: Seq<DiagM>,
)
    ensures
        grows(diags, typing::asm_line_diags(cx, line, n, span, diags)),
    decreases n,
{
    checker_codes();
    if 0 < n <= line.len() {
        asm_line_grows(cx, line, n - 1, span, diags);
    }
}

proof fn asm_grows(
    cx: CheckM,
    lines: Seq<Seq<crate::ast::AsmTokenM>>,
    n: int,
    span: Span,
    diags: Seq<DiagM>,
)
    ensures
        grows(diags, typing::asm_diags(cx, lines, n, span, diags)),
    decreases n,
{
    if 0 < n <= lines.len() {
        asm_grows(cx, lines, n - 1, span, diags);
        asm_line_grows(
            cx,
            lines[n - 1],
            lines[n - 1].len() as int,
            span,
            typing::asm_diags(cx, lines, n - 1, span, diags),
        );
    }
}

pub(crate) proof fn check_lvalue_facts(cx: CheckM, l: LValueM, diags: Seq<DiagM>)
    ensures
        ({
            let (r, _, d) = typing::check_lvalue(cx, l, diags);
            &&& grows(diags, d)
            &&& d.len() == diags.len() ==> lvalue_finished(r, cx.raw)
        }),
{
    checker_codes();
    reveal(typing::check_lvalue);
    match l {
        LValueM::Ident(_, _) => {},
        LValueM::Deref(e, _) => {
            check_expr_facts(cx, e, None, diags);
        },
        LValueM::Field(e, _, _) => {
            check_expr_facts(cx, e, None, diags);
        },
    }
}

/// Only `let` changes what is in scope after a statement.
pub proof fn only_let_declares(cx: CheckM, fx: FnM, s: StmtM, diags: Seq<DiagM>)
    ensures
        !(s is Let) ==> typing::check_stmt(cx, fx, s, diags).vars == cx.vars,
        s matches StmtM::Let { name, .. } ==> {
            let vars = typing::check_stmt(cx, fx, s, diags).vars;
            vars.len() == cx.vars.len() + 1 && vars.drop_last() == cx.vars && vars.last().0 == name
        },
{
    reveal(typing::check_stmt);
    reveal(typing::check_let);
    reveal(typing::check_assign);
    reveal(typing::check_return);
    if s is Let {
        assert(typing::check_stmt(cx, fx, s, diags).vars.drop_last() =~= cx.vars);
    }
}

pub(crate) proof fn check_stmt_facts(cx: CheckM, fx: FnM, s: StmtM, diags: Seq<DiagM>)
    ensures
        ({
            let r = typing::check_stmt(cx, fx, s, diags);
            &&& grows(diags, r.diags)
            &&& r.diags.len() == diags.len() ==> stmt_finished(r.stmt, cx.raw, fx.in_loop)
        }),
    decreases s, 0nat,
{
    checker_codes();
    reveal(typing::check_stmt);
    reveal(typing::check_block);
    reveal(typing::check_branches);
    match s {
        StmtM::Let { name, ty, init, span } => {
            reveal(typing::check_let);
            check_expr_facts(cx, init, ty, diags);
            let d = diags.push(
                cx.diag(
                    span,
                    "E411"@,
                    "let binding `"@ + name + "` conflicts with a type name"@,
                    "name already used by a type"@,
                ),
            );
            check_expr_facts(cx, init, ty, d);
        },
        StmtM::Assign { target, value, span } => {
            reveal(typing::check_assign);
            check_lvalue_facts(cx, target, diags);
            let (_, ty, d) = typing::check_lvalue(cx, target, diags);
            check_expr_facts(cx, value, ty, d);
        },
        StmtM::Return { value, span } => {
            reveal(typing::check_return);
            if value is Some {
                check_expr_facts(cx, value->0, None, diags);
                check_expr_facts(cx, value->0, Some(fx.return_type), diags);
            }
        },
        StmtM::If { branches, else_block, span } => {
            check_branches_facts(cx, fx, branches, Seq::empty(), diags);
            let (_, d) = typing::check_branches(cx, fx, branches, Seq::empty(), diags);
            if else_block is Some {
                check_block_facts(cx, fx, else_block->0, d);
            }
        },
        StmtM::While { condition, body, span } => {
            check_expr_facts(cx, condition, None, diags);
            let c = typing::check_expr(cx, condition, None, diags);
            let d = typing::bool_diags(cx, c.ty, condition.span, c.diags);
            check_block_facts(cx, FnM { in_loop: true, ..fx }, body, d);
        },
        StmtM::Expr(e) => {
            check_expr_facts(cx, e, None, diags);
        },
        StmtM::Asm { lines, span } => {
            asm_grows(cx, lines, lines.len() as int, span, diags);
        },
        _ => {},
    }
}

pub(crate) proof fn check_branches_facts(
    cx: CheckM,
    fx: FnM,
    branches: Seq<(ExprM, BlockM)>,
    done: Seq<(ExprM, BlockM)>,
    diags: Seq<DiagM>,
)
    ensures
        ({
            let (all, d) = typing::check_branches(cx, fx, branches, done, diags);
            &&& grows(diags, d)
            &&& d.len() == diags.len() && branches_finished(done, cx.raw, fx.in_loop)
                ==> branches_finished(all, cx.raw, fx.in_loop)
        }),
    decreases
            branches,
            if done.len() < branches.len() {
                (branches.len() - done.len()) as nat
            } else {
                0
            },
{
    checker_codes();
    reveal(typing::check_branches);
    reveal(typing::check_block);
    if done.len() < branches.len() {
        let (cond, body) = branches[done.len() as int];
        check_expr_facts(cx, cond, None, diags);
        let c = typing::check_expr(cx, cond, None, diags);
        let d = typing::bool_diags(cx, c.ty, cond.span, c.diags);
        check_block_facts(cx, fx, body, d);
        let (b, d1) = typing::check_block(cx, fx, body, d);
        let done1 = done.push((c.expr, b));
        assert(done1.drop_last() =~= done);
        check_branches_facts(cx, fx, branches, done1, d1);
    }
}

pub(crate) proof fn check_block_facts(cx: CheckM, fx: FnM, b: BlockM, diags: Seq<DiagM>)
    ensures
        ({
            let (r, d) = typing::check_block(cx, fx, b, diags);
            &&& grows(diags, d)
            &&& d.len() == diags.len() ==> block_finished(r, cx.raw, fx.in_loop)
        }),
    decreases b, 0nat,
{
    reveal(typing::check_block);
    reveal(typing::check_stmts);
    assert(stmts_finished(Seq::empty(), cx.raw, fx.in_loop));
    check_stmts_facts(cx, fx, b.stmts, Seq::empty(), diags);
}

pub(crate) proof fn check_stmts_facts(
    cx: CheckM,
    fx: FnM,
    stmts: Seq<StmtM>,
    done: Seq<StmtM>,
    diags: Seq<DiagM>,
)
    ensures
        ({
            let (all, d) = typing::check_stmts(cx, fx, stmts, done, diags);
            &&& grows(diags, d)
            &&& d.len() == diags.len() && stmts_finished(done, cx.raw, fx.in_loop)
                ==> stmts_finished(all, cx.raw, fx.in_loop)
        }),
    decreases
            stmts,
            if done.len() < stmts.len() {
                (stmts.len() - done.len()) as nat
            } else {
                0
            },
{
    reveal(typing::check_stmts);
    reveal(typing::check_stmt);
    if done.len() < stmts.len() {
        let s = stmts[done.len() as int];
        check_stmt_facts(cx, fx, s, diags);
        let r = typing::check_stmt(cx, fx, s, diags);
        let done1 = done.push(r.stmt);
        assert(done1.drop_last() =~= done);
        check_stmts_facts(CheckM { vars: r.vars, ..cx }, fx, stmts, done1, r.diags);
    }
}

// ---------------------------------------------------------------------------
// Programs
// ---------------------------------------------------------------------------

pub(crate) proof fn check_fn_facts(u: UnitM, f: FnDeclM, owner: TypeM, raw: bool, diags: Seq<DiagM>)
    ensures
        ({
            let (r, d) = typing::check_fn(u, f, owner, raw, diags);
            &&& grows(diags, d)
            &&& d.len() == diags.len() ==> fn_finished(r, raw)
        }),
{
    checker_codes();
    reveal(typing::check_fn);
    check_block_facts(
        u.at(typing::param_vars(f.params, owner), raw),
        FnM { return_type: f.return_type, in_loop: false },
        f.body,
        diags,
    );
}

pub(crate) proof fn check_fns_facts(
    u: UnitM,
    fs: Seq<FnDeclM>,
    n: int,
    owner: TypeM,
    raw: bool,
    diags: Seq<DiagM>,
)
    ensures
        ({
            let (r, d) = typing::check_fns(u, fs, n, owner, raw, diags);
            &&& grows(diags, d)
            &&& d.len() == diags.len() ==> fns_finished(r, raw)
        }),
    decreases n,
{
    reveal(typing::check_fns);
    if 0 < n <= fs.len() {
        check_fns_facts(u, fs, n - 1, owner, raw, diags);
        let (_, d) = typing::check_fns(u, fs, n - 1, owner, raw, diags);
        check_fn_facts(u, fs[n - 1], owner, raw, d);
    }
}

pub(crate) proof fn check_item_facts(u: UnitM, item: ItemM, diags: Seq<DiagM>)
    ensures
        ({
            let (r, d) = typing::check_item(u, item, diags);
            &&& grows(diags, d)
            &&& d.len() == diags.len() ==> item_finished(u.env, r)
        }),
{
    reveal(typing::check_item);
    match item {
        ItemM::Fn(f) => check_fn_facts(
            u,
            f,
            typing::self_type(Seq::empty()),
            false,
            diags,
        ),
        ItemM::Struct(s) => check_fns_facts(
            u,
            s.methods,
            s.methods.len() as int,
            typing::self_type(s.name),
            u.env.machine_backed(s.name),
            diags,
        ),
        ItemM::Extend(e) => check_fns_facts(
            u,
            e.methods,
            e.methods.len() as int,
            typing::extended_type(e),
            typing::is_primitive(e.name),
            diags,
        ),
        ItemM::Import(_) => {},
    }
}

pub(crate) proof fn check_items_facts(u: UnitM, items: Seq<ItemM>, n: int, diags: Seq<DiagM>)
    ensures
        ({
            let (r, d) = typing::check_items(u, items, n, diags);
            &&& grows(diags, d)
            &&& d.len() == diags.len() ==> items_finished(u.env, r)
        }),
    decreases n,
{
    reveal(typing::check_items);
    if 0 < n <= items.len() {
        check_items_facts(u, items, n - 1, diags);
        let (_, d) = typing::check_items(u, items, n - 1, diags);
        check_item_facts(u, items[n - 1], d);
    }
}

/// Modules whose items are ready. What they declare is `infos`.
pub open spec fn modules_finished(
    u: UnitM,
    infos: Seq<(Seq<char>, ModuleInfoM)>,
    modules: Seq<(Seq<char>, ProgramM)>,
) -> bool {
    forall|i: int|
        0 <= i < modules.len() ==> items_finished(
            typing::inside(u, infos[i].1).env,
            (#[trigger] modules[i]).1.items,
        )
}

pub(crate) proof fn check_modules_facts(
    u: UnitM,
    infos: Seq<(Seq<char>, ModuleInfoM)>,
    modules: Seq<(Seq<char>, ProgramM)>,
    n: int,
    diags: Seq<DiagM>,
)
    ensures
        ({
            let (r, d) = typing::check_modules(u, infos, modules, n, diags);
            &&& grows(diags, d)
            &&& 0 <= n <= modules.len() ==> r.len() == n
            &&& d.len() == diags.len() ==> modules_finished(u, infos, r)
        }),
    decreases n,
{
    reveal(typing::check_modules);
    if 0 < n <= modules.len() {
        check_modules_facts(u, infos, modules, n - 1, diags);
        let (_, d) = typing::check_modules(u, infos, modules, n - 1, diags);
        let items = modules[n - 1].1.items;
        check_items_facts(typing::inside(u, infos[n - 1].1), items, items.len() as int, d);
    }
}

proof fn collect_grows(
    file: Seq<char>,
    src: Seq<char>,
    items: Seq<ItemM>,
    n: int,
    what: Seq<char>,
    diags: Seq<DiagM>,
)
    ensures
        grows(diags, typing::collect(file, src, items, n, what, diags).diags),
    decreases n,
{
    checker_codes();
    reveal(typing::collect);
    reveal(typing::collect_item);
    if 0 < n <= items.len() {
        collect_grows(file, src, items, n - 1, what, diags);
    }
}

proof fn collect_modules_grows(
    file: Seq<char>,
    src: Seq<char>,
    modules: Seq<(Seq<char>, ProgramM)>,
    n: int,
    diags: Seq<DiagM>,
)
    ensures
        grows(diags, typing::collect_modules(file, src, modules, n, diags).1),
    decreases n,
{
    reveal(typing::collect_modules);
    if 0 < n <= modules.len() {
        collect_modules_grows(file, src, modules, n - 1, diags);
        let (_, d) = typing::collect_modules(file, src, modules, n - 1, diags);
        let items = modules[n - 1].1.items;
        collect_grows(file, src, items, items.len() as int, "module item"@, d);
    }
}

proof fn duplicate_methods_grows(
    file: Seq<char>,
    src: Seq<char>,
    methods: Seq<typing::SigM>,
    from: int,
    n: int,
    diags: Seq<DiagM>,
)
    ensures
        grows(diags, typing::duplicate_methods(file, src, methods, from, n, diags)),
    decreases n,
{
    checker_codes();
    if 0 < n <= methods.len() && from < n {
        duplicate_methods_grows(file, src, methods, from, n - 1, diags);
    }
}

proof fn with_methods_grows(
    file: Seq<char>,
    src: Seq<char>,
    methods: Seq<typing::SigM>,
    added: Seq<FnDeclM>,
    diags: Seq<DiagM>,
)
    ensures
        grows(diags, typing::with_methods(file, src, methods, added, diags).1),
{
    let all = methods + typing::sigs_of(added);
    duplicate_methods_grows(file, src, all, methods.len() as int, all.len() as int, diags);
}

proof fn extend_all_grows(u: UnitM, items: Seq<ItemM>, n: int, diags: Seq<DiagM>)
    ensures
        grows(diags, typing::extend_all(u, items, n, diags).1),
    decreases n,
{
    checker_codes();
    reveal(typing::extend_all);
    reveal(typing::extend);
    if 0 < n <= items.len() {
        extend_all_grows(u, items, n - 1, diags);
        let (u1, d) = typing::extend_all(u, items, n - 1, diags);
        if let ItemM::Extend(e) = items[n - 1] {
            with_methods_grows(u1.file, u1.src, u1.env.i64_methods, e.methods, d);
            with_methods_grows(u1.file, u1.src, u1.env.f64_methods, e.methods, d);
            match typing::struct_index(u1.env.structs, e.name, 0) {
                Some(i) => with_methods_grows(
                    u1.file,
                    u1.src,
                    u1.env.structs[i].methods,
                    e.methods,
                    d,
                ),
                None => {},
            }
            if e.module is Some {
                match typing::module_index(u1.env.modules, e.module->0, 0) {
                    Some(m) => {
                        let info = u1.env.modules[m].1;
                        match typing::struct_index(info.structs, e.name, 0) {
                            Some(i) => with_methods_grows(
                                u1.file,
                                u1.src,
                                info.structs[i].methods,
                                e.methods,
                                d,
                            ),
                            None => {},
                        }
                    },
                    None => {},
                }
            }
        }
    }
}

proof fn declarations_grow(
    file: Seq<char>,
    src: Seq<char>,
    program: ProgramM,
    modules: Seq<(Seq<char>, ProgramM)>,
)
    ensures
        error::codes_in(typing::declarations(file, src, program, modules).2, '4'),
{
    reveal(typing::declarations);
    let n = program.items.len() as int;
    let c = typing::collect(file, src, program.items, n, "top-level item"@, Seq::empty());
    collect_grows(file, src, program.items, n, "top-level item"@, Seq::empty());
    collect_modules_grows(file, src, modules, modules.len() as int, c.diags);
    let (infos, d) = typing::collect_modules(file, src, modules, modules.len() as int, c.diags);
    let env = EnvM {
        own: ModuleInfoM { structs: Seq::empty(), functions: Seq::empty() },
        structs: c.structs,
        functions: c.functions,
        modules: typing::outward_modules(infos, c.structs),
        i64_methods: Seq::empty(),
        f64_methods: Seq::empty(),
    };
    extend_all_grows(UnitM { file, src, env }, program.items, n, d);
}

/// Every diagnostic of the type checker has a code that starts with `E4`.
pub proof fn checker_diagnostics_are_e4(
    file: Seq<char>,
    src: Seq<char>,
    program: ProgramM,
    modules: Seq<(Seq<char>, ProgramM)>,
)
    ensures
        error::codes_in(typing::check_program(file, src, program, modules).diags, '4'),
{
    checker_codes();
    reveal(typing::check_main);
    declarations_grow(file, src, program, modules);
    let (u, infos, d) = typing::declarations(file, src, program, modules);
    check_items_facts(u, program.items, program.items.len() as int, d);
    let (_, d1) = typing::check_items(u, program.items, program.items.len() as int, d);
    check_modules_facts(u, infos, modules, modules.len() as int, d1);
}

/// A program that is accepted is ready for code generation, with its modules:
/// every expression has a type and no cast is left, operators are left only as
/// machine operations and literals only as machine values, every function that
/// has to return a value does so on every path, and `break` and `continue` stand
/// in loops. It has a function `main` without parameters that returns `i64`,
/// `int` or nothing.
pub proof fn accepted_program_is_finished(
    file: Seq<char>,
    src: Seq<char>,
    program: ProgramM,
    modules: Seq<(Seq<char>, ProgramM)>,
)
    requires
        typing::check_program(file, src, program, modules).diags.len() == 0,
    ensures
        ({
            let (u, infos, _) = typing::declarations(file, src, program, modules);
            let env = u.env;
            let out = typing::check_program(file, src, program, modules);
            let main = typing::find_sig(env.functions, "main"@, 0);
            &&& items_finished(env, out.program.items)
            &&& modules_finished(u, infos, out.modules)
            &&& main is Some && main->0.params.len() == 0
            &&& main->0.return_type is I64 || main->0.return_type is Void
                || main->0.return_type == TypeM::Named("int"@)
        }),
{
    reveal(typing::check_main);
    let (u, infos, d) = typing::declarations(file, src, program, modules);
    check_items_facts(u, program.items, program.items.len() as int, d);
    let (_, d1) = typing::check_items(u, program.items, program.items.len() as int, d);
    check_modules_facts(u, infos, modules, modules.len() as int, d1);
}

// ---------------------------------------------------------------------------
// What is refused
// ---------------------------------------------------------------------------

/// A value whose type is known passes where another type is asked for just if
/// the types are compatible; `void` is no exception.
pub proof fn known_types_must_fit(
    cx: CheckM,
    expected: TypeM,
    found: TypeM,
    span: Span,
    code: Seq<char>,
    what: Seq<char>,
    diags: Seq<DiagM>,
)
    requires
        !(found is Unknown),
    ensures
        typing::mismatch(cx, expected, found, span, code, what, diags) == diags
            <==> cx.env.compatible(expected, found),
        typing::arg_diags(cx, what, seq![expected], 0, found, span, diags) == diags
            <==> cx.env.compatible(expected, found),
        expected is Void || expected.is_machine() ==> (cx.env.compatible(expected, found)
            <==> expected == found),
{
    assert(typing::mismatch(cx, expected, found, span, code, what, diags).len() == diags.len()
        <==> cx.env.compatible(expected, found));
    assert(typing::arg_diags(cx, what, seq![expected], 0, found, span, diags).len() == diags.len()
        <==> cx.env.compatible(expected, found));
}

/// A call of a function that is not declared is reported once: nothing more is
/// said where its value is returned, bound or assigned.
pub proof fn unknown_call_is_reported_once(
    cx: CheckM,
    fx: FnM,
    name: Seq<char>,
    e: ExprM,
    expected: TypeM,
    span: Span,
    diags: Seq<DiagM>,
)
    requires
        e.kind matches ExprKindM::Call { callee, args } && callee.kind == ExprKindM::Ident(name)
            && args.len() == 0,
        cx.env.lookup_fn(name) is None,
    ensures
        ({
            let d = diags.push(
                cx.diag(e.span, "E492"@, "undeclared function `"@ + name + "`"@, "not found"@),
            );
            &&& typing::check_expr(cx, e, Some(expected), diags).ty is Unknown
            &&& typing::check_expr(cx, e, Some(expected), diags).diags == d
            &&& !(fx.return_type is Void) ==> typing::check_return(
                cx,
                fx,
                Some(e),
                span,
                diags,
            ).diags == d
            &&& forall|x: Seq<char>|
                !cx.env.type_name_exists(x) ==> (#[trigger] typing::check_let(
                    cx,
                    x,
                    Some(expected),
                    e,
                    span,
                    diags,
                )).diags == d
        }),
{
    unknown_call(cx, name, e, Some(expected), diags);
    unknown_call(cx, name, e, Some(fx.return_type), diags);
    reveal(typing::check_return);
    reveal(typing::check_let);
}

proof fn unknown_call(
    cx: CheckM,
    name: Seq<char>,
    e: ExprM,
    hint: Option<TypeM>,
    diags: Seq<DiagM>,
)
    requires
        e.kind matches ExprKindM::Call { callee, args } && callee.kind == ExprKindM::Ident(name)
            && args.len() == 0,
        cx.env.lookup_fn(name) is None,
    ensures
        typing::check_expr(cx, e, hint, diags).ty is Unknown,
        typing::check_expr(cx, e, hint, diags).diags == diags.push(
            cx.diag(e.span, "E492"@, "undeclared function `"@ + name + "`"@, "not found"@),
        ),
{
    reveal(typing::check_expr);
    reveal(typing::check_kind);
    reveal(typing::check_call);
    reveal(typing::check_args);
    reveal(typing::plain_callee);
    let d = diags.push(
        cx.diag(e.span, "E492"@, "undeclared function `"@ + name + "`"@, "not found"@),
    );
    if let ExprKindM::Call { callee, args } = e.kind {
        let none = Seq::<TypeM>::empty();
        assert(typing::check_args(cx, name, none, args, Seq::empty(), d).1 == d);
        assert(typing::check_call(cx, e, diags).diags == d);
        assert(typing::check_kind(cx, e, hint, diags) == typing::check_call(cx, e, diags));
    }
}

/// `&e` of an expression of the type `T` has the type `&T` and `&mut e` the type
/// `&mut T`, and `*` takes both back to `T`. `*e` has the type that `T` refers to;
/// where `T` is no reference, it has no type and gives exactly one diagnostic.
pub proof fn references_are_taken_back(
    cx: CheckM,
    e: ExprM,
    mutable: bool,
    hint: Option<TypeM>,
    span: Span,
    diags: Seq<DiagM>,
)
    requires
        typing::check_expr(cx, e, None, diags).diags == diags,
    ensures
        ({
            let t = typing::check_expr(cx, e, None, diags).expr.ty->0;
            let reference = ast::untyped(ExprKindM::Ref { mutable, operand: Box::new(e) }, span);
            let back = ast::untyped(ExprKindM::Deref { operand: Box::new(reference) }, span);
            let target = ast::untyped(ExprKindM::Deref { operand: Box::new(e) }, span);
            let r = typing::check_expr(cx, reference, hint, diags);
            let b = typing::check_expr(cx, back, hint, diags);
            let d = typing::check_expr(cx, target, hint, diags);
            &&& r.diags == diags
            &&& r.ty == if mutable {
                TypeM::MutRef(Box::new(t))
            } else {
                TypeM::Ref(Box::new(t))
            }
            &&& b.diags == diags
            &&& b.ty == t
            &&& match t.referent() {
                Some(inner) => d.diags == diags && d.ty == inner,
                None => {
                    &&& d.expr.ty == Some(TypeM::Void)
                    &&& d.diags == diags.push(
                        cx.diag(
                            span,
                            "E461"@,
                            "cannot dereference non-reference type `"@ + t.shown() + "`"@,
                            "not a reference"@,
                        ),
                    )
                },
            }
        }),
{
    reveal(typing::check_expr);
    reveal(typing::check_kind);
    let reference = ast::untyped(ExprKindM::Ref { mutable, operand: Box::new(e) }, span);
    let back = ast::untyped(ExprKindM::Deref { operand: Box::new(reference) }, span);
    let target = ast::untyped(ExprKindM::Deref { operand: Box::new(e) }, span);
    let c = typing::check_expr(cx, e, None, diags);
    assert(c.expr.ty == Some(c.ty.settled()));
    let plain = typing::check_kind(cx, reference, None, diags);
    let hinted = typing::check_kind(cx, reference, hint, diags);
    assert(plain.diags == c.diags && hinted.diags == c.diags);
    assert(plain.ty == hinted.ty);
    assert(typing::check_expr(cx, reference, None, diags).ty == plain.ty);
    let k = typing::check_kind(cx, back, hint, diags);
    assert(k.ty == c.ty.settled() && k.diags == diags);
    let x = typing::check_kind(cx, target, hint, diags);
    assert(c.ty.shown() == c.ty.settled().shown());
    assert(x.diags == typing::dereferenced(cx, c.ty, span, diags).1);
}

/// Nothing is assigned through a shared reference: neither what it refers to nor
/// a field of that, whether the field is there directly or in another field.
pub proof fn shared_places_are_not_assigned(
    cx: CheckM,
    e: ExprM,
    field: Seq<char>,
    span: Span,
    diags: Seq<DiagM>,
)
    ensures
        ({
            let c = typing::check_expr(cx, e, None, diags);
            let d = cx.diag(
                span,
                "E422"@,
                "cannot assign through an immutable reference"@,
                "immutable reference"@,
            );
            let (_, ty, after) = typing::check_lvalue(cx, LValueM::Field(e, field, span), diags);
            &&& c.ty is Ref ==> typing::check_lvalue(cx, LValueM::Deref(e, span), diags).2
                == c.diags.push(d)
            &&& typing::through_shared(c.ty) && ty is Some ==> after == c.diags.push(d)
            &&& !c.ty.is_ref() && ty is Some ==> match c.expr.kind {
                ExprKindM::Field { object, .. } => typing::field_is_shared(*object) ==> after
                    == c.diags.push(d),
                _ => true,
            }
        }),
{
    reveal(typing::check_lvalue);
    reveal(typing::check_expr);
}

/// The struct of a module goes by its qualified name alone: in the program the
/// bare name is unknown unless the program declares it itself, and a value made
/// under the qualified name has the qualified type.
pub proof fn module_names_are_qualified(
    cx: CheckM,
    module: Seq<char>,
    name: Seq<char>,
    fields: Seq<(Seq<char>, ExprM)>,
    span: Span,
    diags: Seq<DiagM>,
)
    requires
        typing::find_struct(cx.env.own.structs, name, 0) is None,
        typing::find_struct(cx.env.structs, name, 0) is None,
    ensures
        typing::check_init(cx, StructNameM::Unqualified(name), fields, span, diags).diags.len()
            > diags.len(),
        typing::check_init(cx, StructNameM::Qualified(module, name), fields, span, diags).ty
            == TypeM::Qualified(module, name),
{
    reveal(typing::check_init);
    reveal(typing::check_inits);
    init_order::initializer_diagnostics_are_counted(
        cx,
        StructNameM::Unqualified(name),
        fields,
        span,
        diags,
    );
}

} // verus!
