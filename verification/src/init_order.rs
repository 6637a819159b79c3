//! How many diagnostics a struct initializer gives; the order of its fields does
//! not matter.

use vstd::prelude::*;

use crate::ast::{BinaryOp, ExprKindM, ExprM, FieldDeclM, Span, StructNameM, TypeM, UnaryOp};
use crate::error::DiagM;
use crate::soundness;
use crate::typing;
use crate::typing::{CalleeM, CastM, CheckM, Checked, Rewritten, StructInfoM};

verus! {

// ---------------------------------------------------------------------------
// What was reported before does not matter
// ---------------------------------------------------------------------------

/// Whether as many diagnostics are added to the one list as to the other.
spec fn alike(d1: Seq<DiagM>, r1: Seq<DiagM>, d2: Seq<DiagM>, r2: Seq<DiagM>) -> bool {
    r1.len() - d1.len() == r2.len() - d2.len()
}

proof fn missing_alike(
    cx: CheckM,
    decl: StructInfoM,
    span: Span,
    seen1: Seq<Seq<char>>,
    seen2: Seq<Seq<char>>,
    n: int,
    d1: Seq<DiagM>,
    d2: Seq<DiagM>,
)
    requires
        forall|x: Seq<char>| seen1.contains(x) == seen2.contains(x),
    ensures
        alike(
            d1,
            typing::missing_fields(cx, decl, span, seen1, n, d1),
            d2,
            typing::missing_fields(cx, decl, span, seen2, n, d2),
        ),
    decreases n,
{
    if 0 < n <= decl.fields.len() {
        missing_alike(cx, decl, span, seen1, seen2, n - 1, d1, d2);
    }
}

proof fn boxed_alike(
    cx: CheckM,
    decl: StructInfoM,
    name: Seq<char>,
    c1: Rewritten,
    c2: Rewritten,
    span: Span,
)
    requires
        c1.kind == c2.kind,
        c1.ty == c2.ty,
    ensures
        ({
            let r1 = typing::boxed(cx, decl, name, c1, span);
            let r2 = typing::boxed(cx, decl, name, c2, span);
            &&& r1.kind == r2.kind
            &&& r1.ty == r2.ty
            &&& alike(c1.diags, r1.diags, c2.diags, r2.diags)
        }),
{
    let none = Seq::<Seq<char>>::empty();
    let (s1, d1) = typing::init_field(cx, decl, "inner_value"@, c1.ty, span, none, c1.diags);
    let (s2, d2) = typing::init_field(cx, decl, "inner_value"@, c2.ty, span, none, c2.diags);
    missing_alike(cx, decl, span, s1, s2, decl.fields.len() as int, d1, d2);
}

proof fn machine_literal_alike(
    cx: CheckM,
    kind: ExprKindM,
    ty: TypeM,
    name: Seq<char>,
    span: Span,
    hint: Option<TypeM>,
    d1: Seq<DiagM>,
    d2: Seq<DiagM>,
)
    ensures
        ({
            let r1 = typing::machine_literal(cx, kind, ty, name, span, hint, d1);
            let r2 = typing::machine_literal(cx, kind, ty, name, span, hint, d2);
            &&& r1.kind == r2.kind
            &&& r1.ty == r2.ty
            &&& alike(d1, r1.diags, d2, r2.diags)
        }),
{
    reveal(typing::machine_literal);
    if let Some(decl) = cx.env.lookup_struct(name) {
        boxed_alike(
            cx,
            decl,
            name,
            Rewritten { kind, ty, diags: d1 },
            Rewritten { kind, ty, diags: d2 },
            span,
        );
    }
}

proof fn coded_literal_alike(
    cx: CheckM,
    kind: ExprKindM,
    n: i64,
    name: Seq<char>,
    span: Span,
    d1: Seq<DiagM>,
    d2: Seq<DiagM>,
)
    ensures
        ({
            let r1 = typing::coded_literal(cx, kind, n, name, span, d1);
            let r2 = typing::coded_literal(cx, kind, n, name, span, d2);
            &&& r1.kind == r2.kind
            &&& r1.ty == r2.ty
            &&& alike(d1, r1.diags, d2, r2.diags)
        }),
{
    reveal(typing::coded_literal);
    if let Some(decl) = cx.env.lookup_struct(name) {
        let hint = typing::declared(decl, "inner_value"@);
        machine_literal_alike(
            cx,
            ExprKindM::IntLit(n),
            TypeM::I64,
            "int"@,
            span,
            hint,
            d1,
            d2,
        );
        boxed_alike(
            cx,
            decl,
            name,
            typing::int_literal(cx, n, span, hint, d1),
            typing::int_literal(cx, n, span, hint, d2),
            span,
        );
    }
}

proof fn string_literal_alike(
    cx: CheckM,
    s: Seq<char>,
    span: Span,
    hint: Option<TypeM>,
    d1: Seq<DiagM>,
    d2: Seq<DiagM>,
)
    ensures
        ({
            let r1 = typing::string_literal(cx, s, span, hint, d1);
            let r2 = typing::string_literal(cx, s, span, hint, d2);
            &&& r1.kind == r2.kind
            &&& r1.ty == r2.ty
            &&& alike(d1, r1.diags, d2, r2.diags)
        }),
{
    reveal(typing::string_literal);
    if let Some(decl) = cx.env.lookup_struct("string"@) {
        let none = Seq::<Seq<char>>::empty();
        let (s1, e1) = typing::init_field(cx, decl, "ptr"@, TypeM::I64, span, none, d1);
        let (s2, e2) = typing::init_field(cx, decl, "ptr"@, TypeM::I64, span, none, d2);
        let n = typing::byte_len(s);
        let inner = typing::declared(decl, "length"@);
        machine_literal_alike(
            cx,
            ExprKindM::IntLit(n),
            TypeM::I64,
            "int"@,
            span,
            inner,
            e1,
            e2,
        );
        let l1 = typing::int_literal(cx, n, span, inner, e1);
        let l2 = typing::int_literal(cx, n, span, inner, e2);
        let (t1, f1) = typing::init_field(cx, decl, "length"@, l1.ty, span, s1, l1.diags);
        let (t2, f2) = typing::init_field(cx, decl, "length"@, l2.ty, span, s2, l2.diags);
        missing_alike(cx, decl, span, t1, t2, decl.fields.len() as int, f1, f2);
    }
}

proof fn unary_op_alike(cx: CheckM, op: UnaryOp, c1: Checked, c2: Checked, span: Span)
    requires
        c1.expr == c2.expr,
        c1.ty == c2.ty,
    ensures
        ({
            let r1 = typing::unary_op(cx, op, c1, span);
            let r2 = typing::unary_op(cx, op, c2, span);
            &&& r1.kind == r2.kind
            &&& r1.ty == r2.ty
            &&& alike(c1.diags, r1.diags, c2.diags, r2.diags)
        }),
{
    reveal(typing::unary_op);
}

proof fn binary_op_alike(
    cx: CheckM,
    op: BinaryOp,
    left: ExprM,
    ty: TypeM,
    c1: Checked,
    c2: Checked,
    span: Span,
)
    requires
        c1.expr == c2.expr,
        c1.ty == c2.ty,
    ensures
        ({
            let r1 = typing::binary_op(cx, op, left, ty, c1, span);
            let r2 = typing::binary_op(cx, op, left, ty, c2, span);
            &&& r1.kind == r2.kind
            &&& r1.ty == r2.ty
            &&& alike(c1.diags, r1.diags, c2.diags, r2.diags)
        }),
{
    reveal(typing::binary_op);
}

proof fn cast_op_alike(cx: CheckM, c1: Checked, c2: Checked, target: TypeM, span: Span)
    requires
        c1.expr == c2.expr,
        c1.ty == c2.ty,
    ensures
        match (typing::cast_op(cx, c1, target, span), typing::cast_op(cx, c2, target, span)) {
            (CastM::Done(r1), CastM::Done(r2)) => {
                &&& r1.kind == r2.kind
                &&& r1.ty == r2.ty
                &&& alike(c1.diags, r1.diags, c2.diags, r2.diags)
            },
            (CastM::Box(n1, f1), CastM::Box(n2, f2)) => n1 == n2 && f1 == f2,
            _ => false,
        },
{
    reveal(typing::cast_op);
}

/// What was reported before an expression is checked does not change what it is
/// rewritten to, its type, or how much is reported on it.
pub proof fn check_expr_alike(
    cx: CheckM,
    e: ExprM,
    hint: Option<TypeM>,
    d1: Seq<DiagM>,
    d2: Seq<DiagM>,
)
    ensures
        ({
            let c1 = typing::check_expr(cx, e, hint, d1);
            let c2 = typing::check_expr(cx, e, hint, d2);
            &&& c1.expr == c2.expr
            &&& c1.ty == c2.ty
            &&& c1.diags.len() - d1.len() == c2.diags.len() - d2.len()
        }),
    decreases typing::casts(e), e, 2nat,
{
    reveal(typing::check_expr);
    reveal(typing::check_kind);
    check_kind_alike(cx, e, hint, d1, d2);
}

proof fn check_kind_alike(
    cx: CheckM,
    e: ExprM,
    hint: Option<TypeM>,
    d1: Seq<DiagM>,
    d2: Seq<DiagM>,
)
    ensures
        ({
            let r1 = typing::check_kind(cx, e, hint, d1);
            let r2 = typing::check_kind(cx, e, hint, d2);
            &&& r1.kind == r2.kind
            &&& r1.ty == r2.ty
            &&& alike(d1, r1.diags, d2, r2.diags)
        }),
    decreases typing::casts(e), e, 1nat,
{
    reveal(typing::check_kind);
    reveal(typing::check_expr);
    let span = e.span;
    match e.kind {
        ExprKindM::IntLit(n) => {
            machine_literal_alike(cx, e.kind, TypeM::I64, "int"@, span, hint, d1, d2);
        },
        ExprKindM::FloatLit(f) => {
            machine_literal_alike(cx, e.kind, TypeM::F64, "float"@, span, hint, d1, d2);
        },
        ExprKindM::CharLit(c) => {
            coded_literal_alike(cx, e.kind, c as i64, "char"@, span, d1, d2);
        },
        ExprKindM::BoolLit(b) => {
            let n: i64 = if b {
                1
            } else {
                0
            };
            coded_literal_alike(cx, e.kind, n, "bool"@, span, d1, d2);
        },
        ExprKindM::StringLit(s) => {
            string_literal_alike(cx, s, span, hint, d1, d2);
        },
        ExprKindM::Ident(_) => {},
        ExprKindM::QualifiedIdent { .. } => {},
        ExprKindM::Ref { operand, .. } => {
            check_expr_alike(cx, *operand, None, d1, d2);
        },
        ExprKindM::Deref { operand } => {
            check_expr_alike(cx, *operand, None, d1, d2);
        },
        ExprKindM::Unary { op, operand } => {
            check_expr_alike(cx, *operand, None, d1, d2);
            let c1 = typing::check_expr(cx, *operand, None, d1);
            let c2 = typing::check_expr(cx, *operand, None, d2);
            unary_op_alike(cx, op, c1, c2, span);
        },
        ExprKindM::Binary { op, left, right } => {
            check_expr_alike(cx, *left, None, d1, d2);
            let l1 = typing::check_expr(cx, *left, None, d1);
            let l2 = typing::check_expr(cx, *left, None, d2);
            check_expr_alike(cx, *right, None, l1.diags, l2.diags);
            let r1 = typing::check_expr(cx, *right, None, l1.diags);
            let r2 = typing::check_expr(cx, *right, None, l2.diags);
            binary_op_alike(cx, op, l1.expr, l1.ty, r1, r2, span);
        },
        ExprKindM::Cast { expr, target_type } => {
            check_expr_alike(cx, *expr, None, d1, d2);
            let c1 = typing::check_expr(cx, *expr, None, d1);
            let c2 = typing::check_expr(cx, *expr, None, d2);
            cast_op_alike(cx, c1, c2, target_type, span);
            if let CastM::Box(name, field) = typing::cast_op(cx, c1, target_type, span) {
                let fields = seq![(field, c1.expr)];
                assert(fields == seq![(field, c2.expr)]);
                if typing::init_casts(fields) < typing::casts(e) {
                    reveal(typing::check_init);
                    check_init_alike(
                        cx,
                        name,
                        fields,
                        span,
                        c1.diags,
                        c2.diags,
                    );
                }
            }
        },
        ExprKindM::Call { .. } => {
            reveal(typing::check_call);
            check_call_alike(cx, e, d1, d2);
        },
        ExprKindM::Field { object, .. } => {
            check_expr_alike(cx, *object, None, d1, d2);
        },
        ExprKindM::StructInit { name, fields } => {
            reveal(typing::check_init);
            check_init_alike(cx, name, fields, span, d1, d2);
        },
    }
}

proof fn check_call_alike(cx: CheckM, e: ExprM, d1: Seq<DiagM>, d2: Seq<DiagM>)
    requires
        e.kind is Call,
    ensures
        ({
            let r1 = typing::check_call(cx, e, d1);
            let r2 = typing::check_call(cx, e, d2);
            &&& r1.kind == r2.kind
            &&& r1.ty == r2.ty
            &&& alike(d1, r1.diags, d2, r2.diags)
        }),
    decreases typing::casts(e), e, 0nat,
{
    reveal(typing::check_call);
    reveal(typing::check_expr);
    reveal(typing::check_args);
    reveal(typing::method_callee);
    let span = e.span;
    let callee = e.kind->callee;
    let args = e.kind->args;
    assert(decreases_to!(e => *callee));
    assert(decreases_to!(e => args));
    match callee.kind {
        ExprKindM::Field { object, field } => {
            assert(typing::casts(*callee) == typing::casts(*object));
            check_expr_alike(cx, *object, None, d1, d2);
            let c1 = typing::check_expr(cx, *object, None, d1);
            let c2 = typing::check_expr(cx, *object, None, d2);
            if let CalleeM::Known { params, shown, ty } = typing::method_callee(
                cx,
                c1.ty,
                field,
                span,
            ) {
                check_args_alike(
                    cx,
                    shown,
                    params,
                    args,
                    Seq::empty(),
                    typing::arg_count_diags(cx, shown, params.len(), args.len(), span, c1.diags),
                    typing::arg_count_diags(cx, shown, params.len(), args.len(), span, c2.diags),
                );
            }
        },
        _ => {
            match typing::plain_callee(cx, callee.kind, span) {
                CalleeM::Known { params, shown, ty } => {
                    check_args_alike(
                        cx,
                        shown,
                        params,
                        args,
                        Seq::empty(),
                        typing::arg_count_diags(cx, shown, params.len(), args.len(), span, d1),
                        typing::arg_count_diags(cx, shown, params.len(), args.len(), span, d2),
                    );
                },
                CalleeM::Unknown(name) => {
                    let x = cx.diag(
                        span,
                        "E492"@,
                        "undeclared function `"@ + name + "`"@,
                        "not found"@,
                    );
                    check_args_alike(
                        cx,
                        name,
                        Seq::empty(),
                        args,
                        Seq::empty(),
                        d1.push(x),
                        d2.push(x),
                    );
                },
                CalleeM::Bad(_) => {},
            }
        },
    }
}

proof fn check_args_alike(
    cx: CheckM,
    shown: Seq<char>,
    params: Seq<TypeM>,
    args: Seq<ExprM>,
    done: Seq<ExprM>,
    d1: Seq<DiagM>,
    d2: Seq<DiagM>,
)
    ensures
        ({
            let (a1, r1) = typing::check_args(cx, shown, params, args, done, d1);
            let (a2, r2) = typing::check_args(cx, shown, params, args, done, d2);
            a1 == a2 && alike(d1, r1, d2, r2)
        }),
    decreases
            typing::all_casts(args),
            args,
            if done.len() < args.len() {
                (args.len() - done.len()) as nat
            } else {
                0
            },
{
    reveal(typing::check_args);
    reveal(typing::check_expr);
    if done.len() < args.len() {
        let i = done.len();
        let e = args[i as int];
        typing::casts_at(args, i as int);
        let hint = typing::hint_at(params, i as int);
        check_expr_alike(cx, e, hint, d1, d2);
        let c1 = typing::check_expr(cx, e, hint, d1);
        let c2 = typing::check_expr(cx, e, hint, d2);
        check_args_alike(
            cx,
            shown,
            params,
            args,
            done.push(c1.expr),
            typing::arg_diags(cx, shown, params, i, c1.ty, e.span, c1.diags),
            typing::arg_diags(cx, shown, params, i, c2.ty, e.span, c2.diags),
        );
    }
}

proof fn check_init_alike(
    cx: CheckM,
    name: StructNameM,
    fields: Seq<(Seq<char>, ExprM)>,
    span: Span,
    d1: Seq<DiagM>,
    d2: Seq<DiagM>,
)
    ensures
        ({
            let r1 = typing::check_init(cx, name, fields, span, d1);
            let r2 = typing::check_init(cx, name, fields, span, d2);
            &&& r1.kind == r2.kind
            &&& r1.ty == r2.ty
            &&& alike(d1, r1.diags, d2, r2.diags)
        }),
    decreases typing::init_casts(fields), fields, fields.len() + 1,
{
    reveal(typing::check_init);
    reveal(typing::check_inits);
    let none = Seq::<Seq<char>>::empty();
    match typing::init_target(cx.env, name) {
        Some(decl) => {
            check_inits_alike(cx, Some(decl), fields, Seq::empty(), none, d1, d2);
            let (_, s1, r1) = typing::check_inits(cx, Some(decl), fields, Seq::empty(), none, d1);
            let (_, s2, r2) = typing::check_inits(cx, Some(decl), fields, Seq::empty(), none, d2);
            missing_alike(cx, decl, span, s1, s2, decl.fields.len() as int, r1, r2);
        },
        None => {
            let x = cx.diag(
                span,
                "E495"@,
                "unknown struct `"@ + name.base() + "`"@,
                "unknown struct"@,
            );
            check_inits_alike(cx, None, fields, Seq::empty(), none, d1.push(x), d2.push(x));
        },
    }
}

proof fn check_inits_alike(
    cx: CheckM,
    decl: Option<StructInfoM>,
    fields: Seq<(Seq<char>, ExprM)>,
    done: Seq<(Seq<char>, ExprM)>,
    seen: Seq<Seq<char>>,
    d1: Seq<DiagM>,
    d2: Seq<DiagM>,
)
    ensures
        ({
            let (a1, s1, r1) = typing::check_inits(cx, decl, fields, done, seen, d1);
            let (a2, s2, r2) = typing::check_inits(cx, decl, fields, done, seen, d2);
            a1 == a2 && s1 == s2 && alike(d1, r1, d2, r2)
        }),
    decreases
            typing::init_casts(fields),
            fields,
            if done.len() < fields.len() {
                (fields.len() - done.len()) as nat
            } else {
                0
            },
{
    reveal(typing::check_inits);
    reveal(typing::check_expr);
    if done.len() < fields.len() {
        let i = done.len() as int;
        let (name, e) = fields[i];
        typing::init_casts_at(fields, i);
        let hint = match decl {
            Some(s) => typing::declared(s, name),
            None => None,
        };
        check_expr_alike(cx, e, hint, d1, d2);
        let c1 = typing::check_expr(cx, e, hint, d1);
        let c2 = typing::check_expr(cx, e, hint, d2);
        let (s1, e1) = match decl {
            Some(s) => typing::init_field(cx, s, name, c1.ty, e.span, seen, c1.diags),
            None => (seen, c1.diags),
        };
        let (s2, e2) = match decl {
            Some(s) => typing::init_field(cx, s, name, c2.ty, e.span, seen, c2.diags),
            None => (seen, c2.diags),
        };
        check_inits_alike(cx, decl, fields, done.push((name, c1.expr)), s1, e1, e2);
    }
}

// ---------------------------------------------------------------------------
// How many diagnostics an initializer gives
// ---------------------------------------------------------------------------

/// How many diagnostics a field of an initializer gives by itself: those of its
/// value, one if the value does not fit, and one if the struct has no such field.
pub open spec fn field_faults(
    cx: CheckM,
    decl: Option<StructInfoM>,
    f: (Seq<char>, ExprM),
) -> nat {
    match decl {
        None => typing::check_expr(cx, f.1, None, Seq::empty()).diags.len(),
        Some(s) => {
            let ty = typing::declared(s, f.0);
            let c = typing::check_expr(cx, f.1, ty, Seq::empty());
            c.diags.len() + match ty {
                None => 1nat,
                Some(t) => if c.ty is Unknown || cx.env.compatible(t, c.ty) {
                    0
                } else {
                    1
                },
            }
        },
    }
}

pub open spec fn all_field_faults(
    cx: CheckM,
    decl: Option<StructInfoM>,
    fields: Seq<(Seq<char>, ExprM)>,
) -> nat
    decreases fields.len(),
{
    if fields.len() == 0 {
        0
    } else {
        all_field_faults(cx, decl, fields.drop_last()) + field_faults(cx, decl, fields.last())
    }
}

/// The names of the struct's fields that an initializer gives, each as often as
/// it is given.
pub open spec fn given_names(decl: StructInfoM, fields: Seq<(Seq<char>, ExprM)>) -> Seq<Seq<char>>
    decreases fields.len(),
{
    if fields.len() == 0 {
        Seq::empty()
    } else {
        let before = given_names(decl, fields.drop_last());
        if typing::declared(decl, fields.last().0) is Some {
            before.push(fields.last().0)
        } else {
            before
        }
    }
}

/// How many of the names are there again.
pub open spec fn repeats(names: Seq<Seq<char>>) -> int {
    names.len() - names.to_set().len()
}

/// How many of the first `n` fields of the struct are not among the names.
pub open spec fn missing_count(decl: StructInfoM, names: Seq<Seq<char>>, n: int) -> nat
    decreases n,
{
    if n <= 0 || n > decl.fields.len() {
        0
    } else {
        missing_count(decl, names, n - 1) + if names.contains(decl.fields[n - 1].name) {
            0nat
        } else {
            1
        }
    }
}

/// How many diagnostics an initializer gives.
pub open spec fn init_faults(
    cx: CheckM,
    name: StructNameM,
    fields: Seq<(Seq<char>, ExprM)>,
) -> int {
    match typing::init_target(cx.env, name) {
        None => 1int + all_field_faults(cx, None, fields),
        Some(decl) => {
            let names = given_names(decl, fields);
            all_field_faults(cx, Some(decl), fields) + repeats(names) + missing_count(
                decl,
                names,
                decl.fields.len() as int,
            )
        },
    }
}

proof fn repeats_with(names: Seq<Seq<char>>, x: Seq<char>)
    ensures
        repeats(names.push(x)) == repeats(names) + (if names.contains(x) {
            1int
        } else {
            0
        }),
{
    vstd::seq_lib::seq_to_set_is_finite(names);
    let more = names.push(x);
    assert forall|y: Seq<char>| more.to_set().contains(y) <==> names.to_set().insert(x).contains(
        y,
    ) by {
        if names.contains(y) {
            let j = choose|j: int| 0 <= j < names.len() && names[j] == y;
            assert(more[j] == y);
        }
        assert(more[names.len() as int] == x);
    }
    assert(more.to_set() =~= names.to_set().insert(x));
}

proof fn missing_counted(
    cx: CheckM,
    decl: StructInfoM,
    span: Span,
    seen: Seq<Seq<char>>,
    n: int,
    diags: Seq<DiagM>,
)
    ensures
        typing::missing_fields(cx, decl, span, seen, n, diags).len() == diags.len()
            + missing_count(decl, seen, n),
    decreases n,
{
    if 0 < n <= decl.fields.len() {
        missing_counted(cx, decl, span, seen, n - 1, diags);
    }
}

proof fn inits_counted(
    cx: CheckM,
    decl: Option<StructInfoM>,
    fields: Seq<(Seq<char>, ExprM)>,
    done: Seq<(Seq<char>, ExprM)>,
    seen: Seq<Seq<char>>,
    diags: Seq<DiagM>,
)
    requires
        done.len() <= fields.len(),
        match decl {
            Some(s) => seen == given_names(s, fields.take(done.len() as int)),
            None => true,
        },
    ensures
        ({
            let (_, noted, d) = typing::check_inits(cx, decl, fields, done, seen, diags);
            let added = all_field_faults(cx, decl, fields) - all_field_faults(
                cx,
                decl,
                fields.take(done.len() as int),
            );
            match decl {
                Some(s) => {
                    &&& noted == given_names(s, fields)
                    &&& d.len() == diags.len() + added + repeats(noted) - repeats(seen)
                },
                None => d.len() == diags.len() + added,
            }
        }),
    decreases fields.len() - done.len(),
{
    reveal(typing::check_inits);
    reveal(typing::check_expr);
    let i = done.len() as int;
    if i < fields.len() {
        let (name, e) = fields[i];
        let hint = match decl {
            Some(s) => typing::declared(s, name),
            None => None,
        };
        check_expr_alike(cx, e, hint, diags, Seq::empty());
        let c = typing::check_expr(cx, e, hint, diags);
        let (seen1, d) = match decl {
            Some(s) => typing::init_field(cx, s, name, c.ty, e.span, seen, c.diags),
            None => (seen, c.diags),
        };
        assert(fields.take(i + 1).drop_last() =~= fields.take(i));
        assert(fields.take(i + 1).last() == fields[i]);
        repeats_with(seen, name);
        inits_counted(cx, decl, fields, done.push((name, c.expr)), seen1, d);
    } else {
        assert(fields.take(i) =~= fields);
    }
}

/// An initializer gives one diagnostic for each field that is missing, unknown or
/// given again, and for each value that does not fit, besides those of the
/// values themselves. One of an unknown struct gives one for that.
pub proof fn initializer_diagnostics_are_counted(
    cx: CheckM,
    name: StructNameM,
    fields: Seq<(Seq<char>, ExprM)>,
    span: Span,
    diags: Seq<DiagM>,
)
    ensures
        typing::check_init(cx, name, fields, span, diags).diags.len() == diags.len() + init_faults(
            cx,
            name,
            fields,
        ),
{
    reveal(typing::check_init);
    reveal(typing::check_inits);
    let none = Seq::<Seq<char>>::empty();
    assert(fields.take(0) =~= Seq::empty());
    match typing::init_target(cx.env, name) {
        Some(decl) => {
            inits_counted(cx, Some(decl), fields, Seq::empty(), none, diags);
            assert(none.to_set() =~= Set::<Seq<char>>::empty());
            let (_, seen, d) = typing::check_inits(
                cx,
                Some(decl),
                fields,
                Seq::empty(),
                none,
                diags,
            );
            missing_counted(cx, decl, span, seen, decl.fields.len() as int, d);
        },
        None => {
            let x = cx.diag(
                span,
                "E495"@,
                "unknown struct `"@ + name.base() + "`"@,
                "unknown struct"@,
            );
            inits_counted(cx, None, fields, Seq::empty(), none, diags.push(x));
        },
    }
}

proof fn faults_without(
    cx: CheckM,
    decl: Option<StructInfoM>,
    s: Seq<(Seq<char>, ExprM)>,
    k: int,
)
    requires
        0 <= k < s.len(),
    ensures
        all_field_faults(cx, decl, s) == all_field_faults(cx, decl, s.remove(k)) + field_faults(
            cx,
            decl,
            s[k],
        ),
    decreases s.len(),
{
    let rest = s.remove(k);
    if k == s.len() - 1 {
        assert(rest =~= s.drop_last());
    } else {
        faults_without(cx, decl, s.drop_last(), k);
        assert(rest.drop_last() =~= s.drop_last().remove(k));
        assert(rest.last() == s.last());
    }
}

proof fn faults_rearranged(
    cx: CheckM,
    decl: Option<StructInfoM>,
    a: Seq<(Seq<char>, ExprM)>,
    b: Seq<(Seq<char>, ExprM)>,
)
    requires
        a.to_multiset() == b.to_multiset(),
    ensures
        all_field_faults(cx, decl, a) == all_field_faults(cx, decl, b),
    decreases a.len(),
{
    broadcast use vstd::seq_lib::group_to_multiset_ensures;

    assert(a.to_multiset().len() == a.len());
    assert(b.to_multiset().len() == b.len());
    if a.len() > 0 {
        let x = a.last();
        let rest = a.drop_last();
        assert(a =~= rest.push(x));
        assert(a.contains(x));
        assert(b.to_multiset().count(x) > 0);
        assert(b.contains(x));
        let k = choose|k: int| 0 <= k < b.len() && b[k] == x;
        faults_without(cx, decl, b, k);
        assert(rest.push(x).to_multiset() =~= rest.to_multiset().insert(x));
        assert(b.remove(k).to_multiset() =~= b.to_multiset().remove(x));
        assert(rest.to_multiset() =~= b.remove(k).to_multiset());
        faults_rearranged(cx, decl, rest, b.remove(k));
    }
}

proof fn given_without(decl: StructInfoM, s: Seq<(Seq<char>, ExprM)>, k: int)
    requires
        0 <= k < s.len(),
    ensures
        given_names(decl, s).len() == given_names(decl, s.remove(k)).len() + (
        if typing::declared(decl, s[k].0) is Some {
            1nat
        } else {
            0
        }),
    decreases s.len(),
{
    let rest = s.remove(k);
    if k == s.len() - 1 {
        assert(rest =~= s.drop_last());
    } else {
        given_without(decl, s.drop_last(), k);
        assert(rest.drop_last() =~= s.drop_last().remove(k));
        assert(rest.last() == s.last());
    }
}

proof fn given_rearranged(
    decl: StructInfoM,
    a: Seq<(Seq<char>, ExprM)>,
    b: Seq<(Seq<char>, ExprM)>,
)
    requires
        a.to_multiset() == b.to_multiset(),
    ensures
        given_names(decl, a).len() == given_names(decl, b).len(),
    decreases a.len(),
{
    broadcast use vstd::seq_lib::group_to_multiset_ensures;

    assert(a.to_multiset().len() == a.len());
    assert(b.to_multiset().len() == b.len());
    if a.len() > 0 {
        let x = a.last();
        let rest = a.drop_last();
        assert(a =~= rest.push(x));
        assert(a.contains(x));
        assert(b.to_multiset().count(x) > 0);
        assert(b.contains(x));
        let k = choose|k: int| 0 <= k < b.len() && b[k] == x;
        given_without(decl, b, k);
        assert(rest.push(x).to_multiset() =~= rest.to_multiset().insert(x));
        assert(b.remove(k).to_multiset() =~= b.to_multiset().remove(x));
        assert(rest.to_multiset() =~= b.remove(k).to_multiset());
        given_rearranged(decl, rest, b.remove(k));
    }
}

proof fn given_names_hold(decl: StructInfoM, s: Seq<(Seq<char>, ExprM)>, x: Seq<char>)
    ensures
        given_names(decl, s).contains(x) <==> typing::declared(decl, x) is Some && exists|j: int|
            0 <= j < s.len() && (#[trigger] s[j]).0 == x,
    decreases s.len(),
{
    if s.len() > 0 {
        let rest = s.drop_last();
        let before = given_names(decl, rest);
        let names = given_names(decl, s);
        given_names_hold(decl, rest, x);
        if names.contains(x) {
            let j = choose|j: int| 0 <= j < names.len() && names[j] == x;
            if j < before.len() {
                assert(before[j] == x);
                let k = choose|k: int| 0 <= k < rest.len() && (#[trigger] rest[k]).0 == x;
                assert(s[k].0 == x);
            } else {
                assert(s[s.len() - 1].0 == x);
            }
        }
        if typing::declared(decl, x) is Some && exists|j: int|
            0 <= j < s.len() && (#[trigger] s[j]).0 == x {
            let j = choose|j: int| 0 <= j < s.len() && (#[trigger] s[j]).0 == x;
            if j < rest.len() {
                assert(rest[j].0 == x);
                assert(before.contains(x));
                let k = choose|k: int| 0 <= k < before.len() && before[k] == x;
                assert(names[k] == x);
            } else {
                assert(names[names.len() - 1] == x);
            }
        }
    }
}

proof fn missing_count_of(
    decl: StructInfoM,
    a: Seq<Seq<char>>,
    b: Seq<Seq<char>>,
    n: int,
)
    requires
        forall|x: Seq<char>| a.contains(x) == b.contains(x),
    ensures
        missing_count(decl, a, n) == missing_count(decl, b, n),
    decreases n,
{
    if 0 < n <= decl.fields.len() {
        missing_count_of(decl, a, b, n - 1);
    }
}

proof fn names_rearranged(
    decl: StructInfoM,
    fields: Seq<(Seq<char>, ExprM)>,
    other: Seq<(Seq<char>, ExprM)>,
)
    requires
        fields.to_multiset() == other.to_multiset(),
    ensures
        given_names(decl, fields).len() == given_names(decl, other).len(),
        forall|x: Seq<char>|
            given_names(decl, fields).contains(x) == given_names(decl, other).contains(x),
{
    broadcast use vstd::seq_lib::group_to_multiset_ensures;

    let a = given_names(decl, fields);
    let b = given_names(decl, other);
    given_rearranged(decl, fields, other);
    assert forall|x: Seq<char>| a.contains(x) == b.contains(x) by {
        given_names_hold(decl, fields, x);
        given_names_hold(decl, other, x);
        if exists|j: int| 0 <= j < fields.len() && (#[trigger] fields[j]).0 == x {
            let j = choose|j: int| 0 <= j < fields.len() && (#[trigger] fields[j]).0 == x;
            assert(fields.contains(fields[j]));
            assert(other.to_multiset().count(fields[j]) > 0);
            assert(other.contains(fields[j]));
            let k = choose|k: int| 0 <= k < other.len() && other[k] == fields[j];
            assert(other[k].0 == x);
        }
        if exists|j: int| 0 <= j < other.len() && (#[trigger] other[j]).0 == x {
            let j = choose|j: int| 0 <= j < other.len() && (#[trigger] other[j]).0 == x;
            assert(other.contains(other[j]));
            assert(fields.to_multiset().count(other[j]) > 0);
            assert(fields.contains(other[j]));
            let k = choose|k: int| 0 <= k < fields.len() && fields[k] == other[j];
            assert(fields[k].0 == x);
        }
    }
}

/// The fields of a struct initializer may appear in any order: it has the same
/// type in each of them, and gives as many diagnostics.
pub proof fn field_order_does_not_matter(
    cx: CheckM,
    name: StructNameM,
    fields: Seq<(Seq<char>, ExprM)>,
    other: Seq<(Seq<char>, ExprM)>,
    span: Span,
    diags: Seq<DiagM>,
)
    requires
        fields.to_multiset() == other.to_multiset(),
    ensures
        ({
            let a = typing::check_init(cx, name, fields, span, diags);
            let b = typing::check_init(cx, name, other, span, diags);
            &&& a.diags.len() == b.diags.len()
            &&& a.ty == b.ty
        }),
{
    broadcast use vstd::seq_lib::group_to_multiset_ensures;

    reveal(typing::check_init);
    reveal(typing::check_inits);
    initializer_diagnostics_are_counted(cx, name, fields, span, diags);
    initializer_diagnostics_are_counted(cx, name, other, span, diags);
    let decl = typing::init_target(cx.env, name);
    faults_rearranged(cx, decl, fields, other);
    if let Some(d) = decl {
        let a = given_names(d, fields);
        let b = given_names(d, other);
        names_rearranged(d, fields, other);
        assert(a.to_set() =~= b.to_set());
        missing_count_of(d, a, b, d.fields.len() as int);
    }
}

// ---------------------------------------------------------------------------
// Initializers whose values fit
// ---------------------------------------------------------------------------

/// Whether the value of a field, checked by itself, gives no diagnostic, and fits
/// if the struct has the field.
pub open spec fn value_fits(cx: CheckM, decl: StructInfoM, f: (Seq<char>, ExprM)) -> bool {
    let ty = typing::declared(decl, f.0);
    let c = typing::check_expr(cx, f.1, ty, Seq::empty());
    &&& c.diags.len() == 0
    &&& match ty {
        Some(t) => c.ty is Unknown || cx.env.compatible(t, c.ty),
        None => true,
    }
}

pub open spec fn values_fit(
    cx: CheckM,
    decl: StructInfoM,
    fields: Seq<(Seq<char>, ExprM)>,
) -> bool {
    forall|i: int| 0 <= i < fields.len() ==> value_fits(cx, decl, #[trigger] fields[i])
}

/// How many of the diagnostics have that code.
pub open spec fn coded(ds: Seq<DiagM>, code: Seq<char>) -> nat
    decreases ds.len(),
{
    if ds.len() == 0 {
        0
    } else {
        coded(ds.drop_last(), code) + if ds.last().code == code {
            1nat
        } else {
            0
        }
    }
}

/// How many of the fields that are given the struct does not have.
pub open spec fn unknown_count(decl: StructInfoM, fields: Seq<(Seq<char>, ExprM)>) -> int {
    fields.len() - given_names(decl, fields).len()
}

/// The names that an initializer gives.
pub open spec fn all_names(fields: Seq<(Seq<char>, ExprM)>) -> Seq<Seq<char>> {
    Seq::new(fields.len(), |i: int| fields[i].0)
}

/// The names of the fields of a struct.
pub open spec fn field_names(decl: StructInfoM) -> Seq<Seq<char>> {
    Seq::new(decl.fields.len(), |i: int| decl.fields[i].name)
}

/// Whether the later diagnostics are the earlier ones with so many of each kind
/// behind them, and nothing else.
pub open spec fn added_by_kind(
    before: Seq<DiagM>,
    after: Seq<DiagM>,
    missing: int,
    unknown: int,
    repeated: int,
) -> bool {
    &&& after.len() == before.len() + missing + unknown + repeated
    &&& forall|i: int| 0 <= i < before.len() ==> #[trigger] after[i] == before[i]
    &&& coded(after, "E499"@) == coded(before, "E499"@) + missing
    &&& coded(after, "E498"@) == coded(before, "E498"@) + unknown
    &&& coded(after, "E497"@) == coded(before, "E497"@) + repeated
    &&& forall|code: Seq<char>|
        code != "E499"@ && code != "E498"@ && code != "E497"@ ==> #[trigger] coded(after, code)
            == coded(before, code)
}

proof fn kinds_differ()
    ensures
        "E499"@ != "E498"@,
        "E499"@ != "E497"@,
        "E498"@ != "E497"@,
{
    reveal_strlit("E499");
    reveal_strlit("E498");
    reveal_strlit("E497");
    assert("E499"@[3] == '9');
    assert("E498"@[3] == '8');
    assert("E497"@[3] == '7');
}

proof fn coded_with(ds: Seq<DiagM>, d: DiagM)
    ensures
        forall|code: Seq<char>|
            #[trigger] coded(ds.push(d), code) == coded(ds, code) + if d.code == code {
                1nat
            } else {
                0
            },
{
    assert(ds.push(d).drop_last() =~= ds);
}

proof fn missing_by_kind(
    cx: CheckM,
    decl: StructInfoM,
    span: Span,
    seen: Seq<Seq<char>>,
    n: int,
    diags: Seq<DiagM>,
)
    ensures
        added_by_kind(
            diags,
            typing::missing_fields(cx, decl, span, seen, n, diags),
            missing_count(decl, seen, n) as int,
            0,
            0,
        ),
    decreases n,
{
    kinds_differ();
    if 0 < n <= decl.fields.len() {
        missing_by_kind(cx, decl, span, seen, n - 1, diags);
        let before = typing::missing_fields(cx, decl, span, seen, n - 1, diags);
        let d = cx.diag(
            span,
            "E499"@,
            "missing field `"@ + decl.fields[n - 1].name + "` in initializer for `"@ + decl.name
                + "`"@,
            "missing field"@,
        );
        coded_with(before, d);
    }
}

proof fn inits_by_kind(
    cx: CheckM,
    decl: StructInfoM,
    fields: Seq<(Seq<char>, ExprM)>,
    done: Seq<(Seq<char>, ExprM)>,
    seen: Seq<Seq<char>>,
    diags: Seq<DiagM>,
)
    requires
        done.len() <= fields.len(),
        values_fit(cx, decl, fields),
        seen == given_names(decl, fields.take(done.len() as int)),
    ensures
        ({
            let (_, noted, d) = typing::check_inits(cx, Some(decl), fields, done, seen, diags);
            &&& noted == given_names(decl, fields)
            &&& added_by_kind(
                diags,
                d,
                0,
                unknown_count(decl, fields) - unknown_count(
                    decl,
                    fields.take(done.len() as int),
                ),
                repeats(noted) - repeats(seen),
            )
        }),
    decreases fields.len() - done.len(),
{
    kinds_differ();
    reveal(typing::check_inits);
    reveal(typing::check_expr);
    let i = done.len() as int;
    if i < fields.len() {
        let (name, e) = fields[i];
        let hint = typing::declared(decl, name);
        assert(value_fits(cx, decl, fields[i]));
        check_expr_alike(cx, e, hint, diags, Seq::empty());
        soundness::check_expr_facts(cx, e, hint, diags);
        let c = typing::check_expr(cx, e, hint, diags);
        assert(c.diags =~= diags);
        let (seen1, d) = typing::init_field(cx, decl, name, c.ty, e.span, seen, c.diags);
        coded_with(
            diags,
            cx.diag(
                e.span,
                "E497"@,
                "duplicate field `"@ + name + "` in struct initializer"@,
                "duplicate field"@,
            ),
        );
        coded_with(
            diags,
            cx.diag(
                e.span,
                "E498"@,
                "`"@ + decl.name + "` has no field `"@ + name + "`"@,
                "no such field"@,
            ),
        );
        assert(fields.take(i + 1).drop_last() =~= fields.take(i));
        assert(fields.take(i + 1).last() == fields[i]);
        repeats_with(seen, name);
        inits_by_kind(cx, decl, fields, done.push((name, c.expr)), seen1, d);
    } else {
        assert(fields.take(i) =~= fields);
    }
}

proof fn last_field_names(fields: Seq<FieldDeclM>, name: Seq<char>, n: int)
    requires
        0 <= n <= fields.len(),
    ensures
        typing::last_field(fields, name, n) is Some <==> exists|i: int|
            0 <= i < n && (#[trigger] fields[i]).name == name,
    decreases n,
{
    if n > 0 {
        last_field_names(fields, name, n - 1);
        if fields[n - 1].name == name {
            assert(0 <= n - 1 < n && fields[n - 1].name == name);
        }
    }
}

proof fn declared_is_a_field(decl: StructInfoM, name: Seq<char>)
    ensures
        typing::declared(decl, name) is Some <==> field_names(decl).contains(name),
{
    last_field_names(decl.fields, name, decl.fields.len() as int);
    let names = field_names(decl);
    if typing::declared(decl, name) is Some {
        let i = choose|i: int| 0 <= i < decl.fields.len() && (#[trigger] decl.fields[i]).name == name;
        assert(names[i] == name);
    }
    if names.contains(name) {
        let i = choose|i: int| 0 <= i < names.len() && names[i] == name;
        assert(decl.fields[i].name == name);
    }
}

proof fn given_names_of_known(decl: StructInfoM, fields: Seq<(Seq<char>, ExprM)>)
    ensures
        given_names(decl, fields).len() <= fields.len(),
        given_names(decl, fields).len() == fields.len() <==> forall|i: int|
            0 <= i < fields.len() ==> typing::declared(decl, (#[trigger] fields[i]).0) is Some,
        given_names(decl, fields).len() == fields.len() ==> given_names(decl, fields)
            == all_names(fields),
    decreases fields.len(),
{
    if fields.len() > 0 {
        let rest = fields.drop_last();
        given_names_of_known(decl, rest);
        assert forall|i: int| 0 <= i < rest.len() implies #[trigger] rest[i] == fields[i] by {}
        if given_names(decl, fields).len() == fields.len() {
            assert forall|i: int| 0 <= i < fields.len() implies typing::declared(
                decl,
                (#[trigger] fields[i]).0,
            ) is Some by {
                if i < rest.len() {
                    assert(rest[i] == fields[i]);
                }
            }
            assert(all_names(fields) =~= all_names(rest).push(fields.last().0));
        }
    } else {
        assert(all_names(fields) =~= Seq::empty());
    }
}

proof fn missing_count_zero(decl: StructInfoM, names: Seq<Seq<char>>, n: int)
    requires
        0 <= n <= decl.fields.len(),
    ensures
        missing_count(decl, names, n) == 0 <==> forall|k: int|
            0 <= k < n ==> names.contains((#[trigger] decl.fields[k]).name),
    decreases n,
{
    if n > 0 {
        missing_count_zero(decl, names, n - 1);
    }
}

/// The names are all there, once each, just if they are the fields' names in some
/// order.
proof fn complete_is_permutation(decl: StructInfoM, fields: Seq<(Seq<char>, ExprM)>)
    requires
        field_names(decl).no_duplicates(),
    ensures
        ({
            let names = given_names(decl, fields);
            missing_count(decl, names, decl.fields.len() as int) == 0 && unknown_count(decl, fields)
                == 0 && repeats(names) == 0 <==> all_names(fields).to_multiset() == field_names(
                decl,
            ).to_multiset()
        }),
{
    broadcast use vstd::seq_lib::group_to_multiset_ensures;

    let names = given_names(decl, fields);
    let given = all_names(fields);
    let wanted = field_names(decl);
    given_names_of_known(decl, fields);
    missing_count_zero(decl, names, decl.fields.len() as int);
    wanted.lemma_multiset_has_no_duplicates();
    if missing_count(decl, names, decl.fields.len() as int) == 0 && unknown_count(decl, fields) == 0
        && repeats(names) == 0 {
        names.lemma_no_dup_set_cardinality();
        given.lemma_multiset_has_no_duplicates();
        assert forall|x: Seq<char>| given.to_multiset().count(x) == wanted.to_multiset().count(
            x,
        ) by {
            declared_is_a_field(decl, x);
            if given.contains(x) {
                let i = choose|i: int| 0 <= i < given.len() && given[i] == x;
                assert(typing::declared(decl, fields[i].0) is Some);
            }
            if wanted.contains(x) {
                let k = choose|k: int| 0 <= k < wanted.len() && wanted[k] == x;
                assert(names.contains(decl.fields[k].name));
            }
            assert(given.contains(x) == wanted.contains(x));
            assert(given.contains(x) <==> given.to_multiset().count(x) > 0);
            assert(wanted.contains(x) <==> wanted.to_multiset().count(x) > 0);
            assert(given.to_multiset().contains(x) ==> given.to_multiset().count(x) == 1);
            assert(wanted.to_multiset().contains(x) ==> wanted.to_multiset().count(x) == 1);
        }
        assert(given.to_multiset() =~= wanted.to_multiset());
    }
    if given.to_multiset() == wanted.to_multiset() {
        given.lemma_multiset_has_no_duplicates_conv();
        assert forall|i: int| 0 <= i < fields.len() implies typing::declared(
            decl,
            (#[trigger] fields[i]).0,
        ) is Some by {
            declared_is_a_field(decl, fields[i].0);
            assert(given[i] == fields[i].0);
            assert(given.contains(given[i]));
            assert(wanted.to_multiset().count(given[i]) > 0);
        }
        assert(names == given);
        names.unique_seq_to_set();
        assert forall|k: int| 0 <= k < decl.fields.len() implies names.contains(
            (#[trigger] decl.fields[k]).name,
        ) by {
            assert(wanted[k] == decl.fields[k].name);
            assert(wanted.contains(wanted[k]));
            assert(given.to_multiset().count(wanted[k]) > 0);
        }
    }
}

/// Where each value fits, an initializer gives one E499 for each field that is
/// left out, one E498 for each name that the struct does not have, and one E497
/// for each repeat of a field, and nothing else: nothing at all just if the names
/// are those of the struct's fields in some order. Its type is the struct.
pub proof fn initializer_is_reported_by_kind(
    cx: CheckM,
    name: StructNameM,
    decl: StructInfoM,
    fields: Seq<(Seq<char>, ExprM)>,
    span: Span,
    diags: Seq<DiagM>,
)
    requires
        typing::init_target(cx.env, name) == Some(decl),
        field_names(decl).no_duplicates(),
        values_fit(cx, decl, fields),
    ensures
        ({
            let r = typing::check_init(cx, name, fields, span, diags);
            let names = given_names(decl, fields);
            &&& r.ty == typing::struct_type(name)
            &&& added_by_kind(
                diags,
                r.diags,
                missing_count(decl, names, decl.fields.len() as int) as int,
                unknown_count(decl, fields),
                repeats(names),
            )
            &&& r.diags == diags <==> all_names(fields).to_multiset() == field_names(
                decl,
            ).to_multiset()
        }),
{
    reveal(typing::check_init);
    reveal(typing::check_inits);
    kinds_differ();
    let none = Seq::<Seq<char>>::empty();
    assert(fields.take(0) =~= Seq::empty());
    assert(none.to_set() =~= Set::<Seq<char>>::empty());
    inits_by_kind(cx, decl, fields, Seq::empty(), none, diags);
    let (_, seen, d) = typing::check_inits(cx, Some(decl), fields, Seq::empty(), none, diags);
    let n = decl.fields.len() as int;
    missing_by_kind(cx, decl, span, seen, n, d);
    complete_is_permutation(decl, fields);
    given_names_of_known(decl, fields);
    seen.lemma_cardinality_of_set();
    let r = typing::check_init(cx, name, fields, span, diags);
    if r.diags.len() == diags.len() {
        assert(r.diags =~= diags);
    }
}

/// How many fields are left out, unknown and given again does not depend on the
/// order in which they are given.
pub proof fn kinds_do_not_depend_on_order(
    decl: StructInfoM,
    fields: Seq<(Seq<char>, ExprM)>,
    other: Seq<(Seq<char>, ExprM)>,
    n: int,
)
    requires
        fields.to_multiset() == other.to_multiset(),
    ensures
        unknown_count(decl, fields) == unknown_count(decl, other),
        repeats(given_names(decl, fields)) == repeats(given_names(decl, other)),
        missing_count(decl, given_names(decl, fields), n) == missing_count(
            decl,
            given_names(decl, other),
            n,
        ),
{
    broadcast use vstd::seq_lib::group_to_multiset_ensures;

    names_rearranged(decl, fields, other);
    assert(fields.to_multiset().len() == fields.len());
    assert(other.to_multiset().len() == other.len());
    let a = given_names(decl, fields);
    let b = given_names(decl, other);
    assert(a.to_set() =~= b.to_set());
    missing_count_of(decl, a, b, n);
}

} // verus!
