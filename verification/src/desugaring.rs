//! What the checker makes of a program: the same program, in which operators are
//! calls of methods, literals are values of the library types, and casts are
//! conversions. Nothing else is changed, left out or put in another order.

use vstd::prelude::*;

use crate::ast;
use crate::ast::{
    BinaryOp, BlockM, ExprKindM, ExprM, FnDeclM, ItemM, LValueM, ProgramM, Span, StmtM,
    StructNameM, UnaryOp,
};
use crate::error::DiagM;
use crate::soundness;
use crate::spelling;
use crate::types::TypeM;
use crate::typing;
use crate::typing::{CastM, CheckM, Checked, FnM, ModuleInfoM, Rewritten, StructInfoM, UnitM};

verus! {

// ---------------------------------------------------------------------------
// Operators
// ---------------------------------------------------------------------------

/// The method that an infix operator is, by its text.
pub open spec fn infix_method(op: Seq<char>) -> Seq<char> {
    if op == "+"@ {
        "add"@
    } else if op == "-"@ {
        "sub"@
    } else if op == "*"@ {
        "mul"@
    } else if op == "/"@ {
        "div"@
    } else if op == "%"@ {
        "mod_"@
    } else if op == "=="@ {
        "eq"@
    } else if op == "!="@ {
        "ne"@
    } else if op == "<"@ {
        "lt"@
    } else if op == ">"@ {
        "gt"@
    } else if op == "<="@ {
        "le"@
    } else if op == ">="@ {
        "ge"@
    } else if op == "&&"@ {
        "and"@
    } else {
        "or"@
    }
}

/// The method that `-` or `!` before an operand is.
pub open spec fn prefix_method(op: UnaryOp) -> Seq<char> {
    if op is Neg {
        "neg"@
    } else {
        "not"@
    }
}

/// Each infix operator is the method that goes with its text.
pub proof fn operators_are_their_methods(op: BinaryOp)
    ensures
        ast::binary_method(op) == infix_method(spelling::infix_text(op)),
{
    reveal_strlit("+");
    reveal_strlit("-");
    reveal_strlit("*");
    reveal_strlit("/");
    reveal_strlit("%");
    reveal_strlit("==");
    reveal_strlit("!=");
    reveal_strlit("<");
    reveal_strlit(">");
    reveal_strlit("<=");
    reveal_strlit(">=");
    reveal_strlit("&&");
    reveal_strlit("||");
    let t = spelling::infix_text(op);
    assert(t.len() >= 1);
    assert("+"@[0] == '+' && "-"@[0] == '-' && "*"@[0] == '*' && "/"@[0] == '/');
    assert("%"@[0] == '%' && "<"@[0] == '<' && ">"@[0] == '>');
    assert("=="@[0] == '=' && "!="@[0] == '!' && "<="@[0] == '<' && ">="@[0] == '>');
    assert("&&"@[0] == '&' && "||"@[0] == '|');
}

// ---------------------------------------------------------------------------
// Expressions
// ---------------------------------------------------------------------------

/// Whether the expression initializes the library type of that name around one
/// value.
pub open spec fn wraps(r: ExprM, name: Seq<char>) -> bool {
    r.kind matches ExprKindM::StructInit { name: StructNameM::Unqualified(m), fields } && m == name
        && fields.len() == 1 && fields[0].0 == "inner_value"@
}

/// The value in such an initializer.
pub open spec fn wrapped_value(r: ExprM) -> ExprM {
    (r.kind->fields[0]).1
}

/// Whether the expression is the integer, as a machine value or as an `int`.
pub open spec fn is_int(r: ExprM, k: i64) -> bool {
    ||| r.kind == ExprKindM::IntLit(k)
    ||| wraps(r, "int"@) && wrapped_value(r).kind == ExprKindM::IntLit(k)
}

/// Whether the expression calls the method on the object with the arguments.
pub open spec fn calls(r: ExprM, object: ExprM, method: Seq<char>, args: Seq<ExprM>) -> bool {
    r.kind matches ExprKindM::Call { callee, args: a } && a == args && callee.kind == (
    ExprKindM::Field { object: Box::new(object), field: method })
}

/// Whether the expression is a reference to the value: the value itself, `&` of
/// it, or `*` of it.
pub open spec fn refers(a: ExprM, v: ExprM) -> bool {
    ||| a == v
    ||| a.kind == (ExprKindM::Ref { mutable: false, operand: Box::new(v) })
    ||| a.kind == (ExprKindM::Deref { operand: Box::new(v) })
}

/// The operand on the right of an operator that has become a call.
pub open spec fn right_of(r: ExprM, v: ExprM) -> bool {
    r.kind matches ExprKindM::Call { args, .. } && args.len() == 1 && refers(args[0], v)
}

/// The struct that a cast names.
pub open spec fn cast_name(target: TypeM) -> StructNameM {
    match target {
        TypeM::Qualified(m, n) => StructNameM::Qualified(m, n),
        TypeM::Named(n) => StructNameM::Unqualified(n),
        _ => StructNameM::Unqualified(Seq::empty()),
    }
}

/// Whether the expression is the value `v` cast to the type: as it is, or as a
/// field of it where the type is a machine type, and else by the method that
/// has the name of the type.
pub open spec fn cast_of(v: ExprM, r: ExprM, target: TypeM) -> bool {
    if target is I64 || target is F64 {
        ||| r.kind == v.kind
        ||| r.kind matches ExprKindM::Field { object, .. } && *object == v
    } else {
        &&& target is Named || target is Qualified
        &&& calls(r, v, "to_"@ + cast_name(target).base(), Seq::empty())
    }
}

/// Whether the expression is a struct of that type around one value, for `v`.
pub open spec fn cast_around(v: ExprM, r: ExprM, target: TypeM) -> bool {
    &&& target is Named || target is Qualified
    &&& r.kind matches ExprKindM::StructInit { name, fields } && name == cast_name(target)
        && fields.len() == 1 && fields[0].1.span == v.span
}

/// Whether the checked expression `r` stands for `e`, seen to the depth `n`.
#[verifier::opaque]
pub open spec fn stands(e: ExprM, r: ExprM, n: nat) -> bool
    decreases n,
{
    &&& n > 0
    &&& r.span == e.span
    &&& match e.kind {
        ExprKindM::IntLit(k) => is_int(r, k),
        ExprKindM::FloatLit(_) => {
            ||| r.kind == e.kind
            ||| wraps(r, "float"@) && wrapped_value(r).kind == e.kind
        },
        ExprKindM::CharLit(c) => {
            ||| r.kind == e.kind
            ||| wraps(r, "char"@) && is_int(wrapped_value(r), c as i64)
        },
        ExprKindM::BoolLit(b) => {
            ||| r.kind == e.kind
            ||| wraps(r, "bool"@) && is_int(
                wrapped_value(r),
                if b {
                    1
                } else {
                    0
                },
            )
        },
        ExprKindM::StringLit(s) => {
            ||| r.kind == e.kind
            ||| r.kind matches ExprKindM::StructInit { name, fields } && name
                == StructNameM::Unqualified("string"@) && fields.len() == 2 && fields[0].0
                == "ptr"@ && fields[0].1.kind == e.kind && fields[1].0 == "length"@ && is_int(
                fields[1].1,
                typing::byte_len(s),
            )
        },
        ExprKindM::Ident(_) => r.kind == e.kind,
        ExprKindM::QualifiedIdent { .. } => r.kind == e.kind,
        ExprKindM::Ref { mutable, operand } => r.kind matches ExprKindM::Ref {
            mutable: m,
            operand: o,
        } && m == mutable && stands(*operand, *o, (n - 1) as nat),
        ExprKindM::Deref { operand } => r.kind matches ExprKindM::Deref { operand: o } && stands(
            *operand,
            *o,
            (n - 1) as nat,
        ),
        ExprKindM::Unary { op, operand } => {
            ||| r.kind matches ExprKindM::Unary { op: p, operand: o } && p == op && stands(
                *operand,
                *o,
                (n - 1) as nat,
            )
            ||| exists|v: ExprM| #[trigger]
                calls(r, v, prefix_method(op), Seq::empty()) && (op is Neg || op is Not) && stands(
                    *operand,
                    v,
                    (n - 1) as nat,
                )
        },
        ExprKindM::Binary { op, left, right } => {
            ||| r.kind matches ExprKindM::Binary { op: p, left: a, right: b } && p == op && stands(
                *left,
                *a,
                (n - 1) as nat,
            ) && stands(*right, *b, (n - 1) as nat)
            ||| exists|v: ExprM, w: ExprM|
                calls(r, v, infix_method(spelling::infix_text(op)), r.kind->args)
                    && #[trigger] right_of(r, w) && #[trigger] is_object(r, v) && stands(
                    *left,
                    v,
                    (n - 1) as nat,
                ) && stands(*right, w, (n - 1) as nat)
        },
        ExprKindM::Cast { expr, target_type } => {
            ||| exists|v: ExprM| #[trigger]
                cast_of(v, r, target_type) && stands(*expr, v, (n - 1) as nat)
            ||| exists|v: ExprM| #[trigger]
                cast_around(v, r, target_type) && stands(*expr, v, (n - 1) as nat) && stands(
                    v,
                    (r.kind->fields[0]).1,
                    (n - 1) as nat,
                )
        },
        ExprKindM::Call { callee, args } => r.kind matches ExprKindM::Call {
            callee: c,
            args: a,
        } && a.len() == args.len() && (forall|i: int|
            0 <= i < args.len() ==> stands(#[trigger] args[i], a[i], (n - 1) as nat)) && c.span
            == callee.span && match callee.kind {
            ExprKindM::Field { object, field } => c.kind matches ExprKindM::Field {
                object: o,
                field: f,
            } && f == field && stands(*object, *o, (n - 1) as nat),
            _ => c.kind == callee.kind,
        },
        ExprKindM::Field { object, field } => r.kind matches ExprKindM::Field {
            object: o,
            field: f,
        } && f == field && stands(*object, *o, (n - 1) as nat),
        ExprKindM::StructInit { name, fields } => r.kind matches ExprKindM::StructInit {
            name: m,
            fields: fs,
        } && m == name && fs.len() == fields.len() && forall|i: int|
            0 <= i < fields.len() ==> (#[trigger] fields[i]).0 == fs[i].0 && stands(
                fields[i].1,
                fs[i].1,
                (n - 1) as nat,
            ),
    }
}

/// The object of a method call.
pub open spec fn is_object(r: ExprM, v: ExprM) -> bool {
    r.kind matches ExprKindM::Call { callee, .. } && (callee.kind matches ExprKindM::Field {
        object,
        ..
    } && *object == v)
}

proof fn stands_deeper(e: ExprM, r: ExprM, n: nat, m: nat)
    requires
        stands(e, r, n),
        n <= m,
    ensures
        stands(e, r, m),
    decreases n,
{
    reveal_with_fuel(stands, 1);
    let p = (n - 1) as nat;
    let q = (m - 1) as nat;
    match e.kind {
        ExprKindM::Ref { operand, .. } => stands_deeper(*operand, *r.kind->Ref_operand, p, q),
        ExprKindM::Deref { operand } => stands_deeper(*operand, *r.kind->Deref_operand, p, q),
        ExprKindM::Unary { op, operand } => {
            if r.kind is Unary {
                stands_deeper(*operand, *r.kind->Unary_operand, p, q);
            } else {
                let v = choose|v: ExprM| #[trigger]
                    calls(r, v, prefix_method(op), Seq::empty()) && (op is Neg || op is Not) && stands(
                        *operand,
                        v,
                        p,
                    );
                stands_deeper(*operand, v, p, q);
            }
        },
        ExprKindM::Binary { op, left, right } => {
            if r.kind is Binary {
                stands_deeper(*left, *r.kind->left, p, q);
                stands_deeper(*right, *r.kind->right, p, q);
            } else {
                let (v, w) = choose|v: ExprM, w: ExprM|
                    calls(r, v, infix_method(spelling::infix_text(op)), r.kind->args)
                        && #[trigger] right_of(r, w) && #[trigger] is_object(r, v) && stands(
                        *left,
                        v,
                        p,
                    ) && stands(*right, w, p);
                stands_deeper(*left, v, p, q);
                stands_deeper(*right, w, p, q);
            }
        },
        ExprKindM::Cast { expr, target_type } => {
            if exists|v: ExprM| #[trigger] cast_of(v, r, target_type) && stands(*expr, v, p) {
                let v = choose|v: ExprM| #[trigger]
                    cast_of(v, r, target_type) && stands(*expr, v, p);
                stands_deeper(*expr, v, p, q);
            } else {
                let v = choose|v: ExprM| #[trigger]
                    cast_around(v, r, target_type) && stands(*expr, v, p) && stands(
                        v,
                        (r.kind->fields[0]).1,
                        p,
                    );
                stands_deeper(*expr, v, p, q);
                stands_deeper(v, (r.kind->fields[0]).1, p, q);
            }
        },
        ExprKindM::Call { callee, args } => {
            let a = r.kind->args;
            assert forall|i: int| 0 <= i < args.len() implies stands(
                #[trigger] args[i],
                a[i],
                q,
            ) by {
                stands_deeper(args[i], a[i], p, q);
            }
            if let ExprKindM::Field { object, .. } = callee.kind {
                stands_deeper(*object, *r.kind->callee.kind->object, p, q);
            }
        },
        ExprKindM::Field { object, .. } => stands_deeper(*object, *r.kind->object, p, q),
        ExprKindM::StructInit { fields, .. } => {
            let fs = r.kind->fields;
            assert forall|i: int| 0 <= i < fields.len() implies (#[trigger] fields[i]).0
                == fs[i].0 && stands(fields[i].1, fs[i].1, q) by {
                stands_deeper(fields[i].1, fs[i].1, p, q);
            }
        },
        _ => {},
    }
}

// --- literals and operators ---

proof fn boxing_only_adds(cx: CheckM, decl: StructInfoM, name: Seq<char>, c: Rewritten, span: Span)
    ensures
        typing::boxed(cx, decl, name, c, span).diags.len() >= c.diags.len(),
{
    let (seen, d) = typing::init_field(
        cx,
        decl,
        "inner_value"@,
        c.ty,
        span,
        Seq::empty(),
        c.diags,
    );
    soundness::missing_grows(cx, decl, span, seen, decl.fields.len() as int, d);
}

proof fn machine_literal_is_kept(
    cx: CheckM,
    kind: ExprKindM,
    ty: TypeM,
    name: Seq<char>,
    span: Span,
    hint: Option<TypeM>,
    diags: Seq<DiagM>,
)
    ensures
        ({
            let r = typing::machine_literal(cx, kind, ty, name, span, hint, diags);
            let x = typing::typed(r.kind, r.ty, span);
            &&& r.diags.len() >= diags.len()
            &&& r.diags.len() == diags.len() ==> r.kind == kind || (wraps(x, name)
                && wrapped_value(x).kind == kind)
        }),
{
    reveal(typing::machine_literal);
    if !(cx.raw || hint == Some(ty)) {
        if let Some(decl) = cx.env.lookup_struct(name) {
            boxing_only_adds(cx, decl, name, Rewritten { kind, ty, diags }, span);
        }
    }
}

proof fn coded_literal_is_kept(
    cx: CheckM,
    kind: ExprKindM,
    n: i64,
    name: Seq<char>,
    span: Span,
    diags: Seq<DiagM>,
)
    ensures
        ({
            let r = typing::coded_literal(cx, kind, n, name, span, diags);
            let x = typing::typed(r.kind, r.ty, span);
            r.diags.len() == diags.len() ==> r.kind == kind || (wraps(x, name) && is_int(
                wrapped_value(x),
                n,
            ))
        }),
{
    reveal(typing::coded_literal);
    if !cx.raw {
        if let Some(decl) = cx.env.lookup_struct(name) {
            let hint = typing::declared(decl, "inner_value"@);
            let c = typing::int_literal(cx, n, span, hint, diags);
            machine_literal_is_kept(
                cx,
                ExprKindM::IntLit(n),
                TypeM::I64,
                "int"@,
                span,
                hint,
                diags,
            );
            boxing_only_adds(cx, decl, name, c, span);
        }
    }
}

proof fn string_literal_is_kept(
    cx: CheckM,
    s: Seq<char>,
    span: Span,
    hint: Option<TypeM>,
    diags: Seq<DiagM>,
)
    ensures
        ({
            let r = typing::string_literal(cx, s, span, hint, diags);
            r.diags.len() == diags.len() ==> r.kind == ExprKindM::StringLit(s) || (
            r.kind matches ExprKindM::StructInit { name, fields } && name
                == StructNameM::Unqualified("string"@) && fields.len() == 2 && fields[0].0
                == "ptr"@ && fields[0].1.kind == ExprKindM::StringLit(s) && fields[1].0
                == "length"@ && is_int(fields[1].1, typing::byte_len(s)))
        }),
{
    reveal(typing::string_literal);
    if !(cx.raw || hint == Some(TypeM::I64)) {
        if let Some(decl) = cx.env.lookup_struct("string"@) {
            let (seen1, d1) = typing::init_field(
                cx,
                decl,
                "ptr"@,
                TypeM::I64,
                span,
                Seq::empty(),
                diags,
            );
            let h = typing::declared(decl, "length"@);
            machine_literal_is_kept(
                cx,
                ExprKindM::IntLit(typing::byte_len(s)),
                TypeM::I64,
                "int"@,
                span,
                h,
                d1,
            );
            let len = typing::int_literal(cx, typing::byte_len(s), span, h, d1);
            let (seen2, d2) = typing::init_field(
                cx,
                decl,
                "length"@,
                len.ty,
                span,
                seen1,
                len.diags,
            );
            soundness::missing_grows(cx, decl, span, seen2, decl.fields.len() as int, d2);
        }
    }
}

proof fn unary_stands(cx: CheckM, op: UnaryOp, e: ExprM, operand: ExprM, c: Checked, n: nat)
    requires
        e.kind == (ExprKindM::Unary { op, operand: Box::new(operand) }),
        stands(operand, c.expr, n),
        typing::unary_op(cx, op, c, e.span).diags.len() == c.diags.len(),
    ensures
        ({
            let r = typing::unary_op(cx, op, c, e.span);
            stands(e, typing::typed(r.kind, r.ty, e.span), n + 1)
        }),
{
    reveal(typing::unary_op);
    reveal_with_fuel(stands, 1);
    let r = typing::unary_op(cx, op, c, e.span);
    let x = typing::typed(r.kind, r.ty, e.span);
    if !(r.kind is Unary) {
        assert(calls(x, c.expr, prefix_method(op), Seq::empty()));
    }
}

proof fn binary_stands(
    cx: CheckM,
    op: BinaryOp,
    e: ExprM,
    left: ExprM,
    right: ExprM,
    l: Checked,
    r: Checked,
    n: nat,
)
    requires
        e.kind == (ExprKindM::Binary { op, left: Box::new(left), right: Box::new(right) }),
        stands(left, l.expr, n),
        stands(right, r.expr, n),
        typing::binary_op(cx, op, l.expr, l.ty, r, e.span).diags.len() == r.diags.len(),
    ensures
        ({
            let out = typing::binary_op(cx, op, l.expr, l.ty, r, e.span);
            stands(e, typing::typed(out.kind, out.ty, e.span), n + 1)
        }),
{
    reveal(typing::binary_op);
    reveal_with_fuel(stands, 1);
    operators_are_their_methods(op);
    let out = typing::binary_op(cx, op, l.expr, l.ty, r, e.span);
    let x = typing::typed(out.kind, out.ty, e.span);
    if out.kind is Call {
        assert(right_of(x, r.expr));
        assert(is_object(x, l.expr));
        assert(calls(x, l.expr, infix_method(spelling::infix_text(op)), x.kind->args));
    }
}

proof fn cast_stands(
    cx: CheckM,
    e: ExprM,
    operand: ExprM,
    target: TypeM,
    c: Checked,
    n: nat,
)
    requires
        e.kind == (ExprKindM::Cast { expr: Box::new(operand), target_type: target }),
        stands(operand, c.expr, n),
    ensures
        match typing::cast_op(cx, c, target, e.span) {
            CastM::Done(r) => r.diags.len() >= c.diags.len() && (r.diags.len() == c.diags.len()
                ==> stands(e, typing::typed(r.kind, r.ty, e.span), n + 1)),
            CastM::Box(name, field) => (target is Named || target is Qualified) && name
                == cast_name(target),
        },
{
    reveal(typing::cast_op);
    reveal_with_fuel(stands, 1);
    match typing::cast_op(cx, c, target, e.span) {
        CastM::Done(r) => {
            let x = typing::typed(r.kind, r.ty, e.span);
            if r.diags.len() == c.diags.len() {
                assert(cast_of(c.expr, x, target));
            }
        },
        CastM::Box(name, field) => {},
    }
}

// --- the rules ---

proof fn args_only_add(
    cx: CheckM,
    shown: Seq<char>,
    params: Seq<TypeM>,
    args: Seq<ExprM>,
    done: Seq<ExprM>,
    diags: Seq<DiagM>,
)
    ensures
        typing::check_args(cx, shown, params, args, done, diags).1.len() >= diags.len(),
    decreases args.len() - done.len(),
{
    reveal_with_fuel(typing::check_args, 1);
    reveal_with_fuel(typing::check_expr, 1);
    reveal_with_fuel(typing::check_kind, 1);
    reveal_with_fuel(typing::check_call, 1);
    reveal_with_fuel(typing::check_init, 1);
    reveal_with_fuel(typing::check_inits, 1);
    if done.len() < args.len() {
        let i = done.len() as int;
        let c = typing::check_expr(cx, args[i], typing::hint_at(params, i), diags);
        let d = typing::arg_diags(cx, shown, params, i as nat, c.ty, args[i].span, c.diags);
        soundness::check_expr_facts(cx, args[i], typing::hint_at(params, i), diags);
        args_only_add(cx, shown, params, args, done.push(c.expr), d);
    }
}

proof fn inits_only_add(
    cx: CheckM,
    decl: Option<StructInfoM>,
    fields: Seq<(Seq<char>, ExprM)>,
    done: Seq<(Seq<char>, ExprM)>,
    seen: Seq<Seq<char>>,
    diags: Seq<DiagM>,
)
    ensures
        typing::check_inits(cx, decl, fields, done, seen, diags).2.len() >= diags.len(),
    decreases fields.len() - done.len(),
{
    reveal_with_fuel(typing::check_args, 1);
    reveal_with_fuel(typing::check_expr, 1);
    reveal_with_fuel(typing::check_kind, 1);
    reveal_with_fuel(typing::check_call, 1);
    reveal_with_fuel(typing::check_init, 1);
    reveal_with_fuel(typing::check_inits, 1);
    if done.len() < fields.len() {
        let i = done.len() as int;
        let name = fields[i].0;
        let hint = match decl {
            Some(s) => typing::declared(s, name),
            None => None,
        };
        let c = typing::check_expr(cx, fields[i].1, hint, diags);
        let (seen1, d) = match decl {
            Some(s) => typing::init_field(
                cx,
                s,
                name,
                c.ty,
                fields[i].1.span,
                seen,
                c.diags,
            ),
            None => (seen, c.diags),
        };
        soundness::check_expr_facts(cx, fields[i].1, hint, diags);
        inits_only_add(cx, decl, fields, done.push((name, c.expr)), seen1, d);
    }
}

spec fn more(a: nat, b: nat) -> nat {
    if a < b {
        b
    } else {
        a
    }
}

proof fn check_expr_stands(cx: CheckM, e: ExprM, hint: Option<TypeM>, diags: Seq<DiagM>) -> (n: nat)
    requires
        typing::check_expr(cx, e, hint, diags).diags.len() == diags.len(),
    ensures
        stands(e, typing::check_expr(cx, e, hint, diags).expr, n),
    decreases typing::casts(e), e, 2nat,
{
    reveal(typing::check_expr);
    reveal(typing::check_kind);
    check_kind_stands(cx, e, hint, diags)
}

#[verifier::rlimit(40)]
#[verifier::spinoff_prover]
proof fn check_kind_stands(cx: CheckM, e: ExprM, hint: Option<TypeM>, diags: Seq<DiagM>) -> (n: nat)
    requires
        typing::check_kind(cx, e, hint, diags).diags.len() == diags.len(),
    ensures
        ({
            let r = typing::check_kind(cx, e, hint, diags);
            stands(e, typing::typed(r.kind, r.ty, e.span), n)
        }),
    decreases typing::casts(e), e, 1nat,
{
    reveal(typing::check_kind);
    reveal(typing::check_expr);
    reveal_with_fuel(stands, 1);
    let span = e.span;
    match e.kind {
        ExprKindM::IntLit(k) => {
            machine_literal_is_kept(cx, e.kind, TypeM::I64, "int"@, span, hint, diags);
            1
        },
        ExprKindM::FloatLit(f) => {
            machine_literal_is_kept(cx, e.kind, TypeM::F64, "float"@, span, hint, diags);
            1
        },
        ExprKindM::CharLit(c) => {
            coded_literal_is_kept(cx, e.kind, c as i64, "char"@, span, diags);
            1
        },
        ExprKindM::BoolLit(b) => {
            let k: i64 = if b {
                1
            } else {
                0
            };
            coded_literal_is_kept(cx, e.kind, k, "bool"@, span, diags);
            1
        },
        ExprKindM::StringLit(s) => {
            string_literal_is_kept(cx, s, span, hint, diags);
            1
        },
        ExprKindM::Ident(name) => 1,
        ExprKindM::QualifiedIdent { module, name } => 1,
        ExprKindM::Ref { mutable, operand } => check_expr_stands(cx, *operand, None, diags) + 1,
        ExprKindM::Deref { operand } => {
            soundness::check_expr_facts(cx, *operand, None, diags);
            check_expr_stands(cx, *operand, None, diags) + 1
        },
        ExprKindM::Unary { op, operand } => {
            let c = typing::check_expr(cx, *operand, None, diags);
            soundness::check_expr_facts(cx, *operand, None, diags);
            unary_only_adds(cx, op, c, span);
            let n = check_expr_stands(cx, *operand, None, diags);
            unary_stands(cx, op, e, *operand, c, n);
            n + 1
        },
        ExprKindM::Binary { op, left, right } => {
            let l = typing::check_expr(cx, *left, None, diags);
            let r = typing::check_expr(cx, *right, None, l.diags);
            soundness::check_expr_facts(cx, *left, None, diags);
            soundness::check_expr_facts(cx, *right, None, l.diags);
            binary_only_adds(cx, op, l.expr, l.ty, r, span);
            let a = check_expr_stands(cx, *left, None, diags);
            let b = check_expr_stands(cx, *right, None, l.diags);
            let n = more(a, b);
            stands_deeper(*left, l.expr, a, n);
            stands_deeper(*right, r.expr, b, n);
            binary_stands(cx, op, e, *left, *right, l, r, n);
            n + 1
        },
        ExprKindM::Cast { expr, target_type } => {
            let c = typing::check_expr(cx, *expr, None, diags);
            soundness::check_expr_facts(cx, *expr, None, diags);
            cast_only_adds(cx, *expr, target_type, e, c, diags);
            let n = check_expr_stands(cx, *expr, None, diags);
            cast_stands(cx, e, *expr, target_type, c, n);
            match typing::cast_op(cx, c, target_type, span) {
                CastM::Done(r) => n + 1,
                CastM::Box(name, field) => {
                    let fields = seq![(field, c.expr)];
                    soundness::one_init((field, c.expr), cx.raw);
                    reveal(typing::check_init);
                    let r = typing::check_init(cx, name, fields, span, c.diags);
                    let x = typing::typed(r.kind, r.ty, span);
                    let m = check_init_stands(cx, name, fields, span, c.diags);
                    let k = more(n, m);
                    let v = (r.kind->fields[0]).1;
                    assert(fields[0].1 == c.expr);
                    assert(stands(fields[0].1, v, m));
                    stands_deeper(*expr, c.expr, n, k);
                    stands_deeper(c.expr, v, m, k);
                    assert(v.span == c.expr.span);
                    assert(cast_around(c.expr, x, target_type));
                    k + 1
                },
            }
        },
        ExprKindM::Call { callee, args } => {
            reveal(typing::check_call);
            check_call_stands(cx, e, diags)
        },
        ExprKindM::Field { object, field } => {
            soundness::check_expr_facts(cx, *object, None, diags);
            check_expr_stands(cx, *object, None, diags) + 1
        },
        ExprKindM::StructInit { name, fields } => {
            reveal(typing::check_init);
            let r = typing::check_init(cx, name, fields, span, diags);
            let m = check_init_stands(cx, name, fields, span, diags);
            m + 1
        },
    }
}

proof fn unary_only_adds(cx: CheckM, op: UnaryOp, c: Checked, span: Span)
    ensures
        typing::unary_op(cx, op, c, span).diags.len() >= c.diags.len(),
{
    reveal(typing::unary_op);
}

proof fn binary_only_adds(
    cx: CheckM,
    op: BinaryOp,
    left: ExprM,
    ty: TypeM,
    r: Checked,
    span: Span,
)
    ensures
        typing::binary_op(cx, op, left, ty, r, span).diags.len() >= r.diags.len(),
{
    reveal(typing::binary_op);
}

/// A cast is checked without a diagnostic only if its operand is, and it is then
/// an expression, or a struct that can be checked in its place.
proof fn cast_only_adds(
    cx: CheckM,
    operand: ExprM,
    target: TypeM,
    e: ExprM,
    c: Checked,
    diags: Seq<DiagM>,
)
    requires
        e.kind == (ExprKindM::Cast { expr: Box::new(operand), target_type: target }),
        c == typing::check_expr(cx, operand, None, diags),
    ensures
        ({
            let r = typing::check_kind(cx, e, None, diags);
            &&& r.diags.len() >= c.diags.len()
            &&& typing::cast_op(cx, c, target, e.span) matches CastM::Box(_, field)
                ==> typing::init_casts(seq![(field, c.expr)]) < typing::casts(e)
        }),
        forall|hint: Option<TypeM>| #[trigger]
            typing::check_kind(cx, e, hint, diags) == typing::check_kind(cx, e, None, diags),
{
    reveal_with_fuel(typing::check_args, 1);
    reveal_with_fuel(typing::check_expr, 1);
    reveal_with_fuel(typing::check_kind, 1);
    reveal_with_fuel(typing::check_call, 1);
    reveal_with_fuel(typing::check_init, 1);
    reveal_with_fuel(typing::check_inits, 1);
    reveal(typing::cast_op);
    soundness::check_expr_facts(cx, operand, None, diags);
    if let CastM::Box(name, field) = typing::cast_op(cx, c, target, e.span) {
        soundness::one_init((field, c.expr), cx.raw);
        init_only_adds(cx, name, seq![(field, c.expr)], e.span, c.diags);
    }
}

proof fn init_only_adds(
    cx: CheckM,
    name: StructNameM,
    fields: Seq<(Seq<char>, ExprM)>,
    span: Span,
    diags: Seq<DiagM>,
)
    ensures
        typing::check_init(cx, name, fields, span, diags).diags.len() >= diags.len(),
{
    reveal_with_fuel(typing::check_args, 1);
    reveal_with_fuel(typing::check_expr, 1);
    reveal_with_fuel(typing::check_kind, 1);
    reveal_with_fuel(typing::check_call, 1);
    reveal_with_fuel(typing::check_init, 1);
    reveal_with_fuel(typing::check_inits, 1);
    match typing::init_target(cx.env, name) {
        Some(decl) => {
            inits_only_add(cx, Some(decl), fields, Seq::empty(), Seq::empty(), diags);
            let (done, seen, d) = typing::check_inits(
                cx,
                Some(decl),
                fields,
                Seq::empty(),
                Seq::empty(),
                diags,
            );
            soundness::missing_grows(cx, decl, span, seen, decl.fields.len() as int, d);
        },
        None => {
            let d = diags.push(
                cx.diag(
                    span,
                    "E495"@,
                    "unknown struct `"@ + name.base() + "`"@,
                    "unknown struct"@,
                ),
            );
            inits_only_add(cx, None, fields, Seq::empty(), Seq::empty(), d);
        },
    }
}

#[verifier::spinoff_prover]
proof fn check_call_stands(cx: CheckM, e: ExprM, diags: Seq<DiagM>) -> (n: nat)
    requires
        e.kind is Call,
        typing::check_call(cx, e, diags).diags.len() == diags.len(),
    ensures
        ({
            let r = typing::check_call(cx, e, diags);
            stands(e, typing::typed(r.kind, r.ty, e.span), n)
        }),
    decreases typing::casts(e), e, 0nat,
{
    reveal(typing::check_call);
    reveal(typing::check_expr);
    reveal(typing::check_args);
    reveal_with_fuel(stands, 1);
    let span = e.span;
    let callee = e.kind->callee;
    let args = e.kind->args;
    assert(decreases_to!(e => *callee));
    assert(decreases_to!(e => args));
    let none = Seq::<ExprM>::empty();
    match callee.kind {
        ExprKindM::Field { object, field } => {
            reveal(typing::method_callee);
            assert(typing::casts(*callee) == typing::casts(*object));
            let c = typing::check_expr(cx, *object, None, diags);
            soundness::check_expr_facts(cx, *object, None, diags);
            match typing::method_callee(cx, c.ty, field, span) {
                typing::CalleeM::Known { params, shown, ty } => {
                    let d = typing::arg_count_diags(
                        cx,
                        shown,
                        params.len(),
                        args.len(),
                        span,
                        c.diags,
                    );
                    args_only_add(cx, shown, params, args, none, d);
                    let a = check_expr_stands(cx, *object, None, diags);
                    let b = check_args_stand(cx, shown, params, args, none, d, 0);
                    let n = more(a, b);
                    stands_deeper(*object, c.expr, a, n);
                    let done = typing::check_args(cx, shown, params, args, none, d).0;
                    all_stand_deeper(args, done, b, n);
                    n + 1
                },
                _ => 0,
            }
        },
        _ => {
            reveal(typing::plain_callee);
            match typing::plain_callee(cx, callee.kind, span) {
                typing::CalleeM::Known { params, shown, ty } => {
                    let d = typing::arg_count_diags(
                        cx,
                        shown,
                        params.len(),
                        args.len(),
                        span,
                        diags,
                    );
                    args_only_add(cx, shown, params, args, none, d);
                    let b = check_args_stand(cx, shown, params, args, none, d, 0);
                    b + 1
                },
                typing::CalleeM::Unknown(name) => {
                    let d = diags.push(
                        cx.diag(
                            span,
                            "E492"@,
                            "undeclared function `"@ + name + "`"@,
                            "not found"@,
                        ),
                    );
                    args_only_add(cx, name, Seq::empty(), args, none, d);
                    0
                },
                _ => 0,
            }
        },
    }
}

spec fn all_stand(a: Seq<ExprM>, b: Seq<ExprM>, n: nat) -> bool {
    b.len() <= a.len() && forall|i: int| 0 <= i < b.len() ==> stands(#[trigger] a[i], b[i], n)
}

proof fn all_stand_deeper(a: Seq<ExprM>, b: Seq<ExprM>, n: nat, m: nat)
    requires
        all_stand(a, b, n),
        n <= m,
    ensures
        all_stand(a, b, m),
{
    assert forall|i: int| 0 <= i < b.len() implies stands(#[trigger] a[i], b[i], m) by {
        stands_deeper(a[i], b[i], n, m);
    }
}

proof fn check_args_stand(
    cx: CheckM,
    shown: Seq<char>,
    params: Seq<TypeM>,
    args: Seq<ExprM>,
    done: Seq<ExprM>,
    diags: Seq<DiagM>,
    n: nat,
) -> (m: nat)
    requires
        all_stand(args, done, n),
        typing::check_args(cx, shown, params, args, done, diags).1.len() == diags.len(),
    ensures
        ({
            let all = typing::check_args(cx, shown, params, args, done, diags).0;
            all_stand(args, all, m) && all.len() == args.len()
        }),
    decreases
            typing::all_casts(args),
            args,
            if done.len() < args.len() {
                (args.len() - done.len()) as nat
            } else {
                0
            },
{
    reveal(typing::check_args);
    reveal(typing::check_expr);
    if done.len() >= args.len() {
        n
    } else {
        let i = done.len() as int;
        typing::casts_at(args, i);
        let hint = typing::hint_at(params, i);
        let c = typing::check_expr(cx, args[i], hint, diags);
        let d = typing::arg_diags(cx, shown, params, i as nat, c.ty, args[i].span, c.diags);
        soundness::check_expr_facts(cx, args[i], hint, diags);
        args_only_add(cx, shown, params, args, done.push(c.expr), d);
        let a = check_expr_stands(cx, args[i], hint, diags);
        let k = more(a, n);
        stands_deeper(args[i], c.expr, a, k);
        all_stand_deeper(args, done, n, k);
        let next = done.push(c.expr);
        assert forall|j: int| 0 <= j < next.len() implies stands(
            #[trigger] args[j],
            next[j],
            k,
        ) by {
            if j < i {
                assert(next[j] == done[j]);
            }
        }
        check_args_stand(cx, shown, params, args, next, d, k)
    }
}

spec fn inits_stand(a: Seq<(Seq<char>, ExprM)>, b: Seq<(Seq<char>, ExprM)>, n: nat) -> bool {
    b.len() <= a.len() && forall|i: int|
        0 <= i < b.len() ==> (#[trigger] a[i]).0 == b[i].0 && stands(a[i].1, b[i].1, n)
            && b[i].1.span == a[i].1.span
}

proof fn check_init_stands(
    cx: CheckM,
    name: StructNameM,
    fields: Seq<(Seq<char>, ExprM)>,
    span: Span,
    diags: Seq<DiagM>,
) -> (n: nat)
    requires
        typing::check_init(cx, name, fields, span, diags).diags.len() == diags.len(),
    ensures
        typing::check_init(cx, name, fields, span, diags).kind matches ExprKindM::StructInit {
            name: m,
            fields: fs,
        } && m == name && fs.len() == fields.len() && inits_stand(fields, fs, n),
    decreases typing::init_casts(fields), fields, fields.len() + 1,
{
    reveal(typing::check_init);
    reveal(typing::check_inits);
    match typing::init_target(cx.env, name) {
        Some(decl) => {
            inits_only_add(cx, Some(decl), fields, Seq::empty(), Seq::empty(), diags);
            let (done, seen, d) = typing::check_inits(
                cx,
                Some(decl),
                fields,
                Seq::empty(),
                Seq::empty(),
                diags,
            );
            soundness::missing_grows(cx, decl, span, seen, decl.fields.len() as int, d);
            check_inits_stand(cx, Some(decl), fields, Seq::empty(), Seq::empty(), diags, 0)
        },
        None => {
            let d = diags.push(
                cx.diag(
                    span,
                    "E495"@,
                    "unknown struct `"@ + name.base() + "`"@,
                    "unknown struct"@,
                ),
            );
            inits_only_add(cx, None, fields, Seq::empty(), Seq::empty(), d);
            0
        },
    }
}

proof fn check_inits_stand(
    cx: CheckM,
    decl: Option<StructInfoM>,
    fields: Seq<(Seq<char>, ExprM)>,
    done: Seq<(Seq<char>, ExprM)>,
    seen: Seq<Seq<char>>,
    diags: Seq<DiagM>,
    n: nat,
) -> (m: nat)
    requires
        inits_stand(fields, done, n),
        typing::check_inits(cx, decl, fields, done, seen, diags).2.len() == diags.len(),
    ensures
        ({
            let all = typing::check_inits(cx, decl, fields, done, seen, diags).0;
            inits_stand(fields, all, m) && all.len() == fields.len()
        }),
    decreases
            typing::init_casts(fields),
            fields,
            if done.len() < fields.len() {
                (fields.len() - done.len()) as nat
            } else {
                0
            },
{
    reveal(typing::check_inits);
    reveal(typing::check_expr);
    if done.len() >= fields.len() {
        n
    } else {
        let i = done.len() as int;
        let name = fields[i].0;
        typing::init_casts_at(fields, i);
        let hint = match decl {
            Some(s) => typing::declared(s, name),
            None => None,
        };
        let c = typing::check_expr(cx, fields[i].1, hint, diags);
        let (seen1, d) = match decl {
            Some(s) => typing::init_field(
                cx,
                s,
                name,
                c.ty,
                fields[i].1.span,
                seen,
                c.diags,
            ),
            None => (seen, c.diags),
        };
        soundness::check_expr_facts(cx, fields[i].1, hint, diags);
        let next = done.push((name, c.expr));
        inits_only_add(cx, decl, fields, next, seen1, d);
        let a = check_expr_stands(cx, fields[i].1, hint, diags);
        let k = more(a, n);
        stands_deeper(fields[i].1, c.expr, a, k);
        assert forall|j: int| 0 <= j < next.len() implies (#[trigger] fields[j]).0 == next[j].0
            && stands(fields[j].1, next[j].1, k) && next[j].1.span == fields[j].1.span by {
            if j < i {
                assert(next[j] == done[j]);
                stands_deeper(fields[j].1, done[j].1, n, k);
            }
        }
        check_inits_stand(cx, decl, fields, next, seen1, d, k)
    }
}

/// Whether the checked expression stands for the other one.
pub open spec fn stands_for(e: ExprM, r: ExprM) -> bool {
    exists|n: nat| #[trigger] stands(e, r, n)
}

/// What takes the place of an expression that is checked without a diagnostic
/// stands for it: operators are calls of their methods on their operands, in
/// order, literals keep their values, and calls and initializers their parts.
pub proof fn checked_expression_stands_for_itself(
    cx: CheckM,
    e: ExprM,
    hint: Option<TypeM>,
    diags: Seq<DiagM>,
)
    requires
        typing::check_expr(cx, e, hint, diags).diags.len() == diags.len(),
    ensures
        stands_for(e, typing::check_expr(cx, e, hint, diags).expr),
{
    let n = check_expr_stands(cx, e, hint, diags);
}

// ---------------------------------------------------------------------------
// Statements
// ---------------------------------------------------------------------------

/// Whether the checked place stands for the other one.
pub open spec fn place_stands_for(l: LValueM, r: LValueM) -> bool {
    match l {
        LValueM::Ident(_, _) => r == l,
        LValueM::Deref(e, span) => r matches LValueM::Deref(x, s) && s == span && stands_for(e, x),
        LValueM::Field(e, field, span) => r matches LValueM::Field(x, f, s) && f == field && s
            == span && stands_for(e, x),
    }
}

/// Whether the checked statement stands for the other one: it is of the same
/// kind, with the same names, types and places, and its parts stand for the
/// others' parts.
pub open spec fn stmt_stands_for(s: StmtM, r: StmtM) -> bool
    decreases s,
{
    match s {
        StmtM::Let { name, ty, init, span } => r matches StmtM::Let {
            name: n,
            ty: t,
            init: i,
            span: p,
        } && n == name && t == ty && p == span && stands_for(init, i),
        StmtM::Assign { target, value, span } => r matches StmtM::Assign {
            target: l,
            value: v,
            span: p,
        } && p == span && place_stands_for(target, l) && stands_for(value, v),
        StmtM::Return { value, span } => r matches StmtM::Return { value: v, span: p } && p == span
            && match value {
            Some(e) => v matches Some(x) && stands_for(e, x),
            None => v is None,
        },
        StmtM::If { branches, else_block, span } => r matches StmtM::If {
            branches: bs,
            else_block: eb,
            span: p,
        } && p == span && bs.len() == branches.len() && (forall|i: int|
            0 <= i < branches.len() ==> stands_for((#[trigger] branches[i]).0, bs[i].0)
                && block_stands_for(branches[i].1, bs[i].1)) && match else_block {
            Some(b) => eb matches Some(x) && block_stands_for(b, x),
            None => eb is None,
        },
        StmtM::While { condition, body, span } => r matches StmtM::While {
            condition: c,
            body: b,
            span: p,
        } && p == span && stands_for(condition, c) && block_stands_for(body, b),
        StmtM::Expr(e) => r matches StmtM::Expr(x) && stands_for(e, x),
        StmtM::Break(_) => r == s,
        StmtM::Continue(_) => r == s,
        StmtM::Asm { .. } => r == s,
    }
}

/// Whether the checked block holds as many statements, each of which stands for
/// the one at its place.
pub open spec fn block_stands_for(b: BlockM, r: BlockM) -> bool
    decreases b,
{
    &&& r.stmts.len() == b.stmts.len()
    &&& forall|i: int|
        0 <= i < b.stmts.len() ==> stmt_stands_for(#[trigger] b.stmts[i], r.stmts[i])
}

proof fn lvalue_stands(cx: CheckM, l: LValueM, diags: Seq<DiagM>)
    requires
        typing::check_lvalue(cx, l, diags).2.len() == diags.len(),
    ensures
        place_stands_for(l, typing::check_lvalue(cx, l, diags).0),
{
    reveal(typing::check_lvalue);
    match l {
        LValueM::Ident(_, _) => {},
        LValueM::Deref(e, _) => {
            soundness::check_expr_facts(cx, e, None, diags);
            checked_expression_stands_for_itself(cx, e, None, diags);
        },
        LValueM::Field(e, _, _) => {
            soundness::check_expr_facts(cx, e, None, diags);
            checked_expression_stands_for_itself(cx, e, None, diags);
        },
    }
}

proof fn simple_stmt_stands(cx: CheckM, fx: FnM, s: StmtM, diags: Seq<DiagM>)
    requires
        s is Let || s is Assign || s is Return,
        typing::check_stmt(cx, fx, s, diags).diags.len() == diags.len(),
    ensures
        stmt_stands_for(s, typing::check_stmt(cx, fx, s, diags).stmt),
{
    reveal_with_fuel(typing::check_stmt, 1);
    reveal_with_fuel(typing::check_branches, 1);
    reveal_with_fuel(typing::check_block, 1);
    reveal_with_fuel(typing::check_stmts, 1);
    match s {
        StmtM::Let { name, ty, init, span } => {
            reveal(typing::check_let);
            let d0 = if cx.env.type_name_exists(name) {
                diags.push(
                    cx.diag(
                        span,
                        "E411"@,
                        "let binding `"@ + name + "` conflicts with a type name"@,
                        "name already used by a type"@,
                    ),
                )
            } else {
                diags
            };
            soundness::check_expr_facts(cx, init, ty, d0);
            checked_expression_stands_for_itself(cx, init, ty, diags);
        },
        StmtM::Assign { target, value, span } => {
            reveal(typing::check_assign);
            soundness::check_lvalue_facts(cx, target, diags);
            let (l, ty, d) = typing::check_lvalue(cx, target, diags);
            soundness::check_expr_facts(cx, value, ty, d);
            lvalue_stands(cx, target, diags);
            checked_expression_stands_for_itself(cx, value, ty, d);
        },
        StmtM::Return { value, span } => {
            reveal(typing::check_return);
            if let Some(e) = value {
                if fx.return_type is Void {
                    soundness::check_expr_facts(cx, e, None, diags);
                } else {
                    soundness::check_expr_facts(cx, e, Some(fx.return_type), diags);
                    checked_expression_stands_for_itself(cx, e, Some(fx.return_type), diags);
                }
            }
        },
        _ => {},
    }
}

proof fn stmt_stands(cx: CheckM, fx: FnM, s: StmtM, diags: Seq<DiagM>)
    requires
        typing::check_stmt(cx, fx, s, diags).diags.len() == diags.len(),
    ensures
        stmt_stands_for(s, typing::check_stmt(cx, fx, s, diags).stmt),
    decreases s, 0nat,
{
    reveal_with_fuel(typing::check_stmt, 1);
    reveal_with_fuel(typing::check_branches, 1);
    reveal_with_fuel(typing::check_block, 1);
    reveal_with_fuel(typing::check_stmts, 1);
    match s {
        StmtM::Let { .. } => simple_stmt_stands(cx, fx, s, diags),
        StmtM::Assign { .. } => simple_stmt_stands(cx, fx, s, diags),
        StmtM::Return { .. } => simple_stmt_stands(cx, fx, s, diags),
        StmtM::If { branches, else_block, span } => {
            let none = Seq::<(ExprM, BlockM)>::empty();
            let (done, d) = typing::check_branches(cx, fx, branches, none, diags);
            soundness::check_branches_facts(cx, fx, branches, none, diags);
            if let Some(b) = else_block {
                soundness::check_block_facts(cx, fx, b, d);
            }
            branches_stand(cx, fx, branches, none, diags);
            if let Some(b) = else_block {
                    block_stands(cx, fx, b, d);
            }
        },
        StmtM::While { condition, body, span } => {
            let c = typing::check_expr(cx, condition, None, diags);
            soundness::check_expr_facts(cx, condition, None, diags);
            let d = typing::bool_diags(cx, c.ty, condition.span, c.diags);
            soundness::check_block_facts(cx, FnM { in_loop: true, ..fx }, body, d);
            checked_expression_stands_for_itself(cx, condition, None, diags);
            block_stands(cx, FnM { in_loop: true, ..fx }, body, d);
        },
        StmtM::Expr(e) => {
            checked_expression_stands_for_itself(cx, e, None, diags);
        },
        _ => {},
    }
}

proof fn branches_stand(
    cx: CheckM,
    fx: FnM,
    branches: Seq<(ExprM, BlockM)>,
    done: Seq<(ExprM, BlockM)>,
    diags: Seq<DiagM>,
)
    requires
        done.len() <= branches.len(),
        typing::check_branches(cx, fx, branches, done, diags).1.len() == diags.len(),
        forall|i: int|
            0 <= i < done.len() ==> stands_for((#[trigger] branches[i]).0, done[i].0)
                && block_stands_for(branches[i].1, done[i].1),
    ensures
        ({
            let all = typing::check_branches(cx, fx, branches, done, diags).0;
            &&& all.len() == branches.len()
            &&& forall|i: int|
                0 <= i < branches.len() ==> stands_for((#[trigger] branches[i]).0, all[i].0)
                    && block_stands_for(branches[i].1, all[i].1)
        }),
    decreases
            branches,
            if done.len() < branches.len() {
                (branches.len() - done.len()) as nat
            } else {
                0
            },
{
    reveal(typing::check_branches);
    reveal(typing::check_block);
    if done.len() < branches.len() {
        let i = done.len() as int;
        let (cond, body) = branches[i];
        assert(decreases_to!(branches => branches[i]));
        assert(decreases_to!(branches[i] => branches[i].1));
        let c = typing::check_expr(cx, cond, None, diags);
        let d = typing::bool_diags(cx, c.ty, cond.span, c.diags);
        let (b, d2) = typing::check_block(cx, fx, body, d);
        let next = done.push((c.expr, b));
        soundness::check_expr_facts(cx, cond, None, diags);
        soundness::check_block_facts(cx, fx, body, d);
        soundness::check_branches_facts(cx, fx, branches, next, d2);
        checked_expression_stands_for_itself(cx, cond, None, diags);
        block_stands(cx, fx, body, d);
        assert forall|j: int| 0 <= j < next.len() implies stands_for(
            (#[trigger] branches[j]).0,
            next[j].0,
        ) && block_stands_for(branches[j].1, next[j].1) by {
            if j < i {
                assert(next[j] == done[j]);
            }
        }
        branches_stand(cx, fx, branches, next, d2);
    }
}

proof fn block_stands(cx: CheckM, fx: FnM, b: BlockM, diags: Seq<DiagM>)
    requires
        typing::check_block(cx, fx, b, diags).1.len() == diags.len(),
    ensures
        block_stands_for(b, typing::check_block(cx, fx, b, diags).0),
    decreases b, 0nat,
{
    reveal(typing::check_block);
    reveal(typing::check_stmts);
    stmts_stand(cx, fx, b.stmts, Seq::empty(), diags);
}

proof fn stmts_stand(
    cx: CheckM,
    fx: FnM,
    stmts: Seq<StmtM>,
    done: Seq<StmtM>,
    diags: Seq<DiagM>,
)
    requires
        done.len() <= stmts.len(),
        typing::check_stmts(cx, fx, stmts, done, diags).1.len() == diags.len(),
        forall|i: int| 0 <= i < done.len() ==> stmt_stands_for(#[trigger] stmts[i], done[i]),
    ensures
        ({
            let all = typing::check_stmts(cx, fx, stmts, done, diags).0;
            &&& all.len() == stmts.len()
            &&& forall|i: int| 0 <= i < stmts.len() ==> stmt_stands_for(#[trigger] stmts[i], all[i])
        }),
    decreases
            stmts,
            if done.len() < stmts.len() {
                (stmts.len() - done.len()) as nat
            } else {
                0
            },
{
    reveal(typing::check_stmts);
    reveal(typing::check_stmt);
    if done.len() < stmts.len() {
        let i = done.len() as int;
        let r = typing::check_stmt(cx, fx, stmts[i], diags);
        let next = done.push(r.stmt);
        let cx1 = CheckM { vars: r.vars, ..cx };
        soundness::check_stmt_facts(cx, fx, stmts[i], diags);
        soundness::check_stmts_facts(cx1, fx, stmts, next, r.diags);
        stmt_stands(cx, fx, stmts[i], diags);
        assert forall|j: int| 0 <= j < next.len() implies stmt_stands_for(
            #[trigger] stmts[j],
            next[j],
        ) by {
            if j < i {
                assert(next[j] == done[j]);
            }
        }
        stmts_stand(cx1, fx, stmts, next, r.diags);
    }
}

// ---------------------------------------------------------------------------
// Programs
// ---------------------------------------------------------------------------

/// Whether the checked function is the other one with a body that stands for its
/// body.
pub open spec fn fn_stands_for(f: FnDeclM, r: FnDeclM) -> bool {
    &&& r.name == f.name
    &&& r.params == f.params
    &&& r.return_type == f.return_type
    &&& r.span == f.span
    &&& block_stands_for(f.body, r.body)
}

pub open spec fn fns_stand_for(fs: Seq<FnDeclM>, rs: Seq<FnDeclM>) -> bool {
    &&& rs.len() == fs.len()
    &&& forall|i: int| 0 <= i < fs.len() ==> fn_stands_for(#[trigger] fs[i], rs[i])
}

/// Whether the checked item is the other one, with the same fields, and with
/// functions that stand for its functions.
pub open spec fn item_stands_for(item: ItemM, r: ItemM) -> bool {
    match item {
        ItemM::Fn(f) => r matches ItemM::Fn(g) && fn_stands_for(f, g),
        ItemM::Struct(s) => r matches ItemM::Struct(t) && t.name == s.name && t.fields == s.fields
            && t.span == s.span && fns_stand_for(s.methods, t.methods),
        ItemM::Extend(e) => r matches ItemM::Extend(x) && x.module == e.module && x.name == e.name
            && x.span == e.span && fns_stand_for(e.methods, x.methods),
        ItemM::Import(_) => r == item,
    }
}

pub open spec fn items_stand_for(items: Seq<ItemM>, rs: Seq<ItemM>) -> bool {
    &&& rs.len() == items.len()
    &&& forall|i: int| 0 <= i < items.len() ==> item_stands_for(#[trigger] items[i], rs[i])
}

pub open spec fn modules_stand_for(
    modules: Seq<(Seq<char>, ProgramM)>,
    rs: Seq<(Seq<char>, ProgramM)>,
) -> bool {
    &&& rs.len() == modules.len()
    &&& forall|i: int|
        0 <= i < modules.len() ==> (#[trigger] modules[i]).0 == rs[i].0 && items_stand_for(
            modules[i].1.items,
            rs[i].1.items,
        )
}

proof fn fn_stands(u: UnitM, f: FnDeclM, owner: TypeM, raw: bool, diags: Seq<DiagM>)
    requires
        typing::check_fn(u, f, owner, raw, diags).1.len() == diags.len(),
    ensures
        fn_stands_for(f, typing::check_fn(u, f, owner, raw, diags).0),
{
    reveal(typing::check_fn);
    let cx = u.at(typing::param_vars(f.params, owner), raw);
    let fx = FnM { return_type: f.return_type, in_loop: false };
    soundness::check_block_facts(cx, fx, f.body, diags);
    block_stands(cx, fx, f.body, diags);
}

proof fn fns_stand(
    u: UnitM,
    fs: Seq<FnDeclM>,
    n: int,
    owner: TypeM,
    raw: bool,
    diags: Seq<DiagM>,
)
    requires
        0 <= n <= fs.len(),
        typing::check_fns(u, fs, n, owner, raw, diags).1.len() == diags.len(),
    ensures
        ({
            let r = typing::check_fns(u, fs, n, owner, raw, diags).0;
            r.len() == n && forall|i: int| 0 <= i < n ==> fn_stands_for(#[trigger] fs[i], r[i])
        }),
    decreases n,
{
    reveal(typing::check_fns);
    if n > 0 {
        let (done, d) = typing::check_fns(u, fs, n - 1, owner, raw, diags);
        soundness::check_fns_facts(u, fs, n - 1, owner, raw, diags);
        soundness::check_fn_facts(u, fs[n - 1], owner, raw, d);
        fns_stand(u, fs, n - 1, owner, raw, diags);
        fn_stands(u, fs[n - 1], owner, raw, d);
    }
}

proof fn item_stands(u: UnitM, item: ItemM, diags: Seq<DiagM>)
    requires
        typing::check_item(u, item, diags).1.len() == diags.len(),
    ensures
        item_stands_for(item, typing::check_item(u, item, diags).0),
{
    reveal(typing::check_item);
    match item {
        ItemM::Fn(f) => fn_stands(u, f, typing::self_type(Seq::empty()), false, diags),
        ItemM::Struct(s) => fns_stand(
            u,
            s.methods,
            s.methods.len() as int,
            typing::self_type(s.name),
            u.env.machine_backed(s.name),
            diags,
        ),
        ItemM::Extend(e) => fns_stand(
            u,
            e.methods,
            e.methods.len() as int,
            typing::extended_type(e),
            typing::is_primitive(e.name),
            diags,
        ),
        ItemM::Import(_) => {},
    }
}

proof fn items_stand(u: UnitM, items: Seq<ItemM>, n: int, diags: Seq<DiagM>)
    requires
        0 <= n <= items.len(),
        typing::check_items(u, items, n, diags).1.len() == diags.len(),
    ensures
        ({
            let r = typing::check_items(u, items, n, diags).0;
            r.len() == n && forall|i: int| 0 <= i < n ==> item_stands_for(#[trigger] items[i], r[i])
        }),
    decreases n,
{
    reveal(typing::check_items);
    if n > 0 {
        let (done, d) = typing::check_items(u, items, n - 1, diags);
        soundness::check_items_facts(u, items, n - 1, diags);
        soundness::check_item_facts(u, items[n - 1], d);
        items_stand(u, items, n - 1, diags);
        item_stands(u, items[n - 1], d);
    }
}

proof fn modules_stand(
    u: UnitM,
    infos: Seq<(Seq<char>, ModuleInfoM)>,
    modules: Seq<(Seq<char>, ProgramM)>,
    n: int,
    diags: Seq<DiagM>,
)
    requires
        0 <= n <= modules.len(),
        typing::check_modules(u, infos, modules, n, diags).1.len() == diags.len(),
    ensures
        ({
            let r = typing::check_modules(u, infos, modules, n, diags).0;
            r.len() == n && forall|i: int|
                0 <= i < n ==> (#[trigger] modules[i]).0 == r[i].0 && items_stand_for(
                    modules[i].1.items,
                    r[i].1.items,
                )
        }),
    decreases n,
{
    reveal(typing::check_modules);
    if n > 0 {
        let (done, d) = typing::check_modules(u, infos, modules, n - 1, diags);
        let items = modules[n - 1].1.items;
        let v = typing::inside(u, infos[n - 1].1);
        soundness::check_modules_facts(u, infos, modules, n - 1, diags);
        soundness::check_items_facts(v, items, items.len() as int, d);
        modules_stand(u, infos, modules, n - 1, diags);
        items_stand(v, items, items.len() as int, d);
    }
}

/// A program that is accepted is still the same program, with its modules: each
/// struct has its fields, each function its parameters and its return type, and
/// each statement and expression stands for the one that was written there.
pub proof fn accepted_program_stands_for_itself(
    file: Seq<char>,
    src: Seq<char>,
    program: ProgramM,
    modules: Seq<(Seq<char>, ProgramM)>,
)
    requires
        typing::check_program(file, src, program, modules).diags.len() == 0,
    ensures
        ({
            let r = typing::check_program(file, src, program, modules);
            &&& items_stand_for(program.items, r.program.items)
            &&& modules_stand_for(modules, r.modules)
        }),
{
    let (u, infos, d0) = typing::declarations(file, src, program, modules);
    let n = program.items.len() as int;
    let (items, d1) = typing::check_items(u, program.items, n, d0);
    let (done, d2) = typing::check_modules(u, infos, modules, modules.len() as int, d1);
    soundness::check_items_facts(u, program.items, n, d0);
    soundness::check_modules_facts(u, infos, modules, modules.len() as int, d1);
    reveal(typing::check_main);
    assert(typing::check_main(u, d2).len() >= d2.len());
    items_stand(u, program.items, n, d0);
    modules_stand(u, infos, modules, modules.len() as int, d1);
}

} // verus!
