//! In what the type checker accepts, every value fits where it stands.

use vstd::prelude::*;

use crate::ast;
use crate::ast::{
    AsmTokenM, BinaryOp, BlockM, ExprKindM, ExprM, FieldDeclM, FnDeclM, ItemM, LValueM, ParamKindM,
    ParamM, ProgramM, Span, StmtM, StructNameM, TypeM, UnaryOp,
};
use crate::error::DiagM;
use crate::soundness;
use crate::typing;
use crate::typing::{
    CalleeM, CastM, CheckM, Checked, EnvM, FnM, ModuleInfoM, OutsideM, Rewritten, SigM,
    StructInfoM, UnitM,
};

verus! {

// ---------------------------------------------------------------------------
// Known types
// ---------------------------------------------------------------------------

/// Whether no part of the type is unknown.
pub open spec fn known(ty: TypeM) -> bool
    decreases ty,
{
    match ty {
        TypeM::Unknown => false,
        TypeM::Ref(inner) => known(*inner),
        TypeM::MutRef(inner) => known(*inner),
        _ => true,
    }
}

pub open spec fn fields_known(fields: Seq<FieldDeclM>) -> bool {
    forall|i: int| 0 <= i < fields.len() ==> known((#[trigger] fields[i]).ty)
}

pub open spec fn sigs_known(sigs: Seq<SigM>) -> bool {
    forall|i: int| 0 <= i < sigs.len() ==> known((#[trigger] sigs[i]).return_type)
}

pub open spec fn structs_known(structs: Seq<StructInfoM>) -> bool {
    forall|i: int|
        0 <= i < structs.len() ==> fields_known((#[trigger] structs[i]).fields) && sigs_known(
            structs[i].methods,
        )
}

pub open spec fn module_known(m: ModuleInfoM) -> bool {
    structs_known(m.structs) && sigs_known(m.functions)
}

pub open spec fn modules_known(modules: Seq<(Seq<char>, ModuleInfoM)>) -> bool {
    forall|i: int| 0 <= i < modules.len() ==> module_known((#[trigger] modules[i]).1)
}

/// Whether all declared types are known.
pub open spec fn env_known(env: EnvM) -> bool {
    &&& module_known(env.own)
    &&& structs_known(env.structs)
    &&& sigs_known(env.functions)
    &&& modules_known(env.modules)
    &&& sigs_known(env.i64_methods)
    &&& sigs_known(env.f64_methods)
}

pub open spec fn vars_known(vars: Seq<(Seq<char>, TypeM)>) -> bool {
    forall|i: int| 0 <= i < vars.len() ==> known((#[trigger] vars[i]).1)
}

pub open spec fn place_known(cx: CheckM) -> bool {
    env_known(cx.env) && vars_known(cx.vars)
}

proof fn find_sig_known(sigs: Seq<SigM>, name: Seq<char>, i: int)
    requires
        sigs_known(sigs),
    ensures
        typing::find_sig(sigs, name, i) matches Some(s) ==> known(s.return_type),
    decreases sigs.len() - i,
{
    if 0 <= i < sigs.len() && sigs[i].name != name {
        find_sig_known(sigs, name, i + 1);
    }
}

proof fn find_struct_known(structs: Seq<StructInfoM>, name: Seq<char>, i: int)
    requires
        structs_known(structs),
    ensures
        typing::find_struct(structs, name, i) matches Some(s) ==> fields_known(s.fields)
            && sigs_known(s.methods),
    decreases structs.len() - i,
{
    if 0 <= i < structs.len() && structs[i].name != name {
        find_struct_known(structs, name, i + 1);
    }
}

proof fn find_module_known(modules: Seq<(Seq<char>, ModuleInfoM)>, name: Seq<char>, i: int)
    requires
        modules_known(modules),
    ensures
        typing::find_module(modules, name, i) matches Some(m) ==> module_known(m),
    decreases modules.len() - i,
{
    if 0 <= i < modules.len() && modules[i].0 != name {
        find_module_known(modules, name, i + 1);
    }
}

proof fn find_in_modules_known(modules: Seq<(Seq<char>, ModuleInfoM)>, name: Seq<char>, i: int)
    requires
        modules_known(modules),
    ensures
        typing::find_in_modules(modules, name, i) matches Some(s) ==> fields_known(s.fields)
            && sigs_known(s.methods),
    decreases modules.len() - i,
{
    if 0 <= i < modules.len() {
        assert(module_known(modules[i].1));
        find_struct_known(modules[i].1.structs, name, 0);
        find_in_modules_known(modules, name, i + 1);
    }
}

proof fn first_field_known(fields: Seq<FieldDeclM>, name: Seq<char>, i: int)
    requires
        fields_known(fields),
    ensures
        typing::first_field(fields, name, i) matches Some(t) ==> known(t),
    decreases fields.len() - i,
{
    if 0 <= i < fields.len() && fields[i].name != name {
        first_field_known(fields, name, i + 1);
    }
}

proof fn find_var_known(vars: Seq<(Seq<char>, TypeM)>, name: Seq<char>, n: int)
    requires
        vars_known(vars),
    ensures
        typing::find_var(vars, name, n) matches Some(t) ==> known(t),
    decreases n,
{
    if 0 < n <= vars.len() && vars[n - 1].0 != name {
        find_var_known(vars, name, n - 1);
    }
}

proof fn lookup_known(env: EnvM, module: Seq<char>, name: Seq<char>)
    requires
        env_known(env),
    ensures
        env.lookup_struct(name) matches Some(s) ==> fields_known(s.fields) && sigs_known(
            s.methods,
        ),
        env.lookup_qualified(module, name) matches Some(s) ==> fields_known(s.fields)
            && sigs_known(s.methods),
        env.lookup_fn(name) matches Some(s) ==> known(s.return_type),
        env.lookup_module_fn(module, name) matches Some(s) ==> known(s.return_type),
        env.find_method(module, name) matches Some(s) ==> known(s.return_type),
{
    find_struct_known(env.own.structs, name, 0);
    find_struct_known(env.structs, name, 0);
    find_struct_known(env.own.structs, module, 0);
    find_struct_known(env.structs, module, 0);
    find_sig_known(env.own.functions, name, 0);
    find_sig_known(env.functions, name, 0);
    find_module_known(env.modules, module, 0);
    if let Some(m) = typing::find_module(env.modules, module, 0) {
        find_struct_known(m.structs, name, 0);
        find_sig_known(m.functions, name, 0);
    }
    if let Some(s) = env.lookup_struct(module) {
        find_sig_known(s.methods, name, 0);
    }
    find_sig_known(env.i64_methods, name, 0);
    find_sig_known(env.f64_methods, name, 0);
}

proof fn struct_of_known(env: EnvM, ty: TypeM)
    requires
        env_known(env),
    ensures
        env.struct_of(ty) matches Some(s) ==> fields_known(s.fields) && sigs_known(s.methods),
    decreases ty,
{
    match ty {
        TypeM::Named(n) => {
            lookup_known(env, n, n);
            find_in_modules_known(env.modules, n, 0);
        },
        TypeM::Qualified(m, n) => lookup_known(env, m, n),
        TypeM::Ref(inner) => struct_of_known(env, *inner),
        TypeM::MutRef(inner) => struct_of_known(env, *inner),
        _ => {},
    }
}

proof fn method_of_known(env: EnvM, ty: TypeM, method: Seq<char>)
    requires
        env_known(env),
    ensures
        env.method_of(ty, method) matches Some(s) ==> known(s.return_type),
    decreases ty,
{
    find_sig_known(env.i64_methods, method, 0);
    find_sig_known(env.f64_methods, method, 0);
    match ty {
        TypeM::Ref(inner) => method_of_known(env, *inner, method),
        TypeM::MutRef(inner) => method_of_known(env, *inner, method),
        _ => {
            struct_of_known(env, ty);
            if let Some(s) = env.struct_of(ty) {
                find_sig_known(s.methods, method, 0);
            }
        },
    }
}

// ---------------------------------------------------------------------------
// Well-typed expressions
// ---------------------------------------------------------------------------

/// Whether the checked expression can stand where a value of the type is asked
/// for.
pub open spec fn fits(env: EnvM, ty: TypeM, e: ExprM) -> bool {
    e.ty is Some && env.compatible(ty, e.ty->0)
}

/// Whether there is one argument for each parameter, which fits.
pub open spec fn args_fit(env: EnvM, sig: SigM, args: Seq<ExprM>) -> bool {
    let params = typing::param_types(sig);
    &&& args.len() == params.len()
    &&& forall|i: int| 0 <= i < args.len() ==> fits(env, params[i], #[trigger] args[i])
}

/// Whether the initializer gives each field of the struct once, and nothing
/// else, with values that fit.
pub open spec fn init_fits(env: EnvM, decl: StructInfoM, fields: Seq<(Seq<char>, ExprM)>) -> bool {
    &&& forall|i: int|
        0 <= i < fields.len() ==> {
            let ty = typing::declared(decl, (#[trigger] fields[i]).0);
            ty is Some && fits(env, ty->0, fields[i].1)
        }
    &&& forall|i: int, j: int|
        0 <= i < j < fields.len() ==> (#[trigger] fields[i]).0 != (#[trigger] fields[j]).0
    &&& forall|k: int|
        0 <= k < decl.fields.len() ==> gives(fields, (#[trigger] decl.fields[k]).name)
}

/// Whether one of the fields of the initializer has that name.
pub open spec fn gives(fields: Seq<(Seq<char>, ExprM)>, name: Seq<char>) -> bool {
    exists|i: int| 0 <= i < fields.len() && (#[trigger] fields[i]).0 == name
}

/// The function that a callee without a receiver names.
pub open spec fn called(env: EnvM, callee: ExprKindM) -> Option<SigM> {
    match callee {
        ExprKindM::Ident(name) => env.lookup_fn(name),
        ExprKindM::QualifiedIdent { module, name } => match env.find_method(module, name) {
            Some(sig) if !typing::has_self(sig) => Some(sig),
            _ => env.lookup_module_fn(module, name),
        },
        _ => None,
    }
}

/// Whether a checked expression has the type that its parts give it: a variable
/// that of its declaration, a field that of the struct, a call that which the
/// function returns, with arguments that fit its parameters, an initializer that
/// of the struct, each of whose fields it gives once with a value that fits.
pub open spec fn well_typed(cx: CheckM, e: ExprM) -> bool
    decreases e,
{
    e.ty is Some && match e.kind {
        ExprKindM::IntLit(_) => e.ty->0 is I64,
        ExprKindM::FloatLit(_) => e.ty->0 is F64,
        ExprKindM::StringLit(_) => e.ty->0 is I64,
        ExprKindM::CharLit(_) => e.ty->0 is I64,
        ExprKindM::BoolLit(_) => e.ty->0 is I64,
        ExprKindM::Ident(name) => cx.lookup(name) == e.ty,
        ExprKindM::QualifiedIdent { module, name } => cx.env.lookup_module_fn(module, name) is Some
            && e.ty->0 is Void,
        ExprKindM::Unary { operand, .. } => well_typed(cx, *operand) && operand.ty == e.ty
            && e.ty->0.is_machine(),
        ExprKindM::Binary { left, right, .. } => well_typed(cx, *left) && well_typed(cx, *right)
            && left.ty == e.ty && e.ty->0.is_machine(),
        ExprKindM::Cast { .. } => false,
        ExprKindM::Ref { mutable, operand } => well_typed(cx, *operand) && e.ty->0 == if mutable {
            TypeM::MutRef(Box::new(operand.ty->0))
        } else {
            TypeM::Ref(Box::new(operand.ty->0))
        },
        ExprKindM::Deref { operand } => well_typed(cx, *operand) && operand.ty->0.referent()
            == e.ty,
        ExprKindM::Field { object, field } => well_typed(cx, *object) && match cx.env.struct_of(
            object.ty->0,
        ) {
            Some(s) => typing::first_field(s.fields, field, 0) == e.ty,
            None => false,
        },
        ExprKindM::Call { callee, args } => all_well_typed(cx, args) && match callee.kind {
            ExprKindM::Field { object, field } => well_typed(cx, *object)
                && match cx.env.method_of(object.ty->0, field) {
                Some(sig) => args_fit(cx.env, sig, args) && e.ty->0 == sig.return_type,
                None => false,
            },
            _ => match called(cx.env, callee.kind) {
                Some(sig) => args_fit(cx.env, sig, args) && e.ty->0 == sig.return_type,
                None => false,
            },
        },
        ExprKindM::StructInit { name, fields } => inits_well_typed(cx, fields)
            && match typing::init_target(cx.env, name) {
            Some(decl) => init_fits(cx.env, decl, fields) && e.ty->0 == typing::struct_type(name),
            None => false,
        },
    }
}

pub open spec fn all_well_typed(cx: CheckM, s: Seq<ExprM>) -> bool
    decreases s,
{
    s.len() == 0 || (well_typed(cx, s.last()) && all_well_typed(cx, s.drop_last()))
}

pub open spec fn inits_well_typed(cx: CheckM, s: Seq<(Seq<char>, ExprM)>) -> bool
    decreases s,
{
    s.len() == 0 || (well_typed(cx, s.last().1) && inits_well_typed(cx, s.drop_last()))
}

proof fn one_well_typed(cx: CheckM, e: ExprM)
    requires
        well_typed(cx, e),
    ensures
        all_well_typed(cx, seq![e]),
{
    assert(seq![e].drop_last() =~= Seq::empty());
    assert(all_well_typed(cx, seq![e].drop_last()));
}

proof fn one_init_well_typed(cx: CheckM, f: (Seq<char>, ExprM))
    requires
        well_typed(cx, f.1),
    ensures
        inits_well_typed(cx, seq![f]),
{
    assert(seq![f].drop_last() =~= Seq::empty());
    assert(inits_well_typed(cx, seq![f].drop_last()));
}

/// An expression that was checked without a diagnostic: its type is known, it is
/// annotated with it, and it is well-typed.
spec fn checks(cx: CheckM, r: Rewritten, span: Span) -> bool {
    known(r.ty) && well_typed(cx, typing::typed(r.kind, r.ty, span))
}

proof fn missing_none(
    cx: CheckM,
    decl: StructInfoM,
    span: Span,
    seen: Seq<Seq<char>>,
    n: int,
    diags: Seq<DiagM>,
)
    requires
        0 <= n <= decl.fields.len(),
    ensures
        typing::missing_fields(cx, decl, span, seen, n, diags).len() >= diags.len(),
        typing::missing_fields(cx, decl, span, seen, n, diags).len() == diags.len() ==> forall|
            k: int,
        |
            0 <= k < n ==> seen.contains((#[trigger] decl.fields[k]).name),
    decreases n,
{
    if n > 0 {
        missing_none(cx, decl, span, seen, n - 1, diags);
    }
}

/// A wrapper struct around a literal.
proof fn boxed_typed(cx: CheckM, decl: StructInfoM, name: Seq<char>, c: Rewritten, span: Span)
    requires
        checks(cx, c, span),
        cx.env.lookup_struct(name) == Some(decl),
    ensures
        ({
            let r = typing::boxed(cx, decl, name, c, span);
            &&& r.diags.len() >= c.diags.len()
            &&& r.diags.len() == c.diags.len() ==> checks(cx, r, span)
        }),
{
    let inner = typing::typed(c.kind, c.ty, span);
    let (seen, d) = typing::init_field(cx, decl, "inner_value"@, c.ty, span, Seq::empty(), c.diags);
    missing_none(cx, decl, span, seen, decl.fields.len() as int, d);
    let fields = seq![("inner_value"@, inner)];
    let r = typing::boxed(cx, decl, name, c, span);
    if r.diags.len() == c.diags.len() {
        one_init_well_typed(cx, fields[0]);
        assert(init_fits(cx.env, decl, fields)) by {
            assert forall|k: int| 0 <= k < decl.fields.len() implies gives(
                fields,
                (#[trigger] decl.fields[k]).name,
            ) by {
                assert(seen.contains(decl.fields[k].name));
                assert(seen =~= seq!["inner_value"@]);
                assert(fields[0].0 == decl.fields[k].name);
            }
        }
    }
}

proof fn machine_literal_typed(
    cx: CheckM,
    kind: ExprKindM,
    ty: TypeM,
    name: Seq<char>,
    span: Span,
    hint: Option<TypeM>,
    diags: Seq<DiagM>,
)
    requires
        ty is I64 || ty is F64,
        well_typed(cx, typing::typed(kind, ty, span)),
    ensures
        ({
            let r = typing::machine_literal(cx, kind, ty, name, span, hint, diags);
            &&& r.diags.len() >= diags.len()
            &&& r.diags.len() == diags.len() ==> checks(cx, r, span)
        }),
{
    reveal(typing::machine_literal);
    if let Some(decl) = cx.env.lookup_struct(name) {
        boxed_typed(cx, decl, name, Rewritten { kind, ty, diags }, span);
    }
}

proof fn coded_literal_typed(
    cx: CheckM,
    kind: ExprKindM,
    n: i64,
    name: Seq<char>,
    span: Span,
    diags: Seq<DiagM>,
)
    requires
        well_typed(cx, typing::typed(kind, TypeM::I64, span)),
    ensures
        ({
            let r = typing::coded_literal(cx, kind, n, name, span, diags);
            &&& r.diags.len() >= diags.len()
            &&& r.diags.len() == diags.len() ==> checks(cx, r, span)
        }),
{
    reveal(typing::coded_literal);
    if let Some(decl) = cx.env.lookup_struct(name) {
        let hint = typing::declared(decl, "inner_value"@);
        machine_literal_typed(cx, ExprKindM::IntLit(n), TypeM::I64, "int"@, span, hint, diags);
        let c = typing::int_literal(cx, n, span, hint, diags);
        if c.diags.len() == diags.len() {
            boxed_typed(cx, decl, name, c, span);
        } else {
            let (seen, d) = typing::init_field(
                cx,
                decl,
                "inner_value"@,
                c.ty,
                span,
                Seq::empty(),
                c.diags,
            );
            missing_none(cx, decl, span, seen, decl.fields.len() as int, d);
        }
    }
}

proof fn string_literal_typed(
    cx: CheckM,
    s: Seq<char>,
    span: Span,
    hint: Option<TypeM>,
    diags: Seq<DiagM>,
)
    ensures
        ({
            let r = typing::string_literal(cx, s, span, hint, diags);
            &&& r.diags.len() >= diags.len()
            &&& r.diags.len() == diags.len() ==> checks(cx, r, span)
        }),
{
    reveal(typing::string_literal);
    reveal_strlit("ptr");
    reveal_strlit("length");
    assert("ptr"@.len() != "length"@.len());
    let plain = ExprKindM::StringLit(s);
    if let Some(decl) = cx.env.lookup_struct("string"@) {
        let (seen1, d1) = typing::init_field(
            cx,
            decl,
            "ptr"@,
            TypeM::I64,
            span,
            Seq::empty(),
            diags,
        );
        let lhint = typing::declared(decl, "length"@);
        let n = typing::byte_len(s);
        machine_literal_typed(cx, ExprKindM::IntLit(n), TypeM::I64, "int"@, span, lhint, d1);
        let len = typing::int_literal(cx, n, span, lhint, d1);
        let (seen2, d2) = typing::init_field(cx, decl, "length"@, len.ty, span, seen1, len.diags);
        missing_none(cx, decl, span, seen2, decl.fields.len() as int, d2);
        let a = typing::typed(plain, TypeM::I64, span);
        let b = typing::typed(len.kind, len.ty, span);
        let fields = seq![("ptr"@, a), ("length"@, b)];
        let r = typing::string_literal(cx, s, span, hint, diags);
        if r.diags.len() == diags.len() && r.ty == TypeM::Named("string"@) {
            one_init_well_typed(cx, fields[0]);
            assert(fields.drop_last() =~= seq![fields[0]]);
            assert(fields.last() == fields[1]);
            assert(d1.len() == diags.len());
            assert(len.diags.len() == d1.len());
            assert(well_typed(cx, b));
            assert(inits_well_typed(cx, fields));
            assert(init_fits(cx.env, decl, fields)) by {
                assert forall|k: int| 0 <= k < decl.fields.len() implies gives(
                    fields,
                    (#[trigger] decl.fields[k]).name,
                ) by {
                    assert(seen2.contains(decl.fields[k].name));
                    assert(seen2 =~= seq!["ptr"@, "length"@]);
                    assert(fields[0].0 == decl.fields[k].name || fields[1].0
                        == decl.fields[k].name);
                }
            }
        }
    }
}

/// The same of a checked expression with its span.
spec fn good(cx: CheckM, c: Checked) -> bool {
    known(c.ty) && c.expr.ty == Some(c.ty) && well_typed(cx, c.expr)
}

proof fn no_args_fit(cx: CheckM, sig: SigM)
    requires
        typing::param_types(sig).len() == 0,
    ensures
        args_fit(cx.env, sig, Seq::empty()),
        all_well_typed(cx, Seq::empty()),
{
}

proof fn unary_typed(cx: CheckM, op: UnaryOp, c: Checked, span: Span)
    requires
        place_known(cx),
    ensures
        ({
            let r = typing::unary_op(cx, op, c, span);
            &&& r.diags.len() >= c.diags.len()
            &&& r.diags.len() == c.diags.len() && good(cx, c) ==> checks(cx, r, span)
        }),
{
    reveal(typing::unary_op);
    if let Some(method) = ast::unary_method(op) {
        method_of_known(cx.env, c.ty, method);
        if let Some(sig) = cx.env.method_of(c.ty, method) {
            if typing::param_types(sig).len() == 0 {
                no_args_fit(cx, sig);
            }
        }
    }
}

proof fn binary_typed(
    cx: CheckM,
    op: BinaryOp,
    l: Checked,
    r: Checked,
    span: Span,
)
    requires
        place_known(cx),
    ensures
        ({
            let out = typing::binary_op(cx, op, l.expr, l.ty, r, span);
            &&& out.diags.len() >= r.diags.len()
            &&& out.diags.len() == r.diags.len() && good(cx, l) && good(cx, r) ==> checks(
                cx,
                out,
                span,
            )
        }),
{
    reveal(typing::binary_op);
    let method = ast::binary_method(op);
    method_of_known(cx.env, l.ty, method);
    let arg = typing::as_reference(r.expr, r.ty, span);
    if good(cx, r) {
        assert(well_typed(cx, arg));
        one_well_typed(cx, arg);
        assert(arg.ty == Some(typing::reference_type(r.ty)));
    }
    if let Some(sig) = cx.env.method_of(l.ty, method) {
        let params = typing::param_types(sig);
        if params.len() == 1 && cx.env.compatible(params[0], typing::reference_type(r.ty)) && good(
            cx,
            r,
        ) {
            assert(args_fit(cx.env, sig, seq![arg]));
        }
    }
}

proof fn cast_typed(cx: CheckM, c: Checked, target: TypeM, span: Span)
    requires
        place_known(cx),
    ensures
        match typing::cast_op(cx, c, target, span) {
            CastM::Done(r) => {
                &&& r.diags.len() >= c.diags.len()
                &&& r.diags.len() == c.diags.len() && good(cx, c) ==> checks(cx, r, span)
            },
            CastM::Box(_, _) => true,
        },
{
    reveal(typing::cast_op);
    struct_of_known(cx.env, c.ty);
    match target {
        TypeM::Named(n) => struct_cast_typed(cx, c, StructNameM::Unqualified(n), span, target),
        TypeM::Qualified(m, n) => struct_cast_typed(
            cx,
            c,
            StructNameM::Qualified(m, n),
            span,
            target,
        ),
        _ => {},
    }
}

proof fn struct_cast_typed(
    cx: CheckM,
    c: Checked,
    name: StructNameM,
    span: Span,
    target: TypeM,
)
    requires
        place_known(cx),
    ensures
        ({
            let gone = ExprKindM::Cast {
                expr: Box::new(typing::dummy(span)),
                target_type: target,
            };
            match typing::struct_cast(cx, c, name, gone, span) {
                CastM::Done(r) => {
                    &&& r.diags.len() >= c.diags.len()
                    &&& r.diags.len() == c.diags.len() && good(cx, c) ==> checks(cx, r, span)
                },
                CastM::Box(_, _) => true,
            }
        }),
{
    let method = "to_"@ + name.base();
    method_of_known(cx.env, c.ty, method);
    if let Some(sig) = cx.env.method_of(c.ty, method) {
        if typing::is_cast_method(cx.env, sig, typing::struct_type(name)) {
            assert(typing::named_types(sig.params, 0) =~= Seq::empty());
            assert(typing::named_types(sig.params, 1) =~= Seq::empty());
            no_args_fit(cx, sig);
        }
    }
}

/// An expression that is checked without a diagnostic has a known type, and is
/// well-typed.
pub proof fn checked_expression_is_well_typed(
    cx: CheckM,
    e: ExprM,
    hint: Option<TypeM>,
    diags: Seq<DiagM>,
)
    requires
        place_known(cx),
    ensures
        ({
            let c = typing::check_expr(cx, e, hint, diags);
            &&& c.diags.len() >= diags.len()
            &&& c.diags.len() == diags.len() ==> known(c.ty) && c.expr.ty == Some(c.ty)
                && well_typed(cx, c.expr)
        }),
    decreases typing::casts(e), e, 2nat,
{
    reveal(typing::check_expr);
    reveal(typing::check_kind);
    kind_typed(cx, e, hint, diags);
}

#[verifier::rlimit(60)]
#[verifier::spinoff_prover]
proof fn kind_typed(cx: CheckM, e: ExprM, hint: Option<TypeM>, diags: Seq<DiagM>)
    requires
        place_known(cx),
    ensures
        ({
            let r = typing::check_kind(cx, e, hint, diags);
            &&& r.diags.len() >= diags.len()
            &&& r.diags.len() == diags.len() ==> checks(cx, r, e.span)
        }),
    decreases typing::casts(e), e, 1nat,
{
    reveal(typing::check_kind);
    reveal(typing::check_expr);
    let span = e.span;
    match e.kind {
        ExprKindM::IntLit(n) => {
            machine_literal_typed(cx, e.kind, TypeM::I64, "int"@, span, hint, diags);
        },
        ExprKindM::FloatLit(f) => {
            machine_literal_typed(cx, e.kind, TypeM::F64, "float"@, span, hint, diags);
        },
        ExprKindM::CharLit(c) => {
            coded_literal_typed(cx, e.kind, c as i64, "char"@, span, diags);
        },
        ExprKindM::BoolLit(b) => {
            coded_literal_typed(
                cx,
                e.kind,
                if b {
                    1
                } else {
                    0
                },
                "bool"@,
                span,
                diags,
            );
        },
        ExprKindM::StringLit(s) => string_literal_typed(cx, s, span, hint, diags),
        ExprKindM::Ident(name) => find_var_known(cx.vars, name, cx.vars.len() as int),
        ExprKindM::QualifiedIdent { module, name } => {},
        ExprKindM::Ref { mutable, operand } => {
            checked_expression_is_well_typed(cx, *operand, None, diags);
        },
        ExprKindM::Deref { operand } => {
            checked_expression_is_well_typed(cx, *operand, None, diags);
            let c = typing::check_expr(cx, *operand, None, diags);
            let out = typing::check_kind(cx, e, hint, diags);
            if out.diags.len() == diags.len() {
                let inner = c.ty.referent()->0;
                assert(known(inner));
                assert(out.ty == inner);
                assert(well_typed(cx, typing::typed(out.kind, inner, span)));
            }
        },
        ExprKindM::Unary { op, operand } => {
            checked_expression_is_well_typed(cx, *operand, None, diags);
            unary_typed(cx, op, typing::check_expr(cx, *operand, None, diags), span);
        },
        ExprKindM::Binary { op, left, right } => {
            checked_expression_is_well_typed(cx, *left, None, diags);
            let l = typing::check_expr(cx, *left, None, diags);
            checked_expression_is_well_typed(cx, *right, None, l.diags);
            binary_typed(cx, op, l, typing::check_expr(cx, *right, None, l.diags), span);
        },
        ExprKindM::Cast { expr, target_type } => {
            checked_expression_is_well_typed(cx, *expr, None, diags);
            let c = typing::check_expr(cx, *expr, None, diags);
            cast_typed(cx, c, target_type, span);
            if let CastM::Box(name, field) = typing::cast_op(cx, c, target_type, span) {
                let fields = seq![(field, c.expr)];
                soundness::check_expr_facts(cx, *expr, None, diags);
                soundness::one_init((field, c.expr), cx.raw);
                reveal(typing::check_init);
                init_typed(cx, name, fields, span, c.diags);
            }
        },
        ExprKindM::Call { .. } => {
            reveal(typing::check_call);
            call_typed(cx, e, diags);
        },
        ExprKindM::Field { object, field } => {
            checked_expression_is_well_typed(cx, *object, None, diags);
            let c = typing::check_expr(cx, *object, None, diags);
            struct_of_known(cx.env, c.ty);
            if let Some(s) = cx.env.struct_of(c.ty) {
                first_field_known(s.fields, field, 0);
            }
        },
        ExprKindM::StructInit { name, fields } => {
            reveal(typing::check_init);
            init_typed(cx, name, fields, span, diags);
        },
    }
}

#[verifier::rlimit(60)]
#[verifier::spinoff_prover]
proof fn call_typed(cx: CheckM, e: ExprM, diags: Seq<DiagM>)
    requires
        place_known(cx),
        e.kind is Call,
    ensures
        ({
            let r = typing::check_call(cx, e, diags);
            &&& r.diags.len() >= diags.len()
            &&& r.diags.len() == diags.len() ==> checks(cx, r, e.span)
        }),
    decreases typing::casts(e), e, 0nat,
{
    reveal(typing::check_call);
    reveal(typing::check_expr);
    reveal(typing::check_args);
    reveal(typing::method_callee);
    reveal(typing::plain_callee);
    let span = e.span;
    let callee = e.kind->callee;
    let args = e.kind->args;
    assert(decreases_to!(e => *callee));
    assert(decreases_to!(e => args));
    match callee.kind {
        ExprKindM::Field { object, field } => {
            assert(typing::casts(*callee) == typing::casts(*object));
            checked_expression_is_well_typed(cx, *object, None, diags);
            let c = typing::check_expr(cx, *object, None, diags);
            method_of_known(cx.env, c.ty, field);
            if let CalleeM::Known { params, shown, ty } = typing::method_callee(
                cx,
                c.ty,
                field,
                span,
            ) {
                let d = typing::arg_count_diags(
                    cx,
                    shown,
                    params.len(),
                    args.len(),
                    span,
                    c.diags,
                );
                args_typed(cx, shown, params, args, Seq::empty(), d);
                let (done, d2) = typing::check_args(cx, shown, params, args, Seq::empty(), d);
                let sig = cx.env.method_of(c.ty, field)->0;
                if d2.len() == diags.len() {
                    assert(args_fit(cx.env, sig, done));
                }
            }
        },
        _ => {
            match callee.kind {
                ExprKindM::Ident(name) => lookup_known(cx.env, name, name),
                ExprKindM::QualifiedIdent { module, name } => lookup_known(cx.env, module, name),
                _ => {},
            }
            match typing::plain_callee(cx, callee.kind, span) {
                CalleeM::Known { params, shown, ty } => {
                    let d = typing::arg_count_diags(
                        cx,
                        shown,
                        params.len(),
                        args.len(),
                        span,
                        diags,
                    );
                    args_typed(cx, shown, params, args, Seq::empty(), d);
                    let (done, d2) = typing::check_args(cx, shown, params, args, Seq::empty(), d);
                    let sig = called(cx.env, callee.kind)->0;
                    if d2.len() == diags.len() {
                        assert(params == typing::param_types(sig));
                        assert(args_fit(cx.env, sig, done));
                    }
                },
                CalleeM::Unknown(name) => {
                    let d = diags.push(
                        cx.diag(
                            span,
                            "E492"@,
                            "undeclared function `"@ + name + "`"@,
                            "not found"@,
                        ),
                    );
                    args_typed(cx, name, Seq::empty(), args, Seq::empty(), d);
                },
                CalleeM::Bad(_) => {},
            }
        },
    }
}

proof fn args_typed(
    cx: CheckM,
    shown: Seq<char>,
    params: Seq<TypeM>,
    args: Seq<ExprM>,
    done: Seq<ExprM>,
    diags: Seq<DiagM>,
)
    requires
        place_known(cx),
        done.len() <= args.len(),
    ensures
        ({
            let (all, d) = typing::check_args(cx, shown, params, args, done, diags);
            &&& d.len() >= diags.len()
            &&& all.len() == args.len()
            &&& all.take(done.len() as int) == done
            &&& d.len() == diags.len() ==> {
                &&& all_well_typed(cx, done) ==> all_well_typed(cx, all)
                &&& forall|i: int|
                    done.len() <= i < all.len() && i < params.len() ==> fits(
                        cx.env,
                        params[i],
                        #[trigger] all[i],
                    )
            }
        }),
    decreases
            typing::all_casts(args),
            args,
            if done.len() < args.len() {
                (args.len() - done.len()) as nat
            } else {
                0
            },
{
    reveal(typing::check_args);
    reveal(typing::check_expr);
    let (all, d) = typing::check_args(cx, shown, params, args, done, diags);
    if done.len() >= args.len() {
        assert(all.take(done.len() as int) =~= done);
    } else {
        let i = done.len() as int;
        typing::casts_at(args, i);
        let hint = typing::hint_at(params, i);
        checked_expression_is_well_typed(cx, args[i], hint, diags);
        let c = typing::check_expr(cx, args[i], hint, diags);
        let d1 = typing::arg_diags(cx, shown, params, i as nat, c.ty, args[i].span, c.diags);
        let done1 = done.push(c.expr);
        args_typed(cx, shown, params, args, done1, d1);
        assert(all.take(i + 1) == done1);
        assert(all.take(i) =~= all.take(i + 1).take(i));
        assert(done1.take(i) =~= done);
        assert(all[i] == all.take(i + 1)[i]);
        assert(done1.drop_last() =~= done);
    }
}

proof fn init_typed(
    cx: CheckM,
    name: StructNameM,
    fields: Seq<(Seq<char>, ExprM)>,
    span: Span,
    diags: Seq<DiagM>,
)
    requires
        place_known(cx),
    ensures
        ({
            let r = typing::check_init(cx, name, fields, span, diags);
            &&& r.diags.len() >= diags.len()
            &&& r.diags.len() == diags.len() ==> checks(cx, r, span)
        }),
    decreases typing::init_casts(fields), fields, fields.len() + 1,
{
    reveal(typing::check_init);
    reveal(typing::check_inits);
    let none = Seq::<Seq<char>>::empty();
    match typing::init_target(cx.env, name) {
        Some(decl) => {
            inits_typed(cx, Some(decl), fields, Seq::empty(), none, diags);
            let (done, seen, d) = typing::check_inits(
                cx,
                Some(decl),
                fields,
                Seq::empty(),
                none,
                diags,
            );
            missing_none(cx, decl, span, seen, decl.fields.len() as int, d);
            let r = typing::check_init(cx, name, fields, span, diags);
            if r.diags.len() == diags.len() {
                assert forall|k: int| 0 <= k < decl.fields.len() implies gives(
                    done,
                    (#[trigger] decl.fields[k]).name,
                ) by {
                    let x = decl.fields[k].name;
                    assert(seen.contains(x));
                    let j = choose|j: int| 0 <= j < seen.len() && seen[j] == x;
                    assert(done[j].0 == x);
                }
                assert(init_fits(cx.env, decl, done));
            }
        },
        None => {
            let x = cx.diag(
                span,
                "E495"@,
                "unknown struct `"@ + name.base() + "`"@,
                "unknown struct"@,
            );
            inits_typed(cx, None, fields, Seq::empty(), none, diags.push(x));
        },
    }
}

/// The names that were noted are those of the values that are done.
spec fn noted(seen: Seq<Seq<char>>, done: Seq<(Seq<char>, ExprM)>) -> bool {
    seen.len() == done.len() && forall|i: int|
        0 <= i < done.len() ==> #[trigger] seen[i] == done[i].0
}

/// The values that are done fit, and no name is given twice.
spec fn so_far(cx: CheckM, decl: StructInfoM, done: Seq<(Seq<char>, ExprM)>) -> bool {
    &&& inits_well_typed(cx, done)
    &&& forall|i: int|
        0 <= i < done.len() ==> {
            let ty = typing::declared(decl, (#[trigger] done[i]).0);
            ty is Some && fits(cx.env, ty->0, done[i].1)
        }
    &&& forall|i: int, j: int|
        0 <= i < j < done.len() ==> (#[trigger] done[i]).0 != (#[trigger] done[j]).0
}

proof fn inits_typed(
    cx: CheckM,
    decl: Option<StructInfoM>,
    fields: Seq<(Seq<char>, ExprM)>,
    done: Seq<(Seq<char>, ExprM)>,
    seen: Seq<Seq<char>>,
    diags: Seq<DiagM>,
)
    requires
        place_known(cx),
    ensures
        ({
            let (all, names, d) = typing::check_inits(cx, decl, fields, done, seen, diags);
            &&& d.len() >= diags.len()
            &&& d.len() == diags.len() && decl is Some && noted(seen, done) && so_far(
                cx,
                decl->0,
                done,
            ) ==> noted(names, all) && so_far(cx, decl->0, all)
        }),
    decreases
            typing::init_casts(fields),
            fields,
            if done.len() < fields.len() {
                (fields.len() - done.len()) as nat
            } else {
                0
            },
{
    reveal(typing::check_inits);
    reveal(typing::check_expr);
    if done.len() < fields.len() {
        let i = done.len() as int;
        let (name, e) = fields[i];
        typing::init_casts_at(fields, i);
        let hint = match decl {
            Some(s) => typing::declared(s, name),
            None => None,
        };
        checked_expression_is_well_typed(cx, e, hint, diags);
        let c = typing::check_expr(cx, e, hint, diags);
        let (seen1, d) = match decl {
            Some(s) => typing::init_field(cx, s, name, c.ty, e.span, seen, c.diags),
            None => (seen, c.diags),
        };
        let done1 = done.push((name, c.expr));
        inits_typed(cx, decl, fields, done1, seen1, d);
        if d.len() == diags.len() && decl is Some && noted(seen, done) && so_far(
            cx,
            decl->0,
            done,
        ) {
            assert(done1.drop_last() =~= done);
            assert(noted(seen1, done1));
            assert forall|a: int, b: int| 0 <= a < b < done1.len() implies (#[trigger] done1[a]).0
                != (#[trigger] done1[b]).0 by {
                if b == i {
                    assert(seen[a] == done[a].0);
                    assert(!seen.contains(name));
                }
            }
            assert(so_far(cx, decl->0, done1));
        }
    }
}

// ---------------------------------------------------------------------------
// Well-typed statements
// ---------------------------------------------------------------------------

/// Whether the types that a statement writes down are known.
pub open spec fn stmt_known(s: StmtM) -> bool
    decreases s,
{
    match s {
        StmtM::Let { ty, .. } => match ty {
            Some(t) => known(t),
            None => true,
        },
        StmtM::If { branches, else_block, .. } => branches_known(branches) && match else_block {
            Some(b) => block_known(b),
            None => true,
        },
        StmtM::While { body, .. } => block_known(body),
        _ => true,
    }
}

pub open spec fn branches_known(s: Seq<(ExprM, BlockM)>) -> bool
    decreases s,
{
    s.len() == 0 || (block_known(s.last().1) && branches_known(s.drop_last()))
}

pub open spec fn block_known(b: BlockM) -> bool
    decreases b,
{
    stmts_known(b.stmts)
}

pub open spec fn stmts_known(s: Seq<StmtM>) -> bool
    decreases s,
{
    s.len() == 0 || (stmt_known(s.last()) && stmts_known(s.drop_last()))
}

proof fn stmts_known_at(s: Seq<StmtM>, i: int)
    requires
        stmts_known(s),
        0 <= i < s.len(),
    ensures
        stmt_known(s[i]),
    decreases s.len(),
{
    if i < s.len() - 1 {
        stmts_known_at(s.drop_last(), i);
    }
}

proof fn branches_known_at(s: Seq<(ExprM, BlockM)>, i: int)
    requires
        branches_known(s),
        0 <= i < s.len(),
    ensures
        block_known(s[i].1),
    decreases s.len(),
{
    if i < s.len() - 1 {
        branches_known_at(s.drop_last(), i);
    }
}

/// The type of the place that is assigned to.
pub open spec fn place_type(cx: CheckM, l: LValueM) -> Option<TypeM> {
    match l {
        LValueM::Ident(name, _) => cx.lookup(name),
        LValueM::Deref(e, _) => e.ty->0.referent(),
        LValueM::Field(e, field, _) => match cx.env.struct_of(e.ty->0) {
            Some(s) => typing::first_field(s.fields, field, 0),
            None => None,
        },
    }
}

/// Whether the place is made of well-typed parts, and none of it lies behind a
/// shared reference.
pub open spec fn place_ok(cx: CheckM, l: LValueM) -> bool {
    match l {
        LValueM::Ident(_, _) => true,
        LValueM::Deref(e, _) => well_typed(cx, e) && !typing::refers_shared(e),
        LValueM::Field(e, _, _) => well_typed(cx, e) && !typing::field_is_shared(e),
    }
}

/// Whether a condition is well-typed, and a truth value.
pub open spec fn condition_typed(cx: CheckM, e: ExprM) -> bool {
    well_typed(cx, e) && e.ty == Some(TypeM::Named("bool"@))
}

/// Whether a variable that a part of inline assembly names is in scope.
pub open spec fn asm_token_typed(cx: CheckM, t: AsmTokenM) -> bool {
    match t {
        AsmTokenM::Value(name) => cx.lookup(name) is Some,
        AsmTokenM::Addr(name) => cx.lookup(name) is Some,
        AsmTokenM::Raw(_) => true,
    }
}

pub open spec fn asm_line_typed(cx: CheckM, line: Seq<AsmTokenM>) -> bool {
    forall|i: int| 0 <= i < line.len() ==> asm_token_typed(cx, #[trigger] line[i])
}

pub open spec fn asm_typed(cx: CheckM, lines: Seq<Seq<AsmTokenM>>) -> bool {
    forall|i: int| 0 <= i < lines.len() ==> asm_line_typed(cx, #[trigger] lines[i])
}

/// The place after a checked statement.
pub open spec fn after(cx: CheckM, s: StmtM) -> CheckM {
    match s {
        StmtM::Let { name, ty, init, .. } => CheckM {
            vars: cx.vars.push(
                (
                    name,
                    match ty {
                        Some(t) => t,
                        None => init.ty->0,
                    },
                ),
            ),
            ..cx
        },
        _ => cx,
    }
}

/// Whether a checked statement of a function that returns `ret` is well-typed:
/// what it binds, assigns and returns fits, conditions are truth values, and
/// inline assembly names variables in scope.
pub open spec fn stmt_typed(cx: CheckM, ret: TypeM, s: StmtM) -> bool
    decreases s,
{
    match s {
        StmtM::Let { ty, init, .. } => well_typed(cx, init) && match ty {
            Some(t) => fits(cx.env, t, init),
            None => true,
        },
        StmtM::Assign { target, value, .. } => {
            &&& place_ok(cx, target)
            &&& well_typed(cx, value)
            &&& place_type(cx, target) is Some
            &&& fits(cx.env, place_type(cx, target)->0, value)
        },
        StmtM::Return { value, .. } => match value {
            Some(e) => !(ret is Void) && well_typed(cx, e) && fits(cx.env, ret, e),
            None => ret is Void,
        },
        StmtM::If { branches, else_block, .. } => branches_typed(cx, ret, branches) && (
        match else_block {
            Some(b) => block_typed(cx, ret, b),
            None => true,
        }),
        StmtM::While { condition, body, .. } => condition_typed(cx, condition) && block_typed(
            cx,
            ret,
            body,
        ),
        StmtM::Expr(e) => well_typed(cx, e),
        StmtM::Asm { lines, .. } => asm_typed(cx, lines),
        _ => true,
    }
}

pub open spec fn branches_typed(cx: CheckM, ret: TypeM, s: Seq<(ExprM, BlockM)>) -> bool
    decreases s,
{
    s.len() == 0 || (condition_typed(cx, s.last().0) && block_typed(cx, ret, s.last().1)
        && branches_typed(cx, ret, s.drop_last()))
}

pub open spec fn block_typed(cx: CheckM, ret: TypeM, b: BlockM) -> bool
    decreases b,
{
    stmts_typed(cx, ret, b.stmts)
}

/// Each statement is well-typed where the ones before it leave off.
pub open spec fn stmts_typed(cx: CheckM, ret: TypeM, s: Seq<StmtM>) -> bool
    decreases s,
{
    s.len() == 0 || (stmt_typed(cx, ret, s[0]) && stmts_typed(
        after(cx, s[0]),
        ret,
        s.subrange(1, s.len() as int),
    ))
}

proof fn expr_step(cx: CheckM, e: ExprM, hint: Option<TypeM>, diags: Seq<DiagM>)
    ensures
        ({
            let c = typing::check_expr(cx, e, hint, diags);
            &&& c.diags.len() >= diags.len()
            &&& place_known(cx) && c.diags.len() == diags.len() ==> good(cx, c)
        }),
{
    soundness::check_expr_facts(cx, e, hint, diags);
    if place_known(cx) {
        checked_expression_is_well_typed(cx, e, hint, diags);
    }
}

proof fn lvalue_step(cx: CheckM, l: LValueM, diags: Seq<DiagM>)
    ensures
        ({
            let (r, ty, d) = typing::check_lvalue(cx, l, diags);
            &&& d.len() >= diags.len()
            &&& place_known(cx) && d.len() == diags.len() ==> place_ok(cx, r) && place_type(cx, r)
                == ty && ty is Some
        }),
{
    reveal(typing::check_lvalue);
    match l {
        LValueM::Ident(_, _) => {},
        LValueM::Deref(e, _) => expr_step(cx, e, None, diags),
        LValueM::Field(e, _, _) => expr_step(cx, e, None, diags),
    }
}

/// What one statement does: where it is checked without a diagnostic, it is
/// well-typed, and the variables that it leaves have known types.
spec fn stmt_good(cx: CheckM, fx: FnM, s: StmtM, diags: Seq<DiagM>) -> bool {
    let r = typing::check_stmt(cx, fx, s, diags);
    &&& r.diags.len() >= diags.len()
    &&& place_known(cx) && stmt_known(s) && r.diags.len() == diags.len() ==> {
        &&& stmt_typed(cx, fx.return_type, r.stmt)
        &&& r.vars == after(cx, r.stmt).vars
        &&& vars_known(r.vars)
    }
}

#[verifier::rlimit(60)]
#[verifier::spinoff_prover]
proof fn stmt_step(cx: CheckM, fx: FnM, s: StmtM, diags: Seq<DiagM>)
    ensures
        stmt_good(cx, fx, s, diags),
    decreases s, 0nat,
{
    reveal(typing::check_stmt);
    reveal(typing::check_block);
    reveal(typing::check_branches);
    match s {
        StmtM::Let { name, ty, init, span } => let_step(cx, fx, name, ty, init, span, diags),
        StmtM::Assign { target, value, span } => {
            reveal(typing::check_assign);
            lvalue_step(cx, target, diags);
            let (_, ty, d) = typing::check_lvalue(cx, target, diags);
            expr_step(cx, value, ty, d);
        },
        StmtM::Return { value, span } => {
            reveal(typing::check_return);
            if let Some(e) = value {
                expr_step(cx, e, None, diags);
                expr_step(cx, e, Some(fx.return_type), diags);
            }
        },
        StmtM::If { branches, else_block, span } => {
            branches_step(cx, fx, branches, Seq::empty(), diags);
            let (_, d) = typing::check_branches(cx, fx, branches, Seq::empty(), diags);
            if let Some(b) = else_block {
                block_step(cx, fx, b, d);
            }
        },
        StmtM::While { condition, body, span } => {
            expr_step(cx, condition, None, diags);
            let c = typing::check_expr(cx, condition, None, diags);
            let d = typing::bool_diags(cx, c.ty, condition.span, c.diags);
            block_step(cx, FnM { in_loop: true, ..fx }, body, d);
        },
        StmtM::Expr(e) => expr_step(cx, e, None, diags),
        StmtM::Asm { lines, span } => asm_step(cx, lines, lines.len() as int, span, diags),
        _ => {},
    }
}

proof fn let_step(
    cx: CheckM,
    fx: FnM,
    name: Seq<char>,
    ty: Option<TypeM>,
    init: ExprM,
    span: Span,
    diags: Seq<DiagM>,
)
    ensures
        stmt_good(cx, fx, (StmtM::Let { name, ty, init, span }), diags),
{
    reveal(typing::check_stmt);
    reveal(typing::check_let);
    expr_step(cx, init, ty, diags);
    let d0 = diags.push(
        cx.diag(
            span,
            "E411"@,
            "let binding `"@ + name + "` conflicts with a type name"@,
            "name already used by a type"@,
        ),
    );
    expr_step(cx, init, ty, d0);
}

proof fn asm_line_step(
    cx: CheckM,
    line: Seq<AsmTokenM>,
    n: int,
    span: Span,
    diags: Seq<DiagM>,
)
    requires
        0 <= n <= line.len(),
    ensures
        typing::asm_line_diags(cx, line, n, span, diags).len() >= diags.len(),
        typing::asm_line_diags(cx, line, n, span, diags).len() == diags.len() ==> forall|i: int|
            0 <= i < n ==> asm_token_typed(cx, #[trigger] line[i]),
    decreases n,
{
    if n > 0 {
        asm_line_step(cx, line, n - 1, span, diags);
    }
}

proof fn asm_step(
    cx: CheckM,
    lines: Seq<Seq<AsmTokenM>>,
    n: int,
    span: Span,
    diags: Seq<DiagM>,
)
    requires
        0 <= n <= lines.len(),
    ensures
        typing::asm_diags(cx, lines, n, span, diags).len() >= diags.len(),
        typing::asm_diags(cx, lines, n, span, diags).len() == diags.len() ==> forall|i: int|
            0 <= i < n ==> asm_line_typed(cx, #[trigger] lines[i]),
    decreases n,
{
    if n > 0 {
        asm_step(cx, lines, n - 1, span, diags);
        let d = typing::asm_diags(cx, lines, n - 1, span, diags);
        asm_line_step(cx, lines[n - 1], lines[n - 1].len() as int, span, d);
    }
}

proof fn branches_step(
    cx: CheckM,
    fx: FnM,
    branches: Seq<(ExprM, BlockM)>,
    done: Seq<(ExprM, BlockM)>,
    diags: Seq<DiagM>,
)
    ensures
        ({
            let (all, d) = typing::check_branches(cx, fx, branches, done, diags);
            &&& d.len() >= diags.len()
            &&& place_known(cx) && branches_known(branches) && d.len() == diags.len()
                && branches_typed(cx, fx.return_type, done) ==> branches_typed(
                cx,
                fx.return_type,
                all,
            )
        }),
    decreases
            branches,
            if done.len() < branches.len() {
                (branches.len() - done.len()) as nat
            } else {
                0
            },
{
    reveal(typing::check_branches);
    reveal(typing::check_block);
    if done.len() < branches.len() {
        let i = done.len() as int;
        let (cond, body) = branches[i];
        if branches_known(branches) {
            branches_known_at(branches, i);
        }
        expr_step(cx, cond, None, diags);
        let c = typing::check_expr(cx, cond, None, diags);
        let d = typing::bool_diags(cx, c.ty, cond.span, c.diags);
        assert(decreases_to!(branches => branches[i]));
        block_step(cx, fx, body, d);
        let (b, d1) = typing::check_block(cx, fx, body, d);
        let done1 = done.push((c.expr, b));
        assert(done1.drop_last() =~= done);
        branches_step(cx, fx, branches, done1, d1);
    }
}

proof fn block_step(cx: CheckM, fx: FnM, b: BlockM, diags: Seq<DiagM>)
    ensures
        ({
            let (r, d) = typing::check_block(cx, fx, b, diags);
            &&& d.len() >= diags.len()
            &&& place_known(cx) && block_known(b) && d.len() == diags.len() ==> block_typed(
                cx,
                fx.return_type,
                r,
            )
        }),
    decreases b, 0nat,
{
    reveal(typing::check_block);
    reveal(typing::check_stmts);
    stmts_step(cx, fx, b.stmts, Seq::empty(), diags);
    let (all, d) = typing::check_stmts(cx, fx, b.stmts, Seq::empty(), diags);
    assert(all.skip(0) =~= all);
}

proof fn stmts_step(
    cx: CheckM,
    fx: FnM,
    stmts: Seq<StmtM>,
    done: Seq<StmtM>,
    diags: Seq<DiagM>,
)
    ensures
        ({
            let (all, d) = typing::check_stmts(cx, fx, stmts, done, diags);
            &&& d.len() >= diags.len()
            &&& all.len() >= done.len()
            &&& all.take(done.len() as int) == done
            &&& place_known(cx) && stmts_known(stmts) && d.len() == diags.len() ==> stmts_typed(
                cx,
                fx.return_type,
                all.skip(done.len() as int),
            )
        }),
    decreases
            stmts,
            if done.len() < stmts.len() {
                (stmts.len() - done.len()) as nat
            } else {
                0
            },
{
    reveal(typing::check_stmts);
    reveal(typing::check_stmt);
    let (all, d) = typing::check_stmts(cx, fx, stmts, done, diags);
    if done.len() < stmts.len() {
        let i = done.len() as int;
        if stmts_known(stmts) {
            stmts_known_at(stmts, i);
        }
        stmt_step(cx, fx, stmts[i], diags);
        let r = typing::check_stmt(cx, fx, stmts[i], diags);
        let cx1 = CheckM { vars: r.vars, ..cx };
        let done1 = done.push(r.stmt);
        stmts_step(cx1, fx, stmts, done1, r.diags);
        assert(all.take(i) =~= all.take(i + 1).take(i));
        assert(done1.take(i) =~= done);
        if place_known(cx) && stmts_known(stmts) && d.len() == diags.len() {
            let rest = all.skip(i);
            assert(rest[0] == all.take(i + 1)[i]);
            assert(after(cx, r.stmt) == cx1);
            assert(rest.subrange(1, rest.len() as int) =~= all.skip(i + 1));
        }
    } else {
        assert(all.take(done.len() as int) =~= done);
        assert(all.skip(done.len() as int) =~= Seq::empty());
    }
}

// ---------------------------------------------------------------------------
// Declared types
// ---------------------------------------------------------------------------

pub open spec fn param_known(p: ParamM) -> bool {
    match p.kind {
        ParamKindM::Named { ty, .. } => known(ty),
        _ => true,
    }
}

/// Whether the types that a function writes down are known.
pub open spec fn fn_known(f: FnDeclM) -> bool {
    &&& forall|i: int| 0 <= i < f.params.len() ==> param_known(#[trigger] f.params[i])
    &&& known(f.return_type)
    &&& block_known(f.body)
}

pub open spec fn fns_known(fs: Seq<FnDeclM>) -> bool {
    forall|i: int| 0 <= i < fs.len() ==> fn_known(#[trigger] fs[i])
}

pub open spec fn item_known(item: ItemM) -> bool {
    match item {
        ItemM::Fn(f) => fn_known(f),
        ItemM::Struct(s) => fields_known(s.fields) && fns_known(s.methods),
        ItemM::Extend(e) => fns_known(e.methods),
        ItemM::Import(_) => true,
    }
}

/// Whether the types that a program writes down are known; those of a parsed
/// program are.
pub open spec fn program_known(p: ProgramM) -> bool {
    forall|i: int| 0 <= i < p.items.len() ==> item_known(#[trigger] p.items[i])
}

proof fn sigs_of_known(fs: Seq<FnDeclM>)
    requires
        fns_known(fs),
    ensures
        sigs_known(typing::sigs_of(fs)),
{
    assert forall|i: int| 0 <= i < typing::sigs_of(fs).len() implies known(
        (#[trigger] typing::sigs_of(fs)[i]).return_type,
    ) by {
        assert(fn_known(fs[i]));
    }
}

proof fn collect_known(
    file: Seq<char>,
    src: Seq<char>,
    p: ProgramM,
    n: int,
    what: Seq<char>,
    diags: Seq<DiagM>,
)
    requires
        program_known(p),
    ensures
        ({
            let c = typing::collect(file, src, p.items, n, what, diags);
            structs_known(c.structs) && sigs_known(c.functions)
        }),
    decreases n,
{
    reveal(typing::collect);
    reveal(typing::collect_item);
    if 0 < n <= p.items.len() {
        collect_known(file, src, p, n - 1, what, diags);
        assert(item_known(p.items[n - 1]));
        if let ItemM::Struct(s) = p.items[n - 1] {
            sigs_of_known(s.methods);
        }
    }
}

proof fn collect_modules_known(
    file: Seq<char>,
    src: Seq<char>,
    modules: Seq<(Seq<char>, ProgramM)>,
    n: int,
    diags: Seq<DiagM>,
)
    requires
        forall|i: int| 0 <= i < modules.len() ==> program_known((#[trigger] modules[i]).1),
    ensures
        modules_known(typing::collect_modules(file, src, modules, n, diags).0),
    decreases n,
{
    reveal(typing::collect_modules);
    if 0 < n <= modules.len() {
        collect_modules_known(file, src, modules, n - 1, diags);
        let (_, d) = typing::collect_modules(file, src, modules, n - 1, diags);
        let p = modules[n - 1].1;
        collect_known(file, src, p, p.items.len() as int, "module item"@, d);
    }
}

proof fn outward_known(ty: TypeM, o: OutsideM)
    requires
        known(ty),
    ensures
        known(typing::outward(ty, o)),
    decreases ty,
{
    match ty {
        TypeM::Ref(inner) => outward_known(*inner, o),
        TypeM::MutRef(inner) => outward_known(*inner, o),
        _ => {},
    }
}

proof fn outward_sigs_known(sigs: Seq<SigM>, o: OutsideM)
    requires
        sigs_known(sigs),
    ensures
        sigs_known(typing::outward_sigs(sigs, o)),
{
    let out = typing::outward_sigs(sigs, o);
    assert forall|i: int| 0 <= i < out.len() implies known((#[trigger] out[i]).return_type) by {
        outward_known(sigs[i].return_type, o);
    }
}

proof fn outward_modules_known(infos: Seq<(Seq<char>, ModuleInfoM)>, top: Seq<StructInfoM>)
    requires
        modules_known(infos),
    ensures
        modules_known(typing::outward_modules(infos, top)),
{
    let out = typing::outward_modules(infos, top);
    assert forall|i: int| 0 <= i < out.len() implies module_known((#[trigger] out[i]).1) by {
        let (name, info) = infos[i];
        assert(module_known(infos[i].1));
        let structs = info.structs;
        let o = OutsideM { module: name, structs, top };
        outward_sigs_known(info.functions, o);
        let m = out[i].1;
        assert forall|k: int| 0 <= k < m.structs.len() implies fields_known(
            (#[trigger] m.structs[k]).fields,
        ) && sigs_known(m.structs[k].methods) by {
            let s = structs[k];
            assert(fields_known(s.fields));
            outward_sigs_known(s.methods, o);
            let fs = m.structs[k].fields;
            assert forall|j: int| 0 <= j < fs.len() implies known((#[trigger] fs[j]).ty) by {
                assert(known(s.fields[j].ty));
                outward_known(s.fields[j].ty, o);
            }
        }
    }
}

proof fn more_methods_known(methods: Seq<SigM>, added: Seq<FnDeclM>)
    requires
        sigs_known(methods),
        fns_known(added),
    ensures
        sigs_known(methods + typing::sigs_of(added)),
{
    sigs_of_known(added);
}

proof fn extend_all_known(u: UnitM, p: ProgramM, n: int, diags: Seq<DiagM>)
    requires
        program_known(p),
        env_known(u.env),
    ensures
        env_known(typing::extend_all(u, p.items, n, diags).0.env),
    decreases n,
{
    reveal(typing::extend_all);
    reveal(typing::extend);
    if 0 < n <= p.items.len() {
        extend_all_known(u, p, n - 1, diags);
        let (u1, d) = typing::extend_all(u, p.items, n - 1, diags);
        assert(item_known(p.items[n - 1]));
        if let ItemM::Extend(e) = p.items[n - 1] {
            more_methods_known(u1.env.i64_methods, e.methods);
            more_methods_known(u1.env.f64_methods, e.methods);
            struct_index_range(u1.env.structs, e.name, 0);
            if let Some(i) = typing::struct_index(u1.env.structs, e.name, 0) {
                more_methods_known(u1.env.structs[i].methods, e.methods);
            }
            if let Some(module) = e.module {
                module_index_range(u1.env.modules, module, 0);
                if let Some(m) = typing::module_index(u1.env.modules, module, 0) {
                    let info = u1.env.modules[m].1;
                    assert(module_known(info));
                    struct_index_range(info.structs, e.name, 0);
                    if let Some(i) = typing::struct_index(info.structs, e.name, 0) {
                        more_methods_known(info.structs[i].methods, e.methods);
                        let (u2, _) = typing::extend(u1, e, d);
                        assert forall|k: int| 0 <= k < u2.env.modules.len() implies module_known(
                            (#[trigger] u2.env.modules[k]).1,
                        ) by {
                            assert(module_known(u1.env.modules[k].1));
                        }
                    }
                }
            }
        }
    }
}

proof fn struct_index_range(structs: Seq<StructInfoM>, name: Seq<char>, i: int)
    ensures
        typing::struct_index(structs, name, i) matches Some(k) ==> 0 <= k < structs.len(),
    decreases structs.len() - i,
{
    if 0 <= i < structs.len() && structs[i].name != name {
        struct_index_range(structs, name, i + 1);
    }
}

proof fn module_index_range(modules: Seq<(Seq<char>, ModuleInfoM)>, name: Seq<char>, i: int)
    ensures
        typing::module_index(modules, name, i) matches Some(k) ==> 0 <= k < modules.len(),
    decreases modules.len() - i,
{
    if 0 <= i < modules.len() && modules[i].0 != name {
        module_index_range(modules, name, i + 1);
    }
}

proof fn inward_modules_known(
    infos: Seq<(Seq<char>, ModuleInfoM)>,
    outside: Seq<(Seq<char>, ModuleInfoM)>,
)
    requires
        modules_known(infos),
        modules_known(outside),
    ensures
        modules_known(typing::inward_modules(infos, outside)),
{
    let out = typing::inward_modules(infos, outside);
    assert forall|i: int| 0 <= i < out.len() implies module_known((#[trigger] out[i]).1) by {
        assert(module_known(infos[i].1));
        if i < outside.len() {
            assert(module_known(outside[i].1));
            let own = infos[i].1.structs;
            let seen = outside[i].1.structs;
            let structs = out[i].1.structs;
            assert forall|k: int| 0 <= k < structs.len() implies fields_known(
                (#[trigger] structs[k]).fields,
            ) && sigs_known(structs[k].methods) by {
                assert(fields_known(own[k].fields) && sigs_known(own[k].methods));
                if k < seen.len() {
                    assert(sigs_known(seen[k].methods));
                }
            }
        }
    }
}

proof fn declarations_known(
    file: Seq<char>,
    src: Seq<char>,
    program: ProgramM,
    modules: Seq<(Seq<char>, ProgramM)>,
)
    requires
        program_known(program),
        forall|i: int| 0 <= i < modules.len() ==> program_known((#[trigger] modules[i]).1),
    ensures
        ({
            let (u, infos, _) = typing::declarations(file, src, program, modules);
            &&& env_known(u.env)
            &&& modules_known(infos)
            &&& infos.len() == modules.len()
        }),
{
    reveal(typing::declarations);
    let n = program.items.len() as int;
    let c = typing::collect(file, src, program.items, n, "top-level item"@, Seq::empty());
    collect_known(file, src, program, n, "top-level item"@, Seq::empty());
    collect_modules_known(file, src, modules, modules.len() as int, c.diags);
    collect_modules_len(file, src, modules, modules.len() as int, c.diags);
    let (infos, d) = typing::collect_modules(file, src, modules, modules.len() as int, c.diags);
    outward_modules_known(infos, c.structs);
    let env = EnvM {
        own: ModuleInfoM { structs: Seq::empty(), functions: Seq::empty() },
        structs: c.structs,
        functions: c.functions,
        modules: typing::outward_modules(infos, c.structs),
        i64_methods: Seq::empty(),
        f64_methods: Seq::empty(),
    };
    extend_all_known(UnitM { file, src, env }, program, n, d);
    let (u, _) = typing::extend_all(UnitM { file, src, env }, program.items, n, d);
    inward_modules_known(infos, u.env.modules);
}

proof fn collect_modules_len(
    file: Seq<char>,
    src: Seq<char>,
    modules: Seq<(Seq<char>, ProgramM)>,
    n: int,
    diags: Seq<DiagM>,
)
    requires
        0 <= n <= modules.len(),
    ensures
        typing::collect_modules(file, src, modules, n, diags).0.len() == n,
    decreases n,
{
    reveal(typing::collect_modules);
    if n > 0 {
        collect_modules_len(file, src, modules, n - 1, diags);
    }
}

// ---------------------------------------------------------------------------
// Well-typed programs
// ---------------------------------------------------------------------------

/// Whether the body of a checked function is well-typed where its parameters
/// are in scope.
pub open spec fn fn_typed(u: UnitM, f: FnDeclM, owner: TypeM, raw: bool) -> bool {
    block_typed(u.at(typing::param_vars(f.params, owner), raw), f.return_type, f.body)
}

pub open spec fn fns_typed(u: UnitM, fs: Seq<FnDeclM>, owner: TypeM, raw: bool) -> bool {
    forall|i: int| 0 <= i < fs.len() ==> fn_typed(u, #[trigger] fs[i], owner, raw)
}

pub open spec fn item_typed(u: UnitM, item: ItemM) -> bool {
    match item {
        ItemM::Fn(f) => fn_typed(u, f, typing::self_type(Seq::empty()), false),
        ItemM::Struct(s) => fns_typed(
            u,
            s.methods,
            typing::self_type(s.name),
            u.env.machine_backed(s.name),
        ),
        ItemM::Extend(e) => fns_typed(
            u,
            e.methods,
            typing::extended_type(e),
            typing::is_primitive(e.name),
        ),
        ItemM::Import(_) => true,
    }
}

pub open spec fn items_typed(u: UnitM, items: Seq<ItemM>) -> bool {
    forall|i: int| 0 <= i < items.len() ==> item_typed(u, #[trigger] items[i])
}

proof fn fn_step(u: UnitM, f: FnDeclM, owner: TypeM, raw: bool, diags: Seq<DiagM>)
    requires
        env_known(u.env),
        fn_known(f),
        known(owner),
    ensures
        ({
            let (r, d) = typing::check_fn(u, f, owner, raw, diags);
            &&& d.len() >= diags.len()
            &&& d.len() == diags.len() ==> fn_typed(u, r, owner, raw)
        }),
{
    reveal(typing::check_fn);
    let vars = typing::param_vars(f.params, owner);
    assert forall|i: int| 0 <= i < vars.len() implies known((#[trigger] vars[i]).1) by {
        assert(param_known(f.params[i]));
    }
    let fx = FnM { return_type: f.return_type, in_loop: false };
    block_step(u.at(vars, raw), fx, f.body, diags);
}

proof fn fns_step(
    u: UnitM,
    fs: Seq<FnDeclM>,
    n: int,
    owner: TypeM,
    raw: bool,
    diags: Seq<DiagM>,
)
    requires
        env_known(u.env),
        fns_known(fs),
        known(owner),
    ensures
        ({
            let (r, d) = typing::check_fns(u, fs, n, owner, raw, diags);
            &&& d.len() >= diags.len()
            &&& d.len() == diags.len() ==> fns_typed(u, r, owner, raw)
        }),
    decreases n,
{
    reveal(typing::check_fns);
    if 0 < n <= fs.len() {
        fns_step(u, fs, n - 1, owner, raw, diags);
        let (_, d) = typing::check_fns(u, fs, n - 1, owner, raw, diags);
        assert(fn_known(fs[n - 1]));
        fn_step(u, fs[n - 1], owner, raw, d);
    }
}

proof fn items_step(u: UnitM, p: ProgramM, n: int, diags: Seq<DiagM>)
    requires
        env_known(u.env),
        program_known(p),
    ensures
        ({
            let (r, d) = typing::check_items(u, p.items, n, diags);
            &&& d.len() >= diags.len()
            &&& d.len() == diags.len() ==> items_typed(u, r)
        }),
    decreases n,
{
    reveal(typing::check_items);
    reveal(typing::check_item);
    if 0 < n <= p.items.len() {
        items_step(u, p, n - 1, diags);
        let (_, d) = typing::check_items(u, p.items, n - 1, diags);
        assert(item_known(p.items[n - 1]));
        match p.items[n - 1] {
            ItemM::Fn(f) => fn_step(u, f, typing::self_type(Seq::empty()), false, d),
            ItemM::Struct(s) => fns_step(
                u,
                s.methods,
                s.methods.len() as int,
                typing::self_type(s.name),
                u.env.machine_backed(s.name),
                d,
            ),
            ItemM::Extend(e) => fns_step(
                u,
                e.methods,
                e.methods.len() as int,
                typing::extended_type(e),
                typing::is_primitive(e.name),
                d,
            ),
            ItemM::Import(_) => {},
        }
    }
}

proof fn modules_step(
    u: UnitM,
    infos: Seq<(Seq<char>, ModuleInfoM)>,
    modules: Seq<(Seq<char>, ProgramM)>,
    n: int,
    diags: Seq<DiagM>,
)
    requires
        env_known(u.env),
        modules_known(infos),
        infos.len() == modules.len(),
        forall|i: int| 0 <= i < modules.len() ==> program_known((#[trigger] modules[i]).1),
        0 <= n <= modules.len(),
    ensures
        ({
            let (r, d) = typing::check_modules(u, infos, modules, n, diags);
            &&& r.len() == n
            &&& d.len() >= diags.len()
            &&& d.len() == diags.len() ==> forall|i: int|
                0 <= i < r.len() ==> items_typed(
                    typing::inside(u, infos[i].1),
                    (#[trigger] r[i]).1.items,
                )
        }),
    decreases n,
{
    reveal(typing::check_modules);
    if n > 0 {
        modules_step(u, infos, modules, n - 1, diags);
        let (_, d) = typing::check_modules(u, infos, modules, n - 1, diags);
        let p = modules[n - 1].1;
        let inner = typing::inside(u, infos[n - 1].1);
        assert(module_known(infos[n - 1].1));
        assert(env_known(inner.env));
        items_step(inner, p, p.items.len() as int, d);
    }
}

/// A program that is accepted is well-typed, with its modules: each value that is
/// bound, assigned, returned, passed or put into a field has a type that fits
/// there, each call has the arguments that the function takes, each initializer
/// gives each field once, conditions are truth values, nothing is assigned
/// through a shared reference, and inline assembly names variables in scope.
pub proof fn accepted_program_is_well_typed(
    file: Seq<char>,
    src: Seq<char>,
    program: ProgramM,
    modules: Seq<(Seq<char>, ProgramM)>,
)
    requires
        program_known(program),
        forall|i: int| 0 <= i < modules.len() ==> program_known((#[trigger] modules[i]).1),
        typing::check_program(file, src, program, modules).diags.len() == 0,
    ensures
        ({
            let (u, infos, _) = typing::declarations(file, src, program, modules);
            let out = typing::check_program(file, src, program, modules);
            &&& items_typed(u, out.program.items)
            &&& forall|i: int|
                0 <= i < out.modules.len() ==> items_typed(
                    typing::inside(u, infos[i].1),
                    (#[trigger] out.modules[i]).1.items,
                )
        }),
{
    reveal(typing::check_main);
    declarations_known(file, src, program, modules);
    let (u, infos, d) = typing::declarations(file, src, program, modules);
    items_step(u, program, program.items.len() as int, d);
    let (_, d1) = typing::check_items(u, program.items, program.items.len() as int, d);
    modules_step(u, infos, modules, modules.len() as int, d1);
}

} // verus!
