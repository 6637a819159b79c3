//! What is reported: which mistake gives which diagnostic, and that it points at
//! the place of the mistake.

use vstd::prelude::*;

use crate::ast;
use crate::ast::{
    AsmTokenM, BinaryOp, BlockM, ExprKindM, ExprM, FnDeclM, LValueM, Span, StmtM, UnaryOp,
};
use crate::error::DiagM;
use crate::lookups;
use crate::soundness;
use crate::text;
use crate::types::TypeM;
use crate::typing;
use crate::typing::{CastM, CheckM, Checked, EnvM, FnM, SigM, UnitM};

verus! {

/// Whether just one diagnostic has come to those before: with that code, in that
/// file, at that place, and with the text of that line.
pub open spec fn blamed(
    before: Seq<DiagM>,
    after: Seq<DiagM>,
    file: Seq<char>,
    src: Seq<char>,
    span: Span,
    code: Seq<char>,
) -> bool {
    &&& after.len() == before.len() + 1
    &&& after.take(before.len() as int) == before
    &&& ({
        let d = after[after.len() - 1];
        &&& d.code == code
        &&& d.file == file
        &&& d.line == span.line
        &&& d.col == span.col
        &&& 1 <= span.line <= text::lines(src).len() ==> d.source_line == text::lines(
            src,
        )[span.line - 1]
        &&& !(1 <= span.line <= text::lines(src).len()) ==> d.source_line.len() == 0
    })
}

/// The same, where a place is checked.
pub open spec fn blames(
    cx: CheckM,
    before: Seq<DiagM>,
    after: Seq<DiagM>,
    span: Span,
    code: Seq<char>,
) -> bool {
    blamed(before, after, cx.file, cx.src, span, code)
}

proof fn push_is_blame(cx: CheckM, before: Seq<DiagM>, after: Seq<DiagM>)
    requires
        after.len() == before.len() + 1,
        after == before.push(after[before.len() as int]),
    ensures
        after.take(before.len() as int) == before,
        after[after.len() - 1] == after[before.len() as int],
{
    assert(after.take(before.len() as int) =~= before);
}

/// A name stands for a variable just if one is in scope under it; else it is
/// reported.
pub proof fn variables_must_be_in_scope(cx: CheckM, name: Seq<char>, span: Span, diags: Seq<DiagM>)
    ensures
        ({
            let (ty, d) = typing::identifier(cx, name, span, diags);
            if lookups::var_names(cx.vars).contains(name) {
                d == diags && exists|k: int| #[trigger]
                    lookups::last_of(lookups::var_names(cx.vars), name, k) && cx.vars[k].1 == ty
            } else {
                ty is Unknown && blames(cx, diags, d, span, "E460"@)
            }
        }),
{
    lookups::latest_variable_counts(cx, name);
    let (ty, d) = typing::identifier(cx, name, span, diags);
    if let Some(t) = cx.lookup(name) {
        let k = choose|k: int| #[trigger]
            lookups::last_of(lookups::var_names(cx.vars), name, k) && cx.vars[k].1 == t;
        assert(lookups::var_names(cx.vars)[k] == name);
    } else {
        push_is_blame(cx, diags, d);
    }
}

/// A field is read just if the struct of the value has it; else it is reported.
pub proof fn fields_must_be_declared(
    cx: CheckM,
    ty: TypeM,
    field: Seq<char>,
    span: Span,
    diags: Seq<DiagM>,
)
    ensures
        ({
            let (t, d) = typing::field_type(cx, ty, field, span, diags);
            match cx.env.struct_of(ty) {
                Some(s) => if cx.env.receiver(ty) is None {
                    t is None && blames(cx, diags, d, span, "E4A0"@)
                } else if lookups::field_names(s.fields).contains(field) {
                    d == diags && (t matches Some(x) && exists|k: int| #[trigger]
                        lookups::first_of(lookups::field_names(s.fields), field, k)
                            && s.fields[k].ty == x)
                } else {
                    t is None && blames(cx, diags, d, span, "E4A1"@)
                },
                None => t is None && if cx.env.receiver(ty) is None {
                    blames(cx, diags, d, span, "E4A0"@)
                } else {
                    blames(cx, diags, d, span, "E4A2"@)
                },
            }
        }),
{
    let (t, d) = typing::field_type(cx, ty, field, span, diags);
    if t is None {
        push_is_blame(cx, diags, d);
    }
    if let Some(s) = cx.env.struct_of(ty) {
        lookups::field_has_its_declared_type(s, field);
        if let Some(x) = typing::first_field(s.fields, field, 0) {
            let k = choose|k: int| #[trigger]
                lookups::first_of(lookups::field_names(s.fields), field, k) && s.fields[k].ty == x;
            assert(lookups::field_names(s.fields)[k] == field);
        }
    }
}

/// Whether a type goes by that name.
pub open spec fn names_a_type(env: EnvM, name: Seq<char>) -> bool {
    ||| name == "i64"@ || name == "f64"@ || name == "void"@ || name == "null"@
    ||| lookups::struct_names(env.own.structs).contains(name)
    ||| lookups::struct_names(env.structs).contains(name)
}

proof fn type_names(env: EnvM, name: Seq<char>)
    ensures
        env.type_name_exists(name) == names_a_type(env, name),
{
    lookups::own_declarations_come_first(env, name, name);
    if let Some(s) = env.lookup_struct(name) {
        if !lookups::struct_names(env.own.structs).contains(name) {
            let k = choose|k: int| #[trigger]
                lookups::first_of(lookups::struct_names(env.structs), name, k) && env.structs[k]
                    == s;
            assert(lookups::struct_names(env.structs)[k] == name);
        }
    }
}

/// A `let` whose value is accepted is reported if its name is that of a type, and
/// if the value does not have the type that is written. The variable then has
/// the written type, or that of the value.
pub proof fn let_is_judged(
    cx: CheckM,
    fx: FnM,
    name: Seq<char>,
    ty: Option<TypeM>,
    init: ExprM,
    span: Span,
    diags: Seq<DiagM>,
)
    requires
        typing::check_expr(cx, init, ty, diags).diags == diags,
        !names_a_type(cx.env, name),
    ensures
        ({
            let c = typing::check_expr(cx, init, ty, diags);
            let out = typing::check_stmt(cx, fx, StmtM::Let { name, ty, init, span }, diags);
            &&& match ty {
                Some(t) => if c.ty is Unknown || cx.env.compatible(t, c.ty) {
                    out.diags == diags
                } else {
                    blames(cx, diags, out.diags, span, "E420"@)
                },
                None => out.diags == diags,
            }
            &&& out.vars == cx.vars.push(
                (
                    name,
                    match ty {
                        Some(t) => t,
                        None => c.ty,
                    },
                ),
            )
        }),
{
    reveal_with_fuel(typing::check_stmt, 1);
    reveal_with_fuel(typing::check_branches, 1);
    reveal_with_fuel(typing::check_block, 1);
    reveal_with_fuel(typing::check_stmts, 1);
    reveal(typing::check_let);
    type_names(cx.env, name);
    let out = typing::check_stmt(cx, fx, StmtM::Let { name, ty, init, span }, diags);
    if out.diags.len() > diags.len() {
        push_is_blame(cx, diags, out.diags);
    }
}

/// A `let` under the name of a type is always reported.
pub proof fn type_names_are_not_bound(
    cx: CheckM,
    fx: FnM,
    name: Seq<char>,
    ty: Option<TypeM>,
    init: ExprM,
    span: Span,
    diags: Seq<DiagM>,
)
    requires
        names_a_type(cx.env, name),
    ensures
        ({
            let out = typing::check_stmt(cx, fx, StmtM::Let { name, ty, init, span }, diags);
            out.diags.len() > diags.len() && out.diags[diags.len() as int].code == "E411"@
        }),
{
    reveal_with_fuel(typing::check_stmt, 1);
    reveal_with_fuel(typing::check_branches, 1);
    reveal_with_fuel(typing::check_block, 1);
    reveal_with_fuel(typing::check_stmts, 1);
    reveal(typing::check_let);
    type_names(cx.env, name);
    let d0 = diags.push(
        cx.diag(
            span,
            "E411"@,
            "let binding `"@ + name + "` conflicts with a type name"@,
            "name already used by a type"@,
        ),
    );
    soundness::check_expr_facts(cx, init, ty, d0);
    let c = typing::check_expr(cx, init, ty, d0);
    assert(c.diags[diags.len() as int] == d0[diags.len() as int]);
}

/// An assignment to a variable is reported if the variable is not in scope, and
/// if the value, which is accepted by itself, does not have its type.
pub proof fn assignment_is_judged(
    cx: CheckM,
    fx: FnM,
    name: Seq<char>,
    at: Span,
    value: ExprM,
    span: Span,
    diags: Seq<DiagM>,
)
    requires
        typing::check_expr(cx, value, cx.lookup(name), diags).diags == diags,
        cx.lookup(name) is Some,
    ensures
        ({
            let c = typing::check_expr(cx, value, cx.lookup(name), diags);
            let s = StmtM::Assign { target: LValueM::Ident(name, at), value, span };
            let out = typing::check_stmt(cx, fx, s, diags);
            &&& if c.ty is Unknown || cx.env.compatible(cx.lookup(name)->0, c.ty) {
                out.diags == diags
            } else {
                blames(cx, diags, out.diags, span, "E421"@)
            }
            &&& out.vars == cx.vars
        }),
{
    reveal_with_fuel(typing::check_stmt, 1);
    reveal_with_fuel(typing::check_branches, 1);
    reveal_with_fuel(typing::check_block, 1);
    reveal_with_fuel(typing::check_stmts, 1);
    reveal(typing::check_assign);
    reveal(typing::check_lvalue);
    let s = StmtM::Assign { target: LValueM::Ident(name, at), value, span };
    let out = typing::check_stmt(cx, fx, s, diags);
    if out.diags.len() > diags.len() {
        push_is_blame(cx, diags, out.diags);
    }
}

/// `return` with a value is reported in a function that returns nothing, without
/// one in a function that returns a value, and with a value, accepted by itself,
/// of another type than the function returns.
pub proof fn return_is_judged(cx: CheckM, fx: FnM, value: Option<ExprM>, span: Span, diags: Seq<DiagM>)
    requires
        value matches Some(e) ==> typing::check_expr(
            cx,
            e,
            if fx.return_type is Void {
                None
            } else {
                Some(fx.return_type)
            },
            diags,
        ).diags == diags,
    ensures
        ({
            let out = typing::check_stmt(cx, fx, StmtM::Return { value, span }, diags);
            match value {
                None => if fx.return_type is Void {
                    out.diags == diags
                } else {
                    blames(cx, diags, out.diags, span, "E431"@)
                },
                Some(e) => if fx.return_type is Void {
                    blames(cx, diags, out.diags, span, "E430"@)
                } else {
                    let c = typing::check_expr(cx, e, Some(fx.return_type), diags);
                    if c.ty is Unknown || cx.env.compatible(fx.return_type, c.ty) {
                        out.diags == diags
                    } else {
                        blames(cx, diags, out.diags, span, "E432"@)
                    }
                },
            }
        }),
{
    reveal_with_fuel(typing::check_stmt, 1);
    reveal_with_fuel(typing::check_branches, 1);
    reveal_with_fuel(typing::check_block, 1);
    reveal_with_fuel(typing::check_stmts, 1);
    reveal(typing::check_return);
    let out = typing::check_stmt(cx, fx, StmtM::Return { value, span }, diags);
    if out.diags.len() > diags.len() {
        push_is_blame(cx, diags, out.diags);
    }
}

/// `break` and `continue` are reported just where they do not stand in a loop. A
/// condition is reported just if it is no `bool`.
pub proof fn loops_and_conditions_are_judged(
    cx: CheckM,
    fx: FnM,
    ty: TypeM,
    span: Span,
    diags: Seq<DiagM>,
)
    ensures
        ({
            let b = typing::check_stmt(cx, fx, StmtM::Break(span), diags).diags;
            let c = typing::check_stmt(cx, fx, StmtM::Continue(span), diags).diags;
            let d = typing::bool_diags(cx, ty, span, diags);
            &&& if fx.in_loop {
                b == diags && c == diags
            } else {
                blames(cx, diags, b, span, "E440"@) && blames(cx, diags, c, span, "E441"@)
            }
            &&& if ty == TypeM::Named("bool"@) {
                d == diags
            } else {
                blames(cx, diags, d, span, "E4B0"@)
            }
        }),
{
    reveal_with_fuel(typing::check_stmt, 1);
    reveal_with_fuel(typing::check_branches, 1);
    reveal_with_fuel(typing::check_block, 1);
    reveal_with_fuel(typing::check_stmts, 1);
    let b = typing::check_stmt(cx, fx, StmtM::Break(span), diags).diags;
    let c = typing::check_stmt(cx, fx, StmtM::Continue(span), diags).diags;
    let d = typing::bool_diags(cx, ty, span, diags);
    if !fx.in_loop {
        push_is_blame(cx, diags, b);
        push_is_blame(cx, diags, c);
    }
    if ty != TypeM::Named("bool"@) {
        push_is_blame(cx, diags, d);
    }
}

/// Whether each way through the statement ends in a `return` with a value.
pub open spec fn always_returns(s: StmtM) -> bool
    decreases s,
{
    match s {
        StmtM::Return { value, .. } => value is Some,
        StmtM::If { branches, else_block, .. } => (else_block matches Some(b) && ends_in_return(b))
            && forall|i: int| 0 <= i < branches.len() ==> ends_in_return((#[trigger] branches[i]).1),
        _ => false,
    }
}

/// Whether the last statement of the block always returns.
pub open spec fn ends_in_return(b: BlockM) -> bool
    decreases b,
{
    b.stmts.len() > 0 && always_returns(b.stmts[b.stmts.len() - 1])
}

proof fn block_return_is_seen(b: BlockM)
    ensures
        typing::block_returns(b) == ends_in_return(b),
    decreases b,
{
    if b.stmts.len() > 0 {
        assert(decreases_to!(b => b.stmts));
        assert(decreases_to!(b.stmts => b.stmts[b.stmts.len() - 1]));
        stmt_return_is_seen(b.stmts[b.stmts.len() - 1]);
    }
}

proof fn stmt_return_is_seen(s: StmtM)
    ensures
        typing::stmt_returns(s) == always_returns(s),
    decreases s,
{
    if let StmtM::If { branches, else_block, .. } = s {
        if let Some(b) = else_block {
            block_return_is_seen(b);
        }
        assert(decreases_to!(s => branches));
        branch_returns_are_seen(branches);
    }
}

proof fn branch_returns_are_seen(branches: Seq<(ExprM, BlockM)>)
    ensures
        typing::all_return(branches) <==> forall|i: int|
            0 <= i < branches.len() ==> ends_in_return((#[trigger] branches[i]).1),
    decreases branches,
{
    if branches.len() > 0 {
        let n = branches.len() - 1;
        let front = branches.drop_last();
        assert(decreases_to!(branches => branches[n]));
        assert(decreases_to!(branches[n] => branches[n].1));
        block_return_is_seen(branches[n].1);
        branch_returns_are_seen(front);
        if typing::all_return(branches) {
            assert forall|i: int| 0 <= i < branches.len() implies ends_in_return(
                (#[trigger] branches[i]).1,
            ) by {
                if i < n {
                    assert(front[i] == branches[i]);
                }
            }
        }
        if forall|i: int|
            0 <= i < branches.len() ==> ends_in_return((#[trigger] branches[i]).1) {
            assert forall|i: int| 0 <= i < front.len() implies ends_in_return(
                (#[trigger] front[i]).1,
            ) by {
                assert(front[i] == branches[i]);
            }
            assert(ends_in_return(branches[n].1));
        }
    }
}

/// A function that returns a value is reported just if a way through its body
/// does not end in a `return` with a value; one that returns nothing never is.
pub proof fn functions_must_return(
    u: UnitM,
    f: FnDeclM,
    owner: TypeM,
    raw: bool,
    diags: Seq<DiagM>,
)
    requires
        ({
            let cx = u.at(typing::param_vars(f.params, owner), raw);
            let fx = FnM { return_type: f.return_type, in_loop: false };
            typing::check_block(cx, fx, f.body, diags).1 == diags
        }),
    ensures
        ({
            let (g, d) = typing::check_fn(u, f, owner, raw, diags);
            if f.return_type is Void || ends_in_return(g.body) {
                d == diags
            } else {
                blamed(diags, d, u.file, u.src, f.span, "E410"@)
            }
        }),
{
    reveal(typing::check_fn);
    let (g, d) = typing::check_fn(u, f, owner, raw, diags);
    block_return_is_seen(g.body);
    if d.len() > diags.len() {
        assert(d.take(diags.len() as int) =~= diags);
    }
}

/// In a function each parameter is a variable of its declared type, in order;
/// `&self`, `&mut self` and `move self` are `self`, as a reference to the struct,
/// as one that allows changes, and as the struct itself.
pub proof fn parameters_are_variables(f: FnDeclM, owner: TypeM, i: int)
    requires
        0 <= i < f.params.len(),
    ensures
        ({
            let vars = typing::param_vars(f.params, owner);
            &&& vars.len() == f.params.len()
            &&& match f.params[i].kind {
                ast::ParamKindM::Named { name, ty } => vars[i] == (name, ty),
                ast::ParamKindM::SelfRef => vars[i].0 == "self"@ && lookups::layers(vars[i].1)
                    == seq![false] + lookups::layers(owner) && lookups::target(vars[i].1)
                    == lookups::target(owner),
                ast::ParamKindM::SelfMutRef => vars[i].0 == "self"@ && lookups::layers(vars[i].1)
                    == seq![true] + lookups::layers(owner) && lookups::target(vars[i].1)
                    == lookups::target(owner),
                ast::ParamKindM::SelfMove => vars[i] == ("self"@, owner),
            }
        }),
{
}

/// A call with too few or too many arguments is reported once for that, and each
/// argument of a known type that does not fit its parameter once, where the
/// argument stands.
pub proof fn arguments_are_judged(
    cx: CheckM,
    shown: Seq<char>,
    params: Seq<TypeM>,
    found: nat,
    i: nat,
    ty: TypeM,
    span: Span,
    diags: Seq<DiagM>,
)
    ensures
        ({
            let d = typing::arg_count_diags(cx, shown, params.len(), found, span, diags);
            if params.len() == found {
                d == diags
            } else {
                blames(cx, diags, d, span, "E493"@)
            }
        }),
        ({
            let d = typing::arg_diags(cx, shown, params, i, ty, span, diags);
            if i >= params.len() || ty is Unknown || cx.env.compatible(params[i as int], ty) {
                d == diags
            } else {
                blames(cx, diags, d, span, "E494"@)
            }
        }),
{
    let d = typing::arg_count_diags(cx, shown, params.len(), found, span, diags);
    if d.len() > diags.len() {
        push_is_blame(cx, diags, d);
    }
    let e = typing::arg_diags(cx, shown, params, i, ty, span, diags);
    if e.len() > diags.len() {
        push_is_blame(cx, diags, e);
    }
}

/// An infix operator is a call of the method that its left operand has for it,
/// and has the type that the method returns. It is reported if there is no such
/// method, and if the method does not take the right operand. In a method of a
/// struct around a machine value it is a machine operation on machine values.
pub proof fn infix_operators_are_judged(
    cx: CheckM,
    op: BinaryOp,
    left: ExprM,
    ty: TypeM,
    r: Checked,
    span: Span,
)
    ensures
        ({
            let out = typing::binary_op(cx, op, left, ty, r, span);
            let method = ast::binary_method(op);
            if cx.raw && (ty is I64 || ty is F64 || ty is Null) {
                out.diags == r.diags && out.ty == ty
            } else if cx.env.receiver(ty) is None {
                blames(cx, r.diags, out.diags, span, "E471"@) && out.ty is Unknown
            } else {
                match cx.env.method_of(ty, method) {
                    None => blames(cx, r.diags, out.diags, span, "E472"@) && out.ty is Unknown,
                    Some(sig) => out.ty == sig.return_type && (typing::param_types(sig).len() == 1
                        ==> if cx.env.compatible(
                        typing::param_types(sig)[0],
                        typing::reference_type(r.ty),
                    ) {
                        out.diags == r.diags
                    } else {
                        blames(cx, r.diags, out.diags, span, "E473"@)
                    }) && (typing::param_types(sig).len() != 1 ==> out.diags.len()
                        > r.diags.len() && out.diags[r.diags.len() as int].code == "E493"@),
                }
            }
        }),
{
    reveal(typing::binary_op);
    let out = typing::binary_op(cx, op, left, ty, r, span);
    if out.diags.len() == r.diags.len() + 1 {
        push_is_blame(cx, r.diags, out.diags);
    }
}

/// The right operand is handed to the method as a reference to it, which it may
/// be already: of two references around it one is taken away.
pub proof fn right_operand_is_a_reference(ty: TypeM)
    ensures
        ({
            let r = typing::reference_type(ty);
            &&& r is Ref || r is MutRef
            &&& lookups::target(r) == lookups::target(ty.settled())
            &&& match ty {
                TypeM::Ref(t) => r == if *t is Ref || *t is MutRef {
                    *t
                } else {
                    ty
                },
                TypeM::MutRef(t) => r == if *t is Ref || *t is MutRef {
                    *t
                } else {
                    ty
                },
                _ => lookups::layers(r) == seq![false],
            }
        }),
{
    reveal_with_fuel(lookups::layers, 3);
    reveal_with_fuel(lookups::target, 3);
    assert(seq![false] + Seq::<bool>::empty() =~= seq![false]);
}

/// A prefix operator is a call of the method that its operand has for it; it is
/// reported if there is none.
pub proof fn prefix_operators_are_judged(cx: CheckM, op: UnaryOp, c: Checked, span: Span)
    requires
        op is Neg || op is Not,
    ensures
        ({
            let out = typing::unary_op(cx, op, c, span);
            let method = if op is Neg {
                "neg"@
            } else {
                "not"@
            };
            if cx.raw && (c.ty is I64 || c.ty is F64 || c.ty is Null) {
                out.diags == c.diags && out.ty == c.ty
            } else if cx.env.receiver(c.ty) is None {
                blames(cx, c.diags, out.diags, span, "E471"@) && out.ty is Unknown
            } else {
                match cx.env.method_of(c.ty, method) {
                    None => blames(cx, c.diags, out.diags, span, "E472"@) && out.ty is Unknown,
                    Some(sig) => out.ty == sig.return_type && if typing::param_types(sig).len()
                        == 0 {
                        out.diags == c.diags
                    } else {
                        blames(cx, c.diags, out.diags, span, "E493"@)
                    },
                }
            }
        }),
{
    reveal(typing::unary_op);
    let out = typing::unary_op(cx, op, c, span);
    if out.diags.len() == c.diags.len() + 1 {
        push_is_blame(cx, c.diags, out.diags);
    }
}

/// A cast to a machine type takes the machine value out of a struct that holds
/// nothing else; from a machine type to a struct it makes such a struct; and
/// between structs it is a call of the method `to_` with the name of the target,
/// which takes `&self` alone and returns the target. Anything else is reported.
pub proof fn casts_are_judged(cx: CheckM, c: Checked, target: TypeM, span: Span)
    ensures
        match typing::cast_op(cx, c, target, span) {
            CastM::Box(name, field) => c.ty.is_machine() && typing::struct_type(name) == target && (
            typing::init_target(cx.env, name) matches Some(s) && s.fields.len() == 1
                && s.fields[0].name == field && s.fields[0].ty == c.ty),
            CastM::Done(r) => match target {
                TypeM::I64 | TypeM::F64 => if (cx.raw && c.ty == target) || (cx.env.struct_of(
                    c.ty,
                ) matches Some(s) && s.fields.len() == 1 && s.fields[0].ty == target) {
                    r.diags == c.diags && r.ty == target
                } else {
                    r.ty is Unknown && blames(cx, c.diags, r.diags, span, "E481"@)
                },
                TypeM::Named(_) | TypeM::Qualified(_, _) => if c.ty.is_machine()
                    || cx.env.receiver(c.ty) is None {
                    r.ty is Unknown && blames(cx, c.diags, r.diags, span, "E480"@)
                } else {
                    let n = match target {
                        TypeM::Named(n) => n,
                        TypeM::Qualified(_, n) => n,
                        _ => Seq::empty(),
                    };
                    match cx.env.method_of(c.ty, "to_"@ + n) {
                        Some(sig) => if sig.params.len() == 1 && sig.params[0].kind is SelfRef
                            && cx.env.compatible(target, sig.return_type) {
                            r.diags == c.diags && r.ty == sig.return_type
                        } else {
                            r.ty is Unknown && blames(cx, c.diags, r.diags, span, "E482"@)
                        },
                        None => r.ty is Unknown && blames(cx, c.diags, r.diags, span, "E482"@),
                    }
                },
                _ => r.ty is Unknown && blames(cx, c.diags, r.diags, span, "E481"@),
            },
        },
{
    reveal(typing::cast_op);
    if let CastM::Done(r) = typing::cast_op(cx, c, target, span) {
        if r.diags.len() == c.diags.len() + 1 {
            push_is_blame(cx, c.diags, r.diags);
        }
    }
}

/// What is called must be a function in scope, a method of the value, or a
/// function of a module or a struct; anything else is reported.
pub proof fn callees_are_judged(cx: CheckM, ty: TypeM, name: Seq<char>, module: Seq<char>, span: Span)
    ensures
        match typing::method_callee(cx, ty, name, span) {
            typing::CalleeM::Known { params, ty: t, .. } => cx.env.method_of(ty, name) matches Some(
                sig,
            ) && params == typing::param_types(sig) && t == sig.return_type,
            typing::CalleeM::Bad(d) => cx.env.method_of(ty, name) is None && d.code == "E490"@
                && d.line == span.line && d.col == span.col,
            typing::CalleeM::Unknown(_) => false,
        },
        match typing::plain_callee(cx, ExprKindM::Ident(name), span) {
            typing::CalleeM::Known { params, ty: t, .. } => cx.env.lookup_fn(name) matches Some(
                sig,
            ) && params == typing::param_types(sig) && t == sig.return_type,
            typing::CalleeM::Unknown(n) => cx.env.lookup_fn(name) is None && n == name,
            typing::CalleeM::Bad(_) => false,
        },
        match typing::plain_callee(cx, ExprKindM::QualifiedIdent { module, name }, span) {
            typing::CalleeM::Known { params, ty: t, .. } => {
                ||| cx.env.find_method(module, name) matches Some(sig) && takes_no_self(sig)
                    && params == typing::param_types(sig) && t == sig.return_type
                ||| !(cx.env.find_method(module, name) matches Some(sig) && takes_no_self(sig)) && (
                cx.env.lookup_module_fn(module, name) matches Some(sig) && params
                    == typing::param_types(sig) && t == sig.return_type)
            },
            typing::CalleeM::Unknown(n) => n == module + "::"@ + name && !(cx.env.find_method(
                module,
                name,
            ) matches Some(sig) && takes_no_self(sig)) && cx.env.lookup_module_fn(
                module,
                name,
            ) is None,
            typing::CalleeM::Bad(_) => false,
        },
{
    reveal(typing::method_callee);
    reveal(typing::plain_callee);
}

/// Whether the function has no `self`.
pub open spec fn takes_no_self(sig: SigM) -> bool {
    forall|i: int| 0 <= i < sig.params.len() ==> (#[trigger] sig.params[i]).kind is Named
}

proof fn asm_line_is_judged(cx: CheckM, line: Seq<AsmTokenM>, n: int, span: Span, diags: Seq<DiagM>)
    requires
        0 <= n <= line.len(),
    ensures
        ({
            let d = typing::asm_line_diags(cx, line, n, span, diags);
            &&& d.len() >= diags.len()
            &&& d == diags || d.len() > diags.len()
            &&& d.len() == diags.len() <==> forall|i: int|
                0 <= i < n ==> (#[trigger] line[i] matches AsmTokenM::Value(x) ==> cx.lookup(
                    x,
                ) is Some) && (line[i] matches AsmTokenM::Addr(x) ==> cx.lookup(x) is Some)
        }),
    decreases n,
{
    if n > 0 {
        asm_line_is_judged(cx, line, n - 1, span, diags);
    }
}

/// Inline assembly is reported just if it names a variable that is not in scope.
pub proof fn assembly_is_judged(
    cx: CheckM,
    lines: Seq<Seq<AsmTokenM>>,
    n: int,
    span: Span,
    diags: Seq<DiagM>,
)
    requires
        0 <= n <= lines.len(),
    ensures
        ({
            let d = typing::asm_diags(cx, lines, n, span, diags);
            &&& d.len() >= diags.len()
            &&& d == diags || d.len() > diags.len()
            &&& d.len() == diags.len() <==> forall|k: int, i: int|
                0 <= k < n && 0 <= i < lines[k].len() ==> (
                #[trigger] lines[k][i] matches AsmTokenM::Value(x) ==> cx.lookup(x) is Some) && (
                lines[k][i] matches AsmTokenM::Addr(x) ==> cx.lookup(x) is Some)
        }),
    decreases n,
{
    if n > 0 {
        assembly_is_judged(cx, lines, n - 1, span, diags);
        let before = typing::asm_diags(cx, lines, n - 1, span, diags);
        asm_line_is_judged(cx, lines[n - 1], lines[n - 1].len() as int, span, before);
    }
}

/// A literal is a value of its library type, unless a machine value is asked for
/// or it stands in a method of a struct around one. It is reported if the library
/// type is not in scope, and if it has no field for the machine value.
pub proof fn literals_are_judged(
    cx: CheckM,
    n: i64,
    span: Span,
    hint: Option<TypeM>,
    diags: Seq<DiagM>,
)
    ensures
        ({
            let out = typing::int_literal(cx, n, span, hint, diags);
            if cx.raw || hint == Some(TypeM::I64) {
                out.kind == ExprKindM::IntLit(n) && out.ty is I64 && out.diags == diags
            } else {
                match cx.env.lookup_struct("int"@) {
                    None => blames(cx, diags, out.diags, span, "E4C0"@),
                    Some(s) => if lookups::field_names(s.fields).contains("inner_value"@) && (
                    typing::declared(s, "inner_value"@) == Some(TypeM::I64)) {
                        out.ty == TypeM::Named("int"@)
                    } else {
                        blames(cx, diags, out.diags, span, "E4C1"@)
                    },
                }
            }
        }),
        ({
            let kind = ExprKindM::FloatLit(Seq::empty());
            let out = typing::machine_literal(cx, kind, TypeM::F64, "float"@, span, hint, diags);
            if cx.raw || hint == Some(TypeM::F64) {
                out.kind == kind && out.ty is F64 && out.diags == diags
            } else {
                match cx.env.lookup_struct("float"@) {
                    None => blames(cx, diags, out.diags, span, "E4C0"@),
                    Some(s) => if typing::declared(s, "inner_value"@) == Some(TypeM::F64) {
                        out.ty == TypeM::Named("float"@)
                    } else {
                        blames(cx, diags, out.diags, span, "E4C1"@)
                    },
                }
            }
        }),
{
    reveal(typing::machine_literal);
    let out = typing::int_literal(cx, n, span, hint, diags);
    if let Some(s) = cx.env.lookup_struct("int"@) {
        lookups::field_has_its_declared_type(s, "inner_value"@);
        if let Some(ty) = typing::declared(s, "inner_value"@) {
            let k = choose|k: int| #[trigger]
                lookups::last_of(lookups::field_names(s.fields), "inner_value"@, k)
                    && s.fields[k].ty == ty;
            assert(lookups::field_names(s.fields)[k] == "inner_value"@);
        }
    }
    if !(cx.raw || hint == Some(TypeM::I64)) && out.diags.len() == diags.len() + 1 && out.ty is I64 {
        push_is_blame(cx, diags, out.diags);
    }
    let kind = ExprKindM::FloatLit(Seq::empty());
    let f = typing::machine_literal(cx, kind, TypeM::F64, "float"@, span, hint, diags);
    if !(cx.raw || hint == Some(TypeM::F64)) && f.diags.len() == diags.len() + 1 && f.ty is F64 {
        push_is_blame(cx, diags, f.diags);
    }
}

/// Something of a module that is not called must be there: an unknown module is
/// reported, and so is a name that the module does not declare as a function.
pub proof fn qualified_names_are_judged(
    cx: CheckM,
    module: Seq<char>,
    name: Seq<char>,
    span: Span,
    diags: Seq<DiagM>,
)
    ensures
        ({
            let (ty, d) = typing::qualified_name(cx, module, name, span, diags);
            if !lookups::module_names(cx.env.modules).contains(module) {
                ty is Unknown && blames(cx, diags, d, span, "E463"@)
            } else if cx.env.lookup_module_fn(module, name) is None {
                ty is Unknown && blames(cx, diags, d, span, "E462"@)
            } else {
                ty is Void && d == diags
            }
        }),
{
    let (ty, d) = typing::qualified_name(cx, module, name, span, diags);
    lookups::module_is_found_by_its_name(cx.env.modules, module);
    if let Some(m) = typing::find_module(cx.env.modules, module, 0) {
        let k = choose|k: int| #[trigger]
            lookups::first_of(lookups::module_names(cx.env.modules), module, k)
                && cx.env.modules[k].1 == m;
        assert(lookups::module_names(cx.env.modules)[k] == module);
    }
    if d.len() > diags.len() {
        push_is_blame(cx, diags, d);
    }
}

/// The methods of a struct with a field of a machine type work on machine values,
/// and so do those that are added to `i64` and `f64`; other functions do not.
pub proof fn machine_values_stay_in_their_structs(
    u: UnitM,
    f: FnDeclM,
    s: ast::StructDeclM,
    e: ast::ExtendDeclM,
    diags: Seq<DiagM>,
)
    ensures
        ({
            let raw = u.env.lookup_struct(s.name) matches Some(info) && exists|i: int|
                0 <= i < info.fields.len() && ((#[trigger] info.fields[i]).ty is I64
                    || info.fields[i].ty is F64 || info.fields[i].ty is Null);
            let owner = if s.name == "i64"@ {
                TypeM::I64
            } else if s.name == "f64"@ {
                TypeM::F64
            } else {
                TypeM::Named(s.name)
            };
            typing::check_item(u, ast::ItemM::Struct(s), diags).1 == typing::check_fns(
                u,
                s.methods,
                s.methods.len() as int,
                owner,
                raw,
                diags,
            ).1
        }),
        ({
            let owner = match e.module {
                Some(m) => TypeM::Qualified(m, e.name),
                None => if e.name == "i64"@ {
                    TypeM::I64
                } else if e.name == "f64"@ {
                    TypeM::F64
                } else {
                    TypeM::Named(e.name)
                },
            };
            typing::check_item(u, ast::ItemM::Extend(e), diags).1 == typing::check_fns(
                u,
                e.methods,
                e.methods.len() as int,
                owner,
                e.name == "i64"@ || e.name == "f64"@,
                diags,
            ).1
        }),
        typing::check_item(u, ast::ItemM::Fn(f), diags).1 == typing::check_fn(
            u,
            f,
            TypeM::Named(Seq::empty()),
            false,
            diags,
        ).1,
{
    reveal(typing::check_item);
    reveal_strlit("i64");
    reveal_strlit("f64");
    let none = Seq::<char>::empty();
    assert(none.len() == 0 && "i64"@.len() == 3 && "f64"@.len() == 3);
    assert(typing::self_type(Seq::empty()) == TypeM::Named(none));
    if let Some(info) = u.env.lookup_struct(s.name) {
        if exists|i: int|
            0 <= i < info.fields.len() && ((#[trigger] info.fields[i]).ty is I64
                || info.fields[i].ty is F64 || info.fields[i].ty is Null) {
            let i = choose|i: int|
                0 <= i < info.fields.len() && ((#[trigger] info.fields[i]).ty is I64
                    || info.fields[i].ty is F64 || info.fields[i].ty is Null);
            assert(info.fields[i].ty.is_machine());
        }
        if u.env.machine_backed(s.name) {
            let i = choose|i: int|
                0 <= i < info.fields.len() && (#[trigger] info.fields[i]).ty.is_machine();
            assert(info.fields[i].ty.is_machine());
        }
    }
}

/// Where a type does not fit, the diagnostic says which one was expected and
/// which one was found, in that order; for an argument also which one it is,
/// counted from one, and of which function.
pub proof fn mismatches_name_both_types(
    cx: CheckM,
    expected: TypeM,
    found: TypeM,
    params: Seq<TypeM>,
    i: nat,
    shown: Seq<char>,
    span: Span,
    diags: Seq<DiagM>,
)
    requires
        !(found is Unknown),
        !cx.env.compatible(expected, found),
        i < params.len(),
        params[i as int] == expected,
    ensures
        ({
            let both = ": expected `"@ + expected.shown() + "`, found `"@ + found.shown() + "`"@;
            let d = typing::mismatch(cx, expected, found, span, shown, shown, diags);
            let a = typing::arg_diags(cx, shown, params, i, found, span, diags);
            &&& d.last().message == shown + both
            &&& a.last().message == "argument "@ + text::decimal(i + 1) + " to `"@ + shown + "`"@
                + both
        }),
{
    reveal_strlit(": expected `");
    reveal_strlit("`: expected `");
    reveal_strlit("`");
    let tail = expected.shown() + "`, found `"@ + found.shown() + "`"@;
    let both = ": expected `"@ + expected.shown() + "`, found `"@ + found.shown() + "`"@;
    assert(both =~= ": expected `"@ + tail);
    let d = typing::mismatch(cx, expected, found, span, shown, shown, diags);
    assert(d.last().message =~= shown + both);
    let a = typing::arg_diags(cx, shown, params, i, found, span, diags);
    let head = "argument "@ + text::decimal(i + 1) + " to `"@ + shown;
    assert("`: expected `"@ =~= "`"@ + ": expected `"@);
    assert(a.last().message =~= head + "`: expected `"@ + tail);
    assert(a.last().message =~= head + "`"@ + both);
}

proof fn shared_layer(ty: TypeM)
    ensures
        typing::through_shared(ty) == lookups::layers(ty).contains(false),
    decreases ty,
{
    match ty {
        TypeM::Ref(t) => {
            assert(lookups::layers(ty)[0] == false);
        },
        TypeM::MutRef(t) => {
            shared_layer(*t);
            let a = lookups::layers(ty);
            let b = lookups::layers(*t);
            if b.contains(false) {
                let i = choose|i: int| 0 <= i < b.len() && b[i] == false;
                assert(a[i + 1] == false);
            }
            if a.contains(false) {
                let i = choose|i: int| 0 <= i < a.len() && a[i] == false;
                assert(b[i - 1] == false);
            }
        },
        _ => {},
    }
}

/// `*e = ...` assigns just through a `&mut`: through a `&` it is reported, and so
/// it is where `e` is no reference. `e.f = ...` assigns just where no `&` lies on
/// the way: neither in the type of `e`, nor in that of what it is a field of.
pub proof fn places_are_judged(
    cx: CheckM,
    e: ExprM,
    field: Seq<char>,
    span: Span,
    diags: Seq<DiagM>,
)
    requires
        typing::check_expr(cx, e, None, diags).diags == diags,
    ensures
        ({
            let c = typing::check_expr(cx, e, None, diags);
            let (l, ty, d) = typing::check_lvalue(cx, LValueM::Deref(e, span), diags);
            match c.ty {
                TypeM::MutRef(t) => ty == Some(*t) && d == diags,
                TypeM::Ref(t) => blames(cx, diags, d, span, "E422"@),
                _ => ty is None && blames(cx, diags, d, e.span, "E461"@),
            }
        }),
        ({
            let c = typing::check_expr(cx, e, None, diags);
            let (l, ty, d) = typing::check_lvalue(cx, LValueM::Field(e, field, span), diags);
            let (t, d1) = typing::field_type(cx, c.ty, field, span, diags);
            &&& ty == t
            &&& t is Some && (c.ty is Ref || c.ty is MutRef) ==> if lookups::layers(
                c.ty,
            ).contains(false) {
                blames(cx, diags, d, span, "E422"@)
            } else {
                d == diags
            }
            &&& t is Some && !(c.ty is Ref || c.ty is MutRef) && c.expr.kind is Ident ==> d == diags
        }),
{
    reveal(typing::check_lvalue);
    reveal_with_fuel(typing::check_args, 1);
    reveal_with_fuel(typing::check_expr, 1);
    reveal_with_fuel(typing::check_kind, 1);
    reveal_with_fuel(typing::check_call, 1);
    reveal_with_fuel(typing::check_init, 1);
    reveal_with_fuel(typing::check_inits, 1);
    let c = typing::check_expr(cx, e, None, diags);
    shared_layer(c.ty);
    assert(c.expr.ty == Some(c.ty.settled()));
    let d = typing::check_lvalue(cx, LValueM::Deref(e, span), diags).2;
    if d.len() == diags.len() + 1 {
        push_is_blame(cx, diags, d);
    }
    let f = typing::check_lvalue(cx, LValueM::Field(e, field, span), diags).2;
    if f.len() == diags.len() + 1 {
        push_is_blame(cx, diags, f);
    }
    fields_must_be_declared(cx, c.ty, field, span, diags);
}

} // verus!
