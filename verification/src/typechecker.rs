//! The Jo type checker.
//!
//! Walks the parsed `Program`, building a struct/function table, then checks
//! every function body. During the walk it performs three rewrites:
//!   * literal desugaring  (`10` becomes `int { inner_value = 10 }`, etc.)
//!   * operator desugaring (`a + b` becomes `a.add(&b)`, etc.)
//!   * cast desugaring     (`x -> float` becomes `x.to_float()`)
//! and annotates every `Expr` with its resolved `ty`.

use vstd::prelude::*;

use crate::ast;
use crate::ast::{
    AsmLine, AsmStmt, AsmToken, AssignStmt, BinaryOp, Block, Expr, ExprKind, ExtendDecl, FnDecl,
    IfStmt, Item, LValue, LetStmt, Param, ParamKind, Program, ProgramM, ReturnStmt, Span, Stmt,
    StructDecl, StructName, Type, TypeM, UnaryOp, WhileStmt,
};
use crate::env;
use crate::env::{Env, ModuleInfo, Sig, StructInfo};
use crate::error;
use crate::error::Diagnostic;
use crate::soundness;
use crate::text;
use crate::types;
use crate::typing;
use crate::typing::{CalleeM, CastM, CheckM, FnM, UnitM};

verus! {

// ---------------------------------------------------------------------------
// Small helpers
// ---------------------------------------------------------------------------

spec fn hint_view(h: Option<&Type>) -> Option<TypeM> {
    match h {
        Some(t) => Some(t@),
        None => None,
    }
}

pub open spec fn vars_view(s: Seq<(String, Type)>) -> Seq<(Seq<char>, TypeM)> {
    Seq::new(s.len(), |i: int| (s[i].0@, s[i].1@))
}

spec fn strings_view(s: Seq<String>) -> Seq<Seq<char>> {
    Seq::new(s.len(), |i: int| s[i]@)
}

fn holds(seen: &Vec<String>, name: &str) -> (r: bool)
    ensures
        r == strings_view(seen@).contains(name@),
{
    let mut i: usize = 0;
    while i < seen.len()
        invariant
            i <= seen@.len(),
            forall|k: int| 0 <= k < i ==> #[trigger] strings_view(seen@)[k] != name@,
        decreases seen@.len() - i,
    {
        if text::text_eq(seen[i].as_str(), name) {
            assert(strings_view(seen@)[i as int] == name@);
            return true;
        }
        i = i + 1;
    }
    false
}

fn same_hint(hint: Option<&Type>, ty: &Type) -> (r: bool)
    ensures
        r == (hint_view(hint) == Some(ty@)),
{
    match hint {
        Some(h) => h.same(ty),
        None => false,
    }
}

fn dummy_expr(span: Span) -> (r: Expr)
    ensures
        r@ == typing::dummy(span),
{
    Expr::new(ExprKind::IntLit(0), span)
}

fn typed(kind: ExprKind, ty: Type, span: Span) -> (r: Expr)
    ensures
        r@ == typing::typed(ast::expr_kind_view(kind), ty@, span),
{
    Expr { kind, ty: Some(ty.settled()), span }
}

/// Reports an error.
fn report(
    diags: &mut Vec<Diagnostic>,
    file: &str,
    src: &str,
    span: Span,
    code: &str,
    msg: String,
    label: &str,
)
    ensures
        error::diags_view(final(diags)@) == error::diags_view(old(diags)@).push(
            typing::diag_in(file@, src@, span, code@, msg@, label@),
        ),
{
    let src_line = error::source_line_of(src, span.line);
    let d = Diagnostic::new(
        code,
        msg,
        file.to_owned(),
        span.line,
        span.col,
        src_line,
    ).with_label(label);
    diags.push(d);
    assert(error::diags_view(diags@) =~= error::diags_view(old(diags)@).push(d@));
}

// ---------------------------------------------------------------------------
// Places
// ---------------------------------------------------------------------------

/// Where an expression is checked: the declarations, the variables in scope,
/// and whether literals and operators are machine values there.
struct Place<'c> {
    file: &'c str,
    src: &'c str,
    env: &'c Env,
    vars: &'c Vec<(String, Type)>,
    raw: bool,
}

impl<'c> View for Place<'c> {
    type V = CheckM;

    closed spec fn view(&self) -> CheckM {
        CheckM {
            file: self.file@,
            src: self.src@,
            env: self.env@,
            vars: vars_view(self.vars@),
            raw: self.raw,
        }
    }
}

/// What comes of a cast once its operand is checked.
enum CastOut {
    Done(ExprKind, Type),
    Box(Expr, StructName, String),
}

/// What is called.
enum Callee {
    Known(Vec<Type>, String, Type),
    Unknown(String),
    Bad,
}

impl<'c> Place<'c> {
    fn error(
        &self,
        diags: &mut Vec<Diagnostic>,
        span: Span,
        code: &str,
        msg: String,
        label: &str,
    )
        ensures
            error::diags_view(final(diags)@) == error::diags_view(old(diags)@).push(
                self@.diag(span, code@, msg@, label@),
            ),
    {
        report(diags, self.file, self.src, span, code, msg, label);
    }

    fn lookup(&self, name: &str) -> (r: Option<&Type>)
        ensures
            match r {
                Some(t) => self@.lookup(name@) == Some(t@),
                None => self@.lookup(name@) is None,
            },
    {
        let ghost v = vars_view(self.vars@);
        let mut n: usize = self.vars.len();
        while n > 0
            invariant
                n <= self.vars@.len(),
                v == vars_view(self.vars@),
                self@.lookup(name@) == typing::find_var(v, name@, n as int),
            decreases n,
        {
            if text::text_eq(self.vars[n - 1].0.as_str(), name) {
                return Some(&self.vars[n - 1].1);
            }
            n = n - 1;
        }
        None
    }

    // --- struct initializers ---

    fn init_field(
        &self,
        diags: &mut Vec<Diagnostic>,
        decl: &StructInfo,
        name: &str,
        ty: &Type,
        span: Span,
        seen: &mut Vec<String>,
    )
        ensures
            (strings_view(final(seen)@), error::diags_view(final(diags)@)) == typing::init_field(
                self@,
                decl@,
                name@,
                ty@,
                span,
                strings_view(old(seen)@),
                error::diags_view(old(diags)@),
            ),
    {
        match decl.declared(name) {
            Some(fty) => {
                if !matches!(ty, Type::Unknown) && !self.env.types_compatible(fty, ty) {
                    let msg = text::cat5(
                        text::cat5(
                            "field `",
                            name,
                            "` of `",
                            decl.name.as_str(),
                            "`: expected `",
                        ).as_str(),
                        fty.display().as_str(),
                        "`, found `",
                        ty.display().as_str(),
                        "`",
                    );
                    self.error(diags, span, "E496", msg, "type mismatch");
                }
                if holds(seen, name) {
                    let msg = text::cat3("duplicate field `", name, "` in struct initializer");
                    self.error(diags, span, "E497", msg, "duplicate field");
                }
                let ghost before = seen@;
                seen.push(name.to_owned());
                assert(strings_view(seen@) =~= strings_view(before).push(name@));
            },
            None => {
                let msg = text::cat5("`", decl.name.as_str(), "` has no field `", name, "`");
                self.error(diags, span, "E498", msg, "no such field");
            },
        }
    }

    fn missing_fields(
        &self,
        diags: &mut Vec<Diagnostic>,
        decl: &StructInfo,
        span: Span,
        seen: &Vec<String>,
    )
        ensures
            error::diags_view(final(diags)@) == typing::all_missing(
                self@,
                decl@,
                span,
                strings_view(seen@),
                error::diags_view(old(diags)@),
            ),
    {
        let ghost d0 = error::diags_view(diags@);
        let mut i: usize = 0;
        while i < decl.fields.len()
            invariant
                i <= decl.fields@.len(),
                error::diags_view(diags@) == typing::missing_fields(
                    self@,
                    decl@,
                    span,
                    strings_view(seen@),
                    i as int,
                    d0,
                ),
            decreases decl.fields@.len() - i,
        {
            let name = decl.fields[i].name.as_str();
            assert(decl@.fields[i as int].name == name@);
            if !holds(seen, name) {
                let msg = text::cat5(
                    "missing field `",
                    name,
                    "` in initializer for `",
                    decl.name.as_str(),
                    "`",
                );
                self.error(diags, span, "E499", msg, "missing field");
            }
            i = i + 1;
        }
    }

    // --- literals ---

    /// A literal can only be wrapped into its stdlib struct (`int`, `float`, ...)
    /// if that struct is actually in scope. If it is missing, report an error
    /// (the user forgot to import it) and keep the literal raw.
    fn unavailable(&self, diags: &mut Vec<Diagnostic>, name: &str, span: Span)
        ensures
            error::diags_view(final(diags)@) == error::diags_view(old(diags)@).push(
                typing::unavailable(self@, name@, span),
            ),
    {
        let msg = text::cat5(
            "type `",
            name,
            "` is not in scope (did you forget to `import stdlib::",
            name,
            "` or `import stdlib::*`?)",
        );
        self.error(diags, span, "E4C0", msg, "unknown type");
    }

    /// The field of a wrapper struct must hold the literal itself: wrapping the
    /// literal in the field again would never end.
    fn unfit(&self, diags: &mut Vec<Diagnostic>, name: &str, field: &str, ty: &Type, span: Span)
        ensures
            error::diags_view(final(diags)@) == error::diags_view(old(diags)@).push(
                typing::unfit(self@, name@, field@, ty@, span),
            ),
    {
        let msg = text::cat3(
            text::cat5(
                "type `",
                name,
                "` cannot hold a literal (it needs a field `",
                field,
                ": ",
            ).as_str(),
            ty.display().as_str(),
            "`)",
        );
        self.error(diags, span, "E4C1", msg, "unsuitable type");
    }

    fn boxed(
        &self,
        diags: &mut Vec<Diagnostic>,
        decl: &StructInfo,
        name: &str,
        kind: ExprKind,
        ty: Type,
        span: Span,
    ) -> (r: (ExprKind, Type))
        ensures
            ({
                let out = typing::boxed(
                    self@,
                    decl@,
                    name@,
                    typing::Rewritten {
                        kind: ast::expr_kind_view(kind),
                        ty: ty@,
                        diags: error::diags_view(old(diags)@),
                    },
                    span,
                );
                &&& ast::expr_kind_view(r.0) == out.kind
                &&& r.1@ == out.ty
                &&& error::diags_view(final(diags)@) == out.diags
            }),
    {
        let mut seen: Vec<String> = Vec::new();
        assert(strings_view(seen@) =~= Seq::empty());
        self.init_field(diags, decl, "inner_value", &ty, span, &mut seen);
        self.missing_fields(diags, decl, span, &seen);
        let mut fields: Vec<(String, Expr)> = Vec::new();
        let ghost inner = typing::typed(ast::expr_kind_view(kind), ty@, span);
        fields.push(("inner_value".to_owned(), typed(kind, ty, span)));
        assert(ast::inits_view(fields@) =~= seq![("inner_value"@, inner)]);
        (
            ExprKind::StructInit { name: StructName::Unqualified(name.to_owned()), fields },
            Type::Named(name.to_owned()),
        )
    }

    fn machine_literal(
        &self,
        diags: &mut Vec<Diagnostic>,
        kind: ExprKind,
        ty: Type,
        name: &str,
        span: Span,
        hint: Option<&Type>,
    ) -> (r: (ExprKind, Type))
        ensures
            ({
                let out = typing::machine_literal(
                    self@,
                    ast::expr_kind_view(kind),
                    ty@,
                    name@,
                    span,
                    hint_view(hint),
                    error::diags_view(old(diags)@),
                );
                &&& ast::expr_kind_view(r.0) == out.kind
                &&& r.1@ == out.ty
                &&& error::diags_view(final(diags)@) == out.diags
            }),
    {
        proof {
            reveal(typing::machine_literal);
        }
        if self.raw || same_hint(hint, &ty) {
            return (kind, ty);
        }
        match self.env.lookup_struct(name) {
            None => {
                self.unavailable(diags, name, span);
                (kind, ty)
            },
            Some(decl) => {
                if same_hint(decl.declared("inner_value"), &ty) {
                    self.boxed(diags, decl, name, kind, ty, span)
                } else {
                    self.unfit(diags, name, "inner_value", &ty, span);
                    (kind, ty)
                }
            },
        }
    }

    fn coded_literal(
        &self,
        diags: &mut Vec<Diagnostic>,
        kind: ExprKind,
        n: i64,
        name: &str,
        span: Span,
    ) -> (r: (ExprKind, Type))
        ensures
            ({
                let out = typing::coded_literal(
                    self@,
                    ast::expr_kind_view(kind),
                    n,
                    name@,
                    span,
                    error::diags_view(old(diags)@),
                );
                &&& ast::expr_kind_view(r.0) == out.kind
                &&& r.1@ == out.ty
                &&& error::diags_view(final(diags)@) == out.diags
            }),
    {
        proof {
            reveal(typing::coded_literal);
        }
        if self.raw {
            return (kind, Type::I64);
        }
        match self.env.lookup_struct(name) {
            None => {
                self.unavailable(diags, name, span);
                (kind, Type::I64)
            },
            Some(decl) => {
                let (k, t) = self.machine_literal(
                    diags,
                    ExprKind::IntLit(n),
                    Type::I64,
                    "int",
                    span,
                    decl.declared("inner_value"),
                );
                self.boxed(diags, decl, name, k, t, span)
            },
        }
    }

    fn string_literal(
        &self,
        diags: &mut Vec<Diagnostic>,
        s: &String,
        span: Span,
        hint: Option<&Type>,
    ) -> (r: (ExprKind, Type))
        ensures
            ({
                let out = typing::string_literal(
                    self@,
                    s@,
                    span,
                    hint_view(hint),
                    error::diags_view(old(diags)@),
                );
                &&& ast::expr_kind_view(r.0) == out.kind
                &&& r.1@ == out.ty
                &&& error::diags_view(final(diags)@) == out.diags
            }),
    {
        proof {
            reveal(typing::string_literal);
        }
        let plain = ExprKind::StringLit(s.clone());
        if self.raw || same_hint(hint, &Type::I64) {
            return (plain, Type::I64);
        }
        match self.env.lookup_struct("string") {
            None => {
                self.unavailable(diags, "string", span);
                (plain, Type::I64)
            },
            Some(decl) => {
                if !same_hint(decl.declared("ptr"), &Type::I64) {
                    self.unfit(diags, "string", "ptr", &Type::I64, span);
                    return (plain, Type::I64);
                }
                // string { ptr = <addr literal>, length = byte_len }
                // We keep the string content in a StringLit child of the ptr
                // field so codegen can emit the .rodata and take its address.
                let byte_len: i64 = s.as_str().len() as i64;
                let mut seen: Vec<String> = Vec::new();
                assert(strings_view(seen@) =~= Seq::empty());
                self.init_field(diags, decl, "ptr", &Type::I64, span, &mut seen);
                let (k, t) = self.machine_literal(
                    diags,
                    ExprKind::IntLit(byte_len),
                    Type::I64,
                    "int",
                    span,
                    decl.declared("length"),
                );
                self.init_field(diags, decl, "length", &t, span, &mut seen);
                self.missing_fields(diags, decl, span, &seen);
                let ghost a = typing::typed(ast::expr_kind_view(plain), TypeM::I64, span);
                let ghost b = typing::typed(ast::expr_kind_view(k), t@, span);
                let mut fields: Vec<(String, Expr)> = Vec::new();
                fields.push(("ptr".to_owned(), typed(plain, Type::I64, span)));
                fields.push(("length".to_owned(), typed(k, t, span)));
                assert(ast::inits_view(fields@) =~= seq![("ptr"@, a), ("length"@, b)]);
                (
                    ExprKind::StructInit {
                        name: StructName::Unqualified("string".to_owned()),
                        fields,
                    },
                    Type::Named("string".to_owned()),
                )
            },
        }
    }

    // --- names, references and fields ---

    fn identifier(&self, diags: &mut Vec<Diagnostic>, name: &str, span: Span) -> (r: Option<Type>)
        ensures
            types::opt_type_view(r) == self@.lookup(name@),
            error::diags_view(final(diags)@) == (if r is None {
                error::diags_view(old(diags)@).push(typing::undeclared(self@, name@, span))
            } else {
                error::diags_view(old(diags)@)
            }),
    {
        match self.lookup(name) {
            Some(t) => Some(t.copy()),
            None => {
                let msg = text::cat3("undeclared variable `", name, "`");
                self.error(diags, span, "E460", msg, "not found");
                None
            },
        }
    }

    fn qualified_name(
        &self,
        diags: &mut Vec<Diagnostic>,
        module: &str,
        name: &str,
        span: Span,
    ) -> (r: Type)
        ensures
            (r@, error::diags_view(final(diags)@)) == typing::qualified_name(
                self@,
                module@,
                name@,
                span,
                error::diags_view(old(diags)@),
            ),
    {
        if env::module_index(&self.env.modules, module).is_none() {
            let msg = text::cat3("unknown module `", module, "`");
            self.error(diags, span, "E463", msg, "unknown module");
            Type::Unknown
        } else if self.env.lookup_module_fn(module, name).is_none() {
            let msg = text::cat5("`", name, "` not found in module `", module, "`");
            self.error(diags, span, "E462", msg, "not found");
            Type::Unknown
        } else {
            Type::Void
        }
    }

    fn dereferenced(&self, diags: &mut Vec<Diagnostic>, ty: &Type, span: Span) -> (r: Option<Type>)
        ensures
            (types::opt_type_view(r), error::diags_view(final(diags)@)) == typing::dereferenced(
                self@,
                ty@,
                span,
                error::diags_view(old(diags)@),
            ),
    {
        match ty.deref_target() {
            Some(t) => Some(t.copy()),
            None => {
                let msg = text::cat3(
                    "cannot dereference non-reference type `",
                    ty.display().as_str(),
                    "`",
                );
                self.error(diags, span, "E461", msg, "not a reference");
                None
            },
        }
    }

    /// Resolve `e.field`'s type, auto-dereferencing references.
    fn field_type(
        &self,
        diags: &mut Vec<Diagnostic>,
        obj_ty: &Type,
        field: &str,
        span: Span,
    ) -> (r: Option<Type>)
        ensures
            (types::opt_type_view(r), error::diags_view(final(diags)@)) == typing::field_type(
                self@,
                obj_ty@,
                field@,
                span,
                error::diags_view(old(diags)@),
            ),
    {
        let name = match self.env.receiver_struct_name(obj_ty) {
            Some(n) => n,
            None => {
                let msg = text::cat3("type `", obj_ty.display().as_str(), "` has no fields");
                self.error(diags, span, "E4A0", msg, "not a struct");
                return None;
            },
        };
        match self.env.struct_of(obj_ty) {
            Some(decl) => match env::first_field(&decl.fields, field) {
                Some(t) => Some(t.copy()),
                None => {
                    let msg = text::cat5("`", name.as_str(), "` has no field `", field, "`");
                    self.error(diags, span, "E4A1", msg, "no such field");
                    None
                },
            },
            None => {
                let msg = text::cat3("unknown struct `", name.as_str(), "`");
                self.error(diags, span, "E4A2", msg, "unknown struct");
                None
            },
        }
    }

    // --- operators ---

    /// Desugar `-a`/`!a` into `a.neg()`/`a.not()`.
    fn desugar_unary_to_method(
        &self,
        diags: &mut Vec<Diagnostic>,
        op: UnaryOp,
        operand: Expr,
        operand_ty: Type,
        span: Span,
    ) -> (r: (ExprKind, Type))
        ensures
            ({
                let out = typing::unary_op(
                    self@,
                    op,
                    typing::Checked {
                        expr: operand@,
                        ty: operand_ty@,
                        diags: error::diags_view(old(diags)@),
                    },
                    span,
                );
                &&& ast::expr_kind_view(r.0) == out.kind
                &&& r.1@ == out.ty
                &&& error::diags_view(final(diags)@) == out.diags
            }),
    {
        proof {
            reveal(typing::unary_op);
        }
        // In raw stdlib contexts, `-`/`!` on i64 stay as machine ops.
        if self.raw && operand_ty.is_machine() {
            return (ExprKind::Unary { op, operand: Box::new(operand) }, operand_ty);
        }
        let method = match op.method_name() {
            Some(m) => m,
            None => {
                self.error(
                    diags,
                    span,
                    "E470",
                    "invalid unary operator".to_owned(),
                    "invalid",
                );
                return (ExprKind::Unary { op, operand: Box::new(operand) }, Type::Unknown);
            },
        };
        let gone = ExprKind::Unary { op, operand: Box::new(dummy_expr(span)) };
        let owner = match self.env.receiver_struct_name(&operand_ty) {
            Some(n) => n,
            None => {
                let msg = text::cat3(
                    "type `",
                    operand_ty.display().as_str(),
                    "` does not support this operator",
                );
                self.error(diags, span, "E471", msg, "no such operator");
                return (gone, Type::Unknown);
            },
        };
        match self.env.method_of(&operand_ty, method) {
            Some(m) => {
                let params = env::param_types(m);
                self.check_arg_count(diags, method, params.len(), 0, span);
                (method_call(operand, method, Vec::new(), span), m.return_type.copy())
            },
            None => {
                self.no_method(diags, owner.as_str(), method, span);
                (gone, Type::Unknown)
            },
        }
    }

    fn no_method(&self, diags: &mut Vec<Diagnostic>, owner: &str, method: &str, span: Span)
        ensures
            error::diags_view(final(diags)@) == error::diags_view(old(diags)@).push(
                typing::no_method(self@, owner@, method@, span),
            ),
    {
        let msg = text::cat5("type `", owner, "` does not implement method `", method, "`");
        self.error(diags, span, "E472", msg, "method not found");
    }

    /// Desugar `a OP b` into `a.method(b_ref)`.
    fn desugar_binary_to_method(
        &self,
        diags: &mut Vec<Diagnostic>,
        op: BinaryOp,
        left: (Expr, Type),
        right: (Expr, Type),
        span: Span,
    ) -> (r: (ExprKind, Type))
        ensures
            ({
                let out = typing::binary_op(
                    self@,
                    op,
                    left.0@,
                    left.1@,
                    typing::Checked {
                        expr: right.0@,
                        ty: right.1@,
                        diags: error::diags_view(old(diags)@),
                    },
                    span,
                );
                &&& ast::expr_kind_view(r.0) == out.kind
                &&& r.1@ == out.ty
                &&& error::diags_view(final(diags)@) == out.diags
            }),
    {
        proof {
            reveal(typing::binary_op);
        }
        let (left, left_ty) = left;
        let (right, right_ty) = right;
        if self.raw && left_ty.is_machine() {
            // Raw machine arithmetic stays as it is; the result type matches
            // the left operand (i64 or f64).
            return (
                ExprKind::Binary { op, left: Box::new(left), right: Box::new(right) },
                left_ty,
            );
        }
        let method = op.method_name();
        let gone = ExprKind::Binary {
            op,
            left: Box::new(dummy_expr(span)),
            right: Box::new(dummy_expr(span)),
        };
        let owner = match self.env.receiver_struct_name(&left_ty) {
            Some(n) => n,
            None => {
                let msg = text::cat5(
                    "type `",
                    left_ty.display().as_str(),
                    "` does not support operator `",
                    method,
                    "`",
                );
                self.error(diags, span, "E471", msg, "no such operator");
                return (gone, Type::Unknown);
            },
        };
        match self.env.method_of(&left_ty, method) {
            Some(m) => {
                // Normalise the right operand into a reference.
                let (arg, arg_ty) = normalize_arg_ref(right, right_ty, span);
                // Check the argument against the method's first (non-self)
                // parameter.
                let params = env::param_types(m);
                self.check_arg_count(diags, method, params.len(), 1, span);
                if params.len() > 0 && !self.env.types_compatible(&params[0], &arg_ty) {
                    let msg = text::cat3(
                        text::cat5(
                            "operator argument mismatch: method `",
                            method,
                            "` expects `",
                            params[0].display().as_str(),
                            "`, found `",
                        ).as_str(),
                        arg_ty.display().as_str(),
                        "`",
                    );
                    self.error(diags, span, "E473", msg, "type mismatch");
                }
                let mut args: Vec<Expr> = Vec::new();
                let ghost a = arg@;
                args.push(arg);
                assert(ast::exprs_view(args@) =~= seq![a]);
                (method_call(left, method, args, span), m.return_type.copy())
            },
            None => {
                self.no_method(diags, owner.as_str(), method, span);
                (gone, Type::Unknown)
            },
        }
    }

    // --- casts ---

    /// Desugar `e -> T` into `e.to_T()`.
    fn desugar_cast_to_method(
        &self,
        diags: &mut Vec<Diagnostic>,
        inner: Expr,
        src_ty: Type,
        target: &Type,
        span: Span,
    ) -> (r: CastOut)
        ensures
            ({
                let out = typing::cast_op(
                    self@,
                    typing::Checked {
                        expr: inner@,
                        ty: src_ty@,
                        diags: error::diags_view(old(diags)@),
                    },
                    target@,
                    span,
                );
                match r {
                    CastOut::Done(kind, ty) => {
                        &&& out is Done
                        &&& out->Done_0.kind == ast::expr_kind_view(kind)
                        &&& out->Done_0.ty == ty@
                        &&& out->Done_0.diags == error::diags_view(final(diags)@)
                    },
                    CastOut::Box(e, name, field) => {
                        &&& out == CastM::Box(name@, field@)
                        &&& e == inner
                        &&& error::diags_view(final(diags)@) == error::diags_view(old(diags)@)
                    },
                }
            }),
    {
        proof {
            reveal(typing::cast_op);
        }
        let gone = ExprKind::Cast { expr: Box::new(dummy_expr(span)), target_type: target.copy() };
        match target {
            Type::Named(n) => {
                let name = StructName::Unqualified(n.clone());
                self.cast_to_struct(diags, inner, src_ty, name, gone, span)
            },
            Type::Qualified(m, n) => {
                let name = StructName::Qualified(m.clone(), n.clone());
                self.cast_to_struct(diags, inner, src_ty, name, gone, span)
            },
            _ => {
                if matches!(target, Type::I64 | Type::F64) {
                    if self.raw && self.env.types_compatible(target, &src_ty) {
                        return CastOut::Done(inner.kind, target.copy());
                    }
                    if let Some(f) = self.env.single_field_wrapper(&src_ty) {
                        if f.ty.same(target) {
                            let field = f.name.clone();
                            return CastOut::Done(
                                ExprKind::Field { object: Box::new(inner), field },
                                target.copy(),
                            );
                        }
                    }
                }
                let msg = text::cat3("invalid cast target `", target.display().as_str(), "`");
                self.error(diags, span, "E481", msg, "invalid cast target");
                CastOut::Done(gone, Type::Unknown)
            },
        }
    }

    /// Does the method take `&self` alone and return the target type?
    fn is_cast_method(&self, m: &Sig, target: &StructName) -> (r: bool)
        ensures
            r == typing::is_cast_method(self@.env, m@, typing::struct_type(target@)),
    {
        m.params.len() == 1 && matches!(m.params[0].kind, ParamKind::SelfRef)
            && self.env.types_compatible(&struct_type(target), &m.return_type)
    }

    fn cast_to_struct(
        &self,
        diags: &mut Vec<Diagnostic>,
        inner: Expr,
        src_ty: Type,
        target: StructName,
        gone: ExprKind,
        span: Span,
    ) -> (r: CastOut)
        ensures
            ({
                let out = typing::struct_cast(
                    self@,
                    typing::Checked {
                        expr: inner@,
                        ty: src_ty@,
                        diags: error::diags_view(old(diags)@),
                    },
                    target@,
                    ast::expr_kind_view(gone),
                    span,
                );
                match r {
                    CastOut::Done(kind, ty) => {
                        &&& out is Done
                        &&& out->Done_0.kind == ast::expr_kind_view(kind)
                        &&& out->Done_0.ty == ty@
                        &&& out->Done_0.diags == error::diags_view(final(diags)@)
                    },
                    CastOut::Box(e, name, field) => {
                        &&& out == CastM::Box(name@, field@)
                        &&& e == inner
                        &&& error::diags_view(final(diags)@) == error::diags_view(old(diags)@)
                    },
                }
            }),
    {
        // Boxing cast: a raw machine value (`i64`/`f64`/`null`) cast to a stdlib
        // wrapper struct whose single field has that machine type. There is no
        // `to_T` method on a primitive, so we wrap directly (like `T::new(v)`).
        // This is the natural inverse of reading a struct's machine field.
        if src_ty.is_machine() {
            if let Some(decl) = self.env.init_target(&target) {
                if decl.fields.len() == 1 && decl.fields[0].ty.same(&src_ty) {
                    let field = decl.fields[0].name.clone();
                    return CastOut::Box(inner, target, field);
                }
            }
            let msg = text::cat5(
                "cannot cast from `",
                src_ty.display().as_str(),
                "` to `",
                target.base(),
                "`",
            );
            self.error(diags, span, "E480", msg, "invalid cast");
            return CastOut::Done(gone, Type::Unknown);
        }
        let method = text::cat2("to_", target.base());
        let owner = match self.env.receiver_struct_name(&src_ty) {
            Some(n) => n,
            None => {
                let msg = text::cat3("cannot cast from `", src_ty.display().as_str(), "`");
                self.error(diags, span, "E480", msg, "invalid cast");
                return CastOut::Done(gone, Type::Unknown);
            },
        };
        match self.env.method_of(&src_ty, method.as_str()) {
            Some(m) if self.is_cast_method(m, &target) => CastOut::Done(
                method_call(inner, method.as_str(), Vec::new(), span),
                m.return_type.copy(),
            ),
            _ => {
                let msg = text::cat7(
                    "type `",
                    owner.as_str(),
                    "` cannot be cast to `",
                    target.base(),
                    "` (no method `",
                    method.as_str(),
                    "`)",
                );
                self.error(diags, span, "E482", msg, "no cast method");
                CastOut::Done(gone, Type::Unknown)
            },
        }
    }
}

impl<'c> Place<'c> {
    // --- calls ---

    /// The method that is called on a value of the type `recv_ty`.
    fn method_callee(
        &self,
        diags: &mut Vec<Diagnostic>,
        recv_ty: &Type,
        field: &str,
        span: Span,
    ) -> (r: Callee)
        ensures
            !(r is Unknown),
            callee_is(
                r,
                typing::method_callee(self@, recv_ty@, field@, span),
                error::diags_view(old(diags)@),
                error::diags_view(final(diags)@),
            ),
    {
        proof {
            reveal(typing::method_callee);
        }
        if let Some(m) = self.env.method_of(recv_ty, field) {
            return Callee::Known(env::param_types(m), m.name.clone(), m.return_type.copy());
        }
        // Not a method: field-as-callable isn't supported.
        let msg = text::cat5(
            "`",
            field,
            "` is not a method of `",
            recv_ty.display().as_str(),
            "`",
        );
        self.error(diags, span, "E490", msg, "no such method");
        Callee::Bad
    }

    /// The function that is called where the callee is not a field.
    fn plain_callee(&self, diags: &mut Vec<Diagnostic>, callee: &ExprKind, span: Span) -> (r:
        Callee)
        ensures
            callee_is(
                r,
                typing::plain_callee(self@, ast::expr_kind_view(*callee), span),
                error::diags_view(old(diags)@),
                error::diags_view(final(diags)@),
            ),
    {
        proof {
            reveal(typing::plain_callee);
        }
        match callee {
            ExprKind::Ident(name) => match self.env.lookup_fn(name.as_str()) {
                Some(f) => Callee::Known(
                    env::param_types(f),
                    f.name.clone(),
                    f.return_type.copy(),
                ),
                None => Callee::Unknown(name.clone()),
            },
            ExprKind::QualifiedIdent { module, name } => {
                let full = text::cat3(module.as_str(), "::", name.as_str());
                // Associated (static) method call: `StructName::method(args)`
                // where the method has no `self` parameter. The qualifier names
                // a struct, not a module.
                if let Some(m) = self.env.find_method(module.as_str(), name.as_str()) {
                    if !env::method_has_self(m) {
                        return Callee::Known(env::param_types(m), full, m.return_type.copy());
                    }
                }
                match self.env.lookup_module_fn(module.as_str(), name.as_str()) {
                    Some(f) => Callee::Known(
                        env::param_types(f),
                        f.name.clone(),
                        f.return_type.copy(),
                    ),
                    None => Callee::Unknown(full),
                }
            },
            _ => {
                self.error(
                    diags,
                    span,
                    "E491",
                    "expression is not callable".to_owned(),
                    "not callable",
                );
                Callee::Bad
            },
        }
    }

    fn check_arg_count(
        &self,
        diags: &mut Vec<Diagnostic>,
        fn_name: &str,
        expected: usize,
        found: usize,
        span: Span,
    )
        ensures
            error::diags_view(final(diags)@) == typing::arg_count_diags(
                self@,
                fn_name@,
                expected as nat,
                found as nat,
                span,
                error::diags_view(old(diags)@),
            ),
    {
        if expected != found {
            let msg = text::cat2(
                text::cat5(
                    "wrong number of arguments to `",
                    fn_name,
                    "`: expected ",
                    text::decimal_text(expected).as_str(),
                    ", found ",
                ).as_str(),
                text::decimal_text(found).as_str(),
            );
            self.error(diags, span, "E493", msg, "argument count mismatch");
        }
    }

    fn check_arg(
        &self,
        diags: &mut Vec<Diagnostic>,
        fn_name: &str,
        params: &Vec<Type>,
        i: usize,
        ty: &Type,
        span: Span,
    )
        requires
            i < usize::MAX,
        ensures
            error::diags_view(final(diags)@) == typing::arg_diags(
                self@,
                fn_name@,
                env::types_view(params@),
                i as nat,
                ty@,
                span,
                error::diags_view(old(diags)@),
            ),
    {
        if i < params.len() && !matches!(ty, Type::Unknown) && !self.env.types_compatible(
            &params[i],
            ty,
        ) {
            let msg = text::cat5(
                text::cat5(
                    "argument ",
                    text::decimal_text(i + 1).as_str(),
                    " to `",
                    fn_name,
                    "`: expected `",
                ).as_str(),
                params[i].display().as_str(),
                "`, found `",
                ty.display().as_str(),
                "`",
            );
            self.error(diags, span, "E494", msg, "type mismatch");
        }
    }

    // --- the rules ---

    /// Check `expr`, rewriting it (literal/operator/cast desugaring) and setting
    /// its type. Returns the new expression and its type.
    ///
    /// `hint` is the expected type, used solely to keep a bare literal raw when
    /// an explicit machine type (`i64`/`f64`) is expected.
    fn check_expr(
        &self,
        diags: &mut Vec<Diagnostic>,
        e: &Expr,
        hint: Option<&Type>,
    ) -> (r: (Expr, Type))
        ensures
            ({
                let out = typing::check_expr(
                    self@,
                    e@,
                    hint_view(hint),
                    error::diags_view(old(diags)@),
                );
                &&& r.0@ == out.expr
                &&& r.1@ == out.ty
                &&& error::diags_view(final(diags)@) == out.diags
            }),
        decreases typing::casts(e@), e, 2nat,
    {
        proof {
            reveal(typing::check_expr);
            reveal(typing::check_kind);
        }
        let (kind, ty) = self.check_expr_inner(diags, e, hint);
        let shown = ty.copy();
        (typed(kind, ty, e.span), shown)
    }

    #[verifier::rlimit(60)]
    #[verifier::spinoff_prover]
    fn check_expr_inner(
        &self,
        diags: &mut Vec<Diagnostic>,
        e: &Expr,
        hint: Option<&Type>,
    ) -> (r: (ExprKind, Type))
        ensures
            ({
                let out = typing::check_kind(
                    self@,
                    e@,
                    hint_view(hint),
                    error::diags_view(old(diags)@),
                );
                &&& ast::expr_kind_view(r.0) == out.kind
                &&& r.1@ == out.ty
                &&& error::diags_view(final(diags)@) == out.diags
            }),
        decreases typing::casts(e@), e, 1nat,
    {
        proof {
            reveal(typing::check_kind);
            reveal(typing::check_expr);
        }
        let span = e.span;
        match &e.kind {
            ExprKind::IntLit(n) => self.machine_literal(
                diags,
                ExprKind::IntLit(*n),
                Type::I64,
                "int",
                span,
                hint,
            ),
            ExprKind::FloatLit(f) => self.machine_literal(
                diags,
                ExprKind::FloatLit(f.clone()),
                Type::F64,
                "float",
                span,
                hint,
            ),
            ExprKind::CharLit(cp) => self.coded_literal(
                diags,
                ExprKind::CharLit(*cp),
                *cp as i64,
                "char",
                span,
            ),
            ExprKind::BoolLit(b) => {
                let v: i64 = if *b {
                    1
                } else {
                    0
                };
                self.coded_literal(diags, ExprKind::BoolLit(*b), v, "bool", span)
            },
            ExprKind::StringLit(s) => self.string_literal(diags, s, span, hint),
            ExprKind::Ident(name) => {
                let ty = self.identifier(diags, name.as_str(), span);
                (ExprKind::Ident(name.clone()), or_unknown(ty))
            },
            ExprKind::QualifiedIdent { module, name } => {
                let ty = self.qualified_name(diags, module.as_str(), name.as_str(), span);
                (ExprKind::QualifiedIdent { module: module.clone(), name: name.clone() }, ty)
            },
            ExprKind::Ref { mutable, operand } => {
                let (c, ty) = self.check_expr(diags, operand, None);
                let kind = ExprKind::Ref { mutable: *mutable, operand: Box::new(c) };
                if *mutable {
                    (kind, Type::MutRef(Box::new(ty.settled())))
                } else {
                    (kind, Type::Ref(Box::new(ty.settled())))
                }
            },
            ExprKind::Deref { operand } => {
                let (c, ty) = self.check_expr(diags, operand, None);
                let inner = self.dereferenced(diags, &ty, span);
                (ExprKind::Deref { operand: Box::new(c) }, or_unknown(inner))
            },
            ExprKind::Unary { op, operand } => {
                let (c, ty) = self.check_expr(diags, operand, None);
                self.desugar_unary_to_method(diags, *op, c, ty, span)
            },
            ExprKind::Binary { op, left, right } => {
                let l = self.check_expr(diags, left, None);
                let r = self.check_expr(diags, right, None);
                self.desugar_binary_to_method(diags, *op, l, r, span)
            },
            ExprKind::Cast { expr: inner, target_type } => {
                let ghost d0 = error::diags_view(diags@);
                let (c, ty) = self.check_expr(diags, inner, None);
                match self.desugar_cast_to_method(diags, c, ty, target_type, span) {
                    CastOut::Done(kind, ty) => (kind, ty),
                    CastOut::Box(c, name, field) => {
                        proof {
                            soundness::check_expr_facts(self@, inner@, None, d0);
                            soundness::one_init((field@, c@), self@.raw);
                            reveal(typing::check_init);
                        }
                        let ghost boxed = (field@, c@);
                        let mut fields: Vec<(String, Expr)> = Vec::new();
                        fields.push((field, c));
                        assert(ast::inits_view(fields@) =~= seq![boxed]);
                        // The wrapped field is already a raw machine value;
                        // checking the initializer validates and annotates it.
                        self.check_init(diags, &name, &fields, span)
                    },
                }
            },
            ExprKind::Call { .. } => {
                proof {
                    reveal(typing::check_call);
                }
                self.check_call(diags, e)
            },
            ExprKind::Field { object, field } => {
                let (c, ty) = self.check_expr(diags, object, None);
                let fty = self.field_type(diags, &ty, field.as_str(), span);
                (ExprKind::Field { object: Box::new(c), field: field.clone() }, or_unknown(fty))
            },
            ExprKind::StructInit { name, fields } => {
                proof {
                    reveal(typing::check_init);
                }
                self.check_init(diags, name, fields, span)
            },
        }
    }

    #[verifier::rlimit(60)]
    #[verifier::spinoff_prover]
    fn check_call(&self, diags: &mut Vec<Diagnostic>, e: &Expr) -> (r: (ExprKind, Type))
        requires
            e.kind is Call,
        ensures
            ({
                let out = typing::check_call(self@, e@, error::diags_view(old(diags)@));
                &&& ast::expr_kind_view(r.0) == out.kind
                &&& r.1@ == out.ty
                &&& error::diags_view(final(diags)@) == out.diags
            }),
        decreases typing::casts(e@), e, 0nat,
    {
        proof {
            reveal(typing::check_call);
            reveal(typing::check_expr);
            reveal(typing::check_args);
        }
        let span = e.span;
        match &e.kind {
            ExprKind::Call { callee, args } => {
                proof {
                    assert(decreases_to!(e => **callee));
                    assert(decreases_to!(e => args@));
                }
                match &callee.kind {
                    // Method call: receiver.method(args).
                    ExprKind::Field { object, field } => {
                        proof {
                            assert(typing::casts(callee@) == typing::casts(object@));
                        }
                        let (c, ty) = self.check_expr(diags, object, None);
                        let called = self.method_callee(diags, &ty, field.as_str(), span);
                        let kind = ExprKind::Field { object: Box::new(c), field: field.clone() };
                        let target = typed(kind, Type::Void, callee.span);
                        match called {
                            Callee::Known(params, name, ret) => {
                                self.check_arg_count(
                                    diags,
                                    name.as_str(),
                                    params.len(),
                                    args.len(),
                                    span,
                                );
                                let done = self.check_args(diags, name.as_str(), &params, args);
                                (ExprKind::Call { callee: Box::new(target), args: done }, ret)
                            },
                            _ => (
                                ExprKind::Call {
                                    callee: Box::new(target),
                                    args: ast::copy_exprs(args),
                                },
                                Type::Unknown,
                            ),
                        }
                    },
                    // Free function or associated method.
                    _ => match self.plain_callee(diags, &callee.kind, span) {
                        Callee::Known(params, name, ret) => {
                            self.check_arg_count(
                                diags,
                                name.as_str(),
                                params.len(),
                                args.len(),
                                span,
                            );
                            let done = self.check_args(diags, name.as_str(), &params, args);
                            let target = typed(callee.kind.copy(), Type::Void, callee.span);
                            (ExprKind::Call { callee: Box::new(target), args: done }, ret)
                        },
                        Callee::Unknown(name) => {
                            let msg = text::cat3("undeclared function `", name.as_str(), "`");
                            self.error(diags, span, "E492", msg, "not found");
                            // still check args to surface their errors
                            let none: Vec<Type> = Vec::new();
                            assert(env::types_view(none@) =~= Seq::empty());
                            let done = self.check_args(diags, name.as_str(), &none, args);
                            (
                                ExprKind::Call { callee: Box::new(callee.copy()), args: done },
                                Type::Unknown,
                            )
                        },
                        Callee::Bad => (
                            ExprKind::Call {
                                callee: Box::new(callee.copy()),
                                args: ast::copy_exprs(args),
                            },
                            Type::Unknown,
                        ),
                    },
                }
            },
            _ => (e.kind.copy(), Type::Void),
        }
    }

    fn check_args(
        &self,
        diags: &mut Vec<Diagnostic>,
        fn_name: &str,
        params: &Vec<Type>,
        args: &Vec<Expr>,
    ) -> (r: Vec<Expr>)
        ensures
            (ast::exprs_view(r@), error::diags_view(final(diags)@)) == typing::check_args(
                self@,
                fn_name@,
                env::types_view(params@),
                ast::exprs_view(args@),
                Seq::empty(),
                error::diags_view(old(diags)@),
            ),
        decreases typing::all_casts(ast::exprs_view(args@)), args@, args@.len(),
    {
        let ghost all = ast::exprs_view(args@);
        let ghost ps = env::types_view(params@);
        let ghost out = typing::check_args(
            self@,
            fn_name@,
            ps,
            all,
            Seq::empty(),
            error::diags_view(diags@),
        );
        let mut done: Vec<Expr> = Vec::new();
        assert(ast::exprs_view(done@) =~= Seq::empty());
        let mut i: usize = 0;
        while i < args.len()
            invariant
                i <= args.len(),
                i == done@.len(),
                all == ast::exprs_view(args@),
                ps == env::types_view(params@),
                out == typing::check_args(
                    self@,
                    fn_name@,
                    ps,
                    all,
                    ast::exprs_view(done@),
                    error::diags_view(diags@),
                ),
            decreases args@.len() - i,
        {
            proof {
                reveal(typing::check_args);
                reveal(typing::check_expr);
                typing::casts_at(all, i as int);
                assert(decreases_to!(args@ => args@[i as int]));
            }
            let hint = if i < params.len() {
                Some(&params[i])
            } else {
                None
            };
            let ghost before = done@;
            let (c, ty) = self.check_expr(diags, &args[i], hint);
            self.check_arg(diags, fn_name, params, i, &ty, args[i].span);
            let ghost cm = c@;
            done.push(c);
            assert(ast::exprs_view(done@) =~= ast::exprs_view(before).push(cm));
            i = i + 1;
        }
        proof {
            reveal(typing::check_args);
        }
        done
    }

    /// Check (and annotate) a struct initializer.
    fn check_init(
        &self,
        diags: &mut Vec<Diagnostic>,
        name: &StructName,
        fields: &Vec<(String, Expr)>,
        span: Span,
    ) -> (r: (ExprKind, Type))
        ensures
            ({
                let out = typing::check_init(
                    self@,
                    name@,
                    ast::inits_view(fields@),
                    span,
                    error::diags_view(old(diags)@),
                );
                &&& ast::expr_kind_view(r.0) == out.kind
                &&& r.1@ == out.ty
                &&& error::diags_view(final(diags)@) == out.diags
            }),
        decreases typing::init_casts(ast::inits_view(fields@)), fields@, fields@.len() + 1,
    {
        proof {
            reveal(typing::check_init);
            reveal(typing::check_inits);
        }
        match self.env.init_target(name) {
            Some(decl) => {
                let (done, seen) = self.check_inits(diags, Some(decl), fields);
                self.missing_fields(diags, decl, span, &seen);
                (
                    ExprKind::StructInit { name: name.copy(), fields: done },
                    struct_type(name),
                )
            },
            None => {
                let msg = text::cat3("unknown struct `", name.base(), "`");
                self.error(diags, span, "E495", msg, "unknown struct");
                // still check field exprs
                let (done, seen) = self.check_inits(diags, None, fields);
                (
                    ExprKind::StructInit { name: name.copy(), fields: done },
                    struct_type(name),
                )
            },
        }
    }

    fn check_inits(
        &self,
        diags: &mut Vec<Diagnostic>,
        decl: Option<&StructInfo>,
        fields: &Vec<(String, Expr)>,
    ) -> (r: (Vec<(String, Expr)>, Vec<String>))
        ensures
            (ast::inits_view(r.0@), strings_view(r.1@), error::diags_view(final(diags)@))
                == typing::check_inits(
                self@,
                info_view(decl),
                ast::inits_view(fields@),
                Seq::empty(),
                Seq::empty(),
                error::diags_view(old(diags)@),
            ),
        decreases typing::init_casts(ast::inits_view(fields@)), fields@, fields@.len(),
    {
        let ghost all = ast::inits_view(fields@);
        let ghost out = typing::check_inits(
            self@,
            info_view(decl),
            all,
            Seq::empty(),
            Seq::empty(),
            error::diags_view(diags@),
        );
        let mut done: Vec<(String, Expr)> = Vec::new();
        let mut seen: Vec<String> = Vec::new();
        assert(ast::inits_view(done@) =~= Seq::empty());
        assert(strings_view(seen@) =~= Seq::empty());
        let mut i: usize = 0;
        while i < fields.len()
            invariant
                i <= fields.len(),
                i == done@.len(),
                all == ast::inits_view(fields@),
                out == typing::check_inits(
                    self@,
                    info_view(decl),
                    all,
                    ast::inits_view(done@),
                    strings_view(seen@),
                    error::diags_view(diags@),
                ),
            decreases fields@.len() - i,
        {
            proof {
                reveal(typing::check_inits);
                reveal(typing::check_expr);
                typing::init_casts_at(all, i as int);
                assert(decreases_to!(fields@ => fields@[i as int]));
                assert(decreases_to!(fields@[i as int] => fields@[i as int].1));
            }
            let name = &fields[i].0;
            let hint = match decl {
                Some(d) => d.declared(name.as_str()),
                None => None,
            };
            let ghost before = done@;
            let (c, ty) = self.check_expr(diags, &fields[i].1, hint);
            if let Some(d) = decl {
                self.init_field(diags, d, name.as_str(), &ty, fields[i].1.span, &mut seen);
            }
            let ghost cm = (name@, c@);
            done.push((name.clone(), c));
            assert(ast::inits_view(done@) =~= ast::inits_view(before).push(cm));
            i = i + 1;
        }
        proof {
            reveal(typing::check_inits);
        }
        (done, seen)
    }
}

spec fn info_view(d: Option<&StructInfo>) -> Option<typing::StructInfoM> {
    match d {
        Some(s) => Some(s@),
        None => None,
    }
}

/// What is called is what the rules say; a diagnostic is reported where nothing
/// can be called.
spec fn callee_is(
    r: Callee,
    m: CalleeM,
    before: Seq<error::DiagM>,
    after: Seq<error::DiagM>,
) -> bool {
    match r {
        Callee::Known(params, name, ty) => {
            &&& m == CalleeM::Known {
                params: env::types_view(params@),
                shown: name@,
                ty: ty@,
            }
            &&& after == before
        },
        Callee::Unknown(name) => m == CalleeM::Unknown(name@) && after == before,
        Callee::Bad => m is Bad && after == before.push(m->Bad_0),
    }
}

fn or_unknown(t: Option<Type>) -> (r: Type)
    ensures
        r@ == typing::or_unknown(types::opt_type_view(t)),
{
    match t {
        Some(t) => t,
        None => Type::Unknown,
    }
}

/// The type of an initializer that names that struct.
fn struct_type(name: &StructName) -> (r: Type)
    ensures
        r@ == typing::struct_type(name@),
{
    match name {
        StructName::Unqualified(n) => Type::Named(n.clone()),
        StructName::Qualified(m, n) => Type::Qualified(m.clone(), n.clone()),
    }
}

/// Does what a value of the type leads to lie behind a shared reference?
fn through_shared(ty: &Type) -> (r: bool)
    ensures
        r == typing::through_shared(ty@),
    decreases ty,
{
    match ty {
        Type::Ref(_) => true,
        Type::MutRef(inner) => through_shared(inner),
        _ => false,
    }
}

/// Does a field of the checked expression lie behind a shared reference?
fn field_is_shared(e: &Expr) -> (r: bool)
    ensures
        r == typing::field_is_shared(e@),
    decreases e,
{
    if let Some(t) = &e.ty {
        if t.is_ref() {
            return through_shared(t);
        }
    }
    match &e.kind {
        ExprKind::Field { object, .. } => field_is_shared(object),
        ExprKind::Deref { operand } => refers_shared(operand),
        _ => false,
    }
}

fn refers_shared(e: &Expr) -> (r: bool)
    ensures
        r == typing::refers_shared(e@),
{
    match &e.ty {
        Some(Type::Ref(_)) => true,
        _ => false,
    }
}

/// A call of the method on the object.
fn method_call(object: Expr, method: &str, args: Vec<Expr>, span: Span) -> (r: ExprKind)
    ensures
        ast::expr_kind_view(r) == typing::method_call(
            object@,
            method@,
            ast::exprs_view(args@),
            span,
        ),
        args@.len() == 0 ==> ast::exprs_view(args@) == Seq::<ast::ExprM>::empty(),
{
    proof {
        if args@.len() == 0 {
            assert(ast::exprs_view(args@) =~= Seq::empty());
        }
    }
    let callee = typed(
        ExprKind::Field { object: Box::new(object), field: method.to_owned() },
        Type::Void,
        span,
    );
    ExprKind::Call { callee: Box::new(callee), args }
}

/// Wrap `arg` of the type `arg_ty` into a reference according to:
/// T gives &arg, &T gives arg, &&T gives *arg.
fn normalize_arg_ref(arg: Expr, arg_ty: Type, span: Span) -> (r: (Expr, Type))
    ensures
        r.0@ == typing::as_reference(arg@, arg_ty@, span),
        r.1@ == typing::reference_type(arg_ty@),
{
    match arg_ty.deref_target() {
        Some(inner) => {
            if inner.is_ref() {
                let ty = inner.copy();
                let shown = ty.copy();
                (typed(ExprKind::Deref { operand: Box::new(arg) }, ty, span), shown)
            } else {
                (arg, arg_ty)
            }
        },
        None => {
            let ty = Type::Ref(Box::new(arg_ty.settled()));
            let shown = ty.copy();
            (typed(ExprKind::Ref { mutable: false, operand: Box::new(arg) }, ty, span), shown)
        },
    }
}

// ---------------------------------------------------------------------------
// Statements
// ---------------------------------------------------------------------------

impl<'c> Place<'c> {
    fn mismatch(
        &self,
        diags: &mut Vec<Diagnostic>,
        expected: &Type,
        found: &Type,
        span: Span,
        code: &str,
        what: &str,
    )
        ensures
            error::diags_view(final(diags)@) == typing::mismatch(
                self@,
                expected@,
                found@,
                span,
                code@,
                what@,
                error::diags_view(old(diags)@),
            ),
    {
        if !matches!(found, Type::Unknown) && !self.env.types_compatible(expected, found) {
            let msg = text::cat2(
                text::cat5(
                    what,
                    ": expected `",
                    expected.display().as_str(),
                    "`, found `",
                    found.display().as_str(),
                ).as_str(),
                "`",
            );
            self.error(diags, span, code, msg, "type mismatch");
        }
    }

    /// The `if`/`while` condition type must be the stdlib `bool` struct.
    fn expect_bool(&self, diags: &mut Vec<Diagnostic>, ty: &Type, span: Span)
        ensures
            error::diags_view(final(diags)@) == typing::bool_diags(
                self@,
                ty@,
                span,
                error::diags_view(old(diags)@),
            ),
    {
        let ok = match ty {
            Type::Named(n) => text::text_eq(n.as_str(), "bool"),
            _ => false,
        };
        if !ok {
            let msg = text::cat3(
                "condition must be of type `bool`, found `",
                ty.display().as_str(),
                "`",
            );
            self.error(diags, span, "E4B0", msg, "expected bool");
        }
    }

    fn check_asm_name(&self, diags: &mut Vec<Diagnostic>, name: &str, span: Span)
        ensures
            error::diags_view(final(diags)@) == typing::asm_token_diags(
                self@,
                ast::AsmTokenM::Value(name@),
                span,
                error::diags_view(old(diags)@),
            ),
    {
        if self.lookup(name).is_none() {
            let msg = text::cat3("unknown variable `", name, "` in inline assembly");
            self.error(diags, span, "E450", msg, "not in scope");
        }
    }

    fn check_asm_line(&self, diags: &mut Vec<Diagnostic>, line: &AsmLine, span: Span)
        ensures
            error::diags_view(final(diags)@) == typing::asm_line_diags(
                self@,
                ast::asm_tokens_view(line.tokens@),
                line.tokens@.len() as int,
                span,
                error::diags_view(old(diags)@),
            ),
    {
        let ghost v = ast::asm_tokens_view(line.tokens@);
        let ghost d0 = error::diags_view(diags@);
        let mut i: usize = 0;
        while i < line.tokens.len()
            invariant
                i <= line.tokens@.len(),
                v == ast::asm_tokens_view(line.tokens@),
                error::diags_view(diags@) == typing::asm_line_diags(self@, v, i as int, span, d0),
            decreases line.tokens@.len() - i,
        {
            match &line.tokens[i] {
                AsmToken::Value(name) => self.check_asm_name(diags, name.as_str(), span),
                AsmToken::Addr(name) => self.check_asm_name(diags, name.as_str(), span),
                AsmToken::Raw(_) => {},
            }
            i = i + 1;
        }
    }

    fn check_asm(&self, diags: &mut Vec<Diagnostic>, block: &AsmStmt)
        ensures
            error::diags_view(final(diags)@) == typing::asm_diags(
                self@,
                ast::asm_lines_view(block.lines@),
                block.lines@.len() as int,
                block.span,
                error::diags_view(old(diags)@),
            ),
    {
        let ghost v = ast::asm_lines_view(block.lines@);
        let ghost d0 = error::diags_view(diags@);
        let mut i: usize = 0;
        while i < block.lines.len()
            invariant
                i <= block.lines@.len(),
                v == ast::asm_lines_view(block.lines@),
                error::diags_view(diags@) == typing::asm_diags(self@, v, i as int, block.span, d0),
            decreases block.lines@.len() - i,
        {
            self.check_asm_line(diags, &block.lines[i], block.span);
            i = i + 1;
        }
    }

    fn check_shared(
        &self,
        diags: &mut Vec<Diagnostic>,
        shared: bool,
        ty: &Option<Type>,
        span: Span,
    )
        ensures
            error::diags_view(final(diags)@) == typing::shared_diags(
                self@,
                shared,
                types::opt_type_view(*ty),
                span,
                error::diags_view(old(diags)@),
            ),
    {
        if shared && ty.is_some() {
            self.error(
                diags,
                span,
                "E422",
                "cannot assign through an immutable reference".to_owned(),
                "immutable reference",
            );
        }
    }

    fn check_lvalue(&self, diags: &mut Vec<Diagnostic>, lv: &LValue) -> (r: (
        LValue,
        Option<Type>,
    ))
        ensures
            (r.0@, types::opt_type_view(r.1), error::diags_view(final(diags)@))
                == typing::check_lvalue(self@, lv@, error::diags_view(old(diags)@)),
    {
        proof {
            reveal(typing::check_lvalue);
        }
        match lv {
            LValue::Ident(name, span) => {
                let ty = self.identifier(diags, name.as_str(), *span);
                (LValue::Ident(name.clone(), *span), ty)
            },
            LValue::Deref(e, span) => {
                let (c, ty) = self.check_expr(diags, e, None);
                let inner = self.dereferenced(diags, &ty, e.span);
                self.check_shared(diags, refers_shared(&c), &inner, *span);
                (LValue::Deref(Box::new(c), *span), inner)
            },
            LValue::Field(obj, field, span) => {
                let (c, ty) = self.check_expr(diags, obj, None);
                let fty = self.field_type(diags, &ty, field.as_str(), *span);
                self.check_shared(diags, field_is_shared(&c), &fty, *span);
                (LValue::Field(Box::new(c), field.clone(), *span), fty)
            },
        }
    }

    /// Checks a `let`; returns the statement and the type of the variable.
    fn check_let(&self, diags: &mut Vec<Diagnostic>, l: &LetStmt) -> (r: (LetStmt, Type))
        ensures
            ({
                let out = typing::check_let(
                    self@,
                    l.name@,
                    types::opt_type_view(l.ty),
                    l.init@,
                    l.span,
                    error::diags_view(old(diags)@),
                );
                &&& ast::stmt_view(Stmt::Let(r.0)) == out.stmt
                &&& out.vars == self@.vars.push((l.name@, r.1@))
                &&& error::diags_view(final(diags)@) == out.diags
            }),
    {
        proof {
            reveal(typing::check_let);
        }
        if self.env.type_name_exists(l.name.as_str()) {
            let msg = text::cat3(
                "let binding `",
                l.name.as_str(),
                "` conflicts with a type name",
            );
            self.error(diags, l.span, "E411", msg, "name already used by a type");
        }
        // Explicit machine-type annotation suppresses literal desugaring for
        // the initializer's top-level literal.
        let hint = match &l.ty {
            Some(t) => Some(t),
            None => None,
        };
        let (init, ty) = self.check_expr(diags, &l.init, hint);
        match &l.ty {
            Some(declared) => {
                self.mismatch(
                    diags,
                    declared,
                    &ty,
                    l.span,
                    "E420",
                    "type mismatch in let binding",
                );
                let stmt = LetStmt {
                    name: l.name.clone(),
                    ty: Some(declared.copy()),
                    init,
                    span: l.span,
                };
                (stmt, declared.copy())
            },
            None => (LetStmt { name: l.name.clone(), ty: None, init, span: l.span }, ty),
        }
    }

    fn check_assign(&self, diags: &mut Vec<Diagnostic>, a: &AssignStmt) -> (r: AssignStmt)
        ensures
            ({
                let out = typing::check_assign(
                    self@,
                    a.target@,
                    a.value@,
                    a.span,
                    error::diags_view(old(diags)@),
                );
                &&& ast::stmt_view(Stmt::Assign(r)) == out.stmt
                &&& out.vars == self@.vars
                &&& error::diags_view(final(diags)@) == out.diags
            }),
    {
        proof {
            reveal(typing::check_assign);
        }
        let (target, target_ty) = self.check_lvalue(diags, &a.target);
        let hint = match &target_ty {
            Some(t) => Some(t),
            None => None,
        };
        let (value, value_ty) = self.check_expr(diags, &a.value, hint);
        if let Some(tt) = &target_ty {
            self.mismatch(
                diags,
                tt,
                &value_ty,
                a.span,
                "E421",
                "type mismatch in assignment",
            );
        }
        AssignStmt { target, value, span: a.span }
    }

    fn check_return(&self, diags: &mut Vec<Diagnostic>, r: &ReturnStmt, expected: &Type) -> (out:
        ReturnStmt)
        ensures
            forall|in_loop: bool|
                ({
                    let m = #[trigger] typing::check_return(
                        self@,
                        FnM { return_type: expected@, in_loop },
                        ast::opt_expr_view(r.value),
                        r.span,
                        error::diags_view(old(diags)@),
                    );
                    &&& ast::stmt_view(Stmt::Return(out)) == m.stmt
                    &&& m.vars == self@.vars
                    &&& error::diags_view(final(diags)@) == m.diags
                }),
    {
        proof {
            reveal(typing::check_return);
        }
        let void = matches!(expected, Type::Void);
        let value = match &r.value {
            Some(v) => {
                if void {
                    let (c, _) = self.check_expr(diags, v, None);
                    self.error(
                        diags,
                        r.span,
                        "E430",
                        "`return expr;` in a void function".to_owned(),
                        "void function",
                    );
                    Some(c)
                } else {
                    let (c, ty) = self.check_expr(diags, v, Some(expected));
                    self.mismatch(
                        diags,
                        expected,
                        &ty,
                        r.span,
                        "E432",
                        "return type mismatch",
                    );
                    Some(c)
                }
            },
            None => {
                if !void {
                    self.error(
                        diags,
                        r.span,
                        "E431",
                        "bare `return;` in a non-void function".to_owned(),
                        "expected a return value",
                    );
                }
                None
            },
        };
        ReturnStmt { value, span: r.span }
    }
}

fn copy_asm(a: &AsmStmt) -> (r: AsmStmt)
    ensures
        ast::asm_lines_view(r.lines@) == ast::asm_lines_view(a.lines@),
        r.span == a.span,
{
    let mut lines: Vec<AsmLine> = Vec::new();
    let mut i: usize = 0;
    while i < a.lines.len()
        invariant
            i == lines@.len(),
            i <= a.lines@.len(),
            forall|k: int|
                0 <= k < i ==> ast::asm_tokens_view((#[trigger] lines@[k]).tokens@)
                    == ast::asm_tokens_view(a.lines@[k].tokens@),
        decreases a.lines@.len() - i,
    {
        let from = &a.lines[i].tokens;
        let mut tokens: Vec<AsmToken> = Vec::new();
        let mut j: usize = 0;
        while j < from.len()
            invariant
                j == tokens@.len(),
                j <= from@.len(),
                forall|k: int|
                    0 <= k < j ==> ast::asm_token_view(#[trigger] tokens@[k])
                        == ast::asm_token_view(from@[k]),
            decreases from@.len() - j,
        {
            let t = match &from[j] {
                AsmToken::Raw(s) => AsmToken::Raw(s.clone()),
                AsmToken::Value(s) => AsmToken::Value(s.clone()),
                AsmToken::Addr(s) => AsmToken::Addr(s.clone()),
            };
            tokens.push(t);
            j = j + 1;
        }
        assert(ast::asm_tokens_view(tokens@) =~= ast::asm_tokens_view(from@));
        lines.push(AsmLine { tokens });
        i = i + 1;
    }
    assert(ast::asm_lines_view(lines@) =~= ast::asm_lines_view(a.lines@));
    AsmStmt { lines, span: a.span }
}

// ---------------------------------------------------------------------------
// Exhaustive return analysis
// ---------------------------------------------------------------------------

fn block_definitely_returns(block: &Block) -> (r: bool)
    ensures
        r == typing::block_returns(block@),
    decreases block,
{
    let n = block.stmts.len();
    if n == 0 {
        return false;
    }
    proof {
        assert(block@.stmts.last() == block.stmts@[n - 1]@);
        assert(decreases_to!(block => block.stmts@));
        assert(decreases_to!(block.stmts@ => block.stmts@[n - 1]));
    }
    stmt_definitely_returns(&block.stmts[n - 1])
}

fn stmt_definitely_returns(stmt: &Stmt) -> (r: bool)
    ensures
        r == typing::stmt_returns(stmt@),
    decreases stmt,
{
    match stmt {
        Stmt::Return(r) => r.value.is_some(),
        Stmt::If(i) => {
            // Must have an else, and every branch + else definitely returns.
            match &i.else_block {
                Some(eb) => branches_definitely_return(&i.branches, i.branches.len())
                    && block_definitely_returns(eb),
                None => false,
            }
        },
        _ => false,
    }
}

/// Whether each of the first `n` branches returns.
fn branches_definitely_return(branches: &Vec<(Expr, Block)>, n: usize) -> (r: bool)
    requires
        n <= branches@.len(),
    ensures
        r == typing::all_return(ast::branches_view(branches@).take(n as int)),
        n == branches@.len() ==> r == typing::all_return(ast::branches_view(branches@)),
    decreases branches, n,
{
    let ghost v = ast::branches_view(branches@);
    proof {
        if n == branches@.len() {
            assert(v.take(n as int) =~= v);
        }
    }
    if n == 0 {
        return true;
    }
    proof {
        assert(v.take(n as int).drop_last() =~= v.take(n - 1));
        assert(v.take(n as int).last() == v[n - 1]);
        assert(decreases_to!(branches => branches@));
        assert(decreases_to!(branches@ => branches@[n - 1]));
        assert(decreases_to!(branches@[n - 1] => branches@[n - 1].1));
    }
    block_definitely_returns(&branches[n - 1].1) && branches_definitely_return(branches, n - 1)
}

// ---------------------------------------------------------------------------
// Functions
// ---------------------------------------------------------------------------

/// The type checker: the declarations of a program and its modules, and the
/// text that diagnostics show.
pub struct TypeChecker {
    file: String,
    src: String,
    env: Env,
}

/// The variables in scope have only been added to.
spec fn extends(before: Seq<(String, Type)>, after: Seq<(String, Type)>) -> bool {
    before.len() <= after.len() && after.take(before.len() as int) == before
}

fn is_primitive_extend_target(name: &str) -> (r: bool)
    ensures
        r == typing::is_primitive(name@),
{
    text::text_eq(name, "i64") || text::text_eq(name, "f64")
}

fn self_type(name: &str) -> (r: Type)
    ensures
        r@ == typing::self_type(name@),
{
    if text::text_eq(name, "i64") {
        Type::I64
    } else if text::text_eq(name, "f64") {
        Type::F64
    } else {
        Type::Named(name.to_owned())
    }
}

/// The type that an `extend` adds methods to.
fn extended_type(e: &ExtendDecl) -> (r: Type)
    ensures
        r@ == typing::extended_type(ast::extend_view(*e)),
{
    match &e.module {
        Some(m) => Type::Qualified(m.clone(), e.name.clone()),
        None => self_type(e.name.as_str()),
    }
}

fn param_vars(params: &Vec<Param>, owner: &Type) -> (r: Vec<(String, Type)>)
    ensures
        vars_view(r@) == typing::param_vars(ast::params_view(params@), owner@),
{
    let mut out: Vec<(String, Type)> = Vec::new();
    let mut i: usize = 0;
    while i < params.len()
        invariant
            i == out@.len(),
            i <= params@.len(),
            forall|k: int|
                0 <= k < i ==> ((#[trigger] out@[k]).0@, out@[k].1@) == typing::param_var(
                    ast::param_view(params@[k]),
                    owner@,
                ),
        decreases params@.len() - i,
    {
        let var = match &params[i].kind {
            ParamKind::Named { name, ty } => (name.clone(), ty.copy()),
            ParamKind::SelfRef => ("self".to_owned(), Type::Ref(Box::new(owner.copy()))),
            ParamKind::SelfMutRef => {
                ("self".to_owned(), Type::MutRef(Box::new(owner.copy())))
            },
            ParamKind::SelfMove => ("self".to_owned(), owner.copy()),
        };
        out.push(var);
        i = i + 1;
    }
    assert(vars_view(out@) =~= typing::param_vars(ast::params_view(params@), owner@));
    out
}

impl TypeChecker {
    spec fn unit(&self) -> UnitM {
        UnitM { file: self.file@, src: self.src@, env: self.env@ }
    }

    #[verifier::rlimit(60)]
    #[verifier::spinoff_prover]
    fn check_stmt(
        &self,
        diags: &mut Vec<Diagnostic>,
        stmt: &Stmt,
        vars: &mut Vec<(String, Type)>,
        raw: bool,
        return_type: &Type,
        in_loop: bool,
    ) -> (r: Stmt)
        ensures
            ({
                let out = typing::check_stmt(
                    self.unit().at(vars_view(old(vars)@), raw),
                    FnM { return_type: return_type@, in_loop },
                    stmt@,
                    error::diags_view(old(diags)@),
                );
                &&& r@ == out.stmt
                &&& vars_view(final(vars)@) == out.vars
                &&& error::diags_view(final(diags)@) == out.diags
            }),
            extends(old(vars)@, final(vars)@),
        decreases stmt, 0nat,
    {
        proof {
            reveal(typing::check_stmt);
            reveal(typing::check_branches);
            reveal(typing::check_block);
        }
        let ghost vars0 = vars@;
        assert(vars0.take(vars0.len() as int) =~= vars0);
        let place = Place {
            file: self.file.as_str(),
            src: self.src.as_str(),
            env: &self.env,
            vars: &*vars,
            raw,
        };
        match stmt {
            Stmt::Let(l) => {
                let (l1, ty) = place.check_let(diags, l);
                let name = l.name.clone();
                let ghost var = (name@, ty@);
                vars.push((name, ty));
                assert(vars_view(vars@) =~= vars_view(vars0).push(var));
                assert(vars@.take(vars0.len() as int) =~= vars0);
                Stmt::Let(l1)
            },
            Stmt::Assign(a) => Stmt::Assign(place.check_assign(diags, a)),
            Stmt::Return(r) => Stmt::Return(place.check_return(diags, r, return_type)),
            Stmt::If(i) => {
                let branches = self.check_branches(
                    diags,
                    &i.branches,
                    vars,
                    raw,
                    return_type,
                    in_loop,
                );
                let else_block = match &i.else_block {
                    Some(b) => Some(
                        self.check_block(diags, b, vars, raw, return_type, in_loop),
                    ),
                    None => None,
                };
                Stmt::If(IfStmt { branches, else_block, span: i.span })
            },
            Stmt::While(w) => {
                let (condition, ty) = place.check_expr(diags, &w.condition, None);
                place.expect_bool(diags, &ty, w.condition.span);
                let body = self.check_block(diags, &w.body, vars, raw, return_type, true);
                Stmt::While(WhileStmt { condition, body, span: w.span })
            },
            Stmt::Break(span) => {
                if !in_loop {
                    place.error(
                        diags,
                        *span,
                        "E440",
                        "`break` outside of a loop".to_owned(),
                        "not in a loop",
                    );
                }
                Stmt::Break(*span)
            },
            Stmt::Continue(span) => {
                if !in_loop {
                    place.error(
                        diags,
                        *span,
                        "E441",
                        "`continue` outside of a loop".to_owned(),
                        "not in a loop",
                    );
                }
                Stmt::Continue(*span)
            },
            Stmt::Expr(e) => {
                let (c, _) = place.check_expr(diags, e, None);
                Stmt::Expr(c)
            },
            Stmt::Asm(a) => {
                place.check_asm(diags, a);
                Stmt::Asm(copy_asm(a))
            },
        }
    }

    fn check_branches(
        &self,
        diags: &mut Vec<Diagnostic>,
        branches: &Vec<(Expr, Block)>,
        vars: &mut Vec<(String, Type)>,
        raw: bool,
        return_type: &Type,
        in_loop: bool,
    ) -> (r: Vec<(Expr, Block)>)
        ensures
            (ast::branches_view(r@), error::diags_view(final(diags)@)) == typing::check_branches(
                self.unit().at(vars_view(old(vars)@), raw),
                FnM { return_type: return_type@, in_loop },
                ast::branches_view(branches@),
                Seq::empty(),
                error::diags_view(old(diags)@),
            ),
            final(vars)@ == old(vars)@,
        decreases branches@, branches@.len(),
    {
        let ghost cx = self.unit().at(vars_view(vars@), raw);
        let ghost fx = FnM { return_type: return_type@, in_loop };
        let ghost all = ast::branches_view(branches@);
        let ghost out = typing::check_branches(
            cx,
            fx,
            all,
            Seq::empty(),
            error::diags_view(diags@),
        );
        let mut done: Vec<(Expr, Block)> = Vec::new();
        assert(ast::branches_view(done@) =~= Seq::empty());
        let mut i: usize = 0;
        while i < branches.len()
            invariant
                i <= branches@.len(),
                i == done@.len(),
                vars@ == old(vars)@,
                cx == self.unit().at(vars_view(old(vars)@), raw),
                fx == (FnM { return_type: return_type@, in_loop }),
                all == ast::branches_view(branches@),
                out == typing::check_branches(
                    cx,
                    fx,
                    all,
                    ast::branches_view(done@),
                    error::diags_view(diags@),
                ),
            decreases branches@.len() - i,
        {
            proof {
                reveal(typing::check_branches);
                reveal(typing::check_block);
                assert(decreases_to!(branches@ => branches@[i as int]));
                assert(decreases_to!(branches@[i as int] => branches@[i as int].1));
            }
            let place = Place {
                file: self.file.as_str(),
                src: self.src.as_str(),
                env: &self.env,
                vars: &*vars,
                raw,
            };
            let (cond, ty) = place.check_expr(diags, &branches[i].0, None);
            place.expect_bool(diags, &ty, branches[i].0.span);
            let body = self.check_block(diags, &branches[i].1, vars, raw, return_type, in_loop);
            let ghost before = done@;
            let ghost next = (cond@, body@);
            done.push((cond, body));
            assert(ast::branches_view(done@) =~= ast::branches_view(before).push(next));
            i = i + 1;
        }
        proof {
            reveal(typing::check_branches);
        }
        done
    }

    fn check_block(
        &self,
        diags: &mut Vec<Diagnostic>,
        block: &Block,
        vars: &mut Vec<(String, Type)>,
        raw: bool,
        return_type: &Type,
        in_loop: bool,
    ) -> (r: Block)
        ensures
            (r@, error::diags_view(final(diags)@)) == typing::check_block(
                self.unit().at(vars_view(old(vars)@), raw),
                FnM { return_type: return_type@, in_loop },
                block@,
                error::diags_view(old(diags)@),
            ),
            final(vars)@ == old(vars)@,
        decreases block, 0nat,
    {
        proof {
            reveal(typing::check_block);
            reveal(typing::check_stmts);
        }
        let depth = vars.len();
        proof {
            assert(decreases_to!(block => block.stmts@));
        }
        let stmts = self.check_stmts(diags, &block.stmts, vars, raw, return_type, in_loop);
        // What the block declares goes out of scope.
        vars.truncate(depth);
        assert(vars@ =~= old(vars)@);
        Block { stmts }
    }

    fn check_stmts(
        &self,
        diags: &mut Vec<Diagnostic>,
        stmts: &Vec<Stmt>,
        vars: &mut Vec<(String, Type)>,
        raw: bool,
        return_type: &Type,
        in_loop: bool,
    ) -> (r: Vec<Stmt>)
        ensures
            (ast::stmts_view(r@), error::diags_view(final(diags)@)) == typing::check_stmts(
                self.unit().at(vars_view(old(vars)@), raw),
                FnM { return_type: return_type@, in_loop },
                ast::stmts_view(stmts@),
                Seq::empty(),
                error::diags_view(old(diags)@),
            ),
            extends(old(vars)@, final(vars)@),
        decreases stmts@, stmts@.len(),
    {
        let ghost fx = FnM { return_type: return_type@, in_loop };
        let ghost all = ast::stmts_view(stmts@);
        let ghost out = typing::check_stmts(
            self.unit().at(vars_view(vars@), raw),
            fx,
            all,
            Seq::empty(),
            error::diags_view(diags@),
        );
        let mut done: Vec<Stmt> = Vec::new();
        assert(ast::stmts_view(done@) =~= Seq::empty());
        assert(vars@.take(vars@.len() as int) =~= vars@);
        let mut i: usize = 0;
        while i < stmts.len()
            invariant
                i <= stmts@.len(),
                i == done@.len(),
                extends(old(vars)@, vars@),
                fx == (FnM { return_type: return_type@, in_loop }),
                all == ast::stmts_view(stmts@),
                out == typing::check_stmts(
                    self.unit().at(vars_view(vars@), raw),
                    fx,
                    all,
                    ast::stmts_view(done@),
                    error::diags_view(diags@),
                ),
            decreases stmts@.len() - i,
        {
            proof {
                reveal(typing::check_stmts);
                reveal(typing::check_stmt);
                assert(decreases_to!(stmts@ => stmts@[i as int]));
            }
            let ghost before = done@;
            let ghost vars1 = vars@;
            let s = self.check_stmt(diags, &stmts[i], vars, raw, return_type, in_loop);
            let ghost sm = s@;
            done.push(s);
            assert(ast::stmts_view(done@) =~= ast::stmts_view(before).push(sm));
            assert(vars@.take(old(vars)@.len() as int) =~= vars1.take(old(vars)@.len() as int));
            i = i + 1;
        }
        proof {
            reveal(typing::check_stmts);
        }
        done
    }

    fn check_fn(&self, diags: &mut Vec<Diagnostic>, f: &FnDecl, owner: &Type, raw: bool) -> (r:
        FnDecl)
        ensures
            (ast::fn_view(r), error::diags_view(final(diags)@)) == typing::check_fn(
                self.unit(),
                ast::fn_view(*f),
                owner@,
                raw,
                error::diags_view(old(diags)@),
            ),
    {
        proof {
            reveal(typing::check_fn);
        }
        let mut vars = param_vars(&f.params, owner);
        let body = self.check_block(diags, &f.body, &mut vars, raw, &f.return_type, false);
        // Exhaustive return checking for non-void functions.
        if !matches!(f.return_type, Type::Void) && !block_definitely_returns(&body) {
            report(
                diags,
                self.file.as_str(),
                self.src.as_str(),
                f.span,
                "E410",
                "not all paths return a value".to_owned(),
                "missing return",
            );
        }
        FnDecl {
            name: f.name.clone(),
            params: env::copy_params(&f.params),
            return_type: f.return_type.copy(),
            body,
            span: f.span,
        }
    }

    fn check_fns(
        &self,
        diags: &mut Vec<Diagnostic>,
        fs: &Vec<FnDecl>,
        owner: &Type,
        raw: bool,
    ) -> (r: Vec<FnDecl>)
        ensures
            (ast::fns_view(r@), error::diags_view(final(diags)@)) == typing::check_fns(
                self.unit(),
                ast::fns_view(fs@),
                fs@.len() as int,
                owner@,
                raw,
                error::diags_view(old(diags)@),
            ),
    {
        let ghost all = ast::fns_view(fs@);
        let ghost d0 = error::diags_view(diags@);
        let mut done: Vec<FnDecl> = Vec::new();
        let mut i: usize = 0;
        proof {
            reveal(typing::check_fns);
        }
        assert(ast::fns_view(done@) =~= Seq::empty());
        while i < fs.len()
            invariant
                i <= fs@.len(),
                all == ast::fns_view(fs@),
                (ast::fns_view(done@), error::diags_view(diags@)) == typing::check_fns(
                    self.unit(),
                    all,
                    i as int,
                    owner@,
                    raw,
                    d0,
                ),
            decreases fs@.len() - i,
        {
            proof {
                reveal(typing::check_fns);
            }
            let ghost before = done@;
            let f = self.check_fn(diags, &fs[i], owner, raw);
            let ghost fm = ast::fn_view(f);
            done.push(f);
            assert(ast::fns_view(done@) =~= ast::fns_view(before).push(fm));
            i = i + 1;
        }
        done
    }

    fn check_item(&self, diags: &mut Vec<Diagnostic>, item: &Item) -> (r: Item)
        ensures
            (r@, error::diags_view(final(diags)@)) == typing::check_item(
                self.unit(),
                item@,
                error::diags_view(old(diags)@),
            ),
    {
        proof {
            reveal(typing::check_item);
        }
        match item {
            Item::Fn(f) => {
                assert(""@ =~= Seq::empty()) by {
                    reveal_strlit("");
                }
                Item::Fn(self.check_fn(diags, f, &self_type(""), false))
            },
            Item::Struct(s) => {
                let raw = self.env.struct_is_machine_backed(s.name.as_str());
                let methods = self.check_fns(diags, &s.methods, &self_type(s.name.as_str()), raw);
                Item::Struct(
                    StructDecl {
                        name: s.name.clone(),
                        fields: env::copy_fields(&s.fields),
                        methods,
                        span: s.span,
                    },
                )
            },
            Item::Extend(e) => {
                let raw = is_primitive_extend_target(e.name.as_str());
                let methods = self.check_fns(diags, &e.methods, &extended_type(e), raw);
                let module = match &e.module {
                    Some(m) => Some(m.clone()),
                    None => None,
                };
                Item::Extend(
                    ExtendDecl { module, name: e.name.clone(), methods, span: e.span },
                )
            },
            Item::Import(d) => Item::Import(d.copy()),
        }
    }

    fn check_items(&self, diags: &mut Vec<Diagnostic>, items: &Vec<Item>) -> (r: Vec<Item>)
        ensures
            (ast::items_view(r@), error::diags_view(final(diags)@)) == typing::check_items(
                self.unit(),
                ast::items_view(items@),
                items@.len() as int,
                error::diags_view(old(diags)@),
            ),
    {
        let ghost all = ast::items_view(items@);
        let ghost d0 = error::diags_view(diags@);
        let mut done: Vec<Item> = Vec::new();
        let mut i: usize = 0;
        proof {
            reveal(typing::check_items);
        }
        assert(ast::items_view(done@) =~= Seq::empty());
        while i < items.len()
            invariant
                i <= items@.len(),
                all == ast::items_view(items@),
                (ast::items_view(done@), error::diags_view(diags@)) == typing::check_items(
                    self.unit(),
                    all,
                    i as int,
                    d0,
                ),
            decreases items@.len() - i,
        {
            proof {
                reveal(typing::check_items);
            }
            let ghost before = done@;
            let item = self.check_item(diags, &items[i]);
            let ghost im = item@;
            done.push(item);
            assert(ast::items_view(done@) =~= ast::items_view(before).push(im));
            i = i + 1;
        }
        done
    }

    /// Checks the modules, each with its own names first. `infos` holds what each
    /// of them declares.
    fn check_modules(
        &mut self,
        diags: &mut Vec<Diagnostic>,
        infos: Vec<(String, ModuleInfo)>,
        modules: &Vec<(String, Program)>,
    ) -> (r: Vec<(String, Program)>)
        requires
            infos@.len() == modules@.len(),
        ensures
            (programs_view(r@), error::diags_view(final(diags)@)) == typing::check_modules(
                old(self).unit(),
                env::modules_view(infos@),
                programs_view(modules@),
                modules@.len() as int,
                error::diags_view(old(diags)@),
            ),
            final(self).file@ == old(self).file@,
            final(self).src@ == old(self).src@,
            final(self).env@ == (typing::EnvM { own: final(self).env@.own, ..old(self).env@ }),
    {
        let ghost all = programs_view(modules@);
        let ghost own = env::modules_view(infos@);
        let ghost u = self.unit();
        let ghost d0 = error::diags_view(diags@);
        let mut done: Vec<(String, Program)> = Vec::new();
        proof {
            reveal(typing::check_modules);
        }
        assert(programs_view(done@) =~= Seq::empty());
        for info in it: infos
            invariant
                it.seq().len() == modules@.len(),
                all == programs_view(modules@),
                own == env::modules_view(it.seq()),
                u == old(self).unit(),
                self.unit() == typing::inside(u, self.env@.own),
                (programs_view(done@), error::diags_view(diags@)) == typing::check_modules(
                    u,
                    own,
                    all,
                    it.index() as int,
                    d0,
                ),
                done@.len() == it.index(),
        {
            proof {
                reveal(typing::check_modules);
            }
            let ghost before = done@;
            let i: usize = done.len();
            assert(own[i as int] == (info.0@, info.1@));
            let (_, declared) = info;
            self.env.own = declared;
            assert(self.unit() == typing::inside(u, own[i as int].1));
            let items = self.check_items(diags, &modules[i].1.items);
            let program = Program { items };
            let ghost pm = (modules@[i as int].0@, program@);
            done.push((modules[i].0.clone(), program));
            assert(programs_view(done@) =~= programs_view(before).push(pm));
        }
        done
    }

    fn check_main(&self, diags: &mut Vec<Diagnostic>)
        ensures
            error::diags_view(final(diags)@) == typing::check_main(
                self.unit(),
                error::diags_view(old(diags)@),
            ),
    {
        proof {
            reveal(typing::check_main);
        }
        match env::find_sig(&self.env.functions, "main") {
            None => {
                let empty = String::new();
                assert(empty@ =~= Seq::empty());
                let d = Diagnostic::new(
                    "E400",
                    "no `main` function found".to_owned(),
                    self.file.clone(),
                    1,
                    1,
                    empty,
                );
                diags.push(d);
                assert(error::diags_view(diags@) =~= error::diags_view(old(diags)@).push(d@));
            },
            Some(m) => {
                let ok = match &m.return_type {
                    Type::I64 => true,
                    Type::Named(n) => text::text_eq(n.as_str(), "int"),
                    Type::Void => true,
                    _ => false,
                };
                if !ok {
                    let msg = text::cat3(
                        "`main` must return `i64`, `int`, or `void`, found `",
                        m.return_type.display().as_str(),
                        "`",
                    );
                    report(
                        diags,
                        self.file.as_str(),
                        self.src.as_str(),
                        m.span,
                        "E401",
                        msg,
                        "invalid main signature",
                    );
                }
                if m.params.len() != 0 {
                    report(
                        diags,
                        self.file.as_str(),
                        self.src.as_str(),
                        m.span,
                        "E402",
                        "`main` must take no parameters".to_owned(),
                        "remove parameters",
                    );
                }
            },
        }
    }
}

pub open spec fn programs_view(s: Seq<(String, Program)>) -> Seq<(Seq<char>, ProgramM)> {
    Seq::new(s.len(), |i: int| (s[i].0@, s[i].1@))
}

// ---------------------------------------------------------------------------
// Declarations
// ---------------------------------------------------------------------------

/// The declarations of a list of items, and the names in use.
struct Collection {
    names: Vec<(String, Span)>,
    structs: Vec<StructInfo>,
    functions: Vec<Sig>,
}

spec fn names_view(s: Seq<(String, Span)>) -> Seq<(Seq<char>, Span)> {
    Seq::new(s.len(), |i: int| (s[i].0@, s[i].1))
}

impl Collection {
    spec fn collected(&self, diags: Seq<Diagnostic>) -> typing::Collected {
        typing::Collected {
            names: names_view(self.names@),
            structs: env::structs_view(self.structs@),
            functions: env::sigs_view(self.functions@),
            diags: error::diags_view(diags),
        }
    }
}

fn duplicate_name_error(
    diags: &mut Vec<Diagnostic>,
    file: &str,
    src: &str,
    span: Span,
    name: &str,
    kind: &str,
    first: Span,
)
    ensures
        error::diags_view(final(diags)@) == error::diags_view(old(diags)@).push(
            typing::duplicate(file@, src@, span, name@, kind@, first),
        ),
{
    let msg = text::cat7(
        "duplicate ",
        kind,
        " `",
        name,
        "` (first declared at line ",
        text::decimal_text(first.line).as_str(),
        ")",
    );
    report(diags, file, src, span, "E412", msg, "duplicate declaration");
}

fn find_name(names: &Vec<(String, Span)>, name: &str) -> (r: Option<Span>)
    ensures
        r == typing::find_name(names_view(names@), name@, names@.len() as int),
{
    let ghost v = names_view(names@);
    let mut n: usize = names.len();
    while n > 0
        invariant
            n <= names@.len(),
            v == names_view(names@),
            typing::find_name(v, name@, names@.len() as int) == typing::find_name(
                v,
                name@,
                n as int,
            ),
        decreases n,
    {
        if text::text_eq(names[n - 1].0.as_str(), name) {
            return Some(names[n - 1].1);
        }
        n = n - 1;
    }
    None
}

/// Notes the name; true if it is new. Otherwise reports the duplicate.
fn declare_name(
    diags: &mut Vec<Diagnostic>,
    file: &str,
    src: &str,
    names: &mut Vec<(String, Span)>,
    name: &String,
    span: Span,
    kind: &str,
) -> (r: bool)
    ensures
        names_view(final(names)@) == names_view(old(names)@).push((name@, span)),
        match typing::find_name(
            names_view(old(names)@),
            name@,
            names_view(old(names)@).len() as int,
        ) {
            Some(first) => {
                &&& !r
                &&& error::diags_view(final(diags)@) == error::diags_view(old(diags)@).push(
                    typing::duplicate(file@, src@, span, name@, kind@, first),
                )
            },
            None => r && error::diags_view(final(diags)@) == error::diags_view(old(diags)@),
        },
{
    let first = find_name(names, name.as_str());
    names.push((name.clone(), span));
    assert(names_view(names@) =~= names_view(old(names)@).push((name@, span)));
    match first {
        Some(f) => {
            duplicate_name_error(diags, file, src, span, name.as_str(), kind, f);
            false
        },
        None => true,
    }
}

fn collect_item(
    diags: &mut Vec<Diagnostic>,
    file: &str,
    src: &str,
    c: &mut Collection,
    item: &Item,
    kind: &str,
)
    ensures
        final(c).collected(final(diags)@) == typing::collect_item(
            file@,
            src@,
            old(c).collected(old(diags)@),
            item@,
            kind@,
        ),
{
    proof {
        reveal(typing::collect_item);
    }
    match item {
        Item::Struct(s) => {
            if declare_name(diags, file, src, &mut c.names, &s.name, s.span, kind) {
                let ghost before = c.structs@;
                let info = env::struct_info_of(s);
                c.structs.push(info);
                assert(env::structs_view(c.structs@) =~= env::structs_view(before).push(info@));
            }
        },
        Item::Fn(f) => {
            if declare_name(diags, file, src, &mut c.names, &f.name, f.span, kind) {
                let ghost before = c.functions@;
                let sig = env::sig_of(f);
                c.functions.push(sig);
                assert(env::sigs_view(c.functions@) =~= env::sigs_view(before).push(sig@));
            }
        },
        _ => {},
    }
}

fn collect_items(
    diags: &mut Vec<Diagnostic>,
    file: &str,
    src: &str,
    items: &Vec<Item>,
    kind: &str,
) -> (r: Collection)
    ensures
        r.collected(final(diags)@) == typing::collect(
            file@,
            src@,
            ast::items_view(items@),
            items@.len() as int,
            kind@,
            error::diags_view(old(diags)@),
        ),
{
    let ghost all = ast::items_view(items@);
    let ghost d0 = error::diags_view(diags@);
    let mut c = Collection { names: Vec::new(), structs: Vec::new(), functions: Vec::new() };
    proof {
        reveal(typing::collect);
        assert(names_view(c.names@) =~= Seq::empty());
        assert(env::structs_view(c.structs@) =~= Seq::empty());
        assert(env::sigs_view(c.functions@) =~= Seq::empty());
    }
    let mut i: usize = 0;
    while i < items.len()
        invariant
            i <= items@.len(),
            all == ast::items_view(items@),
            c.collected(diags@) == typing::collect(file@, src@, all, i as int, kind@, d0),
        decreases items@.len() - i,
    {
        proof {
            reveal(typing::collect);
        }
        collect_item(diags, file, src, &mut c, &items[i], kind);
        i = i + 1;
    }
    c
}

fn collect_modules(
    diags: &mut Vec<Diagnostic>,
    file: &str,
    src: &str,
    modules: &Vec<(String, Program)>,
) -> (r: Vec<(String, ModuleInfo)>)
    ensures
        r@.len() == modules@.len(),
        (env::modules_view(r@), error::diags_view(final(diags)@)) == typing::collect_modules(
            file@,
            src@,
            programs_view(modules@),
            modules@.len() as int,
            error::diags_view(old(diags)@),
        ),
{
    let ghost all = programs_view(modules@);
    let ghost d0 = error::diags_view(diags@);
    let mut out: Vec<(String, ModuleInfo)> = Vec::new();
    proof {
        reveal(typing::collect_modules);
        assert(env::modules_view(out@) =~= Seq::empty());
    }
    let mut i: usize = 0;
    while i < modules.len()
        invariant
            i <= modules@.len(),
            i == out@.len(),
            all == programs_view(modules@),
            (env::modules_view(out@), error::diags_view(diags@)) == typing::collect_modules(
                file@,
                src@,
                all,
                i as int,
                d0,
            ),
        decreases modules@.len() - i,
    {
        proof {
            reveal(typing::collect_modules);
        }
        let ghost before = out@;
        let c = collect_items(diags, file, src, &modules[i].1.items, "module item");
        let info = ModuleInfo { structs: c.structs, functions: c.functions };
        let ghost next = (modules@[i as int].0@, info@);
        out.push((modules[i].0.clone(), info));
        assert(env::modules_view(out@) =~= env::modules_view(before).push(next));
        i = i + 1;
    }
    out
}

fn last_sig(sigs: &Vec<Sig>, name: &str, n: usize) -> (r: Option<Span>)
    requires
        n <= sigs@.len(),
    ensures
        match r {
            Some(span) => {
                let s = typing::last_sig(env::sigs_view(sigs@), name@, n as int);
                s is Some && s->0.span == span
            },
            None => typing::last_sig(env::sigs_view(sigs@), name@, n as int) is None,
        },
{
    let ghost v = env::sigs_view(sigs@);
    let mut k: usize = n;
    while k > 0
        invariant
            k <= n <= sigs@.len(),
            v == env::sigs_view(sigs@),
            typing::last_sig(v, name@, n as int) == typing::last_sig(v, name@, k as int),
        decreases k,
    {
        if text::text_eq(sigs[k - 1].name.as_str(), name) {
            return Some(sigs[k - 1].span);
        }
        k = k - 1;
    }
    None
}

/// Adds the methods of an `extend`, and reports those whose names are in use.
fn add_methods(
    diags: &mut Vec<Diagnostic>,
    file: &str,
    src: &str,
    methods: &mut Vec<Sig>,
    added: &Vec<FnDecl>,
)
    ensures
        (env::sigs_view(final(methods)@), error::diags_view(final(diags)@))
            == typing::with_methods(
            file@,
            src@,
            env::sigs_view(old(methods)@),
            ast::fns_view(added@),
            error::diags_view(old(diags)@),
        ),
{
    let from = methods.len();
    let ghost d0 = error::diags_view(diags@);
    env::add_sigs(methods, added);
    let ghost all = env::sigs_view(methods@);
    let mut i: usize = from;
    proof {
        assert(all.len() == methods@.len());
        assert(from <= methods@.len());
    }
    while i < methods.len()
        invariant
            from <= i <= methods@.len(),
            all == env::sigs_view(methods@),
            error::diags_view(diags@) == typing::duplicate_methods(
                file@,
                src@,
                all,
                from as int,
                i as int,
                d0,
            ),
        decreases methods@.len() - i,
    {
        let name = methods[i].name.as_str();
        if let Some(first) = last_sig(methods, name, i) {
            duplicate_name_error(diags, file, src, methods[i].span, name, "method", first);
        }
        i = i + 1;
    }
}

impl TypeChecker {
    fn no_target(&self, diags: &mut Vec<Diagnostic>, e: &ExtendDecl, shown: String, label: &str)
        ensures
            (self.unit(), error::diags_view(final(diags)@)) == typing::no_target(
                self.unit(),
                ast::extend_view(*e),
                shown@,
                label@,
                error::diags_view(old(diags)@),
            ),
    {
        let msg = text::cat2("extend target `", shown.as_str());
        report(
            diags,
            self.file.as_str(),
            self.src.as_str(),
            e.span,
            "E4D0",
            msg,
            label,
        );
    }

    /// Merge an extend declaration into the target's method list.
    #[verifier::rlimit(60)]
    #[verifier::spinoff_prover]
    fn extend(&mut self, diags: &mut Vec<Diagnostic>, e: &ExtendDecl)
        ensures
            (final(self).unit(), error::diags_view(final(diags)@)) == typing::extend(
                old(self).unit(),
                ast::extend_view(*e),
                error::diags_view(old(diags)@),
            ),
    {
        proof {
            reveal(typing::extend);
        }
        let name = e.name.as_str();
        match &e.module {
            Some(module) => match env::module_index(&self.env.modules, module.as_str()) {
                None => {
                    let shown = text::cat4(
                        module.as_str(),
                        "::",
                        name,
                        "` not found (module not imported)",
                    );
                    self.no_target(diags, e, shown, "unknown module");
                },
                Some(m) => match env::struct_index(&self.env.modules[m].1.structs, name) {
                    None => {
                        let shown = text::cat4(module.as_str(), "::", name, "` not found");
                        self.no_target(diags, e, shown, "unknown struct");
                    },
                    Some(i) => {
                        let ghost before = self.env.modules@;
                        let ghost infos = before[m as int].1.structs@;
                        add_methods(
                            diags,
                            self.file.as_str(),
                            self.src.as_str(),
                            &mut self.env.modules[m].1.structs[i].methods,
                            &e.methods,
                        );
                        proof {
                            let after = self.env.modules@;
                            let info = after[m as int].1.structs@;
                            assert(env::structs_view(info) =~= env::structs_view(infos).update(
                                i as int,
                                info[i as int]@,
                            ));
                            assert(env::modules_view(after) =~= env::modules_view(before).update(
                                m as int,
                                (after[m as int].0@, after[m as int].1@),
                            ));
                        }
                    },
                },
            },
            None => {
                if text::text_eq(name, "i64") {
                    add_methods(
                        diags,
                        self.file.as_str(),
                        self.src.as_str(),
                        &mut self.env.i64_methods,
                        &e.methods,
                    );
                } else if text::text_eq(name, "f64") {
                    add_methods(
                        diags,
                        self.file.as_str(),
                        self.src.as_str(),
                        &mut self.env.f64_methods,
                        &e.methods,
                    );
                } else {
                    match env::struct_index(&self.env.structs, name) {
                        None => {
                            let shown = text::cat2(name, "` not found");
                            self.no_target(diags, e, shown, "unknown struct");
                        },
                        Some(i) => {
                            let ghost before = self.env.structs@;
                            add_methods(
                                diags,
                                self.file.as_str(),
                                self.src.as_str(),
                                &mut self.env.structs[i].methods,
                                &e.methods,
                            );
                            proof {
                                let after = self.env.structs@;
                                assert(env::structs_view(after) =~= env::structs_view(
                                    before,
                                ).update(i as int, after[i as int]@));
                            }
                        },
                    }
                }
            },
        }
    }

    /// The declarations of a program and its modules, and what each module
    /// declares as it is seen inside the module.
    fn declare(
        diags: &mut Vec<Diagnostic>,
        file: &str,
        src: &str,
        program: &Program,
        modules: &Vec<(String, Program)>,
    ) -> (r: (TypeChecker, Vec<(String, ModuleInfo)>))
        requires
            old(diags)@.len() == 0,
        ensures
            (r.0.unit(), env::modules_view(r.1@), error::diags_view(final(diags)@))
                == typing::declarations(file@, src@, program@, programs_view(modules@)),
            r.1@.len() == modules@.len(),
    {
        proof {
            reveal(typing::declarations);
            assert(error::diags_view(diags@) =~= Seq::empty());
        }
        let c = collect_items(diags, file, src, &program.items, "top-level item");
        let infos = collect_modules(diags, file, src, modules);
        let outside = env::outward_modules(&infos, &c.structs);
        let mut tc = TypeChecker {
            file: file.to_owned(),
            src: src.to_owned(),
            env: Env {
                own: ModuleInfo { structs: Vec::new(), functions: Vec::new() },
                structs: c.structs,
                functions: c.functions,
                modules: outside,
                i64_methods: Vec::new(),
                f64_methods: Vec::new(),
            },
        };
        assert(env::sigs_view(tc.env.own.functions@) =~= Seq::empty());
        assert(env::structs_view(tc.env.own.structs@) =~= Seq::empty());
        assert(env::sigs_view(tc.env.i64_methods@) =~= Seq::empty());
        assert(env::sigs_view(tc.env.f64_methods@) =~= Seq::empty());
        // Merge extend declarations into the target struct's method list. This
        // runs after all structs (and modules) are collected.
        let ghost all = ast::items_view(program.items@);
        let ghost u0 = tc.unit();
        let ghost d0 = error::diags_view(diags@);
        let mut i: usize = 0;
        proof {
            reveal(typing::extend_all);
        }
        while i < program.items.len()
            invariant
                i <= program.items@.len(),
                all == ast::items_view(program.items@),
                (tc.unit(), error::diags_view(diags@)) == typing::extend_all(
                    u0,
                    all,
                    i as int,
                    d0,
                ),
            decreases program.items@.len() - i,
        {
            proof {
                reveal(typing::extend_all);
            }
            if let Item::Extend(e) = &program.items[i] {
                tc.extend(diags, e);
            }
            i = i + 1;
        }
        let own = env::inward_modules(infos, &tc.env.modules);
        (tc, own)
    }

    /// Type-check `program` in place. `module_asts` holds the already-parsed
    /// modules with their names (for `module::name` resolution), in the order in
    /// which they are searched and checked.
    pub fn check(
        program: &mut Program,
        file: &str,
        src: &str,
        module_asts: &mut Vec<(String, Program)>,
    ) -> (r: Result<(), Vec<Diagnostic>>)
        ensures
            ({
                let out = typing::check_program(
                    file@,
                    src@,
                    old(program)@,
                    programs_view(old(module_asts)@),
                );
                &&& final(program)@ == out.program
                &&& programs_view(final(module_asts)@) == out.modules
                &&& match r {
                    Ok(_) => out.diags.len() == 0,
                    Err(diags) => diags@.len() > 0 && error::diags_view(diags@) == out.diags,
                }
            }),
    {
        let mut diags: Vec<Diagnostic> = Vec::new();
        let (mut tc, infos) = TypeChecker::declare(&mut diags, file, src, program, module_asts);
        // Check every function body (free functions and struct methods).
        let items = tc.check_items(&mut diags, &program.items);
        // Type-check (and desugar) the bodies of loaded modules too, so that
        // `import module;` references resolve and codegen can emit their
        // functions/methods.
        let ghost u = tc.unit();
        let modules = tc.check_modules(&mut diags, infos, module_asts);
        // Validate that `main` exists and has a valid signature.
        tc.check_main(&mut diags);
        proof {
            reveal(typing::check_main);
            assert(typing::check_main(tc.unit(), Seq::empty()) == typing::check_main(
                u,
                Seq::empty(),
            ));
        }
        *program = Program { items };
        *module_asts = modules;
        if diags.len() == 0 {
            Ok(())
        } else {
            Err(diags)
        }
    }
}

} // verus!
