//! The typing rules of Jo, and the rewrites that go with them.
//!
//! Checking an expression gives its type and the expression that takes its
//! place:
//!   * literals become wrapper structs (`10` is `int { inner_value = 10 }`),
//!   * operators become method calls (`a + b` is `a.add(&b)`),
//!   * casts become method calls (`x -> float` is `x.to_float()`).

use vstd::prelude::*;

use crate::ast;
use crate::ast::{
    AsmTokenM, BinaryOp, BlockM, ExprKindM, ExprM, ExtendDeclM, FieldDeclM, FnDeclM, ItemM,
    LValueM, ParamKindM, ParamM, ProgramM, Span, StmtM, StructDeclM, StructNameM, TypeM, UnaryOp,
};
use crate::error;
use crate::error::DiagM;
use crate::text;

verus! {

// ---------------------------------------------------------------------------
// Declarations
// ---------------------------------------------------------------------------

/// What a caller knows of a function.
pub struct SigM {
    pub name: Seq<char>,
    pub params: Seq<ParamM>,
    pub return_type: TypeM,
    pub span: Span,
}

/// What is known of a struct: its fields, and its methods with those that
/// `extend` adds.
pub struct StructInfoM {
    pub name: Seq<char>,
    pub fields: Seq<FieldDeclM>,
    pub methods: Seq<SigM>,
}

pub struct ModuleInfoM {
    pub structs: Seq<StructInfoM>,
    pub functions: Seq<SigM>,
}

/// The declarations that a program, or one of its modules, can speak of.
pub struct EnvM {
    /// What the module that is checked declares; nothing while the program is.
    pub own: ModuleInfoM,
    /// What the program declares.
    pub structs: Seq<StructInfoM>,
    pub functions: Seq<SigM>,
    /// What `module::name` can be.
    pub modules: Seq<(Seq<char>, ModuleInfoM)>,
    /// The methods that `extend` adds to `i64` and `f64`.
    pub i64_methods: Seq<SigM>,
    pub f64_methods: Seq<SigM>,
}

pub open spec fn sig_of(f: FnDeclM) -> SigM {
    SigM { name: f.name, params: f.params, return_type: f.return_type, span: f.span }
}

pub open spec fn sigs_of(fs: Seq<FnDeclM>) -> Seq<SigM> {
    Seq::new(fs.len(), |i: int| sig_of(fs[i]))
}

pub open spec fn struct_info_of(s: StructDeclM) -> StructInfoM {
    StructInfoM { name: s.name, fields: s.fields, methods: sigs_of(s.methods) }
}

/// The first struct of that name, from the `i`-th on.
pub open spec fn find_struct(structs: Seq<StructInfoM>, name: Seq<char>, i: int) -> Option<
    StructInfoM,
>
    decreases structs.len() - i,
{
    if i < 0 || i >= structs.len() {
        None
    } else if structs[i].name == name {
        Some(structs[i])
    } else {
        find_struct(structs, name, i + 1)
    }
}

/// The first function of that name, from the `i`-th on.
pub open spec fn find_sig(sigs: Seq<SigM>, name: Seq<char>, i: int) -> Option<SigM>
    decreases sigs.len() - i,
{
    if i < 0 || i >= sigs.len() {
        None
    } else if sigs[i].name == name {
        Some(sigs[i])
    } else {
        find_sig(sigs, name, i + 1)
    }
}

/// The first module of that name, from the `i`-th on.
pub open spec fn find_module(
    modules: Seq<(Seq<char>, ModuleInfoM)>,
    name: Seq<char>,
    i: int,
) -> Option<ModuleInfoM>
    decreases modules.len() - i,
{
    if i < 0 || i >= modules.len() {
        None
    } else if modules[i].0 == name {
        Some(modules[i].1)
    } else {
        find_module(modules, name, i + 1)
    }
}

/// The first struct of that name in the modules from the `i`-th on.
pub open spec fn find_in_modules(
    modules: Seq<(Seq<char>, ModuleInfoM)>,
    name: Seq<char>,
    i: int,
) -> Option<StructInfoM>
    decreases modules.len() - i,
{
    if i < 0 || i >= modules.len() {
        None
    } else {
        match find_struct(modules[i].1.structs, name, 0) {
            Some(s) => Some(s),
            None => find_in_modules(modules, name, i + 1),
        }
    }
}

/// The first field of that name, from the `i`-th on.
pub open spec fn first_field(fields: Seq<FieldDeclM>, name: Seq<char>, i: int) -> Option<TypeM>
    decreases fields.len() - i,
{
    if i < 0 || i >= fields.len() {
        None
    } else if fields[i].name == name {
        Some(fields[i].ty)
    } else {
        first_field(fields, name, i + 1)
    }
}

/// The type of the last of the first `n` fields that has that name.
pub open spec fn last_field(fields: Seq<FieldDeclM>, name: Seq<char>, n: int) -> Option<TypeM>
    decreases n,
{
    if n <= 0 || n > fields.len() {
        None
    } else if fields[n - 1].name == name {
        Some(fields[n - 1].ty)
    } else {
        last_field(fields, name, n - 1)
    }
}

/// The type that an initializer of the struct must give the field.
pub open spec fn declared(decl: StructInfoM, name: Seq<char>) -> Option<TypeM> {
    last_field(decl.fields, name, decl.fields.len() as int)
}

impl EnvM {
    /// A struct by its bare name: of the module that is checked, else of the
    /// program. The name of another module's struct has to be qualified.
    pub open spec fn lookup_struct(self, name: Seq<char>) -> Option<StructInfoM> {
        match find_struct(self.own.structs, name, 0) {
            Some(s) => Some(s),
            None => find_struct(self.structs, name, 0),
        }
    }

    /// A function by its bare name.
    pub open spec fn lookup_fn(self, name: Seq<char>) -> Option<SigM> {
        match find_sig(self.own.functions, name, 0) {
            Some(f) => Some(f),
            None => find_sig(self.functions, name, 0),
        }
    }

    pub open spec fn lookup_qualified(self, module: Seq<char>, name: Seq<char>) -> Option<
        StructInfoM,
    > {
        match find_module(self.modules, module, 0) {
            Some(m) => find_struct(m.structs, name, 0),
            None => None,
        }
    }

    /// The function that `module::name` is.
    pub open spec fn lookup_module_fn(self, module: Seq<char>, name: Seq<char>) -> Option<SigM> {
        match find_module(self.modules, module, 0) {
            Some(m) => find_sig(m.functions, name, 0),
            None => None,
        }
    }

    pub open spec fn type_name_exists(self, name: Seq<char>) -> bool {
        name == "i64"@ || name == "f64"@ || name == "void"@ || name == "null"@
            || self.lookup_struct(name) is Some
    }

    /// Whether the struct has a field of a machine type. In its methods
    /// literals and operators are machine values.
    pub open spec fn machine_backed(self, name: Seq<char>) -> bool {
        match self.lookup_struct(name) {
            Some(s) => exists|i: int|
                0 <= i < s.fields.len() && (#[trigger] s.fields[i]).ty.is_machine(),
            None => false,
        }
    }

    /// A method of the struct, `i64` or `f64` of that name.
    pub open spec fn find_method(self, owner: Seq<char>, method: Seq<char>) -> Option<SigM> {
        let own = match self.lookup_struct(owner) {
            Some(s) => find_sig(s.methods, method, 0),
            None => None,
        };
        if own is Some {
            own
        } else if owner == "i64"@ {
            find_sig(self.i64_methods, method, 0)
        } else if owner == "f64"@ {
            find_sig(self.f64_methods, method, 0)
        } else {
            None
        }
    }

    /// The name of the struct whose methods a value of the type has; references
    /// have those of what they refer to.
    pub open spec fn receiver(self, ty: TypeM) -> Option<Seq<char>>
        decreases ty,
    {
        match ty {
            TypeM::I64 => Some("i64"@),
            TypeM::F64 => Some("f64"@),
            TypeM::Named(n) => Some(n),
            TypeM::Qualified(_, n) => Some(n),
            TypeM::Ref(inner) => self.receiver(*inner),
            TypeM::MutRef(inner) => self.receiver(*inner),
            _ => None,
        }
    }

    /// The struct that a value of a type with that bare name is. Truth values go
    /// by the bare name also where they come from a module.
    pub open spec fn struct_named(self, name: Seq<char>) -> Option<StructInfoM> {
        match self.lookup_struct(name) {
            Some(s) => Some(s),
            None => if name == "bool"@ {
                find_in_modules(self.modules, name, 0)
            } else {
                None
            },
        }
    }

    /// The struct that a value of the type is, behind references.
    pub open spec fn struct_of(self, ty: TypeM) -> Option<StructInfoM>
        decreases ty,
    {
        match ty {
            TypeM::Named(n) => self.struct_named(n),
            TypeM::Qualified(m, n) => self.lookup_qualified(m, n),
            TypeM::Ref(inner) => self.struct_of(*inner),
            TypeM::MutRef(inner) => self.struct_of(*inner),
            _ => None,
        }
    }

    /// The method of that name that a value of the type has.
    pub open spec fn method_of(self, ty: TypeM, method: Seq<char>) -> Option<SigM>
        decreases ty,
    {
        match ty {
            TypeM::I64 => find_sig(self.i64_methods, method, 0),
            TypeM::F64 => find_sig(self.f64_methods, method, 0),
            TypeM::Ref(inner) => self.method_of(*inner, method),
            TypeM::MutRef(inner) => self.method_of(*inner, method),
            _ => match self.struct_of(ty) {
                Some(s) => find_sig(s.methods, method, 0),
                None => None,
            },
        }
    }

    /// The only field of the struct that a value of the type is.
    pub open spec fn wrapped(self, ty: TypeM) -> Option<FieldDeclM> {
        match self.struct_of(ty) {
            Some(s) => if s.fields.len() == 1 {
                Some(s.fields[0])
            } else {
                None
            },
            None => None,
        }
    }

    /// Whether a value of the type `found` may stand where `expected` is asked for.
    /// There are no implicit conversions: a wrapper struct and the machine type in
    /// it are different types.
    pub open spec fn compatible(self, expected: TypeM, found: TypeM) -> bool
        decreases expected,
    {
        if expected == found {
            true
        } else {
            match (expected, found) {
                (TypeM::Ref(a), TypeM::Ref(b)) => self.compatible(*a, *b),
                (TypeM::MutRef(a), TypeM::MutRef(b)) => self.compatible(*a, *b),
                // A `&mut T` may stand for a `&T`: it allows more.
                (TypeM::Ref(a), TypeM::MutRef(b)) => self.compatible(*a, *b),
                (TypeM::Named(a), TypeM::Qualified(_, b)) => a == b,
                (TypeM::Qualified(_, b), TypeM::Named(a)) => a == b,
                _ => false,
            }
        }
    }

    /// Whether the type is a struct whose only field has the type `ty`.
    pub open spec fn wraps(self, outer: TypeM, ty: TypeM) -> bool {
        match self.wrapped(outer) {
            Some(f) => f.ty == ty,
            None => false,
        }
    }
}

// ---------------------------------------------------------------------------
// Expressions
// ---------------------------------------------------------------------------

/// Where an expression is checked: the declarations, the variables in scope
/// (the last of a name counts), and whether literals and operators are machine
/// values there.
pub struct CheckM {
    pub file: Seq<char>,
    pub src: Seq<char>,
    pub env: EnvM,
    pub vars: Seq<(Seq<char>, TypeM)>,
    pub raw: bool,
}

/// A checked expression: what takes its place, its type, and the diagnostics
/// known then.
pub struct Checked {
    pub expr: ExprM,
    pub ty: TypeM,
    pub diags: Seq<DiagM>,
}

/// The same of an expression without its span.
pub struct Rewritten {
    pub kind: ExprKindM,
    pub ty: TypeM,
    pub diags: Seq<DiagM>,
}

/// The type of the last of the first `n` variables that has that name.
pub open spec fn find_var(vars: Seq<(Seq<char>, TypeM)>, name: Seq<char>, n: int) -> Option<TypeM>
    decreases n,
{
    if n <= 0 || n > vars.len() {
        None
    } else if vars[n - 1].0 == name {
        Some(vars[n - 1].1)
    } else {
        find_var(vars, name, n - 1)
    }
}

impl CheckM {
    pub open spec fn lookup(self, name: Seq<char>) -> Option<TypeM> {
        find_var(self.vars, name, self.vars.len() as int)
    }

    pub open spec fn diag(
        self,
        span: Span,
        code: Seq<char>,
        msg: Seq<char>,
        label: Seq<char>,
    ) -> DiagM {
        diag_in(self.file, self.src, span, code, msg, label)
    }
}

/// A diagnostic at a place of the source.
pub open spec fn diag_in(
    file: Seq<char>,
    src: Seq<char>,
    span: Span,
    code: Seq<char>,
    msg: Seq<char>,
    label: Seq<char>,
) -> DiagM {
    DiagM {
        code,
        message: msg,
        file,
        line: span.line as nat,
        col: span.col as nat,
        source_line: error::source_line(src, span.line as nat),
        label,
    }
}

/// An expression with its type.
pub open spec fn typed(kind: ExprKindM, ty: TypeM, span: Span) -> ExprM {
    ExprM { kind, ty: Some(ty.settled()), span }
}

/// What stands for an operand that was taken out of a wrong expression.
pub open spec fn dummy(span: Span) -> ExprM {
    ast::untyped(ExprKindM::IntLit(0), span)
}

// --- struct initializers ---

/// What is known after a field of an initializer was given a value of the type
/// `ty`: the fields given so far, and the diagnostics.
pub open spec fn init_field(
    cx: CheckM,
    decl: StructInfoM,
    name: Seq<char>,
    ty: TypeM,
    span: Span,
    seen: Seq<Seq<char>>,
    diags: Seq<DiagM>,
) -> (Seq<Seq<char>>, Seq<DiagM>) {
    match declared(decl, name) {
        Some(fty) => {
            let d1 = if !(ty is Unknown) && !cx.env.compatible(fty, ty) {
                diags.push(
                    cx.diag(
                        span,
                        "E496"@,
                        "field `"@ + name + "` of `"@ + decl.name + "`: expected `"@ + fty.shown()
                            + "`, found `"@ + ty.shown() + "`"@,
                        "type mismatch"@,
                    ),
                )
            } else {
                diags
            };
            let d2 = if seen.contains(name) {
                d1.push(
                    cx.diag(
                        span,
                        "E497"@,
                        "duplicate field `"@ + name + "` in struct initializer"@,
                        "duplicate field"@,
                    ),
                )
            } else {
                d1
            };
            (seen.push(name), d2)
        },
        None => (
            seen,
            diags.push(
                cx.diag(
                    span,
                    "E498"@,
                    "`"@ + decl.name + "` has no field `"@ + name + "`"@,
                    "no such field"@,
                ),
            ),
        ),
    }
}

/// The diagnostics on the first `n` fields of the struct that the initializer
/// leaves out.
pub open spec fn missing_fields(
    cx: CheckM,
    decl: StructInfoM,
    span: Span,
    seen: Seq<Seq<char>>,
    n: int,
    diags: Seq<DiagM>,
) -> Seq<DiagM>
    decreases n,
{
    if n <= 0 || n > decl.fields.len() {
        diags
    } else {
        let before = missing_fields(cx, decl, span, seen, n - 1, diags);
        let name = decl.fields[n - 1].name;
        if seen.contains(name) {
            before
        } else {
            before.push(
                cx.diag(
                    span,
                    "E499"@,
                    "missing field `"@ + name + "` in initializer for `"@ + decl.name + "`"@,
                    "missing field"@,
                ),
            )
        }
    }
}

pub open spec fn all_missing(
    cx: CheckM,
    decl: StructInfoM,
    span: Span,
    seen: Seq<Seq<char>>,
    diags: Seq<DiagM>,
) -> Seq<DiagM> {
    missing_fields(cx, decl, span, seen, decl.fields.len() as int, diags)
}

// --- literals ---

pub open spec fn unavailable(cx: CheckM, name: Seq<char>, span: Span) -> DiagM {
    cx.diag(
        span,
        "E4C0"@,
        "type `"@ + name + "` is not in scope (did you forget to `import stdlib::"@ + name
            + "` or `import stdlib::*`?)"@,
        "unknown type"@,
    )
}

/// The diagnostic that the wrapper struct of a literal has no field that can
/// hold the literal itself.
pub open spec fn unfit(
    cx: CheckM,
    name: Seq<char>,
    field: Seq<char>,
    ty: TypeM,
    span: Span,
) -> DiagM {
    cx.diag(
        span,
        "E4C1"@,
        "type `"@ + name + "` cannot hold a literal (it needs a field `"@ + field + ": "@
            + ty.shown() + "`)"@,
        "unsuitable type"@,
    )
}

/// A wrapper struct around a literal, which was checked with the outcome `c`.
pub open spec fn boxed(
    cx: CheckM,
    decl: StructInfoM,
    name: Seq<char>,
    c: Rewritten,
    span: Span,
) -> Rewritten {
    let (seen, d) = init_field(
        cx,
        decl,
        "inner_value"@,
        c.ty,
        span,
        Seq::empty(),
        c.diags,
    );
    Rewritten {
        kind: ExprKindM::StructInit {
            name: StructNameM::Unqualified(name),
            fields: seq![("inner_value"@, typed(c.kind, c.ty, span))],
        },
        ty: TypeM::Named(name),
        diags: all_missing(cx, decl, span, seen, d),
    }
}

/// A literal of the machine type `ty`, whose wrapper is the struct `name`.
#[verifier::opaque]
pub open spec fn machine_literal(
    cx: CheckM,
    kind: ExprKindM,
    ty: TypeM,
    name: Seq<char>,
    span: Span,
    hint: Option<TypeM>,
    diags: Seq<DiagM>,
) -> Rewritten {
    if cx.raw || hint == Some(ty) {
        Rewritten { kind, ty, diags }
    } else {
        match cx.env.lookup_struct(name) {
            None => Rewritten { kind, ty, diags: diags.push(unavailable(cx, name, span)) },
            Some(decl) => if declared(decl, "inner_value"@) == Some(ty) {
                boxed(cx, decl, name, Rewritten { kind, ty, diags }, span)
            } else {
                Rewritten {
                    kind,
                    ty,
                    diags: diags.push(unfit(cx, name, "inner_value"@, ty, span)),
                }
            },
        }
    }
}

pub open spec fn int_literal(
    cx: CheckM,
    n: i64,
    span: Span,
    hint: Option<TypeM>,
    diags: Seq<DiagM>,
) -> Rewritten {
    machine_literal(cx, ExprKindM::IntLit(n), TypeM::I64, "int"@, span, hint, diags)
}

/// A literal that stands for the integer `n`: a character or a truth value.
#[verifier::opaque]
pub open spec fn coded_literal(
    cx: CheckM,
    kind: ExprKindM,
    n: i64,
    name: Seq<char>,
    span: Span,
    diags: Seq<DiagM>,
) -> Rewritten {
    if cx.raw {
        Rewritten { kind, ty: TypeM::I64, diags }
    } else {
        match cx.env.lookup_struct(name) {
            None => Rewritten {
                kind,
                ty: TypeM::I64,
                diags: diags.push(unavailable(cx, name, span)),
            },
            Some(decl) => boxed(
                cx,
                decl,
                name,
                int_literal(cx, n, span, declared(decl, "inner_value"@), diags),
                span,
            ),
        }
    }
}

/// The length of a text in bytes.
pub open spec fn byte_len(s: Seq<char>) -> i64 {
    (vstd::utf8::encode_utf8(s).len() as usize) as i64
}

/// A string literal: its address and its length in bytes.
#[verifier::opaque]
pub open spec fn string_literal(
    cx: CheckM,
    s: Seq<char>,
    span: Span,
    hint: Option<TypeM>,
    diags: Seq<DiagM>,
) -> Rewritten {
    let plain = ExprKindM::StringLit(s);
    if cx.raw || hint == Some(TypeM::I64) {
        Rewritten { kind: plain, ty: TypeM::I64, diags }
    } else {
        match cx.env.lookup_struct("string"@) {
            None => Rewritten {
                kind: plain,
                ty: TypeM::I64,
                diags: diags.push(unavailable(cx, "string"@, span)),
            },
            Some(decl) => if declared(decl, "ptr"@) == Some(TypeM::I64) {
                let (seen1, d1) = init_field(
                    cx,
                    decl,
                    "ptr"@,
                    TypeM::I64,
                    span,
                    Seq::empty(),
                    diags,
                );
                let len = int_literal(cx, byte_len(s), span, declared(decl, "length"@), d1);
                let (seen2, d2) = init_field(
                    cx,
                    decl,
                    "length"@,
                    len.ty,
                    span,
                    seen1,
                    len.diags,
                );
                Rewritten {
                    kind: ExprKindM::StructInit {
                        name: StructNameM::Unqualified("string"@),
                        fields: seq![
                            ("ptr"@, typed(plain, TypeM::I64, span)),
                            ("length"@, typed(len.kind, len.ty, span)),
                        ],
                    },
                    ty: TypeM::Named("string"@),
                    diags: all_missing(cx, decl, span, seen2, d2),
                }
            } else {
                Rewritten {
                    kind: plain,
                    ty: TypeM::I64,
                    diags: diags.push(unfit(cx, "string"@, "ptr"@, TypeM::I64, span)),
                }
            },
        }
    }
}

// --- names, references and fields ---

pub open spec fn undeclared(cx: CheckM, name: Seq<char>, span: Span) -> DiagM {
    cx.diag(span, "E460"@, "undeclared variable `"@ + name + "`"@, "not found"@)
}

pub open spec fn identifier(cx: CheckM, name: Seq<char>, span: Span, diags: Seq<DiagM>) -> (
    TypeM,
    Seq<DiagM>,
) {
    match cx.lookup(name) {
        Some(t) => (t, diags),
        None => (TypeM::Unknown, diags.push(undeclared(cx, name, span))),
    }
}

/// A function of a module that is not called has no value.
pub open spec fn qualified_name(
    cx: CheckM,
    module: Seq<char>,
    name: Seq<char>,
    span: Span,
    diags: Seq<DiagM>,
) -> (TypeM, Seq<DiagM>) {
    if find_module(cx.env.modules, module, 0) is None {
        (
            TypeM::Unknown,
            diags.push(
                cx.diag(span, "E463"@, "unknown module `"@ + module + "`"@, "unknown module"@),
            ),
        )
    } else if cx.env.lookup_module_fn(module, name) is None {
        (
            TypeM::Unknown,
            diags.push(
                cx.diag(
                    span,
                    "E462"@,
                    "`"@ + name + "` not found in module `"@ + module + "`"@,
                    "not found"@,
                ),
            ),
        )
    } else {
        (TypeM::Void, diags)
    }
}

/// The type of what a reference of the type `ty` refers to.
pub open spec fn dereferenced(cx: CheckM, ty: TypeM, span: Span, diags: Seq<DiagM>) -> (
    Option<TypeM>,
    Seq<DiagM>,
) {
    match ty.referent() {
        Some(t) => (Some(t), diags),
        None => (
            None,
            diags.push(
                cx.diag(
                    span,
                    "E461"@,
                    "cannot dereference non-reference type `"@ + ty.shown() + "`"@,
                    "not a reference"@,
                ),
            ),
        ),
    }
}

/// The type of a field of a value of the type `ty`.
pub open spec fn field_type(
    cx: CheckM,
    ty: TypeM,
    field: Seq<char>,
    span: Span,
    diags: Seq<DiagM>,
) -> (Option<TypeM>, Seq<DiagM>) {
    match cx.env.receiver(ty) {
        None => (
            None,
            diags.push(
                cx.diag(
                    span,
                    "E4A0"@,
                    "type `"@ + ty.shown() + "` has no fields"@,
                    "not a struct"@,
                ),
            ),
        ),
        Some(name) => match cx.env.struct_of(ty) {
            None => (
                None,
                diags.push(
                    cx.diag(
                        span,
                        "E4A2"@,
                        "unknown struct `"@ + name + "`"@,
                        "unknown struct"@,
                    ),
                ),
            ),
            Some(decl) => match first_field(decl.fields, field, 0) {
                Some(t) => (Some(t), diags),
                None => (
                    None,
                    diags.push(
                        cx.diag(
                            span,
                            "E4A1"@,
                            "`"@ + name + "` has no field `"@ + field + "`"@,
                            "no such field"@,
                        ),
                    ),
                ),
            },
        },
    }
}

pub open spec fn or_unknown(t: Option<TypeM>) -> TypeM {
    match t {
        Some(t) => t,
        None => TypeM::Unknown,
    }
}

// --- operators ---

/// A call of the method on the object, which has been checked.
pub open spec fn method_call(
    object: ExprM,
    method: Seq<char>,
    args: Seq<ExprM>,
    span: Span,
) -> ExprKindM {
    ExprKindM::Call {
        callee: Box::new(
            typed(
                ExprKindM::Field { object: Box::new(object), field: method },
                TypeM::Void,
                span,
            ),
        ),
        args,
    }
}

pub open spec fn no_method(cx: CheckM, owner: Seq<char>, method: Seq<char>, span: Span) -> DiagM {
    cx.diag(
        span,
        "E472"@,
        "type `"@ + owner + "` does not implement method `"@ + method + "`"@,
        "method not found"@,
    )
}

/// A prefix operator whose operand was checked with the outcome `c`.
#[verifier::opaque]
pub open spec fn unary_op(cx: CheckM, op: UnaryOp, c: Checked, span: Span) -> Rewritten {
    let kept = ExprKindM::Unary { op, operand: Box::new(c.expr) };
    let gone = ExprKindM::Unary { op, operand: Box::new(dummy(span)) };
    if cx.raw && c.ty.is_machine() {
        Rewritten { kind: kept, ty: c.ty, diags: c.diags }
    } else {
        match ast::unary_method(op) {
            None => Rewritten {
                kind: kept,
                ty: TypeM::Unknown,
                diags: c.diags.push(
                    cx.diag(span, "E470"@, "invalid unary operator"@, "invalid"@),
                ),
            },
            Some(method) => match cx.env.receiver(c.ty) {
                None => Rewritten {
                    kind: gone,
                    ty: TypeM::Unknown,
                    diags: c.diags.push(
                        cx.diag(
                            span,
                            "E471"@,
                            "type `"@ + c.ty.shown() + "` does not support this operator"@,
                            "no such operator"@,
                        ),
                    ),
                },
                Some(owner) => match cx.env.method_of(c.ty, method) {
                    None => Rewritten {
                        kind: gone,
                        ty: TypeM::Unknown,
                        diags: c.diags.push(no_method(cx, owner, method, span)),
                    },
                    Some(sig) => Rewritten {
                        kind: method_call(c.expr, method, Seq::empty(), span),
                        ty: sig.return_type,
                        diags: arg_count_diags(
                            cx,
                            method,
                            param_types(sig).len(),
                            0,
                            span,
                            c.diags,
                        ),
                    },
                },
            },
        }
    }
}

/// The operand of the type `ty` as a reference: `&arg`, or `arg` itself where
/// it is one, or `*arg` where it is a reference to one.
pub open spec fn as_reference(arg: ExprM, ty: TypeM, span: Span) -> ExprM {
    match ty.referent() {
        Some(inner) => if inner.is_ref() {
            typed(ExprKindM::Deref { operand: Box::new(arg) }, inner, span)
        } else {
            arg
        },
        None => typed(
            ExprKindM::Ref { mutable: false, operand: Box::new(arg) },
            TypeM::Ref(Box::new(ty.settled())),
            span,
        ),
    }
}

/// The type of that operand.
pub open spec fn reference_type(ty: TypeM) -> TypeM {
    match ty.referent() {
        Some(inner) => if inner.is_ref() {
            inner
        } else {
            ty
        },
        None => TypeM::Ref(Box::new(ty.settled())),
    }
}

/// The types of the parameters other than `self`, of the first `n`.
pub open spec fn named_types(params: Seq<ParamM>, n: int) -> Seq<TypeM>
    decreases n,
{
    if n <= 0 || n > params.len() {
        Seq::empty()
    } else {
        match params[n - 1].kind {
            ParamKindM::Named { ty, .. } => named_types(params, n - 1).push(ty),
            _ => named_types(params, n - 1),
        }
    }
}

pub open spec fn param_types(sig: SigM) -> Seq<TypeM> {
    named_types(sig.params, sig.params.len() as int)
}

/// An infix operator whose left operand `left` has the type `ty`, and whose right
/// operand was checked after it as `r`.
#[verifier::opaque]
pub open spec fn binary_op(
    cx: CheckM,
    op: BinaryOp,
    left: ExprM,
    ty: TypeM,
    r: Checked,
    span: Span,
) -> Rewritten {
    let gone = ExprKindM::Binary {
        op,
        left: Box::new(dummy(span)),
        right: Box::new(dummy(span)),
    };
    let method = ast::binary_method(op);
    if cx.raw && ty.is_machine() {
        Rewritten {
            kind: ExprKindM::Binary { op, left: Box::new(left), right: Box::new(r.expr) },
            ty: ty,
            diags: r.diags,
        }
    } else {
        match cx.env.receiver(ty) {
            None => Rewritten {
                kind: gone,
                ty: TypeM::Unknown,
                diags: r.diags.push(
                    cx.diag(
                        span,
                        "E471"@,
                        "type `"@ + ty.shown() + "` does not support operator `"@ + method
                            + "`"@,
                        "no such operator"@,
                    ),
                ),
            },
            Some(owner) => match cx.env.method_of(ty, method) {
                None => Rewritten {
                    kind: gone,
                    ty: TypeM::Unknown,
                    diags: r.diags.push(no_method(cx, owner, method, span)),
                },
                Some(sig) => {
                    let arg = as_reference(r.expr, r.ty, span);
                    let arg_ty = reference_type(r.ty);
                    let params = param_types(sig);
                    let d = arg_count_diags(cx, method, params.len(), 1, span, r.diags);
                    Rewritten {
                        kind: method_call(left, method, seq![arg], span),
                        ty: sig.return_type,
                        diags: if params.len() > 0 && !cx.env.compatible(params[0], arg_ty) {
                            d.push(
                                cx.diag(
                                    span,
                                    "E473"@,
                                    "operator argument mismatch: method `"@ + method
                                        + "` expects `"@ + params[0].shown() + "`, found `"@
                                        + arg_ty.shown() + "`"@,
                                    "type mismatch"@,
                                ),
                            )
                        } else {
                            d
                        },
                    }
                },
            },
        }
    }
}

// --- casts ---

/// How many casts there are in an expression.
pub open spec fn casts(e: ExprM) -> nat
    decreases e,
{
    match e.kind {
        ExprKindM::Unary { operand, .. } => casts(*operand),
        ExprKindM::Binary { left, right, .. } => casts(*left) + casts(*right),
        ExprKindM::Cast { expr, .. } => 1 + casts(*expr),
        ExprKindM::Call { callee, args } => casts(*callee) + all_casts(args),
        ExprKindM::Field { object, .. } => casts(*object),
        ExprKindM::Ref { operand, .. } => casts(*operand),
        ExprKindM::Deref { operand } => casts(*operand),
        ExprKindM::StructInit { fields, .. } => init_casts(fields),
        _ => 0,
    }
}

pub open spec fn all_casts(s: Seq<ExprM>) -> nat
    decreases s,
{
    if s.len() == 0 {
        0
    } else {
        all_casts(s.drop_last()) + casts(s.last())
    }
}

pub open spec fn init_casts(s: Seq<(Seq<char>, ExprM)>) -> nat
    decreases s,
{
    if s.len() == 0 {
        0
    } else {
        init_casts(s.drop_last()) + casts(s.last().1)
    }
}

pub proof fn casts_at(s: Seq<ExprM>, i: int)
    requires
        0 <= i < s.len(),
    ensures
        casts(s[i]) <= all_casts(s),
    decreases s.len(),
{
    if i < s.len() - 1 {
        casts_at(s.drop_last(), i);
    }
}

pub proof fn init_casts_at(s: Seq<(Seq<char>, ExprM)>, i: int)
    requires
        0 <= i < s.len(),
    ensures
        casts(s[i].1) <= init_casts(s),
    decreases s.len(),
{
    if i < s.len() - 1 {
        init_casts_at(s.drop_last(), i);
    }
}

/// What a cast comes to once its operand is checked: an expression, or a
/// wrapper struct around the machine value, in a field of that name.
pub enum CastM {
    Done(Rewritten),
    Box(StructNameM, Seq<char>),
}

/// A cast whose operand was checked with the outcome `c`.
#[verifier::opaque]
pub open spec fn cast_op(cx: CheckM, c: Checked, target: TypeM, span: Span) -> CastM {
    let gone = ExprKindM::Cast { expr: Box::new(dummy(span)), target_type: target };
    let wrong = CastM::Done(
        Rewritten {
            kind: gone,
            ty: TypeM::Unknown,
            diags: c.diags.push(
                cx.diag(
                    span,
                    "E481"@,
                    "invalid cast target `"@ + target.shown() + "`"@,
                    "invalid cast target"@,
                ),
            ),
        },
    );
    match target {
        TypeM::Named(n) => struct_cast(cx, c, StructNameM::Unqualified(n), gone, span),
        TypeM::Qualified(m, n) => struct_cast(cx, c, StructNameM::Qualified(m, n), gone, span),
        _ => if !(target is I64 || target is F64) {
            wrong
        } else if cx.raw && cx.env.compatible(target, c.ty) {
            CastM::Done(Rewritten { kind: c.expr.kind, ty: target, diags: c.diags })
        } else if cx.env.wraps(c.ty, target) {
            CastM::Done(
                Rewritten {
                    kind: ExprKindM::Field {
                        object: Box::new(c.expr),
                        field: cx.env.wrapped(c.ty)->0.name,
                    },
                    ty: target,
                    diags: c.diags,
                },
            )
        } else {
            wrong
        },
    }
}

/// Whether the method casts to the type: it takes `&self` alone, and returns a
/// value of the type.
pub open spec fn is_cast_method(env: EnvM, sig: SigM, target: TypeM) -> bool {
    &&& sig.params.len() == 1
    &&& sig.params[0].kind is SelfRef
    &&& env.compatible(target, sig.return_type)
}

/// A cast to the struct `target`.
pub open spec fn struct_cast(
    cx: CheckM,
    c: Checked,
    target: StructNameM,
    gone: ExprKindM,
    span: Span,
) -> CastM {
    let name = target.base();
    if c.ty.is_machine() {
        match init_target(cx.env, target) {
            Some(decl) if decl.fields.len() == 1 && decl.fields[0].ty == c.ty => CastM::Box(
                target,
                decl.fields[0].name,
            ),
            _ => CastM::Done(
                Rewritten {
                    kind: gone,
                    ty: TypeM::Unknown,
                    diags: c.diags.push(
                        cx.diag(
                            span,
                            "E480"@,
                            "cannot cast from `"@ + c.ty.shown() + "` to `"@ + name + "`"@,
                            "invalid cast"@,
                        ),
                    ),
                },
            ),
        }
    } else {
        let method = "to_"@ + name;
        CastM::Done(
            match cx.env.receiver(c.ty) {
                None => Rewritten {
                    kind: gone,
                    ty: TypeM::Unknown,
                    diags: c.diags.push(
                        cx.diag(
                            span,
                            "E480"@,
                            "cannot cast from `"@ + c.ty.shown() + "`"@,
                            "invalid cast"@,
                        ),
                    ),
                },
                Some(owner) => match cx.env.method_of(c.ty, method) {
                    Some(sig) if is_cast_method(cx.env, sig, struct_type(target)) => Rewritten {
                        kind: method_call(c.expr, method, Seq::empty(), span),
                        ty: sig.return_type,
                        diags: c.diags,
                    },
                    _ => Rewritten {
                        kind: gone,
                        ty: TypeM::Unknown,
                        diags: c.diags.push(
                            cx.diag(
                                span,
                                "E482"@,
                                "type `"@ + owner + "` cannot be cast to `"@ + name
                                    + "` (no method `"@ + method + "`)"@,
                                "no cast method"@,
                            ),
                        ),
                    },
                },
            },
        )
    }
}

// --- calls ---

/// What a call comes to once the receiver of a method call is checked.
pub enum CalleeM {
    /// A function with these parameters, shown by that name.
    Known { params: Seq<TypeM>, shown: Seq<char>, ty: TypeM },
    /// No function of that name.
    Unknown(Seq<char>),
    /// Nothing that can be called, or no method.
    Bad(DiagM),
}

pub open spec fn has_self(sig: SigM) -> bool {
    exists|i: int| 0 <= i < sig.params.len() && !((#[trigger] sig.params[i]).kind is Named)
}

pub open spec fn known(sig: SigM, shown: Seq<char>) -> CalleeM {
    CalleeM::Known { params: param_types(sig), shown, ty: sig.return_type }
}

/// The method that is called on a value of the type `ty`.
#[verifier::opaque]
pub open spec fn method_callee(cx: CheckM, ty: TypeM, field: Seq<char>, span: Span) -> CalleeM {
    match cx.env.method_of(ty, field) {
        Some(sig) => known(sig, sig.name),
        None => CalleeM::Bad(
            cx.diag(
                span,
                "E490"@,
                "`"@ + field + "` is not a method of `"@ + ty.shown() + "`"@,
                "no such method"@,
            ),
        ),
    }
}

/// The function that is called where the callee is not a field: a method of a
/// struct without `self`, or a free function.
#[verifier::opaque]
pub open spec fn plain_callee(cx: CheckM, callee: ExprKindM, span: Span) -> CalleeM {
    match callee {
        ExprKindM::Ident(name) => match cx.env.lookup_fn(name) {
            Some(sig) => known(sig, sig.name),
            None => CalleeM::Unknown(name),
        },
        ExprKindM::QualifiedIdent { module, name } => {
            let full = module + "::"@ + name;
            match cx.env.find_method(module, name) {
                Some(sig) if !has_self(sig) => known(sig, full),
                _ => match cx.env.lookup_module_fn(module, name) {
                    Some(sig) => known(sig, sig.name),
                    None => CalleeM::Unknown(full),
                },
            }
        },
        _ => CalleeM::Bad(
            cx.diag(span, "E491"@, "expression is not callable"@, "not callable"@),
        ),
    }
}

pub open spec fn arg_count_diags(
    cx: CheckM,
    shown: Seq<char>,
    expected: nat,
    found: nat,
    span: Span,
    diags: Seq<DiagM>,
) -> Seq<DiagM> {
    if expected == found {
        diags
    } else {
        diags.push(
            cx.diag(
                span,
                "E493"@,
                "wrong number of arguments to `"@ + shown + "`: expected "@ + text::decimal(
                    expected,
                ) + ", found "@ + text::decimal(found),
                "argument count mismatch"@,
            ),
        )
    }
}

/// The diagnostics after the `i`-th argument was found to have the type `ty`.
pub open spec fn arg_diags(
    cx: CheckM,
    shown: Seq<char>,
    params: Seq<TypeM>,
    i: nat,
    ty: TypeM,
    span: Span,
    diags: Seq<DiagM>,
) -> Seq<DiagM> {
    if i < params.len() && !(ty is Unknown) && !cx.env.compatible(params[i as int], ty) {
        diags.push(
            cx.diag(
                span,
                "E494"@,
                "argument "@ + text::decimal(i + 1) + " to `"@ + shown + "`: expected `"@
                    + params[i as int].shown() + "`, found `"@ + ty.shown() + "`"@,
                "type mismatch"@,
            ),
        )
    } else {
        diags
    }
}

pub open spec fn hint_at(params: Seq<TypeM>, i: int) -> Option<TypeM> {
    if 0 <= i < params.len() {
        Some(params[i])
    } else {
        None
    }
}

/// The struct that an initializer names.
pub open spec fn init_target(env: EnvM, name: StructNameM) -> Option<StructInfoM> {
    match name {
        StructNameM::Unqualified(n) => env.lookup_struct(n),
        StructNameM::Qualified(m, n) => env.lookup_qualified(m, n),
    }
}

/// The type of an initializer that names that struct.
pub open spec fn struct_type(name: StructNameM) -> TypeM {
    match name {
        StructNameM::Unqualified(n) => TypeM::Named(n),
        StructNameM::Qualified(m, n) => TypeM::Qualified(m, n),
    }
}

// --- the rules ---

/// Checks an expression. `hint` is the type that is expected, which only keeps
/// a literal of that machine type as it is.
#[verifier::opaque]
pub open spec fn check_expr(
    cx: CheckM,
    e: ExprM,
    hint: Option<TypeM>,
    diags: Seq<DiagM>,
) -> Checked
    decreases casts(e), e, 2nat,
{
    let r = check_kind(cx, e, hint, diags);
    Checked { expr: typed(r.kind, r.ty, e.span), ty: r.ty, diags: r.diags }
}

#[verifier::opaque]
pub open spec fn check_kind(
    cx: CheckM,
    e: ExprM,
    hint: Option<TypeM>,
    diags: Seq<DiagM>,
) -> Rewritten
    decreases casts(e), e, 1nat,
{
    let span = e.span;
    match e.kind {
        ExprKindM::IntLit(n) => int_literal(cx, n, span, hint, diags),
        ExprKindM::FloatLit(f) => machine_literal(
            cx,
            e.kind,
            TypeM::F64,
            "float"@,
            span,
            hint,
            diags,
        ),
        ExprKindM::CharLit(c) => coded_literal(cx, e.kind, c as i64, "char"@, span, diags),
        ExprKindM::BoolLit(b) => coded_literal(
            cx,
            e.kind,
            if b {
                1
            } else {
                0
            },
            "bool"@,
            span,
            diags,
        ),
        ExprKindM::StringLit(s) => string_literal(cx, s, span, hint, diags),
        ExprKindM::Ident(name) => {
            let (ty, d) = identifier(cx, name, span, diags);
            Rewritten { kind: e.kind, ty, diags: d }
        },
        ExprKindM::QualifiedIdent { module, name } => {
            let (ty, d) = qualified_name(cx, module, name, span, diags);
            Rewritten { kind: e.kind, ty, diags: d }
        },
        ExprKindM::Ref { mutable, operand } => {
            let c = check_expr(cx, *operand, None, diags);
            Rewritten {
                kind: ExprKindM::Ref { mutable, operand: Box::new(c.expr) },
                ty: if mutable {
                    TypeM::MutRef(Box::new(c.ty.settled()))
                } else {
                    TypeM::Ref(Box::new(c.ty.settled()))
                },
                diags: c.diags,
            }
        },
        ExprKindM::Deref { operand } => {
            let c = check_expr(cx, *operand, None, diags);
            let (ty, d) = dereferenced(cx, c.ty, span, c.diags);
            Rewritten {
                kind: ExprKindM::Deref { operand: Box::new(c.expr) },
                ty: or_unknown(ty),
                diags: d,
            }
        },
        ExprKindM::Unary { op, operand } => {
            let c = check_expr(cx, *operand, None, diags);
            unary_op(cx, op, c, span)
        },
        ExprKindM::Binary { op, left, right } => {
            let l = check_expr(cx, *left, None, diags);
            let r = check_expr(cx, *right, None, l.diags);
            binary_op(cx, op, l.expr, l.ty, r, span)
        },
        ExprKindM::Cast { expr, target_type } => {
            let c = check_expr(cx, *expr, None, diags);
            match cast_op(cx, c, target_type, span) {
                CastM::Done(r) => r,
                CastM::Box(name, field) => {
                    let fields = seq![(field, c.expr)];
                    // Checking adds no casts, so this always holds.
                    if init_casts(fields) < casts(e) {
                        check_init(cx, name, fields, span, c.diags)
                    } else {
                        Rewritten { kind: e.kind, ty: TypeM::Void, diags: c.diags }
                    }
                },
            }
        },
        ExprKindM::Call { .. } => check_call(cx, e, diags),
        ExprKindM::Field { object, field } => {
            let c = check_expr(cx, *object, None, diags);
            let (ty, d) = field_type(cx, c.ty, field, span, c.diags);
            Rewritten {
                kind: ExprKindM::Field { object: Box::new(c.expr), field },
                ty: or_unknown(ty),
                diags: d,
            }
        },
        ExprKindM::StructInit { name, fields } => check_init(cx, name, fields, span, diags),
    }
}

/// A call. The callee itself has no value; only the receiver of a method is
/// checked.
#[verifier::opaque]
pub open spec fn check_call(cx: CheckM, e: ExprM, diags: Seq<DiagM>) -> Rewritten
    decreases casts(e), e, 0nat,
{
    let span = e.span;
    match e.kind {
        ExprKindM::Call { callee, args } => match callee.kind {
            ExprKindM::Field { object, field } => {
                proof {
                    assert(casts(*callee) == casts(*object));
                    assert(decreases_to!(e => *callee));
                }
                let c = check_expr(cx, *object, None, diags);
                let called = typed(
                    ExprKindM::Field { object: Box::new(c.expr), field },
                    TypeM::Void,
                    callee.span,
                );
                match method_callee(cx, c.ty, field, span) {
                    CalleeM::Known { params, shown, ty } => {
                        let d = arg_count_diags(
                            cx,
                            shown,
                            params.len(),
                            args.len(),
                            span,
                            c.diags,
                        );
                        let (done, d) = check_args(cx, shown, params, args, Seq::empty(), d);
                        Rewritten {
                            kind: ExprKindM::Call { callee: Box::new(called), args: done },
                            ty,
                            diags: d,
                        }
                    },
                    CalleeM::Unknown(_) => Rewritten { kind: e.kind, ty: TypeM::Void, diags },
                    CalleeM::Bad(d) => Rewritten {
                        kind: ExprKindM::Call { callee: Box::new(called), args },
                        ty: TypeM::Unknown,
                        diags: c.diags.push(d),
                    },
                }
            },
            _ => match plain_callee(cx, callee.kind, span) {
                CalleeM::Known { params, shown, ty } => {
                    let d = arg_count_diags(cx, shown, params.len(), args.len(), span, diags);
                    let (done, d) = check_args(cx, shown, params, args, Seq::empty(), d);
                    Rewritten {
                        kind: ExprKindM::Call {
                            callee: Box::new(typed(callee.kind, TypeM::Void, callee.span)),
                            args: done,
                        },
                        ty,
                        diags: d,
                    }
                },
                CalleeM::Unknown(name) => {
                    let d = diags.push(
                        cx.diag(
                            span,
                            "E492"@,
                            "undeclared function `"@ + name + "`"@,
                            "not found"@,
                        ),
                    );
                    let (done, d) = check_args(cx, name, Seq::empty(), args, Seq::empty(), d);
                    Rewritten {
                        kind: ExprKindM::Call { callee, args: done },
                        ty: TypeM::Unknown,
                        diags: d,
                    }
                },
                CalleeM::Bad(d) => Rewritten {
                    kind: e.kind,
                    ty: TypeM::Unknown,
                    diags: diags.push(d),
                },
            },
        },
        _ => Rewritten { kind: e.kind, ty: TypeM::Void, diags },
    }
}

/// Checks the arguments after those that are `done`, each against the type of
/// its parameter if there is one.
#[verifier::opaque]
pub open spec fn check_args(
    cx: CheckM,
    shown: Seq<char>,
    params: Seq<TypeM>,
    args: Seq<ExprM>,
    done: Seq<ExprM>,
    diags: Seq<DiagM>,
) -> (Seq<ExprM>, Seq<DiagM>)
    decreases
            all_casts(args),
            args,
            if done.len() < args.len() {
                (args.len() - done.len()) as nat
            } else {
                0
            },
{
    if done.len() >= args.len() {
        (done, diags)
    } else {
        let i = done.len();
        proof {
            casts_at(args, i as int);
        }
        let c = check_expr(cx, args[i as int], hint_at(params, i as int), diags);
        let d = arg_diags(cx, shown, params, i, c.ty, args[i as int].span, c.diags);
        check_args(cx, shown, params, args, done.push(c.expr), d)
    }
}

/// A struct initializer.
#[verifier::opaque]
pub open spec fn check_init(
    cx: CheckM,
    name: StructNameM,
    fields: Seq<(Seq<char>, ExprM)>,
    span: Span,
    diags: Seq<DiagM>,
) -> Rewritten
    decreases init_casts(fields), fields, fields.len() + 1,
{
    match init_target(cx.env, name) {
        Some(decl) => {
            let (done, seen, d) = check_inits(
                cx,
                Some(decl),
                fields,
                Seq::empty(),
                Seq::empty(),
                diags,
            );
            Rewritten {
                kind: ExprKindM::StructInit { name, fields: done },
                ty: struct_type(name),
                diags: all_missing(cx, decl, span, seen, d),
            }
        },
        None => {
            let d = diags.push(
                cx.diag(
                    span,
                    "E495"@,
                    "unknown struct `"@ + name.base() + "`"@,
                    "unknown struct"@,
                ),
            );
            let (done, seen, d) = check_inits(cx, None, fields, Seq::empty(), Seq::empty(), d);
            Rewritten {
                kind: ExprKindM::StructInit { name, fields: done },
                ty: struct_type(name),
                diags: d,
            }
        },
    }
}

/// Checks the field values after those that are `done`, against the struct if
/// it is known. `seen` are the fields that were given so far.
#[verifier::opaque]
pub open spec fn check_inits(
    cx: CheckM,
    decl: Option<StructInfoM>,
    fields: Seq<(Seq<char>, ExprM)>,
    done: Seq<(Seq<char>, ExprM)>,
    seen: Seq<Seq<char>>,
    diags: Seq<DiagM>,
) -> (Seq<(Seq<char>, ExprM)>, Seq<Seq<char>>, Seq<DiagM>)
    decreases
            init_casts(fields),
            fields,
            if done.len() < fields.len() {
                (fields.len() - done.len()) as nat
            } else {
                0
            },
{
    if done.len() >= fields.len() {
        (done, seen, diags)
    } else {
        let i = done.len() as int;
        let name = fields[i].0;
        proof {
            init_casts_at(fields, i);
        }
        let hint = match decl {
            Some(s) => declared(s, name),
            None => None,
        };
        let c = check_expr(cx, fields[i].1, hint, diags);
        let (seen1, d) = match decl {
            Some(s) => init_field(cx, s, name, c.ty, fields[i].1.span, seen, c.diags),
            None => (seen, c.diags),
        };
        check_inits(cx, decl, fields, done.push((name, c.expr)), seen1, d)
    }
}

// ---------------------------------------------------------------------------
// Statements
// ---------------------------------------------------------------------------

/// The function that a statement stands in: what it returns, and whether the
/// statement is in a loop.
pub struct FnM {
    pub return_type: TypeM,
    pub in_loop: bool,
}

/// A checked statement: what takes its place, the variables in scope after it,
/// and the diagnostics known then.
pub struct StmtOut {
    pub stmt: StmtM,
    pub vars: Seq<(Seq<char>, TypeM)>,
    pub diags: Seq<DiagM>,
}

/// The diagnostic on a value of the type `found` where `expected` is asked for.
/// A value of an unknown type was reported before; one of the type `void` is
/// refused like any other.
pub open spec fn mismatch(
    cx: CheckM,
    expected: TypeM,
    found: TypeM,
    span: Span,
    code: Seq<char>,
    what: Seq<char>,
    diags: Seq<DiagM>,
) -> Seq<DiagM> {
    if !(found is Unknown) && !cx.env.compatible(expected, found) {
        diags.push(
            cx.diag(
                span,
                code,
                what + ": expected `"@ + expected.shown() + "`, found `"@ + found.shown() + "`"@,
                "type mismatch"@,
            ),
        )
    } else {
        diags
    }
}

/// A condition must be of the type `bool`.
pub open spec fn bool_diags(cx: CheckM, ty: TypeM, span: Span, diags: Seq<DiagM>) -> Seq<DiagM> {
    if ty == TypeM::Named("bool"@) {
        diags
    } else {
        diags.push(
            cx.diag(
                span,
                "E4B0"@,
                "condition must be of type `bool`, found `"@ + ty.shown() + "`"@,
                "expected bool"@,
            ),
        )
    }
}

/// The variable that a part of inline assembly names must be in scope.
pub open spec fn asm_token_diags(cx: CheckM, t: AsmTokenM, span: Span, diags: Seq<DiagM>) -> Seq<
    DiagM,
> {
    let name = match t {
        AsmTokenM::Value(name) => Some(name),
        AsmTokenM::Addr(name) => Some(name),
        AsmTokenM::Raw(_) => None,
    };
    match name {
        Some(n) => if cx.lookup(n) is Some {
            diags
        } else {
            diags.push(
                cx.diag(
                    span,
                    "E450"@,
                    "unknown variable `"@ + n + "` in inline assembly"@,
                    "not in scope"@,
                ),
            )
        },
        None => diags,
    }
}

/// The diagnostics on the first `n` parts of a line.
pub open spec fn asm_line_diags(
    cx: CheckM,
    line: Seq<AsmTokenM>,
    n: int,
    span: Span,
    diags: Seq<DiagM>,
) -> Seq<DiagM>
    decreases n,
{
    if n <= 0 || n > line.len() {
        diags
    } else {
        asm_token_diags(cx, line[n - 1], span, asm_line_diags(cx, line, n - 1, span, diags))
    }
}

/// The diagnostics on the first `n` lines.
pub open spec fn asm_diags(
    cx: CheckM,
    lines: Seq<Seq<AsmTokenM>>,
    n: int,
    span: Span,
    diags: Seq<DiagM>,
) -> Seq<DiagM>
    decreases n,
{
    if n <= 0 || n > lines.len() {
        diags
    } else {
        asm_line_diags(
            cx,
            lines[n - 1],
            lines[n - 1].len() as int,
            span,
            asm_diags(cx, lines, n - 1, span, diags),
        )
    }
}

/// Whether what a value of the type leads to lies behind a shared reference.
pub open spec fn through_shared(ty: TypeM) -> bool
    decreases ty,
{
    match ty {
        TypeM::Ref(_) => true,
        TypeM::MutRef(inner) => through_shared(*inner),
        _ => false,
    }
}

/// Whether a field of the checked expression lies behind a shared reference:
/// the expression leads through one, or is itself a place behind one.
pub open spec fn field_is_shared(e: ExprM) -> bool
    decreases e,
{
    match e.ty {
        Some(t) if t.is_ref() => through_shared(t),
        _ => match e.kind {
            ExprKindM::Field { object, .. } => field_is_shared(*object),
            ExprKindM::Deref { operand } => refers_shared(*operand),
            _ => false,
        },
    }
}

/// Whether the checked expression is a shared reference.
pub open spec fn refers_shared(e: ExprM) -> bool {
    match e.ty {
        Some(t) => t is Ref,
        None => false,
    }
}

/// The diagnostic on an assignment to a place behind a shared reference. A place
/// whose type is not known was reported before.
pub open spec fn shared_diags(
    cx: CheckM,
    shared: bool,
    ty: Option<TypeM>,
    span: Span,
    diags: Seq<DiagM>,
) -> Seq<DiagM> {
    if shared && ty is Some {
        diags.push(
            cx.diag(
                span,
                "E422"@,
                "cannot assign through an immutable reference"@,
                "immutable reference"@,
            ),
        )
    } else {
        diags
    }
}

/// What an assignment is to: the checked place, its type if that is known, and
/// the diagnostics.
#[verifier::opaque]
pub open spec fn check_lvalue(cx: CheckM, l: LValueM, diags: Seq<DiagM>) -> (
    LValueM,
    Option<TypeM>,
    Seq<DiagM>,
) {
    match l {
        LValueM::Ident(name, span) => match cx.lookup(name) {
            Some(t) => (l, Some(t), diags),
            None => (l, None, diags.push(undeclared(cx, name, span))),
        },
        LValueM::Deref(e, span) => {
            let c = check_expr(cx, e, None, diags);
            let (ty, d) = dereferenced(cx, c.ty, e.span, c.diags);
            (
                LValueM::Deref(c.expr, span),
                ty,
                shared_diags(cx, refers_shared(c.expr), ty, span, d),
            )
        },
        LValueM::Field(e, field, span) => {
            let c = check_expr(cx, e, None, diags);
            let (ty, d) = field_type(cx, c.ty, field, span, c.diags);
            (
                LValueM::Field(c.expr, field, span),
                ty,
                shared_diags(cx, field_is_shared(c.expr), ty, span, d),
            )
        },
    }
}

#[verifier::opaque]
pub open spec fn check_let(
    cx: CheckM,
    name: Seq<char>,
    ty: Option<TypeM>,
    init: ExprM,
    span: Span,
    diags: Seq<DiagM>,
) -> StmtOut {
    let d0 = if cx.env.type_name_exists(name) {
        diags.push(
            cx.diag(
                span,
                "E411"@,
                "let binding `"@ + name + "` conflicts with a type name"@,
                "name already used by a type"@,
            ),
        )
    } else {
        diags
    };
    let c = check_expr(cx, init, ty, d0);
    let stmt = StmtM::Let { name, ty, init: c.expr, span };
    match ty {
        Some(t) => StmtOut {
            stmt,
            vars: cx.vars.push((name, t)),
            diags: mismatch(
                cx,
                t,
                c.ty,
                span,
                "E420"@,
                "type mismatch in let binding"@,
                c.diags,
            ),
        },
        None => StmtOut { stmt, vars: cx.vars.push((name, c.ty)), diags: c.diags },
    }
}

#[verifier::opaque]
pub open spec fn check_assign(
    cx: CheckM,
    target: LValueM,
    value: ExprM,
    span: Span,
    diags: Seq<DiagM>,
) -> StmtOut {
    let (l, ty, d) = check_lvalue(cx, target, diags);
    let c = check_expr(cx, value, ty, d);
    StmtOut {
        stmt: StmtM::Assign { target: l, value: c.expr, span },
        vars: cx.vars,
        diags: match ty {
            Some(t) => mismatch(
                cx,
                t,
                c.ty,
                span,
                "E421"@,
                "type mismatch in assignment"@,
                c.diags,
            ),
            None => c.diags,
        },
    }
}

#[verifier::opaque]
pub open spec fn check_return(
    cx: CheckM,
    fx: FnM,
    value: Option<ExprM>,
    span: Span,
    diags: Seq<DiagM>,
) -> StmtOut {
    let expected = fx.return_type;
    let (v, d) = match value {
        Some(e) => if expected is Void {
            let c = check_expr(cx, e, None, diags);
            (
                Some(c.expr),
                c.diags.push(
                    cx.diag(
                        span,
                        "E430"@,
                        "`return expr;` in a void function"@,
                        "void function"@,
                    ),
                ),
            )
        } else {
            let c = check_expr(cx, e, Some(expected), diags);
            (
                Some(c.expr),
                mismatch(cx, expected, c.ty, span, "E432"@, "return type mismatch"@, c.diags),
            )
        },
        None => if expected is Void {
            (None, diags)
        } else {
            (
                None,
                diags.push(
                    cx.diag(
                        span,
                        "E431"@,
                        "bare `return;` in a non-void function"@,
                        "expected a return value"@,
                    ),
                ),
            )
        },
    };
    StmtOut { stmt: StmtM::Return { value: v, span }, vars: cx.vars, diags: d }
}

#[verifier::opaque]
pub open spec fn check_stmt(cx: CheckM, fx: FnM, s: StmtM, diags: Seq<DiagM>) -> StmtOut
    decreases s, 0nat,
{
    match s {
        StmtM::Let { name, ty, init, span } => check_let(cx, name, ty, init, span, diags),
        StmtM::Assign { target, value, span } => check_assign(cx, target, value, span, diags),
        StmtM::Return { value, span } => check_return(cx, fx, value, span, diags),
        StmtM::If { branches, else_block, span } => {
            let (done, d) = check_branches(cx, fx, branches, Seq::empty(), diags);
            match else_block {
                Some(b) => {
                    let (eb, d) = check_block(cx, fx, b, d);
                    StmtOut {
                        stmt: StmtM::If { branches: done, else_block: Some(eb), span },
                        vars: cx.vars,
                        diags: d,
                    }
                },
                None => StmtOut {
                    stmt: StmtM::If { branches: done, else_block: None, span },
                    vars: cx.vars,
                    diags: d,
                },
            }
        },
        StmtM::While { condition, body, span } => {
            let c = check_expr(cx, condition, None, diags);
            let d = bool_diags(cx, c.ty, condition.span, c.diags);
            let (b, d) = check_block(cx, FnM { in_loop: true, ..fx }, body, d);
            StmtOut {
                stmt: StmtM::While { condition: c.expr, body: b, span },
                vars: cx.vars,
                diags: d,
            }
        },
        StmtM::Break(span) => StmtOut {
            stmt: s,
            vars: cx.vars,
            diags: if fx.in_loop {
                diags
            } else {
                diags.push(
                    cx.diag(span, "E440"@, "`break` outside of a loop"@, "not in a loop"@),
                )
            },
        },
        StmtM::Continue(span) => StmtOut {
            stmt: s,
            vars: cx.vars,
            diags: if fx.in_loop {
                diags
            } else {
                diags.push(
                    cx.diag(span, "E441"@, "`continue` outside of a loop"@, "not in a loop"@),
                )
            },
        },
        StmtM::Expr(e) => {
            let c = check_expr(cx, e, None, diags);
            StmtOut { stmt: StmtM::Expr(c.expr), vars: cx.vars, diags: c.diags }
        },
        StmtM::Asm { lines, span } => StmtOut {
            stmt: s,
            vars: cx.vars,
            diags: asm_diags(cx, lines, lines.len() as int, span, diags),
        },
    }
}

/// Checks the branches after those that are `done`.
#[verifier::opaque]
pub open spec fn check_branches(
    cx: CheckM,
    fx: FnM,
    branches: Seq<(ExprM, BlockM)>,
    done: Seq<(ExprM, BlockM)>,
    diags: Seq<DiagM>,
) -> (Seq<(ExprM, BlockM)>, Seq<DiagM>)
    decreases
            branches,
            if done.len() < branches.len() {
                (branches.len() - done.len()) as nat
            } else {
                0
            },
{
    if done.len() >= branches.len() {
        (done, diags)
    } else {
        let (cond, body) = branches[done.len() as int];
        let c = check_expr(cx, cond, None, diags);
        let d = bool_diags(cx, c.ty, cond.span, c.diags);
        let (b, d) = check_block(cx, fx, body, d);
        check_branches(cx, fx, branches, done.push((c.expr, b)), d)
    }
}

/// A block. What it declares is not in scope after it.
#[verifier::opaque]
pub open spec fn check_block(cx: CheckM, fx: FnM, b: BlockM, diags: Seq<DiagM>) -> (
    BlockM,
    Seq<DiagM>,
)
    decreases b, 0nat,
{
    let (done, d) = check_stmts(cx, fx, b.stmts, Seq::empty(), diags);
    (BlockM { stmts: done }, d)
}

/// Checks the statements after those that are `done`.
#[verifier::opaque]
pub open spec fn check_stmts(
    cx: CheckM,
    fx: FnM,
    stmts: Seq<StmtM>,
    done: Seq<StmtM>,
    diags: Seq<DiagM>,
) -> (Seq<StmtM>, Seq<DiagM>)
    decreases
            stmts,
            if done.len() < stmts.len() {
                (stmts.len() - done.len()) as nat
            } else {
                0
            },
{
    if done.len() >= stmts.len() {
        (done, diags)
    } else {
        let r = check_stmt(cx, fx, stmts[done.len() as int], diags);
        check_stmts(CheckM { vars: r.vars, ..cx }, fx, stmts, done.push(r.stmt), r.diags)
    }
}

// ---------------------------------------------------------------------------
// Functions
// ---------------------------------------------------------------------------

/// Whether control cannot reach the end of the block: its last statement
/// returns a value.
pub open spec fn block_returns(b: BlockM) -> bool
    decreases b,
{
    b.stmts.len() > 0 && stmt_returns(b.stmts.last())
}

pub open spec fn stmt_returns(s: StmtM) -> bool
    decreases s,
{
    match s {
        StmtM::Return { value, .. } => value is Some,
        StmtM::If { branches, else_block, .. } => match else_block {
            Some(b) => all_return(branches) && block_returns(b),
            None => false,
        },
        _ => false,
    }
}

/// Whether each of the branches returns.
pub open spec fn all_return(branches: Seq<(ExprM, BlockM)>) -> bool
    decreases branches,
{
    branches.len() == 0 || (block_returns(branches.last().1) && all_return(branches.drop_last()))
}

/// The names `i64` and `f64` are not structs, but `extend` can add methods to
/// them.
pub open spec fn is_primitive(name: Seq<char>) -> bool {
    name == "i64"@ || name == "f64"@
}

/// The type that has the name of the struct or machine type.
pub open spec fn self_type(name: Seq<char>) -> TypeM {
    if name == "i64"@ {
        TypeM::I64
    } else if name == "f64"@ {
        TypeM::F64
    } else {
        TypeM::Named(name)
    }
}

/// The type that an `extend` adds methods to.
pub open spec fn extended_type(e: ExtendDeclM) -> TypeM {
    match e.module {
        Some(m) => TypeM::Qualified(m, e.name),
        None => self_type(e.name),
    }
}

/// The variable that a parameter is, in a method of the type `owner`.
pub open spec fn param_var(p: ParamM, owner: TypeM) -> (Seq<char>, TypeM) {
    match p.kind {
        ParamKindM::Named { name, ty } => (name, ty),
        ParamKindM::SelfRef => ("self"@, TypeM::Ref(Box::new(owner))),
        ParamKindM::SelfMutRef => ("self"@, TypeM::MutRef(Box::new(owner))),
        ParamKindM::SelfMove => ("self"@, owner),
    }
}

pub open spec fn param_vars(params: Seq<ParamM>, owner: TypeM) -> Seq<(Seq<char>, TypeM)> {
    Seq::new(params.len(), |i: int| param_var(params[i], owner))
}

/// What is checked, and the text that diagnostics show.
pub struct UnitM {
    pub file: Seq<char>,
    pub src: Seq<char>,
    pub env: EnvM,
}

impl UnitM {
    pub open spec fn diag(
        self,
        span: Span,
        code: Seq<char>,
        msg: Seq<char>,
        label: Seq<char>,
    ) -> DiagM {
        diag_in(self.file, self.src, span, code, msg, label)
    }

    /// The place with those variables in scope.
    pub open spec fn at(self, vars: Seq<(Seq<char>, TypeM)>, raw: bool) -> CheckM {
        CheckM { file: self.file, src: self.src, env: self.env, vars, raw }
    }
}

/// A function, which is a method if `owner` is the type of a struct.
#[verifier::opaque]
pub open spec fn check_fn(
    u: UnitM,
    f: FnDeclM,
    owner: TypeM,
    raw: bool,
    diags: Seq<DiagM>,
) -> (FnDeclM, Seq<DiagM>) {
    let cx = u.at(param_vars(f.params, owner), raw);
    let fx = FnM { return_type: f.return_type, in_loop: false };
    let (body, d) = check_block(cx, fx, f.body, diags);
    (
        FnDeclM { body, ..f },
        if !(f.return_type is Void) && !block_returns(body) {
            d.push(
                u.diag(f.span, "E410"@, "not all paths return a value"@, "missing return"@),
            )
        } else {
            d
        },
    )
}

/// Checks the first `n` of the functions.
#[verifier::opaque]
pub open spec fn check_fns(
    u: UnitM,
    fs: Seq<FnDeclM>,
    n: int,
    owner: TypeM,
    raw: bool,
    diags: Seq<DiagM>,
) -> (Seq<FnDeclM>, Seq<DiagM>)
    decreases n,
{
    if n <= 0 || n > fs.len() {
        (Seq::empty(), diags)
    } else {
        let (done, d) = check_fns(u, fs, n - 1, owner, raw, diags);
        let (f, d) = check_fn(u, fs[n - 1], owner, raw, d);
        (done.push(f), d)
    }
}

// ---------------------------------------------------------------------------
// Programs
// ---------------------------------------------------------------------------

#[verifier::opaque]
pub open spec fn check_item(u: UnitM, item: ItemM, diags: Seq<DiagM>) -> (ItemM, Seq<DiagM>) {
    match item {
        ItemM::Fn(f) => {
            let (f, d) = check_fn(u, f, self_type(Seq::empty()), false, diags);
            (ItemM::Fn(f), d)
        },
        ItemM::Struct(s) => {
            let (methods, d) = check_fns(
                u,
                s.methods,
                s.methods.len() as int,
                self_type(s.name),
                u.env.machine_backed(s.name),
                diags,
            );
            (ItemM::Struct(StructDeclM { methods, ..s }), d)
        },
        ItemM::Extend(e) => {
            let (methods, d) = check_fns(
                u,
                e.methods,
                e.methods.len() as int,
                extended_type(e),
                is_primitive(e.name),
                diags,
            );
            (ItemM::Extend(ExtendDeclM { methods, ..e }), d)
        },
        ItemM::Import(_) => (item, diags),
    }
}

/// Checks the first `n` of the items.
#[verifier::opaque]
pub open spec fn check_items(u: UnitM, items: Seq<ItemM>, n: int, diags: Seq<DiagM>) -> (
    Seq<ItemM>,
    Seq<DiagM>,
)
    decreases n,
{
    if n <= 0 || n > items.len() {
        (Seq::empty(), diags)
    } else {
        let (done, d) = check_items(u, items, n - 1, diags);
        let (item, d) = check_item(u, items[n - 1], d);
        (done.push(item), d)
    }
}

/// The place of a module that declares `own`.
pub open spec fn inside(u: UnitM, own: ModuleInfoM) -> UnitM {
    UnitM { env: EnvM { own, ..u.env }, ..u }
}

/// Checks the items of the first `n` modules, whose declarations are `infos`. In
/// a module its own names come first.
#[verifier::opaque]
pub open spec fn check_modules(
    u: UnitM,
    infos: Seq<(Seq<char>, ModuleInfoM)>,
    modules: Seq<(Seq<char>, ProgramM)>,
    n: int,
    diags: Seq<DiagM>,
) -> (Seq<(Seq<char>, ProgramM)>, Seq<DiagM>)
    decreases n,
{
    if n <= 0 || n > modules.len() {
        (Seq::empty(), diags)
    } else {
        let (done, d) = check_modules(u, infos, modules, n - 1, diags);
        let (name, program) = modules[n - 1];
        let (items, d) = check_items(
            inside(u, infos[n - 1].1),
            program.items,
            program.items.len() as int,
            d,
        );
        (done.push((name, ProgramM { items })), d)
    }
}

/// The declarations of a list of items, and the names in use.
pub struct Collected {
    pub names: Seq<(Seq<char>, Span)>,
    pub structs: Seq<StructInfoM>,
    pub functions: Seq<SigM>,
    pub diags: Seq<DiagM>,
}

/// Where the last of the first `n` names that is that name was declared.
pub open spec fn find_name(names: Seq<(Seq<char>, Span)>, name: Seq<char>, n: int) -> Option<Span>
    decreases n,
{
    if n <= 0 || n > names.len() {
        None
    } else if names[n - 1].0 == name {
        Some(names[n - 1].1)
    } else {
        find_name(names, name, n - 1)
    }
}

pub open spec fn duplicate(
    file: Seq<char>,
    src: Seq<char>,
    span: Span,
    name: Seq<char>,
    what: Seq<char>,
    first: Span,
) -> DiagM {
    diag_in(
        file,
        src,
        span,
        "E412"@,
        "duplicate "@ + what + " `"@ + name + "` (first declared at line "@ + text::decimal(
            first.line as nat,
        ) + ")"@,
        "duplicate declaration"@,
    )
}

/// The declarations with one more item; of two items of one name the first
/// counts.
#[verifier::opaque]
pub open spec fn collect_item(
    file: Seq<char>,
    src: Seq<char>,
    c: Collected,
    item: ItemM,
    what: Seq<char>,
) -> Collected {
    match item {
        ItemM::Struct(s) => match find_name(c.names, s.name, c.names.len() as int) {
            Some(first) => Collected {
                names: c.names.push((s.name, s.span)),
                diags: c.diags.push(duplicate(file, src, s.span, s.name, what, first)),
                ..c
            },
            None => Collected {
                names: c.names.push((s.name, s.span)),
                structs: c.structs.push(struct_info_of(s)),
                ..c
            },
        },
        ItemM::Fn(f) => match find_name(c.names, f.name, c.names.len() as int) {
            Some(first) => Collected {
                names: c.names.push((f.name, f.span)),
                diags: c.diags.push(duplicate(file, src, f.span, f.name, what, first)),
                ..c
            },
            None => Collected {
                names: c.names.push((f.name, f.span)),
                functions: c.functions.push(sig_of(f)),
                ..c
            },
        },
        _ => c,
    }
}

/// The declarations of the first `n` items.
#[verifier::opaque]
pub open spec fn collect(
    file: Seq<char>,
    src: Seq<char>,
    items: Seq<ItemM>,
    n: int,
    what: Seq<char>,
    diags: Seq<DiagM>,
) -> Collected
    decreases n,
{
    if n <= 0 || n > items.len() {
        Collected { names: Seq::empty(), structs: Seq::empty(), functions: Seq::empty(), diags }
    } else {
        collect_item(
            file,
            src,
            collect(file, src, items, n - 1, what, diags),
            items[n - 1],
            what,
        )
    }
}

/// The declarations of the first `n` modules.
#[verifier::opaque]
pub open spec fn collect_modules(
    file: Seq<char>,
    src: Seq<char>,
    modules: Seq<(Seq<char>, ProgramM)>,
    n: int,
    diags: Seq<DiagM>,
) -> (Seq<(Seq<char>, ModuleInfoM)>, Seq<DiagM>)
    decreases n,
{
    if n <= 0 || n > modules.len() {
        (Seq::empty(), diags)
    } else {
        let (done, d) = collect_modules(file, src, modules, n - 1, diags);
        let (name, program) = modules[n - 1];
        let c = collect(
            file,
            src,
            program.items,
            program.items.len() as int,
            "module item"@,
            d,
        );
        (
            done.push((name, ModuleInfoM { structs: c.structs, functions: c.functions })),
            c.diags,
        )
    }
}

/// Whether two structs have the same fields, in the same order.
pub open spec fn same_layout(a: StructInfoM, b: StructInfoM) -> bool {
    a.fields.len() == b.fields.len() && forall|i: int|
        0 <= i < a.fields.len() ==> (#[trigger] a.fields[i]).name == b.fields[i].name
            && a.fields[i].ty == b.fields[i].ty
}

/// A module as it is seen from the program: its name, its structs, and those of
/// the program.
pub struct OutsideM {
    pub module: Seq<char>,
    pub structs: Seq<StructInfoM>,
    pub top: Seq<StructInfoM>,
}

impl OutsideM {
    /// Whether the name has to be qualified outside the module: it is that of one
    /// of its structs, and not that of the same struct in the program, such as one
    /// that both have from a third file. The name of the truth values is never
    /// qualified, since conditions ask for it as it is.
    pub open spec fn is_own(self, name: Seq<char>) -> bool {
        name != "bool"@ && match find_struct(self.structs, name, 0) {
            None => false,
            Some(s) => match find_struct(self.top, name, 0) {
                Some(t) => !same_layout(s, t),
                None => true,
            },
        }
    }
}

/// A type of the module as it is written outside: the names of the module's
/// structs are qualified.
pub open spec fn outward(ty: TypeM, o: OutsideM) -> TypeM
    decreases ty,
{
    match ty {
        TypeM::Named(n) => if o.is_own(n) {
            TypeM::Qualified(o.module, n)
        } else {
            ty
        },
        TypeM::Ref(inner) => TypeM::Ref(Box::new(outward(*inner, o))),
        TypeM::MutRef(inner) => TypeM::MutRef(Box::new(outward(*inner, o))),
        _ => ty,
    }
}

pub open spec fn outward_param(p: ParamM, o: OutsideM) -> ParamM {
    match p.kind {
        ParamKindM::Named { name, ty } => ParamM {
            kind: ParamKindM::Named { name, ty: outward(ty, o) },
            ..p
        },
        _ => p,
    }
}

pub open spec fn outward_sig(s: SigM, o: OutsideM) -> SigM {
    SigM {
        params: Seq::new(s.params.len(), |i: int| outward_param(s.params[i], o)),
        return_type: outward(s.return_type, o),
        ..s
    }
}

pub open spec fn outward_sigs(sigs: Seq<SigM>, o: OutsideM) -> Seq<SigM> {
    Seq::new(sigs.len(), |i: int| outward_sig(sigs[i], o))
}

pub open spec fn outward_field(f: FieldDeclM, o: OutsideM) -> FieldDeclM {
    FieldDeclM { ty: outward(f.ty, o), ..f }
}

pub open spec fn outward_struct(s: StructInfoM, o: OutsideM) -> StructInfoM {
    StructInfoM {
        name: s.name,
        fields: Seq::new(s.fields.len(), |i: int| outward_field(s.fields[i], o)),
        methods: outward_sigs(s.methods, o),
    }
}

/// What a module declares, as it is seen from a program with the structs `top`.
pub open spec fn outward_module(
    name: Seq<char>,
    info: ModuleInfoM,
    top: Seq<StructInfoM>,
) -> ModuleInfoM {
    let structs = info.structs;
    let o = OutsideM { module: name, structs, top };
    ModuleInfoM {
        structs: Seq::new(structs.len(), |i: int| outward_struct(structs[i], o)),
        functions: outward_sigs(info.functions, o),
    }
}

pub open spec fn outward_modules(
    infos: Seq<(Seq<char>, ModuleInfoM)>,
    top: Seq<StructInfoM>,
) -> Seq<(Seq<char>, ModuleInfoM)> {
    Seq::new(infos.len(), |i: int| (infos[i].0, outward_module(infos[i].0, infos[i].1, top)))
}

/// The place of the first struct of that name, from the `i`-th on.
pub open spec fn struct_index(structs: Seq<StructInfoM>, name: Seq<char>, i: int) -> Option<int>
    decreases structs.len() - i,
{
    if i < 0 || i >= structs.len() {
        None
    } else if structs[i].name == name {
        Some(i)
    } else {
        struct_index(structs, name, i + 1)
    }
}

/// The place of the first module of that name, from the `i`-th on.
pub open spec fn module_index(
    modules: Seq<(Seq<char>, ModuleInfoM)>,
    name: Seq<char>,
    i: int,
) -> Option<int>
    decreases modules.len() - i,
{
    if i < 0 || i >= modules.len() {
        None
    } else if modules[i].0 == name {
        Some(i)
    } else {
        module_index(modules, name, i + 1)
    }
}

/// The last of the first `n` functions that has that name.
pub open spec fn last_sig(sigs: Seq<SigM>, name: Seq<char>, n: int) -> Option<SigM>
    decreases n,
{
    if n <= 0 || n > sigs.len() {
        None
    } else if sigs[n - 1].name == name {
        Some(sigs[n - 1])
    } else {
        last_sig(sigs, name, n - 1)
    }
}

/// The diagnostics on those of the methods from the `from`-th up to the `n`-th
/// that have the name of a method before them.
pub open spec fn duplicate_methods(
    file: Seq<char>,
    src: Seq<char>,
    methods: Seq<SigM>,
    from: int,
    n: int,
    diags: Seq<DiagM>,
) -> Seq<DiagM>
    decreases n,
{
    if n <= 0 || n <= from || n > methods.len() {
        diags
    } else {
        let before = duplicate_methods(file, src, methods, from, n - 1, diags);
        let m = methods[n - 1];
        match last_sig(methods, m.name, n - 1) {
            Some(first) => before.push(
                duplicate(file, src, m.span, m.name, "method"@, first.span),
            ),
            None => before,
        }
    }
}

/// The methods with those that `extend` adds, and the diagnostics on those.
pub open spec fn with_methods(
    file: Seq<char>,
    src: Seq<char>,
    methods: Seq<SigM>,
    added: Seq<FnDeclM>,
    diags: Seq<DiagM>,
) -> (Seq<SigM>, Seq<DiagM>) {
    let all = methods + sigs_of(added);
    (
        all,
        duplicate_methods(file, src, all, methods.len() as int, all.len() as int, diags),
    )
}

pub open spec fn no_target(
    u: UnitM,
    e: ExtendDeclM,
    shown: Seq<char>,
    label: Seq<char>,
    diags: Seq<DiagM>,
) -> (UnitM, Seq<DiagM>) {
    (
        u,
        diags.push(
            u.diag(e.span, "E4D0"@, "extend target `"@ + shown, label),
        ),
    )
}

/// The declarations after an `extend`.
#[verifier::opaque]
pub open spec fn extend(u: UnitM, e: ExtendDeclM, diags: Seq<DiagM>) -> (UnitM, Seq<DiagM>) {
    match e.module {
        Some(module) => match module_index(u.env.modules, module, 0) {
            None => no_target(
                u,
                e,
                module + "::"@ + e.name + "` not found (module not imported)"@,
                "unknown module"@,
                diags,
            ),
            Some(m) => {
                let (name, info) = u.env.modules[m];
                match struct_index(info.structs, e.name, 0) {
                    None => no_target(
                        u,
                        e,
                        module + "::"@ + e.name + "` not found"@,
                        "unknown struct"@,
                        diags,
                    ),
                    Some(i) => {
                        let s = info.structs[i];
                        let (methods, d) = with_methods(
                            u.file,
                            u.src,
                            s.methods,
                            e.methods,
                            diags,
                        );
                        let structs = info.structs.update(i, StructInfoM { methods, ..s });
                        let modules = u.env.modules.update(
                            m,
                            (name, ModuleInfoM { structs, ..info }),
                        );
                        (UnitM { env: EnvM { modules, ..u.env }, ..u }, d)
                    },
                }
            },
        },
        None => if e.name == "i64"@ {
            let (methods, d) = with_methods(
                u.file,
                u.src,
                u.env.i64_methods,
                e.methods,
                diags,
            );
            (UnitM { env: EnvM { i64_methods: methods, ..u.env }, ..u }, d)
        } else if e.name == "f64"@ {
            let (methods, d) = with_methods(
                u.file,
                u.src,
                u.env.f64_methods,
                e.methods,
                diags,
            );
            (UnitM { env: EnvM { f64_methods: methods, ..u.env }, ..u }, d)
        } else {
            match struct_index(u.env.structs, e.name, 0) {
                None => no_target(u, e, e.name + "` not found"@, "unknown struct"@, diags),
                Some(i) => {
                    let s = u.env.structs[i];
                    let (methods, d) = with_methods(
                        u.file,
                        u.src,
                        s.methods,
                        e.methods,
                        diags,
                    );
                    let structs = u.env.structs.update(i, StructInfoM { methods, ..s });
                    (UnitM { env: EnvM { structs, ..u.env }, ..u }, d)
                },
            }
        },
    }
}

/// The declarations after the first `n` items were looked at for `extend`.
#[verifier::opaque]
pub open spec fn extend_all(u: UnitM, items: Seq<ItemM>, n: int, diags: Seq<DiagM>) -> (
    UnitM,
    Seq<DiagM>,
)
    decreases n,
{
    if n <= 0 || n > items.len() {
        (u, diags)
    } else {
        let (u1, d) = extend_all(u, items, n - 1, diags);
        match items[n - 1] {
            ItemM::Extend(e) => extend(u1, e, d),
            _ => (u1, d),
        }
    }
}

/// The struct of a module with the methods that the program adds to it, which are
/// those that it has from outside besides its own.
pub open spec fn inward_struct(own: StructInfoM, outside: StructInfoM) -> StructInfoM {
    let n = own.methods.len() as int;
    let m = outside.methods.len() as int;
    if n <= m {
        StructInfoM { methods: own.methods + outside.methods.subrange(n, m), ..own }
    } else {
        own
    }
}

pub open spec fn inward_module(own: ModuleInfoM, outside: ModuleInfoM) -> ModuleInfoM {
    ModuleInfoM {
        structs: Seq::new(
            own.structs.len(),
            |k: int|
                if k < outside.structs.len() {
                    inward_struct(own.structs[k], outside.structs[k])
                } else {
                    own.structs[k]
                },
        ),
        functions: own.functions,
    }
}

/// What the modules declare, as they say so themselves, with the methods that the
/// program adds.
pub open spec fn inward_modules(
    infos: Seq<(Seq<char>, ModuleInfoM)>,
    outside: Seq<(Seq<char>, ModuleInfoM)>,
) -> Seq<(Seq<char>, ModuleInfoM)> {
    Seq::new(
        infos.len(),
        |i: int|
            (
                infos[i].0,
                if i < outside.len() {
                    inward_module(infos[i].1, outside[i].1)
                } else {
                    infos[i].1
                },
            ),
    )
}

/// There must be a function `main` without parameters that returns `i64`,
/// `int` or nothing.
#[verifier::opaque]
pub open spec fn check_main(u: UnitM, diags: Seq<DiagM>) -> Seq<DiagM> {
    match find_sig(u.env.functions, "main"@, 0) {
        None => diags.push(
            error::plain_diag(
                "E400"@,
                "no `main` function found"@,
                u.file,
                1,
                1,
                Seq::empty(),
            ),
        ),
        Some(m) => {
            let ty = m.return_type;
            let d = if ty is I64 || ty == TypeM::Named("int"@) || ty is Void {
                diags
            } else {
                diags.push(
                    u.diag(
                        m.span,
                        "E401"@,
                        "`main` must return `i64`, `int`, or `void`, found `"@ + ty.shown()
                            + "`"@,
                        "invalid main signature"@,
                    ),
                )
            };
            if m.params.len() == 0 {
                d
            } else {
                d.push(
                    u.diag(
                        m.span,
                        "E402"@,
                        "`main` must take no parameters"@,
                        "remove parameters"@,
                    ),
                )
            }
        },
    }
}

/// The declarations of a program and its modules, what each module declares as it
/// is seen inside the module, and the diagnostics on them.
#[verifier::opaque]
pub open spec fn declarations(
    file: Seq<char>,
    src: Seq<char>,
    program: ProgramM,
    modules: Seq<(Seq<char>, ProgramM)>,
) -> (UnitM, Seq<(Seq<char>, ModuleInfoM)>, Seq<DiagM>) {
    let n = program.items.len() as int;
    let c = collect(file, src, program.items, n, "top-level item"@, Seq::empty());
    let (infos, d) = collect_modules(file, src, modules, modules.len() as int, c.diags);
    let env = EnvM {
        own: ModuleInfoM { structs: Seq::empty(), functions: Seq::empty() },
        structs: c.structs,
        functions: c.functions,
        modules: outward_modules(infos, c.structs),
        i64_methods: Seq::empty(),
        f64_methods: Seq::empty(),
    };
    let (u, d) = extend_all(UnitM { file, src, env }, program.items, n, d);
    (u, inward_modules(infos, u.env.modules), d)
}

/// A checked program with its modules.
pub struct CheckedProgram {
    pub program: ProgramM,
    pub modules: Seq<(Seq<char>, ProgramM)>,
    pub diags: Seq<DiagM>,
}

/// Checks a program with its modules.
pub open spec fn check_program(
    file: Seq<char>,
    src: Seq<char>,
    program: ProgramM,
    modules: Seq<(Seq<char>, ProgramM)>,
) -> CheckedProgram {
    let (u, infos, d) = declarations(file, src, program, modules);
    let (items, d) = check_items(u, program.items, program.items.len() as int, d);
    let (done, d) = check_modules(u, infos, modules, modules.len() as int, d);
    CheckedProgram { program: ProgramM { items }, modules: done, diags: check_main(u, d) }
}

} // verus!
