//! What the names, the types and the arguments of a program stand for: which
//! declaration is found under a name, which types fit, and which calls are
//! accepted.

use vstd::prelude::*;

use crate::ast::{ExprKindM, ExprM, FieldDeclM, ParamM, Span};
use crate::error::DiagM;
use crate::init_order;
use crate::soundness;
use crate::types::TypeM;
use crate::typing;
use crate::typing::{CheckM, EnvM, ModuleInfoM, SigM, StructInfoM};

verus! {

// ---------------------------------------------------------------------------
// Names
// ---------------------------------------------------------------------------

/// Whether `i` is the first place of the name.
pub open spec fn first_of(names: Seq<Seq<char>>, name: Seq<char>, i: int) -> bool {
    &&& 0 <= i < names.len()
    &&& names[i] == name
    &&& forall|j: int| 0 <= j < i ==> #[trigger] names[j] != name
}

/// Whether `i` is the last place of the name.
pub open spec fn last_of(names: Seq<Seq<char>>, name: Seq<char>, i: int) -> bool {
    &&& 0 <= i < names.len()
    &&& names[i] == name
    &&& forall|j: int| i < j < names.len() ==> #[trigger] names[j] != name
}

pub open spec fn struct_names(structs: Seq<StructInfoM>) -> Seq<Seq<char>> {
    Seq::new(structs.len(), |i: int| structs[i].name)
}

pub open spec fn sig_names(sigs: Seq<SigM>) -> Seq<Seq<char>> {
    Seq::new(sigs.len(), |i: int| sigs[i].name)
}

pub open spec fn module_names(modules: Seq<(Seq<char>, ModuleInfoM)>) -> Seq<Seq<char>> {
    Seq::new(modules.len(), |i: int| modules[i].0)
}

pub open spec fn field_names(fields: Seq<FieldDeclM>) -> Seq<Seq<char>> {
    Seq::new(fields.len(), |i: int| fields[i].name)
}

pub open spec fn var_names(vars: Seq<(Seq<char>, TypeM)>) -> Seq<Seq<char>> {
    Seq::new(vars.len(), |i: int| vars[i].0)
}

proof fn struct_found(structs: Seq<StructInfoM>, name: Seq<char>, i: int)
    requires
        0 <= i <= structs.len(),
        forall|j: int| 0 <= j < i ==> (#[trigger] structs[j]).name != name,
    ensures
        match typing::find_struct(structs, name, i) {
            Some(s) => exists|k: int| #[trigger]
                first_of(struct_names(structs), name, k) && structs[k] == s,
            None => !struct_names(structs).contains(name),
        },
    decreases structs.len() - i,
{
    let names = struct_names(structs);
    if i < structs.len() {
        if structs[i].name == name {
            assert(first_of(names, name, i));
        } else {
            struct_found(structs, name, i + 1);
        }
    } else if names.contains(name) {
        let k = choose|k: int| 0 <= k < names.len() && names[k] == name;
        assert(structs[k].name == name);
    }
}

/// A struct is found by its name: the first one that has it, and none just if
/// none has it.
pub proof fn struct_is_found_by_its_name(structs: Seq<StructInfoM>, name: Seq<char>)
    ensures
        match typing::find_struct(structs, name, 0) {
            Some(s) => exists|k: int| #[trigger]
                first_of(struct_names(structs), name, k) && structs[k] == s,
            None => !struct_names(structs).contains(name),
        },
{
    struct_found(structs, name, 0);
}

proof fn sig_found(sigs: Seq<SigM>, name: Seq<char>, i: int)
    requires
        0 <= i <= sigs.len(),
        forall|j: int| 0 <= j < i ==> (#[trigger] sigs[j]).name != name,
    ensures
        match typing::find_sig(sigs, name, i) {
            Some(s) => exists|k: int| #[trigger]
                first_of(sig_names(sigs), name, k) && sigs[k] == s,
            None => !sig_names(sigs).contains(name),
        },
    decreases sigs.len() - i,
{
    let names = sig_names(sigs);
    if i < sigs.len() {
        if sigs[i].name == name {
            assert(first_of(names, name, i));
        } else {
            sig_found(sigs, name, i + 1);
        }
    } else if names.contains(name) {
        let k = choose|k: int| 0 <= k < names.len() && names[k] == name;
        assert(sigs[k].name == name);
    }
}

/// A function or a method is found by its name: the first one that has it, and
/// none just if none has it.
pub proof fn function_is_found_by_its_name(sigs: Seq<SigM>, name: Seq<char>)
    ensures
        match typing::find_sig(sigs, name, 0) {
            Some(s) => exists|k: int| #[trigger]
                first_of(sig_names(sigs), name, k) && sigs[k] == s,
            None => !sig_names(sigs).contains(name),
        },
{
    sig_found(sigs, name, 0);
}

proof fn module_found(modules: Seq<(Seq<char>, ModuleInfoM)>, name: Seq<char>, i: int)
    requires
        0 <= i <= modules.len(),
        forall|j: int| 0 <= j < i ==> (#[trigger] modules[j]).0 != name,
    ensures
        match typing::find_module(modules, name, i) {
            Some(m) => exists|k: int| #[trigger]
                first_of(module_names(modules), name, k) && modules[k].1 == m,
            None => !module_names(modules).contains(name),
        },
    decreases modules.len() - i,
{
    let names = module_names(modules);
    if i < modules.len() {
        if modules[i].0 == name {
            assert(first_of(names, name, i));
        } else {
            module_found(modules, name, i + 1);
        }
    } else if names.contains(name) {
        let k = choose|k: int| 0 <= k < names.len() && names[k] == name;
        assert(modules[k].0 == name);
    }
}

/// A module is found by its name.
pub proof fn module_is_found_by_its_name(modules: Seq<(Seq<char>, ModuleInfoM)>, name: Seq<char>)
    ensures
        match typing::find_module(modules, name, 0) {
            Some(m) => exists|k: int| #[trigger]
                first_of(module_names(modules), name, k) && modules[k].1 == m,
            None => !module_names(modules).contains(name),
        },
{
    module_found(modules, name, 0);
}

proof fn field_found(fields: Seq<FieldDeclM>, name: Seq<char>, i: int)
    requires
        0 <= i <= fields.len(),
        forall|j: int| 0 <= j < i ==> (#[trigger] fields[j]).name != name,
    ensures
        match typing::first_field(fields, name, i) {
            Some(ty) => exists|k: int| #[trigger]
                first_of(field_names(fields), name, k) && fields[k].ty == ty,
            None => !field_names(fields).contains(name),
        },
    decreases fields.len() - i,
{
    let names = field_names(fields);
    if i < fields.len() {
        if fields[i].name == name {
            assert(first_of(names, name, i));
        } else {
            field_found(fields, name, i + 1);
        }
    } else if names.contains(name) {
        let k = choose|k: int| 0 <= k < names.len() && names[k] == name;
        assert(fields[k].name == name);
    }
}

proof fn last_field_found(fields: Seq<FieldDeclM>, name: Seq<char>, n: int)
    requires
        0 <= n <= fields.len(),
        forall|j: int| n <= j < fields.len() ==> (#[trigger] fields[j]).name != name,
    ensures
        match typing::last_field(fields, name, n) {
            Some(ty) => exists|k: int| #[trigger]
                last_of(field_names(fields), name, k) && fields[k].ty == ty,
            None => !field_names(fields).contains(name),
        },
    decreases n,
{
    let names = field_names(fields);
    if n > 0 {
        if fields[n - 1].name == name {
            assert(last_of(names, name, n - 1));
        } else {
            last_field_found(fields, name, n - 1);
        }
    } else if names.contains(name) {
        let k = choose|k: int| 0 <= k < names.len() && names[k] == name;
        assert(fields[k].name == name);
    }
}

/// A field is found by its name, and has the type that its declaration gives it:
/// where it is read, that of the first declaration, and in an initializer that
/// of the last one. The two are the same where no field is declared twice.
pub proof fn field_has_its_declared_type(decl: StructInfoM, name: Seq<char>)
    ensures
        match typing::first_field(decl.fields, name, 0) {
            Some(ty) => exists|k: int| #[trigger]
                first_of(field_names(decl.fields), name, k) && decl.fields[k].ty == ty,
            None => !field_names(decl.fields).contains(name),
        },
        match typing::declared(decl, name) {
            Some(ty) => exists|k: int| #[trigger]
                last_of(field_names(decl.fields), name, k) && decl.fields[k].ty == ty,
            None => !field_names(decl.fields).contains(name),
        },
{
    field_found(decl.fields, name, 0);
    last_field_found(decl.fields, name, decl.fields.len() as int);
}

proof fn var_found(vars: Seq<(Seq<char>, TypeM)>, name: Seq<char>, n: int)
    requires
        0 <= n <= vars.len(),
        forall|j: int| n <= j < vars.len() ==> (#[trigger] vars[j]).0 != name,
    ensures
        match typing::find_var(vars, name, n) {
            Some(ty) => exists|k: int| #[trigger]
                last_of(var_names(vars), name, k) && vars[k].1 == ty,
            None => !var_names(vars).contains(name),
        },
    decreases n,
{
    let names = var_names(vars);
    if n > 0 {
        if vars[n - 1].0 == name {
            assert(last_of(names, name, n - 1));
        } else {
            var_found(vars, name, n - 1);
        }
    } else if names.contains(name) {
        let k = choose|k: int| 0 <= k < names.len() && names[k] == name;
        assert(vars[k].0 == name);
    }
}

/// The latest variable of a name hides the earlier ones: a name stands for it,
/// and for nothing just if no variable has the name.
pub proof fn latest_variable_counts(cx: CheckM, name: Seq<char>)
    ensures
        match cx.lookup(name) {
            Some(ty) => exists|k: int| #[trigger]
                last_of(var_names(cx.vars), name, k) && cx.vars[k].1 == ty,
            None => !var_names(cx.vars).contains(name),
        },
{
    var_found(cx.vars, name, cx.vars.len() as int);
}

/// A bare name stands for what the checked module declares, before what the
/// program declares. A qualified one stands for what that module declares.
pub proof fn own_declarations_come_first(env: EnvM, module: Seq<char>, name: Seq<char>)
    ensures
        match env.lookup_struct(name) {
            Some(s) => if struct_names(env.own.structs).contains(name) {
                exists|k: int| #[trigger]
                    first_of(struct_names(env.own.structs), name, k) && env.own.structs[k] == s
            } else {
                exists|k: int| #[trigger]
                    first_of(struct_names(env.structs), name, k) && env.structs[k] == s
            },
            None => !struct_names(env.own.structs).contains(name) && !struct_names(
                env.structs,
            ).contains(name),
        },
        match env.lookup_fn(name) {
            Some(s) => if sig_names(env.own.functions).contains(name) {
                exists|k: int| #[trigger]
                    first_of(sig_names(env.own.functions), name, k) && env.own.functions[k] == s
            } else {
                exists|k: int| #[trigger]
                    first_of(sig_names(env.functions), name, k) && env.functions[k] == s
            },
            None => !sig_names(env.own.functions).contains(name) && !sig_names(
                env.functions,
            ).contains(name),
        },
        match env.lookup_module_fn(module, name) {
            Some(s) => exists|m: int, k: int| #[trigger]
                first_of(module_names(env.modules), module, m) && #[trigger] first_of(
                    sig_names(env.modules[m].1.functions),
                    name,
                    k,
                ) && env.modules[m].1.functions[k] == s,
            None => forall|m: int| #[trigger]
                first_of(module_names(env.modules), module, m) ==> !sig_names(
                    env.modules[m].1.functions,
                ).contains(name),
        },
        match env.lookup_qualified(module, name) {
            Some(s) => exists|m: int, k: int| #[trigger]
                first_of(module_names(env.modules), module, m) && #[trigger] first_of(
                    struct_names(env.modules[m].1.structs),
                    name,
                    k,
                ) && env.modules[m].1.structs[k] == s,
            None => forall|m: int| #[trigger]
                first_of(module_names(env.modules), module, m) ==> !struct_names(
                    env.modules[m].1.structs,
                ).contains(name),
        },
{
    struct_found(env.own.structs, name, 0);
    struct_found(env.structs, name, 0);
    sig_found(env.own.functions, name, 0);
    sig_found(env.functions, name, 0);
    module_found(env.modules, module, 0);
    if let Some(s) = typing::find_struct(env.own.structs, name, 0) {
        let k = choose|k: int| #[trigger]
            first_of(struct_names(env.own.structs), name, k) && env.own.structs[k] == s;
        assert(struct_names(env.own.structs)[k] == name);
    }
    if let Some(s) = typing::find_sig(env.own.functions, name, 0) {
        let k = choose|k: int| #[trigger]
            first_of(sig_names(env.own.functions), name, k) && env.own.functions[k] == s;
        assert(sig_names(env.own.functions)[k] == name);
    }
    if let Some(m) = typing::find_module(env.modules, module, 0) {
        let i = choose|i: int| #[trigger]
            first_of(module_names(env.modules), module, i) && env.modules[i].1 == m;
        struct_found(m.structs, name, 0);
        sig_found(m.functions, name, 0);
        assert forall|j: int| #[trigger] first_of(module_names(env.modules), module, j) implies i
            == j by {
            if i < j {
                assert(module_names(env.modules)[i] != module);
            } else if j < i {
                assert(module_names(env.modules)[j] != module);
            }
        }
    } else {
        assert forall|j: int| !#[trigger] first_of(module_names(env.modules), module, j) by {
            if first_of(module_names(env.modules), module, j) {
                assert(module_names(env.modules)[j] == module);
            }
        }
    }
}

// ---------------------------------------------------------------------------
// Types
// ---------------------------------------------------------------------------

/// What a type refers to behind all its references.
pub open spec fn target(ty: TypeM) -> TypeM
    decreases ty,
{
    match ty {
        TypeM::Ref(t) => target(*t),
        TypeM::MutRef(t) => target(*t),
        _ => ty,
    }
}

/// Which references a type is behind, from the outermost on: whether each of
/// them lets its target be changed.
pub open spec fn layers(ty: TypeM) -> Seq<bool>
    decreases ty,
{
    match ty {
        TypeM::Ref(t) => seq![false] + layers(*t),
        TypeM::MutRef(t) => seq![true] + layers(*t),
        _ => Seq::empty(),
    }
}

/// Whether two types that are no references are the same, where the name of a
/// module's struct may be written with or without the module.
pub open spec fn same_target(a: TypeM, b: TypeM) -> bool {
    ||| a == b
    ||| a is Named && b is Qualified && a->Named_0 == b->Qualified_1
    ||| a is Qualified && b is Named && a->Qualified_1 == b->Named_0
}

/// A value fits where its type has as many references as the one that is asked
/// for, each of which allows changes if the other does, and where what they refer
/// to is the same. So a `&mut T` may stand for a `&T` and never the other way.
pub proof fn types_fit_by_layers(env: EnvM, expected: TypeM, found: TypeM)
    ensures
        env.compatible(expected, found) <==> {
            &&& layers(expected).len() == layers(found).len()
            &&& forall|i: int|
                0 <= i < layers(expected).len() && #[trigger] layers(expected)[i]
                    ==> layers(found)[i]
            &&& same_target(target(expected), target(found))
        },
    decreases expected,
{
    let le = layers(expected);
    let lf = layers(found);
    match (expected, found) {
        (TypeM::Ref(a), TypeM::Ref(b)) | (TypeM::MutRef(a), TypeM::MutRef(b)) | (
            TypeM::Ref(a),
            TypeM::MutRef(b),
        ) => {
            types_fit_by_layers(env, *a, *b);
            let la = layers(*a);
            let lb = layers(*b);
            assert(forall|i: int| 0 <= i < la.len() ==> la[i] == le[i + 1]);
            assert(forall|i: int| 0 <= i < lb.len() ==> lb[i] == lf[i + 1]);
            assert(le.len() == lf.len() && (forall|i: int|
                0 <= i < le.len() && #[trigger] le[i] ==> lf[i]) ==> (forall|
                i: int,
            |
                0 <= i < la.len() && #[trigger] la[i] ==> lb[i])) by {
                if le.len() == lf.len() && forall|i: int|
                    0 <= i < le.len() && #[trigger] le[i] ==> lf[i] {
                    assert forall|i: int| 0 <= i < la.len() && #[trigger] la[i] implies lb[i] by {
                        assert(le[i + 1]);
                    }
                }
            }
            if expected == found {
                assert(*a == *b);
            }
        },
        (TypeM::MutRef(a), TypeM::Ref(b)) => {
            assert(le[0]);
            assert(!lf[0]);
        },
        _ => {},
    }
}

/// References have the methods and the fields of what they refer to.
pub proof fn references_are_transparent(env: EnvM, ty: TypeM, name: Seq<char>)
    ensures
        env.method_of(ty, name) == env.method_of(target(ty), name),
        env.struct_of(ty) == env.struct_of(target(ty)),
        env.receiver(ty) == env.receiver(target(ty)),
    decreases ty,
{
    match ty {
        TypeM::Ref(t) => references_are_transparent(env, *t, name),
        TypeM::MutRef(t) => references_are_transparent(env, *t, name),
        _ => {},
    }
}

/// The methods of the struct that a value of the type is, or those that `extend`
/// adds to the machine type.
pub open spec fn methods_at(env: EnvM, ty: TypeM) -> Seq<SigM> {
    match target(ty) {
        TypeM::I64 => env.i64_methods,
        TypeM::F64 => env.f64_methods,
        _ => match env.struct_of(ty) {
            Some(s) => s.methods,
            None => Seq::empty(),
        },
    }
}

/// A value has the methods that the struct of its type has, the first of each
/// name; one of a machine type has those that `extend` adds to it.
pub proof fn value_has_the_methods_of_its_struct(env: EnvM, ty: TypeM, name: Seq<char>)
    ensures
        match env.method_of(ty, name) {
            Some(sig) => exists|k: int| #[trigger]
                first_of(sig_names(methods_at(env, ty)), name, k) && methods_at(env, ty)[k] == sig,
            None => !sig_names(methods_at(env, ty)).contains(name),
        },
        target(ty) matches TypeM::Named(n) ==> (env.lookup_struct(n) is Some ==> env.struct_of(ty)
            == env.lookup_struct(n)) && (env.lookup_struct(n) is None && n != "bool"@
            ==> env.struct_of(ty) is None),
        target(ty) matches TypeM::Qualified(m, n) ==> env.struct_of(ty) == env.lookup_qualified(m, n),
{
    references_are_transparent(env, ty, name);
    target_is_no_reference(ty);
    sig_found(methods_at(env, ty), name, 0);
    let t = target(ty);
    assert(env.method_of(t, name) == typing::find_sig(methods_at(env, ty), name, 0));
}

proof fn target_is_no_reference(ty: TypeM)
    ensures
        !(target(ty) is Ref) && !(target(ty) is MutRef),
        target(target(ty)) == target(ty),
    decreases ty,
{
    match ty {
        TypeM::Ref(t) => target_is_no_reference(*t),
        TypeM::MutRef(t) => target_is_no_reference(*t),
        _ => {},
    }
}

/// Values of the machine types `i64` and `f64` and of structs have methods, and
/// so have references to them; values of other types have none.
pub proof fn receivers_are_named(env: EnvM, ty: TypeM)
    ensures
        match target(ty) {
            TypeM::I64 => env.receiver(ty) == Some("i64"@),
            TypeM::F64 => env.receiver(ty) == Some("f64"@),
            TypeM::Named(n) => env.receiver(ty) == Some(n),
            TypeM::Qualified(_, n) => env.receiver(ty) == Some(n),
            _ => env.receiver(ty) is None,
        },
{
    references_are_transparent(env, ty, Seq::empty());
    target_is_no_reference(ty);
}

/// `Type::method` is the first method of that name that the struct has; only
/// where it has none, and the type is `i64` or `f64`, one that is added to the
/// machine type.
pub proof fn static_methods_are_found_by_name(env: EnvM, owner: Seq<char>, method: Seq<char>)
    ensures
        ({
            let own = match env.lookup_struct(owner) {
                Some(s) => s.methods,
                None => Seq::empty(),
            };
            let added = if owner == "i64"@ {
                env.i64_methods
            } else if owner == "f64"@ {
                env.f64_methods
            } else {
                Seq::empty()
            };
            match env.find_method(owner, method) {
                Some(sig) => found_in(own, method, sig) || (!sig_names(own).contains(method)
                    && found_in(added, method, sig)),
                None => !sig_names(own).contains(method) && !sig_names(added).contains(method),
            }
        }),
{
    let own = match env.lookup_struct(owner) {
        Some(s) => s.methods,
        None => Seq::empty(),
    };
    let added = if owner == "i64"@ {
        env.i64_methods
    } else if owner == "f64"@ {
        env.f64_methods
    } else {
        Seq::empty()
    };
    sig_found(own, method, 0);
    sig_found(added, method, 0);
}

/// Whether the function is the first of that name among these.
pub open spec fn found_in(sigs: Seq<SigM>, name: Seq<char>, sig: SigM) -> bool {
    exists|k: int| #[trigger] first_of(sig_names(sigs), name, k) && sigs[k] == sig
}

proof fn found_in_modules(modules: Seq<(Seq<char>, ModuleInfoM)>, name: Seq<char>, i: int)
    requires
        0 <= i <= modules.len(),
    ensures
        match typing::find_in_modules(modules, name, i) {
            Some(s) => exists|m: int|
                i <= m < modules.len() && #[trigger] declares_first(modules[m].1, name, s)
                    && forall|j: int|
                    i <= j < m ==> !struct_names((#[trigger] modules[j]).1.structs).contains(name),
            None => forall|j: int|
                i <= j < modules.len() ==> !struct_names(
                    (#[trigger] modules[j]).1.structs,
                ).contains(name),
        },
    decreases modules.len() - i,
{
    if i < modules.len() {
        struct_found(modules[i].1.structs, name, 0);
        match typing::find_struct(modules[i].1.structs, name, 0) {
            Some(s) => {
                assert(declares_first(modules[i].1, name, s));
            },
            None => found_in_modules(modules, name, i + 1),
        }
    }
}

/// Whether the struct is the first of that name in the module.
pub open spec fn declares_first(m: ModuleInfoM, name: Seq<char>, s: StructInfoM) -> bool {
    exists|k: int| #[trigger] first_of(struct_names(m.structs), name, k) && m.structs[k] == s
}

/// Truth values go by the bare name `bool` also where they come from a module: the
/// first module that declares it. No other struct of a module has a bare name.
pub proof fn truth_values_come_from_anywhere(env: EnvM, n: Seq<char>)
    requires
        env.lookup_struct(n) is None,
    ensures
        n != "bool"@ ==> env.struct_of(TypeM::Named(n)) is None,
        n == "bool"@ ==> match env.struct_of(TypeM::Named(n)) {
            Some(s) => exists|m: int|
                0 <= m < env.modules.len() && #[trigger] declares_first(env.modules[m].1, n, s)
                    && forall|j: int|
                    0 <= j < m ==> !struct_names((#[trigger] env.modules[j]).1.structs).contains(n),
            None => forall|j: int|
                0 <= j < env.modules.len() ==> !struct_names(
                    (#[trigger] env.modules[j]).1.structs,
                ).contains(n),
        },
{
    found_in_modules(env.modules, n, 0);
}

// ---------------------------------------------------------------------------
// Parameters and arguments
// ---------------------------------------------------------------------------

/// How many of the first `n` parameters have a name, that is, are not `self`.
pub open spec fn named_before(params: Seq<ParamM>, n: int) -> nat
    decreases n,
{
    if n <= 0 || n > params.len() {
        0
    } else if params[n - 1].kind is Named {
        named_before(params, n - 1) + 1
    } else {
        named_before(params, n - 1)
    }
}

proof fn named_place(params: Seq<ParamM>, n: int)
    requires
        0 <= n <= params.len(),
    ensures
        typing::named_types(params, n).len() == named_before(params, n),
        forall|k: int|
            0 <= k < n && (#[trigger] params[k]).kind is Named ==> {
                &&& named_before(params, k) < named_before(params, n)
                &&& typing::named_types(params, n)[named_before(params, k) as int]
                    == params[k].kind->ty
            },
    decreases n,
{
    if n > 0 {
        named_place(params, n - 1);
    }
}

proof fn all_named(params: Seq<ParamM>, from: int, n: int)
    requires
        0 <= from <= n <= params.len(),
        forall|k: int| from <= k < params.len() ==> (#[trigger] params[k]).kind is Named,
    ensures
        named_before(params, n) == named_before(params, from) + n - from,
    decreases n,
{
    if n > from {
        all_named(params, from, n - 1);
    }
}

/// Each parameter other than `self` gives its declared type, in the order of the
/// declaration.
pub proof fn parameters_keep_their_places(sig: SigM, k: int)
    requires
        0 <= k < sig.params.len(),
        sig.params[k].kind is Named,
    ensures
        typing::param_types(sig).len() == named_before(sig.params, sig.params.len() as int),
        named_before(sig.params, k) < typing::param_types(sig).len(),
        typing::param_types(sig)[named_before(sig.params, k) as int] == sig.params[k].kind->ty,
{
    named_place(sig.params, sig.params.len() as int);
}

/// The parameter that takes the `i`-th argument: a leading `self` takes none.
pub open spec fn parameter_of(sig: SigM, i: int) -> ParamM {
    if sig.params.len() > 0 && !(sig.params[0].kind is Named) {
        sig.params[i + 1]
    } else {
        sig.params[i]
    }
}

/// Whether `self`, where the function takes it, is the first parameter.
pub open spec fn self_leads(sig: SigM) -> bool {
    forall|k: int| 1 <= k < sig.params.len() ==> (#[trigger] sig.params[k]).kind is Named
}

/// How many arguments a function takes.
pub open spec fn arity(sig: SigM) -> int {
    if sig.params.len() > 0 && !(sig.params[0].kind is Named) {
        sig.params.len() - 1
    } else {
        sig.params.len() as int
    }
}

/// A function takes as many arguments as it has parameters besides `self`, and
/// the `i`-th argument is for the `i`-th of them.
pub proof fn arguments_meet_their_parameters(sig: SigM)
    requires
        self_leads(sig),
    ensures
        typing::param_types(sig).len() == arity(sig),
        forall|i: int|
            0 <= i < arity(sig) ==> #[trigger] typing::param_types(sig)[i] == parameter_of(
                sig,
                i,
            ).kind->ty,
{
    let params = sig.params;
    let n = params.len() as int;
    named_place(params, n);
    let from: int = if n > 0 && !(params[0].kind is Named) {
        1
    } else {
        0
    };
    all_named(params, from, n);
    assert(from == 1 ==> named_before(params, 1) == named_before(params, 0));
    assert forall|i: int| 0 <= i < arity(sig) implies #[trigger] typing::param_types(sig)[i]
        == parameter_of(sig, i).kind->ty by {
        all_named(params, from, i + from);
        assert(params[i + from].kind is Named);
    }
}

/// Whether the expression is accepted as an argument for a parameter of that
/// type.
pub open spec fn accepted(cx: CheckM, a: ExprM, ty: TypeM) -> bool {
    let c = typing::check_expr(cx, a, Some(ty), Seq::empty());
    &&& c.diags.len() == 0
    &&& c.ty is Unknown || cx.env.compatible(ty, c.ty)
}

proof fn args_accepted(
    cx: CheckM,
    shown: Seq<char>,
    params: Seq<TypeM>,
    args: Seq<ExprM>,
    done: Seq<ExprM>,
    diags: Seq<DiagM>,
)
    requires
        done.len() <= args.len() == params.len(),
    ensures
        ({
            let (all, d) = typing::check_args(cx, shown, params, args, done, diags);
            &&& d.len() >= diags.len()
            &&& d.len() == diags.len() <==> forall|i: int|
                done.len() <= i < args.len() ==> accepted(cx, #[trigger] args[i], params[i])
        }),
    decreases args.len() - done.len(),
{
    reveal_with_fuel(typing::check_args, 1);
    reveal_with_fuel(typing::check_expr, 1);
    reveal_with_fuel(typing::check_kind, 1);
    reveal_with_fuel(typing::check_call, 1);
    reveal_with_fuel(typing::check_init, 1);
    reveal_with_fuel(typing::check_inits, 1);
    if done.len() < args.len() {
        let i = done.len() as int;
        let c = typing::check_expr(cx, args[i], typing::hint_at(params, i), diags);
        let d = typing::arg_diags(cx, shown, params, i as nat, c.ty, args[i].span, c.diags);
        init_order::check_expr_alike(cx, args[i], Some(params[i]), diags, Seq::empty());
        soundness::check_expr_facts(cx, args[i], Some(params[i]), diags);
        args_accepted(cx, shown, params, args, done.push(c.expr), d);
        let (all, out) = typing::check_args(cx, shown, params, args, done, diags);
        assert(d.len() == diags.len() <==> accepted(cx, args[i], params[i]));
        if out.len() == diags.len() {
            assert forall|j: int| i <= j < args.len() implies accepted(
                cx,
                #[trigger] args[j],
                params[j],
            ) by {}
        }
        if forall|j: int| i <= j < args.len() ==> accepted(cx, #[trigger] args[j], params[j]) {
            assert(accepted(cx, args[i], params[i]));
        }
    }
}

proof fn args_only_add(
    cx: CheckM,
    shown: Seq<char>,
    params: Seq<TypeM>,
    args: Seq<ExprM>,
    done: Seq<ExprM>,
    diags: Seq<DiagM>,
)
    ensures
        typing::check_args(cx, shown, params, args, done, diags).1.len() >= diags.len(),
    decreases args.len() - done.len(),
{
    reveal_with_fuel(typing::check_args, 1);
    reveal_with_fuel(typing::check_expr, 1);
    reveal_with_fuel(typing::check_kind, 1);
    reveal_with_fuel(typing::check_call, 1);
    reveal_with_fuel(typing::check_init, 1);
    reveal_with_fuel(typing::check_inits, 1);
    if done.len() < args.len() {
        let i = done.len() as int;
        let c = typing::check_expr(cx, args[i], typing::hint_at(params, i), diags);
        let d = typing::arg_diags(cx, shown, params, i as nat, c.ty, args[i].span, c.diags);
        soundness::check_expr_facts(cx, args[i], typing::hint_at(params, i), diags);
        args_only_add(cx, shown, params, args, done.push(c.expr), d);
    }
}

/// Whether the arguments are those that a function takes: as many as it has
/// parameters besides `self`, each accepted for the type that is declared at its
/// place.
pub open spec fn call_fits(cx: CheckM, sig: SigM, args: Seq<ExprM>) -> bool {
    &&& args.len() == arity(sig)
    &&& forall|i: int|
        0 <= i < args.len() ==> accepted(cx, #[trigger] args[i], parameter_of(sig, i).kind->ty)
}

proof fn args_decide(
    cx: CheckM,
    shown: Seq<char>,
    sig: SigM,
    args: Seq<ExprM>,
    span: Span,
    diags: Seq<DiagM>,
)
    requires
        self_leads(sig),
    ensures
        ({
            let params = typing::param_types(sig);
            let d = typing::arg_count_diags(cx, shown, params.len(), args.len(), span, diags);
            let out = typing::check_args(cx, shown, params, args, Seq::empty(), d).1;
            out.len() == diags.len() <==> call_fits(cx, sig, args)
        }),
{
    let params = typing::param_types(sig);
    arguments_meet_their_parameters(sig);
    let d = typing::arg_count_diags(cx, shown, params.len(), args.len(), span, diags);
    args_only_add(cx, shown, params, args, Seq::empty(), d);
    if args.len() == params.len() {
        args_accepted(cx, shown, params, args, Seq::empty(), d);
        let out = typing::check_args(cx, shown, params, args, Seq::empty(), d).1;
        if out.len() == diags.len() {
            assert forall|i: int| 0 <= i < args.len() implies accepted(
                cx,
                #[trigger] args[i],
                parameter_of(sig, i).kind->ty,
            ) by {
                assert(params[i] == parameter_of(sig, i).kind->ty);
            }
        }
        if call_fits(cx, sig, args) {
            assert forall|i: int| 0 <= i < args.len() implies accepted(
                cx,
                #[trigger] args[i],
                params[i],
            ) by {}
        }
    }
}

/// A call of a declared function is accepted just if its arguments are those that
/// the function takes: one for each parameter, of a type that fits the one that
/// is declared at the same place. The call has the type that the function
/// returns.
pub proof fn call_is_accepted_by_its_declaration(
    cx: CheckM,
    e: ExprM,
    name: Seq<char>,
    sig: SigM,
    diags: Seq<DiagM>,
)
    requires
        e.kind matches ExprKindM::Call { callee, .. } && callee.kind == ExprKindM::Ident(name),
        cx.env.lookup_fn(name) == Some(sig),
        self_leads(sig),
    ensures
        typing::check_call(cx, e, diags).diags.len() == diags.len() <==> call_fits(
            cx,
            sig,
            e.kind->args,
        ),
        typing::check_call(cx, e, diags).ty == sig.return_type,
{
    reveal_with_fuel(typing::check_args, 1);
    reveal_with_fuel(typing::check_expr, 1);
    reveal_with_fuel(typing::check_kind, 1);
    reveal_with_fuel(typing::check_call, 1);
    reveal_with_fuel(typing::check_init, 1);
    reveal_with_fuel(typing::check_inits, 1);
    reveal(typing::plain_callee);
    args_decide(cx, sig.name, sig, e.kind->args, e.span, diags);
}

/// A method call whose receiver is accepted is accepted just if its arguments are
/// those that the method takes besides `self`, place by place.
pub proof fn method_call_is_accepted_by_its_declaration(
    cx: CheckM,
    e: ExprM,
    object: ExprM,
    method: Seq<char>,
    sig: SigM,
    diags: Seq<DiagM>,
)
    requires
        e.kind matches ExprKindM::Call { callee, .. } && callee.kind == (ExprKindM::Field {
            object: Box::new(object),
            field: method,
        }),
        typing::check_expr(cx, object, None, diags).diags == diags,
        cx.env.method_of(typing::check_expr(cx, object, None, diags).ty, method) == Some(sig),
        self_leads(sig),
    ensures
        typing::check_call(cx, e, diags).diags.len() == diags.len() <==> call_fits(
            cx,
            sig,
            e.kind->args,
        ),
        typing::check_call(cx, e, diags).ty == sig.return_type,
{
    reveal_with_fuel(typing::check_args, 1);
    reveal_with_fuel(typing::check_expr, 1);
    reveal_with_fuel(typing::check_kind, 1);
    reveal_with_fuel(typing::check_call, 1);
    reveal_with_fuel(typing::check_init, 1);
    reveal_with_fuel(typing::check_inits, 1);
    reveal(typing::method_callee);
    args_decide(cx, sig.name, sig, e.kind->args, e.span, diags);
}

} // verus!
