//! What a program declares: which structs and functions are known under which
//! names, and what `extend` and modules add to them.

use vstd::prelude::*;

use crate::ast::{
    ExtendDeclM, FnDeclM, ItemM, ParamKindM, ParamM, ProgramM, Span, StructDeclM,
};
use crate::diagnosis;
use crate::driver;
use crate::error::DiagM;
use crate::lookups;
use crate::types::TypeM;
use crate::typing;
use crate::typing::{Collected, EnvM, ModuleInfoM, OutsideM, SigM, StructInfoM, UnitM};

verus! {

// ---------------------------------------------------------------------------
// Items
// ---------------------------------------------------------------------------

/// Whether that is what a caller of the function knows.
pub open spec fn describes(sig: SigM, f: FnDeclM) -> bool {
    &&& sig.name == f.name
    &&& sig.params == f.params
    &&& sig.return_type == f.return_type
    &&& sig.span == f.span
}

/// Whether these are the functions, in order.
pub open spec fn describe(sigs: Seq<SigM>, fs: Seq<FnDeclM>) -> bool {
    &&& sigs.len() == fs.len()
    &&& forall|i: int| 0 <= i < fs.len() ==> describes(sigs[i], #[trigger] fs[i])
}

/// Whether that is what the struct declares.
pub open spec fn describes_struct(info: StructInfoM, s: StructDeclM) -> bool {
    &&& info.name == s.name
    &&& info.fields == s.fields
    &&& describe(info.methods, s.methods)
}

/// Whether none of the first `n` items has that name.
pub open spec fn unused(items: Seq<ItemM>, n: int, name: Seq<char>) -> bool {
    forall|j: int| 0 <= j < n ==> driver::item_name(#[trigger] items[j]) != Some(name)
}

/// Whether no struct or function has the name of an earlier one.
pub open spec fn names_apart(items: Seq<ItemM>, n: int) -> bool {
    forall|j: int|
        0 <= j < n ==> (driver::item_name(#[trigger] items[j]) matches Some(name) ==> unused(
            items,
            j,
            name,
        ))
}

spec fn struct_from(items: Seq<ItemM>, i: int, x: StructInfoM) -> bool {
    items[i] matches ItemM::Struct(s) && typing::struct_info_of(s) == x && unused(items, i, s.name)
}

spec fn function_from(items: Seq<ItemM>, i: int, x: SigM) -> bool {
    items[i] matches ItemM::Fn(f) && typing::sig_of(f) == x && unused(items, i, f.name)
}

spec fn noted(c: Collected, items: Seq<ItemM>, n: int) -> bool {
    forall|name: Seq<char>| #[trigger]
        unused(items, n, name) <==> typing::find_name(c.names, name, c.names.len() as int) is None
}

proof fn pushed_name(
    names: Seq<(Seq<char>, Span)>,
    x: (Seq<char>, Span),
    name: Seq<char>,
)
    ensures
        typing::find_name(names.push(x), name, (names.len() + 1) as int) is None <==> typing::find_name(
            names,
            name,
            names.len() as int,
        ) is None && x.0 != name,
{
    same_names(names, names.push(x), name, names.len() as int);
}

proof fn same_names(
    a: Seq<(Seq<char>, Span)>,
    b: Seq<(Seq<char>, Span)>,
    name: Seq<char>,
    n: int,
)
    requires
        n <= a.len() <= b.len(),
        forall|i: int| 0 <= i < a.len() ==> a[i] == #[trigger] b[i],
    ensures
        typing::find_name(a, name, n) == typing::find_name(b, name, n),
    decreases n,
{
    if n > 0 {
        same_names(a, b, name, n - 1);
    }
}

#[verifier::spinoff_prover]
proof fn names_are_noted(
    file: Seq<char>,
    src: Seq<char>,
    items: Seq<ItemM>,
    n: int,
    what: Seq<char>,
    diags: Seq<DiagM>,
)
    requires
        0 <= n <= items.len(),
    ensures
        ({
            let c = typing::collect(file, src, items, n, what, diags);
            &&& noted(c, items, n)
            &&& c.diags.len() >= diags.len()
            &&& c.diags.len() == diags.len() <==> names_apart(items, n)
        }),
    decreases n,
{
    reveal(typing::collect);
    reveal(typing::collect_item);
    let c = typing::collect(file, src, items, n, what, diags);
    if n > 0 {
        names_are_noted(file, src, items, n - 1, what, diags);
        let b = typing::collect(file, src, items, n - 1, what, diags);
        let item = items[n - 1];
        if let Some(name) = driver::item_name(item) {
            assert(unused(items, n - 1, name) <==> typing::find_name(
                b.names,
                name,
                b.names.len() as int,
            ) is None);
        }
        if names_apart(items, n) {
            assert forall|j: int| 0 <= j < n - 1 implies (driver::item_name(
                #[trigger] items[j],
            ) matches Some(name) ==> unused(items, j, name)) by {}
            assert(driver::item_name(items[n - 1]) == driver::item_name(item));
        }
        assert(names_apart(items, n) <==> names_apart(items, n - 1) && (driver::item_name(
            item,
        ) matches Some(name) ==> unused(items, n - 1, name)));
        assert forall|name: Seq<char>| #[trigger]
            unused(items, n, name) <==> typing::find_name(
                c.names,
                name,
                c.names.len() as int,
            ) is None by {
            assert(unused(items, n, name) <==> unused(items, n - 1, name) && driver::item_name(item)
                != Some(name));
            match item {
                ItemM::Struct(s) => pushed_name(b.names, (s.name, s.span), name),
                ItemM::Fn(f) => pushed_name(b.names, (f.name, f.span), name),
                _ => {},
            }
        }
    }
}

spec fn struct_came(items: Seq<ItemM>, n: int, x: StructInfoM) -> bool {
    exists|i: int| 0 <= i < n && #[trigger] struct_from(items, i, x)
}

spec fn structs_kept(items: Seq<ItemM>, n: int, xs: Seq<StructInfoM>) -> bool {
    &&& forall|i: int, x: StructInfoM| 0 <= i < n && #[trigger] struct_from(items, i, x) ==> xs.contains(x)
    &&& forall|k: int|
        0 <= k < xs.len() ==> struct_came(items, n, #[trigger] xs[k])
}

proof fn struct_is_kept(items: Seq<ItemM>, n: int, before: Seq<StructInfoM>, after: Seq<StructInfoM>)
    requires
        0 < n <= items.len(),
        structs_kept(items, n - 1, before),
        match items[n - 1] {
            ItemM::Struct(s) => if unused(items, n - 1, s.name) {
                after == before.push(typing::struct_info_of(s))
            } else {
                after == before
            },
            _ => after == before,
        },
    ensures
        structs_kept(items, n, after),
{
    assert forall|i: int, x: StructInfoM| 0 <= i < n && #[trigger] struct_from(
        items,
        i,
        x,
    ) implies after.contains(x) by {
        if i < n - 1 {
            assert(before.contains(x));
            let k = choose|k: int| 0 <= k < before.len() && before[k] == x;
            assert(after[k] == x);
        } else {
            assert(after[before.len() as int] == x);
        }
    }
    assert forall|k: int| 0 <= k < after.len() implies struct_came(items, n, #[trigger] after[k]) by {
        if k < before.len() {
            assert(after[k] == before[k]);
            assert(struct_came(items, n - 1, before[k]));
            let i = choose|i: int| 0 <= i < n - 1 && #[trigger] struct_from(items, i, before[k]);
            assert(struct_from(items, i, after[k]));
        } else {
            assert(struct_from(items, n - 1, after[k]));
        }
    }
}

proof fn structs_are_collected(
    file: Seq<char>,
    src: Seq<char>,
    items: Seq<ItemM>,
    n: int,
    what: Seq<char>,
    diags: Seq<DiagM>,
)
    requires
        0 <= n <= items.len(),
    ensures
        structs_kept(items, n, typing::collect(file, src, items, n, what, diags).structs),
    decreases n,
{
    reveal(typing::collect);
    reveal(typing::collect_item);
    let c = typing::collect(file, src, items, n, what, diags);
    if n > 0 {
        structs_are_collected(file, src, items, n - 1, what, diags);
        names_are_noted(file, src, items, n - 1, what, diags);
        let b = typing::collect(file, src, items, n - 1, what, diags);
        if let ItemM::Struct(s) = items[n - 1] {
            assert(unused(items, n - 1, s.name) <==> typing::find_name(
                b.names,
                s.name,
                b.names.len() as int,
            ) is None);
        }
        struct_is_kept(items, n, b.structs, c.structs);
    }
}

spec fn function_came(items: Seq<ItemM>, n: int, x: SigM) -> bool {
    exists|i: int| 0 <= i < n && #[trigger] function_from(items, i, x)
}

spec fn functions_kept(items: Seq<ItemM>, n: int, xs: Seq<SigM>) -> bool {
    &&& forall|i: int, x: SigM| 0 <= i < n && #[trigger] function_from(items, i, x) ==> xs.contains(x)
    &&& forall|k: int|
        0 <= k < xs.len() ==> function_came(items, n, #[trigger] xs[k])
}

proof fn function_is_kept(items: Seq<ItemM>, n: int, before: Seq<SigM>, after: Seq<SigM>)
    requires
        0 < n <= items.len(),
        functions_kept(items, n - 1, before),
        match items[n - 1] {
            ItemM::Fn(f) => if unused(items, n - 1, f.name) {
                after == before.push(typing::sig_of(f))
            } else {
                after == before
            },
            _ => after == before,
        },
    ensures
        functions_kept(items, n, after),
{
    assert forall|i: int, x: SigM| 0 <= i < n && #[trigger] function_from(
        items,
        i,
        x,
    ) implies after.contains(x) by {
        if i < n - 1 {
            assert(before.contains(x));
            let k = choose|k: int| 0 <= k < before.len() && before[k] == x;
            assert(after[k] == x);
        } else {
            assert(after[before.len() as int] == x);
        }
    }
    assert forall|k: int| 0 <= k < after.len() implies function_came(items, n, #[trigger] after[k]) by {
        if k < before.len() {
            assert(after[k] == before[k]);
            assert(function_came(items, n - 1, before[k]));
            let i = choose|i: int| 0 <= i < n - 1 && #[trigger] function_from(items, i, before[k]);
            assert(function_from(items, i, after[k]));
        } else {
            assert(function_from(items, n - 1, after[k]));
        }
    }
}

proof fn functions_are_collected(
    file: Seq<char>,
    src: Seq<char>,
    items: Seq<ItemM>,
    n: int,
    what: Seq<char>,
    diags: Seq<DiagM>,
)
    requires
        0 <= n <= items.len(),
    ensures
        functions_kept(items, n, typing::collect(file, src, items, n, what, diags).functions),
    decreases n,
{
    reveal(typing::collect);
    reveal(typing::collect_item);
    let c = typing::collect(file, src, items, n, what, diags);
    if n > 0 {
        functions_are_collected(file, src, items, n - 1, what, diags);
        names_are_noted(file, src, items, n - 1, what, diags);
        let b = typing::collect(file, src, items, n - 1, what, diags);
        if let ItemM::Fn(f) = items[n - 1] {
            assert(unused(items, n - 1, f.name) <==> typing::find_name(
                b.names,
                f.name,
                b.names.len() as int,
            ) is None);
        }
        function_is_kept(items, n, b.functions, c.functions);
    }
}

/// Of the structs and functions of one name the first is declared, with just the
/// fields, methods, parameters and types that it is written with, and nothing
/// else is. There is a diagnostic just if a name comes twice.
pub proof fn first_of_each_name_is_declared(
    file: Seq<char>,
    src: Seq<char>,
    items: Seq<ItemM>,
    what: Seq<char>,
    diags: Seq<DiagM>,
    i: int,
)
    requires
        0 <= i < items.len(),
    ensures
        ({
            let c = typing::collect(file, src, items, items.len() as int, what, diags);
            &&& c.diags.len() == diags.len() <==> names_apart(items, items.len() as int)
            &&& items[i] matches ItemM::Struct(s) ==> unused(items, i, s.name) ==> (
            typing::find_struct(c.structs, s.name, 0) matches Some(info) && describes_struct(
                info,
                s,
            ))
            &&& items[i] matches ItemM::Fn(f) ==> unused(items, i, f.name) ==> (typing::find_sig(
                c.functions,
                f.name,
                0,
            ) matches Some(sig) && describes(sig, f))
        }),
{
    let n = items.len() as int;
    let c = typing::collect(file, src, items, n, what, diags);
    names_are_noted(file, src, items, n, what, diags);
    structs_are_collected(file, src, items, n, what, diags);
    functions_are_collected(file, src, items, n, what, diags);
    if let ItemM::Struct(s) = items[i] {
        if unused(items, i, s.name) {
            let x = typing::struct_info_of(s);
            assert(struct_from(items, i, x));
            let k = choose|k: int| 0 <= k < c.structs.len() && c.structs[k] == x;
            assert(c.structs[k] == x);
            assert(lookups::struct_names(c.structs)[k] == s.name);
            lookups::struct_is_found_by_its_name(c.structs, s.name);
            let m = choose|m: int| #[trigger]
                lookups::first_of(lookups::struct_names(c.structs), s.name, m)
                    && typing::find_struct(c.structs, s.name, 0) == Some(c.structs[m]);
            assert(struct_came(items, n, c.structs[m]));
            let j = choose|j: int| 0 <= j < n && #[trigger] struct_from(items, j, c.structs[m]);
            if j < i {
                assert(driver::item_name(items[j]) != Some(s.name));
            } else if i < j {
                assert(driver::item_name(items[i]) != Some(s.name));
            }
        }
    }
    if let ItemM::Fn(f) = items[i] {
        if unused(items, i, f.name) {
            let x = typing::sig_of(f);
            assert(function_from(items, i, x));
            let k = choose|k: int| 0 <= k < c.functions.len() && c.functions[k] == x;
            assert(c.functions[k] == x);
            assert(lookups::sig_names(c.functions)[k] == f.name);
            lookups::function_is_found_by_its_name(c.functions, f.name);
            let m = choose|m: int| #[trigger]
                lookups::first_of(lookups::sig_names(c.functions), f.name, m)
                    && typing::find_sig(c.functions, f.name, 0) == Some(c.functions[m]);
            assert(function_came(items, n, c.functions[m]));
            let j = choose|j: int|
                0 <= j < n && #[trigger] function_from(items, j, c.functions[m]);
            if j < i {
                assert(driver::item_name(items[j]) != Some(f.name));
            } else if i < j {
                assert(driver::item_name(items[i]) != Some(f.name));
            }
        }
    }
}

/// A struct or function under a name that is in use is reported where it stands,
/// and the message gives the line of the latest item of that name before it. It
/// is not declared.
pub proof fn repeated_names_are_reported(
    file: Seq<char>,
    src: Seq<char>,
    items: Seq<ItemM>,
    n: int,
    what: Seq<char>,
    diags: Seq<DiagM>,
    name: Seq<char>,
    span: Span,
)
    requires
        0 < n <= items.len(),
        driver::item_name(items[n - 1]) == Some(name),
        driver::kind_span(items[n - 1]).1 == span,
        !unused(items, n - 1, name),
    ensures
        ({
            let b = typing::collect(file, src, items, n - 1, what, diags);
            let c = typing::collect(file, src, items, n, what, diags);
            &&& diagnosis::blamed(b.diags, c.diags, file, src, span, "E412"@)
            &&& c.structs == b.structs
            &&& c.functions == b.functions
        }),
{
    reveal(typing::collect);
    reveal(typing::collect_item);
    names_are_noted(file, src, items, n - 1, what, diags);
    let b = typing::collect(file, src, items, n - 1, what, diags);
    let c = typing::collect(file, src, items, n, what, diags);
    assert(unused(items, n - 1, name) <==> typing::find_name(
        b.names,
        name,
        b.names.len() as int,
    ) is None);
    assert(c.diags.take(b.diags.len() as int) =~= b.diags);
}

// ---------------------------------------------------------------------------
// Extensions
// ---------------------------------------------------------------------------

/// Whether the methods are the old ones and behind them the added ones, in order.
pub open spec fn joined(all: Seq<SigM>, old_ones: Seq<SigM>, added: Seq<FnDeclM>) -> bool {
    &&& all.len() == old_ones.len() + added.len()
    &&& all.take(old_ones.len() as int) == old_ones
    &&& describe(all.skip(old_ones.len() as int), added)
}

proof fn methods_are_joined(
    file: Seq<char>,
    src: Seq<char>,
    methods: Seq<SigM>,
    added: Seq<FnDeclM>,
    diags: Seq<DiagM>,
)
    ensures
        joined(typing::with_methods(file, src, methods, added, diags).0, methods, added),
{
    let all = typing::with_methods(file, src, methods, added, diags).0;
    assert(all.take(methods.len() as int) =~= methods);
    assert(all.skip(methods.len() as int) =~= typing::sigs_of(added));
}

proof fn index_is_first(structs: Seq<StructInfoM>, name: Seq<char>, i: int)
    requires
        0 <= i,
    ensures
        match typing::struct_index(structs, name, i) {
            Some(k) => i <= k < structs.len() && structs[k].name == name
                && typing::find_struct(structs, name, i) == Some(structs[k]),
            None => typing::find_struct(structs, name, i) is None,
        },
    decreases structs.len() - i,
{
    if i < structs.len() && structs[i].name != name {
        index_is_first(structs, name, i + 1);
    }
}

proof fn updated_struct_is_found(
    structs: Seq<StructInfoM>,
    k: int,
    info: StructInfoM,
    name: Seq<char>,
    i: int,
)
    requires
        0 <= i,
        0 <= k < structs.len(),
        info.name == structs[k].name,
    ensures
        typing::find_struct(structs.update(k, info), name, i) == (if typing::struct_index(
            structs,
            name,
            i,
        ) == Some(k) {
            Some(info)
        } else {
            typing::find_struct(structs, name, i)
        }),
    decreases structs.len() - i,
{
    if i < structs.len() && structs[i].name != name {
        updated_struct_is_found(structs, k, info, name, i + 1);
        index_is_first(structs, name, i + 1);
    }
}

/// `extend` of a struct of the program adds the methods behind those of that
/// struct and changes nothing else: not its fields, no other struct and no
/// function. `extend i64` and `extend f64` add to the methods of the machine
/// types.
pub proof fn extension_adds_methods(u: UnitM, e: ExtendDeclM, diags: Seq<DiagM>, other: Seq<char>)
    requires
        e.module is None,
    ensures
        ({
            let (v, d) = typing::extend(u, e, diags);
            let a = u.env;
            let b = v.env;
            &&& v.file == u.file && v.src == u.src
            &&& b.own == a.own && b.functions == a.functions && b.modules == a.modules
            &&& if e.name == "i64"@ {
                joined(b.i64_methods, a.i64_methods, e.methods) && b.f64_methods == a.f64_methods
                    && b.structs == a.structs
            } else if e.name == "f64"@ {
                joined(b.f64_methods, a.f64_methods, e.methods) && b.i64_methods == a.i64_methods
                    && b.structs == a.structs
            } else {
                &&& b.i64_methods == a.i64_methods && b.f64_methods == a.f64_methods
                &&& match typing::find_struct(a.structs, e.name, 0) {
                    Some(s) => typing::find_struct(b.structs, e.name, 0) matches Some(t) && t.name
                        == s.name && t.fields == s.fields && joined(
                        t.methods,
                        s.methods,
                        e.methods,
                    ),
                    None => v == u && d.len() == diags.len() + 1 && d.last().code == "E4D0"@,
                }
                &&& other != e.name ==> typing::find_struct(b.structs, other, 0)
                    == typing::find_struct(a.structs, other, 0)
            }
        }),
{
    reveal(typing::extend);
    if e.name == "i64"@ {
        methods_are_joined(u.file, u.src, u.env.i64_methods, e.methods, diags);
    } else if e.name == "f64"@ {
        methods_are_joined(u.file, u.src, u.env.f64_methods, e.methods, diags);
    } else {
        index_is_first(u.env.structs, e.name, 0);
        index_is_first(u.env.structs, other, 0);
        if let Some(k) = typing::struct_index(u.env.structs, e.name, 0) {
            let s = u.env.structs[k];
            let (methods, d) = typing::with_methods(u.file, u.src, s.methods, e.methods, diags);
            methods_are_joined(u.file, u.src, s.methods, e.methods, diags);
            let t = StructInfoM { methods, ..s };
            updated_struct_is_found(u.env.structs, k, t, e.name, 0);
            updated_struct_is_found(u.env.structs, k, t, other, 0);
        }
    }
}

proof fn module_index_is_first(modules: Seq<(Seq<char>, ModuleInfoM)>, name: Seq<char>, i: int)
    requires
        0 <= i,
    ensures
        match typing::module_index(modules, name, i) {
            Some(k) => i <= k < modules.len() && modules[k].0 == name && typing::find_module(
                modules,
                name,
                i,
            ) == Some(modules[k].1),
            None => typing::find_module(modules, name, i) is None,
        },
    decreases modules.len() - i,
{
    if i < modules.len() && modules[i].0 != name {
        module_index_is_first(modules, name, i + 1);
    }
}

proof fn updated_module_is_found(
    modules: Seq<(Seq<char>, ModuleInfoM)>,
    k: int,
    info: ModuleInfoM,
    name: Seq<char>,
    i: int,
)
    requires
        0 <= i,
        0 <= k < modules.len(),
    ensures
        typing::find_module(modules.update(k, (modules[k].0, info)), name, i) == (
        if typing::module_index(modules, name, i) == Some(k) {
            Some(info)
        } else {
            typing::find_module(modules, name, i)
        }),
    decreases modules.len() - i,
{
    if i < modules.len() && modules[i].0 != name {
        updated_module_is_found(modules, k, info, name, i + 1);
        module_index_is_first(modules, name, i + 1);
    }
}

/// `extend module::Struct` adds the methods behind those of that struct of the
/// module and changes nothing else.
pub proof fn module_extension_adds_methods(
    u: UnitM,
    e: ExtendDeclM,
    module: Seq<char>,
    diags: Seq<DiagM>,
    other: Seq<char>,
)
    requires
        e.module == Some(module),
    ensures
        ({
            let (v, d) = typing::extend(u, e, diags);
            let a = u.env;
            let b = v.env;
            &&& v.file == u.file && v.src == u.src
            &&& b.own == a.own && b.functions == a.functions && b.structs == a.structs
            &&& b.i64_methods == a.i64_methods && b.f64_methods == a.f64_methods
            &&& match a.lookup_qualified(module, e.name) {
                Some(s) => b.lookup_qualified(module, e.name) matches Some(t) && t.name == s.name
                    && t.fields == s.fields && joined(t.methods, s.methods, e.methods),
                None => v == u && d.len() == diags.len() + 1 && d.last().code == "E4D0"@,
            }
            &&& other != e.name ==> b.lookup_qualified(module, other) == a.lookup_qualified(
                module,
                other,
            )
            &&& forall|m: Seq<char>, n: Seq<char>|
                m != module ==> #[trigger] b.lookup_qualified(m, n) == a.lookup_qualified(m, n)
            &&& forall|m: Seq<char>, n: Seq<char>| #[trigger]
                b.lookup_module_fn(m, n) == a.lookup_module_fn(m, n)
        }),
{
    reveal(typing::extend);
    let a = u.env;
    module_index_is_first(a.modules, module, 0);
    if let Some(m) = typing::module_index(a.modules, module, 0) {
        let (name, info) = a.modules[m];
        index_is_first(info.structs, e.name, 0);
        index_is_first(info.structs, other, 0);
        if let Some(k) = typing::struct_index(info.structs, e.name, 0) {
            let s = info.structs[k];
            let (methods, d) = typing::with_methods(u.file, u.src, s.methods, e.methods, diags);
            methods_are_joined(u.file, u.src, s.methods, e.methods, diags);
            let t = StructInfoM { methods, ..s };
            updated_struct_is_found(info.structs, k, t, e.name, 0);
            updated_struct_is_found(info.structs, k, t, other, 0);
            let next = ModuleInfoM { structs: info.structs.update(k, t), ..info };
            let b = typing::extend(u, e, diags).0.env;
            updated_module_is_found(a.modules, m, next, module, 0);
            assert forall|x: Seq<char>, n: Seq<char>| x != module implies #[trigger]
                b.lookup_qualified(x, n) == a.lookup_qualified(x, n) by {
                updated_module_is_found(a.modules, m, next, x, 0);
                module_index_is_first(a.modules, x, 0);
            }
            assert forall|x: Seq<char>, n: Seq<char>| #[trigger]
                b.lookup_module_fn(x, n) == a.lookup_module_fn(x, n) by {
                updated_module_is_found(a.modules, m, next, x, 0);
                module_index_is_first(a.modules, x, 0);
            }
        }
    }
}

/// Whether no method of these has the name of an earlier one.
pub open spec fn methods_apart(methods: Seq<SigM>, from: int, n: int) -> bool {
    forall|i: int, j: int|
        0 <= i < j < n && from <= j ==> (#[trigger] methods[i]).name != (#[trigger] methods[j]).name
}

proof fn last_sig_is_there(sigs: Seq<SigM>, name: Seq<char>, n: int)
    requires
        0 <= n <= sigs.len(),
    ensures
        typing::last_sig(sigs, name, n) is None <==> forall|i: int|
            0 <= i < n ==> (#[trigger] sigs[i]).name != name,
    decreases n,
{
    if n > 0 {
        last_sig_is_there(sigs, name, n - 1);
    }
}

/// Methods that are added are reported just if one of them has the name of
/// another method.
pub proof fn added_methods_have_new_names(
    file: Seq<char>,
    src: Seq<char>,
    methods: Seq<SigM>,
    from: int,
    n: int,
    diags: Seq<DiagM>,
)
    requires
        0 <= from,
        n <= methods.len(),
    ensures
        ({
            let d = typing::duplicate_methods(file, src, methods, from, n, diags);
            &&& d.len() >= diags.len()
            &&& d.len() == diags.len() <==> methods_apart(methods, from, n)
        }),
    decreases n,
{
    if n > 0 && n > from {
        added_methods_have_new_names(file, src, methods, from, n - 1, diags);
        last_sig_is_there(methods, methods[n - 1].name, n - 1);
        if methods_apart(methods, from, n - 1) && typing::last_sig(
            methods,
            methods[n - 1].name,
            n - 1,
        ) is None {
            assert(methods_apart(methods, from, n));
        }
    }
}

// ---------------------------------------------------------------------------
// Modules
// ---------------------------------------------------------------------------

/// A type of a module is written outside with the same references, and with the
/// module before the name of one of the module's own structs. Names of anything
/// else, and `bool`, stay as they are.
pub proof fn module_types_are_qualified_outside(ty: TypeM, o: OutsideM)
    ensures
        lookups::layers(typing::outward(ty, o)) == lookups::layers(ty),
        match lookups::target(ty) {
            TypeM::Named(n) => if n != "bool"@ && lookups::struct_names(o.structs).contains(n)
                && !lookups::struct_names(o.top).contains(n) {
                lookups::target(typing::outward(ty, o)) == TypeM::Qualified(o.module, n)
            } else if n == "bool"@ || !lookups::struct_names(o.structs).contains(n) {
                lookups::target(typing::outward(ty, o)) == TypeM::Named(n)
            } else {
                ||| lookups::target(typing::outward(ty, o)) == TypeM::Qualified(o.module, n)
                ||| lookups::target(typing::outward(ty, o)) == TypeM::Named(n)
            },
            t => lookups::target(typing::outward(ty, o)) == t,
        },
    decreases ty,
{
    match ty {
        TypeM::Ref(t) => module_types_are_qualified_outside(*t, o),
        TypeM::MutRef(t) => module_types_are_qualified_outside(*t, o),
        TypeM::Named(n) => {
            lookups::struct_is_found_by_its_name(o.structs, n);
            lookups::struct_is_found_by_its_name(o.top, n);
            if let Some(s) = typing::find_struct(o.structs, n, 0) {
                let k = choose|k: int| #[trigger]
                    lookups::first_of(lookups::struct_names(o.structs), n, k) && o.structs[k] == s;
                assert(lookups::struct_names(o.structs)[k] == n);
            }
            if let Some(s) = typing::find_struct(o.top, n, 0) {
                let k = choose|k: int| #[trigger]
                    lookups::first_of(lookups::struct_names(o.top), n, k) && o.top[k] == s;
                assert(lookups::struct_names(o.top)[k] == n);
            }
        },
        _ => {},
    }
}

/// Whether the parameter is the same one, but for how its type is written.
pub open spec fn same_param(p: ParamM, q: ParamM, o: OutsideM) -> bool {
    &&& q.span == p.span
    &&& match p.kind {
        ParamKindM::Named { name, ty } => q.kind == (ParamKindM::Named {
            name,
            ty: typing::outward(ty, o),
        }),
        _ => q.kind == p.kind,
    }
}

/// Whether the function is the same one, but for how its types are written.
pub open spec fn same_sig(s: SigM, t: SigM, o: OutsideM) -> bool {
    &&& t.name == s.name && t.span == s.span
    &&& t.return_type == typing::outward(s.return_type, o)
    &&& t.params.len() == s.params.len()
    &&& forall|i: int| 0 <= i < s.params.len() ==> same_param(#[trigger] s.params[i], t.params[i], o)
}

pub open spec fn same_sigs(s: Seq<SigM>, t: Seq<SigM>, o: OutsideM) -> bool {
    &&& t.len() == s.len()
    &&& forall|i: int| 0 <= i < s.len() ==> same_sig(#[trigger] s[i], t[i], o)
}

/// Whether the struct is the same one, but for how its types are written.
pub open spec fn same_struct(s: StructInfoM, t: StructInfoM, o: OutsideM) -> bool {
    &&& t.name == s.name
    &&& t.fields.len() == s.fields.len()
    &&& forall|i: int|
        0 <= i < s.fields.len() ==> (#[trigger] s.fields[i]).name == t.fields[i].name
            && t.fields[i].ty == typing::outward(s.fields[i].ty, o)
    &&& same_sigs(s.methods, t.methods, o)
}

/// A module is seen from outside with all its structs and functions, in order and
/// under their names; only the types in them are written as they are outside.
pub proof fn module_is_seen_whole(name: Seq<char>, info: ModuleInfoM, top: Seq<StructInfoM>)
    ensures
        ({
            let o = OutsideM { module: name, structs: info.structs, top };
            let r = typing::outward_module(name, info, top);
            &&& r.structs.len() == info.structs.len()
            &&& forall|i: int|
                0 <= i < info.structs.len() ==> same_struct(
                    #[trigger] info.structs[i],
                    r.structs[i],
                    o,
                )
            &&& same_sigs(info.functions, r.functions, o)
        }),
{
    let o = OutsideM { module: name, structs: info.structs, top };
    let r = typing::outward_module(name, info, top);
    assert forall|i: int| 0 <= i < info.structs.len() implies same_struct(
        #[trigger] info.structs[i],
        r.structs[i],
        o,
    ) by {
        let s = info.structs[i];
        let t = r.structs[i];
        assert forall|j: int| 0 <= j < s.methods.len() implies same_sig(
            #[trigger] s.methods[j],
            t.methods[j],
            o,
        ) by {
            assert(t.methods[j] == typing::outward_sig(s.methods[j], o));
        }
    }
    assert forall|j: int| 0 <= j < info.functions.len() implies same_sig(
        #[trigger] info.functions[j],
        r.functions[j],
        o,
    ) by {
        assert(r.functions[j] == typing::outward_sig(info.functions[j], o));
    }
}

/// Whether two structs have the same fields: as many, with the same names and
/// types in the same order.
pub open spec fn same_fields(s: StructInfoM, t: StructInfoM) -> bool {
    &&& s.fields.len() == t.fields.len()
    &&& forall|i: int|
        0 <= i < s.fields.len() ==> (#[trigger] s.fields[i]).name == t.fields[i].name
            && s.fields[i].ty == t.fields[i].ty
}

/// A struct that a module shares with the program, with the same fields, goes by
/// its bare name outside; one of the same name with other fields is qualified.
pub proof fn shared_structs_keep_their_names(
    o: OutsideM,
    n: Seq<char>,
    s: StructInfoM,
    t: StructInfoM,
)
    requires
        n != "bool"@,
        typing::find_struct(o.structs, n, 0) == Some(s),
        typing::find_struct(o.top, n, 0) == Some(t),
    ensures
        typing::outward(TypeM::Named(n), o) == if same_fields(s, t) {
            TypeM::Named(n)
        } else {
            TypeM::Qualified(o.module, n)
        },
{
}

/// Inside a module its structs and functions are those that it declares, in order
/// and as it writes them; a struct has besides its own methods those that the
/// program adds to it.
pub proof fn module_sees_itself(own: ModuleInfoM, outside: ModuleInfoM, k: int)
    requires
        0 <= k < own.structs.len() == outside.structs.len(),
        own.structs[k].methods.len() <= outside.structs[k].methods.len(),
    ensures
        ({
            let r = typing::inward_module(own, outside);
            let n = own.structs[k].methods.len() as int;
            &&& r.functions == own.functions
            &&& r.structs.len() == own.structs.len()
            &&& r.structs[k].name == own.structs[k].name
            &&& r.structs[k].fields == own.structs[k].fields
            &&& r.structs[k].methods.take(n) == own.structs[k].methods
            &&& r.structs[k].methods.skip(n) == outside.structs[k].methods.skip(n)
        }),
{
    let r = typing::inward_module(own, outside);
    let n = own.structs[k].methods.len() as int;
    assert(r.structs[k].methods.take(n) =~= own.structs[k].methods);
    assert(r.structs[k].methods.skip(n) =~= outside.structs[k].methods.skip(n));
}

/// Each module declares what its own items declare, under the module's name, in
/// the order of the modules.
pub proof fn modules_declare_their_items(
    file: Seq<char>,
    src: Seq<char>,
    modules: Seq<(Seq<char>, ProgramM)>,
    n: int,
    diags: Seq<DiagM>,
    m: int,
    i: int,
)
    requires
        0 <= m < n <= modules.len(),
        0 <= i < modules[m].1.items.len(),
    ensures
        ({
            let infos = typing::collect_modules(file, src, modules, n, diags).0;
            let items = modules[m].1.items;
            &&& infos.len() == n
            &&& infos[m].0 == modules[m].0
            &&& items[i] matches ItemM::Struct(s) ==> unused(items, i, s.name) ==> (
            typing::find_struct(infos[m].1.structs, s.name, 0) matches Some(info)
                && describes_struct(info, s))
            &&& items[i] matches ItemM::Fn(f) ==> unused(items, i, f.name) ==> (typing::find_sig(
                infos[m].1.functions,
                f.name,
                0,
            ) matches Some(sig) && describes(sig, f))
        }),
    decreases n,
{
    reveal(typing::collect_modules);
    collected_modules(file, src, modules, n - 1, diags);
    if m < n - 1 {
        modules_declare_their_items(file, src, modules, n - 1, diags, m, i);
    } else {
        let d = typing::collect_modules(file, src, modules, n - 1, diags).1;
        first_of_each_name_is_declared(file, src, modules[m].1.items, "module item"@, d, i);
    }
}

proof fn collected_modules(
    file: Seq<char>,
    src: Seq<char>,
    modules: Seq<(Seq<char>, ProgramM)>,
    n: int,
    diags: Seq<DiagM>,
)
    requires
        0 <= n <= modules.len(),
    ensures
        typing::collect_modules(file, src, modules, n, diags).0.len() == n,
    decreases n,
{
    reveal(typing::collect_modules);
    if n > 0 {
        collected_modules(file, src, modules, n - 1, diags);
    }
}

// ---------------------------------------------------------------------------
// Whole programs
// ---------------------------------------------------------------------------

spec fn keeps(a: EnvM, b: EnvM) -> bool {
    &&& b.own == a.own
    &&& b.functions == a.functions
    &&& forall|name: Seq<char>|
        match (#[trigger] typing::find_struct(a.structs, name, 0)) {
            Some(s) => typing::find_struct(b.structs, name, 0) matches Some(t) && t.name == s.name
                && t.fields == s.fields && t.methods.len() >= s.methods.len() && t.methods.take(
                s.methods.len() as int,
            ) == s.methods,
            None => typing::find_struct(b.structs, name, 0) is None,
        }
}

proof fn kept_twice(a: EnvM, b: EnvM, c: EnvM)
    requires
        keeps(a, b),
        keeps(b, c),
    ensures
        keeps(a, c),
{
    assert forall|name: Seq<char>|
        match (#[trigger] typing::find_struct(a.structs, name, 0)) {
            Some(s) => typing::find_struct(c.structs, name, 0) matches Some(t) && t.name == s.name
                && t.fields == s.fields && t.methods.len() >= s.methods.len() && t.methods.take(
                s.methods.len() as int,
            ) == s.methods,
            None => typing::find_struct(c.structs, name, 0) is None,
        } by {
        if let Some(s) = typing::find_struct(a.structs, name, 0) {
            let t = typing::find_struct(b.structs, name, 0)->0;
            let x = typing::find_struct(c.structs, name, 0)->0;
            let n = s.methods.len() as int;
            assert(x.methods.take(n) =~= x.methods.take(t.methods.len() as int).take(n));
        }
    }
}

proof fn extension_keeps(u: UnitM, e: ExtendDeclM, diags: Seq<DiagM>)
    ensures
        keeps(u.env, typing::extend(u, e, diags).0.env),
{
    let b = typing::extend(u, e, diags).0.env;
    assert forall|name: Seq<char>|
        match (#[trigger] typing::find_struct(u.env.structs, name, 0)) {
            Some(s) => typing::find_struct(b.structs, name, 0) matches Some(t) && t.name == s.name
                && t.fields == s.fields && t.methods.len() >= s.methods.len() && t.methods.take(
                s.methods.len() as int,
            ) == s.methods,
            None => typing::find_struct(b.structs, name, 0) is None,
        } by {
        match e.module {
            None => extension_adds_methods(u, e, diags, name),
            Some(m) => module_extension_adds_methods(u, e, m, diags, name),
        }
        if let Some(s) = typing::find_struct(u.env.structs, name, 0) {
            assert(s.methods.take(s.methods.len() as int) =~= s.methods);
        }
    }
    match e.module {
        None => extension_adds_methods(u, e, diags, e.name),
        Some(m) => module_extension_adds_methods(u, e, m, diags, e.name),
    }
}

proof fn extensions_keep(u: UnitM, items: Seq<ItemM>, n: int, diags: Seq<DiagM>)
    ensures
        keeps(u.env, typing::extend_all(u, items, n, diags).0.env),
    decreases n,
{
    reveal(typing::extend_all);
    if 0 < n <= items.len() {
        extensions_keep(u, items, n - 1, diags);
        let (v, d) = typing::extend_all(u, items, n - 1, diags);
        if let ItemM::Extend(e) = items[n - 1] {
            extension_keeps(v, e, d);
            kept_twice(u.env, v.env, typing::extend(v, e, d).0.env);
        }
    } else {
        assert forall|name: Seq<char>|
            match (#[trigger] typing::find_struct(u.env.structs, name, 0)) {
                Some(s) => s.methods.take(s.methods.len() as int) == s.methods,
                None => true,
            } by {
            if let Some(s) = typing::find_struct(u.env.structs, name, 0) {
                assert(s.methods.take(s.methods.len() as int) =~= s.methods);
            }
        }
    }
}

/// What a program declares is found under its name as it is declared: a function
/// with its parameters and its return type, and a struct with its fields and
/// its methods, behind which those of its extensions come.
pub proof fn declarations_are_found_by_name(
    file: Seq<char>,
    src: Seq<char>,
    program: ProgramM,
    modules: Seq<(Seq<char>, ProgramM)>,
    i: int,
)
    requires
        0 <= i < program.items.len(),
    ensures
        ({
            let env = typing::declarations(file, src, program, modules).0.env;
            &&& program.items[i] matches ItemM::Struct(s) ==> unused(program.items, i, s.name) ==> (
            env.lookup_struct(s.name) matches Some(info) && info.name == s.name && info.fields
                == s.fields && info.methods.len() >= s.methods.len() && describe(
                info.methods.take(s.methods.len() as int),
                s.methods,
            ))
            &&& program.items[i] matches ItemM::Fn(f) ==> unused(program.items, i, f.name) ==> (
            env.lookup_fn(f.name) matches Some(sig) && describes(sig, f))
        }),
{
    reveal(typing::declarations);
    let n = program.items.len() as int;
    let none = Seq::<DiagM>::empty();
    let c = typing::collect(file, src, program.items, n, "top-level item"@, none);
    first_of_each_name_is_declared(file, src, program.items, "top-level item"@, none, i);
    let (infos, d) = typing::collect_modules(file, src, modules, modules.len() as int, c.diags);
    let env = EnvM {
        own: ModuleInfoM { structs: Seq::empty(), functions: Seq::empty() },
        structs: c.structs,
        functions: c.functions,
        modules: typing::outward_modules(infos, c.structs),
        i64_methods: Seq::empty(),
        f64_methods: Seq::empty(),
    };
    extensions_keep(UnitM { file, src, env }, program.items, n, d);
    let out = typing::declarations(file, src, program, modules).0.env;
    if let ItemM::Struct(s) = program.items[i] {
        assert(typing::find_struct(out.own.structs, s.name, 0) is None);
        if unused(program.items, i, s.name) {
            let info = typing::find_struct(env.structs, s.name, 0)->0;
            assert(info.methods.len() == s.methods.len());
        }
    }
    if let ItemM::Fn(f) = program.items[i] {
        assert(typing::find_sig(out.own.functions, f.name, 0) is None);
    }
}

/// A program is accepted only if it has a `main` that takes nothing and returns
/// `i64`, `int` or nothing, and that is all that is asked of it.
pub proof fn main_is_asked_for(u: UnitM, diags: Seq<DiagM>)
    ensures
        typing::check_main(u, diags) == diags <==> (typing::find_sig(
            u.env.functions,
            "main"@,
            0,
        ) matches Some(m) && m.params.len() == 0 && (m.return_type is I64 || m.return_type is Void
            || m.return_type == TypeM::Named("int"@))),
        typing::check_main(u, diags).len() >= diags.len(),
        typing::find_sig(u.env.functions, "main"@, 0) is None ==> typing::check_main(
            u,
            diags,
        ).last().code == "E400"@,
{
    reveal(typing::check_main);
}

} // verus!
