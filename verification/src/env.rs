//! The declarations that the type checker looks names up in.

use vstd::prelude::*;

use crate::ast;
use crate::ast::{FieldDecl, FnDecl, Param, ParamKind, Span, StructDecl, StructName, Type, TypeM};
use crate::text;
use crate::typing;
use crate::typing::{EnvM, ModuleInfoM, OutsideM, SigM, StructInfoM};

verus! {

/// What a caller knows of a function.
pub struct Sig {
    pub name: String,
    pub params: Vec<Param>,
    pub return_type: Type,
    pub span: Span,
}

impl View for Sig {
    type V = SigM;

    open spec fn view(&self) -> SigM {
        SigM {
            name: self.name@,
            params: ast::params_view(self.params@),
            return_type: self.return_type@,
            span: self.span,
        }
    }
}

pub open spec fn sigs_view(s: Seq<Sig>) -> Seq<SigM> {
    Seq::new(s.len(), |i: int| s[i]@)
}

/// What is known of a struct, with the methods that `extend` adds.
pub struct StructInfo {
    pub name: String,
    pub fields: Vec<FieldDecl>,
    pub methods: Vec<Sig>,
}

impl View for StructInfo {
    type V = StructInfoM;

    open spec fn view(&self) -> StructInfoM {
        StructInfoM {
            name: self.name@,
            fields: ast::fields_view(self.fields@),
            methods: sigs_view(self.methods@),
        }
    }
}

pub open spec fn structs_view(s: Seq<StructInfo>) -> Seq<StructInfoM> {
    Seq::new(s.len(), |i: int| s[i]@)
}

/// Structs and functions reachable via `module::name`.
pub struct ModuleInfo {
    pub structs: Vec<StructInfo>,
    pub functions: Vec<Sig>,
}

impl View for ModuleInfo {
    type V = ModuleInfoM;

    open spec fn view(&self) -> ModuleInfoM {
        ModuleInfoM {
            structs: structs_view(self.structs@),
            functions: sigs_view(self.functions@),
        }
    }
}

pub open spec fn modules_view(s: Seq<(String, ModuleInfo)>) -> Seq<(Seq<char>, ModuleInfoM)> {
    Seq::new(s.len(), |i: int| (s[i].0@, s[i].1@))
}

/// All the declarations.
pub struct Env {
    /// What the module that is checked declares.
    pub own: ModuleInfo,
    pub structs: Vec<StructInfo>,
    pub functions: Vec<Sig>,
    pub modules: Vec<(String, ModuleInfo)>,
    pub i64_methods: Vec<Sig>,
    pub f64_methods: Vec<Sig>,
}

impl View for Env {
    type V = EnvM;

    open spec fn view(&self) -> EnvM {
        EnvM {
            own: self.own@,
            structs: structs_view(self.structs@),
            functions: sigs_view(self.functions@),
            modules: modules_view(self.modules@),
            i64_methods: sigs_view(self.i64_methods@),
            f64_methods: sigs_view(self.f64_methods@),
        }
    }
}

// ---------------------------------------------------------------------------
// Copies of declarations
// ---------------------------------------------------------------------------

pub fn copy_params(params: &Vec<Param>) -> (r: Vec<Param>)
    ensures
        ast::params_view(r@) == ast::params_view(params@),
{
    let mut out: Vec<Param> = Vec::new();
    let mut i: usize = 0;
    while i < params.len()
        invariant
            i <= params@.len(),
            ast::params_view(out@) == ast::params_view(params@.take(i as int)),
        decreases params@.len() - i,
    {
        let p = &params[i];
        let kind = match &p.kind {
            ParamKind::Named { name, ty } => ParamKind::Named { name: name.clone(), ty: ty.copy() },
            ParamKind::SelfRef => ParamKind::SelfRef,
            ParamKind::SelfMutRef => ParamKind::SelfMutRef,
            ParamKind::SelfMove => ParamKind::SelfMove,
        };
        let ghost before = out@;
        out.push(Param { kind, span: p.span });
        proof {
            let a = ast::params_view(before);
            let b = ast::params_view(params@.take(i as int));
            assert(a == b);
            assert(a.len() == b.len());
            assert forall|k: int| 0 <= k < i implies ast::params_view(out@)[k]
                == ast::params_view(params@.take(i + 1))[k] by {
                assert(a[k] == b[k]);
            }
        }
        assert(ast::params_view(out@) =~= ast::params_view(params@.take(i + 1)));
        i = i + 1;
    }
    assert(params@.take(i as int) =~= params@);
    out
}

pub fn copy_fields(fields: &Vec<FieldDecl>) -> (r: Vec<FieldDecl>)
    ensures
        ast::fields_view(r@) == ast::fields_view(fields@),
{
    let mut out: Vec<FieldDecl> = Vec::new();
    let mut i: usize = 0;
    while i < fields.len()
        invariant
            i <= fields@.len(),
            ast::fields_view(out@) == ast::fields_view(fields@.take(i as int)),
        decreases fields@.len() - i,
    {
        let f = &fields[i];
        let ghost before = out@;
        out.push(FieldDecl { name: f.name.clone(), ty: f.ty.copy(), span: f.span });
        proof {
            let a = ast::fields_view(before);
            let b = ast::fields_view(fields@.take(i as int));
            assert(a == b);
            assert(a.len() == b.len());
            assert forall|k: int| 0 <= k < i implies ast::fields_view(out@)[k]
                == ast::fields_view(fields@.take(i + 1))[k] by {
                assert(a[k] == b[k]);
            }
        }
        assert(ast::fields_view(out@) =~= ast::fields_view(fields@.take(i + 1)));
        i = i + 1;
    }
    assert(fields@.take(i as int) =~= fields@);
    out
}

pub fn sig_of(f: &FnDecl) -> (r: Sig)
    ensures
        r@ == typing::sig_of(ast::fn_view(*f)),
{
    Sig {
        name: f.name.clone(),
        params: copy_params(&f.params),
        return_type: f.return_type.copy(),
        span: f.span,
    }
}

/// Adds the signatures of the functions to the list.
pub fn add_sigs(sigs: &mut Vec<Sig>, fs: &Vec<FnDecl>)
    ensures
        sigs_view(final(sigs)@) == sigs_view(old(sigs)@) + typing::sigs_of(ast::fns_view(fs@)),
{
    let ghost all = typing::sigs_of(ast::fns_view(fs@));
    let mut i: usize = 0;
    assert(sigs_view(sigs@) =~= sigs_view(old(sigs)@) + all.take(0));
    while i < fs.len()
        invariant
            i <= fs@.len(),
            all == typing::sigs_of(ast::fns_view(fs@)),
            sigs_view(sigs@) == sigs_view(old(sigs)@) + all.take(i as int),
        decreases fs@.len() - i,
    {
        let ghost before = sigs@;
        sigs.push(sig_of(&fs[i]));
        assert(sigs_view(sigs@) =~= sigs_view(before).push(all[i as int]));
        assert(sigs_view(sigs@) =~= sigs_view(old(sigs)@) + all.take(i + 1));
        i = i + 1;
    }
    assert(all.take(i as int) =~= all);
}

pub fn struct_info_of(s: &StructDecl) -> (r: StructInfo)
    ensures
        r@ == typing::struct_info_of(ast::struct_view(*s)),
{
    let mut methods: Vec<Sig> = Vec::new();
    let ghost empty = sigs_view(methods@);
    add_sigs(&mut methods, &s.methods);
    assert(sigs_view(methods@) =~= typing::sigs_of(ast::fns_view(s.methods@))) by {
        assert(empty =~= Seq::empty());
    }
    StructInfo { name: s.name.clone(), fields: copy_fields(&s.fields), methods }
}

// ---------------------------------------------------------------------------
// Modules from outside
// ---------------------------------------------------------------------------

/// A module as it is seen from the program.
struct Outside<'e> {
    module: &'e str,
    structs: &'e Vec<StructInfo>,
    top: &'e Vec<StructInfo>,
}

impl<'e> View for Outside<'e> {
    type V = OutsideM;

    closed spec fn view(&self) -> OutsideM {
        OutsideM {
            module: self.module@,
            structs: structs_view(self.structs@),
            top: structs_view(self.top@),
        }
    }
}

/// Do both structs have the same fields, in the same order?
fn same_layout(a: &StructInfo, b: &StructInfo) -> (r: bool)
    ensures
        r == typing::same_layout(a@, b@),
{
    if a.fields.len() != b.fields.len() {
        return false;
    }
    let mut i: usize = 0;
    while i < a.fields.len()
        invariant
            i <= a.fields@.len() == b.fields@.len(),
            forall|k: int|
                0 <= k < i ==> (#[trigger] a@.fields[k]).name == b@.fields[k].name
                    && a@.fields[k].ty == b@.fields[k].ty,
        decreases a.fields@.len() - i,
    {
        let x = &a.fields[i];
        let y = &b.fields[i];
        if !(text::text_eq(x.name.as_str(), y.name.as_str()) && x.ty.same(&y.ty)) {
            assert(!(a@.fields[i as int].name == b@.fields[i as int].name && a@.fields[i as int].ty
                == b@.fields[i as int].ty));
            return false;
        }
        i = i + 1;
    }
    true
}

impl<'e> Outside<'e> {
    /// Has the name to be qualified outside the module?
    fn is_own(&self, name: &str) -> (r: bool)
        ensures
            r == self@.is_own(name@),
    {
        if text::text_eq(name, "bool") {
            return false;
        }
        match find_struct(self.structs, name) {
            None => false,
            Some(s) => match find_struct(self.top, name) {
                Some(t) => !same_layout(s, t),
                None => true,
            },
        }
    }
}

/// A type of the module as it is written outside.
fn outward(ty: &Type, o: &Outside) -> (r: Type)
    ensures
        r@ == typing::outward(ty@, o@),
    decreases ty,
{
    match ty {
        Type::Named(n) => {
            if o.is_own(n.as_str()) {
                Type::Qualified(o.module.to_owned(), n.clone())
            } else {
                ty.copy()
            }
        },
        Type::Ref(inner) => Type::Ref(Box::new(outward(inner, o))),
        Type::MutRef(inner) => Type::MutRef(Box::new(outward(inner, o))),
        _ => ty.copy(),
    }
}

fn outward_param(p: &Param, o: &Outside) -> (r: Param)
    ensures
        ast::param_view(r) == typing::outward_param(
            ast::param_view(*p),
            o@,
        ),
{
    let kind = match &p.kind {
        ParamKind::Named { name, ty } => ParamKind::Named {
            name: name.clone(),
            ty: outward(ty, o),
        },
        ParamKind::SelfRef => ParamKind::SelfRef,
        ParamKind::SelfMutRef => ParamKind::SelfMutRef,
        ParamKind::SelfMove => ParamKind::SelfMove,
    };
    Param { kind, span: p.span }
}

fn outward_sig(s: &Sig, o: &Outside) -> (r: Sig)
    ensures
        r@ == typing::outward_sig(s@, o@),
{
    let mut params: Vec<Param> = Vec::new();
    let mut i: usize = 0;
    while i < s.params.len()
        invariant
            i <= s.params@.len(),
            i == params@.len(),
            forall|k: int|
                0 <= k < i ==> ast::param_view(#[trigger] params@[k]) == typing::outward_param(
                    ast::param_view(s.params@[k]),
                    o@,
                ),
        decreases s.params@.len() - i,
    {
        params.push(outward_param(&s.params[i], o));
        i = i + 1;
    }
    let r = Sig {
        name: s.name.clone(),
        params,
        return_type: outward(&s.return_type, o),
        span: s.span,
    };
    assert(r@.params =~= typing::outward_sig(s@, o@).params);
    r
}

fn outward_sigs(sigs: &Vec<Sig>, o: &Outside) -> (r: Vec<Sig>)
    ensures
        sigs_view(r@) == typing::outward_sigs(sigs_view(sigs@), o@),
{
    let ghost all = typing::outward_sigs(sigs_view(sigs@), o@);
    let mut out: Vec<Sig> = Vec::new();
    let mut i: usize = 0;
    while i < sigs.len()
        invariant
            i <= sigs@.len(),
            i == out@.len(),
            all == typing::outward_sigs(sigs_view(sigs@), o@),
            forall|k: int| 0 <= k < i ==> (#[trigger] out@[k])@ == all[k],
        decreases sigs@.len() - i,
    {
        out.push(outward_sig(&sigs[i], o));
        i = i + 1;
    }
    assert(sigs_view(out@) =~= all);
    out
}

fn outward_struct(s: &StructInfo, o: &Outside) -> (r: StructInfo)
    ensures
        r@ == typing::outward_struct(s@, o@),
{
    let mut fields: Vec<FieldDecl> = Vec::new();
    let mut i: usize = 0;
    while i < s.fields.len()
        invariant
            i <= s.fields@.len(),
            i == fields@.len(),
            forall|k: int|
                0 <= k < i ==> ast::field_view(#[trigger] fields@[k]) == typing::outward_field(
                    ast::field_view(s.fields@[k]),
                    o@,
                ),
        decreases s.fields@.len() - i,
    {
        let f = &s.fields[i];
        fields.push(
            FieldDecl { name: f.name.clone(), ty: outward(&f.ty, o), span: f.span },
        );
        i = i + 1;
    }
    let methods = outward_sigs(&s.methods, o);
    let r = StructInfo { name: s.name.clone(), fields, methods };
    assert(r@.fields =~= typing::outward_struct(s@, o@).fields);
    r
}

/// What a module declares, as it is seen from outside: its structs are named
/// `module::name` there.
fn outward_module(name: &str, info: &ModuleInfo, top: &Vec<StructInfo>) -> (r: ModuleInfo)
    ensures
        r@ == typing::outward_module(name@, info@, structs_view(top@)),
{
    let o = Outside { module: name, structs: &info.structs, top };
    let ghost all = typing::outward_module(name@, info@, structs_view(top@)).structs;
    let mut structs: Vec<StructInfo> = Vec::new();
    let mut i: usize = 0;
    while i < info.structs.len()
        invariant
            i <= info.structs@.len(),
            i == structs@.len(),
            o@ == (OutsideM {
                module: name@,
                structs: structs_view(info.structs@),
                top: structs_view(top@),
            }),
            all == typing::outward_module(name@, info@, structs_view(top@)).structs,
            forall|k: int| 0 <= k < i ==> (#[trigger] structs@[k])@ == all[k],
        decreases info.structs@.len() - i,
    {
        structs.push(outward_struct(&info.structs[i], &o));
        i = i + 1;
    }
    assert(structs_view(structs@) =~= all);
    ModuleInfo { structs, functions: outward_sigs(&info.functions, &o) }
}

/// What each module declares, as it is seen from a program with the structs
/// `top`.
pub fn outward_modules(infos: &Vec<(String, ModuleInfo)>, top: &Vec<StructInfo>) -> (r: Vec<
    (String, ModuleInfo),
>)
    ensures
        modules_view(r@) == typing::outward_modules(modules_view(infos@), structs_view(top@)),
{
    let ghost all = typing::outward_modules(modules_view(infos@), structs_view(top@));
    let mut out: Vec<(String, ModuleInfo)> = Vec::new();
    let mut i: usize = 0;
    while i < infos.len()
        invariant
            i <= infos@.len(),
            i == out@.len(),
            all == typing::outward_modules(modules_view(infos@), structs_view(top@)),
            forall|k: int|
                0 <= k < i ==> ((#[trigger] out@[k]).0@, out@[k].1@) == all[k],
        decreases infos@.len() - i,
    {
        let info = outward_module(infos[i].0.as_str(), &infos[i].1, top);
        out.push((infos[i].0.clone(), info));
        i = i + 1;
    }
    assert(modules_view(out@) =~= all);
    out
}

// ---------------------------------------------------------------------------
// Modules from inside
// ---------------------------------------------------------------------------

/// The struct of a module with the methods that the program adds to it.
fn inward_struct(own: StructInfo, outside: &StructInfo) -> (r: StructInfo)
    ensures
        r@ == typing::inward_struct(own@, outside@),
{
    let ghost v = own@;
    let ghost all = sigs_view(outside.methods@);
    let ghost n = own.methods@.len() as int;
    let mut methods = own.methods;
    let mut i: usize = methods.len();
    if i <= outside.methods.len() {
        assert(sigs_view(methods@) =~= v.methods + all.subrange(n, n));
        while i < outside.methods.len()
            invariant
                0 <= n <= i <= outside.methods@.len(),
                all == sigs_view(outside.methods@),
                sigs_view(methods@) == v.methods + all.subrange(n, i as int),
            decreases outside.methods@.len() - i,
        {
            let s = &outside.methods[i];
            let ghost before = sigs_view(methods@);
            let copy = Sig {
                name: s.name.clone(),
                params: copy_params(&s.params),
                return_type: s.return_type.copy(),
                span: s.span,
            };
            assert(copy@ == all[i as int]);
            methods.push(copy);
            assert(sigs_view(methods@) =~= before.push(all[i as int]));
            assert(sigs_view(methods@) =~= v.methods + all.subrange(n, i + 1));
            i = i + 1;
        }
    }
    StructInfo { name: own.name, fields: own.fields, methods }
}

fn inward_module(own: ModuleInfo, outside: &ModuleInfo) -> (r: ModuleInfo)
    ensures
        r@ == typing::inward_module(own@, outside@),
{
    let ghost all = typing::inward_module(own@, outside@).structs;
    let ghost v = structs_view(own.structs@);
    let functions = own.functions;
    let mut structs: Vec<StructInfo> = Vec::new();
    for s in it: own.structs
        invariant
            v == structs_view(it.seq()),
            v.len() == all.len(),
            structs@.len() == it.index(),
            forall|k: int|
                0 <= k < all.len() ==> #[trigger] all[k] == (if k < outside@.structs.len() {
                    typing::inward_struct(v[k], outside@.structs[k])
                } else {
                    v[k]
                }),
            forall|k: int| 0 <= k < structs@.len() ==> (#[trigger] structs@[k])@ == all[k],
    {
        let k: usize = structs.len();
        assert(v[k as int] == s@);
        assert(all[k as int] == all[k as int]);
        if k < outside.structs.len() {
            structs.push(inward_struct(s, &outside.structs[k]));
        } else {
            structs.push(s);
        }
    }
    assert(structs_view(structs@) =~= all);
    ModuleInfo { structs, functions }
}

/// What the modules declare, as they say so themselves, with the methods that the
/// program adds.
pub fn inward_modules(
    infos: Vec<(String, ModuleInfo)>,
    outside: &Vec<(String, ModuleInfo)>,
) -> (r: Vec<(String, ModuleInfo)>)
    ensures
        modules_view(r@) == typing::inward_modules(
            modules_view(infos@),
            modules_view(outside@),
        ),
        r@.len() == infos@.len(),
{
    let ghost v = modules_view(infos@);
    let ghost o = modules_view(outside@);
    let ghost all = typing::inward_modules(v, o);
    let mut out: Vec<(String, ModuleInfo)> = Vec::new();
    for info in it: infos
        invariant
            v == modules_view(it.seq()),
            o == modules_view(outside@),
            all == typing::inward_modules(v, o),
            out@.len() == it.index(),
            forall|k: int|
                0 <= k < out@.len() ==> ((#[trigger] out@[k]).0@, out@[k].1@) == all[k],
    {
        let k: usize = out.len();
        assert(v[k as int] == (info.0@, info.1@));
        let (name, own) = info;
        if k < outside.len() {
            out.push((name, inward_module(own, &outside[k].1)));
        } else {
            out.push((name, own));
        }
    }
    assert(modules_view(out@) =~= all);
    out
}

// ---------------------------------------------------------------------------
// Lookup
// ---------------------------------------------------------------------------

pub fn struct_index(structs: &Vec<StructInfo>, name: &str) -> (r: Option<usize>)
    ensures
        match r {
            Some(i) => {
                &&& i < structs@.len()
                &&& typing::struct_index(structs_view(structs@), name@, 0) == Some(i as int)
                &&& typing::find_struct(structs_view(structs@), name@, 0) == Some(
                    structs@[i as int]@,
                )
            },
            None => {
                &&& typing::struct_index(structs_view(structs@), name@, 0) is None
                &&& typing::find_struct(structs_view(structs@), name@, 0) is None
            },
        },
{
    let ghost v = structs_view(structs@);
    let mut i: usize = 0;
    while i < structs.len()
        invariant
            i <= structs@.len(),
            v == structs_view(structs@),
            typing::struct_index(v, name@, 0) == typing::struct_index(v, name@, i as int),
            typing::find_struct(v, name@, 0) == typing::find_struct(v, name@, i as int),
        decreases structs@.len() - i,
    {
        if text::text_eq(structs[i].name.as_str(), name) {
            return Some(i);
        }
        i = i + 1;
    }
    None
}

pub fn find_struct<'e>(structs: &'e Vec<StructInfo>, name: &str) -> (r: Option<&'e StructInfo>)
    ensures
        match r {
            Some(s) => typing::find_struct(structs_view(structs@), name@, 0) == Some(s@),
            None => typing::find_struct(structs_view(structs@), name@, 0) is None,
        },
{
    match struct_index(structs, name) {
        Some(i) => Some(&structs[i]),
        None => None,
    }
}

pub fn find_sig<'e>(sigs: &'e Vec<Sig>, name: &str) -> (r: Option<&'e Sig>)
    ensures
        match r {
            Some(s) => typing::find_sig(sigs_view(sigs@), name@, 0) == Some(s@),
            None => typing::find_sig(sigs_view(sigs@), name@, 0) is None,
        },
{
    let ghost v = sigs_view(sigs@);
    let mut i: usize = 0;
    while i < sigs.len()
        invariant
            i <= sigs@.len(),
            v == sigs_view(sigs@),
            typing::find_sig(v, name@, 0) == typing::find_sig(v, name@, i as int),
        decreases sigs@.len() - i,
    {
        if text::text_eq(sigs[i].name.as_str(), name) {
            return Some(&sigs[i]);
        }
        i = i + 1;
    }
    None
}

pub fn module_index(modules: &Vec<(String, ModuleInfo)>, name: &str) -> (r: Option<usize>)
    ensures
        match r {
            Some(i) => {
                &&& i < modules@.len()
                &&& typing::module_index(modules_view(modules@), name@, 0) == Some(i as int)
                &&& typing::find_module(modules_view(modules@), name@, 0) == Some(
                    modules@[i as int].1@,
                )
            },
            None => {
                &&& typing::module_index(modules_view(modules@), name@, 0) is None
                &&& typing::find_module(modules_view(modules@), name@, 0) is None
            },
        },
{
    let ghost v = modules_view(modules@);
    let mut i: usize = 0;
    while i < modules.len()
        invariant
            i <= modules@.len(),
            v == modules_view(modules@),
            typing::module_index(v, name@, 0) == typing::module_index(v, name@, i as int),
            typing::find_module(v, name@, 0) == typing::find_module(v, name@, i as int),
        decreases modules@.len() - i,
    {
        if text::text_eq(modules[i].0.as_str(), name) {
            return Some(i);
        }
        i = i + 1;
    }
    None
}

/// The type of the first field of that name.
pub fn first_field<'e>(fields: &'e Vec<FieldDecl>, name: &str) -> (r: Option<&'e Type>)
    ensures
        match r {
            Some(t) => typing::first_field(ast::fields_view(fields@), name@, 0) == Some(t@),
            None => typing::first_field(ast::fields_view(fields@), name@, 0) is None,
        },
{
    let ghost v = ast::fields_view(fields@);
    let mut i: usize = 0;
    while i < fields.len()
        invariant
            i <= fields@.len(),
            v == ast::fields_view(fields@),
            typing::first_field(v, name@, 0) == typing::first_field(v, name@, i as int),
        decreases fields@.len() - i,
    {
        if text::text_eq(fields[i].name.as_str(), name) {
            return Some(&fields[i].ty);
        }
        i = i + 1;
    }
    None
}

/// The types of the parameters other than `self`.
pub fn param_types(sig: &Sig) -> (r: Vec<Type>)
    ensures
        types_view(r@) == typing::param_types(sig@),
{
    let ghost v = ast::params_view(sig.params@);
    let mut out: Vec<Type> = Vec::new();
    let mut i: usize = 0;
    assert(types_view(out@) =~= Seq::empty());
    while i < sig.params.len()
        invariant
            i <= sig.params@.len(),
            v == ast::params_view(sig.params@),
            types_view(out@) == typing::named_types(v, i as int),
        decreases sig.params@.len() - i,
    {
        let ghost before = out@;
        if let ParamKind::Named { ty, .. } = &sig.params[i].kind {
            out.push(ty.copy());
            assert(types_view(out@) =~= types_view(before).push(ty@));
        }
        i = i + 1;
    }
    out
}

pub open spec fn types_view(s: Seq<Type>) -> Seq<TypeM> {
    Seq::new(s.len(), |i: int| s[i]@)
}

pub fn method_has_self(sig: &Sig) -> (r: bool)
    ensures
        r == typing::has_self(sig@),
{
    let mut i: usize = 0;
    while i < sig.params.len()
        invariant
            i <= sig.params@.len(),
            forall|k: int| 0 <= k < i ==> (#[trigger] sig@.params[k]).kind is Named,
        decreases sig.params@.len() - i,
    {
        if !matches!(sig.params[i].kind, ParamKind::Named { .. }) {
            assert(!(sig@.params[i as int].kind is Named));
            return true;
        }
        i = i + 1;
    }
    false
}

impl StructInfo {
    /// The type that an initializer must give the field: of fields of one name
    /// the last counts.
    pub fn declared(&self, name: &str) -> (r: Option<&Type>)
        ensures
            match r {
                Some(t) => typing::declared(self@, name@) == Some(t@),
                None => typing::declared(self@, name@) is None,
            },
    {
        let ghost v = ast::fields_view(self.fields@);
        let mut n: usize = self.fields.len();
        while n > 0
            invariant
                n <= self.fields@.len(),
                v == ast::fields_view(self.fields@),
                typing::declared(self@, name@) == typing::last_field(v, name@, n as int),
            decreases n,
        {
            if text::text_eq(self.fields[n - 1].name.as_str(), name) {
                return Some(&self.fields[n - 1].ty);
            }
            n = n - 1;
        }
        None
    }
}

impl Env {
    /// Look up a struct by its bare name. Searches the module that is checked
    /// first, then the top-level namespace; a struct of another module is only
    /// found as `module::name`.
    pub fn lookup_struct(&self, name: &str) -> (r: Option<&StructInfo>)
        ensures
            match r {
                Some(s) => self@.lookup_struct(name@) == Some(s@),
                None => self@.lookup_struct(name@) is None,
            },
    {
        if let Some(s) = find_struct(&self.own.structs, name) {
            return Some(s);
        }
        find_struct(&self.structs, name)
    }

    /// Look up a function by its bare name.
    pub fn lookup_fn(&self, name: &str) -> (r: Option<&Sig>)
        ensures
            match r {
                Some(s) => self@.lookup_fn(name@) == Some(s@),
                None => self@.lookup_fn(name@) is None,
            },
    {
        if let Some(f) = find_sig(&self.own.functions, name) {
            return Some(f);
        }
        find_sig(&self.functions, name)
    }

    pub fn lookup_struct_qualified(&self, module: &str, name: &str) -> (r: Option<&StructInfo>)
        ensures
            match r {
                Some(s) => self@.lookup_qualified(module@, name@) == Some(s@),
                None => self@.lookup_qualified(module@, name@) is None,
            },
    {
        match module_index(&self.modules, module) {
            Some(i) => find_struct(&self.modules[i].1.structs, name),
            None => None,
        }
    }

    /// The function that `module::name` is.
    pub fn lookup_module_fn(&self, module: &str, name: &str) -> (r: Option<&Sig>)
        ensures
            match r {
                Some(s) => self@.lookup_module_fn(module@, name@) == Some(s@),
                None => self@.lookup_module_fn(module@, name@) is None,
            },
    {
        match module_index(&self.modules, module) {
            Some(i) => find_sig(&self.modules[i].1.functions, name),
            None => None,
        }
    }

    pub fn type_name_exists(&self, name: &str) -> (r: bool)
        ensures
            r == self@.type_name_exists(name@),
    {
        text::text_eq(name, "i64") || text::text_eq(name, "f64") || text::text_eq(name, "void")
            || text::text_eq(name, "null") || self.lookup_struct(name).is_some()
    }

    /// Does this struct have any machine-type field? (Determines literal
    /// desugaring suppression inside its method bodies.)
    pub fn struct_is_machine_backed(&self, name: &str) -> (r: bool)
        ensures
            r == self@.machine_backed(name@),
    {
        match self.lookup_struct(name) {
            Some(s) => {
                let mut i: usize = 0;
                while i < s.fields.len()
                    invariant
                        i <= s.fields@.len(),
                        self@.lookup_struct(name@) == Some(s@),
                        forall|k: int|
                            0 <= k < i ==> !(#[trigger] s@.fields[k]).ty.is_machine(),
                    decreases s.fields@.len() - i,
                {
                    if s.fields[i].ty.is_machine() {
                        assert(s@.fields[i as int].ty.is_machine());
                        return true;
                    }
                    i = i + 1;
                }
                false
            },
            None => false,
        }
    }

    pub fn find_method(&self, struct_name: &str, method: &str) -> (r: Option<&Sig>)
        ensures
            match r {
                Some(s) => self@.find_method(struct_name@, method@) == Some(s@),
                None => self@.find_method(struct_name@, method@) is None,
            },
    {
        if let Some(s) = self.lookup_struct(struct_name) {
            if let Some(m) = find_sig(&s.methods, method) {
                return Some(m);
            }
        }
        if text::text_eq(struct_name, "i64") {
            find_sig(&self.i64_methods, method)
        } else if text::text_eq(struct_name, "f64") {
            find_sig(&self.f64_methods, method)
        } else {
            None
        }
    }

    /// Given a value type, find the struct name to dispatch methods on.
    /// References auto-deref to their referent struct.
    pub fn receiver_struct_name(&self, ty: &Type) -> (r: Option<String>)
        ensures
            ast::opt_text_view(r) == self@.receiver(ty@),
        decreases ty,
    {
        match ty {
            Type::I64 => Some("i64".to_owned()),
            Type::F64 => Some("f64".to_owned()),
            Type::Named(n) => Some(n.clone()),
            Type::Qualified(_, n) => Some(n.clone()),
            Type::Ref(inner) => self.receiver_struct_name(inner),
            Type::MutRef(inner) => self.receiver_struct_name(inner),
            _ => None,
        }
    }

    /// The struct that a value of a type with that bare name is.
    pub fn struct_named(&self, name: &str) -> (r: Option<&StructInfo>)
        ensures
            match r {
                Some(s) => self@.struct_named(name@) == Some(s@),
                None => self@.struct_named(name@) is None,
            },
    {
        if let Some(s) = self.lookup_struct(name) {
            return Some(s);
        }
        if !text::text_eq(name, "bool") {
            return None;
        }
        let ghost v = modules_view(self.modules@);
        let mut i: usize = 0;
        while i < self.modules.len()
            invariant
                i <= self.modules@.len(),
                v == modules_view(self.modules@),
                self@.struct_named(name@) == typing::find_in_modules(v, name@, i as int),
            decreases self.modules@.len() - i,
        {
            if let Some(s) = find_struct(&self.modules[i].1.structs, name) {
                return Some(s);
            }
            i = i + 1;
        }
        None
    }

    /// The struct that a value of the type is, behind references.
    pub fn struct_of(&self, ty: &Type) -> (r: Option<&StructInfo>)
        ensures
            match r {
                Some(s) => self@.struct_of(ty@) == Some(s@),
                None => self@.struct_of(ty@) is None,
            },
        decreases ty,
    {
        match ty {
            Type::Named(n) => self.struct_named(n.as_str()),
            Type::Qualified(m, n) => self.lookup_struct_qualified(m.as_str(), n.as_str()),
            Type::Ref(inner) => self.struct_of(inner),
            Type::MutRef(inner) => self.struct_of(inner),
            _ => None,
        }
    }

    /// The method of that name that a value of the type has.
    pub fn method_of(&self, ty: &Type, method: &str) -> (r: Option<&Sig>)
        ensures
            match r {
                Some(s) => self@.method_of(ty@, method@) == Some(s@),
                None => self@.method_of(ty@, method@) is None,
            },
        decreases ty,
    {
        match ty {
            Type::I64 => find_sig(&self.i64_methods, method),
            Type::F64 => find_sig(&self.f64_methods, method),
            Type::Ref(inner) => self.method_of(inner, method),
            Type::MutRef(inner) => self.method_of(inner, method),
            _ => match self.struct_of(ty) {
                Some(s) => find_sig(&s.methods, method),
                None => None,
            },
        }
    }

    /// The only field of the struct that a value of the type is.
    pub fn single_field_wrapper(&self, ty: &Type) -> (r: Option<&FieldDecl>)
        ensures
            match r {
                Some(f) => self@.wrapped(ty@) == Some(ast::field_view(*f)),
                None => self@.wrapped(ty@) is None,
            },
    {
        match self.struct_of(ty) {
            Some(s) => {
                if s.fields.len() == 1 {
                    Some(&s.fields[0])
                } else {
                    None
                }
            },
            None => None,
        }
    }

    /// Structural type compatibility (no implicit coercions).
    pub fn types_compatible(&self, expected: &Type, found: &Type) -> (r: bool)
        ensures
            r == self@.compatible(expected@, found@),
        decreases expected,
    {
        if expected.same(found) {
            return true;
        }
        match (expected, found) {
            (Type::Ref(a), Type::Ref(b)) => self.types_compatible(a, b),
            (Type::MutRef(a), Type::MutRef(b)) => self.types_compatible(a, b),
            // Allow a &mut T to satisfy a &T expectation (mut is stronger).
            (Type::Ref(a), Type::MutRef(b)) => self.types_compatible(a, b),
            // Named vs Qualified with same base name.
            (Type::Named(a), Type::Qualified(_, b)) => *a == *b,
            (Type::Qualified(_, b), Type::Named(a)) => *a == *b,
            _ => false,
        }
    }

    /// The struct that an initializer names.
    pub fn init_target(&self, name: &StructName) -> (r: Option<&StructInfo>)
        ensures
            match r {
                Some(s) => typing::init_target(self@, name@) == Some(s@),
                None => typing::init_target(self@, name@) is None,
            },
    {
        match name {
            StructName::Unqualified(n) => self.lookup_struct(n.as_str()),
            StructName::Qualified(m, n) => {
                self.lookup_struct_qualified(m.as_str(), n.as_str())
            },
        }
    }
}

} // verus!
