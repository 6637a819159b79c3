use jo_compiler::ast::{Block, Expr, ExprKind, FnDecl, Item, Param, Program, Span, Stmt, StructName};
use jo_compiler::ast::{ReturnStmt, Type, UnaryOp};
use jo_compiler::driver::{
    compile, duplicate_import_diag, include_dirs_for, item_kind_span, lex_and_parse, merge_modules,
};
use jo_compiler::preprocessor::PreprocessOutput;
use jo_compiler::typechecker::TypeChecker;

const STD: &str = "
struct bool { inner_value: i64,
    fn not(&self) bool { return bool { inner_value = 1 - self.inner_value }; }
    fn and(&self, other: &bool) bool { return bool { inner_value = 1 }; }
}
struct int { inner_value: i64,
    fn add(&self, other: &int) int { return int { inner_value = self.inner_value + other.inner_value }; }
    fn eq(&self, other: &int) bool { return bool { inner_value = 1 }; }
    fn lt(&self, other: &int) bool { return bool { inner_value = 1 }; }
    fn neg(&self) int { return int { inner_value = 0 }; }
    fn set(&mut self, v: i64) void { self.inner_value = v; }
    fn take(move self) int { return self; }
    fn zero() int { return int { inner_value = 0 }; }
    fn to_float(&self) float { return float { inner_value = 0.5 }; }
}
struct float { inner_value: f64,
    fn to_int(&self) int { return int { inner_value = 0 }; }
}
struct char { inner_value: i64, }
struct string { ptr: i64, length: i64, }
struct Person { name: string, age: int,
    fn get_age(&self) int { return self.age; }
}
";

fn front(src: &str, modules: &[(&str, &str)]) -> Result<Program, Vec<String>> {
    let pp = PreprocessOutput {
        source: src.to_string(),
        modules: modules.iter().map(|m| (m.0.to_string(), m.1.to_string())).collect(),
    };
    compile(pp, "main.jo").map_err(|ds| ds.into_iter().map(|d| d.code).collect())
}

/// The codes for a program that holds the library and this text.
fn codes(src: &str) -> Vec<String> {
    match front(&format!("{}{}", STD, src), &[]) {
        Ok(_) => vec![],
        Err(cs) => cs,
    }
}

/// The codes for a `main` with these statements.
fn in_main(stmts: &str) -> Vec<String> {
    codes(&format!("fn main() void {{ {} }}", stmts))
}

fn main_of(p: Program) -> FnDecl {
    for item in p.items {
        if let Item::Fn(f) = item {
            if f.name == "main" {
                return f;
            }
        }
    }
    panic!("no main")
}

/// The initial value that a `let` in `main` is rewritten to.
fn rewritten(expr: &str) -> Expr {
    let src = format!("{}fn main() void {{ let a = 1; let r = &a; let x = {}; }}", STD, expr);
    match main_of(front(&src, &[]).unwrap()).body.stmts.pop() {
        Some(Stmt::Let(l)) => l.init,
        _ => panic!("no let"),
    }
}

fn named(n: &str) -> Option<Type> {
    Some(Type::Named(n.to_string()))
}

/// The fields of a struct initializer.
fn init(e: Expr) -> (String, Vec<(String, Expr)>) {
    match e.kind {
        ExprKind::StructInit { name: StructName::Unqualified(n), fields } => (n, fields),
        other => panic!("no initializer: {:?}", other),
    }
}

fn one_field(expr: &str) -> (String, String, ExprKind, Option<Type>) {
    let (n, mut fields) = init(rewritten(expr));
    assert_eq!(fields.len(), 1);
    let (f, e) = fields.pop().unwrap();
    (n, f, e.kind, e.ty)
}

#[test]
fn literals_are_wrapped() {
    for (text, name, n) in [("10", "int", 10), ("'a'", "char", 97), ("true", "bool", 1), ("false", "bool", 0)] {
        let (s, f, k, t) = one_field(text);
        assert_eq!((s.as_str(), f.as_str()), (name, "inner_value"));
        assert!(matches!(k, ExprKind::IntLit(m) if m == n));
        assert_eq!(t, Some(Type::I64));
        assert_eq!(rewritten(text).ty, named(name));
    }
    let (s, _, k, t) = one_field("3.14");
    assert_eq!(s, "float");
    assert!(matches!(k, ExprKind::FloatLit(x) if x == "3.14"));
    assert_eq!(t, Some(Type::F64));
}

#[test]
fn string_literals_hold_their_bytes() {
    let e = rewritten("\"hé\"");
    assert_eq!(e.ty, named("string"));
    let (n, fields) = init(e);
    assert_eq!(n, "string");
    assert_eq!(fields[0].0, "ptr");
    assert!(matches!(&fields[0].1.kind, ExprKind::StringLit(s) if s == "hé"));
    assert_eq!(fields[1].0, "length");
    assert!(matches!(fields[1].1.kind, ExprKind::IntLit(3)));
}

#[test]
fn an_annotation_keeps_a_literal_raw() {
    let src = format!("{}fn main() void {{ let z: i64 = 10; let w: f64 = .5; }}", STD);
    let f = main_of(front(&src, &[]).unwrap());
    match &f.body.stmts[0] {
        Stmt::Let(l) => assert!(matches!(l.init.kind, ExprKind::IntLit(10))),
        _ => panic!("no let"),
    }
    match &f.body.stmts[1] {
        Stmt::Let(l) => assert!(matches!(&l.init.kind, ExprKind::FloatLit(t) if t == "0.5")),
        _ => panic!("no let"),
    }
}

/// The method and the arguments of a call on a receiver.
fn call(e: Expr) -> (String, Vec<Expr>) {
    match e.kind {
        ExprKind::Call { callee, args } => match callee.kind {
            ExprKind::Field { field, .. } => (field, args),
            other => panic!("no method: {:?}", other),
        },
        other => panic!("no call: {:?}", other),
    }
}

#[test]
fn operators_become_calls() {
    let e = rewritten("a + a");
    assert_eq!(e.ty, named("int"));
    let (m, args) = call(e);
    assert_eq!(m, "add");
    assert!(matches!(args[0].kind, ExprKind::Ref { mutable: false, .. }));
    // A reference is passed as it is.
    let (m, args) = call(rewritten("a == r"));
    assert_eq!(m, "eq");
    assert!(matches!(&args[0].kind, ExprKind::Ident(n) if n == "r"));
    // Of a reference to a reference one level is taken off.
    let (_, args) = call(rewritten("a < &r"));
    assert!(matches!(args[0].kind, ExprKind::Deref { .. }));
    let (m, args) = call(rewritten("-a"));
    assert_eq!((m.as_str(), args.len()), ("neg", 0));
    let (m, _) = call(rewritten("!(a == a)"));
    assert_eq!(m, "not");
}

#[test]
fn casts_become_calls() {
    let e = rewritten("a -> float");
    assert_eq!(e.ty, named("float"));
    assert_eq!(call(e).0, "to_float");
    let e = rewritten("a -> float -> int");
    assert_eq!(e.ty, named("int"));
    assert_eq!(call(e).0, "to_int");
}

#[test]
fn wrappers_are_taken_off_and_put_on_by_casts() {
    let e = rewritten("a -> i64");
    assert_eq!(e.ty, Some(Type::I64));
    assert!(matches!(e.kind, ExprKind::Field { ref field, .. } if field == "inner_value"));
    let e = rewritten("a.inner_value -> int");
    assert_eq!(e.ty, named("int"));
    assert_eq!(init(e).0, "int");
}

#[test]
fn machine_operations_stay_in_machine_backed_structs() {
    let p = front(&format!("{}fn main() void {{ }}", STD), &[]).unwrap();
    for item in &p.items {
        if let Item::Struct(s) = item {
            if s.name == "int" {
                let value = match &s.methods[0].body.stmts[0] {
                    Stmt::Return(ReturnStmt { value: Some(e), .. }) => e,
                    _ => panic!("no return"),
                };
                match &value.kind {
                    ExprKind::StructInit { fields, .. } => {
                        assert!(matches!(fields[0].1.kind, ExprKind::Binary { .. }));
                    }
                    _ => panic!("no initializer"),
                }
            }
        }
    }
}

#[test]
fn main_signatures() {
    assert!(codes("fn main() void { }").is_empty());
    assert!(codes("fn main() i64 { let x: i64 = 0; return x; }").is_empty());
    assert!(codes("fn main() int { return 0; }").is_empty());
    assert_eq!(codes(""), ["E400"]);
    assert_eq!(codes("fn main() float { return 1.0; }"), ["E401"]);
    assert_eq!(codes("fn main(x: int) void { }"), ["E402"]);
}

#[test]
fn definite_return() {
    let with = |f: &str| codes(&format!("{} fn main() void {{ }}", f));
    assert!(with("fn f(c: bool) int { if c { return 1; } else { return 0; } }").is_empty());
    assert!(with("fn g(c: bool) void { if c { return; } }").is_empty());
    assert_eq!(with("fn h(c: bool) int { if c { return 1; } }"), ["E410"]);
    assert_eq!(with("fn k() int { let x = 5; }"), ["E410"]);
    assert_eq!(with("fn l(c: bool) int { while c { return 1; } }"), ["E410"]);
    assert_eq!(
        with("fn m(c: bool) int { if c { return 1; } else if c { } else { return 2; } }"),
        ["E410"]
    );
}

#[test]
fn returns_must_fit() {
    let with = |f: &str| codes(&format!("{} fn main() void {{ }}", f));
    assert_eq!(with("fn f() void { return 1; }"), ["E430"]);
    assert_eq!(with("fn f() int { return; }"), ["E431", "E410"]);
    assert_eq!(with("fn f() int { return 1.5; }"), ["E432"]);
}

#[test]
fn loops() {
    assert!(in_main("while true { if true { break; } continue; }").is_empty());
    assert_eq!(in_main("break;"), ["E440"]);
    assert_eq!(in_main("continue;"), ["E441"]);
    assert_eq!(in_main("while 1 { }"), ["E4B0"]);
    assert_eq!(in_main("if 1 { }"), ["E4B0"]);
}

#[test]
fn variables() {
    assert_eq!(in_main("let x = y;"), ["E460"]);
    assert_eq!(in_main("if true { let y = 1; } let x = y;"), ["E460"]);
    assert!(in_main("let x = 1; if true { let x = 1.5; let z: float = x; } x = 2;").is_empty());
    assert_eq!(in_main("let x: int = 1.5;"), ["E420"]);
    assert_eq!(in_main("let x = 1; x = 1.5;"), ["E421"]);
    assert_eq!(in_main("let int = 1;"), ["E411"]);
    assert_eq!(in_main("let x = 1; let y = *x;"), ["E461"]);
}

#[test]
fn duplicates() {
    assert_eq!(codes("fn f() void { } fn f() void { } fn main() void { }"), ["E412"]);
}

#[test]
fn no_implicit_coercion() {
    assert_eq!(in_main("let x = 1; let y: i64 = x;"), ["E420"]);
    assert_eq!(in_main("let x: i64 = 1; let y: int = x;"), ["E420"]);
    assert!(in_main("let x = 1; let y: &int = &mut x;").is_empty());
    assert_eq!(in_main("let x = 1; let y: &mut int = &x;"), ["E420"]);
}

#[test]
fn assembly_operands() {
    assert!(in_main("let x = 1; !asm {\n mov rax, %x\n lea rbx, &x\n }").is_empty());
    assert_eq!(in_main("!asm {\n mov rax, %y\n }"), ["E450"]);
}

#[test]
fn operators_need_methods() {
    assert_eq!(in_main("let x = 1 - 1;"), ["E472"]);
    assert_eq!(in_main("let x = !1;"), ["E472"]);
    assert_eq!(in_main("let x = 1 + 1.5;"), ["E473"]);
    assert_eq!(codes("fn v() void { } fn main() void { let x = v() + 1; }"), ["E471"]);
    assert_eq!(codes("fn v() void { } fn main() void { let x = -v(); }"), ["E471"]);
    assert_eq!(in_main("let n: i64 = 1; let x = n + n;"), ["E472"]);
}

#[test]
fn wrong_casts() {
    assert_eq!(in_main("let n: i64 = 1; let x = n -> Person;"), ["E480"]);
    assert_eq!(in_main("let x = 1 -> &int;"), ["E481"]);
    assert_eq!(in_main("let x = 1 -> string;"), ["E482"]);
}

#[test]
fn calls() {
    let ok = "let x = 1; x.set(x.inner_value); let y = x.take(); let z = int::zero();";
    assert_eq!(in_main(ok), Vec::<String>::new());
    assert_eq!(in_main("f(1);"), ["E492"]);
    assert_eq!(in_main("let x = 1; x.nothing();"), ["E490"]);
    assert_eq!(in_main("1();"), ["E491"]);
    assert_eq!(codes("fn f(x: int) void { } fn main() void { f(); }"), ["E493"]);
    assert_eq!(codes("fn f(x: int) void { } fn main() void { f(1.5); }"), ["E494"]);
}

#[test]
fn initializers() {
    assert!(in_main("let p = Person { age = 1, name = \"x\" };").is_empty());
    assert_eq!(in_main("let p = Nobody { };"), ["E495"]);
    assert_eq!(in_main("let p = Person { name = \"x\", age = 1.5 };"), ["E496"]);
    assert_eq!(in_main("let p = Person { name = \"x\", age = 1, age = 2 };"), ["E497"]);
    assert_eq!(in_main("let p = Person { name = \"x\", age = 1, size = 2 };"), ["E498"]);
    assert_eq!(in_main("let p = Person { name = \"x\" };"), ["E499"]);
}

#[test]
fn fields() {
    assert!(in_main("let p = Person { name = \"x\", age = 1 }; let r = &p; let a: int = r.age; p.age = 3;").is_empty());
    assert_eq!(codes("fn v() void { } fn main() void { let x = v().y; }"), ["E4A0"]);
    assert_eq!(in_main("let n: i64 = 1; let x = n.y;"), ["E4A2"]);
    assert_eq!(in_main("let p = 1; let x = p.size;"), ["E4A1"]);
    assert_eq!(codes("fn f(x: Nobody) void { let y = x.z; } fn main() void { }"), ["E4A2"]);
}

#[test]
fn literals_need_their_types() {
    let cs = front("fn main() void { let x = 1; }", &[]).err().unwrap();
    assert_eq!(cs, ["E4C0"]);
    let cs = front("struct int { other: i64, } fn main() void { let x = 1; }", &[]).err().unwrap();
    assert_eq!(cs, ["E4C1"]);
}

#[test]
fn extends_add_methods() {
    let twice = "extend int { fn twice(&self) int { return self + self; } }";
    let used = "fn main() void { let a = 1; let x: int = a.twice(); }";
    assert!(codes(&format!("{} {}", twice, used)).is_empty());
    assert_eq!(codes(used), ["E490"]);
    let machine = "extend i64 { fn one(&self) i64 { return 1; } }";
    let used = "fn main() void { let n: i64 = 2; let m: i64 = n.one(); }";
    assert!(codes(&format!("{} {}", machine, used)).is_empty());
    assert_eq!(codes("extend Nobody { } fn main() void { }"), ["E4D0"]);
}

#[test]
fn modules() {
    let lib = "struct T { x: i64, fn get(&self) i64 { return self.x; } } fn f() void { }";
    let ok = "import lib; fn main() void { lib::f(); let t = lib::T { x = 1 }; let n: i64 = t.get(); }";
    let p = front(ok, &[("lib", lib)]).unwrap();
    // The items of the module are merged after those of the program.
    assert_eq!(item_names(&p), ["main", "T", "f"]);
    let bad = |src: &str| front(src, &[("lib", lib)]).err().unwrap();
    assert_eq!(bad("import lib; fn main() void { let x = lib::nothing; }"), ["E462"]);
    assert_eq!(bad("fn main() void { let x = other::f; }"), ["E463"]);
    // An item whose name is present is skipped.
    let p = front("import lib; fn f() i64 { return 1; } fn main() void { }", &[("lib", lib)]).unwrap();
    assert_eq!(p.items.len(), 4);
}

fn item_names(p: &Program) -> Vec<String> {
    p.items
        .iter()
        .filter_map(|i| match i {
            Item::Fn(f) => Some(f.name.clone()),
            Item::Struct(s) => Some(s.name.clone()),
            _ => None,
        })
        .collect()
}

#[test]
fn merging_skips_names_in_use() {
    let program = lex_and_parse("fn f() void { }", "m.jo").unwrap();
    let lib = lex_and_parse("extend int { fn f(&self) void { } fn g(&self) void { } } fn g() void { }", "l.jo").unwrap();
    let whole = merge_modules(program, vec![("l".to_string(), lib)]);
    assert_eq!(item_names(&whole), ["f", "g"]);
    assert!(matches!(&whole.items[1], Item::Fn(g) if g.params.len() == 1));
}

#[test]
fn a_duplicate_import_is_described() {
    let program = lex_and_parse("struct T { }\nfn f() void { }", "m.jo").unwrap();
    assert_eq!(item_kind_span(&program.items[0]), ("struct", Span::new(1, 1)));
    let (kind, span) = item_kind_span(&program.items[1]);
    let d = duplicate_import_diag("l", "f", span, kind);
    assert_eq!(d.message, "duplicate function `f` imported from module `l`");
    assert_eq!((d.code.as_str(), d.file.as_str(), d.line), ("E4E0", "l.jo", 2));
}

#[test]
fn names_of_a_module_are_qualified() {
    let m = "struct P { }";
    let bad = |src: &str| front(src, &[("m", m)]).err().unwrap();
    assert_eq!(bad("fn main() void { let p = P { }; }"), ["E495"]);
    assert!(front("fn main() void { let p = m::P { }; }", &[("m", m)]).is_ok());
    // The type of the value is qualified too.
    let p = front("fn main() void { let p = m::P { }; }", &[("m", m)]).unwrap();
    match &main_of(p).body.stmts[0] {
        Stmt::Let(l) => assert_eq!(l.init.ty, Some(Type::Qualified("m".to_string(), "P".to_string()))),
        _ => panic!("no let"),
    }
    assert_eq!(bad("fn main() void { let p = other::P { }; }"), ["E495"]);
}

#[test]
fn two_modules_may_use_one_name() {
    let a = "struct P { x: i64, } fn make() P { return P { x = 1 }; }";
    let b = "struct P { y: Q, } struct Q { z: i64, } fn make() P { return P { y = Q { z = 2 } }; }";
    let src = "fn main() void { let p = a::make(); let n: i64 = p.x; let m: i64 = b::make().y.z; }";
    assert!(front(src, &[("a", a), ("b", b)]).is_ok());
    let src = "fn main() void { let p = b::make(); let n: i64 = p.x; }";
    assert_eq!(front(src, &[("a", a), ("b", b)]).err().unwrap(), ["E4A1"]);
}

#[test]
fn a_struct_that_both_declare_alike_is_one() {
    let int = "struct int { inner_value: i64, }";
    let a = format!("{} fn f(n: int) int {{ return n; }}", int);
    let b = format!("{} fn g() int {{ return int {{ inner_value = 1 }}; }}", int);
    let modules = [("a", a.as_str()), ("b", b.as_str())];
    let src = "fn main() int { let n: int = a::f(b::g()); return n; }";
    assert!(front(&format!("{} {}", int, src), &modules).is_ok());
    // Without it the structs of the two modules are apart.
    assert_eq!(front("fn main() void { a::f(b::g()); }", &modules).err().unwrap(), ["E494"]);
    // So is a struct of the program with other fields.
    let m = [("m", "struct P { x: i64, } fn make() P { return P { x = 1 }; }")];
    let src = "struct P { a: i64, } fn main() void { let n: i64 = m::make().x; let p = P { a = n }; }";
    assert!(front(src, &m).is_ok());
}

#[test]
fn conditions_ask_for_the_bare_name() {
    let m = "struct bool { inner_value: i64, fn not(&self) bool { return bool { inner_value = 1 }; } } \
             struct P { ok: bool, } fn yes() bool { return bool { inner_value = 1 }; } \
             fn make() P { return P { ok = yes() }; }";
    let in_main = |s: &str| front(&format!("fn main() void {{ {} }}", s), &[("m", m)]);
    assert!(in_main("if m::yes() { }").is_ok());
    assert!(in_main("let b = m::yes(); while !b { }").is_ok());
    assert!(in_main("if m::make().ok { }").is_ok());
    assert_eq!(in_main("let b: m::bool = m::yes(); if b { }").err().unwrap(), ["E4B0"]);
}

#[test]
fn references_and_their_targets() {
    assert!(in_main("let a: int = 1; let r: &int = &a; let m: &mut int = &mut a; let b: int = *&a; let c: int = *m;").is_empty());
    assert_eq!(in_main("let a = 1; let b = *a;"), ["E461"]);
    assert_eq!(in_main("let a = 1; let r: &mut int = &a;"), ["E420"]);
}

#[test]
fn a_module_goes_by_its_own_names() {
    let m = "struct P { x: i64, } fn one() i64 { return 1; } fn two() i64 { let p = P { x = one() }; return p.x; }";
    assert!(front("fn main() void { m::two(); }", &[("m", m)]).is_ok());
    assert_eq!(front("fn main() void { two(); }", &[("m", m)]).err().unwrap(), ["E492"]);
    // Methods that the program adds to a struct of a module.
    let src = "extend m::P { fn get(&self) i64 { return self.x; } } fn main() void { let n: i64 = m::P { x = 1 }.get(); }";
    assert!(front(src, &[("m", m)]).is_ok());
    // The module has them too.
    let uses = "struct P { x: i64, } fn two() i64 { let p = P { x = 2 }; return p.get(); }";
    assert!(front(src, &[("m", uses)]).is_ok());
    assert_eq!(front("fn main() void { }", &[("m", uses)]).err().unwrap(), ["E490"]);
}

#[test]
fn void_is_no_value() {
    assert_eq!(codes("fn g() void { } fn main() i64 { return g(); }"), ["E432"]);
    assert_eq!(codes("fn g() void { } fn main() void { let x: int = g(); }"), ["E420"]);
    assert_eq!(codes("fn g() void { } fn main() i64 { let x = g(); return x; }"), ["E432"]);
    assert_eq!(codes("fn g() void { } fn h(n: int) void { } fn main() void { h(g()); }"), ["E494"]);
    assert_eq!(codes("fn g() void { } struct W { n: int, } fn main() void { let w = W { n = g() }; }"), ["E496"]);
    assert_eq!(codes("fn g() void { } fn main() void { let x = 1; x = g(); }"), ["E421"]);
    // What was reported once is not reported again.
    assert_eq!(codes("fn main() i64 { return g(); }"), ["E492"]);
    assert_eq!(codes("fn main() i64 { let x = g(); return x; }"), ["E492"]);
    assert_eq!(in_main("let x: int = m::f;"), ["E463"]);
}

#[test]
fn shared_references_are_read_only() {
    assert_eq!(codes("fn f(r: &i64) void { *r = 5; } fn main() void { }"), ["E422"]);
    assert!(codes("fn f(r: &mut i64) void { *r = 5; } fn main() void { }").is_empty());
    assert_eq!(codes("struct S { x: i64, fn f(&self) void { self.x = 1; } } fn main() void { }"), ["E422"]);
    assert!(codes("struct S { x: i64, fn f(&mut self) void { self.x = 1; } } fn main() void { }").is_empty());
    let s = "struct S { x: i64, } struct T { s: S, } fn main() void { } ";
    assert_eq!(codes(&format!("{}fn f(t: &T) void {{ t.s.x = 1; }}", s)), ["E422"]);
    assert!(codes(&format!("{}fn f(t: T) void {{ t.s.x = 1; }}", s)).is_empty());
    assert_eq!(codes(&format!("{}fn f(t: &T) void {{ (*t).s.x = 1; }}", s)), ["E422"]);
    assert!(codes(&format!("{}fn f(t: &mut T) void {{ (*t).s.x = 1; t.s.x = 2; }}", s)).is_empty());
}

#[test]
fn a_cast_method_takes_self_and_gives_the_target() {
    let head = "struct A { fn to_int(&self) int { return int::zero(); } } ";
    let cast = "fn f(a: A) int { return a -> int; } fn main() void { }";
    assert!(codes(&format!("{}{}", head, cast)).is_empty());
    let head = "struct A { fn to_int(&self) bool { return true; } } ";
    assert_eq!(codes(&format!("{}{}", head, cast)), ["E482"]);
    let head = "struct A { fn to_int(&self, n: int) int { return n; } } ";
    assert_eq!(codes(&format!("{}{}", head, cast)), ["E482"]);
    let head = "struct A { fn to_int(&mut self) int { return int::zero(); } } ";
    assert_eq!(codes(&format!("{}{}", head, cast)), ["E482"]);
}

#[test]
fn operator_methods_are_called_like_others() {
    let use_of = "fn f(a: A) int { return a + a; } fn g(a: A) int { return -a; } fn main() void { }";
    let head = "struct A { fn add(&self, o: &A) int { return int::zero(); } fn neg(&self) int { return int::zero(); } } ";
    assert!(codes(&format!("{}{}", head, use_of)).is_empty());
    let head = "struct A { fn add(&self) int { return int::zero(); } fn neg(&self, o: &A) int { return int::zero(); } } ";
    assert_eq!(codes(&format!("{}{}", head, use_of)), ["E493", "E493"]);
    let head = "struct A { fn add(&self, o: &int) int { return int::zero(); } fn neg(&self) int { return int::zero(); } } ";
    assert_eq!(codes(&format!("{}{}", head, use_of)), ["E473"]);
}

#[test]
fn an_initializer_is_reported_field_by_field() {
    let head = "struct W { a: int, b: int, } fn main() void { let w = W ";
    assert_eq!(codes(&format!("{}{{ a = 1, a = 2, c = 3 }}; }}", head)), ["E497", "E498", "E499"]);
    assert_eq!(codes(&format!("{}{{ c = 3, a = 2, a = 1 }}; }}", head)), ["E498", "E497", "E499"]);
    assert_eq!(codes(&format!("{}{{ b = 2, a = 1 }}; }}", head)).len(), 0);
}

#[test]
fn types_are_displayed_apart() {
    let n = |s: &str| Type::Named(s.to_string());
    let shown: Vec<String> = vec![
        Type::Ref(Box::new(n("mut"))),
        Type::MutRef(Box::new(n("mut"))),
        Type::Qualified("a".to_string(), "b".to_string()),
        n("ab"),
        Type::Void,
    ]
    .iter()
    .map(|t| t.display())
    .collect();
    assert_eq!(shown, ["&mut", "&mut mut", "a::b", "ab", "void"]);
}

#[test]
fn an_odd_unary_operator_is_refused() {
    let span = Span::new(1, 1);
    let operand = Box::new(Expr::new(ExprKind::Ident("self".to_string()), span));
    let odd = Expr::new(ExprKind::Unary { op: UnaryOp::Deref, operand }, span);
    let main = FnDecl {
        name: "main".to_string(),
        params: Vec::<Param>::new(),
        return_type: Type::Void,
        body: Block { stmts: vec![Stmt::Expr(odd)] },
        span,
    };
    let mut program = Program { items: vec![Item::Fn(main)] };
    let ds = TypeChecker::check(&mut program, "m.jo", "", &mut vec![]).err().unwrap();
    assert_eq!(ds[0].code, "E460");
    assert_eq!(ds[1].code, "E470");
}

#[test]
fn one_stage_reports_at_a_time() {
    // The parser is not asked about a text that the lexer refuses.
    assert!(codes("$ fn ( let").iter().all(|c| c.starts_with("E1")));
    assert!(codes("fn main( { return y; }").iter().all(|c| c.starts_with("E2")));
    assert!(in_main("let x = y; let z: int = 1.5;").iter().all(|c| c.starts_with("E4")));
}

#[test]
fn search_order_of_modules() {
    assert_eq!(include_dirs_for(Some("src"), Some("/w"), "/lib"), ["src", "/w", "/lib"]);
    assert_eq!(include_dirs_for(Some(""), Some("/w"), "/w"), [".", "/w"]);
    assert_eq!(include_dirs_for(None, None, "/lib"), ["/lib"]);
    assert_eq!(include_dirs_for(Some("/w"), Some("/w"), "/w"), ["/w"]);
    // Directories are the same if their parts are.
    assert_eq!(include_dirs_for(Some("/w/./x"), Some("/w//x/"), "/w/x"), ["/w/./x"]);
    assert_eq!(include_dirs_for(Some("./x"), Some("x"), "/x"), ["./x", "x", "/x"]);
}
