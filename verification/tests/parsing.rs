use jo_compiler::ast::{AsmToken, BinaryOp, Block, Expr, ExprKind, FnDecl, ImportKind, Item, LValue};
use jo_compiler::ast::{ParamKind, Program, Stmt, StructName, Type, UnaryOp};
use jo_compiler::driver::lex_and_parse;
use jo_compiler::error::Diagnostic;

fn parse(src: &str) -> Program {
    lex_and_parse(src, "t.jo").unwrap()
}

fn parse_errors(src: &str) -> Vec<Diagnostic> {
    lex_and_parse(src, "t.jo").err().unwrap()
}

fn first_fn(p: Program) -> FnDecl {
    match p.items.into_iter().next() {
        Some(Item::Fn(f)) => f,
        _ => panic!("no function"),
    }
}

fn body(stmts: &str) -> Block {
    first_fn(parse(&format!("fn f() void {{ {} }}", stmts))).body
}

fn expr(text: &str) -> Expr {
    match body(&format!("{};", text)).stmts.into_iter().next() {
        Some(Stmt::Expr(e)) => e,
        _ => panic!("no expression"),
    }
}

/// The expression with every operation in brackets.
fn shown(e: &Expr) -> String {
    match &e.kind {
        ExprKind::IntLit(n) => format!("{}", n),
        ExprKind::Ident(n) => n.clone(),
        ExprKind::Binary { op, left, right } => {
            format!("({} {} {})", shown(left), op.method_name(), shown(right))
        }
        ExprKind::Unary { op, operand } => format!("({:?} {})", op, shown(operand)),
        ExprKind::Ref { mutable, operand } => {
            format!("({} {})", if *mutable { "refmut" } else { "ref" }, shown(operand))
        }
        ExprKind::Deref { operand } => format!("(deref {})", shown(operand)),
        ExprKind::Cast { expr, target_type } => {
            format!("({} -> {})", shown(expr), target_type.display())
        }
        ExprKind::Call { callee, args } => {
            let args: Vec<String> = args.iter().map(shown).collect();
            format!("{}({})", shown(callee), args.join(", "))
        }
        ExprKind::Field { object, field } => format!("{}.{}", shown(object), field),
        ExprKind::QualifiedIdent { module, name } => format!("{}::{}", module, name),
        ExprKind::StructInit { name, fields } => {
            let fields: Vec<String> =
                fields.iter().map(|(n, e)| format!("{}={}", n, shown(e))).collect();
            format!("{} {{{}}}", name.base(), fields.join(", "))
        }
        other => format!("{:?}", other),
    }
}

#[test]
fn precedence() {
    assert_eq!(shown(&expr("a + b * c")), "(a add (b mul c))");
    assert_eq!(shown(&expr("a - b - c")), "((a sub b) sub c)");
    assert_eq!(shown(&expr("a + b == c")), "((a add b) eq c)");
    assert_eq!(shown(&expr("a == b && c < d")), "((a eq b) and (c lt d))");
    assert_eq!(shown(&expr("a && b || c && d || e")), "(((a and b) or (c and d)) or e)");
    assert_eq!(shown(&expr("a && b == c || d")), "((a and (b eq c)) or d)");
    assert_eq!(shown(&expr("a || b && c")), "(a or (b and c))");
    assert_eq!(shown(&expr("(a + b) * c")), "((a add b) mul c)");
    assert_eq!(shown(&expr("a % b / c")), "((a mod_ b) div c)");
}

#[test]
fn casts_chain_to_the_left() {
    assert_eq!(shown(&expr("a -> B -> C")), "((a -> B) -> C)");
    assert_eq!(shown(&expr("a + b -> float")), "((a add b) -> float)");
    assert_eq!(shown(&expr("a -> &T")), "(a -> &T)");
}

#[test]
fn operator_after_a_cast_is_refused() {
    let ds = parse_errors("fn f() void { let x = a -> int + b; }");
    assert_eq!(ds[0].code, "E202");
}

#[test]
fn unary_operators() {
    assert_eq!(shown(&expr("-a.b(c)")), "(Neg a.b(c))");
    assert_eq!(shown(&expr("!a")), "(Not a)");
    assert_eq!(shown(&expr("*a")), "(deref a)");
    assert_eq!(shown(&expr("&a")), "(ref a)");
    assert_eq!(shown(&expr("&mut a")), "(refmut a)");
    assert_eq!(UnaryOp::Neg.method_name(), Some("neg"));
    assert_eq!(UnaryOp::Not.method_name(), Some("not"));
    assert_eq!(UnaryOp::Deref.method_name(), None);
}

#[test]
fn operator_methods() {
    let table = [
        (BinaryOp::Add, "add"),
        (BinaryOp::Sub, "sub"),
        (BinaryOp::Mul, "mul"),
        (BinaryOp::Div, "div"),
        (BinaryOp::Mod, "mod_"),
        (BinaryOp::Eq, "eq"),
        (BinaryOp::Ne, "ne"),
        (BinaryOp::Lt, "lt"),
        (BinaryOp::Gt, "gt"),
        (BinaryOp::Le, "le"),
        (BinaryOp::Ge, "ge"),
        (BinaryOp::And, "and"),
        (BinaryOp::Or, "or"),
    ];
    for (op, name) in table {
        assert_eq!(op.method_name(), name);
    }
}

#[test]
fn imports() {
    let p = parse("import a::b;\nimport a::b as c;\nimport a::*;\nimport a;\n");
    assert_eq!(p.items.len(), 4);
    let mut seen = vec![];
    for item in &p.items {
        if let Item::Import(i) = item {
            seen.push(match &i.kind {
                ImportKind::Named { module, name, alias } => {
                    format!("{}::{} {:?}", module, name, alias)
                }
                ImportKind::Glob { module } => format!("{}::*", module),
                ImportKind::Module { name } => name.clone(),
            });
        }
    }
    assert_eq!(seen, ["a::b None", "a::b Some(\"c\")", "a::*", "a"]);
}

#[test]
fn structs_and_self_parameters() {
    let p = parse(
        "struct P { x: i64, y: &mut m::T,\n fn a(&self) i64 { return 1; }\n \
         fn b(&mut self, v: i64) void { }\n fn c(move self) P { return self; }\n \
         fn d() void { } }",
    );
    let s = match &p.items[0] {
        Item::Struct(s) => s,
        _ => panic!("no struct"),
    };
    assert_eq!(s.name, "P");
    assert_eq!(s.fields.len(), 2);
    assert_eq!(s.fields[0].ty, Type::I64);
    assert_eq!(s.fields[1].ty.display(), "&mut m::T");
    assert!(matches!(s.methods[0].params[0].kind, ParamKind::SelfRef));
    assert!(matches!(s.methods[1].params[0].kind, ParamKind::SelfMutRef));
    assert!(matches!(s.methods[1].params[1].kind, ParamKind::Named { .. }));
    assert!(matches!(s.methods[2].params[0].kind, ParamKind::SelfMove));
    assert!(s.methods[3].params.is_empty());
}

#[test]
fn extends() {
    let p = parse("extend m::T { fn f(&self) void { } }\nextend i64 { }");
    match (&p.items[0], &p.items[1]) {
        (Item::Extend(a), Item::Extend(b)) => {
            assert_eq!(a.module.as_deref(), Some("m"));
            assert_eq!(a.name, "T");
            assert_eq!(a.methods.len(), 1);
            assert_eq!(b.module, None);
            assert_eq!(b.name, "i64");
        }
        _ => panic!("no extend"),
    }
}

#[test]
fn struct_initializers() {
    assert_eq!(shown(&expr("P { x = 1, y = a + b, }")), "P {x=1, y=(a add b)}");
    let e = expr("m::P { x = 1 }");
    match e.kind {
        ExprKind::StructInit { name: StructName::Qualified(m, n), .. } => {
            assert_eq!((m.as_str(), n.as_str()), ("m", "P"));
        }
        _ => panic!("no initializer"),
    }
    assert_eq!(shown(&expr("m::f(1)")), "m::f(1)");
}

#[test]
fn a_brace_after_a_condition_is_a_block() {
    let b = body("if a { b(); } else if c == d { } else { e(); } while x { break; continue; }");
    match &b.stmts[0] {
        Stmt::If(i) => {
            assert_eq!(i.branches.len(), 2);
            assert_eq!(shown(&i.branches[0].0), "a");
            assert_eq!(i.branches[0].1.stmts.len(), 1);
            assert_eq!(shown(&i.branches[1].0), "(c eq d)");
            assert!(i.else_block.is_some());
        }
        _ => panic!("no if"),
    }
    match &b.stmts[1] {
        Stmt::While(w) => {
            assert_eq!(shown(&w.condition), "x");
            assert!(matches!(w.body.stmts[0], Stmt::Break(_)));
            assert!(matches!(w.body.stmts[1], Stmt::Continue(_)));
        }
        _ => panic!("no while"),
    }
}

#[test]
fn statements() {
    let b = body("let x = 1; let y: &int = &x; x = 2; *y = 3; p.q = 4; return; f(x);");
    assert!(matches!(&b.stmts[0], Stmt::Let(l) if l.name == "x" && l.ty.is_none()));
    assert!(matches!(&b.stmts[1], Stmt::Let(l) if l.ty == Some(Type::Ref(Box::new(
        Type::Named("int".to_string()),
    )))));
    assert!(matches!(&b.stmts[2], Stmt::Assign(a) if matches!(&a.target, LValue::Ident(n, _) if n == "x")));
    assert!(matches!(&b.stmts[3], Stmt::Assign(a) if matches!(&a.target, LValue::Deref(_, _))));
    assert!(matches!(&b.stmts[4], Stmt::Assign(a) if matches!(&a.target, LValue::Field(_, f, _) if f == "q")));
    assert!(matches!(&b.stmts[5], Stmt::Return(r) if r.value.is_none()));
    assert!(matches!(&b.stmts[6], Stmt::Expr(_)));
}

#[test]
fn inline_assembly() {
    let b = body("!asm {\n mov rax, %x\n lea rbx, &y\n }");
    let lines = match &b.stmts[0] {
        Stmt::Asm(a) => &a.lines,
        _ => panic!("no assembly"),
    };
    assert_eq!(lines.len(), 2);
    assert!(lines[0].tokens.iter().any(|t| matches!(t, AsmToken::Value(n) if n == "x")));
    assert!(lines[1].tokens.iter().any(|t| matches!(t, AsmToken::Addr(n) if n == "y")));
    assert!(matches!(&lines[0].tokens[0], AsmToken::Raw(s) if s.contains("mov")));
}

#[test]
fn a_missing_return_type_is_an_error() {
    let ds = parse_errors("fn foo(x: int) {\n}");
    assert_eq!(ds[0].code, "E200");
    assert!(ds[0].message.starts_with("expected return type after ')'"));
    assert_eq!((ds[0].line, ds[0].col), (1, 16));
}

#[test]
fn invalid_assignment_target() {
    let ds = parse_errors("fn f() void { 1 = 2; }");
    assert_eq!(ds[0].code, "E201");
}

#[test]
fn assembly_at_top_level_is_an_error() {
    assert_eq!(parse_errors("!asm { nop }\nfn f() void { }")[0].code, "E200");
}

#[test]
fn bare_self_is_an_error() {
    assert_eq!(parse_errors("struct S { fn f(self) void { } }")[0].code, "E200");
}

#[test]
fn initializer_fields_use_equals() {
    assert_eq!(parse_errors("fn f() void { let p = P { x: 1 }; }")[0].code, "E200");
}

#[test]
fn several_errors_are_reported() {
    let ds = parse_errors("fn f() void { let = 1; let y 2; }\nfn g( void { }\n");
    assert!(ds.len() >= 2);
    assert!(ds.iter().all(|d| d.code.starts_with("E2")));
}

#[test]
fn types_are_shown_as_they_are_written() {
    for t in ["i64", "f64", "void", "null", "int", "m::T", "&int", "&mut &m::T"] {
        let f = first_fn(parse(&format!("fn f(x: {}) void {{ }}", t)));
        match &f.params[0].kind {
            ParamKind::Named { ty, .. } => assert_eq!(ty.display(), t),
            _ => panic!("no type"),
        }
    }
    assert!(Type::I64.is_machine());
    assert!(!Type::Named("int".to_string()).is_machine());
    let r = Type::Ref(Box::new(Type::F64));
    assert!(r.is_ref());
    assert_eq!(r.deref_target(), Some(&Type::F64));
    assert_eq!(Type::F64.deref_target(), None);
}
