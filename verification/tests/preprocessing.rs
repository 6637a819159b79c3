use jo_compiler::directives::{apply_defines, index_top_level_defs, is_ident, rename_definition};
use jo_compiler::directives::replace_whole_word;
use jo_compiler::preprocessor::{Outcome, PreprocessOutput, Preprocessor};

/// Preprocesses the text; modules are looked up among the files.
fn run(src: &str, files: &[(&str, &str)]) -> Result<PreprocessOutput, Vec<String>> {
    let mut pp = Preprocessor::new();
    loop {
        match pp.run(src, "main.jo") {
            Outcome::Need(m) => {
                let text = files.iter().find(|f| f.0 == m).map(|f| f.1.to_string());
                pp.provide(&m, text);
            }
            Outcome::Failed(ds) => return Err(ds.into_iter().map(|d| d.code).collect()),
            Outcome::Done(out) => return Ok(out),
        }
    }
}

fn text(src: &str, files: &[(&str, &str)]) -> String {
    run(src, files).ok().unwrap().source
}

fn codes(src: &str, files: &[(&str, &str)]) -> Vec<String> {
    run(src, files).err().unwrap()
}

fn chars(s: &str) -> Vec<char> {
    s.chars().collect()
}

fn string(v: Vec<char>) -> String {
    v.into_iter().collect()
}

const LIB: &str = "// a library\nstruct int { inner_value: i64, }\n\n\
                   fn print(x: int) void {\n    print(x);\n}\nfn other() void { }\n";

#[test]
fn plain_text_stays() {
    let src = "fn main() void {\n  let x = \"a\";\n}\n";
    assert_eq!(text(src, &[]), src);
}

#[test]
fn a_named_import_is_pasted_in_place() {
    let out = text("import lib::other;\nfn main() void { }\n", &[("lib", LIB)]);
    let (other, main) = (out.find("fn other()").unwrap(), out.find("fn main()").unwrap());
    assert!(other < main);
    assert!(!out.contains("import"));
    assert!(!out.contains("print"));
}

#[test]
fn an_alias_renames_the_definition() {
    let out = text("import lib::print as p;\nfn main() void { }\n", &[("lib", LIB)]);
    assert!(out.contains("fn p(x: int) void {"));
    assert!(out.contains("    p(x);"));
    assert!(!out.contains("print"));
}

#[test]
fn a_glob_import_pastes_every_definition() {
    let out = text("import lib::*;\nfn main() void { }\n", &[("lib", LIB)]);
    for part in ["struct int", "fn print", "fn other", "fn main"] {
        assert!(out.contains(part), "{}", part);
    }
    assert!(out.find("struct int") < out.find("fn print"));
    assert!(out.find("fn other") < out.find("fn main"));
}

#[test]
fn a_module_import_is_recorded() {
    let out = run("import lib;\nfn main() void { }\n", &[("lib", LIB)]).ok().unwrap();
    assert_eq!(out.source, "import lib;\nfn main() void { }\n");
    assert_eq!(out.modules, vec![("lib".to_string(), LIB.to_string())]);
}

#[test]
fn a_module_brings_its_own_modules() {
    let out = run("import a;\n", &[("a", "import b;\nfn f() void { }\n"), ("b", "fn g() void { }\n")])
        .ok()
        .unwrap();
    let mut names: Vec<String> = out.modules.into_iter().map(|m| m.0).collect();
    names.sort();
    assert_eq!(names, ["a", "b"]);
}

#[test]
fn a_module_is_asked_for_once() {
    let mut pp = Preprocessor::new();
    let src = "import a;\nimport a::f;\nimport a;\n";
    assert!(matches!(pp.run(src, "m.jo"), Outcome::Need(m) if m == "a"));
    pp.provide("a", Some("fn f() void { }\n".to_string()));
    assert!(matches!(pp.run(src, "m.jo"), Outcome::Done(_)));
}

#[test]
fn constants_are_replaced() {
    assert_eq!(text("#define N: 10 #\nlet x = N + NN;\n", &[]).trim(), "let x = 10 + NN;");
}

#[test]
fn macros_are_replaced() {
    let out = text("#define TWICE\n  f();\n  f();\n#\nfn main() void { TWICE }\n", &[]);
    assert_eq!(out.matches("f();").count(), 2);
    assert!(!out.contains("TWICE"));
    assert!(!out.contains('#'));
}

#[test]
fn malformed_imports() {
    assert_eq!(codes("import lib::f\n", &[("lib", LIB)]), ["E001"]);
    assert_eq!(codes("import 9x;\n", &[]), ["E001"]);
    assert_eq!(codes("import lib::other extra;\n", &[("lib", LIB)]), ["E001"]);
}

#[test]
fn missing_items_and_modules() {
    assert_eq!(codes("import lib::nothing;\n", &[("lib", LIB)]), ["E002"]);
    assert_eq!(codes("import nowhere;\nimport nowhere::f;\n", &[]), ["E003", "E003"]);
    assert_eq!(codes("import nowhere::*;\n", &[]), ["E003"]);
}

#[test]
fn malformed_defines() {
    assert_eq!(codes("#define : 1#\n", &[]), ["E004"]);
    assert_eq!(codes("#define 9A: 1#\n", &[]), ["E004"]);
    assert_eq!(codes("#define N: 1\nfn main() void { }\n", &[]), ["E005"]);
}

#[test]
fn a_module_is_recorded_once() {
    let files = [("a", "import c;\n"), ("b", "import c;\n"), ("c", "fn f() void { }\n")];
    let out = run("import a;\nimport b;\nimport c;\nimport a;\n", &files).ok().unwrap();
    let names: Vec<String> = out.modules.into_iter().map(|m| m.0).collect();
    assert_eq!(names, ["a", "c", "b"]);
}

#[test]
fn import_cycles_are_reported() {
    assert_eq!(codes("import a;\n", &[("a", "import b;\n"), ("b", "import a;\n")]), ["E006"]);
}

#[test]
fn whole_words_are_replaced() {
    let r = |s: &str, n: &str, v: &str| {
        string(replace_whole_word(&chars(s), &chars(n), &chars(v)))
    };
    assert_eq!(r("a ab a_ (a)a", "a", "xy"), "xy ab a_ (xy)xy");
    assert_eq!(r("f(f)", "f", "f"), "f(f)");
    assert_eq!(r("nothing here", "none", "x"), "nothing here");
}

#[test]
fn replacing_again_changes_nothing() {
    let r = |s: &str| string(replace_whole_word(&chars(s), &chars("a"), &chars("b ab")));
    let once = r("a(a) aa");
    assert_eq!(once, "b ab(b ab) aa");
    assert_eq!(r(&once), once);
}

#[test]
fn methods_of_an_extend_are_not_indexed() {
    let defs = index_top_level_defs(&chars("extend P { fn m() void { } }\nfn g() void { }"));
    assert_eq!(defs.len(), 1);
    assert_eq!(string(defs[0].0.clone()), "g");
    assert_eq!(string(defs[0].1.clone()), "fn g() void { }");
    let defs = index_top_level_defs(&chars("extend m :: P { fn m() void { } } fn g() void { }"));
    assert_eq!(defs.len(), 1);
    // The word alone starts no block.
    let defs = index_top_level_defs(&chars("#define X: extend#\nfn g() void { }"));
    assert_eq!(string(defs[0].0.clone()), "g");
}

#[test]
fn definitions_of_a_text() {
    let defs = index_top_level_defs(&chars(LIB));
    let names: Vec<String> = defs.iter().map(|d| d.0.iter().collect()).collect();
    assert_eq!(names, ["int", "print", "other"]);
    let first: String = defs[0].1.iter().collect();
    assert_eq!(first, "struct int { inner_value: i64, }");
}

#[test]
fn definitions_are_renamed() {
    let out = rename_definition(&chars("struct A { a: A, }"), &chars("A"), &chars("B"));
    assert_eq!(string(out), "struct B { a: B, }");
    let r = |s: &str| string(rename_definition(&chars(s), &chars("a"), &chars("b")));
    // The names of methods are left untouched, where they are declared and called.
    assert_eq!(r("struct a { fn a() void { } }"), "struct b { fn a() void { } }");
    assert_eq!(
        r("struct a { fn a(&self) a { self.a(); a::a(); return a { }; } }"),
        "struct b { fn a(&self) b { self.a(); b::a(); return b { }; } }"
    );
    // A function that calls itself calls the new name.
    assert_eq!(r("fn a(x: i64) void { a(x); ab(); x.a(); }"), "fn b(x: i64) void { b(x); ab(); x.a(); }");
    assert_eq!(r("fn c() void { a(); }"), "fn c() void { a(); }");
    // Fields, parameters and variables of that name stay.
    assert_eq!(r("struct a { a: i64, }"), "struct b { a: i64, }");
    assert_eq!(
        r("struct a { a: &mut a, fn f(a: a) & a { let x = a { a = a.a }; return &x; } }"),
        "struct b { a: &mut b, fn f(a: b) & b { let x = b { a = a.a }; return &x; } }"
    );
    assert_eq!(
        r("struct a { fn f(a: i64) a { if a { g(a { }); } while a == a { } return a -> a; } }"),
        "struct b { fn f(a: i64) b { if a { g(b { }); } while a == a { } return a -> b; } }"
    );
    // So do a module of that name, texts, comments and assembly.
    assert_eq!(
        r("struct a { p: a::P, fn f() void { a::P { }; \"a { }\"; // : a\n !asm { x: a } } }"),
        "struct b { p: a::P, fn f() void { a::P { }; \"a { }\"; // : a\n !asm { x: a } } }"
    );
    assert_eq!(r("fn a(a: i64) i64 { return a + a(a); }"), "fn b(a: i64) i64 { return a + b(a); }");
}

#[test]
fn identifiers() {
    assert!(is_ident(&chars("a_1")));
    assert!(is_ident(&chars("_")));
    assert!(!is_ident(&chars("1a")));
    assert!(!is_ident(&chars("")));
    assert!(!is_ident(&chars("a b")));
}

#[test]
fn a_define_holds_for_the_text_after_it() {
    let src = "fn f() i64 { return N; }\n#define N: 5#\nfn g() i64 { return N; }\n";
    let out = apply_defines(&chars(src), "m.jo").ok().unwrap();
    assert_eq!(string(out), "fn f() i64 { return N; }\n\nfn g() i64 { return 5; }\n");
    let src = "A B #define A: B# A B #define B: 2# A B";
    let out = apply_defines(&chars(src), "m.jo").ok().unwrap();
    assert_eq!(string(out), "A B  B B  2 2");
}

#[test]
fn defines_are_taken_out() {
    let out = apply_defines(&chars("#define A: 1#\nA"), "m.jo").ok().unwrap();
    assert_eq!(string(out).trim(), "1");
    let ds = apply_defines(&chars("x\n#define A: 1"), "m.jo").err().unwrap();
    assert_eq!((ds[0].code.as_str(), ds[0].line, ds[0].file.as_str()), ("E005", 2, "m.jo"));
}
