use jo_compiler::completion::{keyword_completions, CompletionItem, DocState};
use jo_compiler::protocol::{decode, frame, header_step, uri_to_path, Action, Message, Reply, Server};
use jo_compiler::symbols::{MethodKind, Symbols};

const TEXT: &str = "// struct Not { }\nstruct Point {\n    x: i64,\n    y: m::T,\n    \
    fn new(a: i64) Point { return Point { x = a }; }\n    \
    fn len(&self) int { if true { } return 1; }\n}\nextend m::Point {\n    fn far(&self) bool { }\n}\n\
    struct int { inner_value: i64, }\nfn main() void {\n    let p = Point { x = 1 };\n    \
    let q: int = 3;\n    let r = m::Other { };\n    let s = Point::new(1);\n    let t = f(1);\n    \
    p.\n    Point::\n    let z: \n    re\n    let p: int = 1;\n    nobody.\n}\n";

fn labels(items: &[CompletionItem]) -> Vec<String> {
    items.iter().map(|i| i.label.clone()).collect()
}

fn doc() -> DocState {
    DocState::new(TEXT.to_string(), "/a.jo".to_string())
}

/// What is offered at the end of the first line that holds the text.
fn offered(at: &str) -> Vec<CompletionItem> {
    let line = TEXT.lines().position(|l| l.trim() == at).unwrap();
    doc().completions(line, 1000)
}

#[test]
fn structs_of_a_document() {
    let s = Symbols::extract(TEXT);
    let names: Vec<String> = s.structs.iter().map(|x| x.0.clone()).collect();
    assert_eq!(names, ["Point", "int"]);
    let point = s.info("Point").unwrap();
    assert_eq!(point.fields[0], ("x".to_string(), "i64".to_string()));
    assert_eq!(point.fields[1], ("y".to_string(), "m::T".to_string()));
    assert_eq!(point.fields.len(), 2);
    let methods: Vec<(&str, MethodKind, &str)> =
        point.methods.iter().map(|m| (m.0.as_str(), m.1, m.2.as_str())).collect();
    assert_eq!(
        methods,
        [
            ("new", MethodKind::Static, "Point"),
            ("len", MethodKind::Instance, "int"),
            ("far", MethodKind::Instance, "bool"),
        ]
    );
    assert!(s.info("Not").is_none());
    assert!(s.enclosing_struct(3).is_none());
}

#[test]
fn variables_of_a_document() {
    let s = Symbols::extract(TEXT);
    let at = |line: usize| s.vars_at(line);
    assert!(at(0).is_empty());
    let last = at(1000);
    let ty = |n: &str| last.iter().find(|v| v.0 == n).map(|v| v.1.clone());
    // The last declaration counts.
    assert_eq!(ty("p").as_deref(), Some("int"));
    assert_eq!(ty("q").as_deref(), Some("int"));
    assert_eq!(ty("r").as_deref(), Some("Other"));
    assert_eq!(ty("s").as_deref(), Some("Point"));
    assert_eq!(ty("t"), None);
    let line = TEXT.lines().position(|l| l.contains("let p = ")).unwrap();
    assert_eq!(at(line), [("p".to_string(), "Point".to_string())]);
}

#[test]
fn a_dot_offers_members() {
    let items = offered("p.");
    assert_eq!(labels(&items), ["x", "y", "len", "far"]);
    assert_eq!((items[0].kind, items[0].detail.as_str()), (5, "i64"));
    assert_eq!(items[0].insert_text.as_deref(), Some("x"));
    assert_eq!((items[2].kind, items[2].detail.as_str()), (2, "fn len() int"));
    assert_eq!(items[2].insert_text.as_deref(), Some("len("));
    assert!(offered("nobody.").is_empty());
}

#[test]
fn two_colons_offer_static_methods() {
    assert_eq!(labels(&offered("Point::")), ["new"]);
}

#[test]
fn a_type_position_offers_types() {
    let items = offered("let z:");
    assert_eq!(
        labels(&items),
        ["int", "float", "char", "bool", "string", "i64", "f64", "void", "Point"]
    );
    assert_eq!((items[0].kind, items[0].detail.as_str()), (22, "type"));
    assert_eq!((items[8].kind, items[8].detail.as_str()), (7, "struct"));
    assert!(items[8].insert_text.is_none());
}

#[test]
fn elsewhere_everything_is_offered() {
    let items = offered("re");
    let labels = labels(&items);
    assert_eq!(labels[0], "fn");
    for l in ["null", "Point", "void", "p", "q", "r", "s"] {
        assert!(labels.contains(&l.to_string()), "{}", l);
    }
    let p = items.iter().find(|i| i.label == "p").unwrap();
    assert_eq!((p.kind, p.detail.as_str()), (6, "Point"));
    let words = keyword_completions();
    assert_eq!(words.len(), 15);
    assert_eq!((words[11].label.as_str(), words[11].detail.as_str()), ("true", "bool literal"));
    assert_eq!(words[0].kind, 14);
}

#[test]
fn columns_count_bytes() {
    let d = DocState::new("struct P { x: i64, }\nlet é = P { };\né.\n".to_string(), String::new());
    // The letter takes two bytes.
    assert_eq!(labels(&d.completions(2, 3)), ["x"]);
    // A column before the dot, and one inside the letter
    assert_eq!(d.completions(2, 2)[0].label, "fn");
    assert_eq!(d.completions(2, 1)[0].label, "fn");
    // Past the end of the text
    assert_eq!(d.completions(99, 0)[0].label, "fn");
}

#[test]
fn updating_replaces_the_symbols() {
    let mut d = doc();
    d.update("struct New { a: i64, }".to_string());
    assert_eq!(d.symbols.structs.len(), 1);
    assert_eq!(d.path, "/a.jo");
    assert!(d.symbols.members_of("Point").is_empty());
    assert_eq!(labels(&d.symbols.members_of("New")), ["a"]);
}

#[test]
fn unfinished_text_is_scanned() {
    for text in ["struct", "struct A", "struct A {", "struct A { x:", "struct A { fn f(", "struct A { \"x", "extend m::", "\"\\"] {
        Symbols::extract(text);
    }
    let s = Symbols::extract("struct A { fn f(&self, x: i64");
    assert_eq!(s.info("A").unwrap().methods[0].0, "f");
    assert_eq!(s.info("A").unwrap().methods[0].1, MethodKind::Instance);
}

#[test]
fn headers_are_read() {
    assert_eq!(header_step(0, "Content-Length: 42\r\n"), (42, false));
    assert_eq!(header_step(7, "Content-Type: x\r\n"), (7, false));
    assert_eq!(header_step(7, "\r\n"), (7, true));
    assert_eq!(header_step(7, "Content-Length: abc\r\n"), (0, false));
    assert_eq!(header_step(7, "Content-Length:99999999999999999999999"), (0, false));
}

#[test]
fn what_is_framed_is_received() {
    for body in ["{}", "", "{\"a\":\"héllo €\"}"] {
        let framed = frame(body);
        let mut rest = framed.as_str();
        let mut length = 0;
        loop {
            let end = rest.find('\n').unwrap() + 1;
            let (n, done) = header_step(length, &rest[..end]);
            length = n;
            rest = &rest[end..];
            if done {
                break;
            }
        }
        assert_eq!(length, body.len());
        assert_eq!(rest, body);
    }
    assert_eq!(frame("é"), "Content-Length: 2\r\n\r\né");
}

#[test]
fn paths_of_uris() {
    assert_eq!(uri_to_path("file:///home/a.jo"), "/home/a.jo");
    assert_eq!(uri_to_path("/home/a.jo"), "/home/a.jo");
    assert_eq!(uri_to_path("file:///home/my%20dir/a%20b.jo"), "/home/my dir/a b.jo");
    assert_eq!(uri_to_path("/a%20b%2"), "/a b%2");
}

fn message(json: &str) -> Message {
    decode(&json.as_bytes().to_vec())
}

#[test]
fn messages_are_decoded() {
    let m = message(
        "{\"jsonrpc\":\"2.0\", \"id\" : {\"b\":1, \"a\":[ \"x\" ]},\"method\":\"textDocument/completion\",\
         \"params\":{\"textDocument\":{\"uri\":\"file:///a\",\"text\":\"t\\u00e9\"},\
         \"position\":{\"line\":3,\"character\":14}}}",
    );
    assert_eq!(m.method, "textDocument/completion");
    assert_eq!(m.id.as_deref(), Some("{\"a\":[\"x\"],\"b\":1}"));
    assert_eq!(m.uri, "file:///a");
    assert_eq!(m.text, "té");
    assert_eq!((m.line, m.character), (3, 14));
    assert_eq!(m.change, None);
}

#[test]
fn the_last_change_is_decoded() {
    let change = |list: &str| message(&format!("{{\"params\":{{\"contentChanges\":{}}}}}", list)).change;
    assert_eq!(change("[{\"text\":\"a\"},{\"text\":\"b\"}]").as_deref(), Some("b"));
    assert_eq!(change("[{\"other\":1}]").as_deref(), Some(""));
    assert_eq!(change("[]"), None);
    assert_eq!(change("7"), None);
    let many: Vec<String> = (0..12).map(|i| format!("{{\"text\":\"{}\"}}", i)).collect();
    assert_eq!(change(&format!("[{}]", many.join(","))).as_deref(), Some("11"));
}

#[test]
fn wrong_documents_decode_to_nothing() {
    for json in ["", "{", "[1,2]", "3", "{\"method\":5,\"params\":[]}"] {
        let m = message(json);
        assert_eq!(m.method, "");
        assert_eq!(m.id, None);
        assert_eq!(m.uri, "");
        assert_eq!((m.line, m.character), (0, 0));
    }
    assert_eq!(message("{\"params\":{\"position\":{\"line\":-1,\"character\":1.5}}}").line, 0);
    assert_eq!(message("{\"id\":null}").id.as_deref(), Some("null"));
}

fn plain(method: &str, id: Option<&str>) -> Message {
    Message {
        method: method.to_string(),
        id: id.map(|s| s.to_string()),
        uri: "file:///a.jo".to_string(),
        text: TEXT.to_string(),
        change: Some("struct C { c: i64, }\nlet v = C { };\nv.".to_string()),
        line: 2,
        character: 2,
    }
}

fn completions(server: &mut Server) -> Vec<String> {
    match server.handle(plain("textDocument/completion", Some("1"))) {
        Action::Respond { id, reply: Reply::Completions(items) } => {
            assert_eq!(id, "1");
            labels(&items)
        }
        _ => panic!("no completions"),
    }
}

#[test]
fn requests_get_answers() {
    let mut s = Server::new();
    assert!(matches!(s.handle(plain("initialize", Some("7"))),
        Action::Respond { id, reply: Reply::Capabilities } if id == "7"));
    assert!(matches!(s.handle(plain("shutdown", Some("8"))),
        Action::Respond { id, reply: Reply::Null } if id == "8"));
    assert!(matches!(s.handle(plain("unknown", Some("9"))),
        Action::Respond { id, reply: Reply::Null } if id == "9"));
    assert!(matches!(s.handle(plain("unknown", None)), Action::Nothing));
    assert!(matches!(s.handle(plain("initialize", None)), Action::Nothing));
    assert!(matches!(s.handle(plain("initialized", None)), Action::Nothing));
    assert!(matches!(s.handle(plain("exit", None)), Action::Exit));
}

#[test]
fn a_document_lives_from_open_to_close() {
    let mut s = Server::new();
    assert!(completions(&mut s).is_empty());
    assert!(matches!(s.handle(plain("textDocument/didOpen", None)),
        Action::Lint { uri, path } if uri == "file:///a.jo" && path == "/a.jo"));
    assert_eq!(completions(&mut s)[0], "fn");
    assert!(matches!(s.handle(plain("textDocument/didChange", None)), Action::Nothing));
    assert_eq!(completions(&mut s), ["c"]);
    assert_eq!(s.docs.len(), 1);
    assert!(matches!(s.handle(plain("textDocument/didSave", None)), Action::Lint { .. }));
    assert!(matches!(s.handle(plain("textDocument/didClose", None)),
        Action::Clear { uri } if uri == "file:///a.jo"));
    assert!(completions(&mut s).is_empty());
    assert!(s.docs.is_empty());
}

#[test]
fn a_change_opens_an_unknown_document() {
    let mut s = Server::new();
    let mut m = plain("textDocument/didChange", None);
    m.change = None;
    assert!(matches!(s.handle(m), Action::Nothing));
    assert!(s.docs.is_empty());
    assert!(matches!(s.handle(plain("textDocument/didChange", None)), Action::Nothing));
    assert_eq!(s.docs[0].1.path, "/a.jo");
    assert_eq!(completions(&mut s), ["c"]);
}
