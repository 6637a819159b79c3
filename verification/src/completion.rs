//! Completion: what the language server offers at a place in a document.
//!
//! - After `x.` the fields and methods of x's type
//! - After `Type::` the static methods of that type
//! - Where a type is expected, the type names
//! - Everywhere else keywords, type names and the variables in scope

use vstd::prelude::*;

use crate::symbols;
use crate::symbols::{MethodKind, StructInfoM, Symbols, SymbolsM};
use crate::text;

verus! {

/// One offer. The kind is the protocol's number for it.
pub struct CompletionItem {
    pub label: String,
    pub kind: u8,
    pub detail: String,
    pub insert_text: Option<String>,
}

pub struct CompletionItemM {
    pub label: Seq<char>,
    pub kind: u8,
    pub detail: Seq<char>,
    pub insert_text: Option<Seq<char>>,
}

impl View for CompletionItem {
    type V = CompletionItemM;

    open spec fn view(&self) -> CompletionItemM {
        CompletionItemM {
            label: self.label@,
            kind: self.kind,
            detail: self.detail@,
            insert_text: match self.insert_text {
                Some(t) => Some(t@),
                None => None,
            },
        }
    }
}

pub open spec fn items_view(s: Seq<CompletionItem>) -> Seq<CompletionItemM> {
    Seq::new(s.len(), |i: int| s[i]@)
}

pub const KIND_METHOD: u8 = 2;

pub const KIND_FIELD: u8 = 5;

pub const KIND_VARIABLE: u8 = 6;

pub const KIND_CLASS: u8 = 7;

pub const KIND_KEYWORD: u8 = 14;

pub const KIND_TYPE: u8 = 22;

/// An offer that inserts its label.
pub open spec fn plain_item(label: Seq<char>, kind: u8, detail: Seq<char>) -> CompletionItemM {
    CompletionItemM { label, kind, detail, insert_text: None }
}

fn make_item(label: &str, kind: u8, detail: &str) -> (r: CompletionItem)
    ensures
        r@ == plain_item(label@, kind, detail@),
{
    CompletionItem { label: label.to_owned(), kind, detail: detail.to_owned(), insert_text: None }
}

pub open spec fn field_item(name: Seq<char>, ty: Seq<char>) -> CompletionItemM {
    CompletionItemM { label: name, kind: KIND_FIELD, detail: ty, insert_text: Some(name) }
}

pub open spec fn method_item(name: Seq<char>, ret: Seq<char>) -> CompletionItemM {
    CompletionItemM {
        label: name,
        kind: KIND_METHOD,
        detail: "fn "@ + name + "() "@ + ret,
        insert_text: Some(name + "("@),
    }
}

fn make_method_item(name: &str, ret: &str) -> (r: CompletionItem)
    ensures
        r@ == method_item(name@, ret@),
{
    CompletionItem {
        label: name.to_owned(),
        kind: KIND_METHOD,
        detail: text::cat4("fn ", name, "() ", ret),
        insert_text: Some(text::cat2(name, "(")),
    }
}

pub open spec fn field_items(fields: Seq<(Seq<char>, Seq<char>)>) -> Seq<CompletionItemM> {
    Seq::new(fields.len(), |i: int| field_item(fields[i].0, fields[i].1))
}

/// The methods of that kind among the first `n`.
pub open spec fn method_items(
    methods: Seq<(Seq<char>, MethodKind, Seq<char>)>,
    kind: MethodKind,
    n: int,
) -> Seq<CompletionItemM>
    decreases n,
{
    if n <= 0 || n > methods.len() {
        Seq::empty()
    } else {
        let (name, k, ret) = methods[n - 1];
        let before = method_items(methods, kind, n - 1);
        if k == kind {
            before.push(method_item(name, ret))
        } else {
            before
        }
    }
}

fn push_methods(
    items: &mut Vec<CompletionItem>,
    methods: &Vec<(String, MethodKind, String)>,
    kind: MethodKind,
)
    ensures
        items_view(final(items)@) == items_view(old(items)@) + method_items(
            symbols::methods_view(methods@),
            kind,
            methods@.len() as int,
        ),
{
    let ghost start = items_view(items@);
    let ghost ms = symbols::methods_view(methods@);
    let mut i: usize = 0;
    assert(start + method_items(ms, kind, 0) =~= start);
    while i < methods.len()
        invariant
            i <= methods@.len(),
            ms == symbols::methods_view(methods@),
            items_view(items@) == start + method_items(ms, kind, i as int),
        decreases methods@.len() - i,
    {
        let (name, k, ret) = &methods[i];
        if *k == kind {
            let item = make_method_item(name.as_str(), ret.as_str());
            let ghost before = items@;
            let ghost next = item@;
            items.push(item);
            assert(items_view(items@) =~= items_view(before).push(next));
            assert(items_view(items@) =~= start + method_items(ms, kind, i + 1));
        }
        i = i + 1;
    }
}

/// The fields and the instance methods of a type.
pub open spec fn members(structs: Seq<(Seq<char>, StructInfoM)>, ty: Seq<char>) -> Seq<
    CompletionItemM,
> {
    match symbols::struct_index(structs, ty, 0) {
        Some(k) => {
            let info = structs[k].1;
            field_items(info.fields) + method_items(
                info.methods,
                MethodKind::Instance,
                info.methods.len() as int,
            )
        },
        None => Seq::empty(),
    }
}

/// The static methods of a type.
pub open spec fn statics(structs: Seq<(Seq<char>, StructInfoM)>, ty: Seq<char>) -> Seq<
    CompletionItemM,
> {
    match symbols::struct_index(structs, ty, 0) {
        Some(k) => {
            let info = structs[k].1;
            method_items(info.methods, MethodKind::Static, info.methods.len() as int)
        },
        None => Seq::empty(),
    }
}

pub open spec fn builtin_item(name: Seq<char>) -> CompletionItemM {
    plain_item(name, KIND_TYPE, "type"@)
}

pub open spec fn builtin_items() -> Seq<CompletionItemM> {
    seq![
        builtin_item("int"@),
        builtin_item("float"@),
        builtin_item("char"@),
        builtin_item("bool"@),
        builtin_item("string"@),
        builtin_item("i64"@),
        builtin_item("f64"@),
        builtin_item("void"@),
    ]
}

/// The library types that are offered as built in.
pub open spec fn is_library_type(name: Seq<char>) -> bool {
    name == "int"@ || name == "float"@ || name == "char"@ || name == "bool"@ || name == "string"@
}

/// The offers for the first `n` structs.
pub open spec fn struct_items(structs: Seq<(Seq<char>, StructInfoM)>, n: int) -> Seq<
    CompletionItemM,
>
    decreases n,
{
    if n <= 0 || n > structs.len() {
        Seq::empty()
    } else {
        let name = structs[n - 1].0;
        let before = struct_items(structs, n - 1);
        if is_library_type(name) {
            before
        } else {
            before.push(plain_item(name, KIND_CLASS, "struct"@))
        }
    }
}

/// The type names: the built-in ones, then the structs.
pub open spec fn type_items(structs: Seq<(Seq<char>, StructInfoM)>) -> Seq<CompletionItemM> {
    builtin_items() + struct_items(structs, structs.len() as int)
}

pub open spec fn keyword_item(word: Seq<char>, detail: Seq<char>) -> CompletionItemM {
    plain_item(word, KIND_KEYWORD, detail)
}

pub open spec fn keyword_items() -> Seq<CompletionItemM> {
    seq![
        keyword_item("fn"@, "keyword"@),
        keyword_item("struct"@, "keyword"@),
        keyword_item("let"@, "keyword"@),
        keyword_item("return"@, "keyword"@),
        keyword_item("if"@, "keyword"@),
        keyword_item("else"@, "keyword"@),
        keyword_item("while"@, "keyword"@),
        keyword_item("break"@, "keyword"@),
        keyword_item("continue"@, "keyword"@),
        keyword_item("import"@, "keyword"@),
        keyword_item("extend"@, "keyword"@),
        keyword_item("true"@, "bool literal"@),
        keyword_item("false"@, "bool literal"@),
        keyword_item("self"@, "builtin"@),
        keyword_item("null"@, "builtin"@),
    ]
}

pub fn keyword_completions() -> (r: Vec<CompletionItem>)
    ensures
        items_view(r@) == keyword_items(),
{
    let k = KIND_KEYWORD;
    let r = vec![
        make_item("fn", k, "keyword"),
        make_item("struct", k, "keyword"),
        make_item("let", k, "keyword"),
        make_item("return", k, "keyword"),
        make_item("if", k, "keyword"),
        make_item("else", k, "keyword"),
        make_item("while", k, "keyword"),
        make_item("break", k, "keyword"),
        make_item("continue", k, "keyword"),
        make_item("import", k, "keyword"),
        make_item("extend", k, "keyword"),
        make_item("true", k, "bool literal"),
        make_item("false", k, "bool literal"),
        make_item("self", k, "builtin"),
        make_item("null", k, "builtin"),
    ];
    assert(items_view(r@) =~= keyword_items());
    r
}

pub open spec fn var_items(vars: Seq<(Seq<char>, Seq<char>)>) -> Seq<CompletionItemM> {
    Seq::new(vars.len(), |i: int| plain_item(vars[i].0, KIND_VARIABLE, vars[i].1))
}

pub fn var_completions(vars: &Vec<(String, String)>) -> (r: Vec<CompletionItem>)
    ensures
        items_view(r@) == var_items(symbols::fields_view(vars@)),
{
    let mut items: Vec<CompletionItem> = Vec::new();
    let ghost vs = symbols::fields_view(vars@);
    let mut i: usize = 0;
    assert(items_view(items@) =~= var_items(vs).take(0));
    while i < vars.len()
        invariant
            i <= vars@.len(),
            vs == symbols::fields_view(vars@),
            items_view(items@) == var_items(vs).take(i as int),
        decreases vars@.len() - i,
    {
        let (name, ty) = &vars[i];
        let item = make_item(name.as_str(), KIND_VARIABLE, ty.as_str());
        let ghost before = items@;
        let ghost next = item@;
        items.push(item);
        assert(items_view(items@) =~= items_view(before).push(next));
        assert(items_view(items@) =~= var_items(vs).take(i + 1));
        i = i + 1;
    }
    assert(items_view(items@) =~= var_items(vs));
    items
}

fn push_items(items: &mut Vec<CompletionItem>, more: Vec<CompletionItem>)
    ensures
        items_view(final(items)@) == items_view(old(items)@) + items_view(more@),
{
    let ghost added = items_view(more@);
    let mut more = more;
    items.append(&mut more);
    assert(items_view(items@) =~= items_view(old(items)@) + added);
}

impl Symbols {
    pub fn members_of(&self, ty: &str) -> (r: Vec<CompletionItem>)
        ensures
            items_view(r@) == members(self@.structs, ty@),
    {
        let mut items: Vec<CompletionItem> = Vec::new();
        assert(items_view(items@) =~= Seq::empty());
        match self.info(ty) {
            None => items,
            Some(info) => {
                let ghost fs = symbols::fields_view(info.fields@);
                let mut i: usize = 0;
                assert(items_view(items@) =~= field_items(fs).take(0));
                while i < info.fields.len()
                    invariant
                        i <= info.fields@.len(),
                        fs == symbols::fields_view(info.fields@),
                        items_view(items@) == field_items(fs).take(i as int),
                    decreases info.fields@.len() - i,
                {
                    let (name, fty) = &info.fields[i];
                    let item = CompletionItem {
                        label: name.clone(),
                        kind: KIND_FIELD,
                        detail: fty.clone(),
                        insert_text: Some(name.clone()),
                    };
                    let ghost before = items@;
                    let ghost next = item@;
                    items.push(item);
                    assert(items_view(items@) =~= items_view(before).push(next));
                    assert(items_view(items@) =~= field_items(fs).take(i + 1));
                    i = i + 1;
                }
                assert(items_view(items@) =~= field_items(fs));
                push_methods(&mut items, &info.methods, MethodKind::Instance);
                items
            },
        }
    }

    pub fn statics_of(&self, ty: &str) -> (r: Vec<CompletionItem>)
        ensures
            items_view(r@) == statics(self@.structs, ty@),
    {
        let mut items: Vec<CompletionItem> = Vec::new();
        assert(items_view(items@) =~= Seq::empty());
        match self.info(ty) {
            None => items,
            Some(info) => {
                push_methods(&mut items, &info.methods, MethodKind::Static);
                assert(items_view(items@) =~= statics(self@.structs, ty@));
                items
            },
        }
    }

    pub fn type_completions(&self) -> (r: Vec<CompletionItem>)
        ensures
            items_view(r@) == type_items(self@.structs),
    {
        let k = KIND_TYPE;
        let mut items = vec![
            make_item("int", k, "type"),
            make_item("float", k, "type"),
            make_item("char", k, "type"),
            make_item("bool", k, "type"),
            make_item("string", k, "type"),
            make_item("i64", k, "type"),
            make_item("f64", k, "type"),
            make_item("void", k, "type"),
        ];
        let ghost ss = self@.structs;
        let mut i: usize = 0;
        assert(items_view(items@) =~= builtin_items() + struct_items(ss, 0));
        while i < self.structs.len()
            invariant
                i <= self.structs@.len(),
                ss == self@.structs,
                items_view(items@) == builtin_items() + struct_items(ss, i as int),
            decreases self.structs@.len() - i,
        {
            let name = self.structs[i].0.as_str();
            // skip the library types already listed
            if !(text::text_eq(name, "int") || text::text_eq(name, "float") || text::text_eq(
                name,
                "char",
            ) || text::text_eq(name, "bool") || text::text_eq(name, "string")) {
                let item = make_item(name, KIND_CLASS, "struct");
                let ghost before = items@;
                let ghost next = item@;
                items.push(item);
                assert(items_view(items@) =~= items_view(before).push(next));
                assert(items_view(items@) =~= builtin_items() + struct_items(ss, i + 1));
            }
            i = i + 1;
        }
        items
    }
}

// ---------------------------------------------------------------------------
// Documents
// ---------------------------------------------------------------------------

/// The length of the longest start of `s` from `i` on that fits in `room` bytes.
pub open spec fn fitting(s: Seq<char>, i: int, room: nat) -> int
    decreases s.len() - i,
{
    if 0 <= i < s.len() && text::width(s[i]) <= room {
        fitting(s, i + 1, (room - text::width(s[i])) as nat)
    } else {
        i
    }
}

/// The start of a line up to a column, which counts bytes. A character that does
/// not fit before the column is left out.
pub open spec fn prefix_at(line: Seq<char>, col: nat) -> Seq<char> {
    line.take(fitting(line, 0, col))
}

fn prefix_of(line: &Vec<char>, col: usize) -> (r: Vec<char>)
    ensures
        r@ == prefix_at(line@, col as nat),
{
    let mut i: usize = 0;
    let mut room: usize = col;
    while i < line.len() && text::char_width(line[i]) <= room
        invariant
            i <= line@.len(),
            fitting(line@, 0, col as nat) == fitting(line@, i as int, room as nat),
        decreases line@.len() - i,
    {
        room = room - text::char_width(line[i]);
        i = i + 1;
    }
    let r = text::slice_chars(line, 0, i);
    assert(r@ =~= line@.take(i as int));
    r
}

/// A line of a text; beyond its end, an empty one.
pub open spec fn line_at(s: Seq<char>, line: nat) -> Seq<char> {
    if line < text::lines(s).len() {
        text::lines(s)[line as int]
    } else {
        Seq::empty()
    }
}

fn line_of(s: &str, line: usize) -> (r: Vec<char>)
    ensures
        r@ == line_at(s@, line as nat),
{
    let lines = text::split_lines(&text::to_chars(s));
    assert(text::texts(lines@).len() == lines@.len());
    if line < lines.len() {
        text::slice_all(&lines[line])
    } else {
        let none: Vec<char> = Vec::new();
        assert(none@ =~= Seq::empty());
        none
    }
}

/// What is offered at a line and column of a text with these symbols.
pub open spec fn offers(s: Seq<char>, symbols: SymbolsM, line: nat, col: nat) -> Seq<
    CompletionItemM,
> {
    let prefix = prefix_at(line_at(s, line), col);
    let vars = symbols::visible(symbols.vars, line, symbols.vars.len() as int);
    if symbols::dot_word(prefix) is Some {
        match symbols::pair_index(vars, symbols::dot_word(prefix)->0, 0) {
            Some(k) => members(symbols.structs, vars[k].1),
            None => Seq::empty(),
        }
    } else if symbols::colon_word(prefix) is Some {
        statics(symbols.structs, symbols::colon_word(prefix)->0)
    } else if symbols::type_expected(prefix) {
        type_items(symbols.structs)
    } else {
        keyword_items() + type_items(symbols.structs) + var_items(vars)
    }
}

/// An open document.
pub struct DocState {
    pub text: String,
    pub path: String,
    pub symbols: Symbols,
}

pub struct DocM {
    pub text: Seq<char>,
    pub path: Seq<char>,
    pub symbols: SymbolsM,
}

impl View for DocState {
    type V = DocM;

    open spec fn view(&self) -> DocM {
        DocM { text: self.text@, path: self.path@, symbols: self.symbols@ }
    }
}

/// The document of a text, with the symbols of that text.
pub open spec fn doc_of(text: Seq<char>, path: Seq<char>) -> DocM {
    DocM { text, path, symbols: symbols::symbols_of(text) }
}

impl DocState {
    pub fn new(text: String, path: String) -> (r: DocState)
        ensures
            r@ == doc_of(text@, path@),
    {
        let symbols = Symbols::extract(text.as_str());
        DocState { text, path, symbols }
    }

    pub fn update(&mut self, text: String)
        ensures
            final(self)@ == doc_of(text@, old(self)@.path),
    {
        self.symbols = Symbols::extract(text.as_str());
        self.text = text;
    }

    pub fn completions(&self, line: usize, col: usize) -> (r: Vec<CompletionItem>)
        ensures
            items_view(r@) == offers(self@.text, self@.symbols, line as nat, col as nat),
    {
        // The text of the current line up to the cursor
        let prefix = prefix_of(&line_of(self.text.as_str(), line), col);
        let vars = self.symbols.vars_at(line);
        // `something.`: fields and methods
        if let Some(recv) = symbols::dot_receiver(&prefix) {
            let name = text::all_text(&recv);
            let ty = match symbols::find_pair(&vars, name.as_str()) {
                Some(k) => Some(vars[k].1.as_str()),
                None => if text::text_eq(name.as_str(), "self") {
                    self.symbols.enclosing_struct(line)
                } else {
                    None
                },
            };
            return match ty {
                Some(ty) => self.symbols.members_of(ty),
                // Unknown receiver: nothing, rather than wrong completions
                None => {
                    let none: Vec<CompletionItem> = Vec::new();
                    assert(items_view(none@) =~= Seq::empty());
                    none
                },
            };
        }
        // `Something::`: static methods
        if let Some(ty) = symbols::colon_colon_receiver(&prefix) {
            return self.symbols.statics_of(text::all_text(&ty).as_str());
        }
        // `let x: `: type names
        if symbols::is_type_position(&prefix) {
            return self.symbols.type_completions();
        }
        // Elsewhere: keywords, types and visible variables
        let mut items = keyword_completions();
        push_items(&mut items, self.symbols.type_completions());
        push_items(&mut items, var_completions(&vars));
        items
    }
}

} // verus!
