//! The compiler driver: what happens between the preprocessor and the code
//! generator.

use vstd::prelude::*;

use crate::ast;
use crate::ast::{ExtendDeclM, FnDecl, FnDeclM, Item, ItemM, Program, ProgramM, Span};
use crate::error;
use crate::error::{DiagM, Diagnostic};
use crate::grammar;
use crate::grammar::InputM;
use crate::lexer;
use crate::lexer::Lexer;
use crate::parser::Parser;
use crate::preprocessor;
use crate::preprocessor::PreprocessOutput;
use crate::soundness;
use crate::syntax_laws;
use crate::text;
use crate::text::Class;
use crate::typechecker;
use crate::typechecker::TypeChecker;
use crate::typing;

verus! {

// ---------------------------------------------------------------------------
// Lexing and parsing
// ---------------------------------------------------------------------------

/// The program that a text is, or the diagnostics of the first stage that has
/// some.
pub open spec fn parsed(src: Seq<char>, file: Seq<char>) -> Result<ProgramM, Seq<DiagM>> {
    let l = lexer::lex(src, file);
    if l.diags.len() > 0 {
        Err(l.diags)
    } else {
        let (items, diags) = grammar::program(InputM { toks: l.tokens, file, src });
        if diags.len() > 0 {
            Err(diags)
        } else {
            Ok(ProgramM { items })
        }
    }
}

pub fn lex_and_parse(src: &str, file: &str) -> (r: Result<Program, Vec<Diagnostic>>)
    requires
        src@.len() < usize::MAX,
    ensures
        match r {
            Ok(p) => parsed(src@, file@) == Ok::<ProgramM, Seq<DiagM>>(p@),
            Err(ds) => {
                &&& ds@.len() > 0
                &&& parsed(src@, file@) == Err::<ProgramM, Seq<DiagM>>(error::diags_view(ds@))
            },
        },
{
    let tokens = match Lexer::new(src, file).tokenize() {
        Ok(t) => t,
        Err(ds) => {
            assert(error::diags_view(ds@).len() == ds@.len());
            return Err(ds);
        },
    };
    proof {
        syntax_laws::lexed_tokens_end(src@, file@);
    }
    match Parser::new(tokens, file, src).parse() {
        Ok(p) => Ok(p),
        Err(ds) => {
            assert(error::diags_view(ds@).len() == ds@.len());
            Err(ds)
        },
    }
}

// ---------------------------------------------------------------------------
// Merging modules
// ---------------------------------------------------------------------------

/// What is merged so far: the items, and the names in use.
pub struct MergeM {
    pub items: Seq<ItemM>,
    pub names: Seq<Seq<char>>,
}

/// What kind of item it is, and where it stands.
pub open spec fn kind_span(item: ItemM) -> (Seq<char>, Span) {
    match item {
        ItemM::Struct(s) => ("struct"@, s.span),
        ItemM::Fn(f) => ("function"@, f.span),
        ItemM::Extend(e) => ("extend"@, e.span),
        ItemM::Import(_) => ("import"@, Span { line: 0, col: 0 }),
    }
}

pub fn item_kind_span(item: &Item) -> (r: (&'static str, Span))
    ensures
        (r.0@, r.1) == kind_span(item@),
{
    match item {
        Item::Struct(s) => ("struct", s.span),
        Item::Fn(f) => ("function", f.span),
        Item::Extend(e) => ("extend", e.span),
        Item::Import(_) => ("import", Span::default()),
    }
}

/// The diagnostic that a name of a module is in use already.
pub open spec fn duplicate_import(
    module: Seq<char>,
    name: Seq<char>,
    span: Span,
    kind: Seq<char>,
) -> DiagM {
    DiagM {
        code: "E4E0"@,
        message: "duplicate "@ + kind + " `"@ + name + "` imported from module `"@ + module
            + "`"@,
        file: module + ".jo"@,
        line: span.line as nat,
        col: span.col as nat,
        source_line: Seq::empty(),
        label: "duplicate imported item"@,
    }
}

pub fn duplicate_import_diag(module: &str, name: &str, span: Span, kind: &str) -> (r: Diagnostic)
    ensures
        r@ == duplicate_import(module@, name@, span, kind@),
{
    let msg = text::cat7(
        "duplicate ",
        kind,
        " `",
        name,
        "` imported from module `",
        module,
        "`",
    );
    let empty = String::new();
    assert(empty@ =~= Seq::empty());
    Diagnostic::new(
        "E4E0",
        msg,
        text::cat2(module, ".jo"),
        span.line,
        span.col,
        empty,
    ).with_label("duplicate imported item")
}

/// The names with those of the first `n` functions.
pub open spec fn with_fn_names(names: Seq<Seq<char>>, fs: Seq<FnDeclM>, n: int) -> Seq<Seq<char>>
    decreases n,
{
    if n <= 0 || n > fs.len() {
        names
    } else {
        with_fn_names(names, fs, n - 1).push(fs[n - 1].name)
    }
}

/// The names that the first `n` items use: their own, and those of the methods
/// that `extend` adds.
pub open spec fn used_names(items: Seq<ItemM>, n: int) -> Seq<Seq<char>>
    decreases n,
{
    if n <= 0 || n > items.len() {
        Seq::empty()
    } else {
        let before = used_names(items, n - 1);
        match items[n - 1] {
            ItemM::Struct(s) => before.push(s.name),
            ItemM::Fn(f) => before.push(f.name),
            ItemM::Extend(e) => with_fn_names(before, e.methods, e.methods.len() as int),
            ItemM::Import(_) => before,
        }
    }
}

/// Adds an item under its name, unless the name is in use: then it is skipped.
pub open spec fn add_item(m: MergeM, item: ItemM, name: Seq<char>) -> MergeM {
    if m.names.contains(name) {
        m
    } else {
        MergeM { items: m.items.push(item), names: m.names.push(name) }
    }
}

/// Adds the first `n` methods of an `extend` as functions.
pub open spec fn add_methods(m: MergeM, fs: Seq<FnDeclM>, n: int) -> MergeM
    decreases n,
{
    if n <= 0 || n > fs.len() {
        m
    } else {
        let f = fs[n - 1];
        add_item(add_methods(m, fs, n - 1), ItemM::Fn(f), f.name)
    }
}

pub open spec fn merge_item(m: MergeM, item: ItemM) -> MergeM {
    match item {
        ItemM::Struct(s) => add_item(m, item, s.name),
        ItemM::Fn(f) => add_item(m, item, f.name),
        ItemM::Extend(e) => add_methods(m, e.methods, e.methods.len() as int),
        ItemM::Import(_) => m,
    }
}

/// Merges the first `n` items of a module.
pub open spec fn merge_items(m: MergeM, items: Seq<ItemM>, n: int) -> MergeM
    decreases n,
{
    if n <= 0 || n > items.len() {
        m
    } else {
        merge_item(merge_items(m, items, n - 1), items[n - 1])
    }
}

/// Merges the first `n` modules.
pub open spec fn merge_all(m: MergeM, modules: Seq<(Seq<char>, ProgramM)>, n: int) -> MergeM
    decreases n,
{
    if n <= 0 || n > modules.len() {
        m
    } else {
        let items = modules[n - 1].1.items;
        merge_items(merge_all(m, modules, n - 1), items, items.len() as int)
    }
}

/// A program with the items of its modules.
pub open spec fn merged(program: ProgramM, modules: Seq<(Seq<char>, ProgramM)>) -> MergeM {
    let items = program.items;
    merge_all(
        MergeM { items, names: used_names(items, items.len() as int) },
        modules,
        modules.len() as int,
    )
}

struct Merge {
    items: Vec<Item>,
    names: Vec<String>,
}

/// The texts of the names.
pub open spec fn names_view(s: Seq<String>) -> Seq<Seq<char>> {
    Seq::new(s.len(), |i: int| s[i]@)
}

impl View for Merge {
    type V = MergeM;

    closed spec fn view(&self) -> MergeM {
        MergeM {
            items: ast::items_view(self.items@),
            names: names_view(self.names@),
        }
    }
}

fn push_name(names: &mut Vec<String>, name: &String)
    ensures
        names_view(final(names)@) == names_view(old(names)@).push(name@),
{
    names.push(name.clone());
    assert(names_view(names@) =~= names_view(old(names)@).push(name@));
}

fn collect_names(items: &Vec<Item>) -> (r: Vec<String>)
    ensures
        names_view(r@) == used_names(ast::items_view(items@), items@.len() as int),
{
    let ghost v = ast::items_view(items@);
    let mut names: Vec<String> = Vec::new();
    assert(names_view(names@) =~= Seq::empty());
    let mut i: usize = 0;
    while i < items.len()
        invariant
            i <= items@.len(),
            v == ast::items_view(items@),
            names_view(names@) == used_names(v, i as int),
        decreases items@.len() - i,
    {
        match &items[i] {
            Item::Struct(s) => push_name(&mut names, &s.name),
            Item::Fn(f) => push_name(&mut names, &f.name),
            Item::Import(_) => {},
            Item::Extend(e) => {
                let ghost before = names_view(names@);
                let ghost fs = ast::fns_view(e.methods@);
                let mut k: usize = 0;
                while k < e.methods.len()
                    invariant
                        k <= e.methods@.len(),
                        fs == ast::fns_view(e.methods@),
                        names_view(names@) == with_fn_names(before, fs, k as int),
                    decreases e.methods@.len() - k,
                {
                    push_name(&mut names, &e.methods[k].name);
                    k = k + 1;
                }
            },
        }
        i = i + 1;
    }
    names
}

impl Merge {
    /// True if the name is new; it is in use from now on.
    fn claim(&mut self, name: &String) -> (r: bool)
        ensures
            r == !old(self)@.names.contains(name@),
            final(self)@ == (if r {
                MergeM { names: old(self)@.names.push(name@), ..old(self)@ }
            } else {
                old(self)@
            }),
    {
        let mut i: usize = 0;
        while i < self.names.len()
            invariant
                i <= self.names@.len(),
                self@ == old(self)@,
                self.names@ == old(self).names@,
                forall|k: int| 0 <= k < i ==> #[trigger] names_view(self.names@)[k] != name@,
            decreases self.names@.len() - i,
        {
            if self.names[i] == *name {
                assert(names_view(self.names@)[i as int] == name@);
                return false;
            }
            i = i + 1;
        }
        push_name(&mut self.names, name);
        true
    }

    fn push(&mut self, item: Item)
        ensures
            final(self)@ == (MergeM { items: old(self)@.items.push(item@), ..old(self)@ }),
    {
        let ghost before = self.items@;
        let ghost im = item@;
        self.items.push(item);
        assert(ast::items_view(self.items@) =~= ast::items_view(before).push(im));
    }

    fn add_methods(&mut self, methods: Vec<FnDecl>)
        ensures
            final(self)@ == add_methods(
                old(self)@,
                ast::fns_view(methods@),
                methods@.len() as int,
            ),
    {
        let ghost m0 = self@;
        let ghost fs = ast::fns_view(methods@);
        for f in it: methods
            invariant
                fs == ast::fns_view(it.seq()),
                self@ == add_methods(m0, fs, it.index() as int),
        {
            assert(fs[it.index() as int] == ast::fn_view(f));
            if self.claim(&f.name) {
                self.push(Item::Fn(f));
            }
        }
    }

    fn merge_item(&mut self, item: Item)
        ensures
            final(self)@ == merge_item(old(self)@, item@),
    {
        let fresh = match &item {
            Item::Struct(s) => self.claim(&s.name),
            Item::Fn(f) => self.claim(&f.name),
            _ => false,
        };
        match item {
            Item::Extend(e) => {
                self.add_methods(e.methods);
            },
            Item::Import(_) => {},
            _ => {
                if fresh {
                    self.push(item);
                }
            },
        }
    }

    fn merge_items(&mut self, items: Vec<Item>)
        ensures
            final(self)@ == merge_items(
                old(self)@,
                ast::items_view(items@),
                items@.len() as int,
            ),
    {
        let ghost m0 = self@;
        let ghost v = ast::items_view(items@);
        for item in it: items
            invariant
                v == ast::items_view(it.seq()),
                self@ == merge_items(m0, v, it.index() as int),
        {
            assert(v[it.index() as int] == item@);
            self.merge_item(item);
        }
    }
}

/// Merge type-checked module items (from `import module;`) into the program so
/// the code generator emits their structs' methods and knows their layouts.
/// Glob/named imports already pasted their text, so a struct or function whose
/// name is already present is skipped, to avoid duplicate labels.
pub fn merge_modules(program: Program, modules: Vec<(String, Program)>) -> (r: Program)
    ensures
        r@.items == merged(program@, typechecker::programs_view(modules@)).items,
{
    let names = collect_names(&program.items);
    let mut m = Merge { items: program.items, names };
    let ghost m0 = m@;
    let ghost v = typechecker::programs_view(modules@);
    for module in it: modules
        invariant
            v == typechecker::programs_view(it.seq()),
            m@ == merge_all(m0, v, it.index() as int),
    {
        assert(v[it.index() as int] == (module.0@, module.1@));
        let (_, prog) = module;
        m.merge_items(prog.items);
    }
    Program { items: m.items }
}

/// The name under which an item was added.
pub open spec fn item_name(item: ItemM) -> Option<Seq<char>> {
    match item {
        ItemM::Struct(s) => Some(s.name),
        ItemM::Fn(f) => Some(f.name),
        _ => None,
    }
}

/// The items after the first `n` are there under the names after the first `k`,
/// in the same order, and no name is used twice among them or before.
pub open spec fn added_once(m: MergeM, n: int, k: int) -> bool {
    &&& 0 <= n <= m.items.len()
    &&& 0 <= k <= m.names.len()
    &&& m.items.len() - n == m.names.len() - k
    &&& forall|j: int|
        0 <= j < m.items.len() - n ==> item_name(#[trigger] m.items[n + j]) == Some(m.names[k + j])
    &&& forall|i: int, j: int|
        0 <= i < j < m.names.len() && k <= j ==> #[trigger] m.names[i] != #[trigger] m.names[j]
}

proof fn add_item_once(m: MergeM, item: ItemM, name: Seq<char>, n: int, k: int)
    requires
        added_once(m, n, k),
        item_name(item) == Some(name),
    ensures
        added_once(add_item(m, item, name), n, k),
{
    if !m.names.contains(name) {
        let r = add_item(m, item, name);
        assert forall|j: int| 0 <= j < r.items.len() - n implies item_name(
            #[trigger] r.items[n + j],
        ) == Some(r.names[k + j]) by {
            if j < m.items.len() - n {
                assert(r.items[n + j] == m.items[n + j]);
            }
        }
    }
}

proof fn add_methods_once(m: MergeM, fs: Seq<FnDeclM>, c: int, n: int, k: int)
    requires
        added_once(m, n, k),
    ensures
        added_once(add_methods(m, fs, c), n, k),
    decreases c,
{
    if 0 < c <= fs.len() {
        add_methods_once(m, fs, c - 1, n, k);
        let f = fs[c - 1];
        add_item_once(add_methods(m, fs, c - 1), ItemM::Fn(f), f.name, n, k);
    }
}

proof fn merge_items_once(m: MergeM, items: Seq<ItemM>, c: int, n: int, k: int)
    requires
        added_once(m, n, k),
    ensures
        added_once(merge_items(m, items, c), n, k),
    decreases c,
{
    if 0 < c <= items.len() {
        merge_items_once(m, items, c - 1, n, k);
        let before = merge_items(m, items, c - 1);
        match items[c - 1] {
            ItemM::Struct(s) => add_item_once(before, items[c - 1], s.name, n, k),
            ItemM::Fn(f) => add_item_once(before, items[c - 1], f.name, n, k),
            ItemM::Extend(e) => add_methods_once(before, e.methods, e.methods.len() as int, n, k),
            ItemM::Import(_) => {},
        }
    }
}

proof fn merge_all_once(m: MergeM, modules: Seq<(Seq<char>, ProgramM)>, c: int, n: int, k: int)
    requires
        added_once(m, n, k),
    ensures
        added_once(merge_all(m, modules, c), n, k),
    decreases c,
{
    if 0 < c <= modules.len() {
        merge_all_once(m, modules, c - 1, n, k);
        let items = modules[c - 1].1.items;
        merge_items_once(merge_all(m, modules, c - 1), items, items.len() as int, n, k);
    }
}

/// Merging keeps the names apart: an item that comes from a module has a name
/// that neither the program nor another such item uses.
pub proof fn merging_keeps_names_apart(program: ProgramM, modules: Seq<(Seq<char>, ProgramM)>)
    ensures
        ({
            let items = program.items;
            added_once(
                merged(program, modules),
                items.len() as int,
                used_names(items, items.len() as int).len() as int,
            )
        }),
{
    let items = program.items;
    let names = used_names(items, items.len() as int);
    merge_all_once(
        MergeM { items, names },
        modules,
        modules.len() as int,
        items.len() as int,
        names.len() as int,
    );
}

/// What an item offers to the program that imports it: a struct and a function
/// themselves, an `extend` its methods.
pub open spec fn offered(item: ItemM) -> Seq<ItemM> {
    match item {
        ItemM::Struct(_) | ItemM::Fn(_) => seq![item],
        ItemM::Extend(e) => Seq::new(e.methods.len(), |i: int| ItemM::Fn(e.methods[i])),
        ItemM::Import(_) => Seq::empty(),
    }
}

/// What the items offer, in order.
pub open spec fn offered_by(items: Seq<ItemM>) -> Seq<ItemM>
    decreases items.len(),
{
    if items.len() == 0 {
        Seq::empty()
    } else {
        offered_by(items.drop_last()) + offered(items.last())
    }
}

/// What the modules offer, in order.
pub open spec fn offered_by_all(modules: Seq<(Seq<char>, ProgramM)>) -> Seq<ItemM>
    decreases modules.len(),
{
    if modules.len() == 0 {
        Seq::empty()
    } else {
        offered_by_all(modules.drop_last()) + offered_by(modules.last().1.items)
    }
}

/// Whether one of the items has that name, or is an `extend` with such a method.
pub open spec fn names_item(items: Seq<ItemM>, name: Seq<char>) -> bool {
    exists|i: int| 0 <= i < items.len() && names(#[trigger] items[i], name)
}

pub open spec fn names(item: ItemM, name: Seq<char>) -> bool {
    match item {
        ItemM::Struct(s) => s.name == name,
        ItemM::Fn(f) => f.name == name,
        ItemM::Extend(e) => exists|k: int|
            0 <= k < e.methods.len() && (#[trigger] e.methods[k]).name == name,
        ItemM::Import(_) => false,
    }
}

/// Whether the items are `kept` out of `all`, at the places `at`: each as it is,
/// in order, and each one there whose name comes neither in `taken` nor earlier
/// in `all`.
pub open spec fn kept_at(
    kept: Seq<ItemM>,
    all: Seq<ItemM>,
    taken: Seq<ItemM>,
    at: Seq<int>,
) -> bool {
    &&& at.len() == kept.len()
    &&& forall|j: int| 0 <= j < at.len() ==> 0 <= #[trigger] at[j] < all.len()
    &&& forall|j: int| 0 <= j < at.len() ==> #[trigger] kept[j] == all[at[j]]
    &&& forall|i: int, j: int| 0 <= i < j < at.len() ==> #[trigger] at[i] < #[trigger] at[j]
    &&& forall|k: int|
        0 <= k < all.len() && fresh(#[trigger] all[k], all.take(k), taken) ==> at.contains(k)
    &&& forall|k: int|
        0 <= k < all.len() && !fresh(#[trigger] all[k], all.take(k), taken) ==> !at.contains(k)
}

/// Whether neither of the two lists uses the name of the item.
pub open spec fn fresh(item: ItemM, before: Seq<ItemM>, taken: Seq<ItemM>) -> bool {
    item_name(item) matches Some(name) && !names_item(before, name) && !names_item(taken, name)
}

spec fn add_each(m: MergeM, all: Seq<ItemM>) -> MergeM
    decreases all.len(),
{
    if all.len() == 0 {
        m
    } else {
        add_item(add_each(m, all.drop_last()), all.last(), item_name(all.last())->0)
    }
}

proof fn add_each_joins(m: MergeM, a: Seq<ItemM>, b: Seq<ItemM>)
    ensures
        add_each(add_each(m, a), b) == add_each(m, a + b),
    decreases b.len(),
{
    if b.len() == 0 {
        assert(a + b =~= a);
    } else {
        add_each_joins(m, a, b.drop_last());
        assert((a + b).drop_last() =~= a + b.drop_last());
        assert((a + b).last() == b.last());
    }
}

proof fn methods_are_added(m: MergeM, e: ExtendDeclM, n: int)
    requires
        0 <= n <= e.methods.len(),
    ensures
        add_methods(m, e.methods, n) == add_each(m, offered(ItemM::Extend(e)).take(n)),
    decreases n,
{
    let all = offered(ItemM::Extend(e));
    if n > 0 {
        methods_are_added(m, e, n - 1);
        assert(all.take(n).drop_last() =~= all.take(n - 1));
        assert(all.take(n).last() == ItemM::Fn(e.methods[n - 1]));
    }
}

proof fn items_are_added(m: MergeM, items: Seq<ItemM>, n: int)
    requires
        0 <= n <= items.len(),
    ensures
        merge_items(m, items, n) == add_each(m, offered_by(items.take(n))),
    decreases n,
{
    if n > 0 {
        items_are_added(m, items, n - 1);
        assert(items.take(n).drop_last() =~= items.take(n - 1));
        let item = items[n - 1];
        let before = merge_items(m, items, n - 1);
        add_each_joins(m, offered_by(items.take(n - 1)), offered(item));
        match item {
            ItemM::Extend(e) => {
                methods_are_added(before, e, e.methods.len() as int);
                assert(offered(item).take(e.methods.len() as int) =~= offered(item));
            },
            ItemM::Struct(_) | ItemM::Fn(_) => {
                assert(offered(item).drop_last() =~= Seq::empty());
                assert(add_each(before, Seq::empty()) == before);
            },
            ItemM::Import(_) => {},
        }
    }
}

proof fn modules_are_added(m: MergeM, modules: Seq<(Seq<char>, ProgramM)>, n: int)
    requires
        0 <= n <= modules.len(),
    ensures
        merge_all(m, modules, n) == add_each(m, offered_by_all(modules.take(n))),
    decreases n,
{
    if n > 0 {
        modules_are_added(m, modules, n - 1);
        assert(modules.take(n).drop_last() =~= modules.take(n - 1));
        let items = modules[n - 1].1.items;
        items_are_added(merge_all(m, modules, n - 1), items, items.len() as int);
        assert(items.take(items.len() as int) =~= items);
        add_each_joins(m, offered_by_all(modules.take(n - 1)), offered_by(items));
    }
}

proof fn offers_have_names(items: Seq<ItemM>, i: int)
    requires
        0 <= i < offered_by(items).len(),
    ensures
        item_name(offered_by(items)[i]) is Some,
    decreases items.len(),
{
    if items.len() > 0 && i < offered_by(items.drop_last()).len() {
        offers_have_names(items.drop_last(), i);
    }
}

proof fn all_offers_have_names(modules: Seq<(Seq<char>, ProgramM)>, i: int)
    requires
        0 <= i < offered_by_all(modules).len(),
    ensures
        item_name(offered_by_all(modules)[i]) is Some,
    decreases modules.len(),
{
    if modules.len() > 0 {
        let before = offered_by_all(modules.drop_last());
        if i < before.len() {
            all_offers_have_names(modules.drop_last(), i);
        } else {
            offers_have_names(modules.last().1.items, i - before.len());
        }
    }
}

proof fn fn_names_are_used(ns: Seq<Seq<char>>, fs: Seq<FnDeclM>, n: int, name: Seq<char>)
    requires
        0 <= n <= fs.len(),
    ensures
        with_fn_names(ns, fs, n).contains(name) <==> ns.contains(name) || exists|k: int|
            0 <= k < n && (#[trigger] fs[k]).name == name,
    decreases n,
{
    if n > 0 {
        fn_names_are_used(ns, fs, n - 1, name);
        push_contains(with_fn_names(ns, fs, n - 1), fs[n - 1].name, name);
    }
}

proof fn push_contains(s: Seq<Seq<char>>, x: Seq<char>, y: Seq<char>)
    ensures
        s.push(x).contains(y) <==> s.contains(y) || x == y,
{
    let t = s.push(x);
    if s.contains(y) {
        let i = choose|i: int| 0 <= i < s.len() && s[i] == y;
        assert(t[i] == y);
    }
    if x == y {
        assert(t[s.len() as int] == y);
    }
    if t.contains(y) && x != y {
        let i = choose|i: int| 0 <= i < t.len() && t[i] == y;
        assert(s[i] == y);
    }
}

proof fn names_are_used(items: Seq<ItemM>, n: int, name: Seq<char>)
    requires
        0 <= n <= items.len(),
    ensures
        used_names(items, n).contains(name) <==> names_item(items.take(n), name),
    decreases n,
{
    if n > 0 {
        names_are_used(items, n - 1, name);
        let item = items[n - 1];
        let before = used_names(items, n - 1);
        match item {
            ItemM::Struct(s) => push_contains(before, s.name, name),
            ItemM::Fn(f) => push_contains(before, f.name, name),
            ItemM::Extend(e) => fn_names_are_used(before, e.methods, e.methods.len() as int, name),
            ItemM::Import(_) => {},
        }
        assert(used_names(items, n).contains(name) <==> before.contains(name) || names(item, name));
        let a = items.take(n - 1);
        let b = items.take(n);
        if names_item(a, name) {
            let i = choose|i: int| 0 <= i < a.len() && names(#[trigger] a[i], name);
            assert(names(b[i], name));
        }
        if names(item, name) {
            assert(names(b[n - 1], name));
        }
        if names_item(b, name) {
            let i = choose|i: int| 0 <= i < b.len() && names(#[trigger] b[i], name);
            if i < n - 1 {
                assert(names(a[i], name));
            }
        }
    }
}

/// The names that a program uses are those of its structs and functions and of
/// the methods that it adds, and no others.
pub proof fn used_names_are_declared(items: Seq<ItemM>, name: Seq<char>)
    ensures
        used_names(items, items.len() as int).contains(name) <==> names_item(items, name),
{
    names_are_used(items, items.len() as int, name);
    assert(items.take(items.len() as int) =~= items);
}

proof fn each_is_added(items: Seq<ItemM>, all: Seq<ItemM>) -> (at: Seq<int>)
    requires
        forall|i: int| 0 <= i < all.len() ==> item_name(#[trigger] all[i]) is Some,
    ensures
        ({
            let m = MergeM { items, names: used_names(items, items.len() as int) };
            let r = add_each(m, all);
            &&& r.items.len() >= items.len()
            &&& r.items.take(items.len() as int) == items
            &&& kept_at(r.items.skip(items.len() as int), all, items, at)
            &&& forall|x: Seq<char>| #[trigger]
                r.names.contains(x) <==> names_item(items, x) || names_item(all, x)
        }),
    decreases all.len(),
{
    let n = items.len() as int;
    let m = MergeM { items, names: used_names(items, n) };
    let r = add_each(m, all);
    if all.len() == 0 {
        assert(r.items.take(n) =~= items);
        assert(r.items.skip(n) =~= Seq::empty());
        assert forall|x: Seq<char>| #[trigger]
            r.names.contains(x) <==> names_item(items, x) || names_item(all, x) by {
            used_names_are_declared(items, x);
        }
        Seq::empty()
    } else {
        let front = all.drop_last();
        let item = all.last();
        let name = item_name(item)->0;
        assert forall|i: int| 0 <= i < front.len() implies item_name(
            #[trigger] front[i],
        ) is Some by {
            assert(front[i] == all[i]);
        }
        assert(item == all[all.len() - 1]);
        let before = each_is_added(items, front);
        let p = add_each(m, front);
        let last = all.len() - 1;
        assert(all.take(last) =~= front);
        assert(fresh(item, front, items) <==> !p.names.contains(name));
        let at = if p.names.contains(name) {
            before
        } else {
            before.push(last)
        };
        assert(!before.contains(last));
        assert forall|k: int| 0 <= k < last implies #[trigger] all.take(k) == front.take(k) by {
            assert(all.take(k) =~= front.take(k));
        }
        assert forall|k: int| 0 <= k < last implies (at.contains(k) <==> #[trigger] before.contains(
            k,
        )) by {
            if before.contains(k) {
                let i = choose|i: int| 0 <= i < before.len() && before[i] == k;
                assert(at[i] == k);
            }
            if at.contains(k) {
                let i = choose|i: int| 0 <= i < at.len() && at[i] == k;
                assert(before[i] == k);
            }
        }
        if !p.names.contains(name) {
            assert(at[before.len() as int] == last);
        }
        assert(r.items.take(n) =~= p.items.take(n));
        let kept = r.items.skip(n);
        let old_kept = p.items.skip(n);
        if p.names.contains(name) {
            assert(kept == old_kept);
        } else {
            assert(kept =~= old_kept.push(item));
        }
        assert forall|j: int| 0 <= j < at.len() implies #[trigger] kept[j] == all[at[j]] by {
            if j < before.len() {
                assert(old_kept[j] == front[before[j]]);
            }
        }
        assert forall|k: int|
            0 <= k < all.len() && fresh(#[trigger] all[k], all.take(k), items) implies at.contains(
            k,
        ) by {
            if k < last {
                assert(front[k] == all[k]);
                assert(before.contains(k));
            }
        }
        assert forall|k: int|
            0 <= k < all.len() && !fresh(
                #[trigger] all[k],
                all.take(k),
                items,
            ) implies !at.contains(k) by {
            if k < last {
                assert(front[k] == all[k]);
                assert(!before.contains(k));
            }
        }
        assert forall|x: Seq<char>| #[trigger]
            r.names.contains(x) <==> names_item(items, x) || names_item(all, x) by {
            push_contains(p.names, name, x);
            assert(p.names.contains(x) <==> names_item(items, x) || names_item(front, x));
            if names_item(front, x) {
                let i = choose|i: int| 0 <= i < front.len() && names(#[trigger] front[i], x);
                assert(names(all[i], x));
            }
            if names_item(all, x) {
                let i = choose|i: int| 0 <= i < all.len() && names(#[trigger] all[i], x);
                if i < last {
                    assert(names(front[i], x));
                }
            }
            if name == x {
                assert(names(all[last], x));
            }
        }
        at
    }
}

/// The merged program is the program, unchanged, and behind it what the modules
/// offer: each item as it stands in its module, in order, leaving out just those
/// whose name the program or an earlier item uses.
pub proof fn merging_keeps_items(program: ProgramM, modules: Seq<(Seq<char>, ProgramM)>)
    ensures
        ({
            let n = program.items.len() as int;
            let items = merged(program, modules).items;
            &&& items.len() >= n
            &&& items.take(n) == program.items
            &&& exists|at: Seq<int>| #[trigger]
                kept_at(items.skip(n), offered_by_all(modules), program.items, at)
        }),
{
    let items = program.items;
    let m = MergeM { items, names: used_names(items, items.len() as int) };
    let all = offered_by_all(modules);
    modules_are_added(m, modules, modules.len() as int);
    assert(modules.take(modules.len() as int) =~= modules);
    assert forall|i: int| 0 <= i < all.len() implies item_name(#[trigger] all[i]) is Some by {
        all_offers_have_names(modules, i);
    }
    let at = each_is_added(items, all);
}

proof fn item_is_offered(items: Seq<ItemM>, k: int) -> (j: int)
    requires
        0 <= k < items.len(),
        item_name(items[k]) is Some,
    ensures
        0 <= j < offered_by(items).len(),
        offered_by(items)[j] == items[k],
        offered_by(items).take(j) == offered_by(items.take(k)),
    decreases items.len(),
{
    let front = offered_by(items.drop_last());
    if k == items.len() - 1 {
        assert(items.take(k) =~= items.drop_last());
        assert(offered_by(items).take(front.len() as int) =~= front);
        front.len() as int
    } else {
        let j = item_is_offered(items.drop_last(), k);
        assert(items.drop_last().take(k) =~= items.take(k));
        assert(offered_by(items).take(j) =~= front.take(j));
        j
    }
}

proof fn module_item_is_offered(
    modules: Seq<(Seq<char>, ProgramM)>,
    m: int,
    k: int,
) -> (j: int)
    requires
        0 <= m < modules.len(),
        0 <= k < modules[m].1.items.len(),
        item_name(modules[m].1.items[k]) is Some,
    ensures
        0 <= j < offered_by_all(modules).len(),
        offered_by_all(modules)[j] == modules[m].1.items[k],
        offered_by_all(modules).take(j) == offered_by_all(modules.take(m)) + offered_by(
            modules[m].1.items.take(k),
        ),
    decreases modules.len(),
{
    let front = offered_by_all(modules.drop_last());
    let all = offered_by_all(modules);
    if m == modules.len() - 1 {
        let items = modules[m].1.items;
        let j = item_is_offered(items, k);
        assert(modules.take(m) =~= modules.drop_last());
        assert(all.take(front.len() + j) =~= front + offered_by(items).take(j));
        front.len() + j
    } else {
        let j = module_item_is_offered(modules.drop_last(), m, k);
        assert(modules.drop_last().take(m) =~= modules.take(m));
        assert(all.take(j) =~= front.take(j));
        j
    }
}

/// A struct or a function of a module whose name neither the program nor an
/// earlier item uses stands in the merged program unchanged, with the same
/// fields, methods and bodies.
pub proof fn unused_names_are_merged(
    program: ProgramM,
    modules: Seq<(Seq<char>, ProgramM)>,
    m: int,
    k: int,
)
    requires
        0 <= m < modules.len(),
        0 <= k < modules[m].1.items.len(),
        item_name(modules[m].1.items[k]) matches Some(name) && !names_item(program.items, name)
            && !names_item(offered_by_all(modules.take(m)), name) && !names_item(
            offered_by(modules[m].1.items.take(k)),
            name,
        ),
    ensures
        merged(program, modules).items.contains(modules[m].1.items[k]),
{
    let item = modules[m].1.items[k];
    let name = item_name(item)->0;
    let all = offered_by_all(modules);
    let n = program.items.len() as int;
    let items = merged(program, modules).items;
    merging_keeps_items(program, modules);
    let at = choose|at: Seq<int>| #[trigger] kept_at(items.skip(n), all, program.items, at);
    let j = module_item_is_offered(modules, m, k);
    let a = offered_by_all(modules.take(m));
    let b = offered_by(modules[m].1.items.take(k));
    if names_item(a + b, name) {
        let i = choose|i: int| 0 <= i < (a + b).len() && names(#[trigger] (a + b)[i], name);
        if i < a.len() {
            assert(names(a[i], name));
        } else {
            assert(names(b[i - a.len()], name));
        }
    }
    assert(fresh(all[j], all.take(j), program.items));
    let i = choose|i: int| 0 <= i < at.len() && at[i] == j;
    assert(items.skip(n)[i] == item);
    assert(items[n + i] == item);
}

// ---------------------------------------------------------------------------
// The front end
// ---------------------------------------------------------------------------

/// The programs of the first `n` modules, or the diagnostics of the first one
/// that has some.
pub open spec fn parsed_modules(modules: Seq<(Seq<char>, Seq<char>)>, n: int) -> Result<
    Seq<(Seq<char>, ProgramM)>,
    Seq<DiagM>,
>
    decreases n,
{
    if n <= 0 || n > modules.len() {
        Ok(Seq::empty())
    } else {
        match parsed_modules(modules, n - 1) {
            Err(ds) => Err(ds),
            Ok(done) => {
                let (name, source) = modules[n - 1];
                match parsed(source, name + ".jo"@) {
                    Err(ds) => Err(ds),
                    Ok(program) => Ok(done.push((name, program))),
                }
            },
        }
    }
}

/// From preprocessed text to the program that the code generator takes: the
/// modules and the program are parsed, checked together and merged. Each step is
/// taken only if the one before reported nothing.
pub open spec fn front_end(
    source: Seq<char>,
    modules: Seq<(Seq<char>, Seq<char>)>,
    file: Seq<char>,
) -> Result<ProgramM, Seq<DiagM>> {
    match parsed_modules(modules, modules.len() as int) {
        Err(ds) => Err(ds),
        Ok(programs) => match parsed(source, file) {
            Err(ds) => Err(ds),
            Ok(program) => {
                let c = typing::check_program(file, source, program, programs);
                if c.diags.len() > 0 {
                    Err(c.diags)
                } else {
                    Ok(ProgramM { items: merged(c.program, c.modules).items })
                }
            },
        },
    }
}

/// Parse each loaded module (for `module::name` resolution).
fn parse_modules(modules: &Vec<(String, String)>) -> (r: Result<
    Vec<(String, Program)>,
    Vec<Diagnostic>,
>)
    requires
        forall|i: int| 0 <= i < modules@.len() ==> (#[trigger] modules@[i]).1@.len() < usize::MAX,
    ensures
        ({
            let out = parsed_modules(
                preprocessor::modules_view(modules@),
                modules@.len() as int,
            );
            match r {
                Ok(ps) => out == Ok::<Seq<(Seq<char>, ProgramM)>, Seq<DiagM>>(
                    typechecker::programs_view(ps@),
                ),
                Err(ds) => out == Err::<Seq<(Seq<char>, ProgramM)>, Seq<DiagM>>(
                    error::diags_view(ds@),
                ) && ds@.len() > 0,
            }
        }),
{
    let ghost v = preprocessor::modules_view(modules@);
    let mut done: Vec<(String, Program)> = Vec::new();
    assert(typechecker::programs_view(done@) =~= Seq::empty());
    let mut i: usize = 0;
    while i < modules.len()
        invariant
            i <= modules@.len(),
            v == preprocessor::modules_view(modules@),
            forall|k: int|
                0 <= k < modules@.len() ==> (#[trigger] modules@[k]).1@.len() < usize::MAX,
            parsed_modules(v, i as int) == Ok::<Seq<(Seq<char>, ProgramM)>, Seq<DiagM>>(
                typechecker::programs_view(done@),
            ),
        decreases modules@.len() - i,
    {
        let name = modules[i].0.clone();
        assert(v[i as int] == (name@, modules@[i as int].1@));
        let file = text::cat2(name.as_str(), ".jo");
        match lex_and_parse(modules[i].1.as_str(), file.as_str()) {
            Ok(p) => {
                let ghost before = done@;
                let ghost next = (name@, p@);
                done.push((name, p));
                assert(typechecker::programs_view(done@) =~= typechecker::programs_view(
                    before,
                ).push(next));
            },
            Err(ds) => {
                proof {
                    parse_error_stays(v, i + 1, modules@.len() as int);
                }
                return Err(ds);
            },
        }
        i = i + 1;
    }
    Ok(done)
}

proof fn parse_error_stays(modules: Seq<(Seq<char>, Seq<char>)>, a: int, b: int)
    requires
        0 <= a <= b <= modules.len(),
        parsed_modules(modules, a) is Err,
    ensures
        parsed_modules(modules, b) == parsed_modules(modules, a),
    decreases b - a,
{
    if a < b {
        parse_error_stays(modules, a, b - 1);
    }
}

/// Lex, parse, check and merge preprocessed text. Returns the program for the
/// code generator, or the diagnostics of the first stage that reports some.
pub fn compile(pp: PreprocessOutput, file: &str) -> (r: Result<Program, Vec<Diagnostic>>)
    requires
        pp.source@.len() < usize::MAX,
        forall|i: int|
            0 <= i < pp.modules@.len() ==> (#[trigger] pp.modules@[i]).1@.len() < usize::MAX,
    ensures
        ({
            let out = front_end(pp.source@, preprocessor::modules_view(pp.modules@), file@);
            match r {
                Ok(p) => out == Ok::<ProgramM, Seq<DiagM>>(p@),
                Err(ds) => {
                    &&& ds@.len() > 0
                    &&& out == Err::<ProgramM, Seq<DiagM>>(error::diags_view(ds@))
                },
            }
        }),
{
    let mut module_asts = match parse_modules(&pp.modules) {
        Ok(ps) => ps,
        Err(ds) => {
            return Err(ds);
        },
    };
    let mut program = match lex_and_parse(pp.source.as_str(), file) {
        Ok(p) => p,
        Err(ds) => {
            return Err(ds);
        },
    };
    if let Err(ds) = TypeChecker::check(
        &mut program,
        file,
        pp.source.as_str(),
        &mut module_asts,
    ) {
        assert(error::diags_view(ds@).len() == ds@.len());
        return Err(ds);
    }
    Ok(merge_modules(program, module_asts))
}

proof fn parsed_codes(src: Seq<char>, file: Seq<char>)
    ensures
        parsed(src, file) matches Err(ds) ==> ds.len() > 0 && (error::codes_in(ds, '1')
            || error::codes_in(ds, '2')),
{
    let l = lexer::lex(src, file);
    syntax_laws::lexing_ends_once(src, file);
    syntax_laws::parser_diagnostics_are_e2(InputM { toks: l.tokens, file, src });
}

proof fn parsed_modules_codes(modules: Seq<(Seq<char>, Seq<char>)>, n: int)
    ensures
        parsed_modules(modules, n) matches Err(ds) ==> ds.len() > 0 && (error::codes_in(ds, '1')
            || error::codes_in(ds, '2')),
    decreases n,
{
    if 0 < n <= modules.len() {
        parsed_modules_codes(modules, n - 1);
        let (name, source) = modules[n - 1];
        parsed_codes(source, name + ".jo"@);
    }
}

/// A program that is refused is refused by one stage: there are diagnostics, and
/// all of them have codes of the lexer, all of the parser, or all of the type
/// checker.
pub proof fn one_stage_reports(
    source: Seq<char>,
    modules: Seq<(Seq<char>, Seq<char>)>,
    file: Seq<char>,
)
    ensures
        front_end(source, modules, file) matches Err(ds) ==> ds.len() > 0 && (error::codes_in(
            ds,
            '1',
        ) || error::codes_in(ds, '2') || error::codes_in(ds, '4')),
{
    parsed_modules_codes(modules, modules.len() as int);
    parsed_codes(source, file);
    if let Ok(programs) = parsed_modules(modules, modules.len() as int) {
        if let Ok(program) = parsed(source, file) {
            soundness::checker_diagnostics_are_e4(file, source, program, programs);
        }
    }
}

// ---------------------------------------------------------------------------
// Where modules are searched
// ---------------------------------------------------------------------------

/// The parts of a path from `i` on. Repeated and trailing slashes, and a `.` that
/// does not stand first in a relative path, make no part.
pub open spec fn path_parts(s: Seq<char>, i: int) -> Seq<Seq<char>>
    decreases s.len() + 1 - i,
    when 0 <= i
    via path_parts_decreases
{
    if i >= s.len() {
        Seq::empty()
    } else {
        let e = text::run_end(s, i, Class::Not('/'));
        let part = s.subrange(i, e);
        let rest = path_parts(s, e + 1);
        if part.len() == 0 || part == "."@ && i > 0 {
            rest
        } else {
            seq![part] + rest
        }
    }
}

#[via_fn]
proof fn path_parts_decreases(s: Seq<char>, i: int) {
    if i < s.len() {
        text::run_end_spec(s, i, Class::Not('/'));
    }
}

pub open spec fn absolute(s: Seq<char>) -> bool {
    s.len() > 0 && s[0] == '/'
}

/// Whether two paths are the same, part by part.
pub open spec fn same_path(a: Seq<char>, b: Seq<char>) -> bool {
    absolute(a) == absolute(b) && path_parts(a, 0) == path_parts(b, 0)
}

/// Whether one of the paths is this one.
pub open spec fn lists(s: Seq<Seq<char>>, d: Seq<char>) -> bool {
    exists|i: int| 0 <= i < s.len() && same_path(#[trigger] s[i], d)
}

/// The paths with those that come again left out.
pub open spec fn first_occurrences(s: Seq<Seq<char>>) -> Seq<Seq<char>>
    decreases s.len(),
{
    if s.len() == 0 {
        s
    } else {
        let before = first_occurrences(s.drop_last());
        if lists(before, s.last()) {
            before
        } else {
            before.push(s.last())
        }
    }
}

fn split_path(s: &str) -> (r: Vec<String>)
    ensures
        names_view(r@) == path_parts(s@, 0),
{
    let v = text::to_chars(s);
    let mut parts: Vec<String> = Vec::new();
    let mut i: usize = 0;
    assert(names_view(parts@) + path_parts(s@, 0) =~= path_parts(s@, 0));
    while i < v.len()
        invariant
            v@ == s@,
            path_parts(s@, 0) == names_view(parts@) + path_parts(s@, i as int),
        decreases s@.len() - i,
    {
        let e = text::skip_run(&v, i, Class::Not('/'));
        proof {
            text::run_end_spec(v@, i as int, Class::Not('/'));
        }
        let part = text::slice_text(&v, i, e);
        if !(e == i || (i > 0 && text::text_eq(part.as_str(), "."))) {
            let ghost before = names_view(parts@);
            let ghost rest = path_parts(s@, e + 1);
            push_name(&mut parts, &part);
            assert(before + (seq![part@] + rest) =~= names_view(parts@) + rest);
        }
        if e >= v.len() {
            assert(path_parts(s@, e + 1) =~= Seq::empty());
            assert(names_view(parts@) + Seq::empty() =~= names_view(parts@));
            return parts;
        }
        i = e + 1;
    }
    assert(names_view(parts@) + Seq::empty() =~= names_view(parts@));
    parts
}

fn is_absolute(s: &str) -> (r: bool)
    ensures
        r == absolute(s@),
{
    let v = text::to_chars(s);
    v.len() > 0 && v[0] == '/'
}

fn is_same_path(a: &str, b: &str) -> (r: bool)
    ensures
        r == same_path(a@, b@),
{
    if is_absolute(a) != is_absolute(b) {
        return false;
    }
    let x = split_path(a);
    let y = split_path(b);
    let ghost p = path_parts(a@, 0);
    let ghost q = path_parts(b@, 0);
    if x.len() != y.len() {
        assert(p.len() != q.len());
        return false;
    }
    let mut i: usize = 0;
    while i < x.len()
        invariant
            i <= x@.len() == y@.len(),
            p == names_view(x@),
            q == names_view(y@),
            p == path_parts(a@, 0),
            q == path_parts(b@, 0),
            forall|k: int| 0 <= k < i ==> #[trigger] p[k] == q[k],
        decreases x@.len() - i,
    {
        if x[i] != y[i] {
            assert(p[i as int] != q[i as int]);
            return false;
        }
        i = i + 1;
    }
    assert(p =~= q);
    true
}

/// The directories in which `module.jo` files are searched, in order: that of the
/// source file, the current one, and that of the bundled library.
pub open spec fn search_order(
    parent: Option<Seq<char>>,
    current: Option<Seq<char>>,
    bundled: Seq<char>,
) -> Seq<Seq<char>> {
    let a = match parent {
        Some(p) => if p.len() == 0 {
            seq!["."@]
        } else {
            seq![p]
        },
        None => Seq::empty(),
    };
    let b = match current {
        Some(c) => a.push(c),
        None => a,
    };
    first_occurrences(b.push(bundled))
}

/// Add a directory, unless it is there, perhaps written otherwise.
fn push_dir(dirs: &mut Vec<String>, dir: &str)
    ensures
        names_view(final(dirs)@) == (if lists(names_view(old(dirs)@), dir@) {
            names_view(old(dirs)@)
        } else {
            names_view(old(dirs)@).push(dir@)
        }),
{
    let ghost v = names_view(dirs@);
    let mut i: usize = 0;
    while i < dirs.len()
        invariant
            i <= dirs@.len(),
            v == names_view(dirs@),
            forall|k: int| 0 <= k < i ==> !same_path(#[trigger] v[k], dir@),
        decreases dirs@.len() - i,
    {
        if is_same_path(dirs[i].as_str(), dir) {
            assert(same_path(v[i as int], dir@));
            return ;
        }
        i = i + 1;
    }
    dirs.push(dir.to_owned());
    assert(names_view(dirs@) =~= v.push(dir@));
}

/// Build the ordered list of directories in which `module.jo` files are searched:
/// the parent directory of the source file, the current directory, and the one
/// where the bundled library lives. Each is listed once.
pub fn include_dirs_for(parent: Option<&str>, current: Option<&str>, bundled: &str) -> (r: Vec<
    String,
>)
    ensures
        names_view(r@) == search_order(
            match parent {
                Some(p) => Some(p@),
                None => None,
            },
            match current {
                Some(c) => Some(c@),
                None => None,
            },
            bundled@,
        ),
{
    let mut dirs: Vec<String> = Vec::new();
    let ghost mut all: Seq<Seq<char>> = Seq::empty();
    assert(names_view(dirs@) =~= first_occurrences(all));
    if let Some(p) = parent {
        let dir = if p.is_empty() {
            "."
        } else {
            p
        };
        push_dir(&mut dirs, dir);
        proof {
            let one = seq![dir@];
            assert(one.drop_last() =~= all);
            assert(one.last() == dir@);
            assert(names_view(dirs@) == first_occurrences(one));
            all = one;
        }
    }
    if let Some(c) = current {
        push_dir(&mut dirs, c);
        proof {
            assert(all.push(c@).drop_last() =~= all);
            assert(names_view(dirs@) == first_occurrences(all.push(c@)));
            all = all.push(c@);
        }
    }
    assert(names_view(dirs@) == first_occurrences(all));
    push_dir(&mut dirs, bundled);
    assert(all.push(bundled@).drop_last() =~= all);
    assert(names_view(dirs@) == first_occurrences(all.push(bundled@)));
    dirs
}

/// No directory is searched twice, and each one is searched.
pub proof fn no_directory_twice(s: Seq<Seq<char>>)
    ensures
        ({
            let out = first_occurrences(s);
            &&& forall|i: int, j: int|
                0 <= i < j < out.len() ==> !same_path(#[trigger] out[i], #[trigger] out[j])
            &&& forall|i: int| 0 <= i < s.len() ==> lists(out, #[trigger] s[i])
            &&& forall|i: int| 0 <= i < out.len() ==> s.contains(#[trigger] out[i])
        }),
    decreases s.len(),
{
    if s.len() > 0 {
        let past = s.drop_last();
        let before = first_occurrences(past);
        let out = first_occurrences(s);
        no_directory_twice(past);
        assert forall|i: int| 0 <= i < out.len() implies s.contains(#[trigger] out[i]) by {
            if i < before.len() {
                let k = choose|k: int| 0 <= k < past.len() && past[k] == before[i];
                assert(past.contains(before[i]));
                assert(s[k] == out[i]);
            } else {
                assert(s[s.len() - 1] == out[i]);
            }
        }
        assert forall|i: int| 0 <= i < s.len() implies lists(out, #[trigger] s[i]) by {
            if i < past.len() {
                assert(past[i] == s[i]);
                let k = choose|k: int| 0 <= k < before.len() && same_path(#[trigger] before[k], past[i]);
                assert(lists(before, past[i]));
                assert(same_path(out[k], s[i]));
            } else if !lists(before, s[i]) {
                assert(same_path(out[before.len() as int], s[i]));
            }
        }
    }
}

} // verus!
