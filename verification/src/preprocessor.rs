//! The Jo preprocessor.
//!
//! Runs on raw source *text* before lexing. Responsibilities:
//!   * Expand `import` declarations (named / aliased / glob / module).
//!   * Apply `#define NAME: value#` constant substitutions.
//!   * Apply `#define NAME ... #` macro substitutions.
//!
//! For `import module;` (the module form) nothing is pasted and the line stays
//! as it is, but the module's *own* preprocessed source is recorded in
//! `PreprocessOutput::modules` so the type checker can resolve `module::name`
//! references against it.
//!
//! The preprocessor reads no files: it is given the text of module files, and
//! says which one it needs next.

use vstd::prelude::*;

use crate::ast;
use crate::directives;
use crate::error;
use crate::error::{DiagM, Diagnostic};
use crate::text;

verus! {

// ---------------------------------------------------------------------------
// What imports are
// ---------------------------------------------------------------------------

/// What is known of a module file.
pub enum FileM {
    /// Nothing yet.
    Unknown,
    /// There is no such file.
    Missing,
    /// The place of the file among those given, and its text.
    Found(int, Seq<char>),
}

/// The place of the first file of that name, from the `i`-th on.
pub open spec fn file_index(
    files: Seq<(Seq<char>, Option<Seq<char>>)>,
    name: Seq<char>,
    i: int,
) -> Option<int>
    decreases files.len() - i,
{
    if i < 0 || i >= files.len() {
        None
    } else if files[i].0 == name {
        Some(i)
    } else {
        file_index(files, name, i + 1)
    }
}

pub open spec fn file_of(files: Seq<(Seq<char>, Option<Seq<char>>)>, name: Seq<char>) -> FileM {
    match file_index(files, name, 0) {
        None => FileM::Unknown,
        Some(i) => match files[i].1 {
            None => FileM::Missing,
            Some(t) => FileM::Found(i, t),
        },
    }
}

/// How a text is preprocessed: its file name, the module files given, and for
/// each whether it is being preprocessed.
pub struct SourceM {
    pub file: Seq<char>,
    pub files: Seq<(Seq<char>, Option<Seq<char>>)>,
    pub open: Seq<bool>,
}

/// How many of the first `n` files are not being preprocessed.
pub open spec fn idle(open: Seq<bool>, n: int) -> nat
    decreases n,
{
    if n <= 0 || n > open.len() {
        0
    } else if open[n - 1] {
        idle(open, n - 1)
    } else {
        idle(open, n - 1) + 1
    }
}

pub open spec fn all_idle(open: Seq<bool>) -> nat {
    idle(open, open.len() as int)
}

pub(crate) proof fn idle_decreases(open: Seq<bool>, i: int, n: int)
    requires
        0 <= i < open.len(),
        !open[i],
        0 <= n <= open.len(),
    ensures
        idle(open.update(i, true), n) == if i < n {
            (idle(open, n) - 1) as nat
        } else {
            idle(open, n)
        },
        i < n ==> idle(open, n) > 0,
    decreases n,
{
    if n > 0 {
        idle_decreases(open, i, n - 1);
    }
}

/// What is known while the lines of a text are read: the new text, the modules
/// loaded, the diagnostics, and the module that is needed before reading can go
/// on.
pub struct ExpandM {
    pub out: Seq<char>,
    pub modules: Seq<(Seq<char>, Seq<char>)>,
    pub diags: Seq<DiagM>,
    pub need: Option<Seq<char>>,
}

/// What comes of preprocessing a text.
pub enum OutcomeM {
    /// The text of that module file is needed.
    Need(Seq<char>),
    Failed(Seq<DiagM>),
    /// The new text, and the modules loaded with their texts.
    Done(Seq<char>, Seq<(Seq<char>, Seq<char>)>),
}

/// A line as diagnostics show it.
pub struct LineM {
    pub no: nat,
    pub text: Seq<char>,
}

pub open spec fn line_diag(cx: SourceM, line: LineM, code: Seq<char>, msg: Seq<char>) -> DiagM {
    error::plain_diag(code, msg, cx.file, line.no, 1, line.text)
}

pub open spec fn failed(
    cx: SourceM,
    line: LineM,
    st: ExpandM,
    code: Seq<char>,
    msg: Seq<char>,
) -> ExpandM {
    ExpandM { diags: st.diags.push(line_diag(cx, line, code, msg)), ..st }
}

pub open spec fn no_file(cx: SourceM, line: LineM, st: ExpandM, module: Seq<char>) -> ExpandM {
    failed(cx, line, st, "E003"@, "module file `"@ + module + ".jo` not found"@)
}

/// The text of the first definition of that name, from the `i`-th on.
pub open spec fn find_definition(
    defs: Seq<(Seq<char>, Seq<char>)>,
    name: Seq<char>,
    i: int,
) -> Option<Seq<char>>
    decreases defs.len() - i,
{
    if i < 0 || i >= defs.len() {
        None
    } else if defs[i].0 == name {
        Some(defs[i].1)
    } else {
        find_definition(defs, name, i + 1)
    }
}

/// `import module::name;`: the definition takes the place of the line.
#[verifier::opaque]
pub open spec fn import_named(
    cx: SourceM,
    line: LineM,
    st: ExpandM,
    module: Seq<char>,
    name: Seq<char>,
    alias: Option<Seq<char>>,
) -> ExpandM {
    match file_of(cx.files, module) {
        FileM::Unknown => ExpandM { need: Some(module), ..st },
        FileM::Missing => no_file(cx, line, st, module),
        FileM::Found(_, t) => match find_definition(directives::definitions(t), name, 0) {
            Some(def) => ExpandM {
                out: st.out + (match alias {
                    Some(a) => directives::renamed(def, name, a),
                    None => def,
                }),
                ..st
            },
            None => failed(
                cx,
                line,
                st,
                "E002"@,
                "item `"@ + name + "` not found in module `"@ + module + "`"@,
            ),
        },
    }
}

/// The texts of the first `n` definitions, each followed by a blank line.
pub open spec fn all_definitions(defs: Seq<(Seq<char>, Seq<char>)>, n: int) -> Seq<char>
    decreases n,
{
    if n <= 0 || n > defs.len() {
        Seq::empty()
    } else {
        all_definitions(defs, n - 1) + defs[n - 1].1 + "\n\n"@
    }
}

/// `import module::*;`: all the definitions take the place of the line.
#[verifier::opaque]
pub open spec fn import_glob(cx: SourceM, line: LineM, st: ExpandM, module: Seq<char>) -> ExpandM {
    match file_of(cx.files, module) {
        FileM::Unknown => ExpandM { need: Some(module), ..st },
        FileM::Missing => no_file(cx, line, st, module),
        FileM::Found(_, t) => {
            let defs = directives::definitions(t);
            ExpandM { out: st.out + all_definitions(defs, defs.len() as int), ..st }
        },
    }
}

pub open spec fn has_module(modules: Seq<(Seq<char>, Seq<char>)>, name: Seq<char>) -> bool {
    exists|i: int| 0 <= i < modules.len() && (#[trigger] modules[i]).0 == name
}

/// The modules with those of the first `n` others that are new.
pub open spec fn joined(
    modules: Seq<(Seq<char>, Seq<char>)>,
    others: Seq<(Seq<char>, Seq<char>)>,
    n: int,
) -> Seq<(Seq<char>, Seq<char>)>
    decreases n,
{
    if n <= 0 || n > others.len() {
        modules
    } else {
        let before = joined(modules, others, n - 1);
        if has_module(before, others[n - 1].0) {
            before
        } else {
            before.push(others[n - 1])
        }
    }
}

/// `import module;`: the module's own text is preprocessed and recorded, with
/// the modules that it loads. The line stays. A module that is being
/// preprocessed cannot be loaded again: that would never end.
#[verifier::opaque]
pub open spec fn load_module(cx: SourceM, line: LineM, st: ExpandM, module: Seq<char>) -> ExpandM
    decreases all_idle(cx.open), 0nat, 0nat,
    when cx.open.len() == cx.files.len()
    via load_module_decreases
{
    let kept = ExpandM { out: st.out + line.text, ..st };
    if has_module(st.modules, module) {
        kept
    } else {
        match file_of(cx.files, module) {
            FileM::Unknown => ExpandM { need: Some(module), ..st },
            FileM::Missing => no_file(cx, line, st, module),
            FileM::Found(i, t) => if !(0 <= i < cx.open.len()) || cx.open[i] {
                failed(
                    cx,
                    line,
                    st,
                    "E006"@,
                    "module `"@ + module + "` is imported while it is being loaded"@,
                )
            } else {
                let inner = SourceM {
                    file: module + ".jo"@,
                    files: cx.files,
                    open: cx.open.update(i, true),
                };
                match preprocess(inner, t) {
                    OutcomeM::Need(m) => ExpandM { need: Some(m), ..st },
                    OutcomeM::Failed(ds) => ExpandM { diags: st.diags + ds, ..st },
                    OutcomeM::Done(source, others) => ExpandM {
                        modules: joined(
                            st.modules.push((module, source)),
                            others,
                            others.len() as int,
                        ),
                        ..kept
                    },
                }
            },
        }
    }
}

#[via_fn]
proof fn load_module_decreases(cx: SourceM, line: LineM, st: ExpandM, module: Seq<char>) {
    match file_of(cx.files, module) {
        FileM::Found(i, t) => {
            if 0 <= i < cx.open.len() && !cx.open[i] {
                idle_decreases(cx.open, i, cx.open.len() as int);
            }
        },
        _ => {},
    }
}

/// The name and the alias in an import whose words are not parted by single
/// spaces, and whether a word stands there that does not belong.
pub open spec fn loose_name(tail: Seq<char>) -> (Seq<char>, Option<Seq<char>>, Option<Seq<char>>) {
    let w = text::words(tail);
    let name = if w.len() > 0 {
        w[0]
    } else {
        Seq::empty()
    };
    if w.len() < 2 {
        (name, None, None)
    } else if w[1] == "as"@ {
        (
            name,
            if w.len() > 2 {
                Some(w[2])
            } else {
                None
            },
            None,
        )
    } else {
        (name, None, Some(w[1]))
    }
}

/// An import declaration: what stands after the word `import`.
#[verifier::opaque]
pub open spec fn handle_import(cx: SourceM, line: LineM, st: ExpandM, rest: Seq<char>) -> ExpandM
    decreases all_idle(cx.open), 1nat, 0nat,
    when cx.open.len() == cx.files.len()
{
    match text::before_suffix(text::trim(rest), ";"@) {
        None => failed(cx, line, st, "E001"@, "import declaration must end with ';'"@),
        Some(body) => {
            let spec_text = text::trim(body);
            match text::split_once(spec_text, "::"@) {
                Some((m, t)) => {
                    let module = text::trim(m);
                    let tail = text::trim(t);
                    if tail == "*"@ {
                        import_glob(cx, line, st, module)
                    } else {
                        match text::split_once(tail, " as "@) {
                            Some((n, a)) => import_named(
                                cx,
                                line,
                                st,
                                module,
                                text::trim(n),
                                Some(text::trim(a)),
                            ),
                            None => {
                                let (name, alias, odd) = loose_name(tail);
                                let st1 = match odd {
                                    Some(w) => failed(
                                        cx,
                                        line,
                                        st,
                                        "E001"@,
                                        "unexpected token `"@ + w + "` in import"@,
                                    ),
                                    None => st,
                                };
                                import_named(cx, line, st1, module, name, alias)
                            },
                        }
                    }
                },
                None => if directives::identifier(spec_text) {
                    load_module(cx, line, st, spec_text)
                } else {
                    failed(cx, line, st, "E001"@, "invalid module name in import"@)
                },
            }
        },
    }
}

/// What stands after the word `import` in a line that starts with it.
pub open spec fn import_rest(line: Seq<char>) -> Option<Seq<char>> {
    let t = text::trim(line);
    match text::after_prefix(t, "import "@) {
        Some(rest) => Some(rest),
        None => if t == "import"@ || text::after_prefix(t, "import\t"@) is Some {
            Some(text::trim(t.skip(6)))
        } else {
            None
        },
    }
}

/// One line: an import is carried out, any other line stays.
#[verifier::opaque]
pub open spec fn expand_line(cx: SourceM, line: LineM, st: ExpandM) -> ExpandM
    decreases all_idle(cx.open), 1nat, 1nat,
    when cx.open.len() == cx.files.len()
{
    let st1 = match import_rest(line.text) {
        Some(rest) => handle_import(cx, line, st, rest),
        None => ExpandM { out: st.out + line.text, ..st },
    };
    ExpandM { out: st1.out.push('\n'), ..st1 }
}

/// The first `n` lines. Reading stops where a module is needed.
#[verifier::opaque]
pub open spec fn expand(cx: SourceM, lines: Seq<Seq<char>>, n: nat) -> ExpandM
    decreases all_idle(cx.open), 2nat, n,
    when cx.open.len() == cx.files.len()
{
    if n == 0 || n > lines.len() {
        ExpandM {
            out: Seq::empty(),
            modules: Seq::empty(),
            diags: Seq::empty(),
            need: None,
        }
    } else {
        let st = expand(cx, lines, (n - 1) as nat);
        if st.need is Some {
            st
        } else {
            expand_line(cx, LineM { no: n, text: lines[n - 1] }, st)
        }
    }
}

/// Preprocesses a text: imports first, then `#define`.
#[verifier::opaque]
pub open spec fn preprocess(cx: SourceM, src: Seq<char>) -> OutcomeM
    decreases all_idle(cx.open), 3nat, 0nat,
    when cx.open.len() == cx.files.len()
{
    let lines = text::lines(src);
    let st = expand(cx, lines, lines.len());
    match st.need {
        Some(m) => OutcomeM::Need(m),
        None => if st.diags.len() > 0 {
            OutcomeM::Failed(st.diags)
        } else {
            let (source, diags) = directives::defined(st.out, cx.file);
            if diags.len() > 0 {
                OutcomeM::Failed(diags)
            } else {
                OutcomeM::Done(source, st.modules)
            }
        },
    }
}

/// How the main file is preprocessed: no module is being loaded.
pub open spec fn main_source(
    file: Seq<char>,
    files: Seq<(Seq<char>, Option<Seq<char>>)>,
) -> SourceM {
    SourceM { file, files, open: Seq::new(files.len(), |i: int| false) }
}

// ---------------------------------------------------------------------------
// Expansion
// ---------------------------------------------------------------------------

pub struct PreprocessOutput {
    /// The fully-expanded source text for the main file.
    pub source: String,
    /// Loaded modules (from `import module;`) with their preprocessed source,
    /// in the order in which they were loaded.
    pub modules: Vec<(String, String)>,
}

pub enum Outcome {
    /// The text of this module file is needed to go on.
    Need(String),
    Failed(Vec<Diagnostic>),
    Done(PreprocessOutput),
}

pub open spec fn files_view(s: Seq<(String, Option<String>)>) -> Seq<
    (Seq<char>, Option<Seq<char>>),
> {
    Seq::new(s.len(), |i: int| (s[i].0@, ast::opt_text_view(s[i].1)))
}

pub open spec fn modules_view(s: Seq<(String, String)>) -> Seq<(Seq<char>, Seq<char>)> {
    Seq::new(s.len(), |i: int| (s[i].0@, s[i].1@))
}

pub open spec fn outcome_view(r: Outcome) -> OutcomeM {
    match r {
        Outcome::Need(m) => OutcomeM::Need(m@),
        Outcome::Failed(ds) => OutcomeM::Failed(error::diags_view(ds@)),
        Outcome::Done(o) => OutcomeM::Done(o.source@, modules_view(o.modules@)),
    }
}

/// What is known while the lines of a text are read.
struct Expansion {
    out: Vec<char>,
    modules: Vec<(String, String)>,
    diags: Vec<Diagnostic>,
    need: Option<String>,
}

impl View for Expansion {
    type V = ExpandM;

    closed spec fn view(&self) -> ExpandM {
        ExpandM {
            out: self.out@,
            modules: modules_view(self.modules@),
            diags: error::diags_view(self.diags@),
            need: ast::opt_text_view(self.need),
        }
    }
}

/// A text that is being preprocessed.
struct Source<'s> {
    file: &'s str,
    files: &'s Vec<(String, Option<String>)>,
    open: &'s Vec<bool>,
}

struct Line<'s> {
    no: usize,
    text: &'s Vec<char>,
}

impl<'s> Line<'s> {
    spec fn model(&self) -> LineM {
        LineM { no: self.no as nat, text: self.text@ }
    }
}

fn contains_module(modules: &Vec<(String, String)>, name: &str) -> (r: bool)
    ensures
        r == has_module(modules_view(modules@), name@),
{
    let mut i: usize = 0;
    while i < modules.len()
        invariant
            i <= modules@.len(),
            forall|k: int| 0 <= k < i ==> (#[trigger] modules_view(modules@)[k]).0 != name@,
        decreases modules@.len() - i,
    {
        if text::text_eq(modules[i].0.as_str(), name) {
            assert(modules_view(modules@)[i as int].0 == name@);
            return true;
        }
        i = i + 1;
    }
    false
}

/// Adds those of the other modules that are new.
fn join_modules(modules: &mut Vec<(String, String)>, others: Vec<(String, String)>)
    ensures
        modules_view(final(modules)@) == joined(
            modules_view(old(modules)@),
            modules_view(others@),
            others@.len() as int,
        ),
{
    let ghost before = modules_view(modules@);
    let ghost all = modules_view(others@);
    let mut i: usize = 0;
    while i < others.len()
        invariant
            i <= others@.len(),
            all == modules_view(others@),
            modules_view(modules@) == joined(before, all, i as int),
        decreases others@.len() - i,
    {
        let ghost now = modules@;
        if !contains_module(modules, others[i].0.as_str()) {
            modules.push((others[i].0.clone(), others[i].1.clone()));
            assert(modules_view(modules@) =~= modules_view(now).push(all[i as int]));
        }
        i = i + 1;
    }
}

impl<'s> Source<'s> {
    spec fn model(&self) -> SourceM {
        SourceM { file: self.file@, files: files_view(self.files@), open: self.open@ }
    }

    spec fn wf(&self) -> bool {
        self.open@.len() == self.files@.len()
    }

    fn error(&self, line: &Line, st: &mut Expansion, code: &str, msg: String)
        ensures
            final(st)@ == failed(self.model(), line.model(), old(st)@, code@, msg@),
    {
        let d = Diagnostic::new(
            code,
            msg,
            self.file.to_owned(),
            line.no,
            1,
            text::all_text(line.text),
        );
        st.diags.push(d);
        assert(error::diags_view(st.diags@) =~= error::diags_view(old(st).diags@).push(d@));
    }

    fn no_file(&self, line: &Line, st: &mut Expansion, module: &str)
        ensures
            final(st)@ == no_file(self.model(), line.model(), old(st)@, module@),
    {
        let msg = text::cat3("module file `", module, ".jo` not found");
        self.error(line, st, "E003", msg);
    }

    /// The place of a module file among those given.
    fn find_file(&self, module: &str) -> (r: Option<usize>)
        ensures
            match r {
                Some(i) => {
                    &&& i < self.files@.len()
                    &&& file_index(files_view(self.files@), module@, 0) == Some(i as int)
                },
                None => file_index(files_view(self.files@), module@, 0) is None,
            },
    {
        let ghost v = files_view(self.files@);
        let mut i: usize = 0;
        while i < self.files.len()
            invariant
                i <= self.files@.len(),
                v == files_view(self.files@),
                file_index(v, module@, 0) == file_index(v, module@, i as int),
            decreases self.files@.len() - i,
        {
            if text::text_eq(self.files[i].0.as_str(), module) {
                return Some(i);
            }
            i = i + 1;
        }
        None
    }

    /// The text of a module file; none after an error, or if it is needed.
    fn get_module(&self, line: &Line, st: &mut Expansion, module: &str) -> (r: Option<
        (usize, Vec<char>),
    >)
        ensures
            match file_of(self.model().files, module@) {
                FileM::Unknown => r is None && final(st)@ == (ExpandM {
                    need: Some(module@),
                    ..old(st)@
                }),
                FileM::Missing => r is None && final(st)@ == no_file(
                    self.model(),
                    line.model(),
                    old(st)@,
                    module@,
                ),
                FileM::Found(i, t) => {
                    &&& match r {
                        Some((k, v)) => k == i && v@ == t,
                        None => false,
                    }
                    &&& final(st)@ == old(st)@
                    &&& 0 <= i < self.files@.len()
                },
            },
    {
        match self.find_file(module) {
            None => {
                st.need = Some(module.to_owned());
                None
            },
            Some(i) => match &self.files[i].1 {
                None => {
                    self.no_file(line, st, module);
                    None
                },
                Some(t) => Some((i, text::to_chars(t.as_str()))),
            },
        }
    }

    fn import_named(
        &self,
        line: &Line,
        st: &mut Expansion,
        module: &str,
        name: &Vec<char>,
        alias: Option<Vec<char>>,
    )
        ensures
            final(st)@ == import_named(
                self.model(),
                line.model(),
                old(st)@,
                module@,
                name@,
                match alias {
                    Some(a) => Some(a@),
                    None => None,
                },
            ),
    {
        proof {
            reveal(import_named);
        }
        let text_of = match self.get_module(line, st, module) {
            Some((_, t)) => t,
            None => {
                return;
            },
        };
        let shown = text::all_text(name);
        let defs = directives::index_top_level_defs(&text_of);
        let ghost v = directives::pairs_view(defs@);
        let mut i: usize = 0;
        while i < defs.len()
            invariant
                i <= defs@.len(),
                v == directives::pairs_view(defs@),
                v == directives::definitions(text_of@),
                shown@ == name@,
                st@ == old(st)@,
                find_definition(v, name@, 0) == find_definition(v, name@, i as int),
                match file_of(self.model().files, module@) {
                    FileM::Found(_, t) => t == text_of@,
                    _ => false,
                },
            decreases defs@.len() - i,
        {
            if text::chars_eq(&defs[i].0, shown.as_str()) {
                proof {
                    reveal(import_named);
                }
                match alias {
                    Some(a) => {
                        let renamed = directives::rename_definition(&defs[i].1, name, &a);
                        text::push_chars(&mut st.out, &renamed);
                    },
                    None => {
                        text::push_chars(&mut st.out, &defs[i].1);
                    },
                }
                return;
            }
            i = i + 1;
        }
        let msg = text::cat5(
            "item `",
            shown.as_str(),
            "` not found in module `",
            module,
            "`",
        );
        self.error(line, st, "E002", msg);
    }

    fn import_glob(&self, line: &Line, st: &mut Expansion, module: &str)
        ensures
            final(st)@ == import_glob(self.model(), line.model(), old(st)@, module@),
    {
        proof {
            reveal(import_glob);
        }
        let text_of = match self.get_module(line, st, module) {
            Some((_, t)) => t,
            None => {
                return;
            },
        };
        let defs = directives::index_top_level_defs(&text_of);
        let ghost v = directives::pairs_view(defs@);
        let gap = text::to_chars("\n\n");
        let mut pasted: Vec<char> = Vec::new();
        let mut i: usize = 0;
        assert(pasted@ =~= all_definitions(v, 0));
        while i < defs.len()
            invariant
                i <= defs@.len(),
                v == directives::pairs_view(defs@),
                gap@ == "\n\n"@,
                pasted@ == all_definitions(v, i as int),
            decreases defs@.len() - i,
        {
            text::push_chars(&mut pasted, &defs[i].1);
            text::push_chars(&mut pasted, &gap);
            i = i + 1;
        }
        text::push_chars(&mut st.out, &pasted);
    }

    /// Record `import module;`: load and preprocess the module's own source so
    /// the type checker can resolve qualified `module::name` references.
    fn load_module_source(&self, line: &Line, st: &mut Expansion, module: &str)
        requires
            self.wf(),
        ensures
            final(st)@ == load_module(self.model(), line.model(), old(st)@, module@),
        decreases all_idle(self.open@), 0nat, 0nat,
    {
        proof {
            reveal(load_module);
            reveal(preprocess);
        }
        if contains_module(&st.modules, module) {
            text::push_chars(&mut st.out, line.text);
            return;
        }
        let (i, t) = match self.get_module(line, st, module) {
            Some(pair) => pair,
            None => {
                return;
            },
        };
        if self.open[i] {
            let msg = text::cat3(
                "module `",
                module,
                "` is imported while it is being loaded",
            );
            self.error(line, st, "E006", msg);
            return;
        }
        let mut open: Vec<bool> = Vec::new();
        let mut k: usize = 0;
        while k < self.open.len()
            invariant
                k == open@.len(),
                k <= self.open@.len(),
                forall|j: int| 0 <= j < k ==> #[trigger] open@[j] == (self.open@[j] || j == i),
            decreases self.open@.len() - k,
        {
            open.push(self.open[k] || k == i);
            k = k + 1;
        }
        proof {
            assert(open@ =~= self.open@.update(i as int, true));
            idle_decreases(self.open@, i as int, self.open@.len() as int);
        }
        // A module's own source may itself import / #define. Diagnostics are
        // surfaced with the module's name.
        let file = text::cat2(module, ".jo");
        let inner = Source { file: file.as_str(), files: self.files, open: &open };
        match inner.preprocess(&t) {
            Outcome::Need(m) => {
                st.need = Some(m);
            },
            Outcome::Failed(ds) => {
                let mut ds = ds;
                let ghost a = st.diags@;
                let ghost b = ds@;
                st.diags.append(&mut ds);
                assert(error::diags_view(st.diags@) =~= error::diags_view(a)
                    + error::diags_view(b));
            },
            Outcome::Done(o) => {
                let ghost before = st.modules@;
                let ghost next = (module@, o.source@);
                text::push_chars(&mut st.out, line.text);
                st.modules.push((module.to_owned(), o.source));
                assert(modules_view(st.modules@) =~= modules_view(before).push(next));
                // Pull in any transitively-loaded modules.
                join_modules(&mut st.modules, o.modules);
            },
        }
    }

    fn handle_import(&self, line: &Line, st: &mut Expansion, rest: &Vec<char>)
        requires
            self.wf(),
        ensures
            final(st)@ == handle_import(self.model(), line.model(), old(st)@, rest@),
        decreases all_idle(self.open@), 1nat, 0nat,
    {
        proof {
            reveal(handle_import);
            reveal(load_module);
        }
        // Strip trailing ';'
        let body = match text::strip_tail(&text::trimmed(rest), ";") {
            Some(b) => text::trimmed(&b),
            None => {
                self.error(
                    line,
                    st,
                    "E001",
                    "import declaration must end with ';'".to_owned(),
                );
                return;
            },
        };
        // Forms:
        //   module::name
        //   module::name as alias
        //   module::*
        //   module
        match text::split_text(&body, "::") {
            Some((m, t)) => {
                let module = text::all_text(&text::trimmed(&m));
                let tail = text::trimmed(&t);
                if text::chars_eq(&tail, "*") {
                    self.import_glob(line, st, module.as_str());
                    return;
                }
                match text::split_text(&tail, " as ") {
                    Some((n, a)) => {
                        let name = text::trimmed(&n);
                        let alias = text::trimmed(&a);
                        self.import_named(line, st, module.as_str(), &name, Some(alias));
                    },
                    None => {
                        self.import_loose(line, st, module.as_str(), &tail);
                    },
                }
            },
            None => {
                // Module import: record it, paste nothing.
                if directives::is_ident(&body) {
                    let module = text::all_text(&body);
                    self.load_module_source(line, st, module.as_str());
                } else {
                    self.error(
                        line,
                        st,
                        "E001",
                        "invalid module name in import".to_owned(),
                    );
                }
            },
        }
    }

    /// "name" or "name as alias" with odd spacing.
    fn import_loose(&self, line: &Line, st: &mut Expansion, module: &str, tail: &Vec<char>)
        ensures
            ({
                let (name, alias, odd) = loose_name(tail@);
                let st1 = match odd {
                    Some(w) => failed(
                        self.model(),
                        line.model(),
                        old(st)@,
                        "E001"@,
                        "unexpected token `"@ + w + "` in import"@,
                    ),
                    None => old(st)@,
                };
                final(st)@ == import_named(
                    self.model(),
                    line.model(),
                    st1,
                    module@,
                    name,
                    alias,
                )
            }),
    {
        let words = text::split_words(tail);
        let ghost w = text::words(tail@);
        assert(w == text::texts(words@));
        assert(w.len() == words@.len());
        let name = if words.len() > 0 {
            text::slice_all(&words[0])
        } else {
            Vec::new()
        };
        assert(words@.len() == 0 ==> name@ =~= Seq::<char>::empty());
        let mut alias: Option<Vec<char>> = None;
        if words.len() > 1 {
            if text::chars_eq(&words[1], "as") {
                if words.len() > 2 {
                    alias = Some(text::slice_all(&words[2]));
                }
            } else {
                let msg = text::cat3(
                    "unexpected token `",
                    text::all_text(&words[1]).as_str(),
                    "` in import",
                );
                self.error(line, st, "E001", msg);
            }
        }
        self.import_named(line, st, module, &name, alias);
    }

    fn expand_line(&self, line: &Line, st: &mut Expansion)
        requires
            self.wf(),
        ensures
            final(st)@ == expand_line(self.model(), line.model(), old(st)@),
        decreases all_idle(self.open@), 1nat, 1nat,
    {
        proof {
            reveal(expand_line);
            reveal(handle_import);
        }
        match rest_of_import(line.text) {
            Some(rest) => {
                self.handle_import(line, st, &rest);
            },
            None => {
                text::push_chars(&mut st.out, line.text);
            },
        }
        st.out.push('\n');
    }

    /// Expand all `import` lines of the text.
    fn expand(&self, lines: &Vec<Vec<char>>) -> (r: Expansion)
        requires
            self.wf(),
        ensures
            r@ == expand(self.model(), text::texts(lines@), lines@.len()),
        decreases all_idle(self.open@), 2nat, lines@.len(),
    {
        let ghost v = text::texts(lines@);
        let mut st = Expansion {
            out: Vec::new(),
            modules: Vec::new(),
            diags: Vec::new(),
            need: None,
        };
        proof {
            reveal(expand);
            assert(st.out@ =~= Seq::empty());
            assert(modules_view(st.modules@) =~= Seq::empty());
            assert(error::diags_view(st.diags@) =~= Seq::empty());
        }
        let mut i: usize = 0;
        while i < lines.len()
            invariant
                self.wf(),
                i <= lines.len(),
                v == text::texts(lines@),
                st@ == expand(self.model(), v, i as nat),
            decreases lines@.len() - i,
        {
            proof {
                reveal(expand);
                reveal(expand_line);
            }
            if st.need.is_none() {
                let line = Line { no: i + 1, text: &lines[i] };
                self.expand_line(&line, &mut st);
            }
            i = i + 1;
        }
        st
    }

    fn preprocess(&self, src: &Vec<char>) -> (r: Outcome)
        requires
            self.wf(),
        ensures
            outcome_view(r) == preprocess(self.model(), src@),
        decreases all_idle(self.open@), 3nat, 0nat,
    {
        proof {
            reveal(preprocess);
            reveal(expand);
        }
        let lines = text::split_lines(src);
        assert(text::texts(lines@).len() == lines@.len());
        let st = self.expand(&lines);
        if let Some(m) = st.need {
            return Outcome::Need(m);
        }
        assert(error::diags_view(st.diags@).len() == st.diags@.len());
        if st.diags.len() > 0 {
            return Outcome::Failed(st.diags);
        }
        // Apply #define substitutions on the expanded text.
        match directives::apply_defines(&st.out, self.file) {
            Ok(t) => Outcome::Done(
                PreprocessOutput { source: text::all_text(&t), modules: st.modules },
            ),
            Err(ds) => {
                assert(error::diags_view(ds@).len() == ds@.len());
                Outcome::Failed(ds)
            },
        }
    }
}

fn rest_of_import(line: &Vec<char>) -> (r: Option<Vec<char>>)
    ensures
        match r {
            Some(t) => import_rest(line@) == Some(t@),
            None => import_rest(line@) is None,
        },
{
    let t = text::trimmed(line);
    if let Some(rest) = text::strip_head(&t, "import ") {
        return Some(rest);
    }
    // `import` with non-space whitespace.
    if text::chars_eq(&t, "import") || text::strip_head(&t, "import\t").is_some() {
        proof {
            reveal_strlit("import");
            reveal_strlit("import\t");
        }
        let rest = text::slice_chars(&t, 6, t.len());
        assert(rest@ =~= t@.skip(6));
        return Some(text::trimmed(&rest));
    }
    None
}

// ---------------------------------------------------------------------------
// The preprocessor
// ---------------------------------------------------------------------------

/// The preprocessor, with the module files that it was given.
pub struct Preprocessor {
    files: Vec<(String, Option<String>)>,
}

impl Preprocessor {
    /// The module files given so far, in order; those without a text do not
    /// exist.
    pub closed spec fn files(&self) -> Seq<(Seq<char>, Option<Seq<char>>)> {
        files_view(self.files@)
    }

    pub fn new() -> (r: Preprocessor)
        ensures
            r.files() == Seq::<(Seq<char>, Option<Seq<char>>)>::empty(),
    {
        let files: Vec<(String, Option<String>)> = Vec::new();
        assert(files_view(files@) =~= Seq::empty());
        Preprocessor { files }
    }

    /// Gives the text of a module file, or that there is no such file.
    pub fn provide(&mut self, module: &str, contents: Option<String>)
        ensures
            final(self).files() == old(self).files().push(
                (module@, ast::opt_text_view(contents)),
            ),
    {
        let ghost before = self.files@;
        let ghost next = (module@, ast::opt_text_view(contents));
        self.files.push((module.to_owned(), contents));
        assert(files_view(self.files@) =~= files_view(before).push(next));
    }

    /// Preprocesses `src`, the raw text of `file`, with the module files given
    /// so far.
    pub fn run(&self, src: &str, file: &str) -> (r: Outcome)
        ensures
            outcome_view(r) == preprocess(main_source(file@, self.files()), src@),
    {
        let mut open: Vec<bool> = Vec::new();
        let mut i: usize = 0;
        while i < self.files.len()
            invariant
                i == open@.len(),
                i <= self.files@.len(),
                forall|k: int| 0 <= k < i ==> !#[trigger] open@[k],
            decreases self.files@.len() - i,
        {
            open.push(false);
            i = i + 1;
        }
        let source = Source { file, files: &self.files, open: &open };
        assert(source.model().open =~= main_source(file@, self.files()).open);
        source.preprocess(&text::to_chars(src))
    }
}

// ---------------------------------------------------------------------------
// What holds of every run
// ---------------------------------------------------------------------------

/// A state whose needed module is one that was not given, and whose diagnostics
/// have codes of the preprocessor.
spec fn sound(cx: SourceM, st: ExpandM) -> bool {
    &&& st.need is Some ==> file_of(cx.files, st.need->0) is Unknown
    &&& error::codes_in(st.diags, '0')
}

proof fn preprocessor_codes()
    ensures
        error::code_in("E001"@, '0'),
        error::code_in("E002"@, '0'),
        error::code_in("E003"@, '0'),
        error::code_in("E004"@, '0'),
        error::code_in("E005"@, '0'),
        error::code_in("E006"@, '0'),
{
    reveal_strlit("E001");
    reveal_strlit("E002");
    reveal_strlit("E003");
    reveal_strlit("E004");
    reveal_strlit("E005");
    reveal_strlit("E006");
}

proof fn define_codes(s: Seq<char>, file: Seq<char>, i: int, acc: directives::DefinesM)
    requires
        0 <= i,
        error::codes_in(acc.diags, '0'),
    ensures
        error::codes_in(directives::read_defines(s, file, i, acc).diags, '0'),
    decreases s.len() - i,
{
    reveal(directives::read_defines);
    preprocessor_codes();
    if i < s.len() {
        if directives::is_define(s, i) {
            directives::define_at_spec(s, i);
            match directives::define_at(s, i) {
                directives::DefineM::Nameless => {
                    let d = directives::define_diag(
                        s,
                        i,
                        file,
                        "E004"@,
                        "expected name after `#define`"@,
                    );
                    define_codes(
                        s,
                        file,
                        i + 1,
                        directives::DefinesM { diags: acc.diags.push(d), ..acc },
                    );
                },
                directives::DefineM::Unterminated(_) => {},
                directives::DefineM::Done(name, value, end) => {
                    define_codes(
                        s,
                        file,
                        end,
                        directives::with_define(acc, name, value),
                    );
                },
            }
        } else {
            define_codes(
                s,
                file,
                i + 1,
                directives::DefinesM { out: acc.out.push(s[i]), ..acc },
            );
        }
    }
}

proof fn load_module_sound(cx: SourceM, line: LineM, st: ExpandM, module: Seq<char>)
    requires
        cx.open.len() == cx.files.len(),
        sound(cx, st),
    ensures
        sound(cx, load_module(cx, line, st, module)),
    decreases all_idle(cx.open), 0nat, 0nat,
{
    reveal(load_module);
    reveal(preprocess);
    preprocessor_codes();
    match file_of(cx.files, module) {
        FileM::Found(i, t) => {
            if 0 <= i < cx.open.len() && !cx.open[i] {
                idle_decreases(cx.open, i, cx.open.len() as int);
                let inner = SourceM {
                    file: module + ".jo"@,
                    files: cx.files,
                    open: cx.open.update(i, true),
                };
                preprocess_sound(inner, t);
            }
        },
        _ => {},
    }
}

proof fn expand_line_sound(cx: SourceM, line: LineM, st: ExpandM)
    requires
        cx.open.len() == cx.files.len(),
        sound(cx, st),
    ensures
        sound(cx, expand_line(cx, line, st)),
    decreases all_idle(cx.open), 1nat, 0nat,
{
    reveal(expand_line);
    reveal(handle_import);
    reveal(load_module);
    reveal(import_named);
    reveal(import_glob);
    preprocessor_codes();
    match import_rest(line.text) {
        Some(rest) => {
            let after = handle_import(cx, line, st, rest);
            match text::before_suffix(text::trim(rest), ";"@) {
                Some(body) => {
                    load_module_sound(cx, line, st, text::trim(body));
                },
                None => {},
            }
            assert(sound(cx, after));
        },
        None => {},
    }
}

proof fn expand_sound(cx: SourceM, lines: Seq<Seq<char>>, n: nat)
    requires
        cx.open.len() == cx.files.len(),
    ensures
        sound(cx, expand(cx, lines, n)),
    decreases all_idle(cx.open), 2nat, n,
{
    reveal(expand);
    reveal(expand_line);
    if 0 < n <= lines.len() {
        expand_sound(cx, lines, (n - 1) as nat);
        let st = expand(cx, lines, (n - 1) as nat);
        expand_line_sound(cx, LineM { no: n, text: lines[n - 1] }, st);
    }
}

/// A module that is asked for was not given before, so that giving each module
/// that is asked for comes to an end. Every diagnostic of the preprocessor has a
/// code that starts with `E0`.
pub proof fn preprocess_sound(cx: SourceM, src: Seq<char>)
    requires
        cx.open.len() == cx.files.len(),
    ensures
        match preprocess(cx, src) {
            OutcomeM::Need(m) => file_of(cx.files, m) is Unknown,
            OutcomeM::Failed(ds) => ds.len() > 0 && error::codes_in(ds, '0'),
            OutcomeM::Done(_, _) => true,
        },
    decreases all_idle(cx.open), 3nat, 0nat,
{
    reveal(preprocess);
    reveal(expand);
    let lines = text::lines(src);
    expand_sound(cx, lines, lines.len());
    let st = expand(cx, lines, lines.len());
    define_codes(
        st.out,
        cx.file,
        0,
        directives::no_defines(),
    );
}

/// Whether no two modules have one name.
pub open spec fn names_differ(modules: Seq<(Seq<char>, Seq<char>)>) -> bool {
    forall|i: int, j: int|
        0 <= i < j < modules.len() ==> (#[trigger] modules[i]).0 != (#[trigger] modules[j]).0
}

proof fn joined_differ(
    modules: Seq<(Seq<char>, Seq<char>)>,
    others: Seq<(Seq<char>, Seq<char>)>,
    n: int,
)
    requires
        names_differ(modules),
    ensures
        names_differ(joined(modules, others, n)),
    decreases n,
{
    if 0 < n <= others.len() {
        joined_differ(modules, others, n - 1);
    }
}

proof fn load_module_differ(cx: SourceM, line: LineM, st: ExpandM, module: Seq<char>)
    requires
        cx.open.len() == cx.files.len(),
        names_differ(st.modules),
    ensures
        names_differ(load_module(cx, line, st, module).modules),
{
    reveal(load_module);
    reveal(preprocess);
    if !has_module(st.modules, module) {
        if let FileM::Found(i, t) = file_of(cx.files, module) {
            let inner = SourceM {
                file: module + ".jo"@,
                files: cx.files,
                open: cx.open.update(i, true),
            };
            if let OutcomeM::Done(source, others) = preprocess(inner, t) {
                let more = st.modules.push((module, source));
                assert(names_differ(more));
                joined_differ(more, others, others.len() as int);
            }
        }
    }
}

proof fn expand_line_differ(cx: SourceM, line: LineM, st: ExpandM)
    requires
        cx.open.len() == cx.files.len(),
        names_differ(st.modules),
    ensures
        names_differ(expand_line(cx, line, st).modules),
{
    reveal(expand_line);
    reveal(handle_import);
    reveal(load_module);
    reveal(import_named);
    reveal(import_glob);
    if let Some(rest) = import_rest(line.text) {
        let after = handle_import(cx, line, st, rest);
        if let Some(body) = text::before_suffix(text::trim(rest), ";"@) {
            load_module_differ(cx, line, st, text::trim(body));
        }
        assert(names_differ(after.modules));
    }
}

proof fn expand_differ(cx: SourceM, lines: Seq<Seq<char>>, n: nat)
    requires
        cx.open.len() == cx.files.len(),
    ensures
        names_differ(expand(cx, lines, n).modules),
    decreases n,
{
    reveal(expand);
    reveal(expand_line);
    if 0 < n <= lines.len() {
        expand_differ(cx, lines, (n - 1) as nat);
        let st = expand(cx, lines, (n - 1) as nat);
        expand_line_differ(cx, LineM { no: n, text: lines[n - 1] }, st);
    }
}

/// No module is recorded twice.
pub proof fn modules_are_recorded_once(cx: SourceM, src: Seq<char>)
    requires
        cx.open.len() == cx.files.len(),
    ensures
        preprocess(cx, src) matches OutcomeM::Done(_, modules) ==> names_differ(modules),
{
    reveal(preprocess);
    reveal(expand);
    let lines = text::lines(src);
    expand_differ(cx, lines, lines.len());
}

/// The first `n` lines, each with a line feed.
pub open spec fn with_line_feeds(lines: Seq<Seq<char>>, n: int) -> Seq<char>
    decreases n,
{
    if n <= 0 || n > lines.len() {
        Seq::empty()
    } else {
        (with_line_feeds(lines, n - 1) + lines[n - 1]).push('\n')
    }
}

proof fn plain_expand(cx: SourceM, lines: Seq<Seq<char>>, n: nat)
    requires
        cx.open.len() == cx.files.len(),
        n <= lines.len(),
        forall|i: int| 0 <= i < lines.len() ==> import_rest(#[trigger] lines[i]) is None,
    ensures
        expand(cx, lines, n) == (ExpandM {
            out: with_line_feeds(lines, n as int),
            modules: Seq::empty(),
            diags: Seq::empty(),
            need: None,
        }),
    decreases n,
{
    reveal(expand);
    reveal(expand_line);
    if n > 0 {
        plain_expand(cx, lines, (n - 1) as nat);
        let st = expand(cx, lines, (n - 1) as nat);
        let line = LineM { no: n, text: lines[n - 1] };
        assert(import_rest(lines[n - 1]) is None);
        assert(expand_line(cx, line, st).out == (st.out + lines[n - 1]).push('\n'));
    }
}

proof fn plain_defines(s: Seq<char>, file: Seq<char>, i: int, acc: directives::DefinesM)
    requires
        0 <= i <= s.len(),
        forall|k: int| 0 <= k < s.len() ==> #[trigger] s[k] != '#',
    ensures
        directives::read_defines(s, file, i, acc) == (directives::DefinesM {
            out: acc.out + s.skip(i),
            ..acc
        }),
    decreases s.len() - i,
{
    reveal(directives::read_defines);
    if i < s.len() {
        let next = directives::DefinesM { out: acc.out.push(s[i]), ..acc };
        plain_defines(s, file, i + 1, next);
        assert(next.out + s.skip(i + 1) =~= acc.out + s.skip(i));
    } else {
        assert(acc.out + s.skip(i) =~= acc.out);
    }
}

/// A text without imports and without `#` keeps its lines; each of them then
/// ends with a line feed.
pub proof fn plain_text_is_kept(cx: SourceM, src: Seq<char>)
    requires
        cx.open.len() == cx.files.len(),
        forall|i: int|
            0 <= i < text::lines(src).len() ==> import_rest(#[trigger] text::lines(src)[i]) is None,
        ({
            let out = with_line_feeds(text::lines(src), text::lines(src).len() as int);
            forall|k: int| 0 <= k < out.len() ==> #[trigger] out[k] != '#'
        }),
    ensures
        preprocess(cx, src) == OutcomeM::Done(
            with_line_feeds(text::lines(src), text::lines(src).len() as int),
            Seq::empty(),
        ),
{
    reveal(preprocess);
    reveal(expand);
    let lines = text::lines(src);
    let out = with_line_feeds(lines, lines.len() as int);
    plain_expand(cx, lines, lines.len());
    let start = directives::no_defines();
    plain_defines(out, cx.file, 0, start);
    assert(start.out + out.skip(0) =~= out);
    assert(start.done + out =~= out);
}

} // verus!
