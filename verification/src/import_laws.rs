//! What preprocessing makes of a text: what stands for an import, which text is
//! recorded for a module, and what is left of the directives.

use vstd::prelude::*;

use crate::directive_laws;
use crate::directives;
use crate::preprocessor;
use crate::preprocessor::{ExpandM, FileM, LineM, OutcomeM, SourceM};
use crate::text;
use crate::text::Class;
use crate::text_laws;

verus! {

// ---------------------------------------------------------------------------
// Import lines
// ---------------------------------------------------------------------------

/// Whether the text is a name: it starts as an identifier does and goes on so.
pub open spec fn is_name(s: Seq<char>) -> bool {
    &&& s.len() > 0
    &&& text::ident_start(s[0])
    &&& forall|i: int| 0 <= i < s.len() ==> text::ident_char(#[trigger] s[i])
}

proof fn name_is_plain(s: Seq<char>)
    requires
        is_name(s),
    ensures
        directives::identifier(s),
        text_laws::tight(s),
        text_laws::is_word(s),
        s != "*"@,
        forall|k: int| !#[trigger] text::occurs_at(s, "::"@, k),
        forall|k: int| !#[trigger] text::occurs_at(s, " as "@, k),
{
    reveal_strlit("*");
    reveal_strlit("::");
    reveal_strlit(" as ");
    assert forall|j: int| 1 <= j < s.len() implies text::in_class(
        #[trigger] s[j],
        Class::Ident,
    ) by {}
    text::run_end_at(s, 1, s.len() as int, Class::Ident);
    assert(text::ident_char(s[0]) && text::ident_char(s[s.len() - 1]));
    assert forall|k: int| !#[trigger] text::occurs_at(s, "::"@, k) by {
        if text::occurs_at(s, "::"@, k) {
            assert(s.subrange(k, k + 2)[0] == s[k]);
            assert("::"@[0] == ':');
            assert(text::ident_char(s[k]));
        }
    }
    assert forall|k: int| !#[trigger] text::occurs_at(s, " as "@, k) by {
        if text::occurs_at(s, " as "@, k) {
            assert(s.subrange(k, k + 4)[0] == s[k]);
            assert(" as "@[0] == ' ');
            assert(text::ident_char(s[k]));
        }
    }
}

/// The line `import body;`, with white space where it may stand.
pub open spec fn import_line(
    a: Seq<char>,
    b: Seq<char>,
    body: Seq<char>,
    c: Seq<char>,
    d: Seq<char>,
) -> Seq<char> {
    a + ("import "@ + (b + body + c + ";"@)) + d
}

/// Whether the white space of an import line is white space.
pub open spec fn spaced(a: Seq<char>, b: Seq<char>, c: Seq<char>, d: Seq<char>) -> bool {
    &&& text_laws::all_white(a)
    &&& text_laws::all_white(b)
    &&& text_laws::all_white(c)
    &&& text_laws::all_white(d)
}

proof fn import_word(a: Seq<char>, rest: Seq<char>, d: Seq<char>)
    requires
        text_laws::all_white(a),
        text_laws::all_white(d),
        rest.len() > 0,
        !text::is_white(rest[rest.len() - 1]),
    ensures
        preprocessor::import_rest(a + ("import "@ + rest) + d) == Some(rest),
{
    let middle = "import "@ + rest;
    assert(text_laws::tight(middle)) by {
        reveal_strlit("import ");
        assert(middle[0] == 'i');
        assert(middle[middle.len() - 1] == rest[rest.len() - 1]);
    }
    text_laws::trimming_takes_white_ends(a, middle, d);
    text_laws::prefix_and_suffix_leave_the_rest(rest, "import "@);
}

proof fn import_end(b: Seq<char>, body: Seq<char>, c: Seq<char>)
    requires
        text_laws::all_white(b),
        text_laws::all_white(c),
        text_laws::tight(body),
        body.len() > 0,
    ensures
        text::before_suffix(text::trim(b + body + c + ";"@), ";"@) == Some(body + c),
        text::trim(body + c) == body,
        (b + body + c + ";"@).len() > 0,
        !text::is_white((b + body + c + ";"@)[(b + body + c + ";"@).len() - 1]),
{
    let e = Seq::<char>::empty();
    let rest = b + body + c + ";"@;
    let inner = body + c + ";"@;
    assert(text_laws::tight(inner) && rest.len() > 0 && rest[rest.len() - 1] == ';') by {
        reveal_strlit(";");
        assert(inner[0] == body[0]);
        assert(inner[inner.len() - 1] == ';');
        assert(rest[rest.len() - 1] == ';');
    }
    assert(rest =~= b + inner + e);
    text_laws::trimming_takes_white_ends(b, inner, e);
    text_laws::prefix_and_suffix_leave_the_rest(body + c, ";"@);
    text_laws::trimming_takes_white_ends(e, body, c);
    assert(e + body + c =~= body + c);
}

proof fn import_body(a: Seq<char>, b: Seq<char>, body: Seq<char>, c: Seq<char>, d: Seq<char>)
    requires
        spaced(a, b, c, d),
        text_laws::tight(body),
        body.len() > 0,
    ensures
        ({
            let rest = b + body + c + ";"@;
            &&& preprocessor::import_rest(import_line(a, b, body, c, d)) == Some(rest)
            &&& text::before_suffix(text::trim(rest), ";"@) == Some(body + c)
            &&& text::trim(body + c) == body
        }),
{
    import_end(b, body, c);
    import_word(a, b + body + c + ";"@, d);
}

proof fn qualified_body(m: Seq<char>, tail: Seq<char>)
    requires
        is_name(m),
        tail.len() > 0,
        text_laws::tight(tail),
    ensures
        text_laws::tight(m + "::"@ + tail),
        text::split_once(m + "::"@ + tail, "::"@) == Some((m, tail)),
        text::trim(m) == m,
        text::trim(tail) == tail,
{
    reveal_strlit("::");
    let s = m + "::"@ + tail;
    name_is_plain(m);
    assert(s[0] == m[0]);
    assert(s[s.len() - 1] == tail[tail.len() - 1]);
    assert forall|k: int| 0 <= k < m.len() implies !#[trigger] text::occurs_at(s, "::"@, k) by {
        if text::occurs_at(s, "::"@, k) {
            assert(s.subrange(k, k + 2)[0] == m[k]);
            assert("::"@[0] == ':');
            assert(text::ident_char(m[k]));
        }
    }
    text_laws::splitting_parts_at_the_first(m, "::"@, tail);
    let e = Seq::<char>::empty();
    text_laws::trimming_takes_white_ends(e, m, e);
    assert(e + m + e =~= m);
    text_laws::trimming_takes_white_ends(e, tail, e);
    assert(e + tail + e =~= tail);
}

/// `import m::n;` is replaced by the definition of `n` in the file of `m`, the
/// first of that name.
pub proof fn named_import_is_replaced(
    cx: SourceM,
    st: ExpandM,
    no: nat,
    a: Seq<char>,
    b: Seq<char>,
    c: Seq<char>,
    d: Seq<char>,
    m: Seq<char>,
    n: Seq<char>,
    t: Seq<char>,
    k: int,
)
    requires
        cx.open.len() == cx.files.len(),
        spaced(a, b, c, d),
        is_name(m),
        is_name(n),
        preprocessor::file_of(cx.files, m) matches FileM::Found(_, s) && s == t,
        first_pair(directives::definitions(t), n, k),
    ensures
        preprocessor::expand_line(
            cx,
            LineM { no, text: import_line(a, b, m + "::"@ + n, c, d) },
            st,
        ) == (ExpandM { out: (st.out + directives::definitions(t)[k].1).push('\n'), ..st }),
{
    reveal(preprocessor::expand_line);
    reveal(preprocessor::handle_import);
    reveal(preprocessor::load_module);
    reveal(preprocessor::import_named);
    name_is_plain(n);
    qualified_body(m, n);
    import_body(a, b, m + "::"@ + n, c, d);
    text_laws::splitting_needs_the_part(n, " as "@);
    let e = Seq::<char>::empty();
    text_laws::words_are_parted_by_white_space(e, n, e);
    assert(e + n + e =~= n);
    assert(seq![n] + text::words(e) =~= seq![n]);
    definition_found(directives::definitions(t), n, 0, k);
}

proof fn alias_tail(n: Seq<char>, r: Seq<char>)
    requires
        is_name(n),
        is_name(r),
    ensures
        ({
            let tail = n + " as "@ + r;
            &&& tail.len() > 0 && text_laws::tight(tail) && tail != "*"@
            &&& text::split_once(tail, " as "@) == Some((n, r))
            &&& text::trim(n) == n
            &&& text::trim(r) == r
        }),
{
    reveal_strlit(" as ");
    reveal_strlit("*");
    name_is_plain(n);
    name_is_plain(r);
    let tail = n + " as "@ + r;
    assert(tail[0] == n[0]);
    assert(tail[tail.len() - 1] == r[r.len() - 1]);
    assert forall|k: int| 0 <= k < n.len() implies !#[trigger] text::occurs_at(
        tail,
        " as "@,
        k,
    ) by {
        if text::occurs_at(tail, " as "@, k) {
            assert(tail.subrange(k, k + 4)[0] == n[k]);
            assert(" as "@[0] == ' ');
            assert(text::ident_char(n[k]));
        }
    }
    text_laws::splitting_parts_at_the_first(n, " as "@, r);
    let e = Seq::<char>::empty();
    text_laws::trimming_takes_white_ends(e, n, e);
    assert(e + n + e =~= n);
    text_laws::trimming_takes_white_ends(e, r, e);
    assert(e + r + e =~= r);
}

/// `import m::n as r;` is replaced by that definition under the new name.
pub proof fn alias_import_is_replaced(
    cx: SourceM,
    st: ExpandM,
    no: nat,
    a: Seq<char>,
    b: Seq<char>,
    c: Seq<char>,
    d: Seq<char>,
    m: Seq<char>,
    n: Seq<char>,
    r: Seq<char>,
    t: Seq<char>,
    k: int,
)
    requires
        cx.open.len() == cx.files.len(),
        spaced(a, b, c, d),
        is_name(m),
        is_name(n),
        is_name(r),
        preprocessor::file_of(cx.files, m) matches FileM::Found(_, s) && s == t,
        first_pair(directives::definitions(t), n, k),
    ensures
        preprocessor::expand_line(
            cx,
            LineM { no, text: import_line(a, b, m + "::"@ + (n + " as "@ + r), c, d) },
            st,
        ) == (ExpandM {
            out: (st.out + directives::renamed(directives::definitions(t)[k].1, n, r)).push('\n'),
            ..st
        }),
{
    reveal(preprocessor::expand_line);
    reveal(preprocessor::handle_import);
    reveal(preprocessor::load_module);
    reveal(preprocessor::import_named);
    let tail = n + " as "@ + r;
    alias_tail(n, r);
    qualified_body(m, tail);
    import_body(a, b, m + "::"@ + tail, c, d);
    definition_found(directives::definitions(t), n, 0, k);
}

/// Whether `k` is the first place of the name among the definitions.
pub open spec fn first_pair(defs: Seq<(Seq<char>, Seq<char>)>, name: Seq<char>, k: int) -> bool {
    &&& 0 <= k < defs.len()
    &&& defs[k].0 == name
    &&& forall|j: int| 0 <= j < k ==> (#[trigger] defs[j]).0 != name
}

proof fn definition_found(defs: Seq<(Seq<char>, Seq<char>)>, name: Seq<char>, i: int, k: int)
    requires
        0 <= i <= k,
        first_pair(defs, name, k),
    ensures
        preprocessor::find_definition(defs, name, i) == Some(defs[k].1),
    decreases k - i,
{
    if i < k {
        assert(defs[i].0 != name);
        definition_found(defs, name, i + 1, k);
    }
}

/// The texts, one after the other, each with a blank line behind it.
pub open spec fn spread(defs: Seq<(Seq<char>, Seq<char>)>) -> Seq<char>
    decreases defs.len(),
{
    if defs.len() == 0 {
        Seq::empty()
    } else {
        defs[0].1 + "\n\n"@ + spread(defs.skip(1))
    }
}

proof fn all_are_spread(defs: Seq<(Seq<char>, Seq<char>)>, n: int)
    requires
        0 <= n <= defs.len(),
    ensures
        preprocessor::all_definitions(defs, n) + spread(defs.skip(n)) == spread(defs),
    decreases n,
{
    if n == 0 {
        assert(defs.skip(0) =~= defs);
        assert(Seq::<char>::empty() + spread(defs) =~= spread(defs));
    } else {
        all_are_spread(defs, n - 1);
        let rest = defs.skip(n - 1);
        assert(rest.skip(1) =~= defs.skip(n));
        assert(rest[0] == defs[n - 1]);
        let before = preprocessor::all_definitions(defs, n - 1);
        assert(before + (rest[0].1 + "\n\n"@ + spread(rest.skip(1))) =~= before + defs[n - 1].1
            + "\n\n"@ + spread(defs.skip(n)));
    }
}

/// `import m::*;` is replaced by all the definitions in the file of `m`, in order,
/// each with a blank line behind it.
pub proof fn glob_import_is_replaced(
    cx: SourceM,
    st: ExpandM,
    no: nat,
    a: Seq<char>,
    b: Seq<char>,
    c: Seq<char>,
    d: Seq<char>,
    m: Seq<char>,
    t: Seq<char>,
)
    requires
        cx.open.len() == cx.files.len(),
        spaced(a, b, c, d),
        is_name(m),
        preprocessor::file_of(cx.files, m) matches FileM::Found(_, s) && s == t,
    ensures
        preprocessor::expand_line(
            cx,
            LineM { no, text: import_line(a, b, m + "::"@ + "*"@, c, d) },
            st,
        ) == (ExpandM { out: (st.out + spread(directives::definitions(t))).push('\n'), ..st }),
{
    reveal(preprocessor::expand_line);
    reveal(preprocessor::handle_import);
    reveal(preprocessor::load_module);
    reveal(preprocessor::import_glob);
    reveal_strlit("*");
    qualified_body(m, "*"@);
    import_body(a, b, m + "::"@ + "*"@, c, d);
    let defs = directives::definitions(t);
    all_are_spread(defs, defs.len() as int);
    assert(defs.skip(defs.len() as int) =~= Seq::empty());
    assert(preprocessor::all_definitions(defs, defs.len() as int) + Seq::<char>::empty()
        =~= preprocessor::all_definitions(defs, defs.len() as int));
}

// ---------------------------------------------------------------------------
// Whole modules
// ---------------------------------------------------------------------------

/// How the file of a module is preprocessed while these files are being loaded.
pub open spec fn module_source(cx: SourceM, module: Seq<char>, open: Seq<bool>) -> SourceM {
    SourceM { file: module + ".jo"@, files: cx.files, open }
}

/// `import m;` of a module that is not recorded yet: where its file preprocesses
/// to a text while it is marked as being loaded, that text is recorded for the
/// module behind those that are recorded, and so is each module that it loads and
/// that is new. The line stays.
pub proof fn module_import_records_the_preprocessed_text(
    cx: SourceM,
    st: ExpandM,
    no: nat,
    a: Seq<char>,
    b: Seq<char>,
    c: Seq<char>,
    d: Seq<char>,
    m: Seq<char>,
    i: int,
    t: Seq<char>,
    source: Seq<char>,
    others: Seq<(Seq<char>, Seq<char>)>,
)
    requires
        cx.open.len() == cx.files.len(),
        spaced(a, b, c, d),
        is_name(m),
        preprocessor::file_of(cx.files, m) == FileM::Found(i, t),
        !cx.open[i],
        forall|k: int| 0 <= k < st.modules.len() ==> (#[trigger] st.modules[k]).0 != m,
        preprocessor::preprocess(module_source(cx, m, cx.open.update(i, true)), t)
            == OutcomeM::Done(source, others),
    ensures
        ({
            let line = import_line(a, b, m, c, d);
            let r = preprocessor::expand_line(cx, LineM { no, text: line }, st);
            let n = st.modules.len() as int;
            &&& r.out == (st.out + line).push('\n')
            &&& r.diags == st.diags
            &&& r.need == st.need
            &&& r.modules.len() > n
            &&& r.modules.take(n) == st.modules
            &&& r.modules[n] == (m, source)
            &&& forall|k: int|
                n < k < r.modules.len() ==> others.contains(#[trigger] r.modules[k])
            &&& forall|k: int|
                0 <= k < others.len() ==> preprocessor::has_module(
                    r.modules,
                    (#[trigger] others[k]).0,
                )
        }),
{
    reveal(preprocessor::expand_line);
    reveal(preprocessor::handle_import);
    reveal(preprocessor::load_module);
    reveal(preprocessor::preprocess);
    name_is_plain(m);
    import_body(a, b, m, c, d);
    text_laws::splitting_needs_the_part(m, "::"@);
    found_in_bounds(cx.files, m, 0);
    let more = st.modules.push((m, source));
    joined_adds(more, others, others.len() as int);
    let all = preprocessor::joined(more, others, others.len() as int);
    assert(all.take(st.modules.len() as int) =~= st.modules) by {
        assert forall|k: int| 0 <= k < st.modules.len() implies all[k] == st.modules[k] by {
            assert(all.take(more.len() as int)[k] == more[k]);
        }
    }
    assert(all.take(more.len() as int)[st.modules.len() as int] == (m, source));
}

proof fn found_in_bounds(
    files: Seq<(Seq<char>, Option<Seq<char>>)>,
    name: Seq<char>,
    i: int,
)
    requires
        0 <= i,
    ensures
        preprocessor::file_index(files, name, i) matches Some(k) ==> i <= k < files.len()
            && files[k].0 == name && forall|j: int|
            i <= j < k ==> (#[trigger] files[j]).0 != name,
        preprocessor::file_index(files, name, i) is None ==> forall|j: int|
            i <= j < files.len() ==> (#[trigger] files[j]).0 != name,
    decreases files.len() - i,
{
    if i < files.len() && files[i].0 != name {
        found_in_bounds(files, name, i + 1);
    }
}

/// The file of a module is the first one that is given under its name.
pub proof fn file_is_found_by_its_name(
    files: Seq<(Seq<char>, Option<Seq<char>>)>,
    name: Seq<char>,
)
    ensures
        match preprocessor::file_of(files, name) {
            FileM::Found(k, t) => 0 <= k < files.len() && files[k] == (name, Some(t)) && forall|
                j: int,
            |
                0 <= j < k ==> (#[trigger] files[j]).0 != name,
            FileM::Missing => exists|k: int|
                0 <= k < files.len() && #[trigger] files[k] == (name, None::<Seq<char>>) && forall|
                    j: int,
                |
                    0 <= j < k ==> (#[trigger] files[j]).0 != name,
            FileM::Unknown => forall|j: int|
                0 <= j < files.len() ==> (#[trigger] files[j]).0 != name,
        },
{
    found_in_bounds(files, name, 0);
    if let Some(k) = preprocessor::file_index(files, name, 0) {
        assert(files[k] == (name, files[k].1));
    }
}

proof fn joined_adds(
    modules: Seq<(Seq<char>, Seq<char>)>,
    others: Seq<(Seq<char>, Seq<char>)>,
    n: int,
)
    requires
        0 <= n <= others.len(),
    ensures
        ({
            let r = preprocessor::joined(modules, others, n);
            &&& r.len() >= modules.len()
            &&& r.take(modules.len() as int) == modules
            &&& forall|k: int|
                modules.len() <= k < r.len() ==> others.contains(#[trigger] r[k])
            &&& forall|k: int|
                0 <= k < n ==> preprocessor::has_module(r, (#[trigger] others[k]).0)
        }),
    decreases n,
{
    let r = preprocessor::joined(modules, others, n);
    if n > 0 {
        joined_adds(modules, others, n - 1);
        let before = preprocessor::joined(modules, others, n - 1);
        let c = modules.len() as int;
        assert(r.take(c) =~= before.take(c));
        assert forall|k: int| c <= k < r.len() implies others.contains(#[trigger] r[k]) by {
            if k < before.len() {
                assert(r[k] == before[k]);
            } else {
                assert(others[n - 1] == r[k]);
            }
        }
        assert forall|k: int| 0 <= k < n implies preprocessor::has_module(
            r,
            (#[trigger] others[k]).0,
        ) by {
            if preprocessor::has_module(before, others[k].0) {
                let j = choose|j: int|
                    0 <= j < before.len() && (#[trigger] before[j]).0 == others[k].0;
                assert(r[j].0 == others[k].0);
            } else {
                assert(r[before.len() as int].0 == others[k].0);
            }
        }
    } else {
        assert(r.take(modules.len() as int) =~= modules);
    }
}

/// Whether the text is what the file of the module preprocesses to, while that
/// file, and perhaps others, is marked as being loaded.
pub open spec fn loaded_as(cx: SourceM, module: Seq<char>, source: Seq<char>) -> bool {
    exists|open: Seq<bool>| #[trigger]
        loaded_with(cx, module, source, module_source(cx, module, open))
}

pub open spec fn loaded_with(
    cx: SourceM,
    module: Seq<char>,
    source: Seq<char>,
    inner: SourceM,
) -> bool {
    &&& preprocessor::file_of(cx.files, module) matches FileM::Found(i, t) && 0 <= i
        < inner.open.len() && inner.open[i] && inner.open.len() == cx.files.len() && (
    preprocessor::preprocess(inner, t) matches OutcomeM::Done(s, _) && s == source)
}

pub open spec fn all_loaded(cx: SourceM, modules: Seq<(Seq<char>, Seq<char>)>) -> bool {
    forall|k: int|
        0 <= k < modules.len() ==> loaded_as(cx, (#[trigger] modules[k]).0, modules[k].1)
}

proof fn load_module_loads(cx: SourceM, line: LineM, st: ExpandM, module: Seq<char>)
    requires
        cx.open.len() == cx.files.len(),
        all_loaded(cx, st.modules),
    ensures
        all_loaded(cx, preprocessor::load_module(cx, line, st, module).modules),
    decreases preprocessor::all_idle(cx.open), 0nat, 0nat,
{
    reveal(preprocessor::load_module);
    reveal(preprocessor::preprocess);
    if !preprocessor::has_module(st.modules, module) {
        if let FileM::Found(i, t) = preprocessor::file_of(cx.files, module) {
            found_in_bounds(cx.files, module, 0);
            if !cx.open[i] {
                preprocessor::idle_decreases(cx.open, i, cx.open.len() as int);
                let inner = module_source(cx, module, cx.open.update(i, true));
                preprocess_loads(inner, t);
                if let OutcomeM::Done(source, others) = preprocessor::preprocess(inner, t) {
                    let more = st.modules.push((module, source));
                    joined_adds(more, others, others.len() as int);
                    let all = preprocessor::joined(more, others, others.len() as int);
                    assert(loaded_with(cx, module, source, inner));
                    assert forall|k: int| 0 <= k < all.len() implies loaded_as(
                        cx,
                        (#[trigger] all[k]).0,
                        all[k].1,
                    ) by {
                        if k < more.len() {
                            assert(all.take(more.len() as int)[k] == more[k]);
                            if k < st.modules.len() {
                                assert(more[k] == st.modules[k]);
                            }
                        } else {
                            let j = choose|j: int| 0 <= j < others.len() && others[j] == all[k];
                            assert(loaded_as(inner, others[j].0, others[j].1));
                            let open = choose|open: Seq<bool>| #[trigger]
                                loaded_with(
                                    inner,
                                    others[j].0,
                                    others[j].1,
                                    module_source(inner, others[j].0, open),
                                );
                            assert(module_source(inner, others[j].0, open) == module_source(
                                cx,
                                others[j].0,
                                open,
                            ));
                            assert(loaded_with(
                                cx,
                                others[j].0,
                                others[j].1,
                                module_source(cx, others[j].0, open),
                            ));
                        }
                    }
                }
            }
        }
    }
}

proof fn expand_line_loads(cx: SourceM, line: LineM, st: ExpandM)
    requires
        cx.open.len() == cx.files.len(),
        all_loaded(cx, st.modules),
    ensures
        all_loaded(cx, preprocessor::expand_line(cx, line, st).modules),
    decreases preprocessor::all_idle(cx.open), 1nat, 0nat,
{
    reveal(preprocessor::expand_line);
    reveal(preprocessor::handle_import);
    reveal(preprocessor::load_module);
    reveal(preprocessor::import_named);
    reveal(preprocessor::import_glob);
    if let Some(rest) = preprocessor::import_rest(line.text) {
        let after = preprocessor::handle_import(cx, line, st, rest);
        if let Some(body) = text::before_suffix(text::trim(rest), ";"@) {
            load_module_loads(cx, line, st, text::trim(body));
        }
        assert(all_loaded(cx, after.modules));
    }
}

proof fn expand_loads(cx: SourceM, lines: Seq<Seq<char>>, n: nat)
    requires
        cx.open.len() == cx.files.len(),
    ensures
        all_loaded(cx, preprocessor::expand(cx, lines, n).modules),
    decreases preprocessor::all_idle(cx.open), 2nat, n,
{
    reveal(preprocessor::expand);
    reveal(preprocessor::expand_line);
    if 0 < n <= lines.len() {
        expand_loads(cx, lines, (n - 1) as nat);
        let st = preprocessor::expand(cx, lines, (n - 1) as nat);
        expand_line_loads(cx, LineM { no: n, text: lines[n - 1] }, st);
    }
}

proof fn preprocess_loads(cx: SourceM, src: Seq<char>)
    requires
        cx.open.len() == cx.files.len(),
    ensures
        preprocessor::preprocess(cx, src) matches OutcomeM::Done(_, modules) ==> all_loaded(
            cx,
            modules,
        ),
    decreases preprocessor::all_idle(cx.open), 3nat, 0nat,
{
    reveal(preprocessor::preprocess);
    reveal(preprocessor::expand);
    let lines = text::lines(src);
    expand_loads(cx, lines, lines.len());
}

/// Every text that is recorded for a module is the one that preprocessing the
/// module's own file yields, not the text of the file itself.
pub proof fn recorded_texts_are_preprocessed(cx: SourceM, src: Seq<char>)
    requires
        cx.open.len() == cx.files.len(),
    ensures
        preprocessor::preprocess(cx, src) matches OutcomeM::Done(_, modules) ==> all_loaded(
            cx,
            modules,
        ),
{
    preprocess_loads(cx, src);
}

// ---------------------------------------------------------------------------
// The whole text
// ---------------------------------------------------------------------------

/// Whether the text is pasted out of the file: one of its definitions, under its
/// own name or another, or all of them.
pub open spec fn pasted_from(t: Seq<char>, piece: Seq<char>) -> bool {
    let defs = directives::definitions(t);
    ||| piece == spread(defs)
    ||| exists|k: int| 0 <= k < defs.len() && piece == (#[trigger] defs[k]).1
    ||| exists|k: int, to: Seq<char>|
        0 <= k < defs.len() && piece == #[trigger] directives::renamed(defs[k].1, defs[k].0, to)
}

/// Whether the text is pasted out of one of the files.
pub open spec fn pasted(files: Seq<(Seq<char>, Option<Seq<char>>)>, piece: Seq<char>) -> bool {
    exists|i: int|
        0 <= i < files.len() && ((#[trigger] files[i]).1 matches Some(t) && pasted_from(t, piece))
}

/// What may stand for a line: the line itself, unless it imports out of a module
/// by `::`; then a text that is pasted out of a file.
pub open spec fn stands_for(
    files: Seq<(Seq<char>, Option<Seq<char>>)>,
    line: Seq<char>,
    piece: Seq<char>,
) -> bool {
    match preprocessor::import_rest(line) {
        None => piece == line,
        Some(rest) => if exists|k: int| #[trigger] text::occurs_at(rest, "::"@, k) {
            pasted(files, piece)
        } else {
            piece == line
        },
    }
}

/// The pieces, each with a line feed behind it.
pub open spec fn as_lines(pieces: Seq<Seq<char>>) -> Seq<char>
    decreases pieces.len(),
{
    if pieces.len() == 0 {
        Seq::empty()
    } else {
        (as_lines(pieces.drop_last()) + pieces.last()).push('\n')
    }
}

proof fn found_is_there(defs: Seq<(Seq<char>, Seq<char>)>, name: Seq<char>, i: int)
    requires
        0 <= i,
    ensures
        preprocessor::find_definition(defs, name, i) matches Some(d) ==> exists|k: int|
            0 <= k < defs.len() && #[trigger] defs[k] == (name, d),
    decreases defs.len() - i,
{
    if i < defs.len() {
        if defs[i].0 == name {
            assert(defs[i] == (name, defs[i].1));
        } else {
            found_is_there(defs, name, i + 1);
        }
    }
}

proof fn colons_are_kept(rest: Seq<char>, x: Seq<char>, y: Seq<char>, p: Seq<char>)
    requires
        text::trim(rest) == x + ";"@,
        text::trim(x) == y,
        p == "::"@,
    ensures
        (exists|k: int| #[trigger] text::occurs_at(y, p, k)) <==> (exists|k: int| #[trigger]
            text::occurs_at(rest, p, k)),
{
    reveal_strlit("::");
    reveal_strlit(";");
    let t = text::trim(rest);
    let a = text_laws::text_is_its_trimmed_middle(rest);
    let b = text_laws::text_is_its_trimmed_middle(x);
    assert forall|j: int| 0 <= j < t.len() implies rest[a + j] == t[j] by {
        assert(rest.subrange(a, a + t.len())[j] == t[j]);
    }
    assert forall|j: int| 0 <= j < y.len() implies x[b + j] == y[j] by {
        assert(x.subrange(b, b + y.len())[j] == y[j]);
    }
    if exists|k: int| #[trigger] text::occurs_at(y, p, k) {
        let k = choose|k: int| #[trigger] text::occurs_at(y, p, k);
        assert(y.subrange(k, k + 2)[0] == y[k] && y.subrange(k, k + 2)[1] == y[k + 1]);
        assert(t[b + k] == x[b + k] && t[b + k + 1] == x[b + k + 1]);
        assert(rest[a + b + k] == t[b + k] && rest[a + (b + k + 1)] == t[b + k + 1]);
        assert(rest.subrange(a + b + k, a + b + k + 2) =~= p);
        assert(text::occurs_at(rest, p, a + b + k));
    }
    if exists|k: int| #[trigger] text::occurs_at(rest, p, k) {
        let k = choose|k: int| #[trigger] text::occurs_at(rest, p, k);
        assert(rest.subrange(k, k + 2)[0] == rest[k] && rest.subrange(k, k + 2)[1] == rest[k + 1]);
        if k < a {
            assert(text::is_white(rest.take(a)[k]));
        }
        if k + 1 >= a + t.len() {
            assert(text::is_white(rest.skip(a + t.len())[k + 1 - a - t.len()]));
        }
        let m = k - a;
        assert(t[m] == ':' && t[m + 1] == ':');
        assert(x[m] == ':' && x[m + 1] == ':') by {
            if m + 1 >= x.len() {
                assert(t[t.len() - 1] == ';');
            }
        }
        if m < b {
            assert(text::is_white(x.take(b)[m]));
        }
        if m + 1 >= b + y.len() {
            assert(text::is_white(x.skip(b + y.len())[m + 1 - b - y.len()]));
        }
        assert(y[m - b] == ':' && y[m - b + 1] == ':');
        assert(y.subrange(m - b, m - b + 2) =~= p);
        assert(text::occurs_at(y, p, m - b));
    }
}

proof fn line_is_kept_or_pasted(cx: SourceM, line: LineM, st: ExpandM) -> (piece: Seq<char>)
    requires
        cx.open.len() == cx.files.len(),
    ensures
        ({
            let r = preprocessor::expand_line(cx, line, st);
            &&& r.diags.len() >= st.diags.len()
            &&& st.need is None && r.need is None && r.diags.len() == st.diags.len() ==> r.out == (
            st.out + piece).push('\n') && stands_for(cx.files, line.text, piece)
        }),
{
    reveal(preprocessor::expand_line);
    reveal(preprocessor::handle_import);
    reveal(preprocessor::load_module);
    reveal(preprocessor::import_named);
    reveal(preprocessor::import_glob);
    reveal(preprocessor::preprocess);
    match preprocessor::import_rest(line.text) {
        None => line.text,
        Some(rest) => match text::before_suffix(text::trim(rest), ";"@) {
            None => line.text,
            Some(x) => {
                let y = text::trim(x);
                text_laws::prefix_and_suffix_are_there(text::trim(rest), ";"@);
                colons_are_kept(rest, x, y, "::"@);
                text_laws::splitting_needs_the_part(y, "::"@);
                match text::split_once(y, "::"@) {
                    None => line.text,
                    Some((m, t)) => {
                        let module = text::trim(m);
                        let tail = text::trim(t);
                        file_is_found_by_its_name(cx.files, module);
                        if let FileM::Found(i, f) = preprocessor::file_of(cx.files, module) {
                            pasted_piece(cx, i, f, tail)
                        } else {
                            line.text
                        }
                    },
                }
            },
        },
    }
}

proof fn pasted_piece(cx: SourceM, i: int, f: Seq<char>, tail: Seq<char>) -> (piece: Seq<char>)
    requires
        0 <= i < cx.files.len(),
        cx.files[i].1 == Some(f),
    ensures
        ({
            let defs = directives::definitions(f);
            let (name, alias) = match text::split_once(tail, " as "@) {
                Some((n, a)) => (text::trim(n), Some(text::trim(a))),
                None => (
                    preprocessor::loose_name(tail).0,
                    preprocessor::loose_name(tail).1,
                ),
            };
            if tail == "*"@ {
                pasted(cx.files, piece) && piece == preprocessor::all_definitions(
                    defs,
                    defs.len() as int,
                )
            } else {
                preprocessor::find_definition(defs, name, 0) matches Some(d) ==> pasted(
                    cx.files,
                    piece,
                ) && piece == (match alias {
                    Some(a) => directives::renamed(d, name, a),
                    None => d,
                })
            }
        }),
{
    let defs = directives::definitions(f);
    if tail == "*"@ {
        let piece = preprocessor::all_definitions(defs, defs.len() as int);
        all_are_spread(defs, defs.len() as int);
        assert(defs.skip(defs.len() as int) =~= Seq::empty());
        assert(piece + Seq::<char>::empty() =~= piece);
        assert(pasted_from(f, piece));
        piece
    } else {
        let (name, alias) = match text::split_once(tail, " as "@) {
            Some((n, a)) => (text::trim(n), Some(text::trim(a))),
            None => (preprocessor::loose_name(tail).0, preprocessor::loose_name(tail).1),
        };
        found_is_there(defs, name, 0);
        match preprocessor::find_definition(defs, name, 0) {
            Some(d) => {
                let k = choose|k: int| 0 <= k < defs.len() && #[trigger] defs[k] == (name, d);
                match alias {
                    Some(a) => {
                        let piece = directives::renamed(d, name, a);
                        assert(directives::renamed(defs[k].1, defs[k].0, a) == piece);
                        assert(pasted_from(f, piece));
                        piece
                    },
                    None => {
                        assert(pasted_from(f, d));
                        d
                    },
                }
            },
            None => tail,
        }
    }
}

proof fn lines_are_kept_or_pasted(cx: SourceM, lines: Seq<Seq<char>>, n: nat) -> (pieces: Seq<
    Seq<char>,
>)
    requires
        cx.open.len() == cx.files.len(),
        n <= lines.len(),
        preprocessor::expand(cx, lines, n).need is None,
        preprocessor::expand(cx, lines, n).diags.len() == 0,
    ensures
        pieces.len() == n,
        preprocessor::expand(cx, lines, n).out == as_lines(pieces),
        forall|k: int| 0 <= k < n ==> stands_for(cx.files, #[trigger] lines[k], pieces[k]),
    decreases n,
{
    reveal(preprocessor::expand);
    reveal(preprocessor::expand_line);
    if n == 0 {
        Seq::empty()
    } else {
        let st = preprocessor::expand(cx, lines, (n - 1) as nat);
        let line = LineM { no: n, text: lines[n - 1] };
        let piece = line_is_kept_or_pasted(cx, line, st);
        assert(st.need is None);
        let before = lines_are_kept_or_pasted(cx, lines, (n - 1) as nat);
        let pieces = before.push(piece);
        assert(pieces.drop_last() =~= before);
        assert forall|k: int| 0 <= k < n implies stands_for(
            cx.files,
            #[trigger] lines[k],
            pieces[k],
        ) by {
            if k < n - 1 {
                assert(pieces[k] == before[k]);
            }
        }
        pieces
    }
}

/// A text is preprocessed line by line, in order: each line stays, but for those
/// that import out of a module by `::`, for which definitions of a module file
/// stand. Then the directives are carried out, and where each `#` belongs to
/// one, none is left.
pub proof fn text_is_preprocessed_line_by_line(cx: SourceM, src: Seq<char>) -> (pieces: Seq<
    Seq<char>,
>)
    requires
        cx.open.len() == cx.files.len(),
        preprocessor::preprocess(cx, src) is Done,
    ensures
        pieces.len() == text::lines(src).len(),
        forall|k: int|
            0 <= k < pieces.len() ==> stands_for(
                cx.files,
                #[trigger] text::lines(src)[k],
                pieces[k],
            ),
        preprocessor::preprocess(cx, src)->Done_0 == directives::defined(
            as_lines(pieces),
            cx.file,
        ).0,
        directive_laws::only_directives(as_lines(pieces), 0) ==> !(preprocessor::preprocess(
            cx,
            src,
        )->Done_0).contains('#'),
{
    reveal(preprocessor::preprocess);
    reveal(preprocessor::expand);
    let lines = text::lines(src);
    let pieces = lines_are_kept_or_pasted(cx, lines, lines.len());
    if directive_laws::only_directives(as_lines(pieces), 0) {
        directive_laws::no_directive_is_left(as_lines(pieces), cx.file);
    }
    pieces
}

// ---------------------------------------------------------------------------
// What is refused
// ---------------------------------------------------------------------------

/// Whether just one diagnostic has come, with that code, in the file that is
/// preprocessed, at that line, and with its text; nothing else has changed but
/// for a line feed.
pub open spec fn refused(cx: SourceM, line: LineM, st: ExpandM, code: Seq<char>) -> bool {
    let r = preprocessor::expand_line(cx, line, st);
    &&& r.diags.len() == st.diags.len() + 1
    &&& r.diags.take(st.diags.len() as int) == st.diags
    &&& r.diags[st.diags.len() as int].code == code
    &&& r.diags[st.diags.len() as int].file == cx.file
    &&& r.diags[st.diags.len() as int].line == line.no
    &&& r.diags[st.diags.len() as int].source_line == line.text
    &&& r.out == st.out.push('\n')
    &&& r.modules == st.modules
    &&& r.need == st.need
}

/// An import out of a module whose file does not exist is refused, and so is one
/// of a name that the file does not define. Where the file is not known yet, it
/// is asked for.
pub proof fn named_import_needs_its_definition(
    cx: SourceM,
    st: ExpandM,
    no: nat,
    a: Seq<char>,
    b: Seq<char>,
    c: Seq<char>,
    d: Seq<char>,
    m: Seq<char>,
    n: Seq<char>,
)
    requires
        cx.open.len() == cx.files.len(),
        spaced(a, b, c, d),
        is_name(m),
        is_name(n),
    ensures
        ({
            let line = LineM { no, text: import_line(a, b, m + "::"@ + n, c, d) };
            match preprocessor::file_of(cx.files, m) {
                FileM::Unknown => preprocessor::expand_line(cx, line, st).need == Some(m),
                FileM::Missing => refused(cx, line, st, "E003"@),
                FileM::Found(_, t) => (forall|k: int|
                    0 <= k < directives::definitions(t).len() ==> (#[trigger] directives::definitions(
                        t,
                    )[k]).0 != n) ==> refused(cx, line, st, "E002"@),
            }
        }),
{
    reveal(preprocessor::expand_line);
    reveal(preprocessor::handle_import);
    reveal(preprocessor::load_module);
    reveal(preprocessor::import_named);
    name_is_plain(n);
    qualified_body(m, n);
    import_body(a, b, m + "::"@ + n, c, d);
    text_laws::splitting_needs_the_part(n, " as "@);
    let e = Seq::<char>::empty();
    text_laws::words_are_parted_by_white_space(e, n, e);
    assert(e + n + e =~= n);
    assert(seq![n] + text::words(e) =~= seq![n]);
    let line = LineM { no, text: import_line(a, b, m + "::"@ + n, c, d) };
    let r = preprocessor::expand_line(cx, line, st);
    if r.diags.len() > st.diags.len() {
        assert(r.diags.take(st.diags.len() as int) =~= st.diags);
    }
    if let FileM::Found(_, t) = preprocessor::file_of(cx.files, m) {
        found_is_there(directives::definitions(t), n, 0);
    }
}

/// A module whose file does not exist cannot be imported, nor one whose file is
/// being loaded: that would never end. A module that is recorded is not loaded
/// again, and the line stays.
pub proof fn module_import_needs_its_file(
    cx: SourceM,
    st: ExpandM,
    no: nat,
    a: Seq<char>,
    b: Seq<char>,
    c: Seq<char>,
    d: Seq<char>,
    m: Seq<char>,
)
    requires
        cx.open.len() == cx.files.len(),
        spaced(a, b, c, d),
        is_name(m),
    ensures
        ({
            let text = import_line(a, b, m, c, d);
            let line = LineM { no, text };
            let r = preprocessor::expand_line(cx, line, st);
            if preprocessor::has_module(st.modules, m) {
                r == (ExpandM { out: (st.out + text).push('\n'), ..st })
            } else {
                match preprocessor::file_of(cx.files, m) {
                    FileM::Unknown => r.need == Some(m),
                    FileM::Missing => refused(cx, line, st, "E003"@),
                    FileM::Found(i, _) => cx.open[i] ==> refused(cx, line, st, "E006"@),
                }
            }
        }),
{
    reveal(preprocessor::expand_line);
    reveal(preprocessor::handle_import);
    reveal(preprocessor::load_module);
    reveal(preprocessor::preprocess);
    name_is_plain(m);
    import_body(a, b, m, c, d);
    text_laws::splitting_needs_the_part(m, "::"@);
    found_in_bounds(cx.files, m, 0);
    let line = LineM { no, text: import_line(a, b, m, c, d) };
    let r = preprocessor::expand_line(cx, line, st);
    if r.diags.len() == st.diags.len() + 1 {
        assert(r.diags.take(st.diags.len() as int) =~= st.diags);
    }
}

/// An import that does not end with a semicolon is refused.
pub proof fn import_needs_its_semicolon(
    cx: SourceM,
    st: ExpandM,
    no: nat,
    a: Seq<char>,
    rest: Seq<char>,
    d: Seq<char>,
)
    requires
        cx.open.len() == cx.files.len(),
        text_laws::all_white(a),
        text_laws::all_white(d),
        rest.len() > 0,
        !text::is_white(rest[rest.len() - 1]),
        rest[rest.len() - 1] != ';',
    ensures
        refused(cx, LineM { no, text: a + ("import "@ + rest) + d }, st, "E001"@),
{
    reveal(preprocessor::expand_line);
    reveal(preprocessor::handle_import);
    reveal_strlit(";");
    import_word(a, rest, d);
    let t = text::trim(rest);
    let at = text_laws::text_is_its_trimmed_middle(rest);
    assert(text::before_suffix(t, ";"@) is None) by {
        if text::before_suffix(t, ";"@) is Some {
            text_laws::prefix_and_suffix_are_there(t, ";"@);
            assert(t[t.len() - 1] == ';');
            assert(rest.subrange(at, at + t.len())[t.len() - 1] == rest[at + t.len() - 1]);
            if at + t.len() < rest.len() {
                let back = rest.skip(at + t.len());
                assert(text::is_white(back[back.len() - 1]));
            }
        }
    }
    let line = LineM { no, text: a + ("import "@ + rest) + d };
    let r = preprocessor::expand_line(cx, line, st);
    assert(r.diags.take(st.diags.len() as int) =~= st.diags);
}

/// A line that does not start with the word `import` stays as it is.
pub proof fn other_lines_stay(cx: SourceM, st: ExpandM, no: nat, line: Seq<char>)
    requires
        cx.open.len() == cx.files.len(),
        ({
            let t = text::trim(line);
            t.len() < 6 || t.take(6) != "import"@ || (t.len() > 6 && t[6] != ' ' && t[6] != '\t')
        }),
    ensures
        preprocessor::expand_line(cx, LineM { no, text: line }, st) == (ExpandM {
            out: (st.out + line).push('\n'),
            ..st
        }),
{
    reveal(preprocessor::expand_line);
    reveal_strlit("import ");
    reveal_strlit("import");
    reveal_strlit("import\t");
    let t = text::trim(line);
    text_laws::prefix_and_suffix_are_there(t, "import "@);
    text_laws::prefix_and_suffix_are_there(t, "import\t"@);
    if let Some(r) = text::after_prefix(t, "import "@) {
        assert(t.take(6) =~= "import"@);
        assert(t[6] == ' ');
    }
    if let Some(r) = text::after_prefix(t, "import\t"@) {
        assert(t.take(6) =~= "import"@);
        assert(t[6] == '\t');
    }
    if t == "import"@ {
        assert(t.take(6) =~= t);
    }
}

proof fn plain_lines_add_nothing(cx: SourceM, lines: Seq<Seq<char>>, n: nat)
    requires
        cx.open.len() == cx.files.len(),
        n <= lines.len(),
        forall|i: int| 0 <= i < n ==> preprocessor::import_rest(#[trigger] lines[i]) is None,
    ensures
        ({
            let st = preprocessor::expand(cx, lines, n);
            st.diags.len() == 0 && st.need is None && st.modules.len() == 0
        }),
    decreases n,
{
    reveal(preprocessor::expand);
    reveal(preprocessor::expand_line);
    if n > 0 {
        plain_lines_add_nothing(cx, lines, (n - 1) as nat);
        assert(preprocessor::import_rest(lines[n - 1]) is None);
        let st = preprocessor::expand(cx, lines, (n - 1) as nat);
        let line = LineM { no: n, text: lines[n - 1] };
        assert(preprocessor::expand_line(cx, line, st).diags == st.diags);
        assert(preprocessor::expand_line(cx, line, st).modules == st.modules);
        assert(preprocessor::expand(cx, lines, n) == preprocessor::expand_line(cx, line, st));
    }
}

/// An error in an import is reported at its line, counted from one: here of the
/// first import of a text, which lacks its semicolon.
pub proof fn import_errors_give_their_line(
    cx: SourceM,
    lines: Seq<Seq<char>>,
    n: nat,
    a: Seq<char>,
    rest: Seq<char>,
    d: Seq<char>,
)
    requires
        cx.open.len() == cx.files.len(),
        0 < n <= lines.len(),
        forall|i: int| 0 <= i < n - 1 ==> preprocessor::import_rest(#[trigger] lines[i]) is None,
        lines[n - 1] == a + ("import "@ + rest) + d,
        text_laws::all_white(a),
        text_laws::all_white(d),
        rest.len() > 0,
        !text::is_white(rest[rest.len() - 1]),
        rest[rest.len() - 1] != ';',
    ensures
        ({
            let st = preprocessor::expand(cx, lines, n);
            &&& st.diags.len() == 1
            &&& st.diags[0].code == "E001"@
            &&& st.diags[0].line == n
            &&& st.diags[0].file == cx.file
            &&& st.diags[0].source_line == lines[n - 1]
        }),
{
    reveal(preprocessor::expand);
    reveal(preprocessor::expand_line);
    plain_lines_add_nothing(cx, lines, (n - 1) as nat);
    let st = preprocessor::expand(cx, lines, (n - 1) as nat);
    import_needs_its_semicolon(cx, st, n, a, rest, d);
}

/// The words of an import may be parted by any white space: `n as r` gives the
/// name and its alias, and any other word behind the name does not belong there.
pub proof fn import_words_are_read(
    n: Seq<char>,
    a: Seq<char>,
    w: Seq<char>,
    b: Seq<char>,
    r: Seq<char>,
)
    requires
        is_name(n),
        is_name(w),
        is_name(r),
        a.len() > 0 && text_laws::all_white(a),
        b.len() > 0 && text_laws::all_white(b),
    ensures
        preprocessor::loose_name(n + (a + w + (b + r))) == if w == "as"@ {
            (n, Some(r), None)
        } else {
            (n, None, Some(w))
        },
        preprocessor::loose_name(n) == (n, None::<Seq<char>>, None::<Seq<char>>),
{
    name_is_plain(n);
    name_is_plain(w);
    name_is_plain(r);
    let e = Seq::<char>::empty();
    text_laws::words_are_parted_by_white_space(b, r, e);
    assert(b + r + e =~= b + r);
    assert(seq![r] + text::words(e) =~= seq![r]) by {
        text_laws::words_are_parted_by_white_space(e, r, e);
    }
    let tail = b + r;
    assert(tail[0] == b[0]);
    text_laws::words_are_parted_by_white_space(a, w, tail);
    let rest = a + w + tail;
    assert(rest[0] == a[0]);
    text_laws::words_are_parted_by_white_space(e, n, rest);
    assert(e + n + rest =~= n + rest);
    assert(text::words(n + rest) =~= seq![n, w, r]);
    text_laws::words_are_parted_by_white_space(e, n, e);
    assert(e + n + e =~= n);
    assert(text::words(n) =~= seq![n]);
}

} // verus!
