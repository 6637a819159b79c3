//! What the language server does on a message, what a report looks like, and in
//! which order modules are searched.

use vstd::prelude::*;

use crate::completion;
use crate::completion::DocM;
use crate::driver;
use crate::error;
use crate::error::DiagM;
use crate::lexer::TokenM;
use crate::protocol;
use crate::protocol::{ActionM, MessageM, ReplyM};
use crate::spelling;
use crate::text;
use crate::text_laws;
use crate::types::TypeM;

verus! {

// ---------------------------------------------------------------------------
// Messages
// ---------------------------------------------------------------------------

proof fn requests_differ()
    ensures
        "initialize"@.len() == 10,
        "initialized"@.len() == 11,
        "shutdown"@.len() == 8,
        "exit"@.len() == 4,
        "textDocument/didOpen"@.len() == 20,
        "textDocument/didChange"@.len() == 22,
        "textDocument/didSave"@.len() == 20,
        "textDocument/didClose"@.len() == 21,
        "textDocument/completion"@.len() == 23,
        "textDocument/didOpen"@ != "textDocument/didSave"@,
{
    reveal_strlit("initialize");
    reveal_strlit("initialized");
    reveal_strlit("shutdown");
    reveal_strlit("exit");
    reveal_strlit("textDocument/didOpen");
    reveal_strlit("textDocument/didChange");
    reveal_strlit("textDocument/didSave");
    reveal_strlit("textDocument/didClose");
    reveal_strlit("textDocument/completion");
    assert("textDocument/didOpen"@[16] == 'O');
    assert("textDocument/didSave"@[16] == 'S');
}

/// Each request gets its own answer: what the server can do on `initialize`, the
/// offers at the place that is asked for on `completion`, and nothing of interest
/// on any other. `exit` ends the server, and a document that is closed has its
/// findings cleared.
pub proof fn requests_get_their_answers(
    docs: Seq<(Seq<char>, DocM)>,
    m: MessageM,
    id: Seq<char>,
)
    requires
        m.id == Some(id),
    ensures
        ({
            let a = protocol::handled(docs, m).1;
            &&& m.method == "initialize"@ ==> a == (ActionM::Respond {
                id,
                reply: ReplyM::Capabilities,
            })
            &&& m.method == "shutdown"@ ==> a == (ActionM::Respond { id, reply: ReplyM::Null })
            &&& m.method == "exit"@ ==> a is Exit
            &&& m.method == "textDocument/didClose"@ ==> a == (ActionM::Clear { uri: m.uri })
            &&& m.method == "textDocument/didOpen"@ || m.method == "textDocument/didSave"@
                ==> a is Lint && a->Lint_uri == m.uri
            &&& m.method == "textDocument/completion"@ ==> a == (ActionM::Respond {
                id,
                reply: ReplyM::Completions(
                    match protocol::doc_at(docs, m.uri) {
                        Some(doc) => completion::offers(
                            doc.text,
                            doc.symbols,
                            m.line as nat,
                            m.character as nat,
                        ),
                        None => Seq::empty(),
                    },
                ),
            })
        }),
{
    requests_differ();
}

/// Only opening, changing and closing a document touch the documents, and each of
/// them touches just the one that it names. A document keeps its path when its
/// text changes.
pub proof fn other_documents_stay(docs: Seq<(Seq<char>, DocM)>, m: MessageM, other: Seq<char>)
    requires
        protocol::docs_sound(docs),
        other != m.uri,
    ensures
        ({
            let r = protocol::handled(docs, m).0;
            &&& protocol::doc_at(r, other) == protocol::doc_at(docs, other)
            &&& m.method != "textDocument/didOpen"@ && m.method != "textDocument/didChange"@
                && m.method != "textDocument/didClose"@ ==> r == docs
            &&& m.method == "textDocument/didChange"@ ==> (protocol::doc_at(
                docs,
                m.uri,
            ) matches Some(doc) ==> (protocol::doc_at(r, m.uri) matches Some(x) && x.path
                == doc.path))
        }),
{
    requests_differ();
    if m.method == "textDocument/didChange"@ {
        protocol::doc_index_spec(docs, m.uri, 0);
        if let Some(k) = protocol::doc_index(docs, m.uri, 0) {
            let r = protocol::handled(docs, m).0;
            assert forall|j: int| 0 <= j < k implies (#[trigger] r[j]).0 != m.uri by {
                assert(docs[j].0 != docs[k].0);
            }
            other_is_indexed(r, m.uri, 0, k);
        }
    }
    let r = protocol::handled(docs, m).0;
    protocol::doc_index_spec(docs, m.uri, 0);
    protocol::doc_index_spec(docs, other, 0);
    protocol::doc_index_spec(r, other, 0);
    if r != docs {
        match protocol::doc_index(docs, other, 0) {
            Some(k) => {
                let j = if m.method == "textDocument/didClose"@ {
                    let c = protocol::doc_index(docs, m.uri, 0)->0;
                    if k < c {
                        k
                    } else {
                        k - 1
                    }
                } else {
                    k
                };
                assert(r[j] == docs[k]);
                other_is_indexed(r, other, 0, j);
            },
            None => {
                if let Some(i) = protocol::doc_index(r, other, 0) {
                    if m.method == "textDocument/didClose"@ {
                        let c = protocol::doc_index(docs, m.uri, 0)->0;
                        assert(r[i] == docs[if i < c {
                            i
                        } else {
                            i + 1
                        }]);
                    } else if i < docs.len() {
                        assert(r[i].0 == docs[i].0);
                    }
                }
            },
        }
    }
}

proof fn other_is_indexed(docs: Seq<(Seq<char>, DocM)>, uri: Seq<char>, i: int, k: int)
    requires
        0 <= i <= k < docs.len(),
        docs[k].0 == uri,
        forall|j: int| 0 <= j < k ==> (#[trigger] docs[j]).0 != uri,
    ensures
        protocol::doc_index(docs, uri, i) == Some(k),
    decreases k - i,
{
    if i < k {
        assert(docs[i].0 != uri);
        other_is_indexed(docs, uri, i + 1, k);
    }
}

/// A document that is opened has the text of the message, and the path of the file
/// that its URI names; one that is changed without having been opened has that
/// path too.
pub proof fn opened_document_is_kept(docs: Seq<(Seq<char>, DocM)>, m: MessageM)
    requires
        protocol::docs_sound(docs),
    ensures
        ({
            let r = protocol::handled(docs, m).0;
            &&& m.method == "textDocument/didOpen"@ ==> (protocol::doc_at(r, m.uri) matches Some(x)
                && x.text == m.text && x.path == protocol::path_of(m.uri))
            &&& m.method == "textDocument/didChange"@ ==> (m.change matches Some(t) ==> (
            protocol::doc_at(r, m.uri) matches Some(x) && x.text == t && (protocol::doc_at(
                docs,
                m.uri,
            ) is None ==> x.path == protocol::path_of(m.uri))))
        }),
{
    requests_differ();
    let r = protocol::handled(docs, m).0;
    protocol::doc_index_spec(docs, m.uri, 0);
    if m.method == "textDocument/didOpen"@ || (m.method == "textDocument/didChange"@
        && m.change is Some) {
        let k = match protocol::doc_index(docs, m.uri, 0) {
            Some(k) => k,
            None => docs.len() as int,
        };
        assert forall|j: int| 0 <= j < k implies (#[trigger] r[j]).0 != m.uri by {
            assert(r[j] == docs[j]);
            if k < docs.len() {
                assert(docs[j].0 != docs[k].0);
            }
        }
        other_is_indexed(r, m.uri, 0, k);
    }
}

/// A message is read at the places that the protocol gives its parts; what is not
/// there is empty or zero.
pub proof fn message_is_read_by_places(body: Seq<u8>)
    ensures
        ({
            let m = protocol::message_in(body);
            &&& m.id == protocol::json_shown(body, "/id"@)
            &&& m.method == (match protocol::json_text(body, "/method"@) {
                Some(s) => s,
                None => Seq::empty(),
            })
            &&& m.uri == (match protocol::json_text(body, "/params/textDocument/uri"@) {
                Some(s) => s,
                None => Seq::empty(),
            })
            &&& m.text == (match protocol::json_text(body, "/params/textDocument/text"@) {
                Some(s) => s,
                None => Seq::empty(),
            })
            &&& protocol::json_number(body, "/params/position/line"@) matches Some(n) ==> m.line
                == n as usize
            &&& protocol::json_number(body, "/params/position/character"@) matches Some(n)
                ==> m.character == n as usize
            &&& protocol::json_number(body, "/params/position/line"@) is None ==> m.line == 0
            &&& protocol::json_number(body, "/params/position/character"@) is None ==> m.character
                == 0
            &&& (match protocol::json_count(body, "/params/contentChanges"@) {
                Some(n) => if n == 0 {
                    m.change is None
                } else {
                    let at = "/params/contentChanges/"@ + text::decimal((n - 1) as nat) + "/text"@;
                    m.change == Some(
                        match protocol::json_text(body, at) {
                            Some(s) => s,
                            None => Seq::empty(),
                        },
                    )
                },
                None => m.change is None,
            })
        }),
{
}

proof fn plain_is_kept(s: Seq<char>, i: int, e: int)
    requires
        0 <= i <= e <= s.len(),
        forall|j: int| i <= j < e ==> #[trigger] s[j] != '%',
    ensures
        protocol::spaces_decoded(s, i) == s.subrange(i, e) + protocol::spaces_decoded(s, e),
    decreases e - i,
{
    reveal_strlit("%20");
    if i < e {
        assert(!text::occurs_at(s, "%20"@, i)) by {
            if text::occurs_at(s, "%20"@, i) {
                assert(s.subrange(i, i + 3)[0] == s[i]);
                assert("%20"@[0] == '%');
            }
        }
        plain_is_kept(s, i + 1, e);
        assert(seq![s[i]] + (s.subrange(i + 1, e) + protocol::spaces_decoded(s, e)) =~= s.subrange(
            i,
            e,
        ) + protocol::spaces_decoded(s, e));
    } else {
        assert(s.subrange(i, e) + protocol::spaces_decoded(s, e) =~= protocol::spaces_decoded(s, e));
    }
}

/// A URI of a file names what stands after the scheme, with a space for each
/// `%20`.
pub proof fn uri_names_its_file(a: Seq<char>, b: Seq<char>)
    requires
        !a.contains('%'),
        !b.contains('%'),
    ensures
        protocol::path_of("file://"@ + (a + "%20"@ + b)) == a + " "@ + b,
        protocol::path_of("file://"@ + a) == a,
{
    reveal_strlit("%20");
    reveal_strlit(" ");
    let s = a + "%20"@ + b;
    let n = a.len() as int;
    text_laws::prefix_and_suffix_leave_the_rest(s, "file://"@);
    text_laws::prefix_and_suffix_leave_the_rest(a, "file://"@);
    assert forall|j: int| 0 <= j < n implies #[trigger] s[j] != '%' by {
        assert(s[j] == a[j]);
        assert(a.contains(a[j]));
    }
    plain_is_kept(s, 0, n);
    assert(s.subrange(n, n + 3) =~= "%20"@);
    assert forall|j: int| n + 3 <= j < s.len() implies #[trigger] s[j] != '%' by {
        assert(s[j] == b[j - n - 3]);
        assert(b.contains(b[j - n - 3]));
    }
    plain_is_kept(s, n + 3, s.len() as int);
    assert(protocol::spaces_decoded(s, s.len() as int) =~= Seq::empty());
    assert(s.subrange(n + 3, s.len() as int) =~= b);
    assert(s.subrange(0, n) =~= a);
    assert(b + Seq::<char>::empty() =~= b);
    assert(a + (seq![' '] + b) =~= a + " "@ + b);
    assert forall|j: int| 0 <= j < a.len() implies #[trigger] a[j] != '%' by {
        assert(a.contains(a[j]));
    }
    plain_is_kept(a, 0, n);
    assert(protocol::spaces_decoded(a, n) =~= Seq::empty());
    assert(a.subrange(0, n) + Seq::<char>::empty() =~= a);
}

// ---------------------------------------------------------------------------
// Reports
// ---------------------------------------------------------------------------

/// In a rendered diagnostic the bars stand under each other, behind a gutter that
/// is as wide as the line number and two columns at least, with the number at its
/// right. Behind the bars stand the source line, and under it the caret and the
/// label, for which the message stands where there is none.
pub proof fn rows_are_aligned(d: DiagM)
    ensures
        ({
            let n = text::decimal(d.line);
            let g: int = if n.len() < 2 {
                2
            } else {
                n.len() as int
            };
            let source = d.source_row();
            let caret = d.caret_row();
            &&& source.len() == g + 3 + d.source_line.len()
            &&& source.subrange(g - n.len(), g) == n
            &&& source.subrange(g, g + 3) == " | "@
            &&& source.skip(g + 3) == d.source_line
            &&& forall|i: int| 0 <= i < g - n.len() ==> #[trigger] source[i] == ' '
            &&& forall|i: int| 0 <= i < g ==> #[trigger] caret[i] == ' '
            &&& caret.subrange(g, g + 3) == " | "@
            &&& caret.skip(g + 3) == error::caret_prefix(d.source_line, d.col) + "^ "@ + (
            if d.label.len() == 0 {
                d.message
            } else {
                d.label
            })
        }),
{
    reveal_strlit(" | ");
    reveal_strlit("^ ");
    let n = text::decimal(d.line);
    text::decimal_denotes(d.line);
    let g: int = if n.len() < 2 {
        2
    } else {
        n.len() as int
    };
    let source = d.source_row();
    let caret = d.caret_row();
    assert(source.subrange(g - n.len(), g) =~= n);
    assert(source.subrange(g, g + 3) =~= " | "@);
    assert(source.skip(g + 3) =~= d.source_line);
    assert(caret.subrange(g, g + 3) =~= " | "@);
    let tail = error::caret_prefix(d.source_line, d.col) + "^ "@ + d.shown_label();
    assert(caret =~= error::spaces(g as nat) + " | "@ + tail);
    assert(caret.skip(g + 3) =~= tail);
}

/// A report on several diagnostics ends with how many there were, and one on one
/// diagnostic says so; without diagnostics there is nothing to report.
pub proof fn report_counts_the_diagnostics(ds: Seq<DiagM>)
    ensures
        ds.len() == 0 ==> error::report(ds).len() == 0,
        ds.len() == 1 ==> error::report(ds) == ds[0].rendered() + "\n"@
            + "error: aborting due to previous error\n"@,
        ds.len() > 1 ==> exists|front: Seq<char>|
            error::report(ds) == #[trigger] (front + (ds.last().rendered() + "\n"@
                + "error: aborting due to "@ + text::decimal(ds.len()) + " previous errors\n"@)),
{
    if ds.len() == 1 {
        assert(ds.drop_last() =~= Seq::empty());
        assert(error::all_rendered(ds.drop_last()) =~= Seq::<char>::empty());
        assert(Seq::<char>::empty() + ds[0].rendered() =~= ds[0].rendered());
    }
    if ds.len() > 1 {
        let front = error::all_rendered(ds.drop_last());
        assert(error::report(ds) =~= front + (ds.last().rendered() + "\n"@
            + "error: aborting due to "@ + text::decimal(ds.len()) + " previous errors\n"@));
    }
}

/// The texts of the tokens of a type, with a space behind `mut`.
pub open spec fn written(p: Seq<TokenM>) -> Seq<char>
    decreases p.len(),
{
    if p.len() == 0 {
        Seq::empty()
    } else {
        p[0].lexeme + (if p[0].lexeme == "mut"@ {
            " "@
        } else {
            Seq::empty()
        }) + written(p.skip(1))
    }
}

/// A type is displayed as it is written in the source.
pub proof fn types_are_displayed_as_written(ty: TypeM, p: Seq<TokenM>)
    requires
        spelling::all_genuine(p),
        spelling::spells_type(ty, p),
    ensures
        ty.shown() == written(p),
    decreases ty,
{
    reveal_with_fuel(written, 4);
    reveal_with_fuel(spelling::spells_type, 2);
    reveal_strlit("mut");
    reveal_strlit("i64");
    reveal_strlit("f64");
    reveal_strlit("void");
    reveal_strlit("null");
    reveal_strlit("&");
    reveal_strlit("::");
    reveal_strlit("&mut ");
    reveal_strlit(" ");
    let none = Seq::<char>::empty();
    assert forall|k: int, i: int| 0 <= k <= p.len() && 0 <= i < p.len() - k implies (
    #[trigger] p.skip(k)[i]) == p[k + i] by {}
    assert(spelling::all_genuine(p.skip(1)) && spelling::all_genuine(p.skip(2)) || p.len() < 2);
    assert("i64"@[0] == 'i' && "f64"@[0] == 'f' && "mut"@[0] == 'm');
    match ty {
        TypeM::Ref(inner) => {
            assert("&"@.len() == 1 && "mut"@.len() == 3);
            assert(p[0].lexeme != "mut"@);
            assert(written(p) == "&"@ + none + written(p.skip(1)));
            types_are_displayed_as_written(*inner, p.skip(1));
            let rest = inner.shown();
            assert(written(p.skip(1)) == rest);
            assert("&"@ + none =~= "&"@);
            assert(written(p) == "&"@ + rest);
            assert(ty.shown() == "&"@ + rest);
        },
        TypeM::MutRef(inner) => {
            types_are_displayed_as_written(*inner, p.skip(2));
            assert(p.skip(1).skip(1) =~= p.skip(2));
            assert(p.skip(1)[0] == p[1]);
            assert("&"@ + none + ("mut"@ + " "@ + inner.shown()) =~= "&mut "@ + inner.shown());
            assert("&"@.len() == 1 && "mut"@.len() == 3);
            assert(p[0].lexeme != "mut"@);
            assert(written(p.skip(1)) == "mut"@ + " "@ + written(p.skip(2)));
            assert(ty.shown() == written(p));
        },
        TypeM::Qualified(m, n) => {
            assert(p.skip(1)[0] == p[1]);
            assert(p.skip(1).skip(1)[0] == p[2]);
            assert(p.skip(1).skip(1).skip(1).len() == 0);
            assert(m + none + ("::"@ + none + (n + none + none)) =~= m + "::"@ + n);
            assert(ty.shown() == written(p));
        },
        _ => {
            assert(p.skip(1).len() == 0);
            assert(p[0].lexeme + none + none =~= p[0].lexeme);
        },
    }
}

// ---------------------------------------------------------------------------
// The search for modules
// ---------------------------------------------------------------------------

proof fn first_ones_keep_their_order(s: Seq<Seq<char>>) -> (at: Seq<int>)
    ensures
        at.len() == driver::first_occurrences(s).len(),
        forall|k: int|
            0 <= k < at.len() ==> 0 <= #[trigger] at[k] < s.len() && driver::first_occurrences(s)[k]
                == s[at[k]],
        forall|i: int, j: int| 0 <= i < j < at.len() ==> #[trigger] at[i] < #[trigger] at[j],
        s.len() > 0 ==> at.len() > 0 && at[0] == 0,
    decreases s.len(),
{
    if s.len() == 0 {
        Seq::empty()
    } else {
        let past = s.drop_last();
        let before = first_ones_keep_their_order(past);
        let out = driver::first_occurrences(past);
        assert(forall|k: int| 0 <= k < past.len() ==> past[k] == s[k]);
        if driver::lists(out, s.last()) {
            before
        } else {
            before.push(s.len() - 1)
        }
    }
}

/// Modules are searched in the directory of the source file first, then in the
/// current one, and in that of the bundled library last; a directory that comes
/// again is left out.
pub proof fn search_goes_from_near_to_far(
    parent: Seq<char>,
    current: Seq<char>,
    bundled: Seq<char>,
)
    ensures
        ({
            let near = if parent.len() == 0 {
                "."@
            } else {
                parent
            };
            let dirs = driver::search_order(Some(parent), Some(current), bundled);
            &&& dirs.len() >= 1 && dirs[0] == near
            &&& !driver::same_path(near, current) ==> dirs.len() >= 2 && dirs[1] == current
            &&& driver::same_path(near, current) && !driver::same_path(near, bundled) ==> dirs.len()
                == 2 && dirs[1] == bundled
            &&& !driver::same_path(near, current) && !driver::same_path(near, bundled)
                && !driver::same_path(current, bundled) ==> dirs.len() == 3 && dirs[2] == bundled
            &&& driver::same_path(near, bundled) || driver::same_path(current, bundled)
                ==> dirs.len() <= 2
        }),
{
    let near = if parent.len() == 0 {
        "."@
    } else {
        parent
    };
    let s = seq![near].push(current).push(bundled);
    let a = s.drop_last();
    let b = a.drop_last();
    assert(a =~= seq![near].push(current));
    assert(b =~= seq![near]);
    assert(b.drop_last() =~= Seq::empty());
    reveal_with_fuel(driver::first_occurrences, 4);
    let f1 = driver::first_occurrences(b);
    assert(f1 =~= seq![near]);
    let f2 = driver::first_occurrences(a);
    assert(driver::lists(f1, current) <==> driver::same_path(near, current)) by {
        assert(f1[0] == near);
    }
    let f3 = driver::first_occurrences(s);
    if driver::same_path(near, current) {
        assert(f2 == f1);
        assert(driver::lists(f2, bundled) <==> driver::same_path(near, bundled)) by {
            assert(f2[0] == near);
        }
    } else {
        assert(f2 =~= seq![near, current]);
        assert(driver::lists(f2, bundled) <==> driver::same_path(near, bundled)
            || driver::same_path(current, bundled)) by {
            assert(f2[0] == near && f2[1] == current);
        }
    }
}

/// The directories that are searched keep the order in which they are given.
pub proof fn directories_keep_their_order(s: Seq<Seq<char>>)
    ensures
        exists|at: Seq<int>| #[trigger] places(at, driver::first_occurrences(s), s),
{
    let at = first_ones_keep_their_order(s);
    assert(places(at, driver::first_occurrences(s), s));
}

/// Whether the texts are those at these places, in order, from the first on.
pub open spec fn places(at: Seq<int>, out: Seq<Seq<char>>, s: Seq<Seq<char>>) -> bool {
    &&& at.len() == out.len()
    &&& forall|k: int| 0 <= k < at.len() ==> 0 <= #[trigger] at[k] < s.len() && out[k] == s[at[k]]
    &&& forall|i: int, j: int| 0 <= i < j < at.len() ==> #[trigger] at[i] < #[trigger] at[j]
    &&& s.len() > 0 ==> at.len() > 0 && at[0] == 0
}

} // verus!
