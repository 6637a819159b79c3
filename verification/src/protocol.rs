//! The language server: framing and decoding of messages, and what is done on
//! each of them.

use vstd::prelude::*;

use crate::completion;
use crate::completion::{CompletionItem, CompletionItemM, DocM, DocState};
use crate::symbols;
use crate::text;

verus! {

// ---------------------------------------------------------------------------
// Framing
// ---------------------------------------------------------------------------

/// The length that a header line gives, if it gives one. A length that is no
/// number is 0.
pub open spec fn given_length(line: Seq<char>) -> Option<nat> {
    match text::after_prefix(text::trim(line), "Content-Length:"@) {
        None => None,
        Some(v) => match text::unsigned_value(text::trim(v)) {
            Some(n) => if n <= usize::MAX {
                Some(n)
            } else {
                Some(0)
            },
            None => Some(0),
        },
    }
}

/// Whether a line ends a header: a blank one.
pub open spec fn ends_header(line: Seq<char>) -> bool {
    text::trim(line).len() == 0
}

/// The length known after a header line, and whether the header ends with it.
pub fn header_step(length: usize, line: &str) -> (r: (usize, bool))
    ensures
        r.1 == ends_header(line@),
        r.0 == (match given_length(line@) {
            Some(n) => n,
            None => length as nat,
        }),
{
    let trimmed = text::trimmed(&text::to_chars(line));
    if trimmed.len() == 0 {
        proof {
            reveal_strlit("Content-Length:");
        }
        return (length, true);
    }
    match text::strip_head(&trimmed, "Content-Length:") {
        None => (length, false),
        Some(v) => {
            match text::parse_unsigned(&text::trimmed(&v), usize::MAX as u64) {
                Some(n) => (n as usize, false),
                None => (0, false),
            }
        },
    }
}

/// The number of bytes of a text.
pub open spec fn byte_count(body: Seq<char>) -> nat {
    (vstd::utf8::encode_utf8(body).len() as usize) as nat
}

/// A message as it is sent: its length in bytes, a blank line, and the message.
pub open spec fn framed(body: Seq<char>) -> Seq<char> {
    "Content-Length: "@ + text::decimal(byte_count(body)) + "\r\n\r\n"@ + body
}

pub fn frame(body: &str) -> (r: String)
    ensures
        r@ == framed(body@),
{
    let n: usize = body.len();
    text::cat4("Content-Length: ", text::decimal_text(n).as_str(), "\r\n\r\n", body)
}

/// What is sent can be received: a framed message starts with a header line that
/// gives the number of bytes of the message and a blank line that ends the
/// header, and the message follows.
pub proof fn framed_is_received(body: Seq<char>)
    ensures
        ({
            let first = "Content-Length: "@ + text::decimal(byte_count(body)) + "\r\n"@;
            &&& framed(body) == first + "\r\n"@ + body
            &&& given_length(first) == Some(byte_count(body))
            &&& !ends_header(first)
            &&& ends_header("\r\n"@)
        }),
{
    reveal_strlit("Content-Length: ");
    reveal_strlit("Content-Length:");
    reveal_strlit("\r\n");
    reveal_strlit("\r\n\r\n");
    let n = byte_count(body);
    let d = text::decimal(n);
    text::decimal_denotes(n);
    assert(text::is_digit(d[0]));
    assert(text::is_digit(d[d.len() - 1]));
    let first = "Content-Length: "@ + d + "\r\n"@;
    assert(framed(body) =~= first + "\r\n"@ + body);
    let line = "Content-Length: "@ + d;
    // The line without its end
    text::run_end_at(first, 0, 0, text::Class::White);
    assert(first.skip(0) =~= first);
    assert(first.drop_last().drop_last() =~= line);
    assert(line.last() == d.last());
    assert(text::trim_end(line) == line);
    assert(text::trim_end(first.drop_last()) == line);
    assert(text::trim(first) == line);
    // The number in it
    assert(line.subrange(0, 15) =~= "Content-Length:"@);
    let v = line.skip(15);
    assert(v =~= seq![' '] + d);
    text::run_end_at(v, 0, 1, text::Class::White);
    assert(v.skip(1) =~= d);
    assert(text::trim(v) == d);
    // The blank line
    let end = "\r\n"@;
    text::run_end_at(end, 0, 2, text::Class::White);
    assert(end.skip(2) =~= Seq::<char>::empty());
}

// ---------------------------------------------------------------------------
// Decoding
// ---------------------------------------------------------------------------

/// The string at a place of a JSON document.
pub uninterp spec fn json_text(body: Seq<u8>, place: Seq<char>) -> Option<Seq<char>>;

/// The number at a place of a JSON document.
pub uninterp spec fn json_number(body: Seq<u8>, place: Seq<char>) -> Option<u64>;

/// The number of elements of the array at a place of a JSON document.
pub uninterp spec fn json_count(body: Seq<u8>, place: Seq<char>) -> Option<usize>;

/// The value at a place of a JSON document, written out.
pub uninterp spec fn json_shown(body: Seq<u8>, place: Seq<char>) -> Option<Seq<char>>;

pub open spec fn opt_text(t: Option<String>) -> Option<Seq<char>> {
    match t {
        Some(s) => Some(s@),
        None => None,
    }
}

/// Reads the document with `serde_json::from_slice`, finds the value at the place
/// with `Value::pointer`, and takes its string with `Value::as_str`. There is
/// none where the bytes are no document, the place holds nothing, or what it
/// holds is no string. The answer depends on the bytes and the place alone.
#[verifier::external_body]
fn text_at(body: &Vec<u8>, place: &str) -> (r: Option<String>)
    ensures
        opt_text(r) == json_text(body@, place@),
{
    Some(serde_json::from_slice::<serde_json::Value>(body).ok()?.pointer(place)?.as_str()?.to_owned())
}

/// Reads the document with `serde_json::from_slice`, finds the value at the place
/// with `Value::pointer`, and takes its number with `Value::as_u64`. There is
/// none where the bytes are no document, the place holds nothing, or what it
/// holds is no whole number of 64 bits without a sign. The answer depends on the
/// bytes and the place alone.
#[verifier::external_body]
fn number_at(body: &Vec<u8>, place: &str) -> (r: Option<u64>)
    ensures
        r == json_number(body@, place@),
{
    serde_json::from_slice::<serde_json::Value>(body).ok()?.pointer(place)?.as_u64()
}

/// Reads the document with `serde_json::from_slice`, finds the value at the place
/// with `Value::pointer`, and takes the length of its array, which
/// `Value::as_array` gives. There is none where the bytes are no document, the
/// place holds nothing, or what it holds is no array. The answer depends on the
/// bytes and the place alone.
#[verifier::external_body]
fn count_at(body: &Vec<u8>, place: &str) -> (r: Option<usize>)
    ensures
        r == json_count(body@, place@),
{
    Some(serde_json::from_slice::<serde_json::Value>(body).ok()?.pointer(place)?.as_array()?.len())
}

/// Reads the document with `serde_json::from_slice`, finds the value at the place
/// with `Value::pointer`, and writes it out with the `Display` of `Value`, which
/// is its compact JSON text. There is none where the bytes are no document or the
/// place holds nothing. The answer depends on the bytes and the place alone.
#[verifier::external_body]
fn shown_at(body: &Vec<u8>, place: &str) -> (r: Option<String>)
    ensures
        opt_text(r) == json_shown(body@, place@),
{
    Some(serde_json::from_slice::<serde_json::Value>(body).ok()?.pointer(place)?.to_string())
}

/// What the server reads of a message.
pub struct Message {
    /// empty where the message has none
    pub method: String,
    /// the JSON text of the id; a notification has none
    pub id: Option<String>,
    pub uri: String,
    pub text: String,
    /// the text of the last change
    pub change: Option<String>,
    pub line: usize,
    pub character: usize,
}

pub struct MessageM {
    pub method: Seq<char>,
    pub id: Option<Seq<char>>,
    pub uri: Seq<char>,
    pub text: Seq<char>,
    pub change: Option<Seq<char>>,
    pub line: usize,
    pub character: usize,
}

impl View for Message {
    type V = MessageM;

    open spec fn view(&self) -> MessageM {
        MessageM {
            method: self.method@,
            id: opt_text(self.id),
            uri: self.uri@,
            text: self.text@,
            change: opt_text(self.change),
            line: self.line,
            character: self.character,
        }
    }
}

pub open spec fn or_empty(t: Option<Seq<char>>) -> Seq<char> {
    match t {
        Some(s) => s,
        None => Seq::empty(),
    }
}

pub open spec fn or_zero(n: Option<u64>) -> usize {
    match n {
        Some(n) => n as usize,
        None => 0,
    }
}

/// The place of the text of the `n`-th change.
pub open spec fn change_place(n: nat) -> Seq<char> {
    "/params/contentChanges/"@ + text::decimal(n) + "/text"@
}

/// The text of the last change, if there is a change.
pub open spec fn last_change(body: Seq<u8>) -> Option<Seq<char>> {
    match json_count(body, "/params/contentChanges"@) {
        Some(n) => if n > 0 {
            Some(or_empty(json_text(body, change_place((n - 1) as nat))))
        } else {
            None
        },
        None => None,
    }
}

/// The message in a body.
pub open spec fn message_in(body: Seq<u8>) -> MessageM {
    MessageM {
        method: or_empty(json_text(body, "/method"@)),
        id: json_shown(body, "/id"@),
        uri: or_empty(json_text(body, "/params/textDocument/uri"@)),
        text: or_empty(json_text(body, "/params/textDocument/text"@)),
        change: last_change(body),
        line: or_zero(json_number(body, "/params/position/line"@)),
        character: or_zero(json_number(body, "/params/position/character"@)),
    }
}

/// The string at a place, empty if there is none.
fn str_field(body: &Vec<u8>, place: &str) -> (r: String)
    ensures
        r@ == or_empty(json_text(body@, place@)),
{
    match text_at(body, place) {
        Some(s) => s,
        None => {
            let none = String::new();
            assert(none@ =~= Seq::empty());
            none
        },
    }
}

/// The number at a place, 0 if there is none.
fn number_field(body: &Vec<u8>, place: &str) -> (r: usize)
    ensures
        r == or_zero(json_number(body@, place@)),
{
    match number_at(body, place) {
        Some(n) => n as usize,
        None => 0,
    }
}

/// The message in a body. Of a body that is no JSON document nothing is read: the
/// message has neither method nor id.
pub fn decode(body: &Vec<u8>) -> (r: Message)
    ensures
        r@ == message_in(body@),
{
    let change = match count_at(body, "/params/contentChanges") {
        Some(n) => if n > 0 {
            let place = text::cat3(
                "/params/contentChanges/",
                text::decimal_text(n - 1).as_str(),
                "/text",
            );
            Some(str_field(body, place.as_str()))
        } else {
            None
        },
        None => None,
    };
    Message {
        method: str_field(body, "/method"),
        id: shown_at(body, "/id"),
        uri: str_field(body, "/params/textDocument/uri"),
        text: str_field(body, "/params/textDocument/text"),
        change,
        line: number_field(body, "/params/position/line"),
        character: number_field(body, "/params/position/character"),
    }
}

/// The text from `i` on with every `%20` read as a space.
pub open spec fn spaces_decoded(s: Seq<char>, i: int) -> Seq<char>
    decreases s.len() - i,
{
    if i < 0 || i >= s.len() {
        Seq::empty()
    } else if text::occurs_at(s, "%20"@, i) && i + 3 <= s.len() {
        seq![' '] + spaces_decoded(s, i + 3)
    } else {
        seq![s[i]] + spaces_decoded(s, i + 1)
    }
}

fn decode_spaces(v: &Vec<char>) -> (r: Vec<char>)
    ensures
        r@ == spaces_decoded(v@, 0),
{
    let mut out: Vec<char> = Vec::new();
    let mut i: usize = 0;
    assert(out@ + spaces_decoded(v@, 0) =~= spaces_decoded(v@, 0));
    while i < v.len()
        invariant
            i <= v.len(),
            spaces_decoded(v@, 0) == out@ + spaces_decoded(v@, i as int),
        decreases v@.len() - i,
    {
        proof {
            reveal_strlit("%20");
        }
        let ghost before = out@;
        if text::holds_text_at(v, "%20", i) {
            let ghost rest = spaces_decoded(v@, i + 3);
            out.push(' ');
            assert(before + (seq![' '] + rest) =~= out@ + rest);
            i = i + 3;
        } else {
            let ghost rest = spaces_decoded(v@, i + 1);
            out.push(v[i]);
            assert(before + (seq![v@[i as int]] + rest) =~= out@ + rest);
            i = i + 1;
        }
    }
    assert(out@ + Seq::empty() =~= out@);
    out
}

/// The file that a URI names: what stands after the scheme, with its spaces
/// decoded.
pub open spec fn path_of(uri: Seq<char>) -> Seq<char> {
    spaces_decoded(
        match text::after_prefix(uri, "file://"@) {
            Some(p) => p,
            None => uri,
        },
        0,
    )
}

/// The file that a URI names: `file:///home/a%20b.jo` is `/home/a b.jo`. Of the
/// percent codes only the most common one, that of a space, is decoded.
pub fn uri_to_path(uri: &str) -> (r: String)
    ensures
        r@ == path_of(uri@),
{
    let chars = text::to_chars(uri);
    let path = match text::strip_head(&chars, "file://") {
        Some(p) => p,
        None => chars,
    };
    text::all_text(&decode_spaces(&path))
}

// ---------------------------------------------------------------------------
// Handling
// ---------------------------------------------------------------------------

/// What a request is answered.
pub enum Reply {
    /// what the server can do
    Capabilities,
    Null,
    Completions(Vec<CompletionItem>),
}

pub enum ReplyM {
    Capabilities,
    Null,
    Completions(Seq<CompletionItemM>),
}

impl View for Reply {
    type V = ReplyM;

    open spec fn view(&self) -> ReplyM {
        match self {
            Reply::Capabilities => ReplyM::Capabilities,
            Reply::Null => ReplyM::Null,
            Reply::Completions(items) => ReplyM::Completions(completion::items_view(items@)),
        }
    }
}

/// What is to be done on a message.
pub enum Action {
    Nothing,
    Exit,
    /// Answer the request of this id.
    Respond { id: String, reply: Reply },
    /// Run the compiler on the file and publish what it finds.
    Lint { uri: String, path: String },
    /// Publish that there is nothing to find.
    Clear { uri: String },
}

pub enum ActionM {
    Nothing,
    Exit,
    Respond { id: Seq<char>, reply: ReplyM },
    Lint { uri: Seq<char>, path: Seq<char> },
    Clear { uri: Seq<char> },
}

impl View for Action {
    type V = ActionM;

    open spec fn view(&self) -> ActionM {
        match self {
            Action::Nothing => ActionM::Nothing,
            Action::Exit => ActionM::Exit,
            Action::Respond { id, reply } => ActionM::Respond { id: id@, reply: reply@ },
            Action::Lint { uri, path } => ActionM::Lint { uri: uri@, path: path@ },
            Action::Clear { uri } => ActionM::Clear { uri: uri@ },
        }
    }
}

/// The server's state: the open documents by their URIs.
pub struct Server {
    pub docs: Vec<(String, DocState)>,
}

pub open spec fn docs_view(s: Seq<(String, DocState)>) -> Seq<(Seq<char>, DocM)> {
    Seq::new(s.len(), |i: int| (s[i].0@, s[i].1@))
}

impl View for Server {
    type V = Seq<(Seq<char>, DocM)>;

    open spec fn view(&self) -> Seq<(Seq<char>, DocM)> {
        docs_view(self.docs@)
    }
}

/// The place of the document of that URI, from the `k`-th on.
pub open spec fn doc_index(docs: Seq<(Seq<char>, DocM)>, uri: Seq<char>, k: int) -> Option<int>
    decreases docs.len() - k,
{
    if k < 0 || k >= docs.len() {
        None
    } else if docs[k].0 == uri {
        Some(k)
    } else {
        doc_index(docs, uri, k + 1)
    }
}

/// The document of that URI.
pub open spec fn doc_at(docs: Seq<(Seq<char>, DocM)>, uri: Seq<char>) -> Option<DocM> {
    match doc_index(docs, uri, 0) {
        Some(k) => Some(docs[k].1),
        None => None,
    }
}

pub open spec fn with_doc(docs: Seq<(Seq<char>, DocM)>, uri: Seq<char>, doc: DocM) -> Seq<
    (Seq<char>, DocM),
> {
    match doc_index(docs, uri, 0) {
        Some(k) => docs.update(k, (uri, doc)),
        None => docs.push((uri, doc)),
    }
}

pub open spec fn without_doc(docs: Seq<(Seq<char>, DocM)>, uri: Seq<char>) -> Seq<
    (Seq<char>, DocM),
> {
    match doc_index(docs, uri, 0) {
        Some(k) => docs.remove(k),
        None => docs,
    }
}

/// The answer to a request; a notification has no id and gets none.
pub open spec fn answer(id: Option<Seq<char>>, reply: ReplyM) -> ActionM {
    match id {
        Some(id) => ActionM::Respond { id, reply },
        None => ActionM::Nothing,
    }
}

/// The documents after a change of one: the text is replaced, and a document
/// that was not open is opened.
pub open spec fn changed(docs: Seq<(Seq<char>, DocM)>, uri: Seq<char>, new_text: Seq<char>) -> Seq<
    (Seq<char>, DocM),
> {
    match doc_at(docs, uri) {
        Some(doc) => with_doc(docs, uri, completion::doc_of(new_text, doc.path)),
        None => with_doc(docs, uri, completion::doc_of(new_text, path_of(uri))),
    }
}

/// What is offered in the document of that URI, nothing if it is not open.
pub open spec fn offered(
    docs: Seq<(Seq<char>, DocM)>,
    uri: Seq<char>,
    line: nat,
    col: nat,
) -> Seq<CompletionItemM> {
    match doc_at(docs, uri) {
        Some(doc) => completion::offers(doc.text, doc.symbols, line, col),
        None => Seq::empty(),
    }
}

/// The documents after a message, and what is to be done.
pub open spec fn handled(docs: Seq<(Seq<char>, DocM)>, m: MessageM) -> (
    Seq<(Seq<char>, DocM)>,
    ActionM,
) {
    if m.method == "initialize"@ {
        (docs, answer(m.id, ReplyM::Capabilities))
    } else if m.method == "initialized"@ {
        (docs, ActionM::Nothing)
    } else if m.method == "shutdown"@ {
        (docs, answer(m.id, ReplyM::Null))
    } else if m.method == "exit"@ {
        (docs, ActionM::Exit)
    } else if m.method == "textDocument/didOpen"@ {
        (
            with_doc(docs, m.uri, completion::doc_of(m.text, path_of(m.uri))),
            ActionM::Lint { uri: m.uri, path: path_of(m.uri) },
        )
    } else if m.method == "textDocument/didChange"@ {
        (
            match m.change {
                Some(t) => changed(docs, m.uri, t),
                None => docs,
            },
            ActionM::Nothing,
        )
    } else if m.method == "textDocument/didSave"@ {
        (docs, ActionM::Lint { uri: m.uri, path: path_of(m.uri) })
    } else if m.method == "textDocument/didClose"@ {
        (without_doc(docs, m.uri), ActionM::Clear { uri: m.uri })
    } else if m.method == "textDocument/completion"@ {
        let items = offered(docs, m.uri, m.line as nat, m.character as nat);
        (docs, answer(m.id, ReplyM::Completions(items)))
    } else {
        (docs, answer(m.id, ReplyM::Null))
    }
}

/// Whether each document is listed once, with the symbols of its text.
pub open spec fn docs_sound(docs: Seq<(Seq<char>, DocM)>) -> bool {
    &&& forall|i: int, j: int|
        0 <= i < j < docs.len() ==> (#[trigger] docs[i]).0 != (#[trigger] docs[j]).0
    &&& forall|i: int|
        0 <= i < docs.len() ==> (#[trigger] docs[i]).1.symbols == symbols::symbols_of(
            docs[i].1.text,
        )
}

fn respond(id: Option<String>, reply: Reply) -> (r: Action)
    ensures
        r@ == answer(opt_text(id), reply@),
{
    match id {
        Some(id) => Action::Respond { id, reply },
        None => Action::Nothing,
    }
}

impl Server {
    pub open spec fn wf(&self) -> bool {
        docs_sound(self@)
    }

    pub fn new() -> (r: Server)
        ensures
            r@ == Seq::<(Seq<char>, DocM)>::empty(),
            r.wf(),
    {
        let r = Server { docs: Vec::new() };
        assert(r@ =~= Seq::<(Seq<char>, DocM)>::empty());
        r
    }

    fn find(&self, uri: &str) -> (r: Option<usize>)
        ensures
            match r {
                Some(k) => k < self.docs@.len() && doc_index(self@, uri@, 0) == Some(k as int),
                None => doc_index(self@, uri@, 0) is None,
            },
    {
        let ghost v = self@;
        let mut k: usize = 0;
        while k < self.docs.len()
            invariant
                k <= self.docs@.len(),
                v == docs_view(self.docs@),
                v == self@,
                doc_index(v, uri@, 0) == doc_index(v, uri@, k as int),
            decreases self.docs@.len() - k,
        {
            if text::text_eq(self.docs[k].0.as_str(), uri) {
                return Some(k);
            }
            k = k + 1;
        }
        None
    }

    fn put(&mut self, uri: String, doc: DocState)
        ensures
            final(self)@ == with_doc(old(self)@, uri@, doc@),
    {
        let ghost before = self@;
        let ghost next = (uri@, doc@);
        match self.find(uri.as_str()) {
            Some(k) => {
                self.docs.set(k, (uri, doc));
                assert(self@ =~= before.update(k as int, next));
            },
            None => {
                self.docs.push((uri, doc));
                assert(self@ =~= before.push(next));
            },
        }
    }

    fn change(&mut self, uri: String, new_text: String)
        ensures
            final(self)@ == changed(old(self)@, uri@, new_text@),
    {
        let ghost before = self@;
        match self.find(uri.as_str()) {
            Some(k) => {
                let ghost next = (uri@, completion::doc_of(new_text@, before[k as int].1.path));
                proof {
                    doc_index_spec(before, uri@, 0);
                }
                self.docs[k].1.update(new_text);
                assert(self@ =~= before.update(k as int, next));
            },
            None => {
                let path = uri_to_path(uri.as_str());
                self.put(uri, DocState::new(new_text, path));
            },
        }
    }

    /// Take in a message and say what is to be done.
    pub fn handle(&mut self, msg: Message) -> (r: Action)
        ensures
            (final(self)@, r@) == handled(old(self)@, msg@),
            old(self).wf() ==> final(self).wf(),
    {
        proof {
            handling_keeps_documents_sound(self@, msg@);
        }
        let method = msg.method.as_str();
        if text::text_eq(method, "initialize") {
            respond(msg.id, Reply::Capabilities)
        } else if text::text_eq(method, "initialized") {
            Action::Nothing
        } else if text::text_eq(method, "shutdown") {
            respond(msg.id, Reply::Null)
        } else if text::text_eq(method, "exit") {
            Action::Exit
        } else if text::text_eq(method, "textDocument/didOpen") {
            let path = uri_to_path(msg.uri.as_str());
            self.put(msg.uri.clone(), DocState::new(msg.text, path.clone()));
            Action::Lint { uri: msg.uri, path }
        } else if text::text_eq(method, "textDocument/didChange") {
            // Findings are brought up to date on save, not on every keystroke.
            if let Some(new_text) = msg.change {
                self.change(msg.uri, new_text);
            }
            Action::Nothing
        } else if text::text_eq(method, "textDocument/didSave") {
            let path = uri_to_path(msg.uri.as_str());
            Action::Lint { uri: msg.uri, path }
        } else if text::text_eq(method, "textDocument/didClose") {
            let ghost before = self@;
            if let Some(k) = self.find(msg.uri.as_str()) {
                self.docs.remove(k);
                assert(self@ =~= before.remove(k as int));
            }
            Action::Clear { uri: msg.uri }
        } else if text::text_eq(method, "textDocument/completion") {
            let items = match self.find(msg.uri.as_str()) {
                Some(k) => self.docs[k].1.completions(msg.line, msg.character),
                None => {
                    let none: Vec<CompletionItem> = Vec::new();
                    assert(completion::items_view(none@) =~= Seq::empty());
                    none
                },
            };
            respond(msg.id, Reply::Completions(items))
        } else {
            respond(msg.id, Reply::Null)
        }
    }
}

pub(crate) proof fn doc_index_spec(docs: Seq<(Seq<char>, DocM)>, uri: Seq<char>, k: int)
    requires
        0 <= k,
    ensures
        match doc_index(docs, uri, k) {
            Some(i) => k <= i < docs.len() && docs[i].0 == uri,
            None => forall|i: int| k <= i < docs.len() ==> (#[trigger] docs[i]).0 != uri,
        },
    decreases docs.len() - k,
{
    if k < docs.len() && docs[k].0 != uri {
        doc_index_spec(docs, uri, k + 1);
    }
}

/// No message makes the server list a document twice, or keep symbols of a text
/// that is no longer current.
pub proof fn handling_keeps_documents_sound(docs: Seq<(Seq<char>, DocM)>, m: MessageM)
    ensures
        docs_sound(docs) ==> docs_sound(handled(docs, m).0),
{
    doc_index_spec(docs, m.uri, 0);
}

/// Every request is answered, under its own id: a message with an id is answered
/// at once, unless it is one of those that ask for no answer.
pub proof fn requests_are_answered(docs: Seq<(Seq<char>, DocM)>, m: MessageM)
    requires
        m.id is Some,
        m.method != "initialized"@,
        m.method != "exit"@,
        m.method != "textDocument/didOpen"@,
        m.method != "textDocument/didChange"@,
        m.method != "textDocument/didSave"@,
        m.method != "textDocument/didClose"@,
    ensures
        handled(docs, m).1 is Respond,
        handled(docs, m).1->Respond_id == m.id->0,
{
}

/// A message without an id is never answered.
pub proof fn notifications_are_not_answered(docs: Seq<(Seq<char>, DocM)>, m: MessageM)
    requires
        m.id is None,
    ensures
        !(handled(docs, m).1 is Respond),
{
}

/// The compiler runs on saved files only: when a document is opened or saved, and
/// on the file that its URI names. A change does not run it.
pub proof fn only_saved_files_are_linted(docs: Seq<(Seq<char>, DocM)>, m: MessageM)
    ensures
        handled(docs, m).1 is Lint <==> (m.method == "textDocument/didOpen"@ || m.method
            == "textDocument/didSave"@),
        handled(docs, m).1 is Lint ==> handled(docs, m).1->path == path_of(m.uri),
        m.method == "textDocument/didChange"@ ==> handled(docs, m).1 is Nothing,
{
    methods_differ();
}

proof fn methods_differ()
    ensures
        "textDocument/didOpen"@ != "initialize"@,
        "textDocument/didOpen"@ != "initialized"@,
        "textDocument/didOpen"@ != "shutdown"@,
        "textDocument/didOpen"@ != "exit"@,
        "textDocument/didChange"@ != "initialize"@,
        "textDocument/didChange"@ != "initialized"@,
        "textDocument/didChange"@ != "shutdown"@,
        "textDocument/didChange"@ != "exit"@,
        "textDocument/didChange"@ != "textDocument/didOpen"@,
        "textDocument/didSave"@ != "initialize"@,
        "textDocument/didSave"@ != "initialized"@,
        "textDocument/didSave"@ != "shutdown"@,
        "textDocument/didSave"@ != "exit"@,
        "textDocument/didSave"@ != "textDocument/didOpen"@,
        "textDocument/didSave"@ != "textDocument/didChange"@,
        "textDocument/didClose"@ != "initialize"@,
        "textDocument/didClose"@ != "initialized"@,
        "textDocument/didClose"@ != "shutdown"@,
        "textDocument/didClose"@ != "exit"@,
        "textDocument/didClose"@ != "textDocument/didOpen"@,
        "textDocument/didClose"@ != "textDocument/didChange"@,
        "textDocument/didClose"@ != "textDocument/didSave"@,
{
    reveal_strlit("initialize");
    reveal_strlit("initialized");
    reveal_strlit("shutdown");
    reveal_strlit("exit");
    reveal_strlit("textDocument/didOpen");
    reveal_strlit("textDocument/didChange");
    reveal_strlit("textDocument/didSave");
    reveal_strlit("textDocument/didClose");
    assert("textDocument/didOpen"@[16] == 'O');
    assert("textDocument/didChange"@[16] == 'C');
    assert("textDocument/didSave"@[16] == 'S');
    assert("textDocument/didClose"@[16] == 'C');
    assert("textDocument/didOpen"@.len() == 20);
    assert("textDocument/didChange"@.len() == 22);
    assert("textDocument/didSave"@.len() == 20);
    assert("textDocument/didClose"@.len() == 21);
}

/// After a document is opened or changed, its current text is the one that the
/// message carried, and completion works on the symbols of that text.
pub proof fn latest_text_counts(
    docs: Seq<(Seq<char>, DocM)>,
    m: MessageM,
    new_text: Seq<char>,
    line: nat,
    col: nat,
)
    requires
        (m.method == "textDocument/didOpen"@ && m.text == new_text) || (m.method
            == "textDocument/didChange"@ && m.change == Some(new_text)),
    ensures
        offered(handled(docs, m).0, m.uri, line, col) == completion::offers(
            new_text,
            symbols::symbols_of(new_text),
            line,
            col,
        ),
{
    methods_differ();
    let after = handled(docs, m).0;
    doc_index_spec(docs, m.uri, 0);
    doc_index_spec(after, m.uri, 0);
    match doc_index(docs, m.uri, 0) {
        Some(k) => {
            first_stays(docs, m.uri, after[k].1, k, 0);
        },
        None => {
            last_is_found(docs, m.uri, after.last().1, 0);
        },
    }
}

proof fn first_stays(docs: Seq<(Seq<char>, DocM)>, uri: Seq<char>, doc: DocM, k: int, i: int)
    requires
        0 <= i <= k < docs.len(),
        doc_index(docs, uri, i) == Some(k),
    ensures
        doc_index(docs.update(k, (uri, doc)), uri, i) == Some(k),
    decreases k - i,
{
    if i < k {
        first_stays(docs, uri, doc, k, i + 1);
    }
}

proof fn last_is_found(docs: Seq<(Seq<char>, DocM)>, uri: Seq<char>, doc: DocM, i: int)
    requires
        0 <= i <= docs.len(),
        doc_index(docs, uri, i) is None,
    ensures
        doc_index(docs.push((uri, doc)), uri, i) == Some(docs.len() as int),
    decreases docs.len() - i,
{
    if i < docs.len() {
        last_is_found(docs, uri, doc, i + 1);
    }
}

/// A document that was closed is forgotten: nothing is offered in it.
pub proof fn closed_is_forgotten(
    docs: Seq<(Seq<char>, DocM)>,
    m: MessageM,
    line: nat,
    col: nat,
)
    requires
        docs_sound(docs),
        m.method == "textDocument/didClose"@,
    ensures
        doc_at(handled(docs, m).0, m.uri) is None,
        offered(handled(docs, m).0, m.uri, line, col) == Seq::<CompletionItemM>::empty(),
{
    methods_differ();
    let after = handled(docs, m).0;
    doc_index_spec(docs, m.uri, 0);
    doc_index_spec(after, m.uri, 0);
    if let Some(k) = doc_index(docs, m.uri, 0) {
        if let Some(i) = doc_index(after, m.uri, 0) {
            let j = if i < k { i } else { i + 1 };
            assert(after[i] == docs[j]);
            assert(docs[j].0 == docs[k].0);
        }
    }
}

} // verus!
