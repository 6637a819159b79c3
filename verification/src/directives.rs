//! What the preprocessor does to text: whole-word replacement, the definitions
//! of a module file, and `#define`.

use vstd::prelude::*;

use crate::error;
use crate::error::{DiagM, Diagnostic};
use crate::lexer;
use crate::lexer::{ScanM, TokenKind, TokenKindM};
use crate::text;
use crate::text::Class;

verus! {

// ---------------------------------------------------------------------------
// Words
// ---------------------------------------------------------------------------

/// Whether `w` stands at `i` and no identifier goes on before or after it.
pub open spec fn word_at(s: Seq<char>, w: Seq<char>, i: int) -> bool {
    &&& text::occurs_at(s, w, i)
    &&& i == 0 || !text::ident_char(s[i - 1])
    &&& i + w.len() >= s.len() || !text::ident_char(s[i + w.len()])
}

/// True if `kw` appears at `at` and is neither preceded nor followed by an
/// identifier character (so `fnx` does not match `fn`).
fn matches_keyword(chars: &Vec<char>, at: usize, kw: &str) -> (r: bool)
    ensures
        r == word_at(chars@, kw@, at as int),
{
    matches_word(chars, at, &text::to_chars(kw))
}

fn matches_word(chars: &Vec<char>, at: usize, w: &Vec<char>) -> (r: bool)
    ensures
        r == word_at(chars@, w@, at as int),
{
    if !text::holds_at(chars, w, at) {
        return false;
    }
    if at > 0 && text::test_ident_char(chars[at - 1]) {
        return false;
    }
    assert(at + w@.len() <= chars.len());
    let after: usize = at + w.len();
    !(after < chars.len() && text::test_ident_char(chars[after]))
}

/// Whether the text is an identifier.
pub open spec fn identifier(s: Seq<char>) -> bool {
    &&& s.len() > 0
    &&& text::ident_start(s[0])
    &&& text::run_end(s, 1, Class::Ident) == s.len()
}

pub fn is_ident(v: &Vec<char>) -> (r: bool)
    ensures
        r == identifier(v@),
{
    v.len() > 0 && text::test_ident_start(v[0]) && text::skip_run(v, 1, Class::Ident) == v.len()
}

/// The text from `i` on with every whole word `name` replaced by `value`.
pub open spec fn replaced_from(s: Seq<char>, i: int, name: Seq<char>, value: Seq<char>) -> Seq<
    char,
>
    decreases s.len() - i,
{
    if i < 0 || i >= s.len() {
        Seq::empty()
    } else if name.len() > 0 && word_at(s, name, i) {
        value + replaced_from(s, i + name.len(), name, value)
    } else {
        seq![s[i]] + replaced_from(s, i + 1, name, value)
    }
}

/// The text with every whole word `name` replaced by `value`.
pub open spec fn replaced(s: Seq<char>, name: Seq<char>, value: Seq<char>) -> Seq<char> {
    replaced_from(s, 0, name, value)
}

/// Replace every whole-word (identifier-boundary) occurrence of `name` with
/// `value`, inside string literals too.
pub fn replace_whole_word(src: &Vec<char>, name: &Vec<char>, value: &Vec<char>) -> (r: Vec<char>)
    ensures
        r@ == replaced(src@, name@, value@),
{
    let mut out: Vec<char> = Vec::new();
    let mut i: usize = 0;
    assert(out@ + replaced(src@, name@, value@) =~= replaced(src@, name@, value@));
    while i < src.len()
        invariant
            i <= src.len(),
            replaced(src@, name@, value@) == out@ + replaced_from(
                src@,
                i as int,
                name@,
                value@,
            ),
        decreases src@.len() - i,
    {
        let ghost before = out@;
        if name.len() > 0 && matches_word(src, i, name) {
            let ghost rest = replaced_from(src@, i + name@.len(), name@, value@);
            text::push_chars(&mut out, value);
            assert(before + (value@ + rest) =~= out@ + rest);
            assert(i + name@.len() <= src.len());
            i = i + name.len();
        } else {
            let ghost rest = replaced_from(src@, i + 1, name@, value@);
            out.push(src[i]);
            assert(before + (seq![src@[i as int]] + rest) =~= out@ + rest);
            i = i + 1;
        }
    }
    assert(out@ + Seq::empty() =~= out@);
    out
}

/// Replacing a name by itself changes nothing.
pub proof fn replacing_by_itself(s: Seq<char>, name: Seq<char>)
    ensures
        replaced(s, name, name) == s,
{
    replacing_by_itself_from(s, 0, name);
    assert(s.skip(0) =~= s);
}

proof fn replacing_by_itself_from(s: Seq<char>, i: int, name: Seq<char>)
    requires
        0 <= i <= s.len(),
    ensures
        replaced_from(s, i, name, name) == s.skip(i),
    decreases s.len() - i,
{
    if i < s.len() {
        if name.len() > 0 && word_at(s, name, i) {
            replacing_by_itself_from(s, i + name.len(), name);
            assert(s.skip(i) =~= s.subrange(i, i + name.len()) + s.skip(i + name.len()));
        } else {
            replacing_by_itself_from(s, i + 1, name);
            assert(s.skip(i) =~= seq![s[i]] + s.skip(i + 1));
        }
    } else {
        assert(s.skip(i) =~= Seq::empty());
    }
}

/// Replacing a name that the text does not hold as a word changes nothing.
pub proof fn replacing_what_is_absent(s: Seq<char>, name: Seq<char>, value: Seq<char>)
    requires
        forall|i: int| 0 <= i < s.len() ==> !word_at(s, name, i),
    ensures
        replaced(s, name, value) == s,
{
    replacing_absent_from(s, 0, name, value);
    assert(s.skip(0) =~= s);
}

proof fn replacing_absent_from(s: Seq<char>, i: int, name: Seq<char>, value: Seq<char>)
    requires
        0 <= i <= s.len(),
        forall|i: int| 0 <= i < s.len() ==> !word_at(s, name, i),
    ensures
        replaced_from(s, i, name, value) == s.skip(i),
    decreases s.len() - i,
{
    if i < s.len() {
        replacing_absent_from(s, i + 1, name, value);
        assert(s.skip(i) =~= seq![s[i]] + s.skip(i + 1));
    } else {
        assert(s.skip(i) =~= Seq::empty());
    }
}

/// Inside a word, replacement keeps the characters of the word.
proof fn replacing_inside_word(s: Seq<char>, i: int, m: int, name: Seq<char>, value: Seq<char>)
    requires
        0 < i <= s.len(),
        text::ident_char(s[i - 1]),
        0 <= m <= replaced_from(s, i, name, value).len(),
        forall|k: int|
            0 <= k < m ==> text::ident_char(#[trigger] replaced_from(s, i, name, value)[k]),
    ensures
        ({
            let r = replaced_from(s, i, name, value);
            &&& i + m <= s.len()
            &&& forall|k: int| 0 <= k < m ==> #[trigger] r[k] == s[i + k]
            &&& i + m < s.len() ==> m < r.len() && r[m] == s[i + m]
        }),
    decreases m,
{
    let r = replaced_from(s, i, name, value);
    if i < s.len() {
        let rest = replaced_from(s, i + 1, name, value);
        assert(r == seq![s[i]] + rest);
        assert(r[0] == s[i]);
        if m > 0 {
            assert(text::ident_char(r[0]));
            assert forall|k: int| 0 <= k < m - 1 implies text::ident_char(#[trigger] rest[k]) by {
                assert(rest[k] == r[k + 1]);
            }
            replacing_inside_word(s, i + 1, m - 1, name, value);
            assert forall|k: int| 0 <= k < m implies #[trigger] r[k] == s[i + k] by {
                if k > 0 {
                    assert(r[k] == rest[k - 1]);
                }
            }
            if i + m < s.len() {
                assert(r[m] == rest[m - 1]);
            }
        }
    }
}

/// A word that is left at `j` after replacement from `i` on is one that the text
/// before `i` goes on with.
proof fn replaced_words(s: Seq<char>, i: int, name: Seq<char>, value: Seq<char>, j: int)
    requires
        0 <= i <= s.len(),
        name.len() > 0,
        forall|k: int| 0 <= k < name.len() ==> text::ident_char(#[trigger] name[k]),
        forall|k: int| 0 <= k < value.len() ==> !word_at(value, name, k),
        0 <= j,
        word_at(replaced_from(s, i, name, value), name, j),
    ensures
        j == 0 && i > 0 && text::ident_char(s[i - 1]),
    decreases s.len() - i,
{
    let n = name.len() as int;
    let r = replaced_from(s, i, name, value);
    assert(r.subrange(j, j + n) == name);
    assert forall|k: int| j <= k < j + n implies #[trigger] r[k] == name[k - j] by {
        assert(r.subrange(j, j + n)[k - j] == r[k]);
    }
    if i >= s.len() {
        assert(false);
    } else if word_at(s, name, i) {
        let rest = replaced_from(s, i + n, name, value);
        let v = value.len() as int;
        assert(r == value + rest);
        if i + n < s.len() {
            assert(!text::ident_char(s[i + n]));
            if word_at(s, name, i + n) {
                assert(s.subrange(i + n, i + n + n)[0] == name[0]);
            }
            assert(rest[0] == s[i + n]);
            assert(r[v] == s[i + n]);
        }
        if j < v {
            if j + n > v {
                assert(r[v] == name[v - j]);
            }
            assert(value.subrange(j, j + n) =~= name);
            assert(word_at(value, name, j));
        } else {
            assert(r[j] == rest[j - v]);
            assert(rest.subrange(j - v, j - v + n) =~= name);
            if j > v {
                assert(rest[j - v - 1] == r[j - 1]);
            }
            if j + n < r.len() {
                assert(rest[j - v + n] == r[j + n]);
            }
            assert(word_at(rest, name, j - v));
            replaced_words(s, i + n, name, value, j - v);
        }
    } else {
        let rest = replaced_from(s, i + 1, name, value);
        assert(r == seq![s[i]] + rest);
        if j > 0 {
            assert(rest.subrange(j - 1, j - 1 + n) =~= name);
            if j > 1 {
                assert(rest[j - 2] == r[j - 1]);
            }
            if j + n < r.len() {
                assert(rest[j - 1 + n] == r[j + n]);
            }
            assert(word_at(rest, name, j - 1));
            replaced_words(s, i + 1, name, value, j - 1);
            assert(r[0] == s[i]);
        } else if !(i > 0 && text::ident_char(s[i - 1])) {
            assert(r[0] == s[i]);
            assert(r[0] == name[0]);
            assert forall|k: int| 0 <= k < n - 1 implies text::ident_char(#[trigger] rest[k]) by {
                assert(rest[k] == r[k + 1]);
            }
            replacing_inside_word(s, i + 1, n - 1, name, value);
            assert forall|k: int| 0 <= k < n implies #[trigger] s[i + k] == name[k] by {
                assert(r[k] == name[k]);
                if k > 0 {
                    assert(rest[k - 1] == r[k]);
                    assert(rest[k - 1] == s[i + 1 + (k - 1)]);
                }
            }
            assert(s.subrange(i, i + n) =~= name);
            if i + n < s.len() {
                assert(rest[n - 1] == r[n]);
            }
            assert(word_at(s, name, i));
        }
    }
}

/// Replacing a name by a text that does not hold it leaves no such word, and
/// doing it again changes nothing.
pub proof fn replacing_leaves_no_word(s: Seq<char>, name: Seq<char>, value: Seq<char>)
    requires
        name.len() > 0,
        forall|k: int| 0 <= k < name.len() ==> text::ident_char(#[trigger] name[k]),
        forall|k: int| 0 <= k < value.len() ==> !word_at(value, name, k),
    ensures
        forall|j: int|
            0 <= j < replaced(s, name, value).len() ==> !word_at(
                replaced(s, name, value),
                name,
                j,
            ),
        replaced(replaced(s, name, value), name, value) == replaced(s, name, value),
{
    let r = replaced(s, name, value);
    assert forall|j: int| 0 <= j < r.len() implies !word_at(r, name, j) by {
        if word_at(r, name, j) {
            replaced_words(s, 0, name, value, j);
        }
    }
    replacing_what_is_absent(r, name, value);
}

// ---------------------------------------------------------------------------
// Definitions of a module file
// ---------------------------------------------------------------------------

/// The end of the brace block from `i` on, when `depth` braces are open. Without
/// its closing brace the block goes on to the end of the text.
pub open spec fn block_end(s: Seq<char>, i: int, depth: nat) -> int
    decreases s.len() - i,
{
    if i < 0 || i >= s.len() {
        i
    } else if s[i] == '{' {
        block_end(s, i + 1, depth + 1)
    } else if s[i] == '}' {
        if depth <= 1 {
            i + 1
        } else {
            block_end(s, i + 1, (depth - 1) as nat)
        }
    } else {
        block_end(s, i + 1, depth)
    }
}

proof fn block_end_spec(s: Seq<char>, i: int, depth: nat)
    requires
        0 <= i <= s.len(),
    ensures
        i <= block_end(s, i, depth) <= s.len(),
    decreases s.len() - i,
{
    if i < s.len() {
        if s[i] == '{' {
            block_end_spec(s, i + 1, depth + 1);
        } else if s[i] == '}' {
            if depth > 1 {
                block_end_spec(s, i + 1, (depth - 1) as nat);
            }
        } else {
            block_end_spec(s, i + 1, depth);
        }
    }
}

fn skip_block(v: &Vec<char>, i: usize) -> (r: usize)
    requires
        i <= v.len(),
    ensures
        r == block_end(v@, i as int, 0),
        i <= r <= v@.len(),
{
    let mut depth: usize = 0;
    let mut k: usize = i;
    while k < v.len()
        invariant
            i <= k <= v.len(),
            depth <= k,
            block_end(v@, i as int, 0) == block_end(v@, k as int, depth as nat),
        decreases v@.len() - k,
    {
        if v[k] == '{' {
            depth = depth + 1;
        } else if v[k] == '}' {
            if depth <= 1 {
                return k + 1;
            }
            depth = depth - 1;
        }
        k = k + 1;
    }
    k
}

/// The name after the keyword that ends at `i`: where it starts and ends.
pub open spec fn name_after(s: Seq<char>, i: int) -> (int, int) {
    let a = text::run_end(s, i, Class::Blank);
    (a, text::run_end(s, a, Class::Ident))
}

/// A definition that starts at `i` with the keyword `kw`: its name, where its
/// block starts, and where it ends.
pub open spec fn definition(s: Seq<char>, i: int, kw: Seq<char>) -> (Seq<char>, int, int) {
    let (a, b) = name_after(s, i + kw.len());
    let open = text::run_end(s, b, Class::Not('{'));
    (s.subrange(a, b), open, block_end(s, open, 0))
}

pub open spec fn definition_keyword(s: Seq<char>, i: int) -> Option<Seq<char>> {
    if word_at(s, "struct"@, i) {
        Some("struct"@)
    } else if word_at(s, "fn"@, i) {
        Some("fn"@)
    } else {
        None
    }
}

proof fn definition_spec(s: Seq<char>, i: int)
    requires
        0 <= i < s.len(),
        definition_keyword(s, i) is Some,
    ensures
        ({
            let kw = definition_keyword(s, i)->0;
            let (a, b) = name_after(s, i + kw.len());
            let (_, open, end) = definition(s, i, kw);
            &&& kw.len() > 0
            &&& i + kw.len() <= a <= b <= open <= end <= s.len()
        }),
{
    reveal_strlit("struct");
    reveal_strlit("fn");
    let kw = definition_keyword(s, i)->0;
    text::run_end_spec(s, i + kw.len(), Class::Blank);
    let a = text::run_end(s, i + kw.len(), Class::Blank);
    text::run_end_spec(s, a, Class::Ident);
    let b = text::run_end(s, a, Class::Ident);
    text::run_end_spec(s, b, Class::Not('{'));
    block_end_spec(s, text::run_end(s, b, Class::Not('{')), 0);
}

/// The end of the `extend` block whose keyword stands at `i`. It is one where a
/// name, which may be qualified, and a brace follow the keyword.
pub open spec fn extension_end(s: Seq<char>, i: int) -> Option<int> {
    match text_name(s, i + 6) {
        None => None,
        Some(a) => {
            let b = text::run_end(s, a, Class::White);
            let name = if b + 1 < s.len() && s[b] == ':' && s[b + 1] == ':' {
                text_name(s, b + 2)
            } else {
                Some(a)
            };
            match name {
                None => None,
                Some(c) => {
                    let open = text::run_end(s, c, Class::White);
                    if open < s.len() && s[open] == '{' {
                        Some(block_end(s, open, 0))
                    } else {
                        None
                    }
                },
            }
        },
    }
}

/// The end of the name that follows at `i`, after white space.
pub open spec fn text_name(s: Seq<char>, i: int) -> Option<int> {
    let a = text::run_end(s, i, Class::White);
    let b = text::run_end(s, a, Class::Ident);
    if a < b {
        Some(b)
    } else {
        None
    }
}

proof fn text_name_spec(s: Seq<char>, i: int)
    requires
        0 <= i <= s.len(),
    ensures
        text_name(s, i) matches Some(e) ==> i <= e <= s.len(),
{
    text::run_end_spec(s, i, Class::White);
    text::run_end_spec(s, text::run_end(s, i, Class::White), Class::Ident);
}

fn skip_name(v: &Vec<char>, i: usize) -> (r: Option<usize>)
    requires
        i <= v.len(),
    ensures
        match r {
            Some(e) => text_name(v@, i as int) == Some(e as int) && i <= e <= v@.len(),
            None => text_name(v@, i as int) is None,
        },
{
    let a = text::skip_run(v, i, Class::White);
    let b = text::skip_run(v, a, Class::Ident);
    if a < b {
        Some(b)
    } else {
        None
    }
}

/// Skip the `extend` block whose keyword stands at `i`, if it is one.
fn skip_extension(v: &Vec<char>, i: usize) -> (r: Option<usize>)
    requires
        i < v.len(),
        word_at(v@, "extend"@, i as int),
    ensures
        match r {
            Some(e) => extension_end(v@, i as int) == Some(e as int) && i < e <= v@.len(),
            None => extension_end(v@, i as int) is None,
        },
{
    proof {
        extension_spec(v@, i as int);
    }
    let a = match skip_name(v, i + 6) {
        Some(a) => a,
        None => {
            return None;
        },
    };
    let b = text::skip_run(v, a, Class::White);
    let c = if b < v.len() && b + 1 < v.len() && v[b] == ':' && v[b + 1] == ':' {
        match skip_name(v, b + 2) {
            Some(c) => c,
            None => {
                return None;
            },
        }
    } else {
        a
    };
    let open = text::skip_run(v, c, Class::White);
    if open < v.len() && v[open] == '{' {
        Some(skip_block(v, open))
    } else {
        None
    }
}

proof fn extension_spec(s: Seq<char>, i: int)
    requires
        0 <= i < s.len(),
        word_at(s, "extend"@, i),
    ensures
        i + 6 <= s.len(),
        match extension_end(s, i) {
            Some(e) => i < e <= s.len(),
            None => true,
        },
{
    reveal_strlit("extend");
    text_name_spec(s, i + 6);
    if let Some(a) = text_name(s, i + 6) {
        text::run_end_spec(s, a, Class::White);
        let b = text::run_end(s, a, Class::White);
        if b + 1 < s.len() {
            text_name_spec(s, b + 2);
        }
        let c = if b + 1 < s.len() && s[b] == ':' && s[b + 1] == ':' {
            text_name(s, b + 2)
        } else {
            Some(a)
        };
        if let Some(c) = c {
            text::run_end_spec(s, c, Class::White);
            block_end_spec(s, text::run_end(s, c, Class::White), 0);
        }
    }
}

/// The definitions from `i` on: name and text of each `struct` and `fn`, in the
/// order of the file. An `extend` block is passed over whole, other text
/// character by character. A definition without a brace ends the search.
pub open spec fn definitions_from(s: Seq<char>, i: int) -> Seq<(Seq<char>, Seq<char>)>
    decreases s.len() - i,
    when 0 <= i
    via definitions_from_decreases
{
    if i >= s.len() {
        Seq::empty()
    } else if text::is_white(s[i]) {
        definitions_from(s, i + 1)
    } else if s[i] == '/' && i + 1 < s.len() && s[i + 1] == '/' {
        definitions_from(s, text::run_end(s, i, Class::Not('\n')))
    } else if word_at(s, "extend"@, i) && extension_end(s, i) is Some {
        definitions_from(s, extension_end(s, i)->0)
    } else {
        match definition_keyword(s, i) {
            Some(kw) => {
                let (name, open, end) = definition(s, i, kw);
                if open >= s.len() {
                    Seq::empty()
                } else if name.len() == 0 {
                    definitions_from(s, end)
                } else {
                    seq![(name, s.subrange(i, end))] + definitions_from(s, end)
                }
            },
            None => definitions_from(s, i + 1),
        }
    }
}

/// The keyword of an `extend` block starts no definition.
proof fn not_a_definition(s: Seq<char>, i: int)
    requires
        word_at(s, "extend"@, i),
    ensures
        definition_keyword(s, i) is None,
{
    reveal_strlit("extend");
    reveal_strlit("struct");
    reveal_strlit("fn");
    assert(s.subrange(i, i + 6)[0] == 'e');
    assert(s[i] == 'e');
    if word_at(s, "struct"@, i) {
        assert(s.subrange(i, i + 6)[0] == 's');
    }
    if word_at(s, "fn"@, i) {
        assert(s.subrange(i, i + 2)[0] == 'f');
    }
}

#[via_fn]
proof fn definitions_from_decreases(s: Seq<char>, i: int) {
    if i < s.len() {
        if definition_keyword(s, i) is Some {
            definition_spec(s, i);
        }
        if word_at(s, "extend"@, i) {
            extension_spec(s, i);
        }
        text::run_end_spec(s, i + 1, Class::Not('\n'));
    }
}

pub open spec fn definitions(s: Seq<char>) -> Seq<(Seq<char>, Seq<char>)> {
    definitions_from(s, 0)
}

pub open spec fn pairs_view(v: Seq<(Vec<char>, Vec<char>)>) -> Seq<(Seq<char>, Seq<char>)> {
    Seq::new(v.len(), |i: int| (v[i].0@, v[i].1@))
}

/// Index every top-level `struct NAME { ... }` and `fn NAME(...) ... { ... }` in
/// a module file, returning (name, full-source-text) pairs in file order. The
/// methods of an `extend` block are not top-level.
pub fn index_top_level_defs(chars: &Vec<char>) -> (r: Vec<(Vec<char>, Vec<char>)>)
    ensures
        pairs_view(r@) == definitions(chars@),
{
    let mut defs: Vec<(Vec<char>, Vec<char>)> = Vec::new();
    let mut i: usize = 0;
    assert(pairs_view(defs@) + definitions(chars@) =~= definitions(chars@));
    while i < chars.len()
        invariant
            i <= chars.len(),
            definitions(chars@) == pairs_view(defs@) + definitions_from(chars@, i as int),
        decreases chars@.len() - i,
    {
        proof {
            if definition_keyword(chars@, i as int) is Some {
                definition_spec(chars@, i as int);
            }
            if word_at(chars@, "extend"@, i as int) {
                extension_spec(chars@, i as int);
            }
            text::run_end_spec(chars@, i + 1, Class::Not('\n'));
        }
        // Skip whitespace and line comments at top level.
        if text::test_white(chars[i]) {
            i = i + 1;
        } else if chars[i] == '/' && i + 1 < chars.len() && chars[i + 1] == '/' {
            i = text::skip_run(chars, i, Class::Not('\n'));
        } else if matches_keyword(chars, i, "extend") {
            proof {
                not_a_definition(chars@, i as int);
            }
            i = match skip_extension(chars, i) {
                Some(end) => end,
                None => i + 1,
            };
        } else if matches_keyword(chars, i, "struct") || matches_keyword(chars, i, "fn") {
            let is_struct = matches_keyword(chars, i, "struct");
            let kw = if is_struct {
                "struct"
            } else {
                "fn"
            };
            let n = text::to_chars(kw).len();
            let a = text::skip_run(chars, i + n, Class::Blank);
            let b = text::skip_run(chars, a, Class::Ident);
            // Advance to the first '{' (skipping the param list / return type).
            let open = text::skip_run(chars, b, Class::Not('{'));
            if open >= chars.len() {
                assert(pairs_view(defs@) + Seq::empty() =~= pairs_view(defs@));
                return defs;
            }
            // Consume the balanced brace block.
            let end = skip_block(chars, open);
            if b > a {
                let name = text::slice_chars(chars, a, b);
                let def = text::slice_chars(chars, i, end);
                let ghost before = defs@;
                let ghost next = (name@, def@);
                let ghost rest = definitions_from(chars@, end as int);
                defs.push((name, def));
                assert(pairs_view(defs@) =~= pairs_view(before).push(next));
                assert(pairs_view(before) + (seq![next] + rest) =~= pairs_view(defs@) + rest);
            }
            i = end;
        } else {
            i = i + 1;
        }
    }
    assert(pairs_view(defs@) + Seq::empty() =~= pairs_view(defs@));
    defs
}

/// The first position from `i` on where a definition starts.
pub open spec fn first_definition(s: Seq<char>, i: int) -> Option<int>
    decreases s.len() - i,
{
    if i < 0 || i >= s.len() {
        None
    } else if definition_keyword(s, i) is Some {
        Some(i)
    } else {
        first_definition(s, i + 1)
    }
}

/// The next token from `p` on, and where it ends.
pub open spec fn token_from(s: Seq<char>, p: int) -> Option<(TokenKindM, int)>
    decreases s.len() - p,
    when 0 <= p
    via token_from_decreases
{
    if p >= s.len() {
        None
    } else {
        let step = lexer::step_at(s, p);
        match step.scan {
            ScanM::Tok(kind, _) => Some((kind, step.end)),
            _ => token_from(s, step.end),
        }
    }
}

#[via_fn]
proof fn token_from_decreases(s: Seq<char>, p: int) {
    if p < s.len() {
        lexer::step_progress(s, p);
    }
}

/// What a name that comes next can be: a type, because a `:`, a `)`, or a `->`
/// stands before it, or one of these and a `&`; a field, a method or something in
/// a module, because a `.`, a `fn` or a `::` does; or anything else.
#[derive(PartialEq, Eq, Structural, Clone, Copy)]
pub enum Place {
    Type,
    Member,
    Other,
}

/// What is known of the tokens of a definition that have been read: what a name
/// can be that comes next, whether it stands in a condition, with how many open
/// parentheses, and whether it stands in inline assembly.
pub struct ReadM {
    pub place: Place,
    pub condition: bool,
    pub parens: nat,
    pub assembly: bool,
}

pub open spec fn nothing_read() -> ReadM {
    ReadM { place: Place::Other, condition: false, parens: 0, assembly: false }
}

/// What is known after one more token.
pub open spec fn read_on(w: ReadM, k: TokenKindM) -> ReadM {
    ReadM {
        place: match k {
            TokenKindM::Colon => Place::Type,
            TokenKindM::RParen => Place::Type,
            TokenKindM::Arrow => Place::Type,
            TokenKindM::Ampersand => if w.place == Place::Type {
                Place::Type
            } else {
                Place::Other
            },
            TokenKindM::Mut => if w.place == Place::Type {
                Place::Type
            } else {
                Place::Other
            },
            TokenKindM::Dot => Place::Member,
            TokenKindM::ColonColon => Place::Member,
            TokenKindM::Fn => Place::Member,
            _ => Place::Other,
        },
        condition: match k {
            TokenKindM::If => true,
            TokenKindM::While => true,
            TokenKindM::LBrace => w.condition && w.parens > 0,
            _ => w.condition,
        },
        parens: match k {
            TokenKindM::If => 0,
            TokenKindM::While => 0,
            TokenKindM::LParen => w.parens + 1,
            TokenKindM::RParen => if w.parens > 0 {
                (w.parens - 1) as nat
            } else {
                0
            },
            _ => w.parens,
        },
        assembly: match k {
            TokenKindM::Asm => true,
            TokenKindM::RBrace => false,
            _ => w.assembly,
        },
    }
}

/// Whether a call of a function of the struct, `::name(`, stands at `e`.
pub open spec fn calls_own(s: Seq<char>, e: int) -> bool {
    match token_from(s, e) {
        Some((k1, e1)) => k1 is ColonColon && match token_from(s, e1) {
            Some((k2, e2)) => k2 is Ident && match token_from(s, e2) {
                Some((k3, _)) => k3 is LParen,
                None => false,
            },
            None => false,
        },
        None => false,
    }
}

pub open spec fn next_is(s: Seq<char>, e: int, k: TokenKindM) -> bool {
    match token_from(s, e) {
        Some((kind, _)) => kind == k,
        None => false,
    }
}

/// Whether the name of a struct, which ends at `e`, names the type there: in the
/// place of a type, unless it is the module of one; before the braces of an
/// initializer, which does not stand in a condition; or before the name of a
/// function of the struct that is called.
pub open spec fn names_type(s: Seq<char>, e: int, w: ReadM) -> bool {
    !w.assembly && match w.place {
        Place::Type => !next_is(s, e, TokenKindM::ColonColon),
        Place::Other => {
            ||| next_is(s, e, TokenKindM::LBrace) && !(w.condition && w.parens == 0)
            ||| calls_own(s, e)
        },
        Place::Member => false,
    }
}

/// Whether the name of a function, which ends at `e`, is called there.
pub open spec fn names_function(s: Seq<char>, e: int, w: ReadM) -> bool {
    !w.assembly && w.place == Place::Other && next_is(s, e, TokenKindM::LParen)
}

/// The text of a definition from `p` on, in which the name is replaced where it
/// names the struct or the function that is defined.
pub open spec fn renamed_from(
    s: Seq<char>,
    p: int,
    w: ReadM,
    is_struct: bool,
    from: Seq<char>,
    to: Seq<char>,
) -> Seq<char>
    decreases s.len() - p,
    when 0 <= p
    via renamed_from_decreases
{
    if p >= s.len() {
        Seq::empty()
    } else {
        let step = lexer::step_at(s, p);
        let piece = s.subrange(p, step.end);
        match step.scan {
            ScanM::Tok(kind, _) => {
                let used = if is_struct {
                    names_type(s, step.end, w)
                } else {
                    names_function(s, step.end, w)
                };
                (if kind is Ident && piece == from && used {
                    to
                } else {
                    piece
                }) + renamed_from(s, step.end, read_on(w, kind), is_struct, from, to)
            },
            _ => piece + renamed_from(s, step.end, w, is_struct, from, to),
        }
    }
}

#[via_fn]
proof fn renamed_from_decreases(
    s: Seq<char>,
    p: int,
    w: ReadM,
    is_struct: bool,
    from: Seq<char>,
    to: Seq<char>,
) {
    if p < s.len() {
        lexer::step_progress(s, p);
    }
}

/// A definition under a new name: the declared name is replaced, and every later
/// use of it as the name of that struct or function.
pub open spec fn renamed(s: Seq<char>, from: Seq<char>, to: Seq<char>) -> Seq<char> {
    match first_definition(s, 0) {
        Some(i) => {
            let (a, b) = name_after(s, i + definition_keyword(s, i)->0.len());
            if s.subrange(a, b) == from {
                s.take(a) + to + renamed_from(
                    s,
                    b,
                    nothing_read(),
                    definition_keyword(s, i)->0 == "struct"@,
                    from,
                    to,
                )
            } else {
                s
            }
        },
        None => s,
    }
}

/// Rename the *declared* identifier of a definition (the name right after
/// `struct`/`fn`). Used for `import ... as alias;`.
///
/// For a struct, this leaves the names of methods, fields and variables
/// untouched: only the type name changes, wherever the definition uses it. For a
/// free function only the function name changes, in its own calls too.
pub fn rename_definition(chars: &Vec<char>, from: &Vec<char>, to: &Vec<char>) -> (r: Vec<char>)
    ensures
        r@ == renamed(chars@, from@, to@),
{
    let mut i: usize = 0;
    while i < chars.len()
        invariant
            i <= chars.len(),
            first_definition(chars@, 0) == first_definition(chars@, i as int),
        decreases chars@.len() - i,
    {
        let is_struct = matches_keyword(chars, i, "struct");
        if is_struct || matches_keyword(chars, i, "fn") {
            proof {
                definition_spec(chars@, i as int);
            }
            let kw = if is_struct {
                "struct"
            } else {
                "fn"
            };
            let n = text::to_chars(kw).len();
            let a = text::skip_run(chars, i + n, Class::Blank);
            let b = text::skip_run(chars, a, Class::Ident);
            let name = text::slice_chars(chars, a, b);
            if !text::chars_eq(&name, text::all_text(from).as_str()) {
                return text::slice_all(chars);
            }
            let mut out = text::slice_chars(chars, 0, a);
            assert(out@ =~= chars@.take(a as int));
            text::push_chars(&mut out, to);
            return rename_uses(chars, b, is_struct, from, to, out);
        }
        i = i + 1;
    }
    text::slice_all(chars)
}

/// The next token from `p` on, and where it ends.
fn next_token(v: &Vec<char>, p: usize) -> (r: Option<(TokenKind, usize)>)
    requires
        p <= v.len(),
    ensures
        match r {
            Some((k, e)) => token_from(v@, p as int) == Some((k@, e as int)) && e <= v@.len(),
            None => token_from(v@, p as int) is None,
        },
{
    let mut i: usize = p;
    while i < v.len()
        invariant
            i <= v@.len(),
            token_from(v@, p as int) == token_from(v@, i as int),
        decreases v@.len() - i,
    {
        let (end, kind) = lexer::read_token(v, i);
        if let Some(k) = kind {
            return Some((k, end));
        }
        i = end;
    }
    None
}

fn is_own_call(v: &Vec<char>, e: usize) -> (r: bool)
    requires
        e <= v.len(),
    ensures
        r == calls_own(v@, e as int),
{
    match next_token(v, e) {
        Some((TokenKind::ColonColon, e1)) => match next_token(v, e1) {
            Some((TokenKind::Ident, e2)) => match next_token(v, e2) {
                Some((TokenKind::LParen, _)) => true,
                _ => false,
            },
            _ => false,
        },
        _ => false,
    }
}

/// What is known of the tokens that have been read.
struct Read {
    place: Place,
    condition: bool,
    parens: usize,
    assembly: bool,
}

impl View for Read {
    type V = ReadM;

    closed spec fn view(&self) -> ReadM {
        ReadM {
            place: self.place,
            condition: self.condition,
            parens: self.parens as nat,
            assembly: self.assembly,
        }
    }
}

impl Read {
    fn read_on(&mut self, k: &TokenKind)
        requires
            old(self)@.parens < usize::MAX,
        ensures
            final(self)@ == read_on(old(self)@, k@),
            final(self)@.parens <= old(self)@.parens + 1,
    {
        let was_type = self.place == Place::Type;
        let mut place = Place::Other;
        match k {
            TokenKind::Colon | TokenKind::Arrow => {
                place = Place::Type;
            },
            TokenKind::RParen => {
                place = Place::Type;
                if self.parens > 0 {
                    self.parens = self.parens - 1;
                }
            },
            TokenKind::LParen => {
                self.parens = self.parens + 1;
            },
            TokenKind::Ampersand | TokenKind::Mut => {
                if was_type {
                    place = Place::Type;
                }
            },
            TokenKind::Dot | TokenKind::ColonColon | TokenKind::Fn => {
                place = Place::Member;
            },
            TokenKind::If | TokenKind::While => {
                self.condition = true;
                self.parens = 0;
            },
            TokenKind::LBrace => {
                self.condition = self.condition && self.parens > 0;
            },
            TokenKind::Asm => {
                self.assembly = true;
            },
            TokenKind::RBrace => {
                self.assembly = false;
            },
            _ => {},
        }
        self.place = place;
    }

    fn is_type_use(&self, v: &Vec<char>, e: usize) -> (r: bool)
        requires
            e <= v.len(),
        ensures
            r == names_type(v@, e as int, self@),
    {
        if self.assembly {
            return false;
        }
        match self.place {
            Place::Type => !matches!(next_token(v, e), Some((TokenKind::ColonColon, _))),
            Place::Other => {
                let brace = matches!(next_token(v, e), Some((TokenKind::LBrace, _)));
                (brace && !(self.condition && self.parens == 0)) || is_own_call(v, e)
            },
            Place::Member => false,
        }
    }

    fn is_function_use(&self, v: &Vec<char>, e: usize) -> (r: bool)
        requires
            e <= v.len(),
        ensures
            r == names_function(v@, e as int, self@),
    {
        !self.assembly && self.place == Place::Other && matches!(
            next_token(v, e),
            Some((TokenKind::LParen, _))
        )
    }
}

/// Append to `out` the text from `start` on, in which the name is replaced where
/// it names the struct or the function that is defined.
fn rename_uses(
    chars: &Vec<char>,
    start: usize,
    is_struct: bool,
    from: &Vec<char>,
    to: &Vec<char>,
    out: Vec<char>,
) -> (r: Vec<char>)
    requires
        start <= chars@.len(),
    ensures
        r@ == out@ + renamed_from(
            chars@,
            start as int,
            nothing_read(),
            is_struct,
            from@,
            to@,
        ),
{
    let ghost s = chars@;
    let ghost whole = out@ + renamed_from(s, start as int, nothing_read(), is_struct, from@, to@);
    let mut out = out;
    let mut w = Read { place: Place::Other, condition: false, parens: 0, assembly: false };
    let mut i: usize = start;
    while i < chars.len()
        invariant
            s == chars@,
            i <= s.len(),
            w@.parens <= i,
            whole == out@ + renamed_from(s, i as int, w@, is_struct, from@, to@),
        decreases s.len() - i,
    {
        let ghost before = out@;
        let ghost w0 = w@;
        let (end, kind) = lexer::read_token(chars, i);
        let piece = text::slice_chars(chars, i, end);
        match kind {
            Some(k) => {
                let ghost rest = renamed_from(s, end as int, read_on(w0, k@), is_struct, from@, to@);
                let named = matches!(k, TokenKind::Ident) && text::chars_eq(
                    &piece,
                    text::all_text(from).as_str(),
                );
                let used = named && if is_struct {
                    w.is_type_use(chars, end)
                } else {
                    w.is_function_use(chars, end)
                };
                w.read_on(&k);
                if used {
                    text::push_chars(&mut out, to);
                    assert(before + (to@ + rest) =~= out@ + rest);
                } else {
                    text::push_chars(&mut out, &piece);
                    assert(before + (piece@ + rest) =~= out@ + rest);
                }
            },
            None => {
                let ghost rest = renamed_from(s, end as int, w0, is_struct, from@, to@);
                text::push_chars(&mut out, &piece);
                assert(before + (piece@ + rest) =~= out@ + rest);
            },
        }
        i = end;
    }
    assert(out@ + Seq::empty() =~= out@);
    out
}

/// A definition that is renamed to an identifier declares that identifier, with
/// the keyword it had.
pub proof fn alias_is_declared(s: Seq<char>, from: Seq<char>, to: Seq<char>)
    requires
        s.len() > 0,
        definition_keyword(s, 0) is Some,
        from.len() > 0,
        definition(s, 0, definition_keyword(s, 0)->0).0 == from,
        identifier(to),
    ensures
        ({
            let r = renamed(s, from, to);
            &&& definition_keyword(r, 0) == definition_keyword(s, 0)
            &&& definition(r, 0, definition_keyword(s, 0)->0).0 == to
        }),
{
    reveal_strlit("struct");
    reveal_strlit("fn");
    definition_spec(s, 0);
    assert(first_definition(s, 0) == Some(0int));
    let kw = definition_keyword(s, 0)->0;
    let n = kw.len() as int;
    let (a, b) = name_after(s, n);
    text::run_end_spec(s, n, Class::Blank);
    text::run_end_spec(s, a, Class::Ident);
    text::run_end_spec(to, 1, Class::Ident);
    let rest = renamed_from(s, b, nothing_read(), kw == "struct"@, from, to);
    let r = renamed(s, from, to);
    assert(s.subrange(a, b) == from);
    assert(from[0] == s[a]);
    assert(text::in_class(s[a], Class::Ident));
    assert(a > n);
    assert(r == s.take(a) + to + rest);
    assert forall|j: int| 0 <= j < a implies r[j] == s[j] by {}
    assert forall|j: int| a <= j < a + to.len() implies text::in_class(#[trigger] r[j], Class::Ident) by {
        assert(r[j] == to[j - a]);
        if j > a {
            assert(text::in_class(to[j - a], Class::Ident));
        }
    }
    if b < s.len() {
        assert(!text::in_class(s[b], Class::Ident));
        lexer::step_progress(s, b);
        let piece = s.subrange(b, lexer::step_at(s, b).end);
        assert(piece[0] == s[b]);
        assert(piece != from);
        assert(rest[0] == s[b]);
        assert(r[a + to.len()] == s[b]);
    }
    assert(r[a] == to[0]);
    assert(text::in_class(r[a], Class::Ident));
    text::run_end_at(r, n, a, Class::Blank);
    text::run_end_at(r, a, a + to.len(), Class::Ident);
    assert(r.subrange(0, n) =~= s.subrange(0, n));
    assert(word_at(r, kw, 0));
    if kw == "fn"@ {
        assert(s.subrange(0, 2)[0] == s[0]);
        if word_at(r, "struct"@, 0) {
            assert(r.subrange(0, 6)[0] == r[0]);
        }
    }
    assert(r.subrange(a, a + to.len()) =~= to);
}

// ---------------------------------------------------------------------------
// Defines
// ---------------------------------------------------------------------------

/// What stands at a `#define`.
pub enum DefineM {
    /// The directive has no name, or one that is no identifier.
    Nameless,
    /// The closing `#` is missing; the message says so.
    Unterminated(Seq<char>),
    /// A name, its replacement, and where the directive ends.
    Done(Seq<char>, Seq<char>, int),
}

/// Where the line at `k` ends and the next one starts.
pub open spec fn next_line(s: Seq<char>, k: int) -> int {
    let e = text::run_end(s, k, Class::Not('\n'));
    if e < s.len() {
        e + 1
    } else {
        e
    }
}

/// The end of a line at `k` that holds just a `#`.
pub open spec fn closing_line(s: Seq<char>, k: int) -> Option<int> {
    let m = text::run_end(s, k, Class::Blank);
    let n = text::run_end(s, m + 1, Class::Blank);
    if m < s.len() && s[m] == '#' && (n >= s.len() || s[n] == '\n') {
        Some(
            if n < s.len() {
                n + 1
            } else {
                n
            },
        )
    } else {
        None
    }
}

/// The first line from `k` on that holds just a `#`: where it starts, and where
/// the text goes on after it.
pub open spec fn macro_end(s: Seq<char>, k: int) -> Option<(int, int)>
    decreases s.len() - k,
    when 0 <= k
    via macro_end_decreases
{
    if k >= s.len() {
        None
    } else {
        match closing_line(s, k) {
            Some(e) => Some((k, e)),
            None => macro_end(s, next_line(s, k)),
        }
    }
}

#[via_fn]
proof fn macro_end_decreases(s: Seq<char>, k: int) {
    if k < s.len() {
        text::run_end_spec(s, k, Class::Not('\n'));
    }
}

/// The directive at `i`, where `#define` stands.
pub open spec fn define_at(s: Seq<char>, i: int) -> DefineM {
    let (a, b) = name_after(s, i + 7);
    let name = s.subrange(a, b);
    let k = text::run_end(s, b, Class::Blank);
    if !identifier(name) {
        DefineM::Nameless
    } else if k < s.len() && s[k] == ':' {
        let e = text::run_end(s, k + 1, Class::Not('#'));
        if e >= s.len() {
            DefineM::Unterminated("unterminated `#define` (missing closing `#`)"@)
        } else {
            DefineM::Done(name, text::trim(s.subrange(k + 1, e)), e + 1)
        }
    } else {
        let body = next_line(s, k);
        match macro_end(s, body) {
            Some((start, end)) => DefineM::Done(
                name,
                text::trim_end(s.subrange(body, start)),
                end,
            ),
            None => DefineM::Unterminated("unterminated `#define` macro (missing closing `#`)"@),
        }
    }
}

/// What is known while the text is read: the text before the last directive,
/// in which the replacements declared so far have been made, the text after it,
/// the replacements that hold there, and the diagnostics.
pub struct DefinesM {
    pub done: Seq<char>,
    pub out: Seq<char>,
    pub subs: Seq<(Seq<char>, Seq<char>)>,
    pub diags: Seq<DiagM>,
}

pub open spec fn is_define(s: Seq<char>, i: int) -> bool {
    s[i] == '#' && word_at(s, "define"@, i + 1)
}

pub open spec fn define_diag(
    s: Seq<char>,
    i: int,
    file: Seq<char>,
    code: Seq<char>,
    msg: Seq<char>,
) -> DiagM {
    error::plain_diag(code, msg, file, lexer::line_at(s, i), 1, Seq::empty())
}

pub open spec fn no_defines() -> DefinesM {
    DefinesM { done: Seq::empty(), out: Seq::empty(), subs: Seq::empty(), diags: Seq::empty() }
}

/// The text read so far, with the replacements that hold in each part of it.
pub open spec fn settled(acc: DefinesM) -> Seq<char> {
    acc.done + substituted(acc.out, acc.subs, acc.subs.len() as int)
}

/// One more replacement, for the text that follows.
pub open spec fn with_define(acc: DefinesM, name: Seq<char>, value: Seq<char>) -> DefinesM {
    DefinesM {
        done: settled(acc),
        out: Seq::empty(),
        subs: acc.subs.push((name, value)),
        diags: acc.diags,
    }
}

/// Reads the text from `i` on. A directive without its end stops the reading.
#[verifier::opaque]
pub open spec fn read_defines(s: Seq<char>, file: Seq<char>, i: int, acc: DefinesM) -> DefinesM
    decreases s.len() - i,
    when 0 <= i
    via read_defines_decreases
{
    if i >= s.len() {
        acc
    } else if is_define(s, i) {
        match define_at(s, i) {
            DefineM::Nameless => read_defines(
                s,
                file,
                i + 1,
                DefinesM {
                    diags: acc.diags.push(
                        define_diag(s, i, file, "E004"@, "expected name after `#define`"@),
                    ),
                    ..acc
                },
            ),
            DefineM::Unterminated(msg) => DefinesM {
                diags: acc.diags.push(define_diag(s, i, file, "E005"@, msg)),
                ..acc
            },
            DefineM::Done(name, value, end) => read_defines(
                s,
                file,
                end,
                with_define(acc, name, value),
            ),
        }
    } else {
        read_defines(s, file, i + 1, DefinesM { out: acc.out.push(s[i]), ..acc })
    }
}

proof fn macro_end_spec(s: Seq<char>, k: int)
    requires
        0 <= k <= s.len(),
    ensures
        match macro_end(s, k) {
            Some((start, end)) => k <= start < end <= s.len(),
            None => true,
        },
    decreases s.len() - k,
{
    if k < s.len() {
        text::run_end_spec(s, k, Class::Not('\n'));
        text::run_end_spec(s, k, Class::Blank);
        let m = text::run_end(s, k, Class::Blank);
        if m < s.len() {
            text::run_end_spec(s, m + 1, Class::Blank);
        }
        if closing_line(s, k) is None {
            macro_end_spec(s, next_line(s, k));
        }
    }
}

/// A complete directive has an identifier for a name, and ends after it starts.
pub proof fn define_at_spec(s: Seq<char>, i: int)
    requires
        0 <= i < s.len(),
        is_define(s, i),
    ensures
        i + 7 <= s.len(),
        match define_at(s, i) {
            DefineM::Done(name, _, end) => identifier(name) && i < end <= s.len(),
            _ => true,
        },
{
    reveal_strlit("define");
    text::run_end_spec(s, i + 7, Class::Blank);
    let a = text::run_end(s, i + 7, Class::Blank);
    text::run_end_spec(s, a, Class::Ident);
    let b = text::run_end(s, a, Class::Ident);
    text::run_end_spec(s, b, Class::Blank);
    let k = text::run_end(s, b, Class::Blank);
    text::run_end_spec(s, k, Class::Not('\n'));
    if k < s.len() {
        text::run_end_spec(s, k + 1, Class::Not('#'));
    }
    macro_end_spec(s, next_line(s, k));
}

#[via_fn]
proof fn read_defines_decreases(s: Seq<char>, file: Seq<char>, i: int, acc: DefinesM) {
    if i < s.len() && is_define(s, i) {
        define_at_spec(s, i);
    }
}

/// The text after the first `n` replacements, which are made one after the other.
pub open spec fn substituted(s: Seq<char>, subs: Seq<(Seq<char>, Seq<char>)>, n: int) -> Seq<char>
    decreases n,
{
    if n <= 0 || n > subs.len() {
        s
    } else {
        replaced(substituted(s, subs, n - 1), subs[n - 1].0, subs[n - 1].1)
    }
}

/// The text with all `#define` directives carried out, each in the text after
/// it, and the diagnostics.
pub open spec fn defined(s: Seq<char>, file: Seq<char>) -> (Seq<char>, Seq<DiagM>) {
    let r = read_defines(s, file, 0, no_defines());
    (settled(r), r.diags)
}

enum Define {
    Nameless,
    Unterminated(String),
    Done(Vec<char>, Vec<char>, usize),
}

fn find_macro_end(v: &Vec<char>, body: usize) -> (r: Option<(usize, usize)>)
    requires
        body <= v.len(),
    ensures
        match r {
            Some((start, end)) => {
                &&& macro_end(v@, body as int) == Some((start as int, end as int))
                &&& body <= start < end <= v@.len()
            },
            None => macro_end(v@, body as int) is None,
        },
{
    let mut k: usize = body;
    while k < v.len()
        invariant
            body <= k <= v.len(),
            macro_end(v@, body as int) == macro_end(v@, k as int),
        decreases v@.len() - k,
    {
        proof {
            text::run_end_spec(v@, k as int, Class::Not('\n'));
        }
        // Is this line just '#'?
        let m = text::skip_run(v, k, Class::Blank);
        if m < v.len() && v[m] == '#' {
            let n = text::skip_run(v, m + 1, Class::Blank);
            if n >= v.len() || v[n] == '\n' {
                let end: usize = if n < v.len() {
                    n + 1
                } else {
                    n
                };
                return Some((k, end));
            }
        }
        let e = text::skip_run(v, k, Class::Not('\n'));
        k = if e < v.len() {
            e + 1
        } else {
            e
        };
    }
    None
}

/// Reads the `#define` at `i`.
fn read_define(v: &Vec<char>, i: usize) -> (r: Define)
    requires
        i < v.len(),
        is_define(v@, i as int),
    ensures
        match r {
            Define::Nameless => define_at(v@, i as int) is Nameless,
            Define::Unterminated(msg) => define_at(v@, i as int) == DefineM::Unterminated(msg@),
            Define::Done(name, value, end) => {
                &&& define_at(v@, i as int) == DefineM::Done(name@, value@, end as int)
                &&& i < end <= v@.len()
            },
        },
{
    proof {
        define_at_spec(v@, i as int);
    }
    let a = text::skip_run(v, i + 7, Class::Blank);
    let b = text::skip_run(v, a, Class::Ident);
    let name = text::slice_chars(v, a, b);
    if !is_ident(&name) {
        return Define::Nameless;
    }
    let k = text::skip_run(v, b, Class::Blank);
    if k < v.len() && v[k] == ':' {
        // Constant: value is everything between ':' and the closing '#'.
        let e = text::skip_run(v, k + 1, Class::Not('#'));
        if e >= v.len() {
            return Define::Unterminated(
                "unterminated `#define` (missing closing `#`)".to_owned(),
            );
        }
        let value = text::trimmed(&text::slice_chars(v, k + 1, e));
        Define::Done(name, value, e + 1)
    } else {
        // Macro: body is everything from the next line up to a line that is
        // just '#'.
        let e = text::skip_run(v, k, Class::Not('\n'));
        let body: usize = if e < v.len() {
            e + 1
        } else {
            e
        };
        match find_macro_end(v, body) {
            Some((start, end)) => {
                let value = text::trimmed_end(&text::slice_chars(v, body, start));
                Define::Done(name, value, end)
            },
            None => Define::Unterminated(
                "unterminated `#define` macro (missing closing `#`)".to_owned(),
            ),
        }
    }
}

fn define_error(diags: &mut Vec<Diagnostic>, code: &str, msg: String, file: &str, line: usize)
    ensures
        error::diags_view(final(diags)@) == error::diags_view(old(diags)@).push(
            error::plain_diag(code@, msg@, file@, line as nat, 1, Seq::empty()),
        ),
{
    let empty = String::new();
    assert(empty@ =~= Seq::empty());
    let d = Diagnostic::new(code, msg, file.to_owned(), line, 1, empty);
    diags.push(d);
    assert(error::diags_view(diags@) =~= error::diags_view(old(diags)@).push(d@));
}

/// The text with the replacements made in it, in the order in which they were
/// declared.
fn substitute(s: Vec<char>, subs: &Vec<(Vec<char>, Vec<char>)>) -> (r: Vec<char>)
    ensures
        r@ == substituted(s@, pairs_view(subs@), subs@.len() as int),
{
    let ghost text0 = s@;
    let mut result = s;
    let mut k: usize = 0;
    while k < subs.len()
        invariant
            k <= subs@.len(),
            result@ == substituted(text0, pairs_view(subs@), k as int),
        decreases subs@.len() - k,
    {
        result = replace_whole_word(&result, &subs[k].0, &subs[k].1);
        k = k + 1;
    }
    result
}

/// Scan for `#define` directives, build the substitution tables, and apply them
/// to the text that follows each of them. Constants and macros are both plain
/// textual replacement of the whole-word NAME.
pub fn apply_defines(chars: &Vec<char>, file: &str) -> (r: Result<Vec<char>, Vec<Diagnostic>>)
    ensures
        match r {
            Ok(t) => defined(chars@, file@).1.len() == 0 && t@ == defined(chars@, file@).0,
            Err(ds) => ds@.len() > 0 && error::diags_view(ds@) == defined(chars@, file@).1,
        },
{
    let ghost s = chars@;
    // (name, replacement) pairs, applied in declaration order.
    let mut subs: Vec<(Vec<char>, Vec<char>)> = Vec::new();
    let mut done: Vec<char> = Vec::new();
    let mut out: Vec<char> = Vec::new();
    let mut diags: Vec<Diagnostic> = Vec::new();
    let mut i: usize = 0;
    let ghost all = read_defines(s, file@, 0, no_defines());
    assert(pairs_view(subs@) =~= Seq::empty());
    assert(error::diags_view(diags@) =~= Seq::empty());
    assert(out@ =~= Seq::empty());
    assert(done@ =~= Seq::empty());
    while i < chars.len()
        invariant
            s == chars@,
            i <= s.len(),
            defined(s, file@) == (settled(all), all.diags),
            all == read_defines(
                s,
                file@,
                i as int,
                DefinesM {
                    done: done@,
                    out: out@,
                    subs: pairs_view(subs@),
                    diags: error::diags_view(diags@),
                },
            ),
        decreases s.len() - i,
    {
        proof {
            reveal(read_defines);
        }
        if chars[i] == '#' && matches_keyword(chars, i + 1, "define") {
            proof {
                define_at_spec(s, i as int);
            }
            match read_define(chars, i) {
                Define::Nameless => {
                    define_error(
                        &mut diags,
                        "E004",
                        "expected name after `#define`".to_owned(),
                        file,
                        line_of(chars, i),
                    );
                    // Skip the '#' to avoid looping.
                    i = i + 1;
                },
                Define::Unterminated(msg) => {
                    define_error(&mut diags, "E005", msg, file, line_of(chars, i));
                    assert(all.diags == error::diags_view(diags@));
                    assert(error::diags_view(diags@).len() > 0);
                    return Err(diags);
                },
                Define::Done(name, value, end) => {
                    let part = substitute(out, &subs);
                    text::push_chars(&mut done, &part);
                    out = Vec::new();
                    assert(out@ =~= Seq::empty());
                    let ghost before = subs@;
                    let ghost next = (name@, value@);
                    subs.push((name, value));
                    assert(pairs_view(subs@) =~= pairs_view(before).push(next));
                    i = end;
                },
            }
        } else {
            out.push(chars[i]);
            i = i + 1;
        }
    }
    proof {
        reveal(read_defines);
    }
    if diags.len() > 0 {
        return Err(diags);
    }
    let part = substitute(out, &subs);
    text::push_chars(&mut done, &part);
    Ok(done)
}

/// Whether the text starts with the other one.
pub open spec fn starts_with(s: Seq<char>, p: Seq<char>) -> bool {
    p.len() <= s.len() && s.take(p.len() as int) == p
}

proof fn settled_text_stays(s: Seq<char>, file: Seq<char>, i: int, acc: DefinesM)
    requires
        0 <= i,
    ensures
        starts_with(settled(read_defines(s, file, i, acc)), acc.done),
        acc.subs.len() == 0 ==> starts_with(
            settled(read_defines(s, file, i, acc)),
            acc.done + acc.out,
        ),
    decreases s.len() - i,
{
    reveal(read_defines);
    let r = settled(read_defines(s, file, i, acc));
    if i >= s.len() {
        assert(r.take(acc.done.len() as int) =~= acc.done);
        assert(acc.subs.len() == 0 ==> r =~= acc.done + acc.out);
        assert((acc.done + acc.out).take((acc.done + acc.out).len() as int) =~= acc.done
            + acc.out);
    } else if is_define(s, i) {
        define_at_spec(s, i);
        match define_at(s, i) {
            DefineM::Nameless => {
                let d = define_diag(s, i, file, "E004"@, "expected name after `#define`"@);
                settled_text_stays(
                    s,
                    file,
                    i + 1,
                    DefinesM { diags: acc.diags.push(d), ..acc },
                );
            },
            DefineM::Unterminated(_) => {
                assert(r.take(acc.done.len() as int) =~= acc.done);
                assert(acc.subs.len() == 0 ==> r =~= acc.done + acc.out);
                assert((acc.done + acc.out).take((acc.done + acc.out).len() as int) =~= acc.done
                    + acc.out);
            },
            DefineM::Done(name, value, end) => {
                let next = with_define(acc, name, value);
                settled_text_stays(s, file, end, next);
                assert(r.take(acc.done.len() as int) =~= next.done.take(acc.done.len() as int));
                assert(next.done.take(acc.done.len() as int) =~= acc.done);
            },
        }
    } else {
        let next = DefinesM { out: acc.out.push(s[i]), ..acc };
        settled_text_stays(s, file, i + 1, next);
        let more = acc.done + next.out;
        let n = (acc.done + acc.out).len() as int;
        if acc.subs.len() == 0 {
            assert(more.take(n) =~= acc.done + acc.out);
            assert(r.take(n) =~= r.take(more.len() as int).take(n));
        }
    }
}

/// A definition holds only after its directive: what was read before it, with
/// the replacements that held there, starts the result.
pub proof fn defines_hold_after_them(s: Seq<char>, file: Seq<char>, i: int, acc: DefinesM)
    requires
        0 <= i < s.len(),
        is_define(s, i),
        define_at(s, i) is Done,
    ensures
        starts_with(settled(read_defines(s, file, i, acc)), settled(acc)),
{
    reveal(read_defines);
    define_at_spec(s, i);
    if let DefineM::Done(name, value, end) = define_at(s, i) {
        settled_text_stays(s, file, end, with_define(acc, name, value));
    }
}

/// The text before the first directive is kept as it is.
pub proof fn text_before_defines_is_kept(s: Seq<char>, file: Seq<char>, i: int)
    requires
        0 <= i <= s.len(),
        forall|k: int| 0 <= k < i ==> !is_define(s, k),
    ensures
        starts_with(defined(s, file).0, s.take(i)),
{
    read_plain(s, file, i);
    let acc = DefinesM { out: s.take(i), ..no_defines() };
    settled_text_stays(s, file, i, acc);
    assert(acc.done + acc.out =~= s.take(i));
}

pub(crate) proof fn read_plain(s: Seq<char>, file: Seq<char>, i: int)
    requires
        0 <= i <= s.len(),
        forall|k: int| 0 <= k < i ==> !is_define(s, k),
    ensures
        read_defines(s, file, 0, no_defines()) == read_defines(
            s,
            file,
            i,
            DefinesM { out: s.take(i), ..no_defines() },
        ),
    decreases i,
{
    reveal(read_defines);
    if i > 0 {
        read_plain(s, file, i - 1);
        assert(!is_define(s, i - 1));
        assert(s.take(i - 1).push(s[i - 1]) =~= s.take(i));
    } else {
        assert(s.take(0) =~= Seq::empty());
    }
}

/// The 1-based line of a position.
fn line_of(v: &Vec<char>, i: usize) -> (r: usize)
    requires
        i < v.len(),
    ensures
        r == lexer::line_at(v@, i as int),
{
    let mut n: usize = 1;
    let mut k: usize = 0;
    while k < i
        invariant
            k <= i < v.len(),
            n == lexer::line_at(v@, k as int),
        decreases i - k,
    {
        proof {
            lexer::place_bounds(v@, k as int);
        }
        if v[k] == '\n' {
            n = n + 1;
        }
        k = k + 1;
    }
    n
}

} // verus!
