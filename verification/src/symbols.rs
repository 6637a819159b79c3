//! The symbols of a document: a light scan of the text that finds structs with
//! their fields and methods, and variables with their types. It works on text
//! that does not parse.

use vstd::prelude::*;

use crate::text;
use crate::text::Class;

verus! {

/// What `char::is_alphanumeric` says of a character.
pub uninterp spec fn alphanumeric(c: char) -> bool;

/// `char::is_alphanumeric` tells whether the character has one of the Unicode
/// properties of letters and numbers; the answer depends on the character alone.
/// Of the ASCII characters these are the letters and the digits.
pub assume_specification[ char::is_alphanumeric ](c: char) -> (r: bool)
    ensures
        r == alphanumeric(c),
        c as u32 <= 127 ==> r == (text::is_alpha(c) || text::is_digit(c)),
;

/// What a word is made of.
pub open spec fn word_char(c: char) -> bool {
    alphanumeric(c) || c == '_'
}

fn test_word_char(c: char) -> (r: bool)
    ensures
        r == word_char(c),
{
    c.is_alphanumeric() || c == '_'
}

/// The end of the word that starts at `i`.
pub open spec fn word_end(s: Seq<char>, i: int) -> int
    decreases s.len() - i,
{
    if 0 <= i < s.len() && word_char(s[i]) {
        word_end(s, i + 1)
    } else {
        i
    }
}

fn skip_word(v: &Vec<char>) -> (r: usize)
    ensures
        r == word_end(v@, 0),
        r <= v@.len(),
{
    let mut i: usize = 0;
    while i < v.len() && test_word_char(v[i])
        invariant
            i <= v@.len(),
            word_end(v@, 0) == word_end(v@, i as int),
        decreases v@.len() - i,
    {
        i = i + 1;
    }
    i
}

/// The start of the word that ends at `n`.
pub open spec fn word_start(s: Seq<char>, n: int) -> int
    decreases n,
{
    if 0 < n <= s.len() && word_char(s[n - 1]) {
        word_start(s, n - 1)
    } else {
        n
    }
}

/// The word at the end of a text.
pub open spec fn last_word(s: Seq<char>) -> Option<Seq<char>> {
    let w = s.skip(word_start(s, s.len() as int));
    if w.len() > 0 {
        Some(w)
    } else {
        None
    }
}

fn word_before(v: &Vec<char>) -> (r: Option<Vec<char>>)
    ensures
        match r {
            Some(w) => last_word(v@) == Some(w@),
            None => last_word(v@) is None,
        },
{
    let mut n: usize = v.len();
    while n > 0 && test_word_char(v[n - 1])
        invariant
            n <= v@.len(),
            word_start(v@, v@.len() as int) == word_start(v@, n as int),
        decreases n,
    {
        n = n - 1;
    }
    let w = text::slice_chars(v, n, v.len());
    assert(w@ =~= v@.skip(n as int));
    if w.len() > 0 {
        Some(w)
    } else {
        None
    }
}

// ---------------------------------------------------------------------------
// Symbols
// ---------------------------------------------------------------------------

/// Whether a method takes `self`.
#[derive(Debug, Clone, Copy, PartialEq, Eq, Structural)]
pub enum MethodKind {
    /// has &self / &mut self / move self
    Instance,
    Static,
}

/// What the scan found of a struct.
pub struct StructInfo {
    /// (name, type)
    pub fields: Vec<(String, String)>,
    /// (name, kind, return type)
    pub methods: Vec<(String, MethodKind, String)>,
}

pub struct StructInfoM {
    pub fields: Seq<(Seq<char>, Seq<char>)>,
    pub methods: Seq<(Seq<char>, MethodKind, Seq<char>)>,
}

pub open spec fn fields_view(s: Seq<(String, String)>) -> Seq<(Seq<char>, Seq<char>)> {
    Seq::new(s.len(), |i: int| (s[i].0@, s[i].1@))
}

pub open spec fn methods_view(s: Seq<(String, MethodKind, String)>) -> Seq<
    (Seq<char>, MethodKind, Seq<char>),
> {
    Seq::new(s.len(), |i: int| (s[i].0@, s[i].1, s[i].2@))
}

impl View for StructInfo {
    type V = StructInfoM;

    open spec fn view(&self) -> StructInfoM {
        StructInfoM { fields: fields_view(self.fields@), methods: methods_view(self.methods@) }
    }
}

/// The symbol table of a document. A struct name occurs once.
pub struct Symbols {
    /// struct name and what is known of it, in the order of the text
    pub structs: Vec<(String, StructInfo)>,
    /// (line, name, type)
    pub vars: Vec<(usize, String, String)>,
}

pub struct SymbolsM {
    pub structs: Seq<(Seq<char>, StructInfoM)>,
    pub vars: Seq<(nat, Seq<char>, Seq<char>)>,
}

pub open spec fn structs_view(s: Seq<(String, StructInfo)>) -> Seq<(Seq<char>, StructInfoM)> {
    Seq::new(s.len(), |i: int| (s[i].0@, s[i].1@))
}

pub open spec fn vars_view(s: Seq<(usize, String, String)>) -> Seq<(nat, Seq<char>, Seq<char>)> {
    Seq::new(s.len(), |i: int| (s[i].0 as nat, s[i].1@, s[i].2@))
}

impl View for Symbols {
    type V = SymbolsM;

    open spec fn view(&self) -> SymbolsM {
        SymbolsM { structs: structs_view(self.structs@), vars: vars_view(self.vars@) }
    }
}

// ---------------------------------------------------------------------------
// Structs
// ---------------------------------------------------------------------------

/// Whether a line comment starts at `i`.
pub open spec fn comment_at(s: Seq<char>, i: int) -> bool {
    i + 1 < s.len() && s[i] == '/' && s[i + 1] == '/'
}

/// The position after the closing quote of a string whose content goes on at
/// `i`, or the end of the text.
pub open spec fn string_end(s: Seq<char>, i: int) -> int
    decreases s.len() - i,
{
    if i < 0 || i >= s.len() {
        s.len() as int
    } else if s[i] == '"' {
        i + 1
    } else if s[i] == '\\' {
        if i + 1 < s.len() {
            string_end(s, i + 2)
        } else {
            s.len() as int
        }
    } else {
        string_end(s, i + 1)
    }
}

proof fn string_end_spec(s: Seq<char>, i: int)
    requires
        0 <= i <= s.len(),
    ensures
        i <= string_end(s, i) <= s.len(),
    decreases s.len() - i,
{
    if i < s.len() && s[i] != '"' {
        if s[i] == '\\' {
            if i + 1 < s.len() {
                string_end_spec(s, i + 2);
            }
        } else {
            string_end_spec(s, i + 1);
        }
    }
}

fn skip_string(v: &Vec<char>, i: usize) -> (r: usize)
    requires
        i <= v.len(),
    ensures
        r == string_end(v@, i as int),
        i <= r <= v@.len(),
{
    proof {
        string_end_spec(v@, i as int);
    }
    let mut k: usize = i;
    while k < v.len()
        invariant
            i <= k <= v.len(),
            string_end(v@, i as int) == string_end(v@, k as int),
            i <= string_end(v@, i as int) <= v@.len(),
        decreases v@.len() - k,
    {
        if v[k] == '"' {
            return k + 1;
        }
        if v[k] == '\\' {
            if k + 1 >= v.len() {
                return v.len();
            }
            k = k + 2;
        } else {
            k = k + 1;
        }
    }
    v.len()
}

/// Where a field's type ends: before a comma, a line end or a brace.
pub open spec fn field_type_end(s: Seq<char>, i: int) -> int
    decreases s.len() - i,
{
    if 0 <= i < s.len() && s[i] != ',' && s[i] != '\n' && s[i] != '}' {
        field_type_end(s, i + 1)
    } else {
        i
    }
}

proof fn field_type_end_spec(s: Seq<char>, i: int)
    requires
        0 <= i <= s.len(),
    ensures
        i <= field_type_end(s, i) <= s.len(),
    decreases s.len() - i,
{
    if i < s.len() && s[i] != ',' && s[i] != '\n' && s[i] != '}' {
        field_type_end_spec(s, i + 1);
    }
}

/// The field `name: Type,` at `i`: its name, its type, and where it ends.
pub open spec fn field_at(s: Seq<char>, i: int) -> Option<(Seq<char>, Seq<char>, int)> {
    if !(0 <= i < s.len() && text::ident_start(s[i])) {
        None
    } else {
        let a = text::run_end(s, i, Class::Ident);
        let b = text::run_end(s, a, Class::AsciiWhite);
        if b >= s.len() || s[b] != ':' || (b + 1 < s.len() && s[b + 1] == ':') {
            None
        } else {
            let c = text::run_end(s, b + 1, Class::AsciiWhite);
            let d = field_type_end(s, c);
            let ty = text::trim(s.subrange(c, d));
            if ty.len() == 0 {
                None
            } else {
                Some(
                    (
                        s.subrange(i, a),
                        ty,
                        if d < s.len() && s[d] == ',' {
                            d + 1
                        } else {
                            d
                        },
                    ),
                )
            }
        }
    }
}

proof fn field_at_spec(s: Seq<char>, i: int)
    requires
        0 <= i < s.len(),
    ensures
        match field_at(s, i) {
            Some((_, _, end)) => i < end <= s.len(),
            None => true,
        },
{
    text::run_end_spec(s, i, Class::Ident);
    let a = text::run_end(s, i, Class::Ident);
    text::run_end_spec(s, a, Class::AsciiWhite);
    let b = text::run_end(s, a, Class::AsciiWhite);
    if b < s.len() {
        text::run_end_spec(s, b + 1, Class::AsciiWhite);
        field_type_end_spec(s, text::run_end(s, b + 1, Class::AsciiWhite));
    }
}

/// Parse `name: Type,` at `i`. Returns (name, type, end).
pub fn try_parse_field(v: &Vec<char>, i: usize) -> (r: Option<(String, String, usize)>)
    ensures
        match r {
            Some((name, ty, end)) => {
                &&& field_at(v@, i as int) == Some((name@, ty@, end as int))
                &&& i < end <= v@.len()
            },
            None => field_at(v@, i as int) is None,
        },
{
    if i >= v.len() || !text::test_ident_start(v[i]) {
        return None;
    }
    proof {
        field_at_spec(v@, i as int);
    }
    let a = text::skip_run(v, i, Class::Ident);
    let b = text::skip_run(v, a, Class::AsciiWhite);
    // A `::` would be a qualified name.
    if b >= v.len() || v[b] != ':' || (b + 1 < v.len() && v[b + 1] == ':') {
        return None;
    }
    let c = text::skip_run(v, b + 1, Class::AsciiWhite);
    let mut d: usize = c;
    while d < v.len() && v[d] != ',' && v[d] != '\n' && v[d] != '}'
        invariant
            c <= d <= v@.len(),
            field_type_end(v@, c as int) == field_type_end(v@, d as int),
        decreases v@.len() - d,
    {
        d = d + 1;
    }
    let ty = text::trimmed(&text::slice_chars(v, c, d));
    if ty.len() == 0 {
        return None;
    }
    let end: usize = if d < v.len() && v[d] == ',' {
        d + 1
    } else {
        d
    };
    Some((text::slice_text(v, i, a), text::all_text(&ty), end))
}

/// The position after the parenthesis that closes `depth` open ones, or the end
/// of the text.
pub open spec fn paren_end(s: Seq<char>, i: int, depth: nat) -> int
    decreases s.len() - i,
{
    if i < 0 || i >= s.len() || depth == 0 {
        i
    } else if s[i] == '(' {
        paren_end(s, i + 1, depth + 1)
    } else if s[i] == ')' {
        paren_end(s, i + 1, (depth - 1) as nat)
    } else {
        paren_end(s, i + 1, depth)
    }
}

proof fn paren_end_spec(s: Seq<char>, i: int, depth: nat)
    requires
        0 <= i <= s.len(),
    ensures
        i <= paren_end(s, i, depth) <= s.len(),
    decreases s.len() - i,
{
    if i < s.len() && depth > 0 {
        if s[i] == '(' {
            paren_end_spec(s, i + 1, depth + 1);
        } else if s[i] == ')' {
            paren_end_spec(s, i + 1, (depth - 1) as nat);
        } else {
            paren_end_spec(s, i + 1, depth);
        }
    }
}

/// Where a return type ends: before a brace or a line end.
pub open spec fn return_type_end(s: Seq<char>, i: int) -> int
    decreases s.len() - i,
{
    if 0 <= i < s.len() && s[i] != '{' && s[i] != '\n' {
        return_type_end(s, i + 1)
    } else {
        i
    }
}

proof fn return_type_end_spec(s: Seq<char>, i: int)
    requires
        0 <= i <= s.len(),
    ensures
        i <= return_type_end(s, i) <= s.len(),
    decreases s.len() - i,
{
    if i < s.len() && s[i] != '{' && s[i] != '\n' {
        return_type_end_spec(s, i + 1);
    }
}

/// The signature `fn name(params) RetType` at `i`: the name, whether it takes
/// `self`, the return type, and where it ends.
pub open spec fn fn_sig_at(s: Seq<char>, i: int) -> Option<
    (Seq<char>, MethodKind, Seq<char>, int),
> {
    if !text::occurs_at(s, "fn "@, i) {
        None
    } else {
        let a = text::run_end(s, i + 3, Class::AsciiWhite);
        let b = text::run_end(s, a, Class::Ident);
        let open = text::run_end(s, b, Class::Not('('));
        if a == b || open >= s.len() {
            None
        } else {
            let close = paren_end(s, open + 1, 1);
            let params = if close > open + 1 {
                s.subrange(open + 1, close - 1)
            } else {
                Seq::empty()
            };
            let c = text::run_end(s, close, Class::AsciiWhite);
            let d = return_type_end(s, c);
            Some(
                (
                    s.subrange(a, b),
                    if text::find_from(params, "self"@, 0) is Some {
                        MethodKind::Instance
                    } else {
                        MethodKind::Static
                    },
                    text::trim(s.subrange(c, d)),
                    d,
                ),
            )
        }
    }
}

proof fn fn_sig_at_spec(s: Seq<char>, i: int)
    requires
        0 <= i < s.len(),
        text::occurs_at(s, "fn "@, i),
    ensures
        i + 3 <= s.len(),
        match fn_sig_at(s, i) {
            Some((_, _, _, end)) => i < end <= s.len(),
            None => true,
        },
{
    reveal_strlit("fn ");
    text::run_end_spec(s, i + 3, Class::AsciiWhite);
    let a = text::run_end(s, i + 3, Class::AsciiWhite);
    text::run_end_spec(s, a, Class::Ident);
    let b = text::run_end(s, a, Class::Ident);
    text::run_end_spec(s, b, Class::Not('('));
    let open = text::run_end(s, b, Class::Not('('));
    if open < s.len() {
        paren_end_spec(s, open + 1, 1);
        let close = paren_end(s, open + 1, 1);
        text::run_end_spec(s, close, Class::AsciiWhite);
        return_type_end_spec(s, text::run_end(s, close, Class::AsciiWhite));
    }
}

/// Parse `fn name(params) RetType` at `i`. Returns (name, kind, return type,
/// end of the signature). We only need the signature, not the body.
pub fn try_parse_fn_sig(v: &Vec<char>, i: usize) -> (r: Option<
    (String, MethodKind, String, usize),
>)
    ensures
        match r {
            Some((name, kind, ret, end)) => {
                &&& fn_sig_at(v@, i as int) == Some((name@, kind, ret@, end as int))
                &&& i < end <= v@.len()
            },
            None => fn_sig_at(v@, i as int) is None,
        },
{
    if i >= v.len() || !text::holds_text_at(v, "fn ", i) {
        proof {
            reveal_strlit("fn ");
        }
        return None;
    }
    proof {
        fn_sig_at_spec(v@, i as int);
    }
    let a = text::skip_run(v, i + 3, Class::AsciiWhite);
    let b = text::skip_run(v, a, Class::Ident);
    let open = text::skip_run(v, b, Class::Not('('));
    if a == b || open >= v.len() {
        return None;
    }
    // scan params for self
    let mut depth: usize = 1;
    let mut close: usize = open + 1;
    while close < v.len() && depth > 0
        invariant
            open + 1 <= close <= v.len(),
            depth <= close,
            paren_end(v@, open + 1, 1) == paren_end(v@, close as int, depth as nat),
        decreases v@.len() - close,
    {
        if v[close] == '(' {
            depth = depth + 1;
        } else if v[close] == ')' {
            depth = depth - 1;
        }
        close = close + 1;
    }
    let params = if close > open + 1 {
        text::slice_chars(v, open + 1, close - 1)
    } else {
        Vec::new()
    };
    assert(close <= open + 1 ==> params@ =~= Seq::<char>::empty());
    let kind = if text::find_text(&params, "self").is_some() {
        MethodKind::Instance
    } else {
        MethodKind::Static
    };
    let c = text::skip_run(v, close, Class::AsciiWhite);
    // read return type until `{`
    let mut d: usize = c;
    while d < v.len() && v[d] != '{' && v[d] != '\n'
        invariant
            c <= d <= v@.len(),
            return_type_end(v@, c as int) == return_type_end(v@, d as int),
        decreases v@.len() - d,
    {
        d = d + 1;
    }
    let ret = text::trimmed(&text::slice_chars(v, c, d));
    Some((text::slice_text(v, a, b), kind, text::all_text(&ret), d))
}

/// The body of a struct from `i` on, when `depth` braces are open and `info` was
/// found: where it ends, and what is found by then. Only a struct has fields;
/// methods are found in an `extend` too.
#[verifier::opaque]
pub open spec fn struct_body(
    s: Seq<char>,
    i: int,
    depth: nat,
    is_struct: bool,
    info: StructInfoM,
) -> (int, StructInfoM)
    decreases s.len() - i,
    when 0 <= i
    via struct_body_decreases
{
    if i >= s.len() || depth == 0 {
        (i, info)
    } else if comment_at(s, i) {
        struct_body(s, text::run_end(s, i, Class::Not('\n')), depth, is_struct, info)
    } else if s[i] == '"' {
        struct_body(s, string_end(s, i + 1), depth, is_struct, info)
    } else if s[i] == '{' {
        struct_body(s, i + 1, depth + 1, is_struct, info)
    } else if s[i] == '}' {
        struct_body(s, i + 1, (depth - 1) as nat, is_struct, info)
    } else if depth == 1 && is_struct && field_at(s, i) is Some {
        let (name, ty, end) = field_at(s, i)->0;
        struct_body(
            s,
            end,
            depth,
            is_struct,
            StructInfoM { fields: info.fields.push((name, ty)), ..info },
        )
    } else if depth == 1 && fn_sig_at(s, i) is Some {
        let (name, kind, ret, end) = fn_sig_at(s, i)->0;
        struct_body(
            s,
            end,
            depth,
            is_struct,
            StructInfoM { methods: info.methods.push((name, kind, ret)), ..info },
        )
    } else {
        struct_body(s, i + 1, depth, is_struct, info)
    }
}

proof fn body_step(s: Seq<char>, i: int)
    requires
        0 <= i < s.len(),
    ensures
        comment_at(s, i) ==> i < text::run_end(s, i, Class::Not('\n')) <= s.len(),
        i < string_end(s, i + 1) <= s.len(),
        match field_at(s, i) {
            Some((_, _, end)) => i < end <= s.len(),
            None => true,
        },
        match fn_sig_at(s, i) {
            Some((_, _, _, end)) => i < end <= s.len(),
            None => true,
        },
{
    text::run_end_spec(s, i + 1, Class::Not('\n'));
    string_end_spec(s, i + 1);
    field_at_spec(s, i);
    if text::occurs_at(s, "fn "@, i) {
        fn_sig_at_spec(s, i);
    }
}

#[via_fn]
proof fn struct_body_decreases(
    s: Seq<char>,
    i: int,
    depth: nat,
    is_struct: bool,
    info: StructInfoM,
) {
    if i < s.len() {
        body_step(s, i);
    }
}

proof fn struct_body_spec(
    s: Seq<char>,
    i: int,
    depth: nat,
    is_struct: bool,
    info: StructInfoM,
)
    requires
        0 <= i <= s.len(),
    ensures
        i <= struct_body(s, i, depth, is_struct, info).0 <= s.len(),
    decreases s.len() - i,
{
    reveal(struct_body);
    if i < s.len() && depth > 0 {
        body_step(s, i);
        if comment_at(s, i) {
            struct_body_spec(s, text::run_end(s, i, Class::Not('\n')), depth, is_struct, info);
        } else if s[i] == '"' {
            struct_body_spec(s, string_end(s, i + 1), depth, is_struct, info);
        } else if s[i] == '{' {
            struct_body_spec(s, i + 1, depth + 1, is_struct, info);
        } else if s[i] == '}' {
            struct_body_spec(s, i + 1, (depth - 1) as nat, is_struct, info);
        } else if depth == 1 && is_struct && field_at(s, i) is Some {
            let (name, ty, end) = field_at(s, i)->0;
            struct_body_spec(
                s,
                end,
                depth,
                is_struct,
                StructInfoM { fields: info.fields.push((name, ty)), ..info },
            );
        } else if depth == 1 && fn_sig_at(s, i) is Some {
            let (name, kind, ret, end) = fn_sig_at(s, i)->0;
            struct_body_spec(
                s,
                end,
                depth,
                is_struct,
                StructInfoM { methods: info.methods.push((name, kind, ret)), ..info },
            );
        } else {
            struct_body_spec(s, i + 1, depth, is_struct, info);
        }
    }
}

/// Scan the body of a struct or `extend` from `start` on, and add what is found
/// to `info`. The body starts after its opening brace. Returns where it ends.
pub fn parse_struct_body(
    v: &Vec<char>,
    start: usize,
    info: &mut StructInfo,
    is_struct: bool,
) -> (r: usize)
    requires
        start <= v.len(),
    ensures
        (r as int, final(info)@) == struct_body(v@, start as int, 1, is_struct, old(info)@),
        start <= r <= v@.len(),
{
    let ghost out = struct_body(v@, start as int, 1, is_struct, info@);
    // Whether the body goes on, and how many braces are open inside it.
    let mut open = true;
    let mut nested: usize = 0;
    let mut i: usize = start;
    while i < v.len() && open
        invariant
            start <= i <= v.len(),
            nested <= i,
            out == struct_body(
                v@,
                i as int,
                if open {
                    (nested + 1) as nat
                } else {
                    0
                },
                is_struct,
                info@,
            ),
        decreases v@.len() - i,
    {
        proof {
            reveal(struct_body);
            body_step(v@, i as int);
        }
        if i + 1 < v.len() && v[i] == '/' && v[i + 1] == '/' {
            i = text::skip_run(v, i, Class::Not('\n'));
        } else if v[i] == '"' {
            i = skip_string(v, i + 1);
        } else if v[i] == '{' {
            nested = nested + 1;
            i = i + 1;
        } else if v[i] == '}' {
            if nested == 0 {
                open = false;
            } else {
                nested = nested - 1;
            }
            i = i + 1;
        } else {
            let field = if nested == 0 && is_struct {
                try_parse_field(v, i)
            } else {
                None
            };
            match field {
                Some((name, ty, end)) => {
                    let ghost before = info.fields@;
                    let ghost next = (name@, ty@);
                    info.fields.push((name, ty));
                    assert(fields_view(info.fields@) =~= fields_view(before).push(next));
                    i = end;
                },
                None => {
                    let sig = if nested == 0 {
                        try_parse_fn_sig(v, i)
                    } else {
                        None
                    };
                    match sig {
                        Some((name, kind, ret, end)) => {
                            let ghost before = info.methods@;
                            let ghost next = (name@, kind, ret@);
                            info.methods.push((name, kind, ret));
                            assert(methods_view(info.methods@) =~= methods_view(before).push(
                                next,
                            ));
                            i = end;
                        },
                        None => {
                            i = i + 1;
                        },
                    }
                },
            }
        }
    }
    proof {
        reveal(struct_body);
    }
    i
}

/// Whether `struct` or `extend` stands at `i`, followed by a blank.
pub open spec fn struct_keyword(s: Seq<char>, i: int) -> Option<bool> {
    if text::occurs_at(s, "struct "@, i) || text::occurs_at(s, "struct\t"@, i) {
        Some(true)
    } else if text::occurs_at(s, "extend "@, i) || text::occurs_at(s, "extend\t"@, i) {
        Some(false)
    } else {
        None
    }
}

/// The name after the keyword at `i`, without a module in front of it: where it
/// starts and where it ends.
pub open spec fn struct_name(s: Seq<char>, i: int) -> (int, int) {
    let a = text::run_end(s, i + 7, Class::AsciiWhite);
    let b = text::run_end(s, a, Class::Ident);
    if b + 2 < s.len() && s[b] == ':' && s[b + 1] == ':' {
        (b + 2, text::run_end(s, b + 2, Class::Ident))
    } else {
        (a, b)
    }
}

proof fn struct_name_spec(s: Seq<char>, i: int)
    requires
        0 <= i < s.len(),
        struct_keyword(s, i) is Some,
    ensures
        i + 7 <= struct_name(s, i).0 <= struct_name(s, i).1 <= s.len(),
{
    reveal_strlit("struct ");
    reveal_strlit("struct\t");
    reveal_strlit("extend ");
    reveal_strlit("extend\t");
    text::run_end_spec(s, i + 7, Class::AsciiWhite);
    let a = text::run_end(s, i + 7, Class::AsciiWhite);
    text::run_end_spec(s, a, Class::Ident);
    let b = text::run_end(s, a, Class::Ident);
    if b + 2 < s.len() {
        text::run_end_spec(s, b + 2, Class::Ident);
    }
}

/// The place of the first struct of that name, from the `k`-th on.
pub open spec fn struct_index(
    structs: Seq<(Seq<char>, StructInfoM)>,
    name: Seq<char>,
    k: int,
) -> Option<int>
    decreases structs.len() - k,
{
    if k < 0 || k >= structs.len() {
        None
    } else if structs[k].0 == name {
        Some(k)
    } else {
        struct_index(structs, name, k + 1)
    }
}

pub open spec fn no_info() -> StructInfoM {
    StructInfoM { fields: Seq::empty(), methods: Seq::empty() }
}

/// What is known of a struct of that name.
pub open spec fn info_of(structs: Seq<(Seq<char>, StructInfoM)>, name: Seq<char>) -> StructInfoM {
    match struct_index(structs, name, 0) {
        Some(k) => structs[k].1,
        None => no_info(),
    }
}

/// The structs when `info` is known of that one.
pub open spec fn with_info(
    structs: Seq<(Seq<char>, StructInfoM)>,
    name: Seq<char>,
    info: StructInfoM,
) -> Seq<(Seq<char>, StructInfoM)> {
    match struct_index(structs, name, 0) {
        Some(k) => structs.update(k, (structs[k].0, info)),
        None => structs.push((name, info)),
    }
}

/// The structs of the text from `i` on, added to those known.
#[verifier::opaque]
pub open spec fn structs_from(
    s: Seq<char>,
    i: int,
    structs: Seq<(Seq<char>, StructInfoM)>,
) -> Seq<(Seq<char>, StructInfoM)>
    decreases s.len() - i,
    when 0 <= i
    via structs_from_decreases
{
    if i >= s.len() {
        structs
    } else if comment_at(s, i) {
        structs_from(s, text::run_end(s, i, Class::Not('\n')), structs)
    } else if s[i] == '"' {
        structs_from(s, string_end(s, i + 1), structs)
    } else {
        match struct_keyword(s, i) {
            Some(is_struct) => {
                let (a, b) = struct_name(s, i);
                let name = s.subrange(a, b);
                let open = text::run_end(s, b, Class::Not('{'));
                if name.len() == 0 {
                    structs_from(s, b, structs)
                } else if open >= s.len() {
                    structs
                } else {
                    let (end, info) = struct_body(
                        s,
                        open + 1,
                        1,
                        is_struct,
                        info_of(structs, name),
                    );
                    structs_from(s, end, with_info(structs, name, info))
                }
            },
            None => structs_from(s, i + 1, structs),
        }
    }
}

proof fn structs_step(s: Seq<char>, i: int, structs: Seq<(Seq<char>, StructInfoM)>)
    requires
        0 <= i < s.len(),
    ensures
        comment_at(s, i) ==> i < text::run_end(s, i, Class::Not('\n')) <= s.len(),
        i < string_end(s, i + 1) <= s.len(),
        match struct_keyword(s, i) {
            Some(is_struct) => {
                let (a, b) = struct_name(s, i);
                let open = text::run_end(s, b, Class::Not('{'));
                let info = info_of(structs, s.subrange(a, b));
                &&& i < a <= b <= open <= s.len()
                &&& open < s.len() ==> open < struct_body(s, open + 1, 1, is_struct, info).0
                    <= s.len()
            },
            None => true,
        },
{
    body_step(s, i);
    if struct_keyword(s, i) is Some {
        struct_name_spec(s, i);
        let (a, b) = struct_name(s, i);
        text::run_end_spec(s, b, Class::Not('{'));
        let open = text::run_end(s, b, Class::Not('{'));
        if open < s.len() {
            struct_body_spec(
                s,
                open + 1,
                1,
                struct_keyword(s, i)->0,
                info_of(structs, s.subrange(a, b)),
            );
        }
    }
}

#[via_fn]
proof fn structs_from_decreases(
    s: Seq<char>,
    i: int,
    structs: Seq<(Seq<char>, StructInfoM)>,
) {
    if i < s.len() {
        structs_step(s, i, structs);
    }
}

fn find_struct(structs: &Vec<(String, StructInfo)>, name: &str) -> (r: Option<usize>)
    ensures
        match r {
            Some(k) => {
                &&& k < structs@.len()
                &&& struct_index(structs_view(structs@), name@, 0) == Some(k as int)
            },
            None => struct_index(structs_view(structs@), name@, 0) is None,
        },
{
    let ghost v = structs_view(structs@);
    let mut k: usize = 0;
    while k < structs.len()
        invariant
            k <= structs@.len(),
            v == structs_view(structs@),
            struct_index(v, name@, 0) == struct_index(v, name@, k as int),
        decreases structs@.len() - k,
    {
        if text::text_eq(structs[k].0.as_str(), name) {
            return Some(k);
        }
        k = k + 1;
    }
    None
}

/// Find `struct Name { ... }` and `extend Name { ... }`. A brace-counting scan
/// handles nested braces.
fn parse_structs(v: &Vec<char>) -> (r: Vec<(String, StructInfo)>)
    ensures
        structs_view(r@) == structs_from(v@, 0, Seq::empty()),
{
    let ghost s = v@;
    let mut structs: Vec<(String, StructInfo)> = Vec::new();
    assert(structs_view(structs@) =~= Seq::empty());
    let mut i: usize = 0;
    while i < v.len()
        invariant
            s == v@,
            i <= v.len(),
            structs_from(s, 0, Seq::empty()) == structs_from(
                s,
                i as int,
                structs_view(structs@),
            ),
        decreases v@.len() - i,
    {
        proof {
            reveal(structs_from);
            structs_step(s, i as int, structs_view(structs@));
        }
        if i + 1 < v.len() && v[i] == '/' && v[i + 1] == '/' {
            i = text::skip_run(v, i, Class::Not('\n'));
        } else if v[i] == '"' {
            i = skip_string(v, i + 1);
        } else {
            let is_struct = text::holds_text_at(v, "struct ", i) || text::holds_text_at(
                v,
                "struct\t",
                i,
            );
            if is_struct || text::holds_text_at(v, "extend ", i) || text::holds_text_at(
                v,
                "extend\t",
                i,
            ) {
                proof {
                    struct_name_spec(s, i as int);
                    text::run_end_spec(s, i + 7, Class::AsciiWhite);
                    text::run_end_spec(
                        s,
                        text::run_end(s, i + 7, Class::AsciiWhite),
                        Class::Ident,
                    );
                }
                let mut a = text::skip_run(v, i + 7, Class::AsciiWhite);
                let mut b = text::skip_run(v, a, Class::Ident);
                // `extend mod::Name`
                if b < v.len() && v.len() - b > 2 && v[b] == ':' && v[b + 1] == ':' {
                    a = b + 2;
                    b = text::skip_run(v, a, Class::Ident);
                }
                if a == b {
                    i = b;
                } else {
                    let open = text::skip_run(v, b, Class::Not('{'));
                    if open >= v.len() {
                        return structs;
                    }
                    let name = text::slice_text(v, a, b);
                    i = add_struct(v, open + 1, &mut structs, name, is_struct);
                }
            } else {
                i = i + 1;
            }
        }
    }
    proof {
        reveal(structs_from);
    }
    structs
}

/// Scan a struct's body and add what is found to what is known of the struct.
fn add_struct(
    v: &Vec<char>,
    start: usize,
    structs: &mut Vec<(String, StructInfo)>,
    name: String,
    is_struct: bool,
) -> (r: usize)
    requires
        1 <= start <= v.len(),
    ensures
        ({
            let known = structs_view(old(structs)@);
            let (end, info) = struct_body(
                v@,
                start as int,
                1,
                is_struct,
                info_of(known, name@),
            );
            &&& r == end
            &&& structs_view(final(structs)@) == with_info(known, name@, info)
        }),
        start <= r <= v@.len(),
{
    let ghost before = structs@;
    match find_struct(structs, name.as_str()) {
        Some(k) => {
            let r = parse_struct_body(v, start, &mut structs[k].1, is_struct);
            proof {
                assert(structs_view(structs@) =~= structs_view(before).update(
                    k as int,
                    (structs@[k as int].0@, structs@[k as int].1@),
                ));
            }
            r
        },
        None => {
            let mut info = StructInfo { fields: Vec::new(), methods: Vec::new() };
            assert(fields_view(info.fields@) =~= Seq::empty());
            assert(methods_view(info.methods@) =~= Seq::empty());
            let r = parse_struct_body(v, start, &mut info, is_struct);
            let ghost next = (name@, info@);
            structs.push((name, info));
            assert(structs_view(structs@) =~= structs_view(before).push(next));
            r
        },
    }
}

// ---------------------------------------------------------------------------
// Variables
// ---------------------------------------------------------------------------

pub open spec fn holds(s: Seq<char>, c: char) -> bool {
    text::run_end(s, 0, Class::Not(c)) < s.len()
}

fn has_char(v: &Vec<char>, c: char) -> (r: bool)
    ensures
        r == holds(v@, c),
{
    text::skip_run(v, 0, Class::Not(c)) < v.len()
}

/// What stands before and after the first `c`.
pub open spec fn cut(s: Seq<char>, c: char) -> Option<(Seq<char>, Seq<char>)> {
    let e = text::run_end(s, 0, Class::Not(c));
    if e < s.len() {
        Some((s.take(e), s.skip(e + 1)))
    } else {
        None
    }
}

fn cut_at(v: &Vec<char>, c: char) -> (r: Option<(Vec<char>, Vec<char>)>)
    ensures
        match r {
            Some((a, b)) => cut(v@, c) == Some((a@, b@)),
            None => cut(v@, c) is None,
        },
{
    let e = text::skip_run(v, 0, Class::Not(c));
    if e < v.len() {
        let a = text::slice_chars(v, 0, e);
        let b = text::slice_chars(v, e + 1, v.len());
        assert(a@ =~= v@.take(e as int));
        assert(b@ =~= v@.skip(e + 1));
        Some((a, b))
    } else {
        None
    }
}

/// The name and the type in `name: Type = ...`.
#[verifier::opaque]
pub open spec fn typed_let(rest: Seq<char>) -> Option<(Seq<char>, Seq<char>)> {
    match cut(rest, ':') {
        None => None,
        Some((n, t)) => {
            let name = text::trim(n);
            let after = text::trim(t);
            if holds(name, ' ') || name.len() == 0 || (after.len() > 0 && after[0] == ':') {
                None
            } else {
                match cut(after, '=') {
                    None => None,
                    Some((ty, _)) => {
                        let ty = text::trim(ty);
                        if ty.len() == 0 || holds(ty, ' ') {
                            None
                        } else {
                            Some((name, ty))
                        }
                    },
                }
            }
        },
    }
}

pub open spec fn pair_view(p: Option<(String, String)>) -> Option<(Seq<char>, Seq<char>)> {
    match p {
        Some((a, b)) => Some((a@, b@)),
        None => None,
    }
}

pub fn parse_let_typed(rest: &Vec<char>) -> (r: Option<(String, String)>)
    ensures
        pair_view(r) == typed_let(rest@),
{
    proof {
        reveal(typed_let);
    }
    let (n, t) = cut_at(rest, ':')?;
    let name = text::trimmed(&n);
    if has_char(&name, ' ') || name.len() == 0 {
        return None;
    }
    let after = text::trimmed(&t);
    // don't consume `::` as a type annotation
    if after.len() > 0 && after[0] == ':' {
        return None;
    }
    let (ty, _) = cut_at(&after, '=')?;
    let ty = text::trimmed(&ty);
    if ty.len() == 0 || has_char(&ty, ' ') {
        return None;
    }
    Some((text::all_text(&name), text::all_text(&ty)))
}

/// The type that the right side of `name = ...` names: `Type { ... }`,
/// `mod::Type { ... }` or `Type::method(...)`.
#[verifier::opaque]
pub open spec fn named_type(rhs: Seq<char>) -> Seq<char> {
    match text::split_once(rhs, "::"@) {
        Some((first, rest)) => {
            let second = text::trim(rest);
            if second.len() > 0 && text::is_alpha(second[0]) && holds(second, '{') {
                second.take(word_end(second, 0))
            } else {
                text::trim(first)
            }
        },
        None => {
            let e = word_end(rhs, 0);
            let after = text::trim_start(rhs.skip(e));
            if after.len() > 0 && after[0] == '{' {
                rhs.take(e)
            } else {
                Seq::empty()
            }
        },
    }
}

fn type_named_by(rhs: &Vec<char>) -> (r: Vec<char>)
    ensures
        r@ == named_type(rhs@),
{
    proof {
        reveal(named_type);
    }
    match text::split_text(rhs, "::") {
        Some((first, rest)) => {
            let second = text::trimmed(&rest);
            // `Mod::Type {`: the type is the second part
            if second.len() > 0 && second[0] != '_' && text::test_ident_start(second[0])
                && has_char(&second, '{') {
                let e = skip_word(&second);
                let w = text::slice_chars(&second, 0, e);
                assert(w@ =~= second@.take(e as int));
                w
            } else {
                // `Type::new(`: the type is the first part
                text::trimmed(&first)
            }
        },
        None => {
            // `TypeName {` or just a function call
            let e = skip_word(rhs);
            let tail = text::slice_chars(rhs, e, rhs.len());
            assert(tail@ =~= rhs@.skip(e as int));
            let after = text::trimmed_start(&tail);
            if after.len() > 0 && after[0] == '{' {
                let w = text::slice_chars(rhs, 0, e);
                assert(w@ =~= rhs@.take(e as int));
                w
            } else {
                let none: Vec<char> = Vec::new();
                assert(none@ =~= Seq::empty());
                none
            }
        },
    }
}

/// The name and the type in `name = ...` where the right side names the type.
#[verifier::opaque]
pub open spec fn inferred_let(rest: Seq<char>) -> Option<(Seq<char>, Seq<char>)> {
    match cut(rest, '=') {
        None => None,
        Some((n, r)) => {
            let name = text::trim(n);
            let ty = named_type(text::trim(r));
            if name.len() == 0 || holds(name, ' ') || holds(name, ':') || ty.len() == 0 {
                None
            } else {
                Some((name, ty))
            }
        },
    }
}

pub fn parse_let_inferred(rest: &Vec<char>) -> (r: Option<(String, String)>)
    ensures
        pair_view(r) == inferred_let(rest@),
{
    proof {
        reveal(inferred_let);
    }
    let (n, rhs) = cut_at(rest, '=')?;
    let name = text::trimmed(&n);
    if name.len() == 0 || has_char(&name, ' ') || has_char(&name, ':') {
        return None;
    }
    let ty = type_named_by(&text::trimmed(&rhs));
    if ty.len() == 0 {
        return None;
    }
    Some((text::all_text(&name), text::all_text(&ty)))
}

/// The variable that a line declares.
#[verifier::opaque]
pub open spec fn line_var(line: Seq<char>) -> Option<(Seq<char>, Seq<char>)> {
    match text::after_prefix(text::trim(line), "let "@) {
        None => None,
        Some(r) => {
            let rest = text::trim(r);
            match typed_let(rest) {
                Some(p) => Some(p),
                None => inferred_let(rest),
            }
        },
    }
}

/// The variables of the first `n` lines.
pub open spec fn vars_of(lines: Seq<Seq<char>>, n: int) -> Seq<(nat, Seq<char>, Seq<char>)>
    decreases n,
{
    if n <= 0 || n > lines.len() {
        Seq::empty()
    } else {
        match line_var(lines[n - 1]) {
            Some((name, ty)) => vars_of(lines, n - 1).push(((n - 1) as nat, name, ty)),
            None => vars_of(lines, n - 1),
        }
    }
}

/// Collect `let name: Type` and `let name = TypeName { ... }` and `let name =
/// expr` where we can infer the type from a struct init.
fn parse_vars(v: &Vec<char>) -> (r: Vec<(usize, String, String)>)
    ensures
        vars_view(r@) == vars_of(text::lines(v@), text::lines(v@).len() as int),
{
    let lines = text::split_lines(v);
    let ghost ls = text::lines(v@);
    assert(ls.len() == lines@.len());
    let mut vars: Vec<(usize, String, String)> = Vec::new();
    assert(vars_view(vars@) =~= Seq::empty());
    let mut i: usize = 0;
    while i < lines.len()
        invariant
            i <= lines@.len(),
            ls == text::texts(lines@),
            vars_view(vars@) == vars_of(ls, i as int),
        decreases lines@.len() - i,
    {
        proof {
            reveal(line_var);
            assert(ls[i as int] == lines@[i as int]@);
        }
        if let Some(r) = text::strip_head(&text::trimmed(&lines[i]), "let ") {
            let rest = text::trimmed(&r);
            let found = match parse_let_typed(&rest) {
                Some(p) => Some(p),
                None => parse_let_inferred(&rest),
            };
            if let Some((name, ty)) = found {
                let ghost before = vars@;
                let ghost next = (i as nat, name@, ty@);
                vars.push((i, name, ty));
                assert(vars_view(vars@) =~= vars_view(before).push(next));
            }
        }
        i = i + 1;
    }
    vars
}

/// The symbols of a text.
pub open spec fn symbols_of(s: Seq<char>) -> SymbolsM {
    SymbolsM {
        structs: structs_from(s, 0, Seq::empty()),
        vars: vars_of(text::lines(s), text::lines(s).len() as int),
    }
}

/// The variables among the first `n` that are declared up to the line, each name
/// once, with the type of its last declaration.
pub open spec fn visible(
    vars: Seq<(nat, Seq<char>, Seq<char>)>,
    line: nat,
    n: int,
) -> Seq<(Seq<char>, Seq<char>)>
    decreases n,
{
    if n <= 0 || n > vars.len() {
        Seq::empty()
    } else {
        let before = visible(vars, line, n - 1);
        let (at, name, ty) = vars[n - 1];
        if at > line {
            before
        } else {
            match pair_index(before, name, 0) {
                Some(k) => before.update(k, (name, ty)),
                None => before.push((name, ty)),
            }
        }
    }
}

/// The place of the first pair of that name, from the `k`-th on.
pub open spec fn pair_index(
    pairs: Seq<(Seq<char>, Seq<char>)>,
    name: Seq<char>,
    k: int,
) -> Option<int>
    decreases pairs.len() - k,
{
    if k < 0 || k >= pairs.len() {
        None
    } else if pairs[k].0 == name {
        Some(k)
    } else {
        pair_index(pairs, name, k + 1)
    }
}

pub fn find_pair(pairs: &Vec<(String, String)>, name: &str) -> (r: Option<usize>)
    ensures
        match r {
            Some(k) => {
                &&& k < pairs@.len()
                &&& pair_index(fields_view(pairs@), name@, 0) == Some(k as int)
            },
            None => pair_index(fields_view(pairs@), name@, 0) is None,
        },
{
    let ghost v = fields_view(pairs@);
    let mut k: usize = 0;
    while k < pairs.len()
        invariant
            k <= pairs@.len(),
            v == fields_view(pairs@),
            pair_index(v, name@, 0) == pair_index(v, name@, k as int),
        decreases pairs@.len() - k,
    {
        if text::text_eq(pairs[k].0.as_str(), name) {
            return Some(k);
        }
        k = k + 1;
    }
    None
}

impl Symbols {
    pub fn extract(src: &str) -> (r: Symbols)
        ensures
            r@ == symbols_of(src@),
            structs_distinct(r@.structs),
    {
        proof {
            struct_names_are_distinct(src@, 0, Seq::empty());
        }
        let chars = text::to_chars(src);
        Symbols { structs: parse_structs(&chars), vars: parse_vars(&chars) }
    }

    /// All variables declared up to this line, with their types.
    pub fn vars_at(&self, line: usize) -> (r: Vec<(String, String)>)
        ensures
            fields_view(r@) == visible(self@.vars, line as nat, self@.vars.len() as int),
    {
        let ghost v = vars_view(self.vars@);
        let mut out: Vec<(String, String)> = Vec::new();
        assert(fields_view(out@) =~= Seq::empty());
        let mut i: usize = 0;
        while i < self.vars.len()
            invariant
                i <= self.vars@.len(),
                v == vars_view(self.vars@),
                fields_view(out@) == visible(v, line as nat, i as int),
            decreases self.vars@.len() - i,
        {
            let (at, name, ty) = &self.vars[i];
            if *at <= line {
                let ghost before = out@;
                let next = (name.clone(), ty.clone());
                let ghost pair = (name@, ty@);
                match find_pair(&out, name.as_str()) {
                    Some(k) => {
                        out.set(k, next);
                        assert(fields_view(out@) =~= fields_view(before).update(k as int, pair));
                    },
                    None => {
                        out.push(next);
                        assert(fields_view(out@) =~= fields_view(before).push(pair));
                    },
                }
            }
            i = i + 1;
        }
        out
    }

    /// The struct whose body holds the line. Brace depth is not tracked, so none
    /// is known.
    pub fn enclosing_struct(&self, _line: usize) -> (r: Option<&str>)
        ensures
            r is None,
    {
        None
    }

    /// What is known of a struct.
    pub fn info(&self, name: &str) -> (r: Option<&StructInfo>)
        ensures
            match r {
                Some(i) => {
                    let k = struct_index(self@.structs, name@, 0);
                    k is Some && self@.structs[k->0].1 == i@
                },
                None => struct_index(self@.structs, name@, 0) is None,
            },
    {
        match find_struct(&self.structs, name) {
            Some(k) => Some(&self.structs[k].1),
            None => None,
        }
    }
}

/// The word before a `.` at the end of the prefix.
pub open spec fn dot_word(prefix: Seq<char>) -> Option<Seq<char>> {
    match text::before_suffix(text::trim_end(prefix), "."@) {
        Some(s) => last_word(s),
        None => None,
    }
}

/// If the prefix ends with `word.` return `word`.
pub fn dot_receiver(prefix: &Vec<char>) -> (r: Option<Vec<char>>)
    ensures
        match r {
            Some(w) => dot_word(prefix@) == Some(w@),
            None => dot_word(prefix@) is None,
        },
{
    let head = text::strip_tail(&text::trimmed_end(prefix), ".")?;
    word_before(&head)
}

/// The word before a `::` at the end of the prefix.
pub open spec fn colon_word(prefix: Seq<char>) -> Option<Seq<char>> {
    match text::before_suffix(text::trim_end(prefix), "::"@) {
        Some(s) => last_word(s),
        None => None,
    }
}

/// If the prefix ends with `Word::` return `Word`.
pub fn colon_colon_receiver(prefix: &Vec<char>) -> (r: Option<Vec<char>>)
    ensures
        match r {
            Some(w) => colon_word(prefix@) == Some(w@),
            None => colon_word(prefix@) is None,
        },
{
    let head = text::strip_tail(&text::trimmed_end(prefix), "::")?;
    word_before(&head)
}

/// Whether a type is expected after the prefix: after a `:` that is no `::`, and
/// after `->`.
pub open spec fn type_expected(prefix: Seq<char>) -> bool {
    let p = text::trim_end(prefix);
    ||| text::before_suffix(p, ":"@) is Some && text::before_suffix(p, "::"@) is None
    ||| text::before_suffix(p, "->"@) is Some
}

/// True if cursor is at a position where a type name is expected: `let name: `,
/// `fn foo(x: `, `-> ` in param list, field decl `name: `.
pub fn is_type_position(prefix: &Vec<char>) -> (r: bool)
    ensures
        r == type_expected(prefix@),
{
    let p = text::trimmed_end(prefix);
    // After `: ` but not `::`
    if text::strip_tail(&p, ":").is_some() && text::strip_tail(&p, "::").is_none() {
        return true;
    }
    // After `->` (return type position)
    text::strip_tail(&p, "->").is_some()
}

// ---------------------------------------------------------------------------
// Names occur once
// ---------------------------------------------------------------------------

/// Whether each struct has an entry of its own.
pub open spec fn structs_distinct(structs: Seq<(Seq<char>, StructInfoM)>) -> bool {
    forall|i: int, j: int|
        0 <= i < j < structs.len() ==> (#[trigger] structs[i]).0 != (#[trigger] structs[j]).0
}

/// Whether each name has a pair of its own.
pub open spec fn pairs_distinct(pairs: Seq<(Seq<char>, Seq<char>)>) -> bool {
    forall|i: int, j: int|
        0 <= i < j < pairs.len() ==> (#[trigger] pairs[i]).0 != (#[trigger] pairs[j]).0
}

proof fn struct_index_spec(structs: Seq<(Seq<char>, StructInfoM)>, name: Seq<char>, k: int)
    requires
        0 <= k,
    ensures
        match struct_index(structs, name, k) {
            Some(i) => k <= i < structs.len() && structs[i].0 == name,
            None => forall|i: int| k <= i < structs.len() ==> (#[trigger] structs[i]).0 != name,
        },
    decreases structs.len() - k,
{
    if k < structs.len() && structs[k].0 != name {
        struct_index_spec(structs, name, k + 1);
    }
}

proof fn pair_index_spec(pairs: Seq<(Seq<char>, Seq<char>)>, name: Seq<char>, k: int)
    requires
        0 <= k,
    ensures
        match pair_index(pairs, name, k) {
            Some(i) => k <= i < pairs.len() && pairs[i].0 == name,
            None => forall|i: int| k <= i < pairs.len() ==> (#[trigger] pairs[i]).0 != name,
        },
    decreases pairs.len() - k,
{
    if k < pairs.len() && pairs[k].0 != name {
        pair_index_spec(pairs, name, k + 1);
    }
}

proof fn with_info_distinct(
    structs: Seq<(Seq<char>, StructInfoM)>,
    name: Seq<char>,
    info: StructInfoM,
)
    requires
        structs_distinct(structs),
    ensures
        structs_distinct(with_info(structs, name, info)),
{
    struct_index_spec(structs, name, 0);
}

/// A struct that the text extends keeps its one entry: no name is listed twice.
pub proof fn struct_names_are_distinct(
    s: Seq<char>,
    i: int,
    structs: Seq<(Seq<char>, StructInfoM)>,
)
    requires
        0 <= i,
        structs_distinct(structs),
    ensures
        structs_distinct(structs_from(s, i, structs)),
    decreases s.len() - i,
{
    reveal(structs_from);
    if i < s.len() {
        structs_step(s, i, structs);
        if comment_at(s, i) {
            struct_names_are_distinct(s, text::run_end(s, i, Class::Not('\n')), structs);
        } else if s[i] == '"' {
            struct_names_are_distinct(s, string_end(s, i + 1), structs);
        } else {
            match struct_keyword(s, i) {
                Some(is_struct) => {
                    let (a, b) = struct_name(s, i);
                    let name = s.subrange(a, b);
                    let open = text::run_end(s, b, Class::Not('{'));
                    if name.len() == 0 {
                        struct_names_are_distinct(s, b, structs);
                    } else if open < s.len() {
                        let (end, info) = struct_body(
                            s,
                            open + 1,
                            1,
                            is_struct,
                            info_of(structs, name),
                        );
                        with_info_distinct(structs, name, info);
                        struct_names_are_distinct(s, end, with_info(structs, name, info));
                    }
                },
                None => {
                    struct_names_are_distinct(s, i + 1, structs);
                },
            }
        }
    }
}

/// A variable that is declared again is offered once.
pub proof fn visible_names_are_distinct(
    vars: Seq<(nat, Seq<char>, Seq<char>)>,
    line: nat,
    n: int,
)
    ensures
        pairs_distinct(visible(vars, line, n)),
    decreases n,
{
    if 0 < n <= vars.len() {
        visible_names_are_distinct(vars, line, n - 1);
        let before = visible(vars, line, n - 1);
        let (at, name, ty) = vars[n - 1];
        pair_index_spec(before, name, 0);
    }
}

/// The type of a variable at a line is that of its last declaration up to the
/// line.
pub proof fn last_declaration_counts(
    vars: Seq<(nat, Seq<char>, Seq<char>)>,
    line: nat,
    d: int,
)
    requires
        0 <= d < vars.len(),
        vars[d].0 <= line,
        forall|e: int|
            d < e < vars.len() && (#[trigger] vars[e]).0 <= line ==> vars[e].1 != vars[d].1,
    ensures
        ({
            let seen = visible(vars, line, vars.len() as int);
            let k = pair_index(seen, vars[d].1, 0);
            k is Some && seen[k->0] == (vars[d].1, vars[d].2)
        }),
{
    declared_stays(vars, line, d, vars.len() as int);
}

proof fn declared_stays(vars: Seq<(nat, Seq<char>, Seq<char>)>, line: nat, d: int, n: int)
    requires
        0 <= d < n <= vars.len(),
        vars[d].0 <= line,
        forall|e: int|
            d < e < vars.len() && (#[trigger] vars[e]).0 <= line ==> vars[e].1 != vars[d].1,
    ensures
        ({
            let seen = visible(vars, line, n);
            let k = pair_index(seen, vars[d].1, 0);
            k is Some && seen[k->0] == (vars[d].1, vars[d].2)
        }),
    decreases n,
{
    let name = vars[d].1;
    let seen = visible(vars, line, n);
    let past = visible(vars, line, n - 1);
    visible_names_are_distinct(vars, line, n);
    pair_index_spec(seen, name, 0);
    pair_index_spec(past, name, 0);
    pair_index_spec(past, vars[n - 1].1, 0);
    if d < n - 1 {
        declared_stays(vars, line, d, n - 1);
        let k = pair_index(past, name, 0)->0;
        assert(seen[k] == past[k]);
    } else {
        match pair_index(past, name, 0) {
            Some(k) => {
                assert(seen[k] == (name, vars[d].2));
            },
            None => {
                assert(seen[past.len() as int] == (name, vars[d].2));
            },
        }
    }
}

} // verus!
