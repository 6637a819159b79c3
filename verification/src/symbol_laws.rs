//! What the symbols of a document and the completions are, said of the texts in
//! which they are declared.

use vstd::prelude::*;

use crate::completion;
use crate::completion::CompletionItemM;
use crate::import_laws;
use crate::symbols;
use crate::symbols::{MethodKind, StructInfoM};
use crate::text;
use crate::text::Class;
use crate::text_laws;

verus! {

// ---------------------------------------------------------------------------
// Signatures
// ---------------------------------------------------------------------------

/// The text of a signature: `fn name(params) ret`, with blanks behind it.
pub open spec fn signature(
    name: Seq<char>,
    params: Seq<char>,
    ret: Seq<char>,
    gap: Seq<char>,
) -> Seq<char> {
    "fn "@ + name + "("@ + params + ") "@ + ret + gap
}

/// Whether these can be the parts of a signature on one line.
pub open spec fn is_signature(
    name: Seq<char>,
    params: Seq<char>,
    ret: Seq<char>,
    gap: Seq<char>,
) -> bool {
    &&& import_laws::is_name(name)
    &&& text_laws::balanced(params, '(', ')')
    &&& ret.len() > 0 && text_laws::tight(ret)
    &&& forall|i: int| 0 <= i < ret.len() ==> #[trigger] ret[i] != '{' && ret[i] != '\n'
    &&& forall|i: int| 0 <= i < gap.len() ==> text::is_blank(#[trigger] gap[i])
}

/// Whether the parameters hold the word `self`, or it as part of a word.
pub open spec fn takes_self(params: Seq<char>) -> bool {
    exists|i: int| #[trigger] text::occurs_at(params, "self"@, i)
}

proof fn parens_are_closed(s: Seq<char>, i: int, params: Seq<char>, n: int)
    requires
        0 <= i,
        i + params.len() < s.len(),
        s.subrange(i, i + params.len()) == params,
        s[i + params.len()] == ')',
        text_laws::balanced(params, '(', ')'),
        0 <= n <= params.len(),
    ensures
        symbols::paren_end(
            s,
            i + n,
            (1 + text_laws::level(params, '(', ')', n)) as nat,
        ) == i + params.len() + 1,
    decreases params.len() - n,
{
    if n < params.len() {
        parens_are_closed(s, i, params, n + 1);
        assert(s[i + n] == s.subrange(i, i + params.len())[n]);
        assert(text_laws::level(params, '(', ')', n + 1) >= 0);
    } else {
        assert(symbols::paren_end(s, i + n + 1, 0) == i + n + 1);
    }
}

proof fn return_type_ends(s: Seq<char>, i: int, e: int)
    requires
        0 <= i <= e <= s.len(),
        forall|j: int| i <= j < e ==> #[trigger] s[j] != '{' && s[j] != '\n',
        e < s.len() ==> s[e] == '{' || s[e] == '\n',
    ensures
        symbols::return_type_end(s, i) == e,
    decreases e - i,
{
    if i < e {
        return_type_ends(s, i + 1, e);
    }
}

/// A signature is read as it is written: under its name, with its return type,
/// and as an instance method just if the parameters hold `self`.
#[verifier::rlimit(40)]
pub proof fn signature_is_read(
    s: Seq<char>,
    i: int,
    name: Seq<char>,
    params: Seq<char>,
    ret: Seq<char>,
    gap: Seq<char>,
)
    requires
        is_signature(name, params, ret, gap),
        0 <= i,
        i + signature(name, params, ret, gap).len() <= s.len(),
        s.subrange(i, i + signature(name, params, ret, gap).len()) == signature(
            name,
            params,
            ret,
            gap,
        ),
        ({
            let e = i + signature(name, params, ret, gap).len();
            e < s.len() ==> s[e] == '{' || s[e] == '\n'
        }),
    ensures
        symbols::fn_sig_at(s, i) == Some(
            (
                name,
                if takes_self(params) {
                    MethodKind::Instance
                } else {
                    MethodKind::Static
                },
                ret,
                i + signature(name, params, ret, gap).len(),
            ),
        ),
{
    reveal_strlit("fn ");
    reveal_strlit("(");
    reveal_strlit(") ");
    let w = signature(name, params, ret, gap);
    let b = 3 + name.len() as int;
    let c = b + 1 + params.len();
    let d = c + 2 + ret.len();
    let e = d + gap.len();
    assert(w.len() == e);
    assert forall|j: int| 0 <= j < e implies s[i + j] == #[trigger] w[j] by {
        assert(s.subrange(i, i + e)[j] == w[j]);
    }
    assert(s.subrange(i, i + 3) =~= "fn "@) by {
        assert forall|j: int| 0 <= j < 3 implies s.subrange(i, i + 3)[j] == "fn "@[j] by {
            assert(w[j] == "fn "@[j]);
        }
    }
    assert forall|j: int| 0 <= j < name.len() implies s[i + 3 + j] == #[trigger] name[j] by {
        assert(w[3 + j] == name[j]);
    }
    assert(s[i + 3] == name[0]);
    text::run_end_at(s, i + 3, i + 3, Class::AsciiWhite);
    assert(w[b] == '(');
    assert forall|j: int| i + 3 <= j < i + b implies text::in_class(
        #[trigger] s[j],
        Class::Ident,
    ) by {
        assert(s[i + 3 + (j - i - 3)] == name[j - i - 3]);
    }
    text::run_end_at(s, i + 3, i + b, Class::Ident);
    text::run_end_at(s, i + b, i + b, Class::Not('('));
    assert(s.subrange(i + 3, i + b) =~= name);
    assert(s.subrange(i + b + 1, i + c) =~= params) by {
        assert forall|j: int| 0 <= j < params.len() implies s.subrange(i + b + 1, i + c)[j]
            == params[j] by {
            assert(w[b + 1 + j] == params[j]);
        }
    }
    assert(w[c] == ')');
    parens_are_closed(s, i + b + 1, params, 0);
    let close = i + c + 1;
    assert(symbols::paren_end(s, i + b + 1, 1) == close);
    assert(w[c + 1] == ' ');
    assert(w[c + 2] == ret[0]);
    assert(s[i + c + 2] == ret[0]);
    text::run_end_at(s, close, close + 1, Class::AsciiWhite);
    assert forall|j: int| close + 1 <= j < i + e implies #[trigger] s[j] != '{' && s[j]
        != '\n' by {
        if j < i + d {
            assert(w[j - i] == ret[j - i - c - 2]);
        } else {
            assert(w[j - i] == gap[j - i - d]);
            assert(text::is_blank(gap[j - i - d]));
        }
    }
    return_type_ends(s, close + 1, i + e);
    assert(s.subrange(close + 1, i + e) =~= ret + gap) by {
        assert forall|j: int| 0 <= j < ret.len() + gap.len() implies s.subrange(
            close + 1,
            i + e,
        )[j] == (ret + gap)[j] by {
            if j < ret.len() {
                assert(w[c + 2 + j] == ret[j]);
            } else {
                assert(w[c + 2 + j] == gap[j - ret.len()]);
            }
        }
    }
    let none = Seq::<char>::empty();
    assert(text_laws::all_white(gap)) by {
        assert forall|j: int| 0 <= j < gap.len() implies text::is_white(#[trigger] gap[j]) by {
            assert(text::is_blank(gap[j]));
        }
    }
    text_laws::trimming_takes_white_ends(none, ret, gap);
    assert(none + ret + gap =~= ret + gap);
    text::find_from_spec(params, "self"@, 0);
    if params.len() == 0 {
        assert(params =~= none);
        assert(s.subrange(i + b + 1, close - 1) =~= none);
    }
}

/// A method whose parameters start with `&self`, `&mut self` or `move self` is an
/// instance method.
pub proof fn receivers_make_instance_methods(rest: Seq<char>)
    ensures
        takes_self("&self"@ + rest),
        takes_self("&mut self"@ + rest),
        takes_self("move self"@ + rest),
{
    reveal_strlit("self");
    reveal_strlit("&self");
    reveal_strlit("&mut self");
    reveal_strlit("move self");
    assert(("&self"@ + rest).subrange(1, 5) =~= "self"@);
    assert(text::occurs_at("&self"@ + rest, "self"@, 1));
    assert(("&mut self"@ + rest).subrange(5, 9) =~= "self"@);
    assert(text::occurs_at("&mut self"@ + rest, "self"@, 5));
    assert(("move self"@ + rest).subrange(5, 9) =~= "self"@);
    assert(text::occurs_at("move self"@ + rest, "self"@, 5));
}

// ---------------------------------------------------------------------------
// Structs
// ---------------------------------------------------------------------------

/// What the body of a struct is made of.
pub enum Piece {
    Gap(Seq<char>),
    Field(Seq<char>, Seq<char>),
    /// A field without a comma, at the end of its line.
    Bare(Seq<char>, Seq<char>),
    Method(Seq<char>, Seq<char>, Seq<char>, Seq<char>),
}

/// How a piece is written.
pub open spec fn piece_text(p: Piece) -> Seq<char> {
    match p {
        Piece::Gap(g) => g,
        Piece::Field(name, ty) => name + ": "@ + ty + ","@,
        Piece::Bare(name, ty) => name + ": "@ + ty + "\n"@,
        Piece::Method(name, params, ret, body) => signature(name, params, ret, " "@) + "{"@ + body
            + "}"@,
    }
}

/// Whether the field can be written so, on one line.
pub open spec fn is_field(name: Seq<char>, ty: Seq<char>) -> bool {
    &&& import_laws::is_name(name)
    &&& ty.len() > 0 && text_laws::tight(ty)
    &&& forall|i: int|
        0 <= i < ty.len() ==> #[trigger] ty[i] != ',' && ty[i] != '\n' && ty[i] != '}'
}

/// Whether the piece can be written so: a gap of white space, a field whose type
/// stands on its line, or a method with closed braces and without strings and
/// comments in its body.
pub open spec fn is_piece(p: Piece, is_struct: bool) -> bool {
    match p {
        Piece::Gap(g) => forall|i: int| 0 <= i < g.len() ==> text::is_ascii_white(#[trigger] g[i]),
        Piece::Field(name, ty) => is_struct && is_field(name, ty),
        Piece::Bare(name, ty) => is_struct && is_field(name, ty),
        Piece::Method(name, params, ret, body) => {
            &&& is_signature(name, params, ret, " "@)
            &&& text_laws::balanced(body, '{', '}')
            &&& forall|i: int| 0 <= i < body.len() ==> #[trigger] body[i] != '"' && body[i] != '/'
        },
    }
}

/// What is known with the piece.
pub open spec fn with_piece(info: StructInfoM, p: Piece) -> StructInfoM {
    match p {
        Piece::Gap(_) => info,
        Piece::Field(name, ty) => StructInfoM { fields: info.fields.push((name, ty)), ..info },
        Piece::Bare(name, ty) => StructInfoM { fields: info.fields.push((name, ty)), ..info },
        Piece::Method(name, params, ret, _) => StructInfoM {
            methods: info.methods.push(
                (
                    name,
                    if takes_self(params) {
                        MethodKind::Instance
                    } else {
                        MethodKind::Static
                    },
                    ret,
                ),
            ),
            ..info
        },
    }
}

pub open spec fn pieces_text(ps: Seq<Piece>) -> Seq<char>
    decreases ps.len(),
{
    if ps.len() == 0 {
        Seq::empty()
    } else {
        piece_text(ps[0]) + pieces_text(ps.skip(1))
    }
}

pub open spec fn with_pieces(info: StructInfoM, ps: Seq<Piece>) -> StructInfoM
    decreases ps.len(),
{
    if ps.len() == 0 {
        info
    } else {
        with_pieces(with_piece(info, ps[0]), ps.skip(1))
    }
}

/// Whether the text stands at that place.
pub open spec fn stands_at(s: Seq<char>, i: int, w: Seq<char>) -> bool {
    0 <= i && i + w.len() <= s.len() && s.subrange(i, i + w.len()) == w
}

proof fn part_stands(s: Seq<char>, i: int, a: Seq<char>, b: Seq<char>)
    requires
        stands_at(s, i, a + b),
    ensures
        stands_at(s, i, a),
        stands_at(s, i + a.len(), b),
        forall|j: int| 0 <= j < a.len() ==> s[i + j] == #[trigger] a[j],
        forall|j: int| 0 <= j < b.len() ==> s[i + a.len() + j] == #[trigger] b[j],
{
    let w = a + b;
    assert forall|j: int| 0 <= j < w.len() implies s[i + j] == #[trigger] w[j] by {
        assert(s.subrange(i, i + w.len())[j] == w[j]);
    }
    assert forall|j: int| 0 <= j < a.len() implies s[i + j] == #[trigger] a[j] by {
        assert(w[j] == a[j]);
    }
    assert forall|j: int| 0 <= j < b.len() implies s[i + a.len() + j] == #[trigger] b[j] by {
        assert(w[a.len() + j] == b[j]);
        assert(s[i + (a.len() + j)] == w[a.len() + j]);
    }
    assert(s.subrange(i, i + a.len()) =~= a);
    assert(s.subrange(i + a.len(), i + a.len() + b.len()) =~= b);
}

proof fn not_fn(s: Seq<char>, i: int)
    requires
        0 <= i < s.len(),
        s[i] != 'f',
    ensures
        symbols::fn_sig_at(s, i) is None,
{
    reveal_strlit("fn ");
    if text::occurs_at(s, "fn "@, i) {
        assert(s.subrange(i, i + 3)[0] == s[i]);
    }
}

proof fn gap_is_passed(
    s: Seq<char>,
    i: int,
    e: int,
    is_struct: bool,
    info: StructInfoM,
)
    requires
        0 <= i <= e <= s.len(),
        forall|j: int| i <= j < e ==> text::is_ascii_white(#[trigger] s[j]),
    ensures
        symbols::struct_body(s, i, 1, is_struct, info) == symbols::struct_body(
            s,
            e,
            1,
            is_struct,
            info,
        ),
    decreases e - i,
{
    if i < e {
        reveal_with_fuel(symbols::struct_body, 1);
        assert(text::is_ascii_white(s[i]));
        not_fn(s, i);
        gap_is_passed(s, i + 1, e, is_struct, info);
    }
}

proof fn field_is_read(s: Seq<char>, i: int, name: Seq<char>, ty: Seq<char>, stop: Seq<char>)
    requires
        is_piece(Piece::Field(name, ty), true),
        stop == ","@ || stop == "\n"@,
        stands_at(s, i, name + ": "@ + ty + stop),
    ensures
        ({
            let d = i + name.len() + 2 + ty.len();
            &&& symbols::field_at(s, i) == Some(
                (
                    name,
                    ty,
                    if stop == ","@ {
                        d + 1
                    } else {
                        d
                    },
                ),
            )
            &&& d < s.len() && s[d] == stop[0] && s[i] == name[0]
        }),
{
    reveal_strlit(": ");
    reveal_strlit(",");
    reveal_strlit("\n");
    let a = name.len() as int;
    let d = a + 2 + ty.len();
    part_stands(s, i, name + ": "@ + ty, stop);
    part_stands(s, i, name + ": "@, ty);
    part_stands(s, i, name, ": "@);
    assert(s[i + a + 0] == ": "@[0]);
    assert(s[i + a + 1] == ": "@[1]);
    assert(s[i + (name + ": "@).len() + 0] == ty[0]);
    assert(s[i + (name + ": "@ + ty).len() + 0] == stop[0]);
    assert(","@[0] == ',' && "\n"@[0] == '\n');
    assert(s[i + 0] == name[0]);
    assert forall|j: int| i <= j < i + a implies text::in_class(#[trigger] s[j], Class::Ident) by {
        assert(s[i + (j - i)] == name[j - i]);
    }
    text::run_end_at(s, i, i + a, Class::Ident);
    text::run_end_at(s, i + a, i + a, Class::AsciiWhite);
    text::run_end_at(s, i + a + 1, i + a + 2, Class::AsciiWhite);
    assert forall|j: int| i + a + 2 <= j < i + d implies #[trigger] s[j] != ',' && s[j] != '\n'
        && s[j] != '}' by {
        assert(s[i + (name + ": "@).len() + (j - i - a - 2)] == ty[j - i - a - 2]);
    }
    field_type_ends(s, i + a + 2, i + d);
    assert(s.subrange(i, i + a) =~= name);
    assert(s.subrange(i + a + 2, i + d) =~= ty);
    let none = Seq::<char>::empty();
    text_laws::trimming_takes_white_ends(none, ty, none);
    assert(none + ty + none =~= ty);
}

proof fn field_is_found(s: Seq<char>, i: int, name: Seq<char>, ty: Seq<char>, info: StructInfoM)
    requires
        is_piece(Piece::Field(name, ty), true),
    ensures
        stands_at(s, i, piece_text(Piece::Field(name, ty))) ==> symbols::struct_body(
            s,
            i,
            1,
            true,
            info,
        ) == symbols::struct_body(
            s,
            i + piece_text(Piece::Field(name, ty)).len(),
            1,
            true,
            with_piece(info, Piece::Field(name, ty)),
        ),
        stands_at(s, i, piece_text(Piece::Bare(name, ty))) ==> symbols::struct_body(
            s,
            i,
            1,
            true,
            info,
        ) == symbols::struct_body(
            s,
            i + piece_text(Piece::Bare(name, ty)).len(),
            1,
            true,
            with_piece(info, Piece::Bare(name, ty)),
        ),
{
    reveal_strlit(",");
    reveal_strlit("\n");
    reveal_strlit(": ");
    let next = with_piece(info, Piece::Field(name, ty));
    let d = i + name.len() + 2 + ty.len();
    assert(","@[0] == ',' && "\n"@[0] == '\n');
    if stands_at(s, i, piece_text(Piece::Field(name, ty))) {
        field_is_read(s, i, name, ty, ","@);
        assert(symbols::struct_body(s, i, 1, true, info) == symbols::struct_body(
            s,
            d + 1,
            1,
            true,
            next,
        )) by {
            reveal_with_fuel(symbols::struct_body, 1);
        }
    }
    if stands_at(s, i, piece_text(Piece::Bare(name, ty))) {
        field_is_read(s, i, name, ty, "\n"@);
        assert(symbols::struct_body(s, i, 1, true, info) == symbols::struct_body(
            s,
            d,
            1,
            true,
            next,
        )) by {
            reveal_with_fuel(symbols::struct_body, 1);
        }
        gap_is_passed(s, d, d + 1, true, next);
    }
}

proof fn field_type_ends(s: Seq<char>, i: int, e: int)
    requires
        0 <= i <= e < s.len(),
        forall|j: int| i <= j < e ==> #[trigger] s[j] != ',' && s[j] != '\n' && s[j] != '}',
        s[e] == ',' || s[e] == '\n',
    ensures
        symbols::field_type_end(s, i) == e,
    decreases e - i,
{
    if i < e {
        field_type_ends(s, i + 1, e);
    }
}

proof fn body_is_passed(
    s: Seq<char>,
    i: int,
    body: Seq<char>,
    n: int,
    is_struct: bool,
    info: StructInfoM,
)
    requires
        stands_at(s, i, body),
        i + body.len() < s.len(),
        text_laws::balanced(body, '{', '}'),
        forall|j: int| 0 <= j < body.len() ==> #[trigger] body[j] != '"' && body[j] != '/',
        0 <= n <= body.len(),
    ensures
        symbols::struct_body(
            s,
            i + n,
            (2 + text_laws::level(body, '{', '}', n)) as nat,
            is_struct,
            info,
        ) == symbols::struct_body(s, i + body.len(), 2, is_struct, info),
    decreases body.len() - n,
{
    if n < body.len() {
        body_is_passed(s, i, body, n + 1, is_struct, info);
        reveal_with_fuel(symbols::struct_body, 1);
        assert(s[i + n] == s.subrange(i, i + body.len())[n]);
        assert(body[n] != '"');
        assert(text_laws::level(body, '{', '}', n) >= 0);
        assert(text_laws::level(body, '{', '}', n + 1) >= 0);
    }
}

#[verifier::rlimit(40)]
proof fn method_is_found(
    s: Seq<char>,
    i: int,
    name: Seq<char>,
    params: Seq<char>,
    ret: Seq<char>,
    body: Seq<char>,
    is_struct: bool,
    info: StructInfoM,
)
    requires
        is_piece(Piece::Method(name, params, ret, body), is_struct),
        stands_at(s, i, piece_text(Piece::Method(name, params, ret, body))),
    ensures
        symbols::struct_body(s, i, 1, is_struct, info) == symbols::struct_body(
            s,
            i + piece_text(Piece::Method(name, params, ret, body)).len(),
            1,
            is_struct,
            with_piece(info, Piece::Method(name, params, ret, body)),
        ),
{
    reveal_strlit("{");
    reveal_strlit("}");
    reveal_strlit("fn ");
    let p = Piece::Method(name, params, ret, body);
    let sig = signature(name, params, ret, " "@);
    let e = i + sig.len();
    let next = with_piece(info, p);
    part_stands(s, i, sig + "{"@ + body, "}"@);
    part_stands(s, i, sig + "{"@, body);
    part_stands(s, i, sig, "{"@);
    assert(s[i + sig.len() + 0] == "{"@[0]);
    assert(s[i + (sig + "{"@ + body).len() + 0] == "}"@[0]);
    assert(sig.len() >= 4);
    signature_is_read(s, i, name, params, ret, " "@);
    assert(s[i + 0] == sig[0]);
    assert(s[i + 1] == sig[1]);
    assert(s[i + 2] == sig[2]);
    assert(s[i + 3] == sig[3]);
    assert(sig[0] == 'f' && sig[1] == 'n' && sig[2] == ' ' && sig[3] == name[0]);
    assert(symbols::field_at(s, i) is None) by {
        text::run_end_at(s, i, i + 2, Class::Ident);
        text::run_end_at(s, i + 2, i + 3, Class::AsciiWhite);
    }
    assert(symbols::struct_body(s, i, 1, is_struct, info) == symbols::struct_body(
        s,
        e,
        1,
        is_struct,
        next,
    )) by {
        reveal_with_fuel(symbols::struct_body, 1);
    }
    assert(symbols::struct_body(s, e, 1, is_struct, next) == symbols::struct_body(
        s,
        e + 1,
        2,
        is_struct,
        next,
    )) by {
        reveal_with_fuel(symbols::struct_body, 1);
    }
    body_is_passed(s, e + 1, body, 0, is_struct, next);
    let f = e + 1 + body.len();
    assert(s[f] == '}');
    assert(symbols::struct_body(s, f, 2, is_struct, next) == symbols::struct_body(
        s,
        f + 1,
        1,
        is_struct,
        next,
    )) by {
        reveal_with_fuel(symbols::struct_body, 1);
    }
}

/// The fields and methods of a struct are found as they are written, in order:
/// each field with its type, and each method with its kind and return type. An
/// `extend` has methods only.
pub proof fn members_are_found(
    s: Seq<char>,
    i: int,
    ps: Seq<Piece>,
    is_struct: bool,
    info: StructInfoM,
)
    requires
        forall|k: int| 0 <= k < ps.len() ==> is_piece(#[trigger] ps[k], is_struct),
        stands_at(s, i, pieces_text(ps) + "}"@),
    ensures
        symbols::struct_body(s, i, 1, is_struct, info) == (
            i + pieces_text(ps).len() + 1,
            with_pieces(info, ps),
        ),
    decreases ps.len(),
{
    reveal_strlit("}");
    if ps.len() == 0 {
        reveal_with_fuel(symbols::struct_body, 2);
        part_stands(s, i, pieces_text(ps), "}"@);
        assert(s[i + 0 + 0] == "}"@[0]);
    } else {
        let p = ps[0];
        let rest = ps.skip(1);
        let w = piece_text(p);
        assert(is_piece(ps[0], is_struct));
        assert forall|k: int| 0 <= k < rest.len() implies is_piece(
            #[trigger] rest[k],
            is_struct,
        ) by {
            assert(rest[k] == ps[k + 1]);
        }
        assert(pieces_text(ps) + "}"@ =~= w + (pieces_text(rest) + "}"@));
        part_stands(s, i, w, pieces_text(rest) + "}"@);
        members_are_found(s, i + w.len(), rest, is_struct, with_piece(info, p));
        match p {
            Piece::Gap(g) => {
                assert forall|j: int| i <= j < i + w.len() implies text::is_ascii_white(
                    #[trigger] s[j],
                ) by {
                    assert(s[i + (j - i)] == g[j - i]);
                }
                gap_is_passed(s, i, i + w.len(), is_struct, info);
            },
            Piece::Field(name, ty) => field_is_found(s, i, name, ty, info),
            Piece::Bare(name, ty) => field_is_found(s, i, name, ty, info),
            Piece::Method(name, params, ret, body) => method_is_found(
                s,
                i,
                name,
                params,
                ret,
                body,
                is_struct,
                info,
            ),
        }
    }
}

/// A struct or an `extend` of one that is written with these members adds them to
/// what is known of the struct of that name.
pub proof fn declaration_adds_its_members(
    s: Seq<char>,
    i: int,
    name: Seq<char>,
    ps: Seq<Piece>,
    is_struct: bool,
    structs: Seq<(Seq<char>, StructInfoM)>,
)
    requires
        import_laws::is_name(name),
        forall|k: int| 0 <= k < ps.len() ==> is_piece(#[trigger] ps[k], is_struct),
        stands_at(
            s,
            i,
            (if is_struct {
                "struct "@
            } else {
                "extend "@
            }) + (name + (" {"@ + (pieces_text(ps) + "}"@))),
        ),
    ensures
        symbols::structs_from(s, i, structs) == symbols::structs_from(
            s,
            i + 10 + name.len() + pieces_text(ps).len(),
            symbols::with_info(
                structs,
                name,
                with_pieces(symbols::info_of(structs, name), ps),
            ),
        ),
{
    reveal_with_fuel(symbols::structs_from, 1);
    reveal_strlit("struct ");
    reveal_strlit("struct\t");
    reveal_strlit("extend ");
    reveal_strlit("extend\t");
    reveal_strlit(" {");
    reveal_strlit("}");
    let kw = if is_struct {
        "struct "@
    } else {
        "extend "@
    };
    let tail = pieces_text(ps) + "}"@;
    part_stands(s, i, kw, name + (" {"@ + tail));
    part_stands(s, i + 7, name, " {"@ + tail);
    part_stands(s, i + 7 + name.len(), " {"@, tail);
    assert(s[i + 0] == kw[0]);
    let b = i + 7 + name.len();
    assert(s[b + 0] == " {"@[0]);
    assert(s[b + 1] == " {"@[1]);
    assert(s[i + 7 + 0] == name[0]);
    if !is_struct {
        assert(!text::occurs_at(s, "struct "@, i) && !text::occurs_at(s, "struct\t"@, i)) by {
            if text::occurs_at(s, "struct "@, i) {
                assert(s.subrange(i, i + 7)[0] == s[i]);
                assert("struct "@[0] == 's');
            }
            if text::occurs_at(s, "struct\t"@, i) {
                assert(s.subrange(i, i + 7)[0] == s[i]);
                assert("struct\t"@[0] == 's');
            }
        }
    }
    assert(symbols::struct_keyword(s, i) == Some(is_struct));
    assert forall|j: int| i + 7 <= j < b implies text::in_class(#[trigger] s[j], Class::Ident) by {
        assert(s[i + 7 + (j - i - 7)] == name[j - i - 7]);
    }
    text::run_end_at(s, i + 7, i + 7, Class::AsciiWhite);
    text::run_end_at(s, i + 7, b, Class::Ident);
    text::run_end_at(s, b, b + 1, Class::Not('{'));
    assert(s.subrange(i + 7, b) =~= name);
    members_are_found(s, b + 2, ps, is_struct, symbols::info_of(structs, name));
}

/// An `extend` of a struct of a module adds its methods to what is known of the
/// struct of that bare name.
pub proof fn qualified_extension_adds_its_members(
    s: Seq<char>,
    i: int,
    module: Seq<char>,
    name: Seq<char>,
    ps: Seq<Piece>,
    structs: Seq<(Seq<char>, StructInfoM)>,
)
    requires
        import_laws::is_name(module),
        import_laws::is_name(name),
        forall|k: int| 0 <= k < ps.len() ==> is_piece(#[trigger] ps[k], false),
        stands_at(
            s,
            i,
            "extend "@ + (module + ("::"@ + (name + (" {"@ + (pieces_text(ps) + "}"@))))),
        ),
    ensures
        symbols::structs_from(s, i, structs) == symbols::structs_from(
            s,
            i + 12 + module.len() + name.len() + pieces_text(ps).len(),
            symbols::with_info(
                structs,
                name,
                with_pieces(symbols::info_of(structs, name), ps),
            ),
        ),
{
    reveal_with_fuel(symbols::structs_from, 1);
    reveal_strlit("struct ");
    reveal_strlit("struct\t");
    reveal_strlit("extend ");
    reveal_strlit("extend\t");
    reveal_strlit("::");
    reveal_strlit(" {");
    reveal_strlit("}");
    let tail = pieces_text(ps) + "}"@;
    let body = name + (" {"@ + tail);
    part_stands(s, i, "extend "@, module + ("::"@ + body));
    part_stands(s, i + 7, module, "::"@ + body);
    let a = i + 7 + module.len();
    part_stands(s, a, "::"@, body);
    part_stands(s, a + 2, name, " {"@ + tail);
    let b = a + 2 + name.len();
    part_stands(s, b, " {"@, tail);
    assert(s[i + 0] == "extend "@[0]);
    assert(s[i + 7 + 0] == module[0]);
    assert(s[a + 0] == "::"@[0] && s[a + 1] == "::"@[1]);
    assert(s[a + 2 + 0] == name[0]);
    assert(s[b + 0] == " {"@[0] && s[b + 1] == " {"@[1]);
    assert(!text::occurs_at(s, "struct "@, i) && !text::occurs_at(s, "struct\t"@, i)) by {
        if text::occurs_at(s, "struct "@, i) {
            assert(s.subrange(i, i + 7)[0] == s[i]);
            assert("struct "@[0] == 's');
        }
        if text::occurs_at(s, "struct\t"@, i) {
            assert(s.subrange(i, i + 7)[0] == s[i]);
            assert("struct\t"@[0] == 's');
        }
    }
    assert(symbols::struct_keyword(s, i) == Some(false));
    assert forall|j: int| i + 7 <= j < a implies text::in_class(#[trigger] s[j], Class::Ident) by {
        assert(s[i + 7 + (j - i - 7)] == module[j - i - 7]);
    }
    assert forall|j: int| a + 2 <= j < b implies text::in_class(#[trigger] s[j], Class::Ident) by {
        assert(s[a + 2 + (j - a - 2)] == name[j - a - 2]);
    }
    text::run_end_at(s, i + 7, i + 7, Class::AsciiWhite);
    text::run_end_at(s, i + 7, a, Class::Ident);
    text::run_end_at(s, a + 2, b, Class::Ident);
    text::run_end_at(s, b, b + 1, Class::Not('{'));
    assert(s.subrange(a + 2, b) =~= name);
    members_are_found(s, b + 2, ps, false, symbols::info_of(structs, name));
}

/// What is known of a struct is what was added last; what is known of the others
/// stays.
pub proof fn added_members_are_known(
    structs: Seq<(Seq<char>, StructInfoM)>,
    name: Seq<char>,
    info: StructInfoM,
    other: Seq<char>,
)
    requires
        other != name,
    ensures
        symbols::info_of(symbols::with_info(structs, name, info), name) == info,
        symbols::info_of(symbols::with_info(structs, name, info), other) == symbols::info_of(
            structs,
            other,
        ),
{
    let r = symbols::with_info(structs, name, info);
    index_is_first(structs, name, 0);
    index_is_first(structs, other, 0);
    index_is_first(r, name, 0);
    index_is_first(r, other, 0);
    match symbols::struct_index(structs, name, 0) {
        Some(k) => {
            assert forall|j: int| 0 <= j < r.len() implies (#[trigger] r[j]).0
                == structs[j].0 by {}
            if let Some(m) = symbols::struct_index(r, name, 0) {
                if m < k {
                    assert(structs[m].0 != name);
                } else if k < m {
                    assert(r[k].0 != name);
                }
            } else {
                assert(r[k].0 != name);
            }
        },
        None => {
            assert forall|j: int| 0 <= j < structs.len() implies #[trigger] r[j] == structs[j] by {}
            let n = structs.len() as int;
            if let Some(m) = symbols::struct_index(r, name, 0) {
                if m < n {
                    assert(structs[m].0 != name);
                }
            } else {
                assert(r[n].0 != name);
            }
        },
    }
    match symbols::struct_index(structs, other, 0) {
        Some(k) => {
            assert(r[k] == structs[k]);
            if let Some(m) = symbols::struct_index(r, other, 0) {
                if m < k {
                    assert(structs[m].0 != other);
                } else if k < m {
                    assert(r[k].0 != other);
                }
            } else {
                assert(r[k].0 != other);
            }
        },
        None => {
            if let Some(m) = symbols::struct_index(r, other, 0) {
                if m < structs.len() {
                    assert(structs[m].0 != other);
                }
            }
        },
    }
}

proof fn index_is_first(structs: Seq<(Seq<char>, StructInfoM)>, name: Seq<char>, k: int)
    requires
        0 <= k,
    ensures
        symbols::struct_index(structs, name, k) matches Some(i) ==> k <= i < structs.len()
            && structs[i].0 == name && forall|j: int|
            k <= j < i ==> (#[trigger] structs[j]).0 != name,
        symbols::struct_index(structs, name, k) is None ==> forall|j: int|
            k <= j < structs.len() ==> (#[trigger] structs[j]).0 != name,
    decreases structs.len() - k,
{
    if k < structs.len() && structs[k].0 != name {
        index_is_first(structs, name, k + 1);
    }
}

proof fn comment_ends(s: Seq<char>, i: int, e: int)
    requires
        0 <= i,
        i + 2 <= e <= s.len(),
        s[i] == '/',
        s[i + 1] == '/',
        !s.subrange(i, e).contains('\n'),
        e == s.len() || s[e] == '\n',
    ensures
        text::run_end(s, i, Class::Not('\n')) == e,
        symbols::comment_at(s, i),
{
    assert forall|j: int| i <= j < e implies text::in_class(#[trigger] s[j], Class::Not('\n')) by {
        assert(s.subrange(i, e)[j - i] == s[j]);
        assert(s.subrange(i, e).contains(s[j]));
    }
    text::run_end_at(s, i, e, Class::Not('\n'));
}

/// Comments hold no declarations: each is passed over to the end of its line,
/// among the structs and inside them.
pub proof fn comments_are_passed_over(
    s: Seq<char>,
    i: int,
    e: int,
    depth: nat,
    is_struct: bool,
    info: StructInfoM,
    structs: Seq<(Seq<char>, StructInfoM)>,
)
    requires
        0 <= i,
        i + 2 <= e <= s.len(),
        s[i] == '/',
        s[i + 1] == '/',
        !s.subrange(i, e).contains('\n'),
        e == s.len() || s[e] == '\n',
        depth > 0,
    ensures
        symbols::struct_body(s, i, depth, is_struct, info) == symbols::struct_body(
            s,
            e,
            depth,
            is_struct,
            info,
        ),
        symbols::structs_from(s, i, structs) == symbols::structs_from(s, e, structs),
{
    reveal_with_fuel(symbols::struct_body, 1);
    reveal_with_fuel(symbols::structs_from, 1);
    comment_ends(s, i, e);
}

/// Where a string ends: at the first quote that no backslash stands before, where
/// a backslash takes the character behind it along.
pub open spec fn string_closes(s: Seq<char>, i: int, e: int) -> bool
    decreases e - i,
{
    0 <= i < e <= s.len() && if s[i] == '"' {
        e == i + 1
    } else if s[i] == '\\' {
        i + 2 < e && string_closes(s, i + 2, e)
    } else {
        string_closes(s, i + 1, e)
    }
}

proof fn closed_string_ends(s: Seq<char>, i: int, e: int)
    requires
        string_closes(s, i, e),
    ensures
        symbols::string_end(s, i) == e,
    decreases e - i,
{
    if s[i] == '"' {
    } else if s[i] == '\\' {
        closed_string_ends(s, i + 2, e);
    } else {
        closed_string_ends(s, i + 1, e);
    }
}

/// Strings hold no declarations and no braces: each is passed over to its closing
/// quote, among the structs and inside them.
pub proof fn strings_are_passed_over(
    s: Seq<char>,
    i: int,
    e: int,
    depth: nat,
    is_struct: bool,
    info: StructInfoM,
    structs: Seq<(Seq<char>, StructInfoM)>,
)
    requires
        0 <= i < s.len(),
        s[i] == '"',
        string_closes(s, i + 1, e),
        depth > 0,
    ensures
        symbols::struct_body(s, i, depth, is_struct, info) == symbols::struct_body(
            s,
            e,
            depth,
            is_struct,
            info,
        ),
        symbols::structs_from(s, i, structs) == symbols::structs_from(s, e, structs),
{
    reveal_with_fuel(symbols::struct_body, 1);
    reveal_with_fuel(symbols::structs_from, 1);
    closed_string_ends(s, i + 1, e);
}

/// Text that is neither a comment nor a string nor a declaration is passed over.
pub proof fn other_text_is_passed_over(
    s: Seq<char>,
    i: int,
    e: int,
    structs: Seq<(Seq<char>, StructInfoM)>,
)
    requires
        0 <= i <= e <= s.len(),
        forall|j: int|
            i <= j < e ==> #[trigger] s[j] != '/' && s[j] != '"' && !text::occurs_at(
                s,
                "struct"@,
                j,
            ) && !text::occurs_at(s, "extend"@, j),
    ensures
        symbols::structs_from(s, i, structs) == symbols::structs_from(s, e, structs),
    decreases e - i,
{
    if i < e {
        reveal_with_fuel(symbols::structs_from, 1);
        reveal_strlit("struct");
        reveal_strlit("extend");
        reveal_strlit("struct ");
        reveal_strlit("struct\t");
        reveal_strlit("extend ");
        reveal_strlit("extend\t");
        assert(s[i] != '/');
        longer_is_not_there(s, i, "struct"@, "struct "@);
        longer_is_not_there(s, i, "struct"@, "struct\t"@);
        longer_is_not_there(s, i, "extend"@, "extend "@);
        longer_is_not_there(s, i, "extend"@, "extend\t"@);
        other_text_is_passed_over(s, i + 1, e, structs);
    }
}

proof fn longer_is_not_there(s: Seq<char>, i: int, w: Seq<char>, v: Seq<char>)
    requires
        !text::occurs_at(s, w, i),
        v.len() == w.len() + 1,
        v.take(w.len() as int) =~= w,
    ensures
        !text::occurs_at(s, v, i),
{
    if text::occurs_at(s, v, i) {
        let n = w.len() as int;
        assert(s.subrange(i, i + n) =~= s.subrange(i, i + n + 1).take(n));
    }
}

// ---------------------------------------------------------------------------
// Variables
// ---------------------------------------------------------------------------

proof fn cutting_parts_at_the_first(a: Seq<char>, c: char, b: Seq<char>)
    requires
        !a.contains(c),
    ensures
        symbols::cut(a + seq![c] + b, c) == Some((a, b)),
{
    let s = a + seq![c] + b;
    let n = a.len() as int;
    assert forall|j: int| 0 <= j < n implies text::in_class(#[trigger] s[j], Class::Not(c)) by {
        assert(s[j] == a[j]);
        assert(a.contains(a[j]));
    }
    assert(s[n] == c);
    text::run_end_at(s, 0, n, Class::Not(c));
    assert(s.take(n) =~= a);
    assert(s.skip(n + 1) =~= b);
}

proof fn holding_is_containing(s: Seq<char>, c: char)
    ensures
        symbols::holds(s, c) == s.contains(c),
{
    text::run_end_spec(s, 0, Class::Not(c));
    let e = text::run_end(s, 0, Class::Not(c));
    if e < s.len() {
        assert(s[e] == c);
    } else if s.contains(c) {
        let i = choose|i: int| 0 <= i < s.len() && s[i] == c;
        assert(text::in_class(s[i], Class::Not(c)));
    }
}

/// Whether it can be the name of a variable or of a type on such a line.
pub open spec fn plain_word(s: Seq<char>) -> bool {
    s.len() > 0 && text_laws::tight(s) && !s.contains(' ') && !s.contains(':') && !s.contains('=')
}

/// The line `let rest`, with white space where it may stand.
pub open spec fn let_line(
    a: Seq<char>,
    b: Seq<char>,
    rest: Seq<char>,
    c: Seq<char>,
) -> Seq<char> {
    a + ("let "@ + (b + rest)) + c
}

proof fn let_rest(a: Seq<char>, b: Seq<char>, rest: Seq<char>, c: Seq<char>)
    requires
        text_laws::all_white(a),
        text_laws::all_white(b),
        text_laws::all_white(c),
        rest.len() > 0,
        text_laws::tight(rest),
    ensures
        text::after_prefix(text::trim(let_line(a, b, rest, c)), "let "@) == Some(b + rest),
        text::trim(b + rest) == rest,
{
    let middle = "let "@ + (b + rest);
    assert(text_laws::tight(middle)) by {
        reveal_strlit("let ");
        assert(middle[0] == 'l');
        assert(middle[middle.len() - 1] == rest[rest.len() - 1]);
    }
    text_laws::trimming_takes_white_ends(a, middle, c);
    text_laws::prefix_and_suffix_leave_the_rest(b + rest, "let "@);
    let none = Seq::<char>::empty();
    text_laws::trimming_takes_white_ends(b, rest, none);
    assert(b + rest + none =~= b + rest);
}

proof fn word_holds_none(s: Seq<char>)
    requires
        plain_word(s),
    ensures
        !symbols::holds(s, ' '),
        !symbols::holds(s, ':'),
{
    holding_is_containing(s, ' ');
    holding_is_containing(s, ':');
}

proof fn space_around(s: Seq<char>)
    requires
        s.len() > 0,
        text_laws::tight(s),
    ensures
        text::trim(s) == s,
        text::trim(s + " "@) == s,
        text::trim(" "@ + s) == s,
{
    reveal_strlit(" ");
    let none = Seq::<char>::empty();
    let blank = " "@;
    assert(text_laws::all_white(blank));
    text_laws::trimming_takes_white_ends(none, s, none);
    assert(none + s + none =~= s);
    text_laws::trimming_takes_white_ends(none, s, blank);
    assert(none + s + blank =~= s + blank);
    text_laws::trimming_takes_white_ends(blank, s, none);
    assert(blank + s + none =~= blank + s);
}

/// `let name: Type = value` declares the variable with that type.
pub proof fn typed_let_declares(
    a: Seq<char>,
    b: Seq<char>,
    name: Seq<char>,
    ty: Seq<char>,
    value: Seq<char>,
    c: Seq<char>,
)
    requires
        text_laws::all_white(a),
        text_laws::all_white(b),
        text_laws::all_white(c),
        plain_word(name),
        plain_word(ty),
        value.len() > 0,
        text_laws::tight(value),
    ensures
        symbols::line_var(let_line(a, b, name + ": "@ + (ty + " = "@ + value), c)) == Some(
            (name, ty),
        ),
{
    reveal(symbols::line_var);
    reveal(symbols::typed_let);
    reveal_strlit(": ");
    reveal_strlit(" = ");
    reveal_strlit(" ");
    let after = ty + " = "@ + value;
    let rest = name + ": "@ + after;
    assert(rest[0] == name[0]);
    assert(rest[rest.len() - 1] == value[value.len() - 1]);
    let_rest(a, b, rest, c);
    assert(rest =~= name + seq![':'] + (" "@ + after));
    cutting_parts_at_the_first(name, ':', " "@ + after);
    space_around(name);
    assert(after[0] == ty[0]);
    assert(after[after.len() - 1] == value[value.len() - 1]);
    space_around(after);
    word_holds_none(name);
    word_holds_none(ty);
    assert(ty.contains(ty[0]));
    assert(!(ty + " "@).contains('=')) by {
        if (ty + " "@).contains('=') {
            let i = choose|i: int| 0 <= i < (ty + " "@).len() && (ty + " "@)[i] == '=';
            if i < ty.len() {
                assert(ty[i] == '=');
            }
        }
    }
    assert(after =~= (ty + " "@) + seq!['='] + (" "@ + value));
    cutting_parts_at_the_first(ty + " "@, '=', " "@ + value);
    space_around(ty);
}

proof fn untyped_let(name: Seq<char>, rhs: Seq<char>)
    requires
        plain_word(name),
        rhs.len() > 0,
        text_laws::tight(rhs),
    ensures
        symbols::typed_let(name + " = "@ + rhs) is None,
        symbols::inferred_let(name + " = "@ + rhs) == if symbols::named_type(rhs).len() == 0 {
            None
        } else {
            Some((name, symbols::named_type(rhs)))
        },
{
    reveal(symbols::typed_let);
    reveal(symbols::inferred_let);
    reveal_strlit(" = ");
    reveal_strlit(" ");
    let rest = name + " = "@ + rhs;
    let e = text::run_end(rest, 0, Class::Not(':'));
    text::run_end_spec(rest, 0, Class::Not(':'));
    if e < rest.len() {
        assert(e > name.len()) by {
            if e < name.len() {
                assert(rest[e] == name[e]);
                assert(name.contains(name[e]));
            }
            assert(rest[name.len() as int] == ' ');
        }
        assert(rest[name.len() as int + 1] == '=');
        assert(e > name.len() + 1);
        let n = rest.take(e);
        let t = text::trim(n);
        let at = text_laws::text_is_its_trimmed_middle(n);
        assert(n[0] == name[0]);
        if at > 0 {
            assert(text::is_white(n.take(at)[0]));
        }
        let k = name.len() as int + 1;
        if t.len() <= k {
            assert(text::is_white(n.skip(at + t.len())[k - t.len()]));
            assert(n[k] == '=');
        }
        assert(n.subrange(at, at + t.len())[name.len() as int] == t[name.len() as int]);
        assert(t.contains(' '));
        holding_is_containing(t, ' ');
    }
    assert(!(name + " "@).contains('=')) by {
        if (name + " "@).contains('=') {
            let i = choose|i: int| 0 <= i < (name + " "@).len() && (name + " "@)[i] == '=';
            if i < name.len() {
                assert(name[i] == '=');
            }
        }
    }
    assert(rest =~= (name + " "@) + seq!['='] + (" "@ + rhs));
    cutting_parts_at_the_first(name + " "@, '=', " "@ + rhs);
    space_around(name);
    space_around(rhs);
    word_holds_none(name);
}

/// Whether the text is a word of the scan.
pub open spec fn scan_word(s: Seq<char>) -> bool {
    s.len() > 0 && forall|i: int| 0 <= i < s.len() ==> symbols::word_char(#[trigger] s[i])
}

proof fn word_ends(s: Seq<char>, i: int, e: int)
    requires
        0 <= i <= e <= s.len(),
        forall|j: int| i <= j < e ==> symbols::word_char(#[trigger] s[j]),
        e < s.len() ==> !symbols::word_char(s[e]),
    ensures
        symbols::word_end(s, i) == e,
    decreases e - i,
{
    if i < e {
        word_ends(s, i + 1, e);
    }
}

/// `let name = Type { ... }` declares the variable with the type that is
/// initialized.
pub proof fn initializer_let_declares(
    a: Seq<char>,
    b: Seq<char>,
    name: Seq<char>,
    ty: Seq<char>,
    value: Seq<char>,
    c: Seq<char>,
)
    requires
        text_laws::all_white(a),
        text_laws::all_white(b),
        text_laws::all_white(c),
        plain_word(name),
        plain_word(ty),
        scan_word(ty),
        !symbols::word_char(' '),
        value.len() > 0,
        value[0] == '{',
        text_laws::tight(value),
        forall|k: int| !#[trigger] text::occurs_at(ty + " "@ + value, "::"@, k),
    ensures
        symbols::line_var(let_line(a, b, name + " = "@ + (ty + " "@ + value), c)) == Some(
            (name, ty),
        ),
{
    reveal(symbols::line_var);
    reveal(symbols::named_type);
    reveal_strlit(" = ");
    reveal_strlit(" ");
    let rhs = ty + " "@ + value;
    let rest = name + " = "@ + rhs;
    assert(rest[0] == name[0]);
    assert(rhs[0] == ty[0]);
    assert(rhs[rhs.len() - 1] == value[value.len() - 1]);
    assert(rest[rest.len() - 1] == value[value.len() - 1]);
    let_rest(a, b, rest, c);
    untyped_let(name, rhs);
    text_laws::splitting_needs_the_part(rhs, "::"@);
    let n = ty.len() as int;
    assert forall|j: int| 0 <= j < n implies symbols::word_char(#[trigger] rhs[j]) by {
        assert(rhs[j] == ty[j]);
    }
    assert(rhs[n] == ' ');
    word_ends(rhs, 0, n);
    assert(rhs.take(n) =~= ty);
    assert(rhs.skip(n) =~= " "@ + value);
    let blank = " "@;
    assert(text_laws::all_white(blank));
    text_laws::trimming_takes_white_ends(blank, value, Seq::empty());
}

/// `let name = Type::method(...)` declares the variable with the type whose
/// method is called, and `let name = module::Type { ... }` with the type that is
/// initialized.
pub proof fn qualified_let_declares(
    a: Seq<char>,
    b: Seq<char>,
    name: Seq<char>,
    first: Seq<char>,
    second: Seq<char>,
    value: Seq<char>,
    c: Seq<char>,
)
    requires
        text_laws::all_white(a),
        text_laws::all_white(b),
        text_laws::all_white(c),
        plain_word(name),
        plain_word(first),
        scan_word(second),
        value.len() > 0,
        !symbols::word_char(value[0]),
        text_laws::tight(second + value),
        text::is_alpha(second[0]),
    ensures
        symbols::line_var(
            let_line(a, b, name + " = "@ + (first + "::"@ + (second + value)), c),
        ) == Some(
            (
                name,
                if (second + value).contains('{') {
                    second
                } else {
                    first
                },
            ),
        ),
{
    reveal(symbols::line_var);
    reveal(symbols::named_type);
    reveal_strlit(" = ");
    reveal_strlit("::");
    let tail = second + value;
    let rhs = first + "::"@ + tail;
    let rest = name + " = "@ + rhs;
    assert(rest[0] == name[0]);
    assert(rhs[0] == first[0]);
    assert(rhs[rhs.len() - 1] == tail[tail.len() - 1]);
    assert(rest[rest.len() - 1] == tail[tail.len() - 1]);
    let_rest(a, b, rest, c);
    untyped_let(name, rhs);
    assert forall|k: int| 0 <= k < first.len() implies !#[trigger] text::occurs_at(
        rhs,
        "::"@,
        k,
    ) by {
        if text::occurs_at(rhs, "::"@, k) {
            assert(rhs.subrange(k, k + 2)[0] == first[k]);
            assert("::"@[0] == ':');
            assert(first.contains(first[k]));
        }
    }
    text_laws::splitting_parts_at_the_first(first, "::"@, tail);
    space_around(first);
    space_around(tail);
    assert(tail[0] == second[0]);
    holding_is_containing(tail, '{');
    let n = second.len() as int;
    assert forall|j: int| 0 <= j < n implies symbols::word_char(#[trigger] tail[j]) by {
        assert(tail[j] == second[j]);
    }
    assert(tail[n] == value[0]);
    word_ends(tail, 0, n);
    assert(tail.take(n) =~= second);
}

/// Each variable is listed with the line that declares it, in the order of the
/// lines, and nothing else is listed.
pub proof fn variables_are_listed_by_line(lines: Seq<Seq<char>>, n: int)
    requires
        0 <= n <= lines.len(),
    ensures
        ({
            let vars = symbols::vars_of(lines, n);
            &&& forall|i: int|
                0 <= i < n ==> (symbols::line_var(#[trigger] lines[i]) matches Some((name, ty))
                    ==> vars.contains((i as nat, name, ty)))
            &&& forall|k: int|
                0 <= k < vars.len() ==> (#[trigger] vars[k]).0 < n && symbols::line_var(
                    lines[vars[k].0 as int],
                ) == Some((vars[k].1, vars[k].2))
            &&& forall|j: int, k: int|
                0 <= j < k < vars.len() ==> (#[trigger] vars[j]).0 < (#[trigger] vars[k]).0
        }),
    decreases n,
{
    if n > 0 {
        variables_are_listed_by_line(lines, n - 1);
        let before = symbols::vars_of(lines, n - 1);
        let vars = symbols::vars_of(lines, n);
        assert forall|i: int| 0 <= i < n implies (symbols::line_var(
            #[trigger] lines[i],
        ) matches Some((name, ty)) ==> vars.contains((i as nat, name, ty))) by {
            if let Some((name, ty)) = symbols::line_var(lines[i]) {
                if i < n - 1 {
                    let k = choose|k: int| 0 <= k < before.len() && before[k] == (i as nat, name, ty);
                    assert(vars[k] == (i as nat, name, ty));
                } else {
                    assert(vars[before.len() as int] == (i as nat, name, ty));
                }
            }
        }
        assert forall|k: int| 0 <= k < vars.len() implies (#[trigger] vars[k]).0 < n
            && symbols::line_var(lines[vars[k].0 as int]) == Some((vars[k].1, vars[k].2)) by {
            if k < before.len() {
                assert(vars[k] == before[k]);
            }
        }
        assert forall|j: int, k: int| 0 <= j < k < vars.len() implies (#[trigger] vars[j]).0 < (
        #[trigger] vars[k]).0 by {
            assert(vars[j] == before[j]);
            if k < before.len() {
                assert(vars[k] == before[k]);
            }
        }
    }
}

// ---------------------------------------------------------------------------
// Completions
// ---------------------------------------------------------------------------

/// Whether one of the offers is that method, to be called.
pub open spec fn offers_method(items: Seq<CompletionItemM>, name: Seq<char>, ret: Seq<char>) -> bool {
    exists|i: int|
        0 <= i < items.len() && ({
            let x = #[trigger] items[i];
            x.label == name && x.kind == 2 && x.insert_text == Some(
                name + "("@,
            ) && x.detail == "fn "@ + name + "() "@ + ret
        })
}

/// Whether one of the offers is that field.
pub open spec fn offers_field(items: Seq<CompletionItemM>, name: Seq<char>, ty: Seq<char>) -> bool {
    exists|i: int|
        0 <= i < items.len() && ({
            let x = #[trigger] items[i];
            x.label == name && x.kind == 5 && x.insert_text == Some(name)
                && x.detail == ty
        })
}

/// Whether the methods hold one of that name, kind and return type.
pub open spec fn has_method(
    methods: Seq<(Seq<char>, MethodKind, Seq<char>)>,
    name: Seq<char>,
    kind: MethodKind,
    ret: Seq<char>,
) -> bool {
    exists|i: int| 0 <= i < methods.len() && #[trigger] methods[i] == (name, kind, ret)
}

proof fn methods_are_offered(
    methods: Seq<(Seq<char>, MethodKind, Seq<char>)>,
    kind: MethodKind,
    n: int,
)
    requires
        0 <= n <= methods.len(),
    ensures
        ({
            let items = completion::method_items(methods, kind, n);
            &&& forall|i: int|
                0 <= i < n && (#[trigger] methods[i]).1 == kind ==> items.contains(
                    completion::method_item(methods[i].0, methods[i].2),
                )
            &&& forall|j: int|
                0 <= j < items.len() ==> exists|i: int|
                    0 <= i < n && (#[trigger] methods[i]).1 == kind && #[trigger] items[j]
                        == completion::method_item(methods[i].0, methods[i].2)
        }),
    decreases n,
{
    if n > 0 {
        methods_are_offered(methods, kind, n - 1);
        let before = completion::method_items(methods, kind, n - 1);
        let items = completion::method_items(methods, kind, n);
        assert forall|i: int| 0 <= i < n && (#[trigger] methods[i]).1 == kind implies items.contains(
            completion::method_item(methods[i].0, methods[i].2),
        ) by {
            let x = completion::method_item(methods[i].0, methods[i].2);
            if i < n - 1 {
                let k = choose|k: int| 0 <= k < before.len() && before[k] == x;
                assert(items[k] == x);
            } else {
                assert(items[before.len() as int] == x);
            }
        }
        assert forall|j: int| 0 <= j < items.len() implies exists|i: int|
            0 <= i < n && (#[trigger] methods[i]).1 == kind && #[trigger] items[j]
                == completion::method_item(methods[i].0, methods[i].2) by {
            if j < before.len() {
                assert(items[j] == before[j]);
                let i = choose|i: int|
                    0 <= i < n - 1 && (#[trigger] methods[i]).1 == kind && before[j]
                        == completion::method_item(methods[i].0, methods[i].2);
                assert(methods[i].1 == kind);
            } else {
                assert(methods[n - 1].1 == kind);
            }
        }
    }
}

/// After `x.`, where `x` has the struct as its type, each field and each instance
/// method is offered. After the name of the struct and `::` each static method
/// is. A static method is not offered after `x.`, nor an instance method after
/// `::`, unless there is one of the other kind with the same name.
pub proof fn members_and_statics_are_offered(
    structs: Seq<(Seq<char>, StructInfoM)>,
    k: int,
    name: Seq<char>,
    ret: Seq<char>,
)
    requires
        symbols::structs_distinct(structs),
        0 <= k < structs.len(),
    ensures
        ({
            let ty = structs[k].0;
            let info = structs[k].1;
            let members = completion::members(structs, ty);
            let statics = completion::statics(structs, ty);
            &&& has_method(info.methods, name, MethodKind::Instance, ret) ==> offers_method(
                members,
                name,
                ret,
            )
            &&& has_method(info.methods, name, MethodKind::Static, ret) ==> offers_method(
                statics,
                name,
                ret,
            )
            &&& info.fields.contains((name, ret)) ==> offers_field(members, name, ret)
            &&& forall|j: int|
                0 <= j < statics.len() && (#[trigger] statics[j]).label == name ==> exists|
                    r: Seq<char>,
                | #[trigger] has_method(info.methods, name, MethodKind::Static, r)
            &&& forall|j: int|
                0 <= j < members.len() && (#[trigger] members[j]).label == name && members[j].kind
                    == 2 ==> exists|r: Seq<char>| #[trigger]
                    has_method(info.methods, name, MethodKind::Instance, r)
        }),
{
    let ty = structs[k].0;
    let info = structs[k].1;
    struct_is_indexed(structs, ty, 0, k);
    let n = info.methods.len() as int;
    let fields = completion::field_items(info.fields);
    let instance = completion::method_items(info.methods, MethodKind::Instance, n);
    let statics = completion::method_items(info.methods, MethodKind::Static, n);
    let members = fields + instance;
    methods_are_offered(info.methods, MethodKind::Instance, n);
    methods_are_offered(info.methods, MethodKind::Static, n);
    let x = completion::method_item(name, ret);
    if has_method(info.methods, name, MethodKind::Instance, ret) {
        let i = choose|i: int|
            0 <= i < n && #[trigger] info.methods[i] == (name, MethodKind::Instance, ret);
        let j = choose|j: int| 0 <= j < instance.len() && instance[j] == x;
        assert(members[fields.len() + j] == x);
    }
    if has_method(info.methods, name, MethodKind::Static, ret) {
        let i = choose|i: int|
            0 <= i < n && #[trigger] info.methods[i] == (name, MethodKind::Static, ret);
        let j = choose|j: int| 0 <= j < statics.len() && statics[j] == x;
        assert(statics[j] == x);
    }
    if info.fields.contains((name, ret)) {
        let i = choose|i: int| 0 <= i < info.fields.len() && info.fields[i] == (name, ret);
        assert(members[i] == completion::field_item(name, ret));
    }
    assert forall|j: int| 0 <= j < statics.len() && (
    #[trigger] statics[j]).label == name implies exists|r: Seq<char>| #[trigger]
        has_method(info.methods, name, MethodKind::Static, r) by {
        let i = choose|i: int|
            0 <= i < n && (#[trigger] info.methods[i]).1 == MethodKind::Static && statics[j]
                == completion::method_item(info.methods[i].0, info.methods[i].2);
        assert(has_method(info.methods, name, MethodKind::Static, info.methods[i].2));
    }
    assert forall|j: int| 0 <= j < members.len() && (#[trigger] members[j]).label == name
        && members[j].kind == 2 implies exists|r: Seq<char>| #[trigger]
        has_method(info.methods, name, MethodKind::Instance, r) by {
        if j < fields.len() {
            assert(members[j] == fields[j]);
        } else {
            let m = j - fields.len();
            assert(members[j] == instance[m]);
            let i = choose|i: int|
                0 <= i < n && (#[trigger] info.methods[i]).1 == MethodKind::Instance && instance[m]
                    == completion::method_item(info.methods[i].0, info.methods[i].2);
            assert(has_method(info.methods, name, MethodKind::Instance, info.methods[i].2));
        }
    }
}

proof fn struct_is_indexed(
    structs: Seq<(Seq<char>, StructInfoM)>,
    name: Seq<char>,
    i: int,
    k: int,
)
    requires
        symbols::structs_distinct(structs),
        0 <= i <= k < structs.len(),
        structs[k].0 == name,
    ensures
        symbols::struct_index(structs, name, i) == Some(k),
    decreases k - i,
{
    if i < k {
        assert(structs[i].0 != structs[k].0);
        struct_is_indexed(structs, name, i + 1, k);
    }
}

/// The number of bytes that a text takes.
pub open spec fn bytes(s: Seq<char>) -> nat
    decreases s.len(),
{
    if s.len() == 0 {
        0
    } else {
        bytes(s.drop_last()) + text::width(s.last())
    }
}

proof fn prefix_is_longest(s: Seq<char>, i: int, room: nat)
    requires
        0 <= i <= s.len(),
    ensures
        ({
            let e = completion::fitting(s, i, room);
            &&& i <= e <= s.len()
            &&& bytes(s.take(e)) <= bytes(s.take(i)) + room
            &&& e < s.len() ==> bytes(s.take(e)) + text::width(s[e]) > bytes(s.take(i)) + room
        }),
    decreases s.len() - i,
{
    if i < s.len() && text::width(s[i]) <= room {
        assert(s.take(i + 1).drop_last() =~= s.take(i));
        assert(s.take(i + 1).last() == s[i]);
        prefix_is_longest(s, i + 1, (room - text::width(s[i])) as nat);
    }
}

/// What stands before the cursor is the longest start of the line that fits in
/// that many bytes.
pub proof fn prefix_fits_the_column(line: Seq<char>, col: nat)
    ensures
        ({
            let p = completion::prefix_at(line, col);
            &&& p.len() <= line.len() && line.take(p.len() as int) == p
            &&& bytes(p) <= col
            &&& p.len() < line.len() ==> bytes(p) + text::width(line[p.len() as int]) > col
        }),
{
    prefix_is_longest(line, 0, col);
    assert(line.take(0) =~= Seq::empty());
    let e = completion::fitting(line, 0, col);
    assert(line.take(e).len() == e);
}

proof fn word_starts(s: Seq<char>, a: int, n: int)
    requires
        0 <= a <= n <= s.len(),
        forall|j: int| a <= j < n ==> symbols::word_char(#[trigger] s[j]),
        a > 0 ==> !symbols::word_char(s[a - 1]),
    ensures
        symbols::word_start(s, n) == a,
    decreases n - a,
{
    if a < n {
        word_starts(s, a, n - 1);
    }
}

proof fn last_word_is(pre: Seq<char>, name: Seq<char>)
    requires
        scan_word(name),
        pre.len() > 0 ==> !symbols::word_char(pre[pre.len() - 1]),
    ensures
        symbols::last_word(pre + name) == Some(name),
{
    let s = pre + name;
    let a = pre.len() as int;
    assert forall|j: int| a <= j < s.len() implies symbols::word_char(#[trigger] s[j]) by {
        assert(s[j] == name[j - a]);
    }
    if a > 0 {
        assert(s[a - 1] == pre[a - 1]);
    }
    word_starts(s, a, s.len() as int);
    assert(s.skip(a) =~= name);
}

/// Before `name.` the variable of that name is meant, and before `name::` the
/// type; white space may follow.
pub proof fn word_before_the_cursor_is_found(pre: Seq<char>, name: Seq<char>, gap: Seq<char>)
    requires
        scan_word(name),
        pre.len() > 0 ==> !symbols::word_char(pre[pre.len() - 1]),
        text_laws::all_white(gap),
    ensures
        symbols::dot_word(pre + name + "."@ + gap) == Some(name),
        symbols::colon_word(pre + name + "::"@ + gap) == Some(name),
        symbols::dot_word(pre + name + "::"@ + gap) is None,
{
    reveal_strlit(".");
    reveal_strlit("::");
    last_word_is(pre, name);
    let s = pre + name + "."@;
    let t = pre + name + "::"@;
    ends_are_trimmed(s, gap, '.');
    ends_are_trimmed(t, gap, ':');
    text_laws::prefix_and_suffix_leave_the_rest(pre + name, "."@);
    text_laws::prefix_and_suffix_leave_the_rest(pre + name, "::"@);
    if text::occurs_at(t, "."@, t.len() - 1) {
        assert(t.subrange(t.len() - 1, t.len() as int)[0] == t[t.len() - 1]);
        assert("."@[0] == '.');
    }
}

proof fn ends_are_trimmed(s: Seq<char>, gap: Seq<char>, c: char)
    requires
        text_laws::all_white(gap),
        s.len() > 0,
        s[s.len() - 1] == c,
        !text::is_white(c),
    ensures
        text::trim_end(s + gap) == s,
    decreases gap.len(),
{
    if gap.len() > 0 {
        assert((s + gap).drop_last() =~= s + gap.drop_last());
        assert((s + gap).last() == gap[gap.len() - 1]);
        ends_are_trimmed(s, gap.drop_last(), c);
    } else {
        assert(s + gap =~= s);
    }
}

/// After `name.` the members of the variable's type are offered, and after
/// `name::` the static methods of that type.
pub proof fn cursor_decides_the_offers(
    s: Seq<char>,
    syms: symbols::SymbolsM,
    line: nat,
    col: nat,
    pre: Seq<char>,
    name: Seq<char>,
    gap: Seq<char>,
    k: int,
)
    requires
        scan_word(name),
        pre.len() > 0 ==> !symbols::word_char(pre[pre.len() - 1]),
        text_laws::all_white(gap),
    ensures
        ({
            let prefix = completion::prefix_at(completion::line_at(s, line), col);
            let vars = symbols::visible(syms.vars, line, syms.vars.len() as int);
            let offers = completion::offers(s, syms, line, col);
            &&& prefix == pre + name + "."@ + gap && 0 <= k < vars.len() && vars[k].0 == name
                ==> offers == completion::members(syms.structs, vars[k].1)
            &&& prefix == pre + name + "::"@ + gap ==> offers == completion::statics(
                syms.structs,
                name,
            )
        }),
{
    let vars = symbols::visible(syms.vars, line, syms.vars.len() as int);
    word_before_the_cursor_is_found(pre, name, gap);
    symbols::visible_names_are_distinct(syms.vars, line, syms.vars.len() as int);
    if 0 <= k < vars.len() && vars[k].0 == name {
        pair_is_indexed(vars, name, 0, k);
    }
}

proof fn pair_is_indexed(pairs: Seq<(Seq<char>, Seq<char>)>, name: Seq<char>, i: int, k: int)
    requires
        symbols::pairs_distinct(pairs),
        0 <= i <= k < pairs.len(),
        pairs[k].0 == name,
    ensures
        symbols::pair_index(pairs, name, i) == Some(k),
    decreases k - i,
{
    if i < k {
        assert(pairs[i].0 != pairs[k].0);
        pair_is_indexed(pairs, name, i + 1, k);
    }
}

/// Whether one of the offers is that word, of that kind and with that detail, to
/// be inserted as it is.
pub open spec fn offers_word(
    items: Seq<CompletionItemM>,
    word: Seq<char>,
    kind: int,
    detail: Seq<char>,
) -> bool {
    exists|i: int|
        0 <= i < items.len() && ({
            let x = #[trigger] items[i];
            x.label == word && x.kind == kind && x.detail == detail && x.insert_text is None
        })
}

proof fn structs_are_offered(structs: Seq<(Seq<char>, StructInfoM)>, n: int, k: int)
    requires
        0 <= k < n <= structs.len(),
        !completion::is_library_type(structs[k].0),
    ensures
        offers_word(completion::struct_items(structs, n), structs[k].0, 7, "struct"@),
    decreases n,
{
    let items = completion::struct_items(structs, n);
    let before = completion::struct_items(structs, n - 1);
    if k < n - 1 {
        structs_are_offered(structs, n - 1, k);
        let i = choose|i: int|
            0 <= i < before.len() && ({
                let x = #[trigger] before[i];
                x.label == structs[k].0 && x.kind == 7 && x.detail == "struct"@
                    && x.insert_text is None
            });
        assert(items[i] == before[i]);
    } else {
        assert(items[before.len() as int].label == structs[k].0);
    }
}

/// Where a type can stand, each built-in type and each struct is offered: the
/// library types once, as built in. Where anything can stand, each keyword and
/// each variable is offered too, with its type.
pub proof fn types_and_words_are_offered(
    structs: Seq<(Seq<char>, StructInfoM)>,
    k: int,
    vars: Seq<(Seq<char>, Seq<char>)>,
    v: int,
)
    requires
        0 <= k < structs.len(),
        0 <= v < vars.len(),
    ensures
        ({
            let types = completion::type_items(structs);
            let all = completion::keyword_items() + types + completion::var_items(vars);
            &&& structs[k].0 != "int"@ && structs[k].0 != "float"@ && structs[k].0 != "char"@
                && structs[k].0 != "bool"@ && structs[k].0 != "string"@ ==> offers_word(
                types,
                structs[k].0,
                7,
                "struct"@,
            )
            &&& offers_word(types, "int"@, 22, "type"@)
            &&& offers_word(types, "float"@, 22, "type"@)
            &&& offers_word(types, "char"@, 22, "type"@)
            &&& offers_word(types, "bool"@, 22, "type"@)
            &&& offers_word(types, "string"@, 22, "type"@)
            &&& offers_word(types, "i64"@, 22, "type"@)
            &&& offers_word(types, "f64"@, 22, "type"@)
            &&& offers_word(types, "void"@, 22, "type"@)
            &&& offers_word(all, vars[v].0, 6, vars[v].1)
            &&& offers_word(all, "fn"@, 14, "keyword"@)
            &&& offers_word(all, "struct"@, 14, "keyword"@)
            &&& offers_word(all, "let"@, 14, "keyword"@)
            &&& offers_word(all, "return"@, 14, "keyword"@)
            &&& offers_word(all, "if"@, 14, "keyword"@)
            &&& offers_word(all, "else"@, 14, "keyword"@)
            &&& offers_word(all, "while"@, 14, "keyword"@)
            &&& offers_word(all, "break"@, 14, "keyword"@)
            &&& offers_word(all, "continue"@, 14, "keyword"@)
            &&& offers_word(all, "import"@, 14, "keyword"@)
            &&& offers_word(all, "extend"@, 14, "keyword"@)
        }),
{
    let types = completion::type_items(structs);
    let kws = completion::keyword_items();
    let vs = completion::var_items(vars);
    let all = kws + types + vs;
    let ss = completion::struct_items(structs, structs.len() as int);
    if !completion::is_library_type(structs[k].0) {
        structs_are_offered(structs, structs.len() as int, k);
        let i = choose|i: int|
            0 <= i < ss.len() && ({
                let x = #[trigger] ss[i];
                x.label == structs[k].0 && x.kind == 7 && x.detail == "struct"@
                    && x.insert_text is None
            });
        assert(types[completion::builtin_items().len() + i] == ss[i]);
    }
    let b = completion::builtin_items();
    assert(forall|i: int| 0 <= i < b.len() ==> #[trigger] types[i] == b[i]);
    assert(types[0].label == "int"@ && types[1].label == "float"@ && types[2].label == "char"@);
    assert(types[3].label == "bool"@ && types[4].label == "string"@ && types[5].label == "i64"@);
    assert(types[6].label == "f64"@ && types[7].label == "void"@);
    assert(forall|i: int| 0 <= i < kws.len() ==> #[trigger] all[i] == kws[i]);
    assert(all[0].label == "fn"@ && all[1].label == "struct"@ && all[2].label == "let"@);
    assert(all[3].label == "return"@ && all[4].label == "if"@ && all[5].label == "else"@);
    assert(all[6].label == "while"@ && all[7].label == "break"@ && all[8].label == "continue"@);
    assert(all[9].label == "import"@ && all[10].label == "extend"@);
    assert(all[kws.len() + types.len() + v] == vs[v]);
}

/// After a single `:` and after `->` the types are offered, and nothing else.
pub proof fn types_are_offered_where_one_is_expected(
    s: Seq<char>,
    syms: symbols::SymbolsM,
    line: nat,
    col: nat,
    pre: Seq<char>,
    gap: Seq<char>,
)
    requires
        text_laws::all_white(gap),
        ({
            let prefix = completion::prefix_at(completion::line_at(s, line), col);
            ||| prefix == pre + ":"@ + gap && (pre.len() > 0 ==> pre[pre.len() - 1] != ':')
            ||| prefix == pre + "->"@ + gap
        }),
    ensures
        completion::offers(s, syms, line, col) == completion::type_items(syms.structs),
{
    reveal_strlit(":");
    reveal_strlit("::");
    reveal_strlit("->");
    reveal_strlit(".");
    let prefix = completion::prefix_at(completion::line_at(s, line), col);
    let a = pre + ":"@;
    let b = pre + "->"@;
    ends_are_trimmed(a, gap, ':');
    ends_are_trimmed(b, gap, '>');
    text_laws::prefix_and_suffix_leave_the_rest(pre, ":"@);
    text_laws::prefix_and_suffix_leave_the_rest(pre, "->"@);
    let t = text::trim_end(prefix);
    assert(t == a || t == b);
    let n = t.len() as int;
    assert(text::before_suffix(t, "."@) is None) by {
        if text::occurs_at(t, "."@, n - 1) {
            assert(t.subrange(n - 1, n)[0] == t[n - 1]);
            assert("."@[0] == '.');
        }
    }
    assert(text::before_suffix(t, "::"@) is None) by {
        if text::occurs_at(t, "::"@, n - 2) {
            assert(t.subrange(n - 2, n)[0] == t[n - 2] && t.subrange(n - 2, n)[1] == t[n - 1]);
            assert("::"@[0] == ':' && "::"@[1] == ':');
            if t == a {
                assert(t[n - 2] == pre[pre.len() - 1]);
            }
        }
    }
}

} // verus!
