//! What `#define` and the definitions of a file come to, said of the texts in
//! which they are written.

use vstd::prelude::*;

use crate::directives;
use crate::directives::{DefineM, DefinesM, Place, ReadM};
use crate::import_laws;
use crate::lexer;
use crate::lexer::{ScanM, TokenKindM};
use crate::text;
use crate::text::Class;
use crate::text_laws;

verus! {

// ---------------------------------------------------------------------------
// Replacing words
// ---------------------------------------------------------------------------

/// The first word of that name is replaced, what stands before it is kept, and
/// the replacing goes on behind it. Where there is no such word, the text stays.
pub proof fn first_word_is_replaced(
    s: Seq<char>,
    p: int,
    i: int,
    name: Seq<char>,
    value: Seq<char>,
)
    requires
        0 <= p <= i <= s.len(),
        name.len() > 0,
        forall|j: int| p <= j < i ==> !#[trigger] directives::word_at(s, name, j),
        i == s.len() || directives::word_at(s, name, i),
    ensures
        directives::replaced_from(s, p, name, value) == if i == s.len() {
            s.skip(p)
        } else {
            s.subrange(p, i) + value + directives::replaced_from(s, i + name.len(), name, value)
        },
    decreases i - p,
{
    if p < i {
        first_word_is_replaced(s, p + 1, i, name, value);
        assert(!directives::word_at(s, name, p));
        if i == s.len() {
            assert(s.skip(p) =~= seq![s[p]] + s.skip(p + 1));
        } else {
            let rest = directives::replaced_from(s, i + name.len(), name, value);
            assert(seq![s[p]] + (s.subrange(p + 1, i) + value + rest) =~= s.subrange(p, i) + value
                + rest);
        }
    } else if i == s.len() {
        assert(s.skip(p) =~= Seq::empty());
    } else {
        assert(s.subrange(p, i) + value =~= value);
    }
}

proof fn replacing_adds_no_hash(s: Seq<char>, i: int, name: Seq<char>, value: Seq<char>)
    requires
        0 <= i,
        !s.contains('#'),
        !value.contains('#'),
    ensures
        !directives::replaced_from(s, i, name, value).contains('#'),
    decreases s.len() - i,
{
    let r = directives::replaced_from(s, i, name, value);
    if i < s.len() {
        let (front, rest) = if name.len() > 0 && directives::word_at(s, name, i) {
            replacing_adds_no_hash(s, i + name.len(), name, value);
            (value, directives::replaced_from(s, i + name.len(), name, value))
        } else {
            replacing_adds_no_hash(s, i + 1, name, value);
            (seq![s[i]], directives::replaced_from(s, i + 1, name, value))
        };
        assert(s.contains(s[i]));
        assert(r == front + rest);
        if r.contains('#') {
            let k = choose|k: int| 0 <= k < r.len() && r[k] == '#';
            if k < front.len() {
                assert(front[k] == '#');
                assert(front.contains('#'));
            } else {
                assert(rest[k - front.len()] == '#');
                assert(rest.contains('#'));
            }
        }
    }
}

proof fn substituting_adds_no_hash(s: Seq<char>, subs: Seq<(Seq<char>, Seq<char>)>, n: int)
    requires
        !s.contains('#'),
        forall|k: int| 0 <= k < subs.len() ==> !(#[trigger] subs[k]).1.contains('#'),
    ensures
        !directives::substituted(s, subs, n).contains('#'),
    decreases n,
{
    if 0 < n <= subs.len() {
        substituting_adds_no_hash(s, subs, n - 1);
        replacing_adds_no_hash(
            directives::substituted(s, subs, n - 1),
            0,
            subs[n - 1].0,
            subs[n - 1].1,
        );
    }
}

// ---------------------------------------------------------------------------
// Directives
// ---------------------------------------------------------------------------

/// Whether each `#` of the text from `i` on belongs to a complete directive, and
/// no replacement holds one.
pub open spec fn only_directives(s: Seq<char>, i: int) -> bool
    decreases s.len() - i,
{
    if i < 0 || i >= s.len() {
        true
    } else if directives::is_define(s, i) {
        directives::define_at(s, i) matches DefineM::Done(_, value, end) && !value.contains('#')
            && i < end <= s.len() && only_directives(s, end)
    } else {
        s[i] != '#' && only_directives(s, i + 1)
    }
}

spec fn without_hash(acc: DefinesM) -> bool {
    &&& !acc.done.contains('#')
    &&& !acc.out.contains('#')
    &&& forall|k: int| 0 <= k < acc.subs.len() ==> !(#[trigger] acc.subs[k]).1.contains('#')
    &&& acc.diags.len() == 0
}

proof fn settling_adds_no_hash(acc: DefinesM)
    requires
        without_hash(acc),
    ensures
        !directives::settled(acc).contains('#'),
{
    let r = directives::settled(acc);
    let sub = directives::substituted(acc.out, acc.subs, acc.subs.len() as int);
    substituting_adds_no_hash(acc.out, acc.subs, acc.subs.len() as int);
    if r.contains('#') {
        let k = choose|k: int| 0 <= k < r.len() && r[k] == '#';
        if k < acc.done.len() {
            assert(acc.done[k] == '#');
        } else {
            assert(sub[k - acc.done.len()] == '#');
        }
    }
}

proof fn reading_adds_no_hash(s: Seq<char>, file: Seq<char>, i: int, acc: DefinesM)
    requires
        0 <= i,
        only_directives(s, i),
        without_hash(acc),
    ensures
        without_hash(directives::read_defines(s, file, i, acc)),
    decreases s.len() - i,
{
    reveal(directives::read_defines);
    if i < s.len() {
        if directives::is_define(s, i) {
            if let DefineM::Done(name, value, end) = directives::define_at(s, i) {
                let next = directives::with_define(acc, name, value);
                settling_adds_no_hash(acc);
                assert forall|k: int| 0 <= k < next.subs.len() implies !(
                #[trigger] next.subs[k]).1.contains('#') by {
                    if k < acc.subs.len() {
                        assert(next.subs[k] == acc.subs[k]);
                    }
                }
                reading_adds_no_hash(s, file, end, next);
            }
        } else {
            let next = DefinesM { out: acc.out.push(s[i]), ..acc };
            if next.out.contains('#') {
                let k = choose|k: int| 0 <= k < next.out.len() && next.out[k] == '#';
                if k < acc.out.len() {
                    assert(acc.out[k] == '#');
                }
            }
            reading_adds_no_hash(s, file, i + 1, next);
        }
    }
}

/// Directives leave no trace: a text in which each `#` belongs to a complete
/// directive is left without a single one, so without a directive.
pub proof fn no_directive_is_left(s: Seq<char>, file: Seq<char>)
    requires
        only_directives(s, 0),
    ensures
        !directives::defined(s, file).0.contains('#'),
        directives::defined(s, file).1.len() == 0,
{
    let start = directives::no_defines();
    reading_adds_no_hash(s, file, 0, start);
    settling_adds_no_hash(directives::read_defines(s, file, 0, start));
}

proof fn rest_is_read(s: Seq<char>, file: Seq<char>, i: int, acc: DefinesM)
    requires
        0 <= i <= s.len(),
        forall|k: int| i <= k < s.len() ==> #[trigger] s[k] != '#',
    ensures
        directives::read_defines(s, file, i, acc) == (DefinesM {
            out: acc.out + s.skip(i),
            ..acc
        }),
    decreases s.len() - i,
{
    reveal(directives::read_defines);
    if i < s.len() {
        let next = DefinesM { out: acc.out.push(s[i]), ..acc };
        rest_is_read(s, file, i + 1, next);
        assert(next.out + s.skip(i + 1) =~= acc.out + s.skip(i));
    } else {
        assert(acc.out + s.skip(i) =~= acc.out);
    }
}

/// The text `#define name: value#` between two others.
pub open spec fn with_directive(
    before: Seq<char>,
    name: Seq<char>,
    value: Seq<char>,
    rest: Seq<char>,
) -> Seq<char> {
    before + "#define "@ + name + ":"@ + value + "#"@ + rest
}

proof fn directive_is_read(before: Seq<char>, name: Seq<char>, value: Seq<char>, rest: Seq<char>)
    requires
        import_laws::is_name(name),
        !value.contains('#'),
    ensures
        ({
            let s = with_directive(before, name, value, rest);
            let i = before.len() as int;
            let end = i + 10 + name.len() + value.len();
            &&& directives::is_define(s, i)
            &&& directives::define_at(s, i) == DefineM::Done(name, text::trim(value), end)
            &&& s.len() == end + rest.len()
            &&& s.skip(end) == rest
            &&& s.take(i) == before
        }),
{
    reveal_strlit("#define ");
    reveal_strlit("define");
    reveal_strlit(":");
    reveal_strlit("#");
    let s = with_directive(before, name, value, rest);
    let i = before.len() as int;
    let b = i + 8 + name.len();
    let e = b + 1 + value.len();
    assert(s[i] == '#');
    assert(s.subrange(i + 1, i + 7) =~= "define"@);
    assert(s[i + 7] == ' ');
    assert forall|j: int| i + 8 <= j < b implies text::in_class(#[trigger] s[j], Class::Ident) by {
        assert(s[j] == name[j - i - 8]);
    }
    assert(s[i + 8] == name[0]);
    assert(s[b] == ':');
    text::run_end_at(s, i + 7, i + 8, Class::Blank);
    text::run_end_at(s, i + 8, b, Class::Ident);
    text::run_end_at(s, b, b, Class::Blank);
    assert(s.subrange(i + 8, b) =~= name);
    assert forall|j: int| b + 1 <= j < e implies text::in_class(
        #[trigger] s[j],
        Class::Not('#'),
    ) by {
        assert(s[j] == value[j - b - 1]);
        assert(value.contains(value[j - b - 1]));
    }
    assert(s[e] == '#');
    text::run_end_at(s, b + 1, e, Class::Not('#'));
    assert(s.subrange(b + 1, e) =~= value);
    assert(s.skip(e + 1) =~= rest);
    assert(s.take(i) =~= before);
    assert forall|j: int| 1 <= j < name.len() implies text::in_class(
        #[trigger] name[j],
        Class::Ident,
    ) by {}
    text::run_end_at(name, 1, name.len() as int, Class::Ident);
}

/// `#define name: value#` is taken out of the text, and in the text after it each
/// word `name` is replaced by the value, without the white space at its ends.
pub proof fn define_replaces_behind_itself(
    before: Seq<char>,
    name: Seq<char>,
    value: Seq<char>,
    rest: Seq<char>,
    file: Seq<char>,
)
    requires
        import_laws::is_name(name),
        !before.contains('#'),
        !value.contains('#'),
        !rest.contains('#'),
    ensures
        directives::defined(with_directive(before, name, value, rest), file) == (
            before + directives::replaced(rest, name, text::trim(value)),
            Seq::<crate::error::DiagM>::empty(),
        ),
{
    reveal(directives::read_defines);
    let s = with_directive(before, name, value, rest);
    let i = before.len() as int;
    let end = i + 10 + name.len() + value.len();
    directive_is_read(before, name, value, rest);
    assert forall|k: int| 0 <= k < i implies !directives::is_define(s, k) by {
        assert(s.take(i)[k] == before[k]);
        assert(before.contains(before[k]));
    }
    directives::read_plain(s, file, i);
    let acc = DefinesM { out: before, ..directives::no_defines() };
    let next = directives::with_define(acc, name, text::trim(value));
    assert forall|k: int| end <= k < s.len() implies #[trigger] s[k] != '#' by {
        assert(s.skip(end)[k - end] == rest[k - end]);
        assert(rest.contains(rest[k - end]));
    }
    rest_is_read(s, file, end, next);
    assert(next.done =~= before);
    assert(next.out + rest =~= rest);
    let subs = next.subs;
    assert(directives::substituted(rest, subs, 0) == rest);
    assert(directives::substituted(rest, subs, 1) == directives::replaced(
        rest,
        name,
        text::trim(value),
    ));
}

proof fn macro_is_closed(s: Seq<char>, k: int, hash: int)
    requires
        0 <= k <= hash,
        hash + 1 < s.len(),
        s[hash] == '#',
        s[hash + 1] == '\n',
        hash > 0 ==> s[hash - 1] == '\n',
        forall|j: int| k <= j < hash ==> #[trigger] s[j] != '#',
        k == hash || k < hash,
    ensures
        directives::macro_end(s, k) == Some((hash, hash + 2)),
    decreases hash - k,
{
    if k == hash {
        text::run_end_at(s, k, k, Class::Blank);
        text::run_end_at(s, k + 1, k + 1, Class::Blank);
        assert(directives::closing_line(s, k) == Some(k + 2));
    } else {
        text::run_end_spec(s, k, Class::Blank);
        let m = text::run_end(s, k, Class::Blank);
        assert(m < hash) by {
            if m >= hash {
                assert(text::in_class(s[hash - 1], Class::Blank));
            }
        }
        assert(directives::closing_line(s, k) is None);
        text::run_end_spec(s, k, Class::Not('\n'));
        let e = text::run_end(s, k, Class::Not('\n'));
        assert(e <= hash - 1) by {
            if e > hash - 1 {
                assert(text::in_class(s[hash - 1], Class::Not('\n')));
            }
        }
        macro_is_closed(s, e + 1, hash);
    }
}

/// A macro `#define name` with its text on the lines up to one that holds just a
/// `#` is taken out, and in the text after it each word `name` is replaced by
/// those lines, without the white space at their end.
pub proof fn macro_replaces_behind_itself(
    before: Seq<char>,
    name: Seq<char>,
    body: Seq<char>,
    rest: Seq<char>,
    file: Seq<char>,
)
    requires
        import_laws::is_name(name),
        !before.contains('#'),
        !body.contains('#'),
        !rest.contains('#'),
    ensures
        directives::defined(
            before + "#define "@ + name + "\n"@ + body + "\n#\n"@ + rest,
            file,
        ) == (
            before + directives::replaced(rest, name, text::trim_end(body + "\n"@)),
            Seq::<crate::error::DiagM>::empty(),
        ),
{
    reveal(directives::read_defines);
    reveal_strlit("#define ");
    reveal_strlit("define");
    reveal_strlit("\n");
    reveal_strlit("\n#\n");
    let s = before + "#define "@ + name + "\n"@ + body + "\n#\n"@ + rest;
    let i = before.len() as int;
    let b = i + 8 + name.len();
    let hash = b + 1 + body.len() + 1;
    let end = hash + 2;
    assert(s[i] == '#');
    assert(s.subrange(i + 1, i + 7) =~= "define"@);
    assert(s[i + 7] == ' ');
    assert forall|j: int| i + 8 <= j < b implies text::in_class(#[trigger] s[j], Class::Ident) by {
        assert(s[j] == name[j - i - 8]);
    }
    assert(s[i + 8] == name[0]);
    assert(s[b] == '\n');
    text::run_end_at(s, i + 7, i + 8, Class::Blank);
    text::run_end_at(s, i + 8, b, Class::Ident);
    text::run_end_at(s, b, b, Class::Blank);
    text::run_end_at(s, b, b, Class::Not('\n'));
    assert(s.subrange(i + 8, b) =~= name);
    assert forall|j: int| 1 <= j < name.len() implies text::in_class(
        #[trigger] name[j],
        Class::Ident,
    ) by {}
    text::run_end_at(name, 1, name.len() as int, Class::Ident);
    assert(s[hash - 1] == '\n' && s[hash] == '#' && s[hash + 1] == '\n');
    assert forall|j: int| b + 1 <= j < hash implies #[trigger] s[j] != '#' by {
        if j < hash - 1 {
            assert(s[j] == body[j - b - 1]);
            assert(body.contains(body[j - b - 1]));
        }
    }
    macro_is_closed(s, b + 1, hash);
    assert(s.subrange(b + 1, hash) =~= body + "\n"@);
    let value = text::trim_end(body + "\n"@);
    assert(directives::define_at(s, i) == DefineM::Done(name, value, end));
    assert forall|k: int| 0 <= k < i implies !directives::is_define(s, k) by {
        assert(s[k] == before[k]);
        assert(before.contains(before[k]));
    }
    assert(directives::is_define(s, i));
    directives::read_plain(s, file, i);
    assert(s.take(i) =~= before);
    let acc = DefinesM { out: before, ..directives::no_defines() };
    let next = directives::with_define(acc, name, value);
    assert(s.skip(end) =~= rest);
    assert forall|k: int| end <= k < s.len() implies #[trigger] s[k] != '#' by {
        assert(s.skip(end)[k - end] == rest[k - end]);
        assert(rest.contains(rest[k - end]));
    }
    rest_is_read(s, file, end, next);
    assert(next.done =~= before);
    assert(next.out + rest =~= rest);
    assert(directives::substituted(rest, next.subs, 0) == rest);
    assert(directives::substituted(rest, next.subs, 1) == directives::replaced(
        rest,
        name,
        value,
    ));
}

// ---------------------------------------------------------------------------
// Definitions of a file
// ---------------------------------------------------------------------------

proof fn block_is_closed(s: Seq<char>, i: int, body: Seq<char>, n: int)
    requires
        0 <= i,
        i + body.len() < s.len(),
        s.subrange(i, i + body.len()) == body,
        s[i + body.len()] == '}',
        text_laws::balanced(body, '{', '}'),
        0 <= n <= body.len(),
    ensures
        directives::block_end(
            s,
            i + n,
            (1 + text_laws::level(body, '{', '}', n)) as nat,
        ) == i + body.len() + 1,
    decreases body.len() - n,
{
    if n < body.len() {
        block_is_closed(s, i, body, n + 1);
        assert(s[i + n] == s.subrange(i, i + body.len())[n]);
        assert(text_laws::level(body, '{', '}', n + 1) >= 0);
    }
}

/// A `struct` or `fn` whose head holds no brace, and whose braces are closed, is
/// one definition: under the name that follows the keyword, and with its whole
/// text. The search goes on behind it.
pub proof fn definition_is_its_whole_text(
    s: Seq<char>,
    i: int,
    kw: Seq<char>,
    name: Seq<char>,
    head: Seq<char>,
    body: Seq<char>,
)
    requires
        kw == "struct"@ || kw == "fn"@,
        import_laws::is_name(name),
        !head.contains('{'),
        head.len() > 0 ==> !text::ident_char(head[0]),
        text_laws::balanced(body, '{', '}'),
        0 <= i,
        i == 0 || !text::ident_char(s[i - 1]),
        ({
            let whole = kw + " "@ + name + head + "{"@ + body + "}"@;
            i + whole.len() <= s.len() && s.subrange(i, i + whole.len()) == whole
        }),
    ensures
        ({
            let whole = kw + " "@ + name + head + "{"@ + body + "}"@;
            directives::definitions_from(s, i) == seq![(name, whole)]
                + directives::definitions_from(s, i + whole.len())
        }),
{
    reveal_strlit("struct");
    reveal_strlit("fn");
    reveal_strlit("extend");
    reveal_strlit(" ");
    reveal_strlit("{");
    reveal_strlit("}");
    let whole = kw + " "@ + name + head + "{"@ + body + "}"@;
    let a = kw.len() as int;
    let b = a + 1 + name.len();
    let open = b + head.len();
    let e = open + 1 + body.len();
    assert(whole.len() == e + 1);
    assert forall|j: int| 0 <= j < whole.len() implies s[i + j] == whole[j] by {
        assert(s.subrange(i, i + whole.len())[j] == whole[j]);
    }
    assert(whole[0] == kw[0]);
    assert(s[i] == kw[0]);
    assert(s[i + a] == ' ') by {
        assert(whole[a] == ' ');
    }
    assert(s.subrange(i, i + a) =~= kw);
    assert(directives::word_at(s, kw, i));
    assert(!directives::word_at(s, "extend"@, i)) by {
        if directives::word_at(s, "extend"@, i) {
            assert(s.subrange(i, i + 6)[0] == s[i]);
            assert("extend"@[0] == 'e');
        }
    }
    assert(kw == "fn"@ ==> !directives::word_at(s, "struct"@, i)) by {
        if directives::word_at(s, "struct"@, i) {
            assert(s.subrange(i, i + 6)[0] == s[i]);
            assert("struct"@[0] == 's');
        }
    }
    assert(whole[a + 1] == name[0]);
    assert(s[i + a + 1] == name[0]);
    text::run_end_at(s, i + a, i + a + 1, Class::Blank);
    assert forall|j: int| i + a + 1 <= j < i + b implies text::in_class(
        #[trigger] s[j],
        Class::Ident,
    ) by {
        assert(whole[j - i] == name[j - i - a - 1]);
    }
    assert(whole[open] == '{');
    assert(s[i + open] == '{');
    if head.len() > 0 {
        assert(whole[b] == head[0]);
        assert(s[i + b] == head[0]);
    }
    text::run_end_at(s, i + a + 1, i + b, Class::Ident);
    assert(s.subrange(i + a + 1, i + b) =~= name) by {
        assert forall|j: int| 0 <= j < name.len() implies s.subrange(i + a + 1, i + b)[j]
            == name[j] by {
            assert(whole[a + 1 + j] == name[j]);
        }
    }
    assert forall|j: int| i + b <= j < i + open implies text::in_class(
        #[trigger] s[j],
        Class::Not('{'),
    ) by {
        assert(whole[j - i] == head[j - i - b]);
        assert(head.contains(head[j - i - b]));
    }
    text::run_end_at(s, i + b, i + open, Class::Not('{'));
    assert(s.subrange(i + open + 1, i + e) =~= body) by {
        assert forall|j: int| 0 <= j < body.len() implies s.subrange(i + open + 1, i + e)[j]
            == body[j] by {
            assert(whole[open + 1 + j] == body[j]);
        }
    }
    assert(whole[e] == '}');
    block_is_closed(s, i + open + 1, body, 0);
    assert(directives::block_end(s, i + open, 0) == i + e + 1);
}

/// White space and comments between the definitions are passed over.
pub proof fn gaps_hold_no_definition(s: Seq<char>, i: int, e: int)
    requires
        0 <= i < e <= s.len(),
        ({
            ||| e == i + 1 && text::is_white(s[i])
            ||| {
                &&& i + 2 <= e && s[i] == '/' && s[i + 1] == '/'
                &&& !s.subrange(i, e).contains('\n')
                &&& e == s.len() || s[e] == '\n'
            }
        }),
    ensures
        directives::definitions_from(s, i) == directives::definitions_from(s, e),
{
    if s[i] == '/' {
        assert forall|j: int| i <= j < e implies text::in_class(
            #[trigger] s[j],
            Class::Not('\n'),
        ) by {
            assert(s.subrange(i, e)[j - i] == s[j]);
            assert(s.subrange(i, e).contains(s[j]));
        }
        text::run_end_at(s, i, e, Class::Not('\n'));
    }
}

/// An `extend` block is no definition: it is passed over whole.
pub proof fn extension_is_passed_over(s: Seq<char>, i: int, name: Seq<char>, body: Seq<char>)
    requires
        import_laws::is_name(name),
        text_laws::balanced(body, '{', '}'),
        0 <= i,
        i == 0 || !text::ident_char(s[i - 1]),
        ({
            let whole = "extend "@ + name + " {"@ + body + "}"@;
            i + whole.len() <= s.len() && s.subrange(i, i + whole.len()) == whole
        }),
    ensures
        directives::definitions_from(s, i) == directives::definitions_from(
            s,
            i + ("extend "@ + name + " {"@ + body + "}"@).len(),
        ),
{
    reveal_strlit("extend ");
    reveal_strlit("extend");
    reveal_strlit(" {");
    reveal_strlit("}");
    let whole = "extend "@ + name + " {"@ + body + "}"@;
    let b = 7 + name.len() as int;
    let e = b + 2 + body.len();
    assert(whole.len() == e + 1);
    assert forall|j: int| 0 <= j < whole.len() implies s[i + j] == whole[j] by {
        assert(s.subrange(i, i + whole.len())[j] == whole[j]);
    }
    assert(s.subrange(i, i + 6) =~= "extend"@) by {
        assert forall|j: int| 0 <= j < 6 implies s.subrange(i, i + 6)[j] == "extend"@[j] by {
            assert(whole[j] == "extend "@[j]);
        }
    }
    assert(whole[0] == 'e');
    assert(s[i] == 'e');
    assert(whole[6] == ' ');
    assert(s[i + 6] == ' ');
    assert(directives::word_at(s, "extend"@, i));
    assert(whole[7] == name[0]);
    assert(s[i + 7] == name[0]);
    text::run_end_at(s, i + 6, i + 7, Class::White);
    assert forall|j: int| i + 7 <= j < i + b implies text::in_class(
        #[trigger] s[j],
        Class::Ident,
    ) by {
        assert(whole[j - i] == name[j - i - 7]);
    }
    assert(whole[b] == ' ');
    assert(s[i + b] == ' ');
    text::run_end_at(s, i + 7, i + b, Class::Ident);
    assert(whole[b + 1] == '{');
    assert(s[i + b + 1] == '{');
    text::run_end_at(s, i + b, i + b + 1, Class::White);
    assert(s.subrange(i + b + 2, i + e) =~= body) by {
        assert forall|j: int| 0 <= j < body.len() implies s.subrange(i + b + 2, i + e)[j]
            == body[j] by {
            assert(whole[b + 2 + j] == body[j]);
        }
    }
    assert(whole[e] == '}');
    block_is_closed(s, i + b + 2, body, 0);
    assert(directives::block_end(s, i + b + 1, 0) == i + e + 1);
}

// ---------------------------------------------------------------------------
// Renaming
// ---------------------------------------------------------------------------

proof fn renaming_to_itself(s: Seq<char>, p: int, w: ReadM, is_struct: bool, name: Seq<char>)
    requires
        0 <= p <= s.len(),
    ensures
        directives::renamed_from(s, p, w, is_struct, name, name) == s.skip(p),
    decreases s.len() - p,
{
    if p < s.len() {
        lexer::step_progress(s, p);
        let step = lexer::step_at(s, p);
        let next = match step.scan {
            ScanM::Tok(kind, _) => directives::read_on(w, kind),
            _ => w,
        };
        renaming_to_itself(s, step.end, next, is_struct, name);
        assert(s.skip(p) =~= s.subrange(p, step.end) + s.skip(step.end));
    } else {
        assert(s.skip(p) =~= Seq::empty());
    }
}

/// Whether the text from `p` on has a token that is that name.
pub open spec fn mentions(s: Seq<char>, p: int, name: Seq<char>) -> bool {
    exists|q: int| #[trigger] name_token(s, p, q, name)
}

pub open spec fn name_token(s: Seq<char>, p: int, q: int, name: Seq<char>) -> bool {
    &&& p <= q < s.len()
    &&& lexer::step_at(s, q).scan matches ScanM::Tok(kind, _) && kind is Ident
    &&& s.subrange(q, lexer::step_at(s, q).end) == name
}

proof fn renaming_what_is_absent(
    s: Seq<char>,
    p: int,
    w: ReadM,
    is_struct: bool,
    from: Seq<char>,
    to: Seq<char>,
)
    requires
        0 <= p <= s.len(),
        !mentions(s, p, from),
    ensures
        directives::renamed_from(s, p, w, is_struct, from, to) == s.skip(p),
    decreases s.len() - p,
{
    if p < s.len() {
        lexer::step_progress(s, p);
        let step = lexer::step_at(s, p);
        let next = match step.scan {
            ScanM::Tok(kind, _) => directives::read_on(w, kind),
            _ => w,
        };
        assert(!name_token(s, p, p, from));
        assert(!mentions(s, step.end, from)) by {
            if mentions(s, step.end, from) {
                let q = choose|q: int| #[trigger] name_token(s, step.end, q, from);
                assert(name_token(s, p, q, from));
            }
        }
        renaming_what_is_absent(s, step.end, next, is_struct, from, to);
        assert(s.skip(p) =~= s.subrange(p, step.end) + s.skip(step.end));
    } else {
        assert(s.skip(p) =~= Seq::empty());
    }
}

/// Renaming a definition to its own name changes nothing. Where the name is not
/// used in the definition itself, only the declared name is replaced.
pub proof fn renaming_replaces_the_declared_name(s: Seq<char>, from: Seq<char>, to: Seq<char>)
    requires
        s.len() > 0,
        directives::definition_keyword(s, 0) is Some,
        directives::definition(s, 0, directives::definition_keyword(s, 0)->0).0 == from,
    ensures
        directives::renamed(s, from, from) == s,
        ({
            let (a, b) = directives::name_after(
                s,
                directives::definition_keyword(s, 0)->0.len() as int,
            );
            &&& s.subrange(a, b) == from
            &&& !mentions(s, b, from) ==> directives::renamed(s, from, to) == s.take(a) + to
                + s.skip(b)
        }),
{
    let kw = directives::definition_keyword(s, 0)->0;
    let (a, b) = directives::name_after(s, kw.len() as int);
    text::run_end_spec(s, kw.len() as int, Class::Blank);
    text::run_end_spec(s, a, Class::Ident);
    reveal_strlit("struct");
    let is_struct = kw == "struct"@;
    let w = directives::nothing_read();
    renaming_to_itself(s, b, w, is_struct, from);
    if !mentions(s, b, from) {
        renaming_what_is_absent(s, b, w, is_struct, from, to);
    }
    assert(directives::first_definition(s, 0) == Some(0int));
    assert(s =~= s.take(a) + from + s.skip(b));
}

proof fn name_is_read(
    s: Seq<char>,
    p: int,
    w: ReadM,
    is_struct: bool,
    from: Seq<char>,
    to: Seq<char>,
)
    requires
        0 <= p < s.len(),
        lexer::step_at(s, p).scan matches ScanM::Tok(kind, _) && kind is Ident,
        s.subrange(p, lexer::step_at(s, p).end) == from,
    ensures
        ({
            let e = lexer::step_at(s, p).end;
            let used = if is_struct {
                directives::names_type(s, e, w)
            } else {
                directives::names_function(s, e, w)
            };
            directives::renamed_from(s, p, w, is_struct, from, to) == (if used {
                to
            } else {
                from
            }) + directives::renamed_from(
                s,
                e,
                directives::read_on(w, TokenKindM::Ident),
                is_struct,
                from,
                to,
            )
        }),
{
    lexer::step_progress(s, p);
    let step = lexer::step_at(s, p);
    match step.scan {
        ScanM::Tok(kind, lexeme) => {
            assert(kind == TokenKindM::Ident);
            let used = if is_struct {
                directives::names_type(s, step.end, w)
            } else {
                directives::names_function(s, step.end, w)
            };
            let rest = directives::renamed_from(
                s,
                step.end,
                directives::read_on(w, kind),
                is_struct,
                from,
                to,
            );
            let piece = s.subrange(p, step.end);
            assert(directives::renamed_from(s, p, w, is_struct, from, to) == (if kind is Ident
                && piece == from && used {
                to
            } else {
                piece
            }) + rest);
        },
        _ => {},
    }
}

/// The name of a function is replaced where it is called, `name(`, but not as a
/// method, behind a `.`, nor as something of a module, behind a `::`.
pub proof fn calls_are_renamed(
    s: Seq<char>,
    p: int,
    w: ReadM,
    from: Seq<char>,
    to: Seq<char>,
    dot: TokenKindM,
)
    requires
        0 <= p < s.len(),
        lexer::step_at(s, p).scan matches ScanM::Tok(kind, _) && kind is Ident,
        s.subrange(p, lexer::step_at(s, p).end) == from,
        directives::token_from(s, lexer::step_at(s, p).end) matches Some((k, _)) && k is LParen,
        !w.assembly,
        w.place == Place::Other,
        dot is Dot || dot is ColonColon,
    ensures
        ({
            let e = lexer::step_at(s, p).end;
            let next = directives::read_on(w, TokenKindM::Ident);
            let member = directives::read_on(w, dot);
            &&& directives::renamed_from(s, p, w, false, from, to) == to + directives::renamed_from(
                s,
                e,
                next,
                false,
                from,
                to,
            )
            &&& directives::renamed_from(s, p, member, false, from, to) == from
                + directives::renamed_from(
                s,
                e,
                directives::read_on(member, TokenKindM::Ident),
                false,
                from,
                to,
            )
        }),
{
    name_is_read(s, p, w, false, from, to);
    name_is_read(s, p, directives::read_on(w, dot), false, from, to);
}

/// The name of a struct is replaced where a type is written, behind a `:`, a
/// `)` or a `->`, also behind a `&` or `&mut` there, unless `::` follows it; and
/// before the braces of an initializer that does not stand in a condition.
pub proof fn types_are_renamed(
    s: Seq<char>,
    p: int,
    w: ReadM,
    from: Seq<char>,
    to: Seq<char>,
    mark: TokenKindM,
)
    requires
        0 <= p < s.len(),
        lexer::step_at(s, p).scan matches ScanM::Tok(kind, _) && kind is Ident,
        s.subrange(p, lexer::step_at(s, p).end) == from,
        !w.assembly,
        mark is Colon || mark is RParen || mark is Arrow,
    ensures
        ({
            let e = lexer::step_at(s, p).end;
            let next = directives::token_from(s, e);
            let typed = directives::read_on(w, mark);
            let shared = directives::read_on(typed, TokenKindM::Ampersand);
            let changed = directives::read_on(shared, TokenKindM::Mut);
            let plain = ReadM { place: Place::Other, condition: false, ..w };
            &&& !(next matches Some((k, _)) && k is ColonColon) ==> replaced_at(s, p, typed, from, to)
                && replaced_at(s, p, shared, from, to) && replaced_at(s, p, changed, from, to)
            &&& (next matches Some((k, _)) && k is LBrace) ==> replaced_at(s, p, plain, from, to)
            &&& !directives::read_on(w, TokenKindM::Dot).assembly && kept_at(
                s,
                p,
                directives::read_on(w, TokenKindM::Dot),
                from,
                to,
            )
        }),
{
    let typed = directives::read_on(w, mark);
    let shared = directives::read_on(typed, TokenKindM::Ampersand);
    let changed = directives::read_on(shared, TokenKindM::Mut);
    name_is_read(s, p, typed, true, from, to);
    name_is_read(s, p, shared, true, from, to);
    name_is_read(s, p, changed, true, from, to);
    name_is_read(
        s,
        p,
        ReadM { place: Place::Other, condition: false, ..w },
        true,
        from,
        to,
    );
    name_is_read(s, p, directives::read_on(w, TokenKindM::Dot), true, from, to);
}

/// Whether the name of a struct at `p` is replaced.
pub open spec fn replaced_at(
    s: Seq<char>,
    p: int,
    w: ReadM,
    from: Seq<char>,
    to: Seq<char>,
) -> bool {
    directives::renamed_from(s, p, w, true, from, to) == to + directives::renamed_from(
        s,
        lexer::step_at(s, p).end,
        directives::read_on(w, TokenKindM::Ident),
        true,
        from,
        to,
    )
}

/// Whether it stays.
pub open spec fn kept_at(s: Seq<char>, p: int, w: ReadM, from: Seq<char>, to: Seq<char>) -> bool {
    directives::renamed_from(s, p, w, true, from, to) == from + directives::renamed_from(
        s,
        lexer::step_at(s, p).end,
        directives::read_on(w, TokenKindM::Ident),
        true,
        from,
        to,
    )
}

} // verus!
