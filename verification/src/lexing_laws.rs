//! What the tokens of a text are: its words, symbols and literals, one after the
//! other, with nothing but white space and comments between them.

use vstd::prelude::*;

use crate::lexer;
use crate::lexer::{LexedM, ScanM, TokenKindM, TokenM};
use crate::spelling;
use crate::syntax_laws;
use crate::text;
use crate::text::Class;

verus! {

/// Whether the value of a literal is the one that its text stands for.
pub open spec fn valued(t: TokenM) -> bool {
    match t.kind {
        TokenKindM::IntLit(n) => t.lexeme.len() > 0 && text::all_digits(t.lexeme)
            && text::digits_value(t.lexeme) == n,
        TokenKindM::FloatLit(f) => {
            let n = t.lexeme.len() as int;
            &&& n > 1
            &&& f == (if t.lexeme[0] == '.' {
                seq!['0']
            } else {
                Seq::empty()
            }) + t.lexeme + (if t.lexeme[n - 1] == '.' {
                seq!['0']
            } else {
                Seq::empty()
            })
        },
        TokenKindM::CharLit(c) => t.lexeme.len() == 3 && t.lexeme[0] == '\'' && t.lexeme[2] == '\''
            && t.lexeme[1] as u32 == c,
        TokenKindM::StringLit(v) => t.lexeme == seq!['"'] + v + seq!['"'] && !v.contains('"'),
        _ => true,
    }
}

/// Whether the kind of a token goes with its text.
pub open spec fn kind_fits(t: TokenM) -> bool {
    spelling::genuine(t) && valued(t)
}

proof fn string_has_no_quote(s: Seq<char>, i: int, value: Seq<char>)
    requires
        0 <= i <= s.len(),
        !value.contains('"'),
    ensures
        match lexer::string_rest(s, i, value).scan {
            ScanM::Tok(TokenKindM::StringLit(v), lexeme) => !v.contains('"') && lexeme == seq!['"']
                + v + seq!['"'],
            ScanM::Tok(_, _) => false,
            _ => true,
        },
    decreases s.len() - i,
{
    reveal_strlit("\"");
    assert("\""@ =~= seq!['"']);
    if i < s.len() && s[i] != '"' {
        string_has_no_quote(s, i + 1, value.push(s[i]));
    }
}

#[verifier::rlimit(60)]
proof fn step_fits(s: Seq<char>, p: int, line: nat, col: nat)
    requires
        0 <= p < s.len(),
    ensures
        match lexer::step_at(s, p).scan {
            ScanM::Tok(kind, lexeme) => kind_fits(TokenM { kind, lexeme, line, col }),
            _ => true,
        },
{
    lexer::step_progress(s, p);
    let c = s[p];
    let next = lexer::char_at(s, p + 1);
    if text::is_digit(c) || (c == '.' && text::is_digit(next)) {
        text::run_end_spec(s, p, Class::Digit);
        let a = text::run_end(s, p, Class::Digit);
        if a < s.len() && s[a] == '.' {
            text::run_end_spec(s, a + 1, Class::Digit);
            let b = text::run_end(s, a + 1, Class::Digit);
            let lexeme = s.subrange(p, b);
            assert(lexeme[0] == s[p]);
            assert(lexeme.last() == s[b - 1]);
            if a == p {
                assert(lexeme[1] == s[p + 1]);
                assert(b > a + 1);
            }
            let head = if lexeme[0] == '.' {
                seq!['0']
            } else {
                Seq::empty()
            };
            let tail = if lexeme.last() == '.' {
                seq!['0']
            } else {
                Seq::empty()
            };
            assert(lexer::normal_float(lexeme) =~= head + lexeme + tail);
        } else {
            let lexeme = s.subrange(p, a);
            assert forall|i: int| 0 <= i < lexeme.len() implies text::is_digit(
                #[trigger] lexeme[i],
            ) by {
                assert(text::in_class(s[p + i], Class::Digit));
            }
        }
    } else if c == '"' {
        string_has_no_quote(s, p + 1, Seq::empty());
    } else if c == '\'' {
        reveal_strlit("'");
        if p + 1 < s.len() {
            assert("'"@ + seq![s[p + 1]] + "'"@ =~= seq!['\'', s[p + 1], '\'']);
        }
    }
}

/// Whether the text from `p` up to `q` is white space and comments, each of which
/// goes to the end of its line.
pub open spec fn idle(s: Seq<char>, p: int, q: int) -> bool
    decreases q - p,
{
    ||| p == q
    ||| {
        &&& 0 <= p < q <= s.len() && (s[p] == ' ' || s[p] == '\t' || s[p] == '\r' || s[p] == '\n')
        &&& idle(s, p + 1, q)
    }
    ||| {
        &&& 0 <= p && p + 2 <= q <= s.len() && s[p] == '/' && s[p + 1] == '/'
        &&& exists|e: int|
            p + 2 <= e <= q && #[trigger] line_ends(s, e) && !s.subrange(p, e).contains('\n')
                && idle(s, e, q)
    }
}

pub open spec fn line_ends(s: Seq<char>, e: int) -> bool {
    e == s.len() || s[e] == '\n'
}

/// Whether a token that stands up to `e` goes on as far as it can: a word does
/// not stop inside a word, nor an integer before a digit or a point.
pub open spec fn goes_far(s: Seq<char>, t: TokenM, e: int) -> bool {
    e < s.len() ==> match t.kind {
        TokenKindM::IntLit(_) => !text::is_digit(s[e]) && s[e] != '.',
        TokenKindM::FloatLit(_) => !text::is_digit(s[e]),
        _ => t.lexeme.len() > 0 && text::ident_start(t.lexeme[0]) ==> !text::ident_char(s[e]),
    }
}

/// Whether the tokens are the text from `p` on: the first stands after white
/// space and comments, at its place, and the others are what follows it.
pub open spec fn covers(s: Seq<char>, p: int, toks: Seq<TokenM>) -> bool
    decreases toks.len(),
{
    if toks.len() == 0 {
        idle(s, p, s.len() as int)
    } else {
        exists|q: int|
            {
                &&& p <= q && q + toks[0].lexeme.len() <= s.len()
                &&& #[trigger] starts_at(s, q, toks[0])
                &&& idle(s, p, q)
                &&& goes_far(s, toks[0], q + toks[0].lexeme.len())
                &&& covers(s, q + toks[0].lexeme.len(), toks.skip(1))
            }
    }
}

/// Whether the token stands at `q`, on the line and in the column that it says.
pub open spec fn starts_at(s: Seq<char>, q: int, t: TokenM) -> bool {
    &&& t.lexeme.len() > 0
    &&& s.subrange(q, q + t.lexeme.len()) == t.lexeme
    &&& t.line == lexer::line_at(s, q)
    &&& t.col == lexer::col_at(s, q)
}

proof fn idle_joins(s: Seq<char>, p: int, m: int, q: int)
    requires
        idle(s, p, m),
        idle(s, m, q),
        p <= m <= q <= s.len(),
    ensures
        idle(s, p, q),
    decreases m - p,
{
    if p < m {
        if 0 <= p && (s[p] == ' ' || s[p] == '\t' || s[p] == '\r' || s[p] == '\n') && idle(
            s,
            p + 1,
            m,
        ) {
            idle_joins(s, p + 1, m, q);
        } else {
            let e = choose|e: int|
                p + 2 <= e <= m && #[trigger] line_ends(s, e) && !s.subrange(p, e).contains('\n')
                    && idle(s, e, m);
            idle_joins(s, e, m, q);
            assert(line_ends(s, e));
        }
    }
}

/// What one step reads, from the position after it on.
proof fn skip_is_idle(s: Seq<char>, p: int)
    requires
        0 <= p < s.len(),
        lexer::step_at(s, p).scan is Skip,
    ensures
        idle(s, p, lexer::step_at(s, p).end),
{
    lexer::step_progress(s, p);
    let e = lexer::step_at(s, p).end;
    string_is_no_skip(s, p + 1, Seq::empty());
    if s[p] == '/' {
        text::run_end_spec(s, p, Class::Not('\n'));
        assert(e >= p + 2) by {
            if e == p + 1 {
                assert(!text::in_class(s[e], Class::Not('\n')));
            }
        }
        let c = s.subrange(p, e);
        if c.contains('\n') {
            let i = choose|i: int| 0 <= i < c.len() && c[i] == '\n';
            assert(text::in_class(s[p + i], Class::Not('\n')));
        }
        assert(line_ends(s, e));
        assert(idle(s, e, e));
    } else {
        assert(idle(s, p + 1, p + 1));
    }
}

proof fn string_is_no_skip(s: Seq<char>, i: int, value: Seq<char>)
    requires
        0 <= i <= s.len(),
    ensures
        !(lexer::string_rest(s, i, value).scan is Skip),
    decreases s.len() - i,
{
    if i < s.len() && s[i] != '"' {
        string_is_no_skip(s, i + 1, value.push(s[i]));
    }
}

proof fn token_goes_far(s: Seq<char>, p: int, t: TokenM)
    requires
        0 <= p < s.len(),
        lexer::step_at(s, p).scan == ScanM::Tok(t.kind, t.lexeme),
    ensures
        goes_far(s, t, lexer::step_at(s, p).end),
{
    lexer::step_progress(s, p);
    syntax_laws::lexemes_are_faithful(s, p);
    let e = lexer::step_at(s, p).end;
    let c = s[p];
    let next = lexer::char_at(s, p + 1);
    assert(t.lexeme[0] == c);
    if text::is_digit(c) || (c == '.' && text::is_digit(next)) {
        text::run_end_spec(s, p, Class::Digit);
        let a = text::run_end(s, p, Class::Digit);
        if a < s.len() {
            text::run_end_spec(s, a + 1, Class::Digit);
        }
    } else if text::ident_start(c) {
        text::run_end_spec(s, p, Class::Ident);
    }
    step_fits(s, p, t.line, t.col);
    if t.kind is IntLit {
        assert(text::is_digit(t.lexeme[0]));
    }
    if t.kind is FloatLit && !(text::is_digit(c) || (c == '.' && text::is_digit(next))) {
        string_has_no_quote(s, p + 1, Seq::empty());
    }
}

proof fn lex_covers(s: Seq<char>, file: Seq<char>, p: int, m: int, acc: LexedM)
    requires
        0 <= p <= m <= s.len(),
        idle(s, p, m),
        lexer::lex_from(s, file, m, acc).diags.len() == 0,
    ensures
        ({
            let toks = lexer::lex_from(s, file, m, acc).tokens;
            let n = acc.tokens.len() as int;
            &&& toks.len() > n
            &&& toks.take(n) == acc.tokens
            &&& covers(s, p, toks.subrange(n, toks.len() - 1))
            &&& forall|i: int| n <= i < toks.len() ==> kind_fits(#[trigger] toks[i])
        }),
    decreases s.len() - m,
{
    let r = lexer::lex_from(s, file, m, acc);
    let toks = r.tokens;
    let n = acc.tokens.len() as int;
    if m < s.len() {
        let step = lexer::step_at(s, m);
        let next = lexer::after_step(s, file, m, acc);
        lexer::step_progress(s, m);
        lex_diags_stay(s, file, step.end, next);
        match step.scan {
            ScanM::Skip => {
                skip_is_idle(s, m);
                idle_joins(s, p, m, step.end);
                lex_covers(s, file, p, step.end, next);
            },
            ScanM::Tok(kind, lexeme) => {
                let t = TokenM {
                    kind,
                    lexeme,
                    line: lexer::line_at(s, m),
                    col: lexer::col_at(s, m),
                };
                syntax_laws::lexemes_are_faithful(s, m);
                step_fits(s, m, t.line, t.col);
                token_goes_far(s, m, t);
                assert(lexeme.len() == step.end - m);
                lex_covers(s, file, step.end, step.end, next);
                let mine = toks.subrange(n, toks.len() - 1);
                assert(toks.take(n + 1) == next.tokens);
                assert(toks[n] == toks.take(n + 1)[n]);
                assert(toks.take(n) =~= toks.take(n + 1).take(n));
                assert(next.tokens.take(n) =~= acc.tokens);
                assert(mine.skip(1) =~= toks.subrange(n + 1, toks.len() - 1));
                assert(mine[0] == t);
                assert(starts_at(s, m, mine[0]));
            },
            ScanM::Bad(_, _) => {},
        }
    } else {
        assert(toks.take(n) =~= acc.tokens);
        assert(toks.subrange(n, toks.len() - 1) =~= Seq::empty());
    }
}

proof fn lex_diags_stay(s: Seq<char>, file: Seq<char>, p: int, acc: LexedM)
    requires
        0 <= p <= s.len(),
    ensures
        lexer::lex_from(s, file, p, acc).diags.len() >= acc.diags.len(),
    decreases s.len() - p,
{
    if p < s.len() {
        lexer::step_progress(s, p);
        lex_diags_stay(s, file, lexer::step_at(s, p).end, lexer::after_step(s, file, p, acc));
    }
}

/// The tokens of a text that is lexed without an error are that text: nothing of
/// it is left out but white space and comments, each token stands where it says,
/// and its kind goes with its text. The end of the input comes last.
pub proof fn tokens_are_the_text(s: Seq<char>, file: Seq<char>)
    requires
        lexer::lex(s, file).diags.len() == 0,
    ensures
        covers(s, 0, lexer::lex(s, file).tokens.drop_last()),
        forall|i: int|
            0 <= i < lexer::lex(s, file).tokens.len() ==> kind_fits(
                #[trigger] lexer::lex(s, file).tokens[i],
            ),
{
    let acc = LexedM { tokens: Seq::empty(), diags: Seq::empty() };
    lex_covers(s, file, 0, 0, acc);
    let toks = lexer::lex(s, file).tokens;
    assert(toks.subrange(0, toks.len() - 1) =~= toks.drop_last());
}

/// The line of a place is one more than the line feeds before it, and its column
/// is one more than the characters before it on its line.
pub proof fn places_count_lines_and_columns(s: Seq<char>, p: int)
    requires
        0 <= p <= s.len(),
    ensures
        lexer::line_at(s, p) == 1 + s.take(p).filter(|c: char| c == '\n').len(),
        1 <= lexer::col_at(s, p) <= p + 1,
        !s.subrange(p - (lexer::col_at(s, p) - 1), p).contains('\n'),
        p - (lexer::col_at(s, p) - 1) == 0 || s[p - lexer::col_at(s, p)] == '\n',
    decreases p,
{
    let feed = |c: char| c == '\n';
    reveal(Seq::filter);
    if p > 0 {
        places_count_lines_and_columns(s, p - 1);
        let t = s.take(p);
        assert(t.drop_last() =~= s.take(p - 1));
        assert(t.last() == s[p - 1]);
        assert(t.filter(feed).len() == s.take(p - 1).filter(feed).len() + if feed(s[p - 1]) {
            1nat
        } else {
            0
        });
        if s[p - 1] == '\n' {
            assert(s.subrange(p, p) =~= Seq::empty());
        } else {
            let a = p - (lexer::col_at(s, p) - 1);
            let row = s.subrange(a, p);
            if row.contains('\n') {
                let i = choose|i: int| 0 <= i < row.len() && row[i] == '\n';
                assert(s.subrange(a, p - 1)[i] == '\n');
            }
        }
    } else {
        assert(s.take(0) =~= Seq::empty());
        assert(s.subrange(0, 0) =~= Seq::empty());
    }
}

/// The characters that a symbol starts with, besides `|`, which needs another one.
pub open spec fn starts_symbol(c: char) -> bool {
    ||| c == '(' || c == ')' || c == '{' || c == '}' || c == '[' || c == ']' || c == ','
    ||| c == ';' || c == '.' || c == '#' || c == '+' || c == '*' || c == '/' || c == '%'
    ||| c == ':' || c == '-' || c == '=' || c == '!' || c == '<' || c == '>' || c == '&'
}

/// Whether the digits from `p` up to `e` are a whole integer.
pub open spec fn whole_integer(s: Seq<char>, p: int, e: int) -> bool {
    &&& p < e <= s.len() && text::all_digits(s.subrange(p, e))
    &&& e < s.len() ==> !text::is_digit(s[e]) && s[e] != '.'
}

/// What is refused, and with which code: a number that does not fit in 64 bits, a
/// string without its end, a quote that does not enclose one character, and a
/// character that nothing starts with. Everything else is read.
pub proof fn only_what_is_no_token_is_refused(s: Seq<char>, p: int)
    requires
        0 <= p < s.len(),
    ensures
        ({
            let c = s[p];
            match lexer::step_at(s, p).scan {
                ScanM::Bad(code, _) => {
                    ||| code == "E102"@ && exists|e: int| #[trigger]
                        whole_integer(s, p, e) && text::digits_value(s.subrange(p, e)) > i64::MAX
                    ||| code == "E103"@ && c == '"' && forall|j: int|
                        p < j < s.len() ==> #[trigger] s[j] != '"'
                    ||| code == "E104"@ && c == '\'' && !(p + 2 < s.len() && s[p + 1] != '\''
                        && s[p + 2] == '\'')
                    ||| code == "E105"@ && !starts_symbol(c) && !text::is_digit(c)
                        && !text::ident_start(c) && c != '"' && c != '\'' && c != ' ' && c != '\t'
                        && c != '\r' && c != '\n' && !(c == '|' && p + 1 < s.len() && s[p + 1]
                        == '|')
                },
                _ => {
                    &&& starts_symbol(c) || text::is_digit(c) || text::ident_start(c) || c == '"'
                        || c == '\'' || c == ' ' || c == '\t' || c == '\r' || c == '\n' || (c == '|'
                        && p + 1 < s.len() && s[p + 1] == '|')
                    &&& c == '"' ==> exists|j: int| p < j < s.len() && #[trigger] s[j] == '"'
                    &&& c == '\'' ==> p + 2 < s.len() && s[p + 1] != '\'' && s[p + 2] == '\''
                    &&& forall|e: int| #[trigger]
                        whole_integer(s, p, e) ==> text::digits_value(s.subrange(p, e)) <= i64::MAX
                },
            }
        }),
{
    let c = s[p];
    if c == '"' {
        string_ends(s, p + 1, Seq::empty());
    }
    if text::is_digit(c) {
        text::run_end_spec(s, p, Class::Digit);
        let a = text::run_end(s, p, Class::Digit);
        let w = s.subrange(p, a);
        assert forall|i: int| 0 <= i < w.len() implies text::is_digit(#[trigger] w[i]) by {
            assert(text::in_class(s[p + i], Class::Digit));
        }
        assert forall|e: int| #[trigger] whole_integer(s, p, e) implies e == a by {
            assert forall|j: int| p <= j < e implies text::in_class(
                #[trigger] s[j],
                Class::Digit,
            ) by {
                assert(text::is_digit(s.subrange(p, e)[j - p]));
            }
            text::run_end_at(s, p, e, Class::Digit);
        }
        if !(a < s.len() && s[a] == '.') {
            assert(whole_integer(s, p, a));
        } else {
            assert(!whole_integer(s, p, a));
        }
    } else {
        assert forall|e: int| !#[trigger] whole_integer(s, p, e) by {
            if whole_integer(s, p, e) {
                assert(text::is_digit(s.subrange(p, e)[0]));
            }
        }
    }
}

proof fn string_ends(s: Seq<char>, i: int, value: Seq<char>)
    requires
        0 <= i <= s.len(),
    ensures
        match lexer::string_rest(s, i, value).scan {
            ScanM::Bad(code, _) => code == "E103"@ && forall|j: int|
                i <= j < s.len() ==> #[trigger] s[j] != '"',
            ScanM::Tok(_, _) => exists|j: int| i <= j < s.len() && #[trigger] s[j] == '"',
            _ => false,
        },
    decreases s.len() - i,
{
    if i < s.len() && s[i] != '"' {
        string_ends(s, i + 1, value.push(s[i]));
    }
}

} // verus!
