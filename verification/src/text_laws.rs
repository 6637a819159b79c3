//! What the text functions do, said of texts that are put together: trimming,
//! splitting and reading them give the parts back.

use vstd::prelude::*;

use crate::text;
use crate::text::Class;

verus! {

pub open spec fn all_white(s: Seq<char>) -> bool {
    forall|i: int| 0 <= i < s.len() ==> text::is_white(#[trigger] s[i])
}

/// Whether the text has no white space at its ends.
pub open spec fn tight(s: Seq<char>) -> bool {
    s.len() > 0 ==> !text::is_white(s[0]) && !text::is_white(s[s.len() - 1])
}

proof fn end_is_trimmed(s: Seq<char>, b: Seq<char>)
    requires
        all_white(b),
        s.len() > 0 ==> !text::is_white(s[s.len() - 1]),
    ensures
        text::trim_end(s + b) == s,
    decreases b.len(),
{
    if b.len() > 0 {
        assert((s + b).drop_last() =~= s + b.drop_last());
        assert((s + b).last() == b[b.len() - 1]);
        end_is_trimmed(s, b.drop_last());
    } else {
        assert(s + b =~= s);
    }
}

/// Trimming takes the white space at both ends and nothing else.
pub proof fn trimming_takes_white_ends(a: Seq<char>, s: Seq<char>, b: Seq<char>)
    requires
        all_white(a),
        tight(s),
        all_white(b),
    ensures
        text::trim(a + s + b) == s,
        s.len() > 0 ==> text::trim_start(a + s) == s,
        text::trim_end(s + b) == s,
{
    let t = a + s + b;
    end_is_trimmed(s, b);
    if s.len() > 0 {
        assert forall|j: int| 0 <= j < a.len() implies text::in_class(
            #[trigger] t[j],
            Class::White,
        ) by {
            assert(t[j] == a[j]);
        }
        assert(t[a.len() as int] == s[0]);
        text::run_end_at(t, 0, a.len() as int, Class::White);
        assert(t.skip(a.len() as int) =~= s + b);
        let u = a + s;
        assert forall|j: int| 0 <= j < a.len() implies text::in_class(
            #[trigger] u[j],
            Class::White,
        ) by {
            assert(u[j] == a[j]);
        }
        assert(u[a.len() as int] == s[0]);
        text::run_end_at(u, 0, a.len() as int, Class::White);
        assert(u.skip(a.len() as int) =~= s);
    } else {
        assert forall|j: int| 0 <= j < t.len() implies text::in_class(
            #[trigger] t[j],
            Class::White,
        ) by {
            if j < a.len() {
                assert(t[j] == a[j]);
            } else {
                assert(t[j] == b[j - a.len()]);
            }
        }
        text::run_end_at(t, 0, t.len() as int, Class::White);
        assert(t.skip(t.len() as int) =~= Seq::empty());
    }
}

/// Every text is white space, its trimmed text, and white space; the trimmed text
/// has no white space at its ends.
pub proof fn text_is_its_trimmed_middle(s: Seq<char>) -> (at: int)
    ensures
        0 <= at,
        at + text::trim(s).len() <= s.len(),
        s.subrange(at, at + text::trim(s).len()) == text::trim(s),
        all_white(s.take(at)),
        all_white(s.skip(at + text::trim(s).len())),
        tight(text::trim(s)),
{
    let a = text::run_end(s, 0, Class::White);
    text::run_end_spec(s, 0, Class::White);
    let r = s.skip(a);
    let e = end_is_cut(r);
    let t = text::trim(s);
    assert(s.subrange(a, a + t.len()) =~= t);
    assert forall|i: int| 0 <= i < s.take(a).len() implies text::is_white(
        #[trigger] s.take(a)[i],
    ) by {
        assert(text::in_class(s[i], Class::White));
    }
    let back = s.skip(a + t.len());
    assert forall|i: int| 0 <= i < back.len() implies text::is_white(#[trigger] back[i]) by {
        assert(back[i] == r.skip(e)[i]);
    }
    if t.len() > 0 {
        assert(t[0] == r[0]);
    }
    a
}

proof fn end_is_cut(s: Seq<char>) -> (e: int)
    ensures
        0 <= e <= s.len(),
        text::trim_end(s) == s.take(e),
        all_white(s.skip(e)),
        e > 0 ==> !text::is_white(s[e - 1]),
    decreases s.len(),
{
    if s.len() > 0 && text::is_white(s.last()) {
        let e = end_is_cut(s.drop_last());
        assert(s.drop_last().take(e) =~= s.take(e));
        assert forall|i: int| 0 <= i < s.skip(e).len() implies text::is_white(
            #[trigger] s.skip(e)[i],
        ) by {
            if e + i < s.len() - 1 {
                assert(s.skip(e)[i] == s.drop_last().skip(e)[i]);
            }
        }
        e
    } else {
        assert(s.take(s.len() as int) =~= s);
        s.len() as int
    }
}

/// Splitting at the first `p` gives back what stands before and after it.
pub proof fn splitting_parts_at_the_first(a: Seq<char>, p: Seq<char>, b: Seq<char>)
    requires
        forall|k: int| 0 <= k < a.len() ==> !#[trigger] text::occurs_at(a + p + b, p, k),
    ensures
        text::split_once(a + p + b, p) == Some((a, b)),
{
    let s = a + p + b;
    text::find_from_spec(s, p, 0);
    assert(s.subrange(a.len() as int, (a.len() + p.len()) as int) =~= p);
    assert(text::occurs_at(s, p, a.len() as int));
    assert(s.take(a.len() as int) =~= a);
    assert(s.skip((a.len() + p.len()) as int) =~= b);
}

/// A text that does not hold `p` is not split.
pub proof fn splitting_needs_the_part(s: Seq<char>, p: Seq<char>)
    ensures
        text::split_once(s, p) is None <==> forall|k: int| !#[trigger] text::occurs_at(s, p, k),
{
    text::find_from_spec(s, p, 0);
}

/// What follows a prefix, and what stands before a suffix, is the rest.
pub proof fn prefix_and_suffix_leave_the_rest(s: Seq<char>, p: Seq<char>)
    ensures
        text::after_prefix(p + s, p) == Some(s),
        text::before_suffix(s + p, p) == Some(s),
{
    assert((p + s).subrange(0, p.len() as int) =~= p);
    assert((p + s).skip(p.len() as int) =~= s);
    assert((s + p).subrange(s.len() as int, (s.len() + p.len()) as int) =~= p);
    assert((s + p).take(s.len() as int) =~= s);
}

/// What is left of a prefix or a suffix makes the text with it.
pub proof fn prefix_and_suffix_are_there(s: Seq<char>, p: Seq<char>)
    ensures
        text::after_prefix(s, p) matches Some(r) ==> s == p + r,
        text::before_suffix(s, p) matches Some(r) ==> s == r + p,
{
    if text::after_prefix(s, p) is Some {
        assert(s =~= s.subrange(0, p.len() as int) + s.skip(p.len() as int));
    }
    if text::before_suffix(s, p) is Some {
        let n = s.len() - p.len();
        assert(s =~= s.take(n) + s.subrange(n, n + p.len()));
    }
}

/// The text of the lines, each with a line feed behind it.
pub open spec fn joined(ls: Seq<Seq<char>>) -> Seq<char>
    decreases ls.len(),
{
    if ls.len() == 0 {
        Seq::empty()
    } else {
        ls[0] + "\n"@ + joined(ls.skip(1))
    }
}

/// Whether it can be a line: it holds no line feed, and no carriage return at its
/// end.
pub open spec fn is_line(s: Seq<char>) -> bool {
    !s.contains('\n') && (s.len() > 0 ==> s[s.len() - 1] != '\r')
}

/// The lines of a text that is made of lines are those lines; the last one needs
/// no line feed if it is not empty.
pub proof fn joined_lines_are_read_back(ls: Seq<Seq<char>>, last: Seq<char>)
    requires
        forall|i: int| 0 <= i < ls.len() ==> is_line(#[trigger] ls[i]),
        !last.contains('\n'),
    ensures
        text::lines(joined(ls) + last) == if last.len() == 0 {
            ls
        } else {
            ls.push(last)
        },
    decreases ls.len(),
{
    if ls.len() == 0 {
        assert(joined(ls) + last =~= last);
        assert forall|j: int| 0 <= j < last.len() implies text::in_class(
            #[trigger] last[j],
            Class::Not('\n'),
        ) by {
            assert(last.contains(last[j]));
        }
        text::run_end_at(last, 0, last.len() as int, Class::Not('\n'));
        assert(ls =~= Seq::empty());
        assert(seq![last] =~= ls.push(last));
    } else {
        let rest = ls.skip(1);
        assert forall|i: int| 0 <= i < rest.len() implies is_line(#[trigger] rest[i]) by {
            assert(rest[i] == ls[i + 1]);
        }
        joined_lines_are_read_back(rest, last);
        text::lines_first(ls[0], joined(rest) + last);
        assert(joined(ls) + last =~= ls[0] + "\n"@ + (joined(rest) + last));
        assert(is_line(ls[0]));
        assert(text::without_cr(ls[0]) == ls[0]);
        if last.len() == 0 {
            assert(seq![ls[0]] + rest =~= ls);
        } else {
            assert(seq![ls[0]] + rest.push(last) =~= ls.push(last));
        }
    }
}

/// Whether the text is a word: it has no white space in it.
pub open spec fn is_word(s: Seq<char>) -> bool {
    s.len() > 0 && forall|i: int| 0 <= i < s.len() ==> !text::is_white(#[trigger] s[i])
}

/// The first word of a text is its first run without white space, and the others
/// are those of the rest.
pub proof fn words_are_parted_by_white_space(a: Seq<char>, w: Seq<char>, rest: Seq<char>)
    requires
        all_white(a),
        is_word(w),
        rest.len() > 0 ==> text::is_white(rest[0]),
    ensures
        text::words(a + w + rest) == seq![w] + text::words(rest),
        text::words(a) == Seq::<Seq<char>>::empty(),
{
    let s = a + w + rest;
    let n = a.len() as int;
    let m = n + w.len();
    assert forall|j: int| 0 <= j < n implies text::in_class(#[trigger] s[j], Class::White) by {
        assert(s[j] == a[j]);
    }
    assert(s[n] == w[0]);
    text::run_end_at(s, 0, n, Class::White);
    assert forall|j: int| n <= j < m implies text::in_class(#[trigger] s[j], Class::NotWhite) by {
        assert(s[j] == w[j - n]);
    }
    if m < s.len() {
        assert(s[m] == rest[0]);
    }
    text::run_end_at(s, n, m, Class::NotWhite);
    assert(s.subrange(n, m) =~= w);
    assert(s.skip(m) =~= rest);
    assert forall|j: int| 0 <= j < n implies text::in_class(#[trigger] a[j], Class::White) by {}
    text::run_end_at(a, 0, n, Class::White);
}

/// A row of digits denotes what its numeral does, with or without a plus sign;
/// anything else denotes no number.
pub proof fn only_digits_denote(s: Seq<char>)
    ensures
        s.len() > 0 && text::all_digits(s) ==> text::unsigned_value(s) == Some(
            text::digits_value(s),
        ) && text::unsigned_value("+"@ + s) == Some(text::digits_value(s)),
        text::unsigned_value(s) is Some ==> s.len() > 0 && forall|i: int|
            1 <= i < s.len() ==> text::is_digit(#[trigger] s[i]),
{
    reveal_strlit("+");
    let t = "+"@ + s;
    assert(t.skip(1) =~= s);
    if s.len() > 0 && text::all_digits(s) {
        assert(text::is_digit(s[0]));
        assert(t[0] == '+');
    }
    if text::unsigned_value(s) is Some {
        assert forall|i: int| 1 <= i < s.len() implies text::is_digit(#[trigger] s[i]) by {
            if s.len() > 1 && s[0] == '+' {
                assert(s.skip(1)[i - 1] == s[i]);
            }
        }
    }
}

/// A digit behind a row of digits makes ten times the number, and the digit more.
pub proof fn digits_count_by_ten(s: Seq<char>, d: nat)
    requires
        d < 10,
    ensures
        text::digits_value(s.push(text::digit_char(d))) == 10 * text::digits_value(s) + d,
        text::is_digit(text::digit_char(d)),
{
    let t = s.push(text::digit_char(d));
    assert(t.drop_last() =~= s);
    assert(t.last() == text::digit_char(d));
}

/// How many brackets are open after the first `n` characters.
pub open spec fn level(s: Seq<char>, open: char, close: char, n: int) -> int
    decreases n,
{
    if n <= 0 || n > s.len() {
        0
    } else if s[n - 1] == open {
        level(s, open, close, n - 1) + 1
    } else if s[n - 1] == close {
        level(s, open, close, n - 1) - 1
    } else {
        level(s, open, close, n - 1)
    }
}

/// Whether each bracket that is opened in the text is closed in it, and no other
/// one is closed.
pub open spec fn balanced(s: Seq<char>, open: char, close: char) -> bool {
    &&& level(s, open, close, s.len() as int) == 0
    &&& forall|n: int| 0 <= n <= s.len() ==> #[trigger] level(s, open, close, n) >= 0
}

} // verus!
