//! Characters and texts: the vocabulary in which the other modules speak of
//! source text. A text is a sequence of characters.

use vstd::prelude::*;

verus! {

/// `String::push` appends the one character to the end of the string.
pub assume_specification[ String::push ](s: &mut String, c: char)
    ensures
        final(s)@ == old(s)@.push(c),
;

// ---------------------------------------------------------------------------
// Characters
// ---------------------------------------------------------------------------

pub open spec fn is_digit(c: char) -> bool {
    '0' <= c <= '9'
}

pub open spec fn is_alpha(c: char) -> bool {
    'a' <= c <= 'z' || 'A' <= c <= 'Z'
}

/// What an identifier starts with.
pub open spec fn ident_start(c: char) -> bool {
    c == '_' || is_alpha(c)
}

/// What an identifier goes on with.
pub open spec fn ident_char(c: char) -> bool {
    c == '_' || is_alpha(c) || is_digit(c)
}

pub open spec fn is_blank(c: char) -> bool {
    c == ' ' || c == '\t'
}

/// The five characters that count as white space among the ASCII characters.
pub open spec fn is_ascii_white(c: char) -> bool {
    c == ' ' || c == '\t' || c == '\n' || c == '\r' || c as u32 == 12
}

/// The characters with the Unicode property White_Space.
pub open spec fn is_white(c: char) -> bool {
    let u = c as u32;
    ||| 0x9 <= u <= 0xd
    ||| u == 0x20
    ||| u == 0x85
    ||| u == 0xa0
    ||| u == 0x1680
    ||| 0x2000 <= u <= 0x200a
    ||| u == 0x2028
    ||| u == 0x2029
    ||| u == 0x202f
    ||| u == 0x205f
    ||| u == 0x3000
}

/// The classes of characters that scanners run over.
#[derive(Debug, Clone, Copy, PartialEq, Eq, Structural)]
pub enum Class {
    Digit,
    Ident,
    Blank,
    AsciiWhite,
    White,
    NotWhite,
    /// Every character but this one.
    Not(char),
}

pub open spec fn in_class(c: char, k: Class) -> bool {
    match k {
        Class::Digit => is_digit(c),
        Class::Ident => ident_char(c),
        Class::Blank => is_blank(c),
        Class::AsciiWhite => is_ascii_white(c),
        Class::White => is_white(c),
        Class::NotWhite => !is_white(c),
        Class::Not(d) => c != d,
    }
}

pub fn test_digit(c: char) -> (r: bool)
    ensures
        r == is_digit(c),
{
    '0' <= c && c <= '9'
}

pub fn test_ident_start(c: char) -> (r: bool)
    ensures
        r == ident_start(c),
{
    c == '_' || ('a' <= c && c <= 'z') || ('A' <= c && c <= 'Z')
}

pub fn test_ident_char(c: char) -> (r: bool)
    ensures
        r == ident_char(c),
{
    c == '_' || ('a' <= c && c <= 'z') || ('A' <= c && c <= 'Z') || ('0' <= c && c <= '9')
}

pub fn test_white(c: char) -> (r: bool)
    ensures
        r == is_white(c),
{
    let u: u32 = c as u32;
    (0x9 <= u && u <= 0xd) || u == 0x20 || u == 0x85 || u == 0xa0 || u == 0x1680 || (0x2000 <= u && u
        <= 0x200a) || u == 0x2028 || u == 0x2029 || u == 0x202f || u == 0x205f || u == 0x3000
}

pub fn test_class(c: char, k: Class) -> (r: bool)
    ensures
        r == in_class(c, k),
{
    match k {
        Class::Digit => test_digit(c),
        Class::Ident => test_ident_char(c),
        Class::Blank => c == ' ' || c == '\t',
        Class::AsciiWhite => c == ' ' || c == '\t' || c == '\n' || c == '\r' || c as u32 == 12,
        Class::White => test_white(c),
        Class::NotWhite => !test_white(c),
        Class::Not(d) => c != d,
    }
}

/// The number of bytes that UTF-8 needs for a character.
pub open spec fn width(c: char) -> nat {
    let u = c as u32;
    if u <= 0x7f {
        1
    } else if u <= 0x7ff {
        2
    } else if u <= 0xffff {
        3
    } else {
        4
    }
}

pub fn char_width(c: char) -> (r: usize)
    ensures
        r == width(c),
{
    let u: u32 = c as u32;
    if u <= 0x7f {
        1
    } else if u <= 0x7ff {
        2
    } else if u <= 0xffff {
        3
    } else {
        4
    }
}

// ---------------------------------------------------------------------------
// Runs
// ---------------------------------------------------------------------------

/// The end of the run of characters of class `k` that starts at `i`.
pub open spec fn run_end(s: Seq<char>, i: int, k: Class) -> int
    decreases s.len() - i,
{
    if 0 <= i < s.len() && in_class(s[i], k) {
        run_end(s, i + 1, k)
    } else {
        i
    }
}

/// Such a run ends inside the text, holds characters of the class only, and is
/// as long as can be.
pub proof fn run_end_spec(s: Seq<char>, i: int, k: Class)
    requires
        0 <= i <= s.len(),
    ensures
        i <= run_end(s, i, k) <= s.len(),
        forall|j: int| i <= j < run_end(s, i, k) ==> in_class(#[trigger] s[j], k),
        run_end(s, i, k) < s.len() ==> !in_class(s[run_end(s, i, k)], k),
    decreases s.len() - i,
{
    if i < s.len() && in_class(s[i], k) {
        run_end_spec(s, i + 1, k);
    }
}

/// Where a run ends, known from what it holds.
pub proof fn run_end_at(s: Seq<char>, i: int, e: int, k: Class)
    requires
        0 <= i <= e <= s.len(),
        forall|j: int| i <= j < e ==> in_class(#[trigger] s[j], k),
        e < s.len() ==> !in_class(s[e], k),
    ensures
        run_end(s, i, k) == e,
    decreases e - i,
{
    if i < e {
        run_end_at(s, i + 1, e, k);
    }
}

pub fn skip_run(v: &Vec<char>, i: usize, k: Class) -> (r: usize)
    requires
        i <= v@.len(),
    ensures
        r == run_end(v@, i as int, k),
        i <= r <= v@.len(),
{
    let mut j: usize = i;
    while j < v.len() && test_class(v[j], k)
        invariant
            i <= j <= v@.len(),
            run_end(v@, i as int, k) == run_end(v@, j as int, k),
        decreases v@.len() - j,
    {
        j = j + 1;
    }
    j
}

// ---------------------------------------------------------------------------
// Strings and vectors of characters
// ---------------------------------------------------------------------------

pub fn to_chars(s: &str) -> (v: Vec<char>)
    ensures
        v@ == s@,
{
    let mut v: Vec<char> = Vec::new();
    for c in it: s.chars()
        invariant
            v@ == it.seq().take(it.index()),
            it.seq() == s@,
    {
        v.push(c);
        assert(it.seq().take(it.index() + 1) =~= it.seq().take(it.index()).push(c));
    }
    assert(s@.take(s@.len() as int) =~= s@);
    v
}

/// The characters from `a` up to `b`.
pub fn slice_text(v: &Vec<char>, a: usize, b: usize) -> (s: String)
    requires
        a <= b <= v@.len(),
    ensures
        s@ == v@.subrange(a as int, b as int),
{
    let mut s = String::new();
    let mut i: usize = a;
    assert(s@ =~= v@.subrange(a as int, a as int));
    while i < b
        invariant
            a <= i <= b <= v@.len(),
            s@ == v@.subrange(a as int, i as int),
        decreases b - i,
    {
        s.push(v[i]);
        assert(v@.subrange(a as int, i + 1) =~= v@.subrange(a as int, i as int).push(v@[i as int]));
        i = i + 1;
    }
    s
}

pub fn all_text(v: &Vec<char>) -> (s: String)
    ensures
        s@ == v@,
{
    let s = slice_text(v, 0, v.len());
    assert(v@.subrange(0, v@.len() as int) =~= v@);
    s
}

/// The characters from `a` up to `b`, as a vector.
pub fn slice_chars(v: &Vec<char>, a: usize, b: usize) -> (s: Vec<char>)
    requires
        a <= b <= v@.len(),
    ensures
        s@ == v@.subrange(a as int, b as int),
{
    let mut s: Vec<char> = Vec::new();
    let mut i: usize = a;
    assert(s@ =~= v@.subrange(a as int, a as int));
    while i < b
        invariant
            a <= i <= b <= v@.len(),
            s@ == v@.subrange(a as int, i as int),
        decreases b - i,
    {
        s.push(v[i]);
        assert(v@.subrange(a as int, i + 1) =~= v@.subrange(a as int, i as int).push(v@[i as int]));
        i = i + 1;
    }
    s
}

/// The same characters, in a vector of their own.
pub fn slice_all(v: &Vec<char>) -> (s: Vec<char>)
    ensures
        s@ == v@,
{
    let s = slice_chars(v, 0, v.len());
    assert(v@.subrange(0, v@.len() as int) =~= v@);
    s
}

pub fn push_chars(out: &mut Vec<char>, v: &Vec<char>)
    ensures
        final(out)@ == old(out)@ + v@,
{
    let ghost before = out@;
    let mut i: usize = 0;
    assert(out@ =~= before + v@.take(0));
    while i < v.len()
        invariant
            i <= v@.len(),
            out@ == before + v@.take(i as int),
        decreases v@.len() - i,
    {
        out.push(v[i]);
        assert(out@ =~= before + v@.take(i + 1));
        i = i + 1;
    }
    assert(v@.take(v@.len() as int) =~= v@);
}

pub fn text_eq(a: &str, b: &str) -> (r: bool)
    ensures
        r == (a@ == b@),
{
    a.to_owned() == b.to_owned()
}

/// Whether the text holds just these characters.
pub fn chars_eq(v: &Vec<char>, s: &str) -> (r: bool)
    ensures
        r == (v@ == s@),
{
    text_eq(all_text(v).as_str(), s)
}

// ---------------------------------------------------------------------------
// Concatenation
// ---------------------------------------------------------------------------

pub fn cat2(a: &str, b: &str) -> (r: String)
    ensures
        r@ == a@ + b@,
{
    let mut s = a.to_owned();
    s.append(b);
    s
}

pub fn cat3(a: &str, b: &str, c: &str) -> (r: String)
    ensures
        r@ == a@ + b@ + c@,
{
    let mut s = cat2(a, b);
    s.append(c);
    s
}

pub fn cat4(a: &str, b: &str, c: &str, d: &str) -> (r: String)
    ensures
        r@ == a@ + b@ + c@ + d@,
{
    let mut s = cat3(a, b, c);
    s.append(d);
    s
}

pub fn cat5(a: &str, b: &str, c: &str, d: &str, e: &str) -> (r: String)
    ensures
        r@ == a@ + b@ + c@ + d@ + e@,
{
    let mut s = cat4(a, b, c, d);
    s.append(e);
    s
}

pub fn cat7(a: &str, b: &str, c: &str, d: &str, e: &str, f: &str, g: &str) -> (r: String)
    ensures
        r@ == a@ + b@ + c@ + d@ + e@ + f@ + g@,
{
    let mut s = cat5(a, b, c, d, e);
    s.append(f);
    s.append(g);
    s
}

// ---------------------------------------------------------------------------
// Numbers
// ---------------------------------------------------------------------------

pub open spec fn digit_char(d: nat) -> char {
    (48 + d) as char
}

/// The decimal numeral of a number.
pub open spec fn decimal(n: nat) -> Seq<char>
    decreases n,
{
    if n < 10 {
        seq![digit_char(n)]
    } else {
        decimal(n / 10).push(digit_char(n % 10))
    }
}

pub fn decimal_text(n: usize) -> (s: String)
    ensures
        s@ == decimal(n as nat),
    decreases n,
{
    let d: u8 = 48u8 + (n % 10) as u8;
    let c: char = d as char;
    if n < 10 {
        let mut s = String::new();
        s.push(c);
        assert(s@ =~= decimal(n as nat));
        s
    } else {
        let mut s = decimal_text(n / 10);
        s.push(c);
        s
    }
}

/// The numeral of a number holds digits only, and denotes the number.
pub proof fn decimal_denotes(n: nat)
    ensures
        decimal(n).len() > 0,
        all_digits(decimal(n)),
        digits_value(decimal(n)) == n,
        unsigned_value(decimal(n)) == Some(n),
    decreases n,
{
    let s = decimal(n);
    let d = digit_char(n % 10);
    assert(d as nat == 48 + n % 10);
    if n < 10 {
        assert(s.drop_last() =~= Seq::<char>::empty());
        assert(digits_value(s.drop_last()) == 0);
        assert(s.last() == d);
    } else {
        decimal_denotes(n / 10);
        assert(s.drop_last() =~= decimal(n / 10));
        assert(s.last() == d);
        assert forall|i: int| 0 <= i < s.len() implies is_digit(#[trigger] s[i]) by {
            if i < s.len() - 1 {
                assert(s[i] == decimal(n / 10)[i]);
            }
        }
    }
    assert(is_digit(s[0]));
}

pub open spec fn all_digits(s: Seq<char>) -> bool {
    forall|i: int| 0 <= i < s.len() ==> is_digit(#[trigger] s[i])
}

/// The number that a row of digits denotes.
pub open spec fn digits_value(s: Seq<char>) -> nat
    decreases s.len(),
{
    if s.len() == 0 {
        0
    } else {
        10 * digits_value(s.drop_last()) + (s.last() as nat - 48) as nat
    }
}

/// What an unsigned decimal number denotes: at least one digit, after an
/// optional plus sign.
pub open spec fn unsigned_value(s: Seq<char>) -> Option<nat> {
    let body = if s.len() > 1 && s[0] == '+' { s.skip(1) } else { s };
    if body.len() > 0 && all_digits(body) {
        Some(digits_value(body))
    } else {
        None
    }
}

proof fn digits_value_prefix(s: Seq<char>, k: int)
    requires
        0 <= k <= s.len(),
    ensures
        digits_value(s.take(k)) <= digits_value(s),
    decreases s.len() - k,
{
    if k < s.len() {
        digits_value_prefix(s, k + 1);
        assert(s.take(k + 1).drop_last() =~= s.take(k));
    } else {
        assert(s.take(k) =~= s);
    }
}

/// The value of a row of digits, if it is one and does not pass `max`.
pub fn parse_digits(v: &Vec<char>, max: u64) -> (r: Option<u64>)
    ensures
        r == (if v@.len() > 0 && all_digits(v@) && digits_value(v@) <= max {
            Some(digits_value(v@) as u64)
        } else {
            None
        }),
{
    if v.len() == 0 {
        return None;
    }
    let mut n: u64 = 0;
    let mut i: usize = 0;
    assert(v@.take(0) =~= Seq::<char>::empty());
    while i < v.len()
        invariant
            i <= v@.len(),
            v@.len() > 0,
            all_digits(v@.take(i as int)),
            n == digits_value(v@.take(i as int)),
            n <= max,
        decreases v@.len() - i,
    {
        let c = v[i];
        if !test_digit(c) {
            return None;
        }
        let d: u64 = (c as u32 - 48) as u64;
        proof {
            assert(v@.take(i + 1).drop_last() =~= v@.take(i as int));
            assert(v@.take(i + 1).last() == c);
            assert(digits_value(v@.take(i + 1)) == 10 * n + d);
            digits_value_prefix(v@, i + 1);
            assert forall|j: int| 0 <= j < i + 1 implies is_digit(#[trigger] v@.take(i + 1)[j]) by {
                if j < i {
                    assert(v@.take(i as int)[j] == v@.take(i + 1)[j]);
                }
            }
        }
        if n > max / 10 || d > max - 10 * n {
            return None;
        }
        n = 10 * n + d;
        i = i + 1;
    }
    assert(v@.take(v@.len() as int) =~= v@);
    Some(n)
}

/// The value of an unsigned decimal number, if the text is one and it does not
/// pass `max`.
pub fn parse_unsigned(v: &Vec<char>, max: u64) -> (r: Option<u64>)
    ensures
        r == (match unsigned_value(v@) {
            Some(n) => if n <= max {
                Some(n as u64)
            } else {
                None
            },
            None => None,
        }),
{
    if v.len() > 1 && v[0] == '+' {
        let body = slice_chars(v, 1, v.len());
        assert(body@ =~= v@.skip(1));
        parse_digits(&body, max)
    } else {
        parse_digits(v, max)
    }
}

// ---------------------------------------------------------------------------
// Trimming
// ---------------------------------------------------------------------------

pub open spec fn trim_start(s: Seq<char>) -> Seq<char> {
    s.skip(run_end(s, 0, Class::White))
}

pub open spec fn trim_end(s: Seq<char>) -> Seq<char>
    decreases s.len(),
{
    if s.len() > 0 && is_white(s.last()) {
        trim_end(s.drop_last())
    } else {
        s
    }
}

/// The text without the white space at both ends.
pub open spec fn trim(s: Seq<char>) -> Seq<char> {
    trim_end(trim_start(s))
}

pub fn trimmed_end(v: &Vec<char>) -> (r: Vec<char>)
    ensures
        r@ == trim_end(v@),
{
    let mut n: usize = v.len();
    assert(v@.take(v@.len() as int) =~= v@);
    while n > 0 && test_white(v[n - 1])
        invariant
            n <= v@.len(),
            trim_end(v@) == trim_end(v@.take(n as int)),
        decreases n,
    {
        assert(v@.take(n as int).drop_last() =~= v@.take(n - 1));
        n = n - 1;
    }
    let r = slice_chars(v, 0, n);
    assert(r@ =~= v@.take(n as int));
    r
}

pub fn trimmed_start(v: &Vec<char>) -> (r: Vec<char>)
    ensures
        r@ == trim_start(v@),
{
    let a = skip_run(v, 0, Class::White);
    let r = slice_chars(v, a, v.len());
    assert(r@ =~= trim_start(v@));
    r
}

pub fn trimmed(v: &Vec<char>) -> (r: Vec<char>)
    ensures
        r@ == trim(v@),
{
    trimmed_end(&trimmed_start(v))
}

// ---------------------------------------------------------------------------
// Searching
// ---------------------------------------------------------------------------

/// Whether the text holds `p` at position `i`.
pub open spec fn occurs_at(s: Seq<char>, p: Seq<char>, i: int) -> bool {
    0 <= i && i + p.len() <= s.len() && s.subrange(i, i + p.len()) == p
}

/// The first position from `i` on where the text holds `p`.
pub open spec fn find_from(s: Seq<char>, p: Seq<char>, i: int) -> Option<int>
    decreases s.len() + 1 - i,
{
    if i < 0 || i + p.len() > s.len() {
        None
    } else if occurs_at(s, p, i) {
        Some(i)
    } else {
        find_from(s, p, i + 1)
    }
}

/// What stands before and after the first occurrence of `p`.
pub open spec fn split_once(s: Seq<char>, p: Seq<char>) -> Option<(Seq<char>, Seq<char>)> {
    match find_from(s, p, 0) {
        Some(i) => Some((s.take(i), s.skip(i + p.len()))),
        None => None,
    }
}

/// The first position from `i` on is one where the text holds `p`.
pub proof fn find_from_spec(s: Seq<char>, p: Seq<char>, i: int)
    requires
        0 <= i,
    ensures
        match find_from(s, p, i) {
            Some(j) => i <= j && occurs_at(s, p, j) && forall|k: int|
                i <= k < j ==> !#[trigger] occurs_at(s, p, k),
            None => forall|k: int| i <= k ==> !#[trigger] occurs_at(s, p, k),
        },
    decreases s.len() + 1 - i,
{
    if i + p.len() <= s.len() && !occurs_at(s, p, i) {
        find_from_spec(s, p, i + 1);
    }
}

pub fn holds_at(v: &Vec<char>, p: &Vec<char>, i: usize) -> (r: bool)
    ensures
        r == occurs_at(v@, p@, i as int),
{
    if i > v.len() || p.len() > v.len() - i {
        return false;
    }
    let mut j: usize = 0;
    while j < p.len()
        invariant
            i + p@.len() <= v.len(),
            j <= p@.len(),
            forall|k: int| 0 <= k < j ==> v@[i + k] == #[trigger] p@[k],
        decreases p@.len() - j,
    {
        if v[i + j] != p[j] {
            assert(v@.subrange(i as int, i + p@.len())[j as int] != p@[j as int]);
            return false;
        }
        j = j + 1;
    }
    assert(v@.subrange(i as int, i + p@.len()) =~= p@);
    true
}

/// Whether the text holds the literal `p` at position `i`.
pub fn holds_text_at(v: &Vec<char>, p: &str, i: usize) -> (r: bool)
    ensures
        r == occurs_at(v@, p@, i as int),
{
    holds_at(v, &to_chars(p), i)
}

pub fn find_text(v: &Vec<char>, p: &str) -> (r: Option<usize>)
    ensures
        match r {
            Some(i) => find_from(v@, p@, 0) == Some(i as int) && i + p@.len() <= v@.len(),
            None => find_from(v@, p@, 0) is None,
        },
{
    let pat = to_chars(p);
    if pat.len() > v.len() {
        return None;
    }
    let last: usize = v.len() - pat.len();
    let mut i: usize = 0;
    while i <= last
        invariant
            i <= last + 1,
            last + pat@.len() == v@.len(),
            pat@ == p@,
            find_from(v@, p@, 0) == find_from(v@, p@, i as int),
        decreases last + 1 - i,
    {
        if holds_at(v, &pat, i) {
            return Some(i);
        }
        if i == last {
            assert(find_from(v@, p@, i + 1) is None);
            return None;
        }
        i = i + 1;
    }
    None
}

pub fn split_text(v: &Vec<char>, p: &str) -> (r: Option<(Vec<char>, Vec<char>)>)
    ensures
        match r {
            Some(pair) => split_once(v@, p@) == Some((pair.0@, pair.1@)),
            None => split_once(v@, p@) is None,
        },
{
    match find_text(v, p) {
        Some(i) => {
            let n = to_chars(p).len();
            let a = slice_chars(v, 0, i);
            assert(i + n <= v.len());
            let b = slice_chars(v, i + n, v.len());
            assert(a@ =~= v@.take(i as int));
            assert(b@ =~= v@.skip(i + p@.len()));
            Some((a, b))
        },
        None => None,
    }
}

/// What stands before the suffix `p`, if the text ends in it.
pub open spec fn before_suffix(s: Seq<char>, p: Seq<char>) -> Option<Seq<char>> {
    if occurs_at(s, p, s.len() - p.len()) {
        Some(s.take(s.len() - p.len()))
    } else {
        None
    }
}

/// What stands after the prefix `p`, if the text starts with it.
pub open spec fn after_prefix(s: Seq<char>, p: Seq<char>) -> Option<Seq<char>> {
    if occurs_at(s, p, 0) {
        Some(s.skip(p.len() as int))
    } else {
        None
    }
}

pub fn strip_tail(v: &Vec<char>, p: &str) -> (r: Option<Vec<char>>)
    ensures
        match r {
            Some(t) => before_suffix(v@, p@) == Some(t@),
            None => before_suffix(v@, p@) is None,
        },
{
    let n = to_chars(p).len();
    if n <= v.len() && holds_text_at(v, p, v.len() - n) {
        let t = slice_chars(v, 0, v.len() - n);
        assert(t@ =~= v@.take(v@.len() - p@.len()));
        Some(t)
    } else {
        None
    }
}

pub fn strip_head(v: &Vec<char>, p: &str) -> (r: Option<Vec<char>>)
    ensures
        match r {
            Some(t) => after_prefix(v@, p@) == Some(t@),
            None => after_prefix(v@, p@) is None,
        },
{
    if holds_text_at(v, p, 0) {
        let t = slice_chars(v, to_chars(p).len(), v.len());
        assert(t@ =~= v@.skip(p@.len() as int));
        Some(t)
    } else {
        None
    }
}

// ---------------------------------------------------------------------------
// Lines and words
// ---------------------------------------------------------------------------

/// The texts that a vector of vectors holds.
pub open spec fn texts(v: Seq<Vec<char>>) -> Seq<Seq<char>> {
    Seq::new(v.len(), |i: int| v[i]@)
}

pub open spec fn without_cr(s: Seq<char>) -> Seq<char> {
    if s.len() > 0 && s.last() == '\r' {
        s.drop_last()
    } else {
        s
    }
}

/// The lines of a text. A line ends with a line feed, before which a carriage
/// return may stand; the last line needs no end.
pub open spec fn lines(s: Seq<char>) -> Seq<Seq<char>>
    decreases s.len(),
    when s.len() >= 0
    via lines_decreases
{
    if s.len() == 0 {
        Seq::empty()
    } else {
        let e = run_end(s, 0, Class::Not('\n'));
        if e >= s.len() {
            seq![s]
        } else {
            seq![without_cr(s.take(e))] + lines(s.skip(e + 1))
        }
    }
}

#[via_fn]
proof fn lines_decreases(s: Seq<char>) {
    if s.len() > 0 {
        run_end_spec(s, 0, Class::Not('\n'));
    }
}

/// The lines of a text that starts with a whole line.
pub proof fn lines_first(line: Seq<char>, rest: Seq<char>)
    requires
        !line.contains('\n'),
    ensures
        lines(line + "\n"@ + rest) == seq![without_cr(line)] + lines(rest),
{
    reveal_strlit("\n");
    let s = line + "\n"@ + rest;
    let n = line.len() as int;
    assert forall|j: int| 0 <= j < n implies in_class(#[trigger] s[j], Class::Not('\n')) by {
        assert(s[j] == line[j]);
        assert(line.contains(line[j]));
    }
    assert(s[n] == '\n');
    run_end_at(s, 0, n, Class::Not('\n'));
    assert(s.take(n) =~= line);
    assert(s.skip(n + 1) =~= rest);
}

pub fn split_lines(v: &Vec<char>) -> (r: Vec<Vec<char>>)
    ensures
        texts(r@) == lines(v@),
{
    let mut out: Vec<Vec<char>> = Vec::new();
    let mut i: usize = 0;
    assert(v@.skip(0) =~= v@);
    assert(texts(out@) + lines(v@) =~= lines(v@));
    while i < v.len()
        invariant
            i <= v@.len(),
            texts(out@) + lines(v@.skip(i as int)) == lines(v@),
        decreases v@.len() - i,
    {
        let e = skip_run(v, i, Class::Not('\n'));
        let ghost rest = v@.skip(i as int);
        proof {
            run_end_shift(v@, i as int, 0, Class::Not('\n'));
            assert(run_end(rest, 0, Class::Not('\n')) == e - i);
        }
        let ghost before = out@;
        if e == v.len() {
            let l = slice_chars(v, i, e);
            assert(l@ =~= rest);
            out.push(l);
            assert(texts(out@) =~= texts(before).push(rest));
            assert(texts(before) + seq![rest] =~= texts(before).push(rest));
            return out;
        }
        let b: usize = if e > i && v[e - 1] == '\r' {
            e - 1
        } else {
            e
        };
        let l = slice_chars(v, i, b);
        proof {
            assert(rest.take(e - i) =~= v@.subrange(i as int, e as int));
            assert(l@ =~= without_cr(rest.take(e - i)));
            assert(rest.skip(e - i + 1) =~= v@.skip(e + 1));
        }
        out.push(l);
        assert(texts(out@) =~= texts(before).push(l@));
        assert(texts(before) + (seq![l@] + lines(v@.skip(e + 1))) =~= texts(before).push(l@)
            + lines(v@.skip(e + 1)));
        i = e + 1;
    }
    assert(v@.skip(i as int) =~= Seq::<char>::empty());
    assert(texts(out@) + Seq::<Seq<char>>::empty() =~= texts(out@));
    out
}

/// A run in the rest of a text is the run in the text.
pub proof fn run_end_shift(s: Seq<char>, i: int, j: int, k: Class)
    requires
        0 <= i <= s.len(),
        0 <= j <= s.len() - i,
    ensures
        run_end(s.skip(i), j, k) == run_end(s, i + j, k) - i,
    decreases s.len() - i - j,
{
    if j < s.len() - i && in_class(s[i + j], k) {
        assert(s.skip(i)[j] == s[i + j]);
        run_end_shift(s, i, j + 1, k);
    }
}

/// The words of a text, which white space parts.
pub open spec fn words(s: Seq<char>) -> Seq<Seq<char>>
    decreases s.len(),
    when s.len() >= 0
    via words_decreases
{
    let a = run_end(s, 0, Class::White);
    if a >= s.len() {
        Seq::empty()
    } else {
        let b = run_end(s, a, Class::NotWhite);
        seq![s.subrange(a, b)] + words(s.skip(b))
    }
}

#[via_fn]
proof fn words_decreases(s: Seq<char>) {
    run_end_spec(s, 0, Class::White);
    let a = run_end(s, 0, Class::White);
    if a < s.len() {
        run_end_spec(s, a, Class::NotWhite);
        assert(run_end(s, a, Class::NotWhite) == run_end(s, a + 1, Class::NotWhite));
        run_end_spec(s, a + 1, Class::NotWhite);
    }
}

pub fn split_words(v: &Vec<char>) -> (r: Vec<Vec<char>>)
    ensures
        texts(r@) == words(v@),
{
    let mut out: Vec<Vec<char>> = Vec::new();
    let mut i: usize = 0;
    assert(v@.skip(0) =~= v@);
    assert(texts(out@) + words(v@) =~= words(v@));
    loop
        invariant
            i <= v@.len(),
            texts(out@) + words(v@.skip(i as int)) == words(v@),
        decreases v@.len() - i,
    {
        let ghost rest = v@.skip(i as int);
        let a = skip_run(v, i, Class::White);
        proof {
            run_end_shift(v@, i as int, 0, Class::White);
        }
        if a == v.len() {
            assert(texts(out@) + Seq::<Seq<char>>::empty() =~= texts(out@));
            return out;
        }
        let b = skip_run(v, a, Class::NotWhite);
        proof {
            run_end_shift(v@, i as int, a - i, Class::NotWhite);
            run_end_spec(v@, i as int, Class::White);
            run_end_spec(v@, a as int, Class::NotWhite);
            run_end_spec(v@, a + 1, Class::NotWhite);
            assert(run_end(v@, a as int, Class::NotWhite) == run_end(v@, a + 1, Class::NotWhite));
        }
        let w = slice_chars(v, a, b);
        let ghost before = out@;
        proof {
            assert(w@ =~= rest.subrange(a - i, b - i));
            assert(rest.skip(b - i) =~= v@.skip(b as int));
        }
        out.push(w);
        assert(texts(out@) =~= texts(before).push(w@));
        assert(texts(before) + (seq![w@] + words(v@.skip(b as int))) =~= texts(before).push(w@)
            + words(v@.skip(b as int)));
        i = b;
    }
}

} // verus!
