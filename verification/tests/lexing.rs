use jo_compiler::lexer::{is_ident_continue, is_ident_start, keyword_kind, normalize_float};
use jo_compiler::lexer::{Lexer, Token, TokenKind};

fn lex(src: &str) -> Vec<Token> {
    Lexer::new(src, "t.jo").tokenize().unwrap()
}

fn kinds(src: &str) -> Vec<TokenKind> {
    lex(src).into_iter().map(|t| t.kind).collect()
}

/// (code, line, column) of each diagnostic.
fn errors(src: &str) -> Vec<(String, usize, usize)> {
    match Lexer::new(src, "t.jo").tokenize() {
        Ok(_) => vec![],
        Err(ds) => ds.into_iter().map(|d| (d.code, d.line, d.col)).collect(),
    }
}

fn one_error(code: &str, line: usize, col: usize) -> Vec<(String, usize, usize)> {
    vec![(code.to_string(), line, col)]
}

#[test]
fn library_type_names_are_identifiers() {
    for name in ["int", "float", "char", "bool", "string"] {
        assert_eq!(kinds(name), vec![TokenKind::Ident, TokenKind::Eof]);
        assert_eq!(lex(name)[0].lexeme, name);
    }
}

#[test]
fn keywords_are_recognised() {
    let table = [
        ("fn", TokenKind::Fn),
        ("struct", TokenKind::Struct),
        ("let", TokenKind::Let),
        ("return", TokenKind::Return),
        ("if", TokenKind::If),
        ("else", TokenKind::Else),
        ("while", TokenKind::While),
        ("break", TokenKind::Break),
        ("continue", TokenKind::Continue),
        ("import", TokenKind::Import),
        ("as", TokenKind::As),
        ("move", TokenKind::Move),
        ("self", TokenKind::Self_),
        ("i64", TokenKind::I64),
        ("f64", TokenKind::F64),
        ("void", TokenKind::Void),
        ("null", TokenKind::Null),
        ("mut", TokenKind::Mut),
        ("asm", TokenKind::Asm),
        ("extend", TokenKind::Extend),
        ("true", TokenKind::BoolLit(true)),
        ("false", TokenKind::BoolLit(false)),
    ];
    for (word, kind) in table {
        assert_eq!(keyword_kind(word), Some(kind.clone()));
        assert_eq!(kinds(word), vec![kind, TokenKind::Eof]);
    }
    assert_eq!(keyword_kind("fnx"), None);
    assert_eq!(kinds("fnx"), vec![TokenKind::Ident, TokenKind::Eof]);
}

#[test]
fn longest_symbols_are_read() {
    assert_eq!(
        kinds(":: -> == != <= >= && ||"),
        vec![
            TokenKind::ColonColon,
            TokenKind::Arrow,
            TokenKind::EqEq,
            TokenKind::Ne,
            TokenKind::Le,
            TokenKind::Ge,
            TokenKind::AmpAmp,
            TokenKind::PipePipe,
            TokenKind::Eof,
        ]
    );
    assert_eq!(
        kinds(":::=>-&"),
        vec![
            TokenKind::ColonColon,
            TokenKind::Colon,
            TokenKind::Eq,
            TokenKind::Gt,
            TokenKind::Minus,
            TokenKind::Ampersand,
            TokenKind::Eof,
        ]
    );
}

#[test]
fn numbers() {
    assert_eq!(kinds("42")[0], TokenKind::IntLit(42));
    assert_eq!(kinds("9223372036854775807")[0], TokenKind::IntLit(i64::MAX));
    assert_eq!(kinds("12.")[0], TokenKind::FloatLit("12.0".to_string()));
    assert_eq!(kinds(".3")[0], TokenKind::FloatLit("0.3".to_string()));
    assert_eq!(kinds("0.5")[0], TokenKind::FloatLit("0.5".to_string()));
    assert_eq!(lex("12.")[0].lexeme, "12.");
    assert_eq!(kinds("x.y"), vec![
        TokenKind::Ident,
        TokenKind::Dot,
        TokenKind::Ident,
        TokenKind::Eof,
    ]);
    assert_eq!(normalize_float("7."), "7.0");
    assert_eq!(normalize_float(".25"), "0.25");
    assert_eq!(normalize_float("1.5"), "1.5");
}

#[test]
fn characters() {
    assert_eq!(kinds("'a'")[0], TokenKind::CharLit(97));
    assert_eq!(kinds("'é'")[0], TokenKind::CharLit(233));
    // There are no escapes: a backslash is a character like any other.
    assert_eq!(kinds("'\\'")[0], TokenKind::CharLit(92));
    assert_eq!(kinds("'\"'")[0], TokenKind::CharLit(34));
}

#[test]
fn strings() {
    assert_eq!(kinds("\"hello\"")[0], TokenKind::StringLit("hello".to_string()));
    // A backslash stands for itself in a string, also before the closing quote.
    assert_eq!(kinds("\"a\\tb\"")[0], TokenKind::StringLit("a\\tb".to_string()));
    assert_eq!(kinds("\"\\\"")[0], TokenKind::StringLit("\\".to_string()));
    assert_eq!(kinds("\"\\q\"")[0], TokenKind::StringLit("\\q".to_string()));
    assert_eq!(kinds("\"\"")[0], TokenKind::StringLit(String::new()));
    // A string may go over lines.
    let toks = lex("\"a\nb\" x");
    assert_eq!(toks[0].kind, TokenKind::StringLit("a\nb".to_string()));
    assert_eq!((toks[1].line, toks[1].col), (2, 4));
}

#[test]
fn comments_and_places() {
    let toks = lex("// one\n  x // two\n\ty");
    assert_eq!(toks.len(), 3);
    assert_eq!((toks[0].line, toks[0].col), (2, 3));
    assert_eq!((toks[1].line, toks[1].col), (3, 2));
    assert_eq!(toks[2].kind, TokenKind::Eof);
}

#[test]
fn empty_text_has_one_token() {
    assert_eq!(kinds(""), vec![TokenKind::Eof]);
    assert_eq!(kinds("  \n\t// x"), vec![TokenKind::Eof]);
}

#[test]
fn integer_out_of_range() {
    assert_eq!(errors("9223372036854775808"), one_error("E102", 1, 1));
}

#[test]
fn unterminated_string() {
    assert_eq!(errors("x = \"abc"), one_error("E103", 1, 5));
}

#[test]
fn bad_characters() {
    assert_eq!(errors("''"), one_error("E104", 1, 1));
    assert_eq!(errors("'"), one_error("E104", 1, 1));
    assert_eq!(errors("'ab'")[0].0, "E104");
}

#[test]
fn unexpected_character() {
    assert_eq!(errors("a $ b"), one_error("E105", 1, 3));
    assert_eq!(errors("a | b"), one_error("E105", 1, 3));
}

#[test]
fn a_character_is_one_character() {
    for src in ["'\\n'", "'\\x41'", "'ab'", "''", "'", "'a"] {
        assert_eq!(errors(src)[0].0, "E104", "{}", src);
    }
}

#[test]
fn several_errors_in_one_pass() {
    let codes: Vec<String> = errors("$ 9223372036854775808 @").into_iter().map(|e| e.0).collect();
    assert_eq!(codes, ["E105", "E102", "E105"]);
}

#[test]
fn lexemes_are_the_source_text() {
    let src = "fn main() i64 { let s = \"a\\n\"; return 1 + .5; }";
    for t in lex(src) {
        if t.kind != TokenKind::Eof {
            let from = t.col - 1;
            assert_eq!(&src[from..from + t.lexeme.len()], t.lexeme);
        }
    }
}

#[test]
fn identifier_characters() {
    assert!(is_ident_start('_') && is_ident_start('Z') && !is_ident_start('9'));
    assert!(is_ident_continue('9') && !is_ident_continue('é') && !is_ident_continue('-'));
}
