//! Hand-written lexer for Jo.
//!
//! Turns preprocessed source text into a list of tokens. `#define` directives
//! are removed by the preprocessor before lexing, but the `#`, `%name`, and
//! `&name` forms used *inside* `!asm` blocks survive: `#` is lexed as `Pound`,
//! `%` as `Percent`, and the parser collects asm bodies from the token stream.

use vstd::prelude::*;

use crate::error;
use crate::error::{DiagM, Diagnostic};
use crate::text;
use crate::text::Class;

verus! {

#[derive(Debug, Clone, PartialEq)]
pub enum TokenKind {
    // Literals
    IntLit(i64),
    /// The decimal text of the number: digits, a point, digits.
    FloatLit(String),
    CharLit(u32),
    StringLit(String),
    BoolLit(bool),

    // Identifiers & keywords
    Ident,
    Fn,
    Struct,
    Let,
    Return,
    If,
    Else,
    While,
    Break,
    Continue,
    Import,
    As,
    Move,
    Self_,
    I64,
    F64,
    Void,
    Null,
    Mut,
    Asm,
    Extend,

    // Punctuation
    LParen,
    RParen,
    LBrace,
    RBrace,
    LBracket,
    RBracket,
    Comma,
    Semicolon,
    Colon,
    ColonColon,
    Dot,
    Arrow,
    Bang,
    Pound,

    // Operators
    Eq,
    EqEq,
    Ne,
    Lt,
    Gt,
    Le,
    Ge,
    Plus,
    Minus,
    Star,
    Slash,
    Percent,
    Ampersand,
    AmpAmp,
    PipePipe,

    Eof,
}

/// The model of a [`TokenKind`].
pub enum TokenKindM {
    // Literals
    IntLit(i64),
    FloatLit(Seq<char>),
    CharLit(u32),
    StringLit(Seq<char>),
    BoolLit(bool),

    // Identifiers & keywords
    Ident,
    Fn,
    Struct,
    Let,
    Return,
    If,
    Else,
    While,
    Break,
    Continue,
    Import,
    As,
    Move,
    Self_,
    I64,
    F64,
    Void,
    Null,
    Mut,
    Asm,
    Extend,

    // Punctuation
    LParen,
    RParen,
    LBrace,
    RBrace,
    LBracket,
    RBracket,
    Comma,
    Semicolon,
    Colon,
    ColonColon,
    Dot,
    Arrow,
    Bang,
    Pound,

    // Operators
    Eq,
    EqEq,
    Ne,
    Lt,
    Gt,
    Le,
    Ge,
    Plus,
    Minus,
    Star,
    Slash,
    Percent,
    Ampersand,
    AmpAmp,
    PipePipe,

    Eof,
}

pub open spec fn kind_view(k: TokenKind) -> TokenKindM {
    match k {
        TokenKind::IntLit(n) => TokenKindM::IntLit(n),
        TokenKind::FloatLit(s) => TokenKindM::FloatLit(s@),
        TokenKind::CharLit(c) => TokenKindM::CharLit(c),
        TokenKind::StringLit(s) => TokenKindM::StringLit(s@),
        TokenKind::BoolLit(b) => TokenKindM::BoolLit(b),
        TokenKind::Ident => TokenKindM::Ident,
        TokenKind::Fn => TokenKindM::Fn,
        TokenKind::Struct => TokenKindM::Struct,
        TokenKind::Let => TokenKindM::Let,
        TokenKind::Return => TokenKindM::Return,
        TokenKind::If => TokenKindM::If,
        TokenKind::Else => TokenKindM::Else,
        TokenKind::While => TokenKindM::While,
        TokenKind::Break => TokenKindM::Break,
        TokenKind::Continue => TokenKindM::Continue,
        TokenKind::Import => TokenKindM::Import,
        TokenKind::As => TokenKindM::As,
        TokenKind::Move => TokenKindM::Move,
        TokenKind::Self_ => TokenKindM::Self_,
        TokenKind::I64 => TokenKindM::I64,
        TokenKind::F64 => TokenKindM::F64,
        TokenKind::Void => TokenKindM::Void,
        TokenKind::Null => TokenKindM::Null,
        TokenKind::Mut => TokenKindM::Mut,
        TokenKind::Asm => TokenKindM::Asm,
        TokenKind::Extend => TokenKindM::Extend,
        TokenKind::LParen => TokenKindM::LParen,
        TokenKind::RParen => TokenKindM::RParen,
        TokenKind::LBrace => TokenKindM::LBrace,
        TokenKind::RBrace => TokenKindM::RBrace,
        TokenKind::LBracket => TokenKindM::LBracket,
        TokenKind::RBracket => TokenKindM::RBracket,
        TokenKind::Comma => TokenKindM::Comma,
        TokenKind::Semicolon => TokenKindM::Semicolon,
        TokenKind::Colon => TokenKindM::Colon,
        TokenKind::ColonColon => TokenKindM::ColonColon,
        TokenKind::Dot => TokenKindM::Dot,
        TokenKind::Arrow => TokenKindM::Arrow,
        TokenKind::Bang => TokenKindM::Bang,
        TokenKind::Pound => TokenKindM::Pound,
        TokenKind::Eq => TokenKindM::Eq,
        TokenKind::EqEq => TokenKindM::EqEq,
        TokenKind::Ne => TokenKindM::Ne,
        TokenKind::Lt => TokenKindM::Lt,
        TokenKind::Gt => TokenKindM::Gt,
        TokenKind::Le => TokenKindM::Le,
        TokenKind::Ge => TokenKindM::Ge,
        TokenKind::Plus => TokenKindM::Plus,
        TokenKind::Minus => TokenKindM::Minus,
        TokenKind::Star => TokenKindM::Star,
        TokenKind::Slash => TokenKindM::Slash,
        TokenKind::Percent => TokenKindM::Percent,
        TokenKind::Ampersand => TokenKindM::Ampersand,
        TokenKind::AmpAmp => TokenKindM::AmpAmp,
        TokenKind::PipePipe => TokenKindM::PipePipe,
        TokenKind::Eof => TokenKindM::Eof,
    }
}

impl View for TokenKind {
    type V = TokenKindM;

    open spec fn view(&self) -> TokenKindM {
        kind_view(*self)
    }
}

#[derive(Debug, Clone)]
pub struct Token {
    pub kind: TokenKind,
    pub lexeme: String,
    pub line: usize,
    pub col: usize,
}

/// The model of a [`Token`].
pub struct TokenM {
    pub kind: TokenKindM,
    pub lexeme: Seq<char>,
    pub line: nat,
    pub col: nat,
}

impl View for Token {
    type V = TokenM;

    open spec fn view(&self) -> TokenM {
        TokenM {
            kind: self.kind@,
            lexeme: self.lexeme@,
            line: self.line as nat,
            col: self.col as nat,
        }
    }
}

pub open spec fn tokens_view(s: Seq<Token>) -> Seq<TokenM> {
    Seq::new(s.len(), |i: int| s[i]@)
}

/// Whether the kind carries no value.
pub open spec fn plain_kind(k: TokenKindM) -> bool {
    !(k is IntLit || k is FloatLit || k is CharLit || k is StringLit || k is BoolLit)
}

/// A number for each kind, whatever value it carries.
spec fn kind_number(k: TokenKindM) -> u8 {
    match k {
        TokenKindM::IntLit(_) => 0,
        TokenKindM::FloatLit(_) => 1,
        TokenKindM::CharLit(_) => 2,
        TokenKindM::StringLit(_) => 3,
        TokenKindM::BoolLit(_) => 4,
        TokenKindM::Ident => 5,
        TokenKindM::Fn => 6,
        TokenKindM::Struct => 7,
        TokenKindM::Let => 8,
        TokenKindM::Return => 9,
        TokenKindM::If => 10,
        TokenKindM::Else => 11,
        TokenKindM::While => 12,
        TokenKindM::Break => 13,
        TokenKindM::Continue => 14,
        TokenKindM::Import => 15,
        TokenKindM::As => 16,
        TokenKindM::Move => 17,
        TokenKindM::Self_ => 18,
        TokenKindM::I64 => 19,
        TokenKindM::F64 => 20,
        TokenKindM::Void => 21,
        TokenKindM::Null => 22,
        TokenKindM::Mut => 23,
        TokenKindM::Asm => 24,
        TokenKindM::Extend => 25,
        TokenKindM::LParen => 26,
        TokenKindM::RParen => 27,
        TokenKindM::LBrace => 28,
        TokenKindM::RBrace => 29,
        TokenKindM::LBracket => 30,
        TokenKindM::RBracket => 31,
        TokenKindM::Comma => 32,
        TokenKindM::Semicolon => 33,
        TokenKindM::Colon => 34,
        TokenKindM::ColonColon => 35,
        TokenKindM::Dot => 36,
        TokenKindM::Arrow => 37,
        TokenKindM::Bang => 38,
        TokenKindM::Pound => 39,
        TokenKindM::Eq => 40,
        TokenKindM::EqEq => 41,
        TokenKindM::Ne => 42,
        TokenKindM::Lt => 43,
        TokenKindM::Gt => 44,
        TokenKindM::Le => 45,
        TokenKindM::Ge => 46,
        TokenKindM::Plus => 47,
        TokenKindM::Minus => 48,
        TokenKindM::Star => 49,
        TokenKindM::Slash => 50,
        TokenKindM::Percent => 51,
        TokenKindM::Ampersand => 52,
        TokenKindM::AmpAmp => 53,
        TokenKindM::PipePipe => 54,
        TokenKindM::Eof => 55,
    }
}

fn number_of(k: &TokenKind) -> (r: u8)
    ensures
        r == kind_number(k@),
{
    match k {
        TokenKind::IntLit(_) => 0,
        TokenKind::FloatLit(_) => 1,
        TokenKind::CharLit(_) => 2,
        TokenKind::StringLit(_) => 3,
        TokenKind::BoolLit(_) => 4,
        TokenKind::Ident => 5,
        TokenKind::Fn => 6,
        TokenKind::Struct => 7,
        TokenKind::Let => 8,
        TokenKind::Return => 9,
        TokenKind::If => 10,
        TokenKind::Else => 11,
        TokenKind::While => 12,
        TokenKind::Break => 13,
        TokenKind::Continue => 14,
        TokenKind::Import => 15,
        TokenKind::As => 16,
        TokenKind::Move => 17,
        TokenKind::Self_ => 18,
        TokenKind::I64 => 19,
        TokenKind::F64 => 20,
        TokenKind::Void => 21,
        TokenKind::Null => 22,
        TokenKind::Mut => 23,
        TokenKind::Asm => 24,
        TokenKind::Extend => 25,
        TokenKind::LParen => 26,
        TokenKind::RParen => 27,
        TokenKind::LBrace => 28,
        TokenKind::RBrace => 29,
        TokenKind::LBracket => 30,
        TokenKind::RBracket => 31,
        TokenKind::Comma => 32,
        TokenKind::Semicolon => 33,
        TokenKind::Colon => 34,
        TokenKind::ColonColon => 35,
        TokenKind::Dot => 36,
        TokenKind::Arrow => 37,
        TokenKind::Bang => 38,
        TokenKind::Pound => 39,
        TokenKind::Eq => 40,
        TokenKind::EqEq => 41,
        TokenKind::Ne => 42,
        TokenKind::Lt => 43,
        TokenKind::Gt => 44,
        TokenKind::Le => 45,
        TokenKind::Ge => 46,
        TokenKind::Plus => 47,
        TokenKind::Minus => 48,
        TokenKind::Star => 49,
        TokenKind::Slash => 50,
        TokenKind::Percent => 51,
        TokenKind::Ampersand => 52,
        TokenKind::AmpAmp => 53,
        TokenKind::PipePipe => 54,
        TokenKind::Eof => 55,
    }
}

/// Whether a token is of the given kind.
pub fn is_kind(k: &TokenKind, plain: &TokenKind) -> (r: bool)
    requires
        plain_kind(plain@),
    ensures
        r == (k@ == plain@),
{
    number_of(k) == number_of(plain)
}

/// The name of the kind.
pub open spec fn kind_name(k: TokenKindM) -> Seq<char> {
    match k {
        TokenKindM::IntLit(_) => "IntLit"@,
        TokenKindM::FloatLit(_) => "FloatLit"@,
        TokenKindM::CharLit(_) => "CharLit"@,
        TokenKindM::StringLit(_) => "StringLit"@,
        TokenKindM::BoolLit(_) => "BoolLit"@,
        TokenKindM::Ident => "Ident"@,
        TokenKindM::Fn => "Fn"@,
        TokenKindM::Struct => "Struct"@,
        TokenKindM::Let => "Let"@,
        TokenKindM::Return => "Return"@,
        TokenKindM::If => "If"@,
        TokenKindM::Else => "Else"@,
        TokenKindM::While => "While"@,
        TokenKindM::Break => "Break"@,
        TokenKindM::Continue => "Continue"@,
        TokenKindM::Import => "Import"@,
        TokenKindM::As => "As"@,
        TokenKindM::Move => "Move"@,
        TokenKindM::Self_ => "Self_"@,
        TokenKindM::I64 => "I64"@,
        TokenKindM::F64 => "F64"@,
        TokenKindM::Void => "Void"@,
        TokenKindM::Null => "Null"@,
        TokenKindM::Mut => "Mut"@,
        TokenKindM::Asm => "Asm"@,
        TokenKindM::Extend => "Extend"@,
        TokenKindM::LParen => "LParen"@,
        TokenKindM::RParen => "RParen"@,
        TokenKindM::LBrace => "LBrace"@,
        TokenKindM::RBrace => "RBrace"@,
        TokenKindM::LBracket => "LBracket"@,
        TokenKindM::RBracket => "RBracket"@,
        TokenKindM::Comma => "Comma"@,
        TokenKindM::Semicolon => "Semicolon"@,
        TokenKindM::Colon => "Colon"@,
        TokenKindM::ColonColon => "ColonColon"@,
        TokenKindM::Dot => "Dot"@,
        TokenKindM::Arrow => "Arrow"@,
        TokenKindM::Bang => "Bang"@,
        TokenKindM::Pound => "Pound"@,
        TokenKindM::Eq => "Eq"@,
        TokenKindM::EqEq => "EqEq"@,
        TokenKindM::Ne => "Ne"@,
        TokenKindM::Lt => "Lt"@,
        TokenKindM::Gt => "Gt"@,
        TokenKindM::Le => "Le"@,
        TokenKindM::Ge => "Ge"@,
        TokenKindM::Plus => "Plus"@,
        TokenKindM::Minus => "Minus"@,
        TokenKindM::Star => "Star"@,
        TokenKindM::Slash => "Slash"@,
        TokenKindM::Percent => "Percent"@,
        TokenKindM::Ampersand => "Ampersand"@,
        TokenKindM::AmpAmp => "AmpAmp"@,
        TokenKindM::PipePipe => "PipePipe"@,
        TokenKindM::Eof => "Eof"@,
    }
}

pub fn name_of_kind(k: &TokenKind) -> (r: &'static str)
    ensures
        r@ == kind_name(k@),
{
    match k {
        TokenKind::IntLit(_) => "IntLit",
        TokenKind::FloatLit(_) => "FloatLit",
        TokenKind::CharLit(_) => "CharLit",
        TokenKind::StringLit(_) => "StringLit",
        TokenKind::BoolLit(_) => "BoolLit",
        TokenKind::Ident => "Ident",
        TokenKind::Fn => "Fn",
        TokenKind::Struct => "Struct",
        TokenKind::Let => "Let",
        TokenKind::Return => "Return",
        TokenKind::If => "If",
        TokenKind::Else => "Else",
        TokenKind::While => "While",
        TokenKind::Break => "Break",
        TokenKind::Continue => "Continue",
        TokenKind::Import => "Import",
        TokenKind::As => "As",
        TokenKind::Move => "Move",
        TokenKind::Self_ => "Self_",
        TokenKind::I64 => "I64",
        TokenKind::F64 => "F64",
        TokenKind::Void => "Void",
        TokenKind::Null => "Null",
        TokenKind::Mut => "Mut",
        TokenKind::Asm => "Asm",
        TokenKind::Extend => "Extend",
        TokenKind::LParen => "LParen",
        TokenKind::RParen => "RParen",
        TokenKind::LBrace => "LBrace",
        TokenKind::RBrace => "RBrace",
        TokenKind::LBracket => "LBracket",
        TokenKind::RBracket => "RBracket",
        TokenKind::Comma => "Comma",
        TokenKind::Semicolon => "Semicolon",
        TokenKind::Colon => "Colon",
        TokenKind::ColonColon => "ColonColon",
        TokenKind::Dot => "Dot",
        TokenKind::Arrow => "Arrow",
        TokenKind::Bang => "Bang",
        TokenKind::Pound => "Pound",
        TokenKind::Eq => "Eq",
        TokenKind::EqEq => "EqEq",
        TokenKind::Ne => "Ne",
        TokenKind::Lt => "Lt",
        TokenKind::Gt => "Gt",
        TokenKind::Le => "Le",
        TokenKind::Ge => "Ge",
        TokenKind::Plus => "Plus",
        TokenKind::Minus => "Minus",
        TokenKind::Star => "Star",
        TokenKind::Slash => "Slash",
        TokenKind::Percent => "Percent",
        TokenKind::Ampersand => "Ampersand",
        TokenKind::AmpAmp => "AmpAmp",
        TokenKind::PipePipe => "PipePipe",
        TokenKind::Eof => "Eof",
    }
}

// ---------------------------------------------------------------------------
// Keywords and symbols
// ---------------------------------------------------------------------------

/// The kind of token that a keyword is. The names `int`, `float`, `char`,
/// `bool` and `string` are not keywords.
pub open spec fn keyword(w: Seq<char>) -> Option<TokenKindM> {
    if w == "fn"@ {
        Some(TokenKindM::Fn)
    } else if w == "struct"@ {
        Some(TokenKindM::Struct)
    } else if w == "let"@ {
        Some(TokenKindM::Let)
    } else if w == "return"@ {
        Some(TokenKindM::Return)
    } else if w == "if"@ {
        Some(TokenKindM::If)
    } else if w == "else"@ {
        Some(TokenKindM::Else)
    } else if w == "while"@ {
        Some(TokenKindM::While)
    } else if w == "break"@ {
        Some(TokenKindM::Break)
    } else if w == "continue"@ {
        Some(TokenKindM::Continue)
    } else if w == "import"@ {
        Some(TokenKindM::Import)
    } else if w == "as"@ {
        Some(TokenKindM::As)
    } else if w == "move"@ {
        Some(TokenKindM::Move)
    } else if w == "self"@ {
        Some(TokenKindM::Self_)
    } else if w == "i64"@ {
        Some(TokenKindM::I64)
    } else if w == "f64"@ {
        Some(TokenKindM::F64)
    } else if w == "void"@ {
        Some(TokenKindM::Void)
    } else if w == "null"@ {
        Some(TokenKindM::Null)
    } else if w == "mut"@ {
        Some(TokenKindM::Mut)
    } else if w == "asm"@ {
        Some(TokenKindM::Asm)
    } else if w == "extend"@ {
        Some(TokenKindM::Extend)
    } else if w == "true"@ {
        Some(TokenKindM::BoolLit(true))
    } else if w == "false"@ {
        Some(TokenKindM::BoolLit(false))
    } else {
        None
    }
}

pub fn keyword_kind(s: &str) -> (r: Option<TokenKind>)
    ensures
        match r {
            Some(k) => keyword(s@) == Some(k@),
            None => keyword(s@) is None,
        },
{
    if text::text_eq(s, "fn") {
        Some(TokenKind::Fn)
    } else if text::text_eq(s, "struct") {
        Some(TokenKind::Struct)
    } else if text::text_eq(s, "let") {
        Some(TokenKind::Let)
    } else if text::text_eq(s, "return") {
        Some(TokenKind::Return)
    } else if text::text_eq(s, "if") {
        Some(TokenKind::If)
    } else if text::text_eq(s, "else") {
        Some(TokenKind::Else)
    } else if text::text_eq(s, "while") {
        Some(TokenKind::While)
    } else if text::text_eq(s, "break") {
        Some(TokenKind::Break)
    } else if text::text_eq(s, "continue") {
        Some(TokenKind::Continue)
    } else if text::text_eq(s, "import") {
        Some(TokenKind::Import)
    } else if text::text_eq(s, "as") {
        Some(TokenKind::As)
    } else if text::text_eq(s, "move") {
        Some(TokenKind::Move)
    } else if text::text_eq(s, "self") {
        Some(TokenKind::Self_)
    } else if text::text_eq(s, "i64") {
        Some(TokenKind::I64)
    } else if text::text_eq(s, "f64") {
        Some(TokenKind::F64)
    } else if text::text_eq(s, "void") {
        Some(TokenKind::Void)
    } else if text::text_eq(s, "null") {
        Some(TokenKind::Null)
    } else if text::text_eq(s, "mut") {
        Some(TokenKind::Mut)
    } else if text::text_eq(s, "asm") {
        Some(TokenKind::Asm)
    } else if text::text_eq(s, "extend") {
        Some(TokenKind::Extend)
    } else if text::text_eq(s, "true") {
        Some(TokenKind::BoolLit(true))
    } else if text::text_eq(s, "false") {
        Some(TokenKind::BoolLit(false))
    } else {
        None
    }
}

/// How a symbol is written.
pub open spec fn symbol_text(k: TokenKindM) -> Seq<char> {
    match k {
        TokenKindM::LParen => "("@,
        TokenKindM::RParen => ")"@,
        TokenKindM::LBrace => "{"@,
        TokenKindM::RBrace => "}"@,
        TokenKindM::LBracket => "["@,
        TokenKindM::RBracket => "]"@,
        TokenKindM::Comma => ","@,
        TokenKindM::Semicolon => ";"@,
        TokenKindM::Colon => ":"@,
        TokenKindM::ColonColon => "::"@,
        TokenKindM::Dot => "."@,
        TokenKindM::Arrow => "->"@,
        TokenKindM::Bang => "!"@,
        TokenKindM::Pound => "#"@,
        TokenKindM::Eq => "="@,
        TokenKindM::EqEq => "=="@,
        TokenKindM::Ne => "!="@,
        TokenKindM::Lt => "<"@,
        TokenKindM::Gt => ">"@,
        TokenKindM::Le => "<="@,
        TokenKindM::Ge => ">="@,
        TokenKindM::Plus => "+"@,
        TokenKindM::Minus => "-"@,
        TokenKindM::Star => "*"@,
        TokenKindM::Slash => "/"@,
        TokenKindM::Percent => "%"@,
        TokenKindM::Ampersand => "&"@,
        TokenKindM::AmpAmp => "&&"@,
        TokenKindM::PipePipe => "||"@,
        _ => ""@,
    }
}

pub fn symbol_lexeme(kind: &TokenKind) -> (r: String)
    ensures
        r@ == symbol_text(kind@),
{
    match kind {
        TokenKind::LParen => "(".to_owned(),
        TokenKind::RParen => ")".to_owned(),
        TokenKind::LBrace => "{".to_owned(),
        TokenKind::RBrace => "}".to_owned(),
        TokenKind::LBracket => "[".to_owned(),
        TokenKind::RBracket => "]".to_owned(),
        TokenKind::Comma => ",".to_owned(),
        TokenKind::Semicolon => ";".to_owned(),
        TokenKind::Colon => ":".to_owned(),
        TokenKind::ColonColon => "::".to_owned(),
        TokenKind::Dot => ".".to_owned(),
        TokenKind::Arrow => "->".to_owned(),
        TokenKind::Bang => "!".to_owned(),
        TokenKind::Pound => "#".to_owned(),
        TokenKind::Eq => "=".to_owned(),
        TokenKind::EqEq => "==".to_owned(),
        TokenKind::Ne => "!=".to_owned(),
        TokenKind::Lt => "<".to_owned(),
        TokenKind::Gt => ">".to_owned(),
        TokenKind::Le => "<=".to_owned(),
        TokenKind::Ge => ">=".to_owned(),
        TokenKind::Plus => "+".to_owned(),
        TokenKind::Minus => "-".to_owned(),
        TokenKind::Star => "*".to_owned(),
        TokenKind::Slash => "/".to_owned(),
        TokenKind::Percent => "%".to_owned(),
        TokenKind::Ampersand => "&".to_owned(),
        TokenKind::AmpAmp => "&&".to_owned(),
        TokenKind::PipePipe => "||".to_owned(),
        _ => "".to_owned(),
    }
}

/// The symbol that starts with `c`, given the character after it, and its
/// length. The longer symbol wins.
pub open spec fn symbol(c: char, next: char) -> Option<(TokenKindM, int)> {
    if c == '(' {
        Some((TokenKindM::LParen, 1))
    } else if c == ')' {
        Some((TokenKindM::RParen, 1))
    } else if c == '{' {
        Some((TokenKindM::LBrace, 1))
    } else if c == '}' {
        Some((TokenKindM::RBrace, 1))
    } else if c == '[' {
        Some((TokenKindM::LBracket, 1))
    } else if c == ']' {
        Some((TokenKindM::RBracket, 1))
    } else if c == ',' {
        Some((TokenKindM::Comma, 1))
    } else if c == ';' {
        Some((TokenKindM::Semicolon, 1))
    } else if c == '.' {
        Some((TokenKindM::Dot, 1))
    } else if c == '#' {
        Some((TokenKindM::Pound, 1))
    } else if c == '+' {
        Some((TokenKindM::Plus, 1))
    } else if c == '*' {
        Some((TokenKindM::Star, 1))
    } else if c == '/' {
        Some((TokenKindM::Slash, 1))
    } else if c == '%' {
        Some((TokenKindM::Percent, 1))
    } else if c == ':' {
        if next == ':' {
            Some((TokenKindM::ColonColon, 2))
        } else {
            Some((TokenKindM::Colon, 1))
        }
    } else if c == '-' {
        if next == '>' {
            Some((TokenKindM::Arrow, 2))
        } else {
            Some((TokenKindM::Minus, 1))
        }
    } else if c == '=' {
        if next == '=' {
            Some((TokenKindM::EqEq, 2))
        } else {
            Some((TokenKindM::Eq, 1))
        }
    } else if c == '!' {
        if next == '=' {
            Some((TokenKindM::Ne, 2))
        } else {
            Some((TokenKindM::Bang, 1))
        }
    } else if c == '<' {
        if next == '=' {
            Some((TokenKindM::Le, 2))
        } else {
            Some((TokenKindM::Lt, 1))
        }
    } else if c == '>' {
        if next == '=' {
            Some((TokenKindM::Ge, 2))
        } else {
            Some((TokenKindM::Gt, 1))
        }
    } else if c == '&' {
        if next == '&' {
            Some((TokenKindM::AmpAmp, 2))
        } else {
            Some((TokenKindM::Ampersand, 1))
        }
    } else if c == '|' && next == '|' {
        Some((TokenKindM::PipePipe, 2))
    } else {
        None
    }
}

fn symbol_kind(c: char, next: char) -> (r: Option<(TokenKind, usize)>)
    ensures
        match r {
            Some(p) => symbol(c, next) == Some((p.0@, p.1 as int)) && 1 <= p.1 <= 2,
            None => symbol(c, next) is None,
        },
        r matches Some(p) ==> p.1 == 2 ==> next != '\0',
{
    if c == '(' {
        Some((TokenKind::LParen, 1))
    } else if c == ')' {
        Some((TokenKind::RParen, 1))
    } else if c == '{' {
        Some((TokenKind::LBrace, 1))
    } else if c == '}' {
        Some((TokenKind::RBrace, 1))
    } else if c == '[' {
        Some((TokenKind::LBracket, 1))
    } else if c == ']' {
        Some((TokenKind::RBracket, 1))
    } else if c == ',' {
        Some((TokenKind::Comma, 1))
    } else if c == ';' {
        Some((TokenKind::Semicolon, 1))
    } else if c == '.' {
        Some((TokenKind::Dot, 1))
    } else if c == '#' {
        Some((TokenKind::Pound, 1))
    } else if c == '+' {
        Some((TokenKind::Plus, 1))
    } else if c == '*' {
        Some((TokenKind::Star, 1))
    } else if c == '/' {
        Some((TokenKind::Slash, 1))
    } else if c == '%' {
        Some((TokenKind::Percent, 1))
    } else if c == ':' {
        if next == ':' {
            Some((TokenKind::ColonColon, 2))
        } else {
            Some((TokenKind::Colon, 1))
        }
    } else if c == '-' {
        if next == '>' {
            Some((TokenKind::Arrow, 2))
        } else {
            Some((TokenKind::Minus, 1))
        }
    } else if c == '=' {
        if next == '=' {
            Some((TokenKind::EqEq, 2))
        } else {
            Some((TokenKind::Eq, 1))
        }
    } else if c == '!' {
        if next == '=' {
            Some((TokenKind::Ne, 2))
        } else {
            Some((TokenKind::Bang, 1))
        }
    } else if c == '<' {
        if next == '=' {
            Some((TokenKind::Le, 2))
        } else {
            Some((TokenKind::Lt, 1))
        }
    } else if c == '>' {
        if next == '=' {
            Some((TokenKind::Ge, 2))
        } else {
            Some((TokenKind::Gt, 1))
        }
    } else if c == '&' {
        if next == '&' {
            Some((TokenKind::AmpAmp, 2))
        } else {
            Some((TokenKind::Ampersand, 1))
        }
    } else if c == '|' && next == '|' {
        Some((TokenKind::PipePipe, 2))
    } else {
        None
    }
}

// ---------------------------------------------------------------------------
// What the lexer reads at a position
// ---------------------------------------------------------------------------

/// The character at `i`, and NUL past the end of the text.
pub open spec fn char_at(s: Seq<char>, i: int) -> char {
    if 0 <= i < s.len() {
        s[i]
    } else {
        '\0'
    }
}

/// The 1-based line of the position `p`.
pub open spec fn line_at(s: Seq<char>, p: int) -> nat
    decreases p,
{
    if p <= 0 {
        1
    } else if s[p - 1] == '\n' {
        line_at(s, p - 1) + 1
    } else {
        line_at(s, p - 1)
    }
}

/// The 1-based column of the position `p`.
pub open spec fn col_at(s: Seq<char>, p: int) -> nat
    decreases p,
{
    if p <= 0 || s[p - 1] == '\n' {
        1
    } else {
        col_at(s, p - 1) + 1
    }
}

/// What a stretch of source text is.
pub enum ScanM {
    /// White space or a comment.
    Skip,
    /// A token, with its lexeme.
    Tok(TokenKindM, Seq<char>),
    /// An error, with its code and message.
    Bad(Seq<char>, Seq<char>),
}

/// A stretch of source text: what it is, and where it ends.
pub struct StepM {
    pub end: int,
    pub scan: ScanM,
}

/// A float lexeme with a digit on both sides of the point.
pub open spec fn normal_float(lexeme: Seq<char>) -> Seq<char> {
    let s = if lexeme.len() > 0 && lexeme[0] == '.' {
        seq!['0'] + lexeme
    } else {
        lexeme
    };
    if s.len() > 0 && s.last() == '.' {
        s.push('0')
    } else {
        s
    }
}

/// A number: digits, or digits with a point among, before or after them.
pub open spec fn number_at(s: Seq<char>, p: int) -> StepM {
    let a = text::run_end(s, p, Class::Digit);
    if char_at(s, a) == '.' {
        let b = text::run_end(s, a + 1, Class::Digit);
        let lexeme = s.subrange(p, b);
        StepM { end: b, scan: ScanM::Tok(TokenKindM::FloatLit(normal_float(lexeme)), lexeme) }
    } else {
        let lexeme = s.subrange(p, a);
        let n = text::digits_value(lexeme);
        StepM {
            end: a,
            scan: if n <= i64::MAX {
                ScanM::Tok(TokenKindM::IntLit(n as i64), lexeme)
            } else {
                ScanM::Bad("E102"@, "integer literal `"@ + lexeme + "` out of range"@)
            },
        }
    }
}

/// An identifier or a keyword.
pub open spec fn ident_at(s: Seq<char>, p: int) -> StepM {
    let e = text::run_end(s, p, Class::Ident);
    let lexeme = s.subrange(p, e);
    let kind = match keyword(lexeme) {
        Some(k) => k,
        None => TokenKindM::Ident,
    };
    StepM { end: e, scan: ScanM::Tok(kind, lexeme) }
}

/// The rest of a string literal from `i` on, when `value` has been read. Each
/// character stands for itself, a backslash and a line feed too; only the end of
/// the text leaves the literal unterminated.
pub open spec fn string_rest(s: Seq<char>, i: int, value: Seq<char>) -> StepM
    decreases s.len() - i,
{
    if i < 0 || i >= s.len() {
        StepM { end: i, scan: ScanM::Bad("E103"@, "unterminated string literal"@) }
    } else if s[i] == '"' {
        StepM {
            end: i + 1,
            scan: ScanM::Tok(TokenKindM::StringLit(value), "\""@ + value + "\""@),
        }
    } else {
        string_rest(s, i + 1, value.push(s[i]))
    }
}

/// Where reading goes on after a char literal that does not end at `i`: after
/// the next quote, or before the next line feed.
pub open spec fn char_recovery(s: Seq<char>, i: int) -> int
    decreases s.len() - i,
{
    if i < 0 || i >= s.len() || s[i] == '\n' {
        i
    } else if s[i] == '\'' {
        i + 1
    } else {
        char_recovery(s, i + 1)
    }
}

/// The end of a char literal that holds `c`: a quote must stand at `q`.
pub open spec fn char_end(s: Seq<char>, q: int, c: char) -> StepM {
    if char_at(s, q) == '\'' {
        StepM {
            end: q + 1,
            scan: ScanM::Tok(TokenKindM::CharLit(c as u32), "'"@ + seq![c] + "'"@),
        }
    } else {
        StepM {
            end: char_recovery(s, q),
            scan: ScanM::Bad(
                "E104"@,
                "unterminated char literal (expected a single character)"@,
            ),
        }
    }
}

/// A char literal: exactly one character between quotes.
pub open spec fn char_lit_at(s: Seq<char>, p: int) -> StepM {
    if p + 1 >= s.len() {
        StepM { end: p + 1, scan: ScanM::Bad("E104"@, "unterminated char literal"@) }
    } else if s[p + 1] == '\'' {
        StepM { end: p + 2, scan: ScanM::Bad("E104"@, "empty char literal"@) }
    } else {
        char_end(s, p + 2, s[p + 1])
    }
}

/// A symbol, of one or two characters.
pub open spec fn symbol_at(s: Seq<char>, p: int) -> StepM {
    match symbol(s[p], char_at(s, p + 1)) {
        Some((kind, n)) => StepM { end: p + n, scan: ScanM::Tok(kind, symbol_text(kind)) },
        None => StepM {
            end: p + 1,
            scan: if s[p] == '|' {
                ScanM::Bad("E105"@, "unexpected character `|` (did you mean `||`?)"@)
            } else {
                ScanM::Bad("E105"@, "unexpected character `"@ + seq![s[p]] + "`"@)
            },
        },
    }
}

/// What the lexer reads at the position `p` of the text.
pub open spec fn step_at(s: Seq<char>, p: int) -> StepM {
    let c = s[p];
    let next = char_at(s, p + 1);
    if c == ' ' || c == '\t' || c == '\r' || c == '\n' {
        StepM { end: p + 1, scan: ScanM::Skip }
    } else if c == '/' && next == '/' {
        StepM { end: text::run_end(s, p, Class::Not('\n')), scan: ScanM::Skip }
    } else if text::is_digit(c) || (c == '.' && text::is_digit(next)) {
        number_at(s, p)
    } else if text::ident_start(c) {
        ident_at(s, p)
    } else if c == '"' {
        string_rest(s, p + 1, Seq::empty())
    } else if c == '\'' {
        char_lit_at(s, p)
    } else {
        symbol_at(s, p)
    }
}

// ---------------------------------------------------------------------------
// Lexing a text
// ---------------------------------------------------------------------------

/// What lexing yields: tokens and errors, in the order of the source.
pub struct LexedM {
    pub tokens: Seq<TokenM>,
    pub diags: Seq<DiagM>,
}

/// An error at the position `p`.
pub open spec fn lex_diag(
    s: Seq<char>,
    file: Seq<char>,
    p: int,
    code: Seq<char>,
    msg: Seq<char>,
) -> DiagM {
    error::plain_diag(
        code,
        msg,
        file,
        line_at(s, p),
        col_at(s, p),
        error::source_line(s, line_at(s, p)),
    )
}

/// What is known after the step at `p`, when `acc` was known before it.
pub open spec fn after_step(s: Seq<char>, file: Seq<char>, p: int, acc: LexedM) -> LexedM {
    match step_at(s, p).scan {
        ScanM::Skip => acc,
        ScanM::Tok(kind, lexeme) => LexedM {
            tokens: acc.tokens.push(
                TokenM { kind, lexeme, line: line_at(s, p), col: col_at(s, p) },
            ),
            ..acc
        },
        ScanM::Bad(code, msg) => LexedM {
            diags: acc.diags.push(lex_diag(s, file, p, code, msg)),
            ..acc
        },
    }
}

/// Lexes the text from `p` on; an end-of-input token comes last.
pub open spec fn lex_from(s: Seq<char>, file: Seq<char>, p: int, acc: LexedM) -> LexedM
    decreases s.len() - p,
    when 0 <= p
    via lex_from_decreases
{
    if p >= s.len() {
        LexedM {
            tokens: acc.tokens.push(
                TokenM {
                    kind: TokenKindM::Eof,
                    lexeme: Seq::empty(),
                    line: line_at(s, p),
                    col: col_at(s, p),
                },
            ),
            ..acc
        }
    } else {
        lex_from(s, file, step_at(s, p).end, after_step(s, file, p, acc))
    }
}

/// The tokens and errors of a whole text.
pub open spec fn lex(s: Seq<char>, file: Seq<char>) -> LexedM {
    lex_from(s, file, 0, LexedM { tokens: Seq::empty(), diags: Seq::empty() })
}

#[via_fn]
proof fn lex_from_decreases(s: Seq<char>, file: Seq<char>, p: int, acc: LexedM) {
    if p < s.len() {
        step_progress(s, p);
    }
}

proof fn string_rest_progress(s: Seq<char>, i: int, value: Seq<char>)
    requires
        0 <= i <= s.len(),
    ensures
        i <= string_rest(s, i, value).end <= s.len(),
    decreases s.len() - i,
{
    if i < s.len() && s[i] != '"' {
        string_rest_progress(s, i + 1, value.push(s[i]));
    }
}

proof fn char_recovery_progress(s: Seq<char>, i: int)
    requires
        0 <= i <= s.len(),
    ensures
        i <= char_recovery(s, i) <= s.len(),
    decreases s.len() - i,
{
    if i < s.len() && s[i] != '\n' && s[i] != '\'' {
        char_recovery_progress(s, i + 1);
    }
}

/// Each step goes forward and stays inside the text.
pub proof fn step_progress(s: Seq<char>, p: int)
    requires
        0 <= p < s.len(),
    ensures
        p < step_at(s, p).end <= s.len(),
{
    let c = s[p];
    let next = char_at(s, p + 1);
    if c == ' ' || c == '\t' || c == '\r' || c == '\n' {
    } else if c == '/' && next == '/' {
        text::run_end_spec(s, p + 1, Class::Not('\n'));
    } else if text::is_digit(c) || (c == '.' && text::is_digit(next)) {
        if text::is_digit(c) {
            text::run_end_spec(s, p + 1, Class::Digit);
        }
        let a = text::run_end(s, p, Class::Digit);
        if a < s.len() {
            text::run_end_spec(s, a + 1, Class::Digit);
        }
    } else if text::ident_start(c) {
        text::run_end_spec(s, p + 1, Class::Ident);
    } else if c == '"' {
        string_rest_progress(s, p + 1, Seq::empty());
    } else if c == '\'' {
        if p + 1 < s.len() && s[p + 1] != '\'' {
            char_recovery_progress(s, p + 2);
        }
    } else {
    }
}

/// The line and the column of a position are at least 1 and do not pass the
/// position by more than 1.
pub proof fn place_bounds(s: Seq<char>, p: int)
    requires
        0 <= p,
    ensures
        1 <= line_at(s, p) <= p + 1,
        1 <= col_at(s, p) <= p + 1,
    decreases p,
{
    if p > 0 {
        place_bounds(s, p - 1);
    }
}

// ---------------------------------------------------------------------------
// The lexer
// ---------------------------------------------------------------------------

enum Scan {
    Skip,
    Tok(TokenKind, String),
    Bad(&'static str, String),
}

spec fn scan_view(s: Scan) -> ScanM {
    match s {
        Scan::Skip => ScanM::Skip,
        Scan::Tok(k, l) => ScanM::Tok(k@, l@),
        Scan::Bad(c, m) => ScanM::Bad(c@, m@),
    }
}

pub fn is_ident_start(c: char) -> (r: bool)
    ensures
        r == text::ident_start(c),
{
    text::test_ident_start(c)
}

pub fn is_ident_continue(c: char) -> (r: bool)
    ensures
        r == text::ident_char(c),
{
    text::test_ident_char(c)
}

/// Normalize a Jo float lexeme so that a digit stands on both sides of the
/// point: `12.` gives `12.0`, `.3` gives `0.3`, `0.5` stays.
pub fn normalize_float(lexeme: &str) -> (r: String)
    ensures
        r@ == normal_float(lexeme@),
{
    let v = text::to_chars(lexeme);
    let mut s = if v.len() > 0 && v[0] == '.' {
        proof {
            reveal_strlit("0");
            assert("0"@ =~= seq!['0']);
        }
        text::cat2("0", lexeme)
    } else {
        lexeme.to_owned()
    };
    let w = text::to_chars(s.as_str());
    if w.len() > 0 && w[w.len() - 1] == '.' {
        s.push('0');
    }
    s
}

fn one_char(c: char) -> (s: String)
    ensures
        s@ == seq![c],
{
    let mut s = String::new();
    s.push(c);
    assert(s@ =~= seq![c]);
    s
}

fn peek(v: &Vec<char>, i: usize) -> (c: char)
    ensures
        c == char_at(v@, i as int),
{
    if i < v.len() {
        v[i]
    } else {
        '\0'
    }
}

fn scan_number(v: &Vec<char>, p: usize) -> (r: (usize, Scan))
    requires
        p < v.len(),
        text::is_digit(v@[p as int]) || v@[p as int] == '.',
    ensures
        (StepM { end: r.0 as int, scan: scan_view(r.1) }) == number_at(v@, p as int),
        r.0 <= v@.len(),
{
    let a = text::skip_run(v, p, Class::Digit);
    if a < v.len() && v[a] == '.' {
        let b = text::skip_run(v, a + 1, Class::Digit);
        let lexeme = text::slice_text(v, p, b);
        (b, Scan::Tok(TokenKind::FloatLit(normalize_float(lexeme.as_str())), lexeme))
    } else {
        let digits = text::slice_chars(v, p, a);
        let lexeme = text::slice_text(v, p, a);
        proof {
            text::run_end_spec(v@, p as int, Class::Digit);
            assert(a > p);
            assert forall|i: int| 0 <= i < digits@.len() implies text::is_digit(
                #[trigger] digits@[i],
            ) by {
                assert(text::in_class(v@[p + i], Class::Digit));
            }
        }
        match text::parse_digits(&digits, i64::MAX as u64) {
            Some(n) => (a, Scan::Tok(TokenKind::IntLit(n as i64), lexeme)),
            None => (
                a,
                Scan::Bad(
                    "E102",
                    text::cat3("integer literal `", lexeme.as_str(), "` out of range"),
                ),
            ),
        }
    }
}

fn scan_ident(v: &Vec<char>, p: usize) -> (r: (usize, Scan))
    requires
        p < v.len(),
    ensures
        (StepM { end: r.0 as int, scan: scan_view(r.1) }) == ident_at(v@, p as int),
        r.0 <= v@.len(),
{
    let e = text::skip_run(v, p, Class::Ident);
    let lexeme = text::slice_text(v, p, e);
    let kind = match keyword_kind(lexeme.as_str()) {
        Some(k) => k,
        None => TokenKind::Ident,
    };
    (e, Scan::Tok(kind, lexeme))
}

/// `p` is the position after the opening quote.
fn scan_string(v: &Vec<char>, p: usize) -> (r: (usize, Scan))
    requires
        p <= v.len(),
    ensures
        (StepM { end: r.0 as int, scan: scan_view(r.1) }) == string_rest(
            v@,
            p as int,
            Seq::empty(),
        ),
        r.0 <= v@.len(),
{
    let mut value = String::new();
    let mut i: usize = p;
    loop
        invariant
            i <= v@.len(),
            string_rest(v@, p as int, Seq::empty()) == string_rest(v@, i as int, value@),
        decreases v@.len() - i,
    {
        if i >= v.len() {
            return (i, Scan::Bad("E103", "unterminated string literal".to_owned()));
        }
        let c = v[i];
        if c == '"' {
            let lexeme = text::cat3("\"", value.as_str(), "\"");
            return (i + 1, Scan::Tok(TokenKind::StringLit(value), lexeme));
        }
        value.push(c);
        i = i + 1;
    }
}

fn finish_char(v: &Vec<char>, q: usize, c: char) -> (r: (usize, Scan))
    requires
        q <= v.len(),
    ensures
        (StepM { end: r.0 as int, scan: scan_view(r.1) }) == char_end(v@, q as int, c),
        r.0 <= v@.len(),
{
    if q < v.len() && v[q] == '\'' {
        let lexeme = text::cat3("'", one_char(c).as_str(), "'");
        return (q + 1, Scan::Tok(TokenKind::CharLit(c as u32), lexeme));
    }
    let mut i: usize = q;
    while i < v.len() && v[i] != '\n' && v[i] != '\''
        invariant
            q <= i <= v@.len(),
            char_recovery(v@, q as int) == char_recovery(v@, i as int),
        decreases v@.len() - i,
    {
        i = i + 1;
    }
    if i < v.len() && v[i] == '\'' {
        i = i + 1;
    }
    (
        i,
        Scan::Bad("E104", "unterminated char literal (expected a single character)".to_owned()),
    )
}

fn scan_char(v: &Vec<char>, p: usize) -> (r: (usize, Scan))
    requires
        p < v.len(),
    ensures
        (StepM { end: r.0 as int, scan: scan_view(r.1) }) == char_lit_at(v@, p as int),
        r.0 <= v@.len(),
{
    if p + 1 >= v.len() {
        return (p + 1, Scan::Bad("E104", "unterminated char literal".to_owned()));
    }
    let first = v[p + 1];
    if first == '\'' {
        return (p + 2, Scan::Bad("E104", "empty char literal".to_owned()));
    }
    finish_char(v, p + 2, first)
}

fn scan_symbol(v: &Vec<char>, p: usize) -> (r: (usize, Scan))
    requires
        p < v.len(),
    ensures
        (StepM { end: r.0 as int, scan: scan_view(r.1) }) == symbol_at(v@, p as int),
        r.0 <= v@.len(),
{
    let c = v[p];
    let next = peek(v, p + 1);
    match symbol_kind(c, next) {
        Some((kind, n)) => {
            let lexeme = symbol_lexeme(&kind);
            (p + n, Scan::Tok(kind, lexeme))
        },
        None => {
            if c == '|' {
                (
                    p + 1,
                    Scan::Bad(
                        "E105",
                        "unexpected character `|` (did you mean `||`?)".to_owned(),
                    ),
                )
            } else {
                (
                    p + 1,
                    Scan::Bad(
                        "E105",
                        text::cat3("unexpected character `", one_char(c).as_str(), "`"),
                    ),
                )
            }
        },
    }
}

fn scan_token(v: &Vec<char>, p: usize) -> (r: (usize, Scan))
    requires
        p < v.len(),
    ensures
        (StepM { end: r.0 as int, scan: scan_view(r.1) }) == step_at(v@, p as int),
        r.0 <= v@.len(),
{
    let c = v[p];
    let next = peek(v, p + 1);
    if c == ' ' || c == '\t' || c == '\r' || c == '\n' {
        (p + 1, Scan::Skip)
    } else if c == '/' && next == '/' {
        (text::skip_run(v, p, Class::Not('\n')), Scan::Skip)
    } else if text::test_digit(c) || (c == '.' && text::test_digit(next)) {
        scan_number(v, p)
    } else if is_ident_start(c) {
        scan_ident(v, p)
    } else if c == '"' {
        scan_string(v, p + 1)
    } else if c == '\'' {
        scan_char(v, p)
    } else {
        scan_symbol(v, p)
    }
}

/// Where what stands at `p` ends, and its kind if it is a token.
pub fn read_token(v: &Vec<char>, p: usize) -> (r: (usize, Option<TokenKind>))
    requires
        p < v.len(),
    ensures
        r.0 == step_at(v@, p as int).end,
        p < r.0 <= v@.len(),
        match step_at(v@, p as int).scan {
            ScanM::Tok(kind, _) => r.1 is Some && r.1->0@ == kind,
            _ => r.1 is None,
        },
{
    proof {
        step_progress(v@, p as int);
    }
    let (end, scan) = scan_token(v, p);
    match scan {
        Scan::Tok(kind, _) => (end, Some(kind)),
        _ => (end, None),
    }
}

pub struct Lexer {
    chars: Vec<char>,
    src: String,
    file: String,
}

impl Lexer {
    /// The source text.
    pub closed spec fn source(&self) -> Seq<char> {
        self.chars@
    }

    /// The name of the source file.
    pub closed spec fn file_name(&self) -> Seq<char> {
        self.file@
    }

    #[verifier::type_invariant]
    spec fn wf(self) -> bool {
        self.src@ == self.chars@
    }

    pub fn new(src: &str, file: &str) -> (r: Lexer)
        ensures
            r.source() == src@,
            r.file_name() == file@,
    {
        Lexer { chars: text::to_chars(src), src: src.to_owned(), file: file.to_owned() }
    }

    /// Tokenize the whole input. On any error, returns the collected diagnostics.
    pub fn tokenize(self) -> (r: Result<Vec<Token>, Vec<Diagnostic>>)
        requires
            self.source().len() < usize::MAX,
        ensures
            match r {
                Ok(tokens) => {
                    &&& lex(self.source(), self.file_name()).diags.len() == 0
                    &&& tokens_view(tokens@) == lex(self.source(), self.file_name()).tokens
                },
                Err(diags) => {
                    &&& diags@.len() > 0
                    &&& error::diags_view(diags@) == lex(self.source(), self.file_name()).diags
                },
            },
    {
        proof {
            use_type_invariant(&self);
        }
        let mut tokens: Vec<Token> = Vec::new();
        let mut diags: Vec<Diagnostic> = Vec::new();
        let mut pos: usize = 0;
        let mut line: usize = 1;
        let mut col: usize = 1;
        let ghost s = self.chars@;
        let ghost file = self.file@;
        assert(tokens_view(tokens@) =~= Seq::<TokenM>::empty());
        assert(error::diags_view(diags@) =~= Seq::<DiagM>::empty());
        while pos < self.chars.len()
            invariant
                s == self.chars@,
                s == self.src@,
                file == self.file@,
                s.len() < usize::MAX,
                pos <= s.len(),
                line == line_at(s, pos as int),
                col == col_at(s, pos as int),
                lex(s, file) == lex_from(
                    s,
                    file,
                    pos as int,
                    LexedM { tokens: tokens_view(tokens@), diags: error::diags_view(diags@) },
                ),
            decreases s.len() - pos,
        {
            proof {
                step_progress(s, pos as int);
            }
            let ghost before_tokens = tokens@;
            let ghost before_diags = diags@;
            let (end, scan) = scan_token(&self.chars, pos);
            match scan {
                Scan::Skip => {},
                Scan::Tok(kind, lexeme) => {
                    tokens.push(Token { kind, lexeme, line, col });
                    assert(tokens_view(tokens@) =~= tokens_view(before_tokens).push(
                        tokens@.last()@,
                    ));
                },
                Scan::Bad(code, msg) => {
                    let text_line = error::source_line_of(self.src.as_str(), line);
                    diags.push(
                        Diagnostic::new(code, msg, self.file.clone(), line, col, text_line),
                    );
                    assert(error::diags_view(diags@) =~= error::diags_view(before_diags).push(
                        diags@.last()@,
                    ));
                },
            }
            while pos < end
                invariant
                    s == self.chars@,
                    s.len() < usize::MAX,
                    pos <= end <= s.len(),
                    line == line_at(s, pos as int),
                    col == col_at(s, pos as int),
                decreases end - pos,
            {
                proof {
                    place_bounds(s, pos as int);
                }
                if self.chars[pos] == '\n' {
                    line = line + 1;
                    col = 1;
                } else {
                    col = col + 1;
                }
                pos = pos + 1;
            }
        }
        let ghost before_tokens = tokens@;
        tokens.push(Token { kind: TokenKind::Eof, lexeme: String::new(), line, col });
        assert(tokens_view(tokens@) =~= tokens_view(before_tokens).push(tokens@.last()@));
        if diags.len() == 0 {
            Ok(tokens)
        } else {
            Err(diags)
        }
    }
}

} // verus!
