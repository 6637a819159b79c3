//! Hand-written recursive-descent parser for Jo.

use vstd::prelude::*;

use crate::ast;
use crate::ast::{
    AsmLine, AsmStmt, AsmToken, AssignStmt, BinaryOp, Block, Expr, ExprKind, ExtendDecl,
    FieldDecl, FnDecl, IfStmt, ImportDecl, ImportKind, Item, LValue, LetStmt, Param, ParamKind,
    Program, ReturnStmt, Span, Stmt, StructDecl, StructName, Type, UnaryOp, WhileStmt,
};
use crate::error;
use crate::error::Diagnostic;
use crate::grammar;
use crate::grammar::{At, InputM};
use crate::lexer;
use crate::lexer::{Token, TokenKind};
use crate::text;
use crate::types;

verus! {

pub struct Parser<'a> {
    tokens: Vec<Token>,
    pos: usize,
    file: String,
    src: &'a str,
    diags: Vec<Diagnostic>,
}

/// Parsing that started with `before` has come to `e`.
spec fn moved(before: Parser, after: Parser, e: At) -> bool {
    &&& after.wf()
    &&& after.input() == before.input()
    &&& after.at() == e
}

/// How a diagnostic speaks of a token.
fn describe_token(tok: &Token) -> (r: String)
    ensures
        r@ == grammar::described(tok@),
{
    match &tok.kind {
        TokenKind::Eof => "end of input".to_owned(),
        TokenKind::Ident => text::cat3("identifier `", tok.lexeme.as_str(), "`"),
        TokenKind::IntLit(_) => text::cat3("integer `", tok.lexeme.as_str(), "`"),
        TokenKind::FloatLit(_) => text::cat3("float `", tok.lexeme.as_str(), "`"),
        TokenKind::StringLit(_) => "string literal".to_owned(),
        TokenKind::CharLit(_) => text::cat3("char `", tok.lexeme.as_str(), "`"),
        TokenKind::BoolLit(b) => {
            if *b {
                "`true`".to_owned()
            } else {
                "`false`".to_owned()
            }
        },
        _ => {
            if !tok.lexeme.as_str().is_empty() {
                text::cat3("`", tok.lexeme.as_str(), "`")
            } else {
                lexer::name_of_kind(&tok.kind).to_owned()
            }
        },
    }
}

/// Ends the current line of an asm block.
fn flush(lines: &mut Vec<AsmLine>, current: Vec<AsmToken>)
    ensures
        ast::asm_lines_view(final(lines)@) == grammar::flushed(
            ast::asm_lines_view(old(lines)@),
            ast::asm_tokens_view(current@),
        ),
{
    if current.len() > 0 {
        lines.push(AsmLine { tokens: current });
        assert(ast::asm_lines_view(lines@) =~= ast::asm_lines_view(old(lines)@).push(
            ast::asm_tokens_view(current@),
        ));
    }
}

impl<'a> Parser<'a> {
    /// What is parsed.
    pub closed spec fn input(&self) -> InputM {
        InputM { toks: lexer::tokens_view(self.tokens@), file: self.file@, src: self.src@ }
    }

    /// How far parsing has come.
    pub closed spec fn at(&self) -> At {
        At { pos: self.pos as nat, diags: error::diags_view(self.diags@) }
    }

    spec fn wf(&self) -> bool {
        grammar::ends(self.input(), self.pos as nat)
    }

    pub fn new(tokens: Vec<Token>, file: &str, src: &'a str) -> (r: Parser<'a>)
        ensures
            r.input() == (InputM { toks: lexer::tokens_view(tokens@), file: file@, src: src@ }),
            r.at() == grammar::start(),
    {
        let diags: Vec<Diagnostic> = Vec::new();
        assert(error::diags_view(diags@) =~= Seq::empty());
        Parser { tokens, pos: 0, file: file.to_owned(), src, diags }
    }

    // --- token helpers -------------------------------------------------------

    fn peek(&self) -> (r: &Token)
        requires
            self.wf(),
        ensures
            r@ == grammar::tok_at(self.input(), self.at().pos),
            grammar::span_of(r@) == (Span { line: r.line, col: r.col }),
    {
        proof {
            reveal(grammar::ends);
        }
        &self.tokens[self.pos]
    }

    fn peek_kind(&self) -> (r: &TokenKind)
        requires
            self.wf(),
        ensures
            r@ == grammar::kind_at(self.input(), self.at().pos),
    {
        &self.peek().kind
    }

    fn peek_at(&self, n: usize) -> (r: &TokenKind)
        requires
            self.wf(),
        ensures
            r@ == grammar::kind_at(self.input(), self.at().pos + n as nat),
    {
        if n < self.tokens.len() && self.pos < self.tokens.len() - n {
            &self.tokens[self.pos + n].kind
        } else {
            &TokenKind::Eof
        }
    }

    fn check(&self, kind: &TokenKind) -> (r: bool)
        requires
            self.wf(),
            lexer::plain_kind(kind@),
        ensures
            r == (grammar::kind_at(self.input(), self.at().pos) == kind@),
    {
        lexer::is_kind(self.peek_kind(), kind)
    }

    fn at_end(&self) -> (r: bool)
        requires
            self.wf(),
        ensures
            r == (grammar::kind_at(self.input(), self.at().pos) is Eof),
    {
        matches!(self.peek_kind(), TokenKind::Eof)
    }

    /// Takes the current token, which is not the last one.
    fn bump(&mut self)
        requires
            old(self).wf(),
            !(grammar::kind_at(old(self).input(), old(self).at().pos) is Eof),
        ensures
            moved(*old(self), *final(self), grammar::skip(old(self).at())),
            old(self).at().pos < old(self).input().toks.len(),
    {
        proof {
            reveal(grammar::ends);
        }
        assert(self.pos < self.tokens.len());
        self.pos = self.pos + 1;
    }

    /// Takes the current token, which is not the last one, and gives its text.
    fn advance(&mut self) -> (r: String)
        requires
            old(self).wf(),
            !(grammar::kind_at(old(self).input(), old(self).at().pos) is Eof),
        ensures
            moved(*old(self), *final(self), grammar::skip(old(self).at())),
            r@ == grammar::tok_at(old(self).input(), old(self).at().pos).lexeme,
            old(self).at().pos < old(self).input().toks.len(),
    {
        let lexeme = self.peek().lexeme.clone();
        self.bump();
        lexeme
    }

    fn eat(&mut self, kind: &TokenKind) -> (r: bool)
        requires
            old(self).wf(),
            lexer::plain_kind(kind@),
            !(kind@ is Eof),
        ensures
            r == (grammar::kind_at(old(self).input(), old(self).at().pos) == kind@),
            moved(
                *old(self),
                *final(self),
                if r {
                    grammar::skip(old(self).at())
                } else {
                    old(self).at()
                },
            ),
            r ==> old(self).at().pos < old(self).input().toks.len(),
    {
        if self.check(kind) {
            self.bump();
            true
        } else {
            false
        }
    }

    fn span_here(&self) -> (r: Span)
        requires
            self.wf(),
        ensures
            r == grammar::span_at(self.input(), self.at().pos),
    {
        let t = self.peek();
        Span::new(t.line, t.col)
    }

    /// Takes a token of the given kind, and gives its text.
    fn expect(&mut self, kind: TokenKind, what: &str) -> (r: Option<String>)
        requires
            old(self).wf(),
            lexer::plain_kind(kind@),
            !(kind@ is Eof),
        ensures
            ({
                let out = grammar::expect(old(self).input(), old(self).at(), kind@, what@);
                &&& moved(*old(self), *final(self), out.next(old(self).at()))
                &&& match r {
                    Some(l) => out.val is Some && l@ == out.val->0.lexeme,
                    None => out.val is None,
                }
            }),
    {
        if self.check(&kind) {
            Some(self.advance())
        } else {
            self.error_here(text::cat2("expected ", what).as_str(), what);
            None
        }
    }

    fn error_here(&mut self, msg: &str, label: &str)
        requires
            old(self).wf(),
        ensures
            moved(
                *old(self),
                *final(self),
                At {
                    diags: old(self).at().diags.push(
                        grammar::unexpected(old(self).input(), old(self).at().pos, msg@, label@),
                    ),
                    ..old(self).at()
                },
            ),
    {
        proof {
            reveal(grammar::unexpected);
        }
        let t = self.peek();
        let line = t.line;
        let col = t.col;
        let got = describe_token(t);
        let message = text::cat3(msg, ", found ", got.as_str());
        self.error_at(line, col, "E200", message, label);
    }

    fn error_at(&mut self, line: usize, col: usize, code: &str, msg: String, label: &str)
        requires
            old(self).wf(),
        ensures
            moved(
                *old(self),
                *final(self),
                At {
                    diags: old(self).at().diags.push(
                        grammar::diag_at(
                            old(self).input(),
                            line as nat,
                            col as nat,
                            code@,
                            msg@,
                            label@,
                        ),
                    ),
                    ..old(self).at()
                },
            ),
    {
        let src_line = error::source_line_of(self.src, line);
        let d = Diagnostic::new(code, msg, self.file.clone(), line, col, src_line).with_label(
            label,
        );
        self.diags.push(d);
        assert(error::diags_view(self.diags@) =~= error::diags_view(old(self).diags@).push(d@));
    }

    // --- types ---------------------------------------------------------------

    fn is_type_start(&self) -> (r: bool)
        requires
            self.wf(),
        ensures
            r == grammar::type_start(grammar::kind_at(self.input(), self.at().pos)),
    {
        matches!(
            self.peek_kind(),
            TokenKind::I64 | TokenKind::F64 | TokenKind::Void | TokenKind::Null
                | TokenKind::Ampersand | TokenKind::Ident
        )
    }

    fn parse_type(&mut self) -> (r: Option<Type>)
        requires
            old(self).wf(),
        ensures
            ({
                let out = grammar::type_expr(old(self).input(), old(self).at());
                &&& moved(*old(self), *final(self), out.next(old(self).at()))
                &&& types::opt_type_view(r) == out.val
            }),
        decreases grammar::left(old(self).input(), old(self).at().pos),
    {
        proof {
            reveal(grammar::type_expr);
        }
        match self.peek_kind() {
            TokenKind::I64 => {
                self.bump();
                Some(Type::I64)
            },
            TokenKind::F64 => {
                self.bump();
                Some(Type::F64)
            },
            TokenKind::Void => {
                self.bump();
                Some(Type::Void)
            },
            TokenKind::Null => {
                self.bump();
                Some(Type::Null)
            },
            TokenKind::Ampersand => {
                self.bump();
                if self.eat(&TokenKind::Mut) {
                    let inner = self.parse_type()?;
                    Some(Type::MutRef(Box::new(inner)))
                } else {
                    let inner = self.parse_type()?;
                    Some(Type::Ref(Box::new(inner)))
                }
            },
            TokenKind::Ident => {
                let first = self.advance();
                if self.eat(&TokenKind::ColonColon) {
                    let second = self.expect(TokenKind::Ident, "type name after `::`")?;
                    Some(Type::Qualified(first, second))
                } else {
                    Some(Type::Named(first))
                }
            },
            _ => {
                self.error_here("expected a type", "expected type");
                None
            },
        }
    }

    // --- expressions ---------------------------------------------------------

    fn parse_expr(&mut self) -> (r: Option<Expr>)
        requires
            old(self).wf(),
        ensures
            ({
                let out = grammar::expr(old(self).input(), old(self).at());
                &&& moved(*old(self), *final(self), out.next(old(self).at()))
                &&& ast::opt_expr_view(r) == out.val
            }),
        decreases grammar::left(old(self).input(), old(self).at().pos), 11nat,
    {
        self.parse_cast(true)
    }

    /// Expression in condition position: struct initializers are disabled so
    /// `if x { ... }` parses `x` as the condition and `{ ... }` as the block.
    fn parse_expr_no_struct(&mut self) -> (r: Option<Expr>)
        requires
            old(self).wf(),
        ensures
            ({
                let out = grammar::cast(old(self).input(), old(self).at(), false);
                &&& moved(*old(self), *final(self), out.next(old(self).at()))
                &&& ast::opt_expr_view(r) == out.val
            }),
    {
        self.parse_cast(false)
    }

    #[verifier::rlimit(60)]
    #[verifier::spinoff_prover]
    fn parse_cast(&mut self, allow_struct: bool) -> (r: Option<Expr>)
        requires
            old(self).wf(),
        ensures
            ({
                let out = grammar::cast(old(self).input(), old(self).at(), allow_struct);
                &&& moved(*old(self), *final(self), out.next(old(self).at()))
                &&& ast::opt_expr_view(r) == out.val
            }),
        decreases grammar::left(old(self).input(), old(self).at().pos), 10nat,
    {
        let ghost cx = self.input();
        let ghost s0 = self.at();
        let ghost out = grammar::cast(cx, s0, allow_struct);
        proof {
            reveal(grammar::cast);
            reveal(grammar::binary);
        }
        let mut expr = self.parse_binary(allow_struct, 0)?;
        let mut did_cast = false;
        proof {
            reveal(grammar::cast_rest);
        }
        while self.check(&TokenKind::Arrow)
            invariant
                self.wf(),
                self.input() == cx,
                cx == old(self).input(),
                s0 == old(self).at(),
                self.at().pos >= s0.pos,
                out == grammar::cast(cx, s0, allow_struct),
                out == grammar::through(
                    s0,
                    self.at(),
                    grammar::cast_rest(cx, self.at(), expr@, did_cast),
                ),
            decreases grammar::left(cx, self.at().pos),
        {
            proof {
                reveal(grammar::cast_rest);
            }
            let span = expr.span;
            self.bump();
            let target = self.parse_type();
            match target {
                None => {
                    return None;
                },
                Some(target_type) => {
                    expr = Expr::new(ExprKind::Cast { expr: Box::new(expr), target_type }, span);
                    did_cast = true;
                },
            }
        }
        // `a -> T <binop> b` cannot reattach the operator: cast is the loosest
        // level and its operand is a type, not an expression.
        if did_cast && self.is_binary_op_ahead() {
            let t = self.peek();
            let line = t.line;
            let col = t.col;
            self.error_at(
                line,
                col,
                "E202",
                "a binary operator cannot directly follow a cast; wrap the cast in parentheses".to_owned(),
                "wrap the cast: `(expr -> Type) <op> …`",
            );
            return None;
        }
        Some(expr)
    }

    /// The operator of the given level that the current token is.
    fn operator_ahead(&self, level: usize) -> (r: Option<BinaryOp>)
        requires
            self.wf(),
        ensures
            r == grammar::operator(
                grammar::kind_at(self.input(), self.at().pos),
                level as nat,
            ),
    {
        let k = self.peek_kind();
        if level == 0 {
            match k {
                TokenKind::PipePipe => Some(BinaryOp::Or),
                _ => None,
            }
        } else if level == 1 {
            match k {
                TokenKind::AmpAmp => Some(BinaryOp::And),
                _ => None,
            }
        } else if level == 2 {
            match k {
                TokenKind::EqEq => Some(BinaryOp::Eq),
                TokenKind::Ne => Some(BinaryOp::Ne),
                TokenKind::Lt => Some(BinaryOp::Lt),
                TokenKind::Gt => Some(BinaryOp::Gt),
                TokenKind::Le => Some(BinaryOp::Le),
                TokenKind::Ge => Some(BinaryOp::Ge),
                _ => None,
            }
        } else if level == 3 {
            match k {
                TokenKind::Plus => Some(BinaryOp::Add),
                TokenKind::Minus => Some(BinaryOp::Sub),
                _ => None,
            }
        } else {
            match k {
                TokenKind::Star => Some(BinaryOp::Mul),
                TokenKind::Slash => Some(BinaryOp::Div),
                TokenKind::Percent => Some(BinaryOp::Mod),
                _ => None,
            }
        }
    }

    /// True if the current token is an infix binary operator.
    fn is_binary_op_ahead(&self) -> (r: bool)
        requires
            self.wf(),
        ensures
            r == grammar::is_operator(grammar::kind_at(self.input(), self.at().pos)),
    {
        self.operator_ahead(0).is_some() || self.operator_ahead(1).is_some()
            || self.operator_ahead(2).is_some() || self.operator_ahead(3).is_some()
            || self.operator_ahead(4).is_some()
    }

    /// Operands joined by the operators of the level: `||` (0), `&&` (1),
    /// comparison (2), additive (3) or multiplicative (4) ones.
    #[verifier::rlimit(60)]
    #[verifier::spinoff_prover]
    fn parse_binary(&mut self, allow_struct: bool, level: usize) -> (r: Option<Expr>)
        requires
            old(self).wf(),
            level <= 5,
        ensures
            ({
                let out = grammar::binary(
                    old(self).input(),
                    old(self).at(),
                    allow_struct,
                    level as nat,
                );
                &&& moved(*old(self), *final(self), out.next(old(self).at()))
                &&& ast::opt_expr_view(r) == out.val
            }),
        decreases
                grammar::left(old(self).input(), old(self).at().pos),
                if level < 5 {
                    (9 - level) as nat
                } else {
                    4
                },
    {
        let ghost cx = self.input();
        let ghost s0 = self.at();
        let ghost out = grammar::binary(cx, s0, allow_struct, level as nat);
        proof {
            reveal(grammar::binary);
            reveal(grammar::unary);
        }
        if level >= 5 {
            return self.parse_unary(allow_struct);
        }
        let mut left = self.parse_binary(allow_struct, level + 1)?;
        proof {
            reveal(grammar::binary_rest);
        }
        loop
            invariant
                level < 5,
                self.wf(),
                self.input() == cx,
                cx == old(self).input(),
                s0 == old(self).at(),
                self.at().pos >= s0.pos,
                out == grammar::binary(cx, s0, allow_struct, level as nat),
                out == grammar::through(
                    s0,
                    self.at(),
                    grammar::binary_rest(cx, self.at(), allow_struct, level as nat, left@),
                ),
            decreases grammar::left(cx, self.at().pos),
        {
            proof {
                reveal(grammar::binary);
                reveal(grammar::binary_rest);
            }
            match self.operator_ahead(level) {
                None => {
                    return Some(left);
                },
                Some(op) => {
                    let span = left.span;
                    self.bump();
                    match self.parse_binary(allow_struct, level + 1) {
                        None => {
                            return None;
                        },
                        Some(right) => {
                            left = Expr::new(
                                ExprKind::Binary {
                                    op,
                                    left: Box::new(left),
                                    right: Box::new(right),
                                },
                                span,
                            );
                        },
                    }
                },
            }
        }
    }

    #[verifier::rlimit(60)]
    #[verifier::spinoff_prover]
    fn parse_unary(&mut self, allow_struct: bool) -> (r: Option<Expr>)
        requires
            old(self).wf(),
        ensures
            ({
                let out = grammar::unary(old(self).input(), old(self).at(), allow_struct);
                &&& moved(*old(self), *final(self), out.next(old(self).at()))
                &&& ast::opt_expr_view(r) == out.val
            }),
        decreases grammar::left(old(self).input(), old(self).at().pos), 3nat,
    {
        proof {
            reveal(grammar::unary);
            reveal(grammar::postfix);
        }
        let span = self.span_here();
        match self.peek_kind() {
            TokenKind::Bang => {
                self.bump();
                let operand = self.parse_unary(allow_struct)?;
                Some(
                    Expr::new(
                        ExprKind::Unary { op: UnaryOp::Not, operand: Box::new(operand) },
                        span,
                    ),
                )
            },
            TokenKind::Minus => {
                self.bump();
                let operand = self.parse_unary(allow_struct)?;
                Some(
                    Expr::new(
                        ExprKind::Unary { op: UnaryOp::Neg, operand: Box::new(operand) },
                        span,
                    ),
                )
            },
            TokenKind::Star => {
                self.bump();
                let operand = self.parse_unary(allow_struct)?;
                Some(Expr::new(ExprKind::Deref { operand: Box::new(operand) }, span))
            },
            TokenKind::Ampersand => {
                self.bump();
                let mutable = self.eat(&TokenKind::Mut);
                let operand = self.parse_unary(allow_struct)?;
                Some(Expr::new(ExprKind::Ref { mutable, operand: Box::new(operand) }, span))
            },
            _ => self.parse_postfix(allow_struct),
        }
    }

    #[verifier::rlimit(60)]
    #[verifier::spinoff_prover]
    fn parse_postfix(&mut self, allow_struct: bool) -> (r: Option<Expr>)
        requires
            old(self).wf(),
        ensures
            ({
                let out = grammar::postfix(old(self).input(), old(self).at(), allow_struct);
                &&& moved(*old(self), *final(self), out.next(old(self).at()))
                &&& ast::opt_expr_view(r) == out.val
            }),
        decreases grammar::left(old(self).input(), old(self).at().pos), 2nat,
    {
        let ghost cx = self.input();
        let ghost s0 = self.at();
        let ghost out = grammar::postfix(cx, s0, allow_struct);
        proof {
            reveal(grammar::postfix);
            reveal(grammar::primary);
        }
        let mut expr = self.parse_primary(allow_struct)?;
        proof {
            reveal(grammar::postfix_rest);
        }
        loop
            invariant
                self.wf(),
                self.input() == cx,
                cx == old(self).input(),
                s0 == old(self).at(),
                self.at().pos >= s0.pos,
                out == grammar::postfix(cx, s0, allow_struct),
                out == grammar::through(
                    s0,
                    self.at(),
                    grammar::postfix_rest(cx, self.at(), expr@),
                ),
            decreases grammar::left(cx, self.at().pos),
        {
            proof {
                reveal(grammar::postfix_rest);
                reveal(grammar::arg_list);
            }
            match self.peek_kind() {
                TokenKind::LParen => {
                    let span = expr.span;
                    self.bump();
                    match self.parse_arg_list() {
                        None => {
                            return None;
                        },
                        Some(args) => {
                            if self.expect(TokenKind::RParen, "`)` after arguments").is_none() {
                                return None;
                            }
                            expr = Expr::new(
                                ExprKind::Call { callee: Box::new(expr), args },
                                span,
                            );
                        },
                    }
                },
                TokenKind::Dot => {
                    let span = expr.span;
                    self.bump();
                    match self.expect(TokenKind::Ident, "field or method name after `.`") {
                        None => {
                            return None;
                        },
                        Some(field) => {
                            expr = Expr::new(
                                ExprKind::Field { object: Box::new(expr), field },
                                span,
                            );
                        },
                    }
                },
                _ => {
                    return Some(expr);
                },
            }
        }
    }

    #[verifier::rlimit(60)]
    #[verifier::spinoff_prover]
    fn parse_arg_list(&mut self) -> (r: Option<Vec<Expr>>)
        requires
            old(self).wf(),
        ensures
            ({
                let out = grammar::arg_list(old(self).input(), old(self).at());
                &&& moved(*old(self), *final(self), out.next(old(self).at()))
                &&& match r {
                    Some(args) => out.val == Some(ast::exprs_view(args@)),
                    None => out.val is None,
                }
            }),
        decreases grammar::left(old(self).input(), old(self).at().pos), 12nat,
    {
        let ghost cx = self.input();
        let ghost s0 = self.at();
        let ghost out = grammar::arg_list(cx, s0);
        proof {
            reveal(grammar::arg_list);
            reveal(grammar::args_rest);
        }
        let mut args: Vec<Expr> = Vec::new();
        assert(ast::exprs_view(args@) =~= Seq::empty());
        if self.check(&TokenKind::RParen) {
            return Some(args);
        }
        loop
            invariant
                self.wf(),
                self.input() == cx,
                cx == old(self).input(),
                s0 == old(self).at(),
                self.at().pos >= s0.pos,
                out == grammar::arg_list(cx, s0),
                out == grammar::through(
                    s0,
                    self.at(),
                    grammar::args_rest(cx, self.at(), ast::exprs_view(args@)),
                ),
            decreases grammar::left(cx, self.at().pos),
        {
            proof {
                reveal(grammar::args_rest);
                reveal(grammar::cast);
            }
            let ghost before = args@;
            match self.parse_expr() {
                None => {
                    return None;
                },
                Some(e) => {
                    args.push(e);
                    assert(ast::exprs_view(args@) =~= ast::exprs_view(before).push(e@));
                },
            }
            if !self.eat(&TokenKind::Comma) {
                return Some(args);
            }
            // A comma may stand before the closing parenthesis.

            if self.check(&TokenKind::RParen) {
                return Some(args);
            }
        }
    }

    #[verifier::rlimit(60)]
    #[verifier::spinoff_prover]
    fn parse_primary(&mut self, allow_struct: bool) -> (r: Option<Expr>)
        requires
            old(self).wf(),
        ensures
            ({
                let out = grammar::primary(old(self).input(), old(self).at(), allow_struct);
                &&& moved(*old(self), *final(self), out.next(old(self).at()))
                &&& ast::opt_expr_view(r) == out.val
            }),
        decreases grammar::left(old(self).input(), old(self).at().pos), 1nat,
    {
        proof {
            reveal(grammar::primary);
            reveal(grammar::cast);
            reveal(grammar::init_body);
        }
        let span = self.span_here();
        match self.peek_kind() {
            TokenKind::IntLit(v) => {
                let kind = ExprKind::IntLit(*v);
                self.bump();
                Some(Expr::new(kind, span))
            },
            TokenKind::FloatLit(v) => {
                let kind = ExprKind::FloatLit(v.clone());
                self.bump();
                Some(Expr::new(kind, span))
            },
            TokenKind::CharLit(cp) => {
                let kind = ExprKind::CharLit(*cp);
                self.bump();
                Some(Expr::new(kind, span))
            },
            TokenKind::BoolLit(b) => {
                let kind = ExprKind::BoolLit(*b);
                self.bump();
                Some(Expr::new(kind, span))
            },
            TokenKind::StringLit(s) => {
                let kind = ExprKind::StringLit(s.clone());
                self.bump();
                Some(Expr::new(kind, span))
            },
            TokenKind::LParen => {
                self.bump();
                let inner = self.parse_expr()?;
                self.expect(TokenKind::RParen, "`)`")?;
                Some(inner)
            },
            // `self` inside a method body is an ordinary value named "self".
            TokenKind::Self_ => {
                self.bump();
                Some(Expr::new(ExprKind::Ident("self".to_owned()), span))
            },
            // `null` is the sole value of the null type (used in stdlib/asm).
            TokenKind::Null => {
                self.bump();
                // Represent as an i64 zero at the machine level.
                Some(Expr::new(ExprKind::IntLit(0), span))
            },
            // `i64::method` and `f64::method`: primitive type static calls.
            TokenKind::I64 | TokenKind::F64 => {
                let module = self.advance();
                if self.eat(&TokenKind::ColonColon) {
                    let name = self.expect(TokenKind::Ident, "method name after `::`")?;
                    return Some(Expr::new(ExprKind::QualifiedIdent { module, name }, span));
                }
                self.error_here("expected an expression", "expected expression");
                None
            },
            TokenKind::Ident => {
                let name = self.advance();
                // Qualified: IDENT :: IDENT
                if self.eat(&TokenKind::ColonColon) {
                    let second = self.expect(TokenKind::Ident, "name after `::`")?;
                    if allow_struct && self.check(&TokenKind::LBrace) {
                        return self.parse_struct_init_body(
                            StructName::Qualified(name, second),
                            span,
                        );
                    }
                    return Some(
                        Expr::new(ExprKind::QualifiedIdent { module: name, name: second }, span),
                    );
                }
                if allow_struct && self.check(&TokenKind::LBrace) {
                    return self.parse_struct_init_body(StructName::Unqualified(name), span);
                }
                Some(Expr::new(ExprKind::Ident(name), span))
            },
            _ => {
                self.error_here("expected an expression", "expected expression");
                None
            },
        }
    }

    /// Parse the `{ field = expr, ... }` part of a struct initializer; the name
    /// and opening span are already known.
    #[verifier::rlimit(60)]
    #[verifier::spinoff_prover]
    fn parse_struct_init_body(&mut self, name: StructName, span: Span) -> (r: Option<Expr>)
        requires
            old(self).wf(),
        ensures
            ({
                let out = grammar::init_body(old(self).input(), old(self).at(), name@, span);
                &&& moved(*old(self), *final(self), out.next(old(self).at()))
                &&& ast::opt_expr_view(r) == out.val
            }),
        decreases grammar::left(old(self).input(), old(self).at().pos), 12nat,
    {
        proof {
            reveal(grammar::init_body);
            reveal(grammar::inits_rest);
        }
        self.expect(TokenKind::LBrace, "`{` to open struct initializer")?;
        let fields = self.parse_inits()?;
        self.expect(TokenKind::RBrace, "`}` to close struct initializer")?;
        Some(Expr::new(ExprKind::StructInit { name, fields }, span))
    }

    #[verifier::rlimit(60)]
    #[verifier::spinoff_prover]
    fn parse_inits(&mut self) -> (r: Option<Vec<(String, Expr)>>)
        requires
            old(self).wf(),
        ensures
            ({
                let out = grammar::inits_rest(old(self).input(), old(self).at(), Seq::empty());
                &&& moved(*old(self), *final(self), out.next(old(self).at()))
                &&& match r {
                    Some(fields) => out.val == Some(ast::inits_view(fields@)),
                    None => out.val is None,
                }
            }),
        decreases grammar::left(old(self).input(), old(self).at().pos), 11nat,
    {
        let ghost cx = self.input();
        let ghost s0 = self.at();
        let ghost out = grammar::inits_rest(cx, s0, Seq::empty());
        proof {
            reveal(grammar::inits_rest);
        }
        let mut fields: Vec<(String, Expr)> = Vec::new();
        assert(ast::inits_view(fields@) =~= Seq::empty());
        while !self.check(&TokenKind::RBrace) && !self.at_end()
            invariant
                self.wf(),
                self.input() == cx,
                cx == old(self).input(),
                s0 == old(self).at(),
                self.at().pos >= s0.pos,
                out == grammar::inits_rest(cx, s0, Seq::empty()),
                out == grammar::through(
                    s0,
                    self.at(),
                    grammar::inits_rest(cx, self.at(), ast::inits_view(fields@)),
                ),
            decreases grammar::left(cx, self.at().pos),
        {
            proof {
                reveal(grammar::inits_rest);
                reveal(grammar::cast);
            }
            let ghost before = fields@;
            let name = match self.expect(TokenKind::Ident, "field name") {
                None => {
                    return None;
                },
                Some(n) => n,
            };
            if self.expect(
                TokenKind::Eq,
                "`=` in struct field (fields use `=`, not `:`)",
            ).is_none() {
                return None;
            }
            match self.parse_expr() {
                None => {
                    return None;
                },
                Some(value) => {
                    fields.push((name, value));
                    assert(ast::inits_view(fields@) =~= ast::inits_view(before).push(
                        (name@, value@),
                    ));
                },
            }
            if !self.eat(&TokenKind::Comma) {
                return Some(fields);
            }
        }
        Some(fields)
    }

    // --- blocks & statements -------------------------------------------------

    /// After an error in a statement, go on after the next semicolon or before
    /// a token that can start or end a statement.
    fn synchronize_stmt(&mut self)
        requires
            old(self).wf(),
        ensures
            moved(
                *old(self),
                *final(self),
                At {
                    pos: old(self).at().pos + grammar::stmt_gap(
                        old(self).input(),
                        old(self).at().pos,
                    ),
                    ..old(self).at()
                },
            ),
    {
        let ghost cx = self.input();
        let ghost s0 = self.at();
        proof {
            reveal(grammar::stmt_gap);
        }
        loop
            invariant
                self.wf(),
                self.input() == cx,
                cx == old(self).input(),
                s0 == old(self).at(),
                self.at().diags == s0.diags,
                s0.pos + grammar::stmt_gap(cx, s0.pos) == self.at().pos + grammar::stmt_gap(
                    cx,
                    self.at().pos,
                ),
            decreases grammar::left(cx, self.at().pos),
        {
            proof {
                reveal(grammar::stmt_gap);
            }
            match self.peek_kind() {
                TokenKind::Eof
                | TokenKind::RBrace
                | TokenKind::Let
                | TokenKind::Return
                | TokenKind::If
                | TokenKind::While
                | TokenKind::Break
                | TokenKind::Continue => {
                    return;
                },
                TokenKind::Semicolon => {
                    self.bump();
                    return;
                },
                _ => {
                    self.bump();
                },
            }
        }
    }

    fn parse_block(&mut self) -> (r: Option<Block>)
        requires
            old(self).wf(),
        ensures
            ({
                let out = grammar::block(old(self).input(), old(self).at());
                &&& moved(*old(self), *final(self), out.next(old(self).at()))
                &&& match r {
                    Some(b) => out.val == Some(b@),
                    None => out.val is None,
                }
            }),
        decreases grammar::left(old(self).input(), old(self).at().pos), 0nat,
    {
        proof {
            reveal(grammar::block);
            reveal(grammar::block_rest);
        }
        self.expect(TokenKind::LBrace, "`{`")?;
        let stmts = self.parse_stmts();
        self.expect(TokenKind::RBrace, "`}`")?;
        Some(Block { stmts })
    }

    #[verifier::rlimit(60)]
    #[verifier::spinoff_prover]
    fn parse_stmts(&mut self) -> (r: Vec<Stmt>)
        requires
            old(self).wf(),
        ensures
            ({
                let out = grammar::block_rest(old(self).input(), old(self).at(), Seq::empty());
                &&& moved(*old(self), *final(self), out.next(old(self).at()))
                &&& out.val == Some(ast::stmts_view(r@))
            }),
        decreases grammar::left(old(self).input(), old(self).at().pos), 3nat,
    {
        let ghost cx = self.input();
        let ghost s0 = self.at();
        let ghost out = grammar::block_rest(cx, s0, Seq::empty());
        proof {
            reveal(grammar::block_rest);
        }
        let mut stmts: Vec<Stmt> = Vec::new();
        assert(ast::stmts_view(stmts@) =~= Seq::empty());
        while !self.check(&TokenKind::RBrace) && !self.at_end()
            invariant
                self.wf(),
                self.input() == cx,
                cx == old(self).input(),
                s0 == old(self).at(),
                self.at().pos >= s0.pos,
                out == grammar::block_rest(cx, s0, Seq::empty()),
                out == grammar::through(
                    s0,
                    self.at(),
                    grammar::block_rest(cx, self.at(), ast::stmts_view(stmts@)),
                ),
            decreases grammar::left(cx, self.at().pos),
        {
            let ghost s1 = self.at();
            let ghost before = stmts@;
            proof {
                grammar::stmt_progress(cx, s1, ast::stmts_view(before));
                reveal(grammar::block_rest);
                reveal(grammar::stmt);
            }
            match self.parse_stmt() {
                Some(s) => {
                    stmts.push(s);
                    assert(ast::stmts_view(stmts@) =~= ast::stmts_view(before).push(s@));
                },
                None => {
                    self.synchronize_stmt();
                },
            }
        }
        stmts
    }

    #[verifier::rlimit(60)]
    #[verifier::spinoff_prover]
    fn parse_stmt(&mut self) -> (r: Option<Stmt>)
        requires
            old(self).wf(),
        ensures
            ({
                let out = grammar::stmt(old(self).input(), old(self).at());
                &&& moved(*old(self), *final(self), out.next(old(self).at()))
                &&& match r {
                    Some(s) => out.val == Some(s@),
                    None => out.val is None,
                }
            }),
        decreases grammar::left(old(self).input(), old(self).at().pos), 2nat,
    {
        proof {
            reveal(grammar::stmt);
            reveal(grammar::if_stmt);
            reveal(grammar::while_stmt);
        }
        if self.check(&TokenKind::Let) {
            self.parse_let()
        } else if self.check(&TokenKind::Return) {
            self.parse_return()
        } else if self.check(&TokenKind::If) {
            self.parse_if()
        } else if self.check(&TokenKind::While) {
            self.parse_while()
        } else if self.check(&TokenKind::Break) {
            let span = self.span_here();
            self.bump();
            self.expect(TokenKind::Semicolon, "`;` after break")?;
            Some(Stmt::Break(span))
        } else if self.check(&TokenKind::Continue) {
            let span = self.span_here();
            self.bump();
            self.expect(TokenKind::Semicolon, "`;` after continue")?;
            Some(Stmt::Continue(span))
        } else if self.check(&TokenKind::Bang) && matches!(self.peek_at(1), TokenKind::Asm) {
            self.parse_asm()
        } else {
            self.parse_expr_or_assign()
        }
    }

    fn parse_let(&mut self) -> (r: Option<Stmt>)
        requires
            old(self).wf(),
            grammar::kind_at(old(self).input(), old(self).at().pos) is Let,
        ensures
            ({
                let out = grammar::let_stmt(old(self).input(), old(self).at());
                &&& moved(*old(self), *final(self), out.next(old(self).at()))
                &&& match r {
                    Some(s) => out.val == Some(s@),
                    None => out.val is None,
                }
            }),
    {
        proof {
            reveal(grammar::let_stmt);
        }
        let span = self.span_here();
        self.bump();
        let name = self.expect(TokenKind::Ident, "variable name")?;
        let ty = if self.eat(&TokenKind::Colon) {
            Some(self.parse_type()?)
        } else {
            None
        };
        self.expect(TokenKind::Eq, "`=` in let binding")?;
        let init = self.parse_expr()?;
        self.expect(TokenKind::Semicolon, "`;` after let")?;
        Some(Stmt::Let(LetStmt { name, ty, init, span }))
    }

    fn parse_return(&mut self) -> (r: Option<Stmt>)
        requires
            old(self).wf(),
            grammar::kind_at(old(self).input(), old(self).at().pos) is Return,
        ensures
            ({
                let out = grammar::return_stmt(old(self).input(), old(self).at());
                &&& moved(*old(self), *final(self), out.next(old(self).at()))
                &&& match r {
                    Some(s) => out.val == Some(s@),
                    None => out.val is None,
                }
            }),
    {
        proof {
            reveal(grammar::return_stmt);
        }
        let span = self.span_here();
        self.bump();
        if self.eat(&TokenKind::Semicolon) {
            return Some(Stmt::Return(ReturnStmt { value: None, span }));
        }
        let value = self.parse_expr()?;
        self.expect(TokenKind::Semicolon, "`;` after return value")?;
        Some(Stmt::Return(ReturnStmt { value: Some(value), span }))
    }

    /// A condition and the block that it guards.
    fn parse_branch(&mut self) -> (r: Option<(Expr, Block)>)
        requires
            old(self).wf(),
        ensures
            ({
                let out = grammar::branch(old(self).input(), old(self).at());
                &&& moved(*old(self), *final(self), out.next(old(self).at()))
                &&& match r {
                    Some(b) => out.val == Some((b.0@, b.1@)),
                    None => out.val is None,
                }
            }),
        decreases grammar::left(old(self).input(), old(self).at().pos), 1nat,
    {
        proof {
            reveal(grammar::branch);
            reveal(grammar::block);
        }
        let cond = self.parse_expr_no_struct()?;
        let body = self.parse_block()?;
        Some((cond, body))
    }

    #[verifier::rlimit(60)]
    #[verifier::spinoff_prover]
    fn parse_if(&mut self) -> (r: Option<Stmt>)
        requires
            old(self).wf(),
            grammar::kind_at(old(self).input(), old(self).at().pos) is If,
        ensures
            ({
                let out = grammar::if_stmt(old(self).input(), old(self).at());
                &&& moved(*old(self), *final(self), out.next(old(self).at()))
                &&& match r {
                    Some(s) => out.val == Some(s@),
                    None => out.val is None,
                }
            }),
        decreases grammar::left(old(self).input(), old(self).at().pos), 1nat,
    {
        proof {
            reveal(grammar::if_stmt);
            reveal(grammar::branch);
        }
        let span = self.span_here();
        self.bump();
        let first = self.parse_branch()?;
        let (branches, else_block) = self.parse_if_rest(first)?;
        Some(Stmt::If(IfStmt { branches, else_block, span }))
    }

    /// The `else if` branches and the `else` block after the first branch.
    #[verifier::rlimit(60)]
    #[verifier::spinoff_prover]
    fn parse_if_rest(&mut self, first: (Expr, Block)) -> (r: Option<
        (Vec<(Expr, Block)>, Option<Block>),
    >)
        requires
            old(self).wf(),
        ensures
            ({
                let out = grammar::if_rest(
                    old(self).input(),
                    old(self).at(),
                    seq![(first.0@, first.1@)],
                );
                &&& moved(*old(self), *final(self), out.next(old(self).at()))
                &&& match r {
                    Some((branches, else_block)) => out.val == Some(
                        (
                            ast::branches_view(branches@),
                            match else_block {
                                Some(b) => Some(b@),
                                None => None,
                            },
                        ),
                    ),
                    None => out.val is None,
                }
            }),
        decreases grammar::left(old(self).input(), old(self).at().pos), 0nat,
    {
        let ghost cx = self.input();
        let ghost s0 = self.at();
        let ghost out = grammar::if_rest(cx, s0, seq![(first.0@, first.1@)]);
        proof {
            reveal(grammar::if_rest);
        }
        let mut branches: Vec<(Expr, Block)> = Vec::new();
        branches.push(first);
        assert(ast::branches_view(branches@) =~= seq![(first.0@, first.1@)]);
        while self.eat(&TokenKind::Else)
            invariant
                self.wf(),
                self.input() == cx,
                cx == old(self).input(),
                s0 == old(self).at(),
                self.at().pos >= s0.pos,
                out == grammar::if_rest(cx, s0, seq![(first.0@, first.1@)]),
                out == grammar::through(
                    s0,
                    self.at(),
                    grammar::if_rest(cx, self.at(), ast::branches_view(branches@)),
                ),
            decreases grammar::left(cx, self.at().pos),
        {
            proof {
                reveal(grammar::if_rest);
                reveal(grammar::branch);
                reveal(grammar::block);
            }
            let ghost before = branches@;
            if self.eat(&TokenKind::If) {
                match self.parse_branch() {
                    None => {
                        return None;
                    },
                    Some(b) => {
                        branches.push(b);
                        assert(ast::branches_view(branches@) =~= ast::branches_view(before).push(
                            (b.0@, b.1@),
                        ));
                    },
                }
            } else {
                match self.parse_block() {
                    None => {
                        return None;
                    },
                    Some(b) => {
                        return Some((branches, Some(b)));
                    },
                }
            }
        }
        Some((branches, None))
    }

    fn parse_while(&mut self) -> (r: Option<Stmt>)
        requires
            old(self).wf(),
            grammar::kind_at(old(self).input(), old(self).at().pos) is While,
        ensures
            ({
                let out = grammar::while_stmt(old(self).input(), old(self).at());
                &&& moved(*old(self), *final(self), out.next(old(self).at()))
                &&& match r {
                    Some(s) => out.val == Some(s@),
                    None => out.val is None,
                }
            }),
        decreases grammar::left(old(self).input(), old(self).at().pos), 1nat,
    {
        proof {
            reveal(grammar::while_stmt);
            reveal(grammar::branch);
        }
        let span = self.span_here();
        self.bump();
        let (condition, body) = self.parse_branch()?;
        Some(Stmt::While(WhileStmt { condition, body, span }))
    }

    /// Parse an expression statement or an assignment: parse a full expression,
    /// then peek. If `=` follows, reinterpret it as an lvalue.
    fn parse_expr_or_assign(&mut self) -> (r: Option<Stmt>)
        requires
            old(self).wf(),
        ensures
            ({
                let out = grammar::expr_stmt(old(self).input(), old(self).at());
                &&& moved(*old(self), *final(self), out.next(old(self).at()))
                &&& match r {
                    Some(s) => out.val == Some(s@),
                    None => out.val is None,
                }
            }),
    {
        proof {
            reveal(grammar::expr_stmt);
        }
        let span = self.span_here();
        let expr = self.parse_expr()?;
        if self.eat(&TokenKind::Eq) {
            let target = self.expr_to_lvalue(expr)?;
            let value = self.parse_expr()?;
            self.expect(TokenKind::Semicolon, "`;` after assignment")?;
            Some(Stmt::Assign(AssignStmt { target, value, span }))
        } else {
            self.expect(TokenKind::Semicolon, "`;` after expression statement")?;
            Some(Stmt::Expr(expr))
        }
    }

    fn expr_to_lvalue(&mut self, expr: Expr) -> (r: Option<LValue>)
        requires
            old(self).wf(),
        ensures
            match r {
                Some(l) => {
                    &&& grammar::target(expr@) == Some(l@)
                    &&& moved(*old(self), *final(self), old(self).at())
                },
                None => {
                    &&& grammar::target(expr@) is None
                    &&& moved(
                        *old(self),
                        *final(self),
                        At {
                            diags: old(self).at().diags.push(
                                grammar::diag_at(
                                    old(self).input(),
                                    expr@.span.line as nat,
                                    expr@.span.col as nat,
                                    "E201"@,
                                    "invalid assignment target"@,
                                    "not assignable"@,
                                ),
                            ),
                            ..old(self).at()
                        },
                    )
                },
            },
    {
        let span = expr.span;
        match expr.kind {
            ExprKind::Ident(name) => Some(LValue::Ident(name, span)),
            ExprKind::Deref { operand } => Some(LValue::Deref(operand, span)),
            ExprKind::Field { object, field } => Some(LValue::Field(object, field, span)),
            _ => {
                self.error_at(
                    span.line,
                    span.col,
                    "E201",
                    "invalid assignment target".to_owned(),
                    "not assignable",
                );
                None
            },
        }
    }

    // --- inline asm ----------------------------------------------------------

    /// Parse `!asm { ... }`. The body is reconstructed line by line from the
    /// token stream: `%IDENT` gives Value, `&IDENT` gives Addr, everything else
    /// Raw text (NASM syntax), preserving token order within a source line.
    fn parse_asm(&mut self) -> (r: Option<Stmt>)
        requires
            old(self).wf(),
            grammar::kind_at(old(self).input(), old(self).at().pos) is Bang,
            grammar::kind_at(old(self).input(), old(self).at().pos + 1) is Asm,
        ensures
            ({
                let out = grammar::asm_stmt(old(self).input(), old(self).at());
                &&& moved(*old(self), *final(self), out.next(old(self).at()))
                &&& match r {
                    Some(s) => out.val == Some(s@),
                    None => out.val is None,
                }
            }),
    {
        proof {
            reveal(grammar::asm_stmt);
        }
        let span = self.span_here();
        self.bump();
        self.bump();
        self.expect(TokenKind::LBrace, "`{` to open asm block")?;
        let lines = self.parse_asm_lines()?;
        self.expect(TokenKind::RBrace, "`}` to close asm block")?;
        Some(Stmt::Asm(AsmStmt { lines, span }))
    }

    #[verifier::rlimit(60)]
    #[verifier::spinoff_prover]
    fn parse_asm_lines(&mut self) -> (r: Option<Vec<AsmLine>>)
        requires
            old(self).wf(),
        ensures
            ({
                let out = grammar::asm_rest(
                    old(self).input(),
                    old(self).at(),
                    Seq::empty(),
                    Seq::empty(),
                    None,
                );
                &&& moved(*old(self), *final(self), out.next(old(self).at()))
                &&& match r {
                    Some(lines) => out.val == Some(ast::asm_lines_view(lines@)),
                    None => out.val is None,
                }
            }),
    {
        let ghost cx = self.input();
        let ghost s0 = self.at();
        let ghost out = grammar::asm_rest(cx, s0, Seq::empty(), Seq::empty(), None);
        let mut lines: Vec<AsmLine> = Vec::new();
        let mut current: Vec<AsmToken> = Vec::new();
        let mut last: Option<usize> = None;
        assert(ast::asm_lines_view(lines@) =~= Seq::empty());
        assert(ast::asm_tokens_view(current@) =~= Seq::empty());
        while !self.check(&TokenKind::RBrace) && !self.at_end()
            invariant
                self.wf(),
                self.input() == cx,
                cx == old(self).input(),
                s0 == old(self).at(),
                self.at().pos >= s0.pos,
                out == grammar::asm_rest(cx, s0, Seq::empty(), Seq::empty(), None),
                out == grammar::through(
                    s0,
                    self.at(),
                    grammar::asm_rest(
                        cx,
                        self.at(),
                        ast::asm_lines_view(lines@),
                        ast::asm_tokens_view(current@),
                        match last {
                            Some(l) => Some(l as nat),
                            None => None,
                        },
                    ),
                ),
            decreases grammar::left(cx, self.at().pos),
        {
            proof {
                reveal(grammar::asm_rest);
            }
            let line = self.peek().line;
            // A new source line ends the line before.
            if let Some(prev) = last {
                if line != prev {
                    flush(&mut lines, current);
                    current = Vec::new();
                    assert(ast::asm_tokens_view(current@) =~= Seq::empty());
                }
            }
            last = Some(line);
            let ghost before = current@;
            let token = if self.eat(&TokenKind::Percent) {
                match self.expect(TokenKind::Ident, "variable name after `%`") {
                    None => {
                        return None;
                    },
                    Some(name) => AsmToken::Value(name),
                }
            } else if self.eat(&TokenKind::Ampersand) {
                match self.expect(TokenKind::Ident, "variable name after `&`") {
                    None => {
                        return None;
                    },
                    Some(name) => AsmToken::Addr(name),
                }
            } else {
                // Each lexical token becomes its own Raw fragment; spacing is
                // reapplied at emit time (NASM only needs whitespace between a
                // mnemonic and word-like operands).
                AsmToken::Raw(self.advance())
            };
            current.push(token);
            assert(ast::asm_tokens_view(current@) =~= ast::asm_tokens_view(before).push(
                ast::asm_token_view(token),
            ));
        }
        proof {
            reveal(grammar::asm_rest);
        }
        flush(&mut lines, current);
        Some(lines)
    }

    // --- items ---------------------------------------------------------------

    fn parse_params(&mut self) -> (r: Option<Vec<Param>>)
        requires
            old(self).wf(),
        ensures
            ({
                let out = grammar::params(old(self).input(), old(self).at());
                &&& moved(*old(self), *final(self), out.next(old(self).at()))
                &&& match r {
                    Some(params) => out.val == Some(ast::params_view(params@)),
                    None => out.val is None,
                }
            }),
    {
        let ghost cx = self.input();
        let ghost s0 = self.at();
        let ghost out = grammar::params(cx, s0);
        let mut params: Vec<Param> = Vec::new();
        assert(ast::params_view(params@) =~= Seq::empty());
        if self.check(&TokenKind::RParen) {
            return Some(params);
        }
        loop
            invariant
                self.wf(),
                self.input() == cx,
                cx == old(self).input(),
                s0 == old(self).at(),
                self.at().pos >= s0.pos,
                out == grammar::params(cx, s0),
                out == grammar::through(
                    s0,
                    self.at(),
                    grammar::params_rest(cx, self.at(), ast::params_view(params@)),
                ),
            decreases grammar::left(cx, self.at().pos),
        {
            proof {
                reveal(grammar::params_rest);
            }
            let ghost before = params@;
            match self.parse_param() {
                None => {
                    return None;
                },
                Some(p) => {
                    params.push(p);
                    assert(ast::params_view(params@) =~= ast::params_view(before).push(
                        ast::param_view(p),
                    ));
                },
            }
            if !self.eat(&TokenKind::Comma) {
                return Some(params);
            }
            // A comma may stand before the closing parenthesis.

            if self.check(&TokenKind::RParen) {
                return Some(params);
            }
        }
    }

    fn parse_param(&mut self) -> (r: Option<Param>)
        requires
            old(self).wf(),
        ensures
            ({
                let out = grammar::param(old(self).input(), old(self).at());
                &&& moved(*old(self), *final(self), out.next(old(self).at()))
                &&& match r {
                    Some(p) => out.val == Some(ast::param_view(p)),
                    None => out.val is None,
                }
            }),
    {
        proof {
            reveal(grammar::param);
        }
        let span = self.span_here();
        match self.peek_kind() {
            TokenKind::Ampersand => {
                self.bump();
                if self.eat(&TokenKind::Mut) {
                    self.expect(TokenKind::Self_, "`self` after `&mut`")?;
                    Some(Param { kind: ParamKind::SelfMutRef, span })
                } else {
                    self.expect(TokenKind::Self_, "`self` after `&`")?;
                    Some(Param { kind: ParamKind::SelfRef, span })
                }
            },
            TokenKind::Move => {
                self.bump();
                self.expect(TokenKind::Self_, "`self` after `move`")?;
                Some(Param { kind: ParamKind::SelfMove, span })
            },
            TokenKind::Self_ => {
                // bare `self` is not allowed
                self.error_here(
                    "bare `self` is not a valid parameter (use `&self`, `&mut self`, or `move self`)",
                    "invalid self",
                );
                None
            },
            TokenKind::Ident => {
                let name = self.advance();
                self.expect(TokenKind::Colon, "`:` after parameter name")?;
                let ty = self.parse_type()?;
                Some(Param { kind: ParamKind::Named { name, ty }, span })
            },
            _ => {
                self.error_here("expected a parameter", "unexpected token");
                None
            },
        }
    }

    fn parse_fn(&mut self) -> (r: Option<FnDecl>)
        requires
            old(self).wf(),
            grammar::kind_at(old(self).input(), old(self).at().pos) is Fn,
        ensures
            ({
                let out = grammar::fn_decl(old(self).input(), old(self).at());
                &&& moved(*old(self), *final(self), out.next(old(self).at()))
                &&& out.adv > 0
                &&& match r {
                    Some(f) => out.val == Some(ast::fn_view(f)),
                    None => out.val is None,
                }
            }),
    {
        proof {
            reveal(grammar::fn_decl);
        }
        let span = self.span_here();
        self.bump();
        let name = self.expect(TokenKind::Ident, "function name")?;
        self.expect(TokenKind::LParen, "`(`")?;
        let params = self.parse_params()?;
        self.expect(TokenKind::RParen, "`)`")?;
        // Return type is REQUIRED.
        if !self.is_type_start() {
            self.error_here("expected return type after ')'", "expected return type");
            return None;
        }
        let return_type = self.parse_type()?;
        let body = self.parse_block()?;
        Some(FnDecl { name, params, return_type, body, span })
    }

    fn parse_import(&mut self) -> (r: Option<ImportDecl>)
        requires
            old(self).wf(),
            grammar::kind_at(old(self).input(), old(self).at().pos) is Import,
        ensures
            ({
                let out = grammar::import(old(self).input(), old(self).at());
                &&& moved(*old(self), *final(self), out.next(old(self).at()))
                &&& match r {
                    Some(d) => out.val == Some(ast::import_view(d.kind)),
                    None => out.val is None,
                }
            }),
    {
        proof {
            reveal(grammar::import);
        }
        // Imports of definitions are consumed by the preprocessor; the module
        // form stays in the text.
        self.bump();
        let module = self.expect(TokenKind::Ident, "module name")?;
        if self.eat(&TokenKind::ColonColon) {
            if self.eat(&TokenKind::Star) {
                self.expect(TokenKind::Semicolon, "`;`")?;
                return Some(ImportDecl { kind: ImportKind::Glob { module } });
            }
            let name = self.expect(TokenKind::Ident, "imported name")?;
            let alias = if self.eat(&TokenKind::As) {
                Some(self.expect(TokenKind::Ident, "alias name")?)
            } else {
                None
            };
            self.expect(TokenKind::Semicolon, "`;`")?;
            Some(ImportDecl { kind: ImportKind::Named { module, name, alias } })
        } else {
            self.expect(TokenKind::Semicolon, "`;`")?;
            Some(ImportDecl { kind: ImportKind::Module { name: module } })
        }
    }

    /// field_decl: IDENT ":" type ","
    fn parse_field(&mut self) -> (r: Option<FieldDecl>)
        requires
            old(self).wf(),
            grammar::kind_at(old(self).input(), old(self).at().pos) is Ident,
        ensures
            ({
                let out = grammar::field_decl(old(self).input(), old(self).at());
                &&& moved(*old(self), *final(self), out.next(old(self).at()))
                &&& out.adv > 0
                &&& match r {
                    Some(f) => out.val == Some(ast::field_view(f)),
                    None => out.val is None,
                }
            }),
    {
        proof {
            reveal(grammar::field_decl);
        }
        let span = self.span_here();
        let name = self.advance();
        self.expect(TokenKind::Colon, "`:` after field name")?;
        let ty = self.parse_type()?;
        self.expect(TokenKind::Comma, "`,` after field declaration")?;
        Some(FieldDecl { name, ty, span })
    }

    fn parse_struct(&mut self) -> (r: Option<StructDecl>)
        requires
            old(self).wf(),
            grammar::kind_at(old(self).input(), old(self).at().pos) is Struct,
        ensures
            ({
                let out = grammar::struct_decl(old(self).input(), old(self).at());
                &&& moved(*old(self), *final(self), out.next(old(self).at()))
                &&& match r {
                    Some(d) => out.val == Some(ast::struct_view(d)),
                    None => out.val is None,
                }
            }),
    {
        proof {
            reveal(grammar::struct_decl);
        }
        let span = self.span_here();
        self.bump();
        let name = self.expect(TokenKind::Ident, "struct name")?;
        self.expect(TokenKind::LBrace, "`{`")?;
        let (fields, methods) = self.parse_struct_body()?;
        self.expect(TokenKind::RBrace, "`}` to close struct")?;
        Some(StructDecl { name, fields, methods, span })
    }

    fn parse_struct_body(&mut self) -> (r: Option<(Vec<FieldDecl>, Vec<FnDecl>)>)
        requires
            old(self).wf(),
        ensures
            ({
                let out = grammar::struct_rest(
                    old(self).input(),
                    old(self).at(),
                    Seq::empty(),
                    Seq::empty(),
                );
                &&& moved(*old(self), *final(self), out.next(old(self).at()))
                &&& match r {
                    Some((fields, methods)) => out.val == Some(
                        (ast::fields_view(fields@), ast::fns_view(methods@)),
                    ),
                    None => out.val is None,
                }
            }),
    {
        let ghost cx = self.input();
        let ghost s0 = self.at();
        let ghost out = grammar::struct_rest(cx, s0, Seq::empty(), Seq::empty());
        let mut fields: Vec<FieldDecl> = Vec::new();
        let mut methods: Vec<FnDecl> = Vec::new();
        assert(ast::fields_view(fields@) =~= Seq::empty());
        assert(ast::fns_view(methods@) =~= Seq::empty());
        while !self.check(&TokenKind::RBrace) && !self.at_end()
            invariant
                self.wf(),
                self.input() == cx,
                cx == old(self).input(),
                s0 == old(self).at(),
                self.at().pos >= s0.pos,
                out == grammar::struct_rest(cx, s0, Seq::empty(), Seq::empty()),
                out == grammar::through(
                    s0,
                    self.at(),
                    grammar::struct_rest(
                        cx,
                        self.at(),
                        ast::fields_view(fields@),
                        ast::fns_view(methods@),
                    ),
                ),
            decreases grammar::left(cx, self.at().pos),
        {
            proof {
                reveal(grammar::struct_rest);
            }
            let ghost before_fields = fields@;
            let ghost before_methods = methods@;
            if self.check(&TokenKind::Fn) {
                match self.parse_fn() {
                    None => {
                        return None;
                    },
                    Some(f) => {
                        methods.push(f);
                        assert(ast::fns_view(methods@) =~= ast::fns_view(before_methods).push(
                            ast::fn_view(f),
                        ));
                    },
                }
            } else if self.check(&TokenKind::Ident) {
                match self.parse_field() {
                    None => {
                        return None;
                    },
                    Some(f) => {
                        fields.push(f);
                        assert(ast::fields_view(fields@) =~= ast::fields_view(before_fields).push(
                            ast::field_view(f),
                        ));
                    },
                }
            } else {
                self.error_here("expected a field or method in struct body", "unexpected token");
                return None;
            }
        }
        proof {
            reveal(grammar::struct_rest);
        }
        Some((fields, methods))
    }

    fn parse_extend(&mut self) -> (r: Option<ExtendDecl>)
        requires
            old(self).wf(),
            grammar::kind_at(old(self).input(), old(self).at().pos) is Extend,
        ensures
            ({
                let out = grammar::extend_decl(old(self).input(), old(self).at());
                &&& moved(*old(self), *final(self), out.next(old(self).at()))
                &&& match r {
                    Some(d) => out.val == Some(ast::extend_view(d)),
                    None => out.val is None,
                }
            }),
    {
        proof {
            reveal(grammar::extend_decl);
        }
        let span = self.span_here();
        self.bump();
        let first = self.parse_extend_target_name()?;
        let (module, name) = if self.eat(&TokenKind::ColonColon) {
            let n = self.expect(TokenKind::Ident, "struct name")?;
            (Some(first), n)
        } else {
            (None, first)
        };
        self.expect(TokenKind::LBrace, "`{`")?;
        let methods = self.parse_extend_body()?;
        self.expect(TokenKind::RBrace, "`}` to close extend")?;
        Some(ExtendDecl { module, name, methods, span })
    }

    fn parse_extend_body(&mut self) -> (r: Option<Vec<FnDecl>>)
        requires
            old(self).wf(),
        ensures
            ({
                let out = grammar::extend_rest(old(self).input(), old(self).at(), Seq::empty());
                &&& moved(*old(self), *final(self), out.next(old(self).at()))
                &&& match r {
                    Some(methods) => out.val == Some(ast::fns_view(methods@)),
                    None => out.val is None,
                }
            }),
    {
        let ghost cx = self.input();
        let ghost s0 = self.at();
        let ghost out = grammar::extend_rest(cx, s0, Seq::empty());
        let mut methods: Vec<FnDecl> = Vec::new();
        assert(ast::fns_view(methods@) =~= Seq::empty());
        while !self.check(&TokenKind::RBrace) && !self.at_end()
            invariant
                self.wf(),
                self.input() == cx,
                cx == old(self).input(),
                s0 == old(self).at(),
                self.at().pos >= s0.pos,
                out == grammar::extend_rest(cx, s0, Seq::empty()),
                out == grammar::through(
                    s0,
                    self.at(),
                    grammar::extend_rest(cx, self.at(), ast::fns_view(methods@)),
                ),
            decreases grammar::left(cx, self.at().pos),
        {
            proof {
                reveal(grammar::extend_rest);
            }
            let ghost before = methods@;
            if self.check(&TokenKind::Fn) {
                match self.parse_fn() {
                    None => {
                        return None;
                    },
                    Some(f) => {
                        methods.push(f);
                        assert(ast::fns_view(methods@) =~= ast::fns_view(before).push(
                            ast::fn_view(f),
                        ));
                    },
                }
            } else {
                self.error_here(
                    "expected a method in extend body",
                    "only methods allowed in extend",
                );
                return None;
            }
        }
        proof {
            reveal(grammar::extend_rest);
        }
        Some(methods)
    }

    fn parse_extend_target_name(&mut self) -> (r: Option<String>)
        requires
            old(self).wf(),
        ensures
            ({
                let out = grammar::extend_name(old(self).input(), old(self).at());
                &&& moved(*old(self), *final(self), out.next(old(self).at()))
                &&& ast::opt_text_view(r) == out.val
            }),
    {
        match self.peek_kind() {
            TokenKind::Ident | TokenKind::I64 | TokenKind::F64 => Some(self.advance()),
            _ => {
                self.error_here("expected struct or primitive type name", "expected type name");
                None
            },
        }
    }

    fn parse_item(&mut self) -> (r: Option<Item>)
        requires
            old(self).wf(),
        ensures
            ({
                let out = grammar::item(old(self).input(), old(self).at());
                &&& moved(*old(self), *final(self), out.next(old(self).at()))
                &&& match r {
                    Some(i) => out.val == Some(i@),
                    None => out.val is None,
                }
            }),
    {
        proof {
            reveal(grammar::item);
        }
        match self.peek_kind() {
            TokenKind::Import => Some(Item::Import(self.parse_import()?)),
            TokenKind::Struct => Some(Item::Struct(self.parse_struct()?)),
            TokenKind::Fn => Some(Item::Fn(self.parse_fn()?)),
            TokenKind::Extend => Some(Item::Extend(self.parse_extend()?)),
            TokenKind::Bang => {
                // Top-level !asm is illegal.
                self.error_here(
                    "inline assembly is only valid inside a function body",
                    "asm not allowed here",
                );
                None
            },
            _ => {
                self.error_here(
                    "expected an item (fn, struct, extend, or import)",
                    "unexpected token",
                );
                None
            },
        }
    }

    /// After an error in an item, go on before the next token that can start one.
    fn synchronize_top_level(&mut self)
        requires
            old(self).wf(),
        ensures
            moved(
                *old(self),
                *final(self),
                At {
                    pos: old(self).at().pos + grammar::item_gap(
                        old(self).input(),
                        old(self).at().pos,
                    ),
                    ..old(self).at()
                },
            ),
    {
        let ghost cx = self.input();
        let ghost s0 = self.at();
        loop
            invariant
                self.wf(),
                self.input() == cx,
                cx == old(self).input(),
                s0 == old(self).at(),
                self.at().diags == s0.diags,
                s0.pos + grammar::item_gap(cx, s0.pos) == self.at().pos + grammar::item_gap(
                    cx,
                    self.at().pos,
                ),
            decreases grammar::left(cx, self.at().pos),
        {
            proof {
                reveal(grammar::item_gap);
            }
            match self.peek_kind() {
                TokenKind::Eof
                | TokenKind::Fn
                | TokenKind::Struct
                | TokenKind::Import
                | TokenKind::Extend => {
                    return;
                },
                _ => {
                    self.bump();
                },
            }
        }
    }

    /// Parse all the items. On any error, returns the collected diagnostics.
    pub fn parse(self) -> (r: Result<Program, Vec<Diagnostic>>)
        requires
            self.at() == grammar::start(),
            grammar::ends(self.input(), 0),
        ensures
            match r {
                Ok(p) => {
                    &&& grammar::program(self.input()).1.len() == 0
                    &&& p@.items == grammar::program(self.input()).0
                },
                Err(diags) => {
                    &&& diags@.len() > 0
                    &&& error::diags_view(diags@) == grammar::program(self.input()).1
                },
            },
    {
        let ghost cx = self.input();
        let mut parser = self;
        let mut items: Vec<Item> = Vec::new();
        assert(ast::items_view(items@) =~= Seq::empty());
        while !parser.at_end()
            invariant
                parser.wf(),
                parser.input() == cx,
                grammar::program(cx) == grammar::items_rest(
                    cx,
                    parser.at(),
                    ast::items_view(items@),
                ),
            decreases grammar::left(cx, parser.at().pos),
        {
            let ghost before = items@;
            proof {
                reveal(grammar::items_rest);
                grammar::item_progress(cx, parser.at(), ast::items_view(before));
            }
            match parser.parse_item() {
                Some(item) => {
                    items.push(item);
                    assert(ast::items_view(items@) =~= ast::items_view(before).push(item@));
                },
                None => {
                    parser.synchronize_top_level();
                },
            }
        }
        proof {
            reveal(grammar::items_rest);
        }
        if parser.diags.len() == 0 {
            Ok(Program { items })
        } else {
            Err(parser.diags)
        }
    }
}

} // verus!
