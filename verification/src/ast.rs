//! Abstract syntax tree for Jo.
//!
//! The parser produces these nodes; the type checker fills in `Expr::ty`.
//! `Expr` is a struct carrying the `ExprKind` plus a `ty: Option<Type>` (None
//! until type-checked) and a source location for diagnostics.
//!
//! Every node type `X` has a mathematical model `XM` in which texts are
//! character sequences and lists are sequences; the view of an `X` is its `XM`.

use vstd::prelude::*;

pub use crate::types::{Type, TypeM};
use crate::types;

verus! {

// ---------------------------------------------------------------------------
// Source locations
// ---------------------------------------------------------------------------

/// A 1-based (line, col) position into the preprocessed source.
#[derive(Debug, Clone, Copy, PartialEq, Eq, Structural)]
pub struct Span {
    pub line: usize,
    pub col: usize,
}

impl Span {
    pub fn new(line: usize, col: usize) -> (r: Span)
        ensures
            r == (Span { line, col }),
    {
        Span { line, col }
    }
}

impl Default for Span {
    fn default() -> (r: Span)
        ensures
            r == (Span { line: 0, col: 0 }),
    {
        Span { line: 0, col: 0 }
    }
}

// ---------------------------------------------------------------------------
// Top-level
// ---------------------------------------------------------------------------

#[derive(Debug)]
pub struct Program {
    pub items: Vec<Item>,
}

#[derive(Debug)]
pub enum Item {
    Import(ImportDecl),
    Struct(StructDecl),
    Fn(FnDecl),
    Extend(ExtendDecl),
}

#[derive(Debug)]
pub struct ExtendDecl {
    /// The module path, if any (e.g. `extend stdlib::string { ... }` has module `stdlib`).
    pub module: Option<String>,
    /// The bare struct name being extended.
    pub name: String,
    pub methods: Vec<FnDecl>,
    pub span: Span,
}

#[derive(Debug)]
pub struct ImportDecl {
    pub kind: ImportKind,
}

#[derive(Debug)]
pub enum ImportKind {
    Named { module: String, name: String, alias: Option<String> },
    Glob { module: String },
    Module { name: String },
}

#[derive(Debug)]
pub struct StructDecl {
    pub name: String,
    pub fields: Vec<FieldDecl>,
    pub methods: Vec<FnDecl>,
    pub span: Span,
}

#[derive(Debug)]
pub struct FieldDecl {
    pub name: String,
    pub ty: Type,
    pub span: Span,
}

#[derive(Debug)]
pub struct FnDecl {
    pub name: String,
    pub params: Vec<Param>,
    pub return_type: Type,
    pub body: Block,
    pub span: Span,
}

#[derive(Debug)]
pub struct Param {
    pub kind: ParamKind,
    pub span: Span,
}

#[derive(Debug)]
pub enum ParamKind {
    Named { name: String, ty: Type },
    /// `&self`
    SelfRef,
    /// `&mut self`
    SelfMutRef,
    /// `move self`
    SelfMove,
}

// ---------------------------------------------------------------------------
// Statements
// ---------------------------------------------------------------------------

#[derive(Debug)]
pub struct Block {
    pub stmts: Vec<Stmt>,
}

#[derive(Debug)]
pub enum Stmt {
    Let(LetStmt),
    Assign(AssignStmt),
    Return(ReturnStmt),
    If(IfStmt),
    While(WhileStmt),
    Break(Span),
    Continue(Span),
    Expr(Expr),
    Asm(AsmStmt),
}

#[derive(Debug)]
pub struct LetStmt {
    pub name: String,
    pub ty: Option<Type>,
    pub init: Expr,
    pub span: Span,
}

#[derive(Debug)]
pub struct AssignStmt {
    pub target: LValue,
    pub value: Expr,
    pub span: Span,
}

#[derive(Debug)]
pub struct ReturnStmt {
    pub value: Option<Expr>,
    pub span: Span,
}

#[derive(Debug)]
pub struct IfStmt {
    /// (condition, block) for the `if` and for each `else if`.
    pub branches: Vec<(Expr, Block)>,
    pub else_block: Option<Block>,
    pub span: Span,
}

#[derive(Debug)]
pub struct WhileStmt {
    pub condition: Expr,
    pub body: Block,
    pub span: Span,
}

#[derive(Debug)]
pub enum LValue {
    Ident(String, Span),
    Deref(Box<Expr>, Span),
    Field(Box<Expr>, String, Span),
}

#[derive(Debug)]
pub struct AsmStmt {
    pub lines: Vec<AsmLine>,
    pub span: Span,
}

#[derive(Debug)]
pub struct AsmLine {
    pub tokens: Vec<AsmToken>,
}

#[derive(Debug)]
pub enum AsmToken {
    Raw(String),
    /// `%name`
    Value(String),
    /// `&name`
    Addr(String),
}

// ---------------------------------------------------------------------------
// Expressions
// ---------------------------------------------------------------------------

#[derive(Debug)]
pub struct Expr {
    pub kind: ExprKind,
    pub ty: Option<Type>,
    pub span: Span,
}

#[derive(Debug)]
#[allow(inconsistent_fields)]
pub enum ExprKind {
    IntLit(i64),
    /// The decimal text of the number: digits, a point, digits.
    FloatLit(String),
    CharLit(u32),
    BoolLit(bool),
    StringLit(String),
    Ident(String),
    QualifiedIdent { module: String, name: String },
    Unary { op: UnaryOp, operand: Box<Expr> },
    Binary { op: BinaryOp, left: Box<Expr>, right: Box<Expr> },
    Cast { expr: Box<Expr>, target_type: Type },
    Call { callee: Box<Expr>, args: Vec<Expr> },
    Field { object: Box<Expr>, field: String },
    Ref { mutable: bool, operand: Box<Expr> },
    Deref { operand: Box<Expr> },
    StructInit { name: StructName, fields: Vec<(String, Expr)> },
}

#[derive(Debug, PartialEq, Eq)]
pub enum StructName {
    Unqualified(String),
    Qualified(String, String),
}

#[derive(Debug, Clone, Copy, PartialEq, Eq, Structural)]
pub enum UnaryOp {
    Neg,
    Not,
    Deref,
    Ref,
    RefMut,
}

#[derive(Debug, Clone, Copy, PartialEq, Eq, Structural)]
pub enum BinaryOp {
    Add,
    Sub,
    Mul,
    Div,
    Mod,
    Eq,
    Ne,
    Lt,
    Gt,
    Le,
    Ge,
    And,
    Or,
}

// ---------------------------------------------------------------------------
// Models
// ---------------------------------------------------------------------------

pub struct ProgramM {
    pub items: Seq<ItemM>,
}

pub enum ItemM {
    Import(ImportKindM),
    Struct(StructDeclM),
    Fn(FnDeclM),
    Extend(ExtendDeclM),
}

pub struct ExtendDeclM {
    pub module: Option<Seq<char>>,
    pub name: Seq<char>,
    pub methods: Seq<FnDeclM>,
    pub span: Span,
}

pub enum ImportKindM {
    Named { module: Seq<char>, name: Seq<char>, alias: Option<Seq<char>> },
    Glob { module: Seq<char> },
    Module { name: Seq<char> },
}

pub struct StructDeclM {
    pub name: Seq<char>,
    pub fields: Seq<FieldDeclM>,
    pub methods: Seq<FnDeclM>,
    pub span: Span,
}

pub struct FieldDeclM {
    pub name: Seq<char>,
    pub ty: TypeM,
    pub span: Span,
}

pub struct FnDeclM {
    pub name: Seq<char>,
    pub params: Seq<ParamM>,
    pub return_type: TypeM,
    pub body: BlockM,
    pub span: Span,
}

pub struct ParamM {
    pub kind: ParamKindM,
    pub span: Span,
}

pub enum ParamKindM {
    Named { name: Seq<char>, ty: TypeM },
    SelfRef,
    SelfMutRef,
    SelfMove,
}

pub struct BlockM {
    pub stmts: Seq<StmtM>,
}

#[allow(inconsistent_fields)]
pub enum StmtM {
    Let { name: Seq<char>, ty: Option<TypeM>, init: ExprM, span: Span },
    Assign { target: LValueM, value: ExprM, span: Span },
    Return { value: Option<ExprM>, span: Span },
    If { branches: Seq<(ExprM, BlockM)>, else_block: Option<BlockM>, span: Span },
    While { condition: ExprM, body: BlockM, span: Span },
    Break(Span),
    Continue(Span),
    Expr(ExprM),
    Asm { lines: Seq<Seq<AsmTokenM>>, span: Span },
}

pub enum LValueM {
    Ident(Seq<char>, Span),
    Deref(ExprM, Span),
    Field(ExprM, Seq<char>, Span),
}

pub enum AsmTokenM {
    Raw(Seq<char>),
    Value(Seq<char>),
    Addr(Seq<char>),
}

pub struct ExprM {
    pub kind: ExprKindM,
    pub ty: Option<TypeM>,
    pub span: Span,
}

#[allow(inconsistent_fields)]
pub enum ExprKindM {
    IntLit(i64),
    FloatLit(Seq<char>),
    CharLit(u32),
    BoolLit(bool),
    StringLit(Seq<char>),
    Ident(Seq<char>),
    QualifiedIdent { module: Seq<char>, name: Seq<char> },
    Unary { op: UnaryOp, operand: Box<ExprM> },
    Binary { op: BinaryOp, left: Box<ExprM>, right: Box<ExprM> },
    Cast { expr: Box<ExprM>, target_type: TypeM },
    Call { callee: Box<ExprM>, args: Seq<ExprM> },
    Field { object: Box<ExprM>, field: Seq<char> },
    Ref { mutable: bool, operand: Box<ExprM> },
    Deref { operand: Box<ExprM> },
    StructInit { name: StructNameM, fields: Seq<(Seq<char>, ExprM)> },
}

pub enum StructNameM {
    Unqualified(Seq<char>),
    Qualified(Seq<char>, Seq<char>),
}

// ---------------------------------------------------------------------------
// Views
// ---------------------------------------------------------------------------

pub open spec fn opt_text_view(s: Option<String>) -> Option<Seq<char>> {
    match s {
        Some(s) => Some(s@),
        None => None,
    }
}

pub open spec fn struct_name_view(n: StructName) -> StructNameM {
    match n {
        StructName::Unqualified(n) => StructNameM::Unqualified(n@),
        StructName::Qualified(m, n) => StructNameM::Qualified(m@, n@),
    }
}

pub open spec fn expr_view(e: Expr) -> ExprM
    decreases e,
{
    ExprM { kind: expr_kind_view(e.kind), ty: types::opt_type_view(e.ty), span: e.span }
}

pub open spec fn expr_kind_view(k: ExprKind) -> ExprKindM
    decreases k,
{
    match k {
        ExprKind::IntLit(n) => ExprKindM::IntLit(n),
        ExprKind::FloatLit(s) => ExprKindM::FloatLit(s@),
        ExprKind::CharLit(c) => ExprKindM::CharLit(c),
        ExprKind::BoolLit(b) => ExprKindM::BoolLit(b),
        ExprKind::StringLit(s) => ExprKindM::StringLit(s@),
        ExprKind::Ident(s) => ExprKindM::Ident(s@),
        ExprKind::QualifiedIdent { module, name } => ExprKindM::QualifiedIdent {
            module: module@,
            name: name@,
        },
        ExprKind::Unary { op, operand } => ExprKindM::Unary {
            op,
            operand: Box::new(expr_view(*operand)),
        },
        ExprKind::Binary { op, left, right } => ExprKindM::Binary {
            op,
            left: Box::new(expr_view(*left)),
            right: Box::new(expr_view(*right)),
        },
        ExprKind::Cast { expr, target_type } => ExprKindM::Cast {
            expr: Box::new(expr_view(*expr)),
            target_type: target_type@,
        },
        ExprKind::Call { callee, args } => ExprKindM::Call {
            callee: Box::new(expr_view(*callee)),
            args: exprs_view(args@),
        },
        ExprKind::Field { object, field } => ExprKindM::Field {
            object: Box::new(expr_view(*object)),
            field: field@,
        },
        ExprKind::Ref { mutable, operand } => ExprKindM::Ref {
            mutable,
            operand: Box::new(expr_view(*operand)),
        },
        ExprKind::Deref { operand } => ExprKindM::Deref { operand: Box::new(expr_view(*operand)) },
        ExprKind::StructInit { name, fields } => ExprKindM::StructInit {
            name: struct_name_view(name),
            fields: inits_view(fields@),
        },
    }
}

pub open spec fn exprs_view(s: Seq<Expr>) -> Seq<ExprM>
    decreases s,
{
    Seq::new(s.len(), |i: int| if 0 <= i < s.len() { expr_view(s[i]) } else { arbitrary() })
}

pub open spec fn inits_view(s: Seq<(String, Expr)>) -> Seq<(Seq<char>, ExprM)>
    decreases s,
{
    Seq::new(
        s.len(),
        |i: int| if 0 <= i < s.len() { (s[i].0@, expr_view(s[i].1)) } else { arbitrary() },
    )
}

impl View for Expr {
    type V = ExprM;

    open spec fn view(&self) -> ExprM {
        expr_view(*self)
    }
}

pub open spec fn opt_expr_view(e: Option<Expr>) -> Option<ExprM> {
    match e {
        Some(e) => Some(e@),
        None => None,
    }
}

pub open spec fn lvalue_view(l: LValue) -> LValueM {
    match l {
        LValue::Ident(n, span) => LValueM::Ident(n@, span),
        LValue::Deref(e, span) => LValueM::Deref(expr_view(*e), span),
        LValue::Field(e, f, span) => LValueM::Field(expr_view(*e), f@, span),
    }
}

impl View for LValue {
    type V = LValueM;

    open spec fn view(&self) -> LValueM {
        lvalue_view(*self)
    }
}

pub open spec fn asm_token_view(t: AsmToken) -> AsmTokenM {
    match t {
        AsmToken::Raw(s) => AsmTokenM::Raw(s@),
        AsmToken::Value(s) => AsmTokenM::Value(s@),
        AsmToken::Addr(s) => AsmTokenM::Addr(s@),
    }
}

pub open spec fn asm_tokens_view(s: Seq<AsmToken>) -> Seq<AsmTokenM> {
    Seq::new(s.len(), |i: int| asm_token_view(s[i]))
}

pub open spec fn asm_lines_view(s: Seq<AsmLine>) -> Seq<Seq<AsmTokenM>> {
    Seq::new(s.len(), |i: int| asm_tokens_view(s[i].tokens@))
}

pub open spec fn stmt_view(s: Stmt) -> StmtM
    decreases s,
{
    match s {
        Stmt::Let(l) => StmtM::Let {
            name: l.name@,
            ty: types::opt_type_view(l.ty),
            init: l.init@,
            span: l.span,
        },
        Stmt::Assign(a) => StmtM::Assign {
            target: lvalue_view(a.target),
            value: a.value@,
            span: a.span,
        },
        Stmt::Return(r) => StmtM::Return { value: opt_expr_view(r.value), span: r.span },
        Stmt::If(i) => StmtM::If {
            branches: branches_view(i.branches@),
            else_block: match i.else_block {
                Some(b) => Some(block_view(b)),
                None => None,
            },
            span: i.span,
        },
        Stmt::While(w) => StmtM::While {
            condition: w.condition@,
            body: block_view(w.body),
            span: w.span,
        },
        Stmt::Break(span) => StmtM::Break(span),
        Stmt::Continue(span) => StmtM::Continue(span),
        Stmt::Expr(e) => StmtM::Expr(e@),
        Stmt::Asm(a) => StmtM::Asm { lines: asm_lines_view(a.lines@), span: a.span },
    }
}

pub open spec fn block_view(b: Block) -> BlockM
    decreases b,
{
    BlockM { stmts: stmts_view(b.stmts@) }
}

pub open spec fn stmts_view(s: Seq<Stmt>) -> Seq<StmtM>
    decreases s,
{
    Seq::new(s.len(), |i: int| if 0 <= i < s.len() { stmt_view(s[i]) } else { arbitrary() })
}

pub open spec fn branches_view(s: Seq<(Expr, Block)>) -> Seq<(ExprM, BlockM)>
    decreases s,
{
    Seq::new(
        s.len(),
        |i: int|
            if 0 <= i < s.len() {
                (s[i].0@, block_view(s[i].1))
            } else {
                arbitrary()
            },
    )
}

impl View for Stmt {
    type V = StmtM;

    open spec fn view(&self) -> StmtM {
        stmt_view(*self)
    }
}

impl View for Block {
    type V = BlockM;

    open spec fn view(&self) -> BlockM {
        block_view(*self)
    }
}

pub open spec fn param_view(p: Param) -> ParamM {
    ParamM {
        kind: match p.kind {
            ParamKind::Named { name, ty } => ParamKindM::Named { name: name@, ty: ty@ },
            ParamKind::SelfRef => ParamKindM::SelfRef,
            ParamKind::SelfMutRef => ParamKindM::SelfMutRef,
            ParamKind::SelfMove => ParamKindM::SelfMove,
        },
        span: p.span,
    }
}

pub open spec fn params_view(s: Seq<Param>) -> Seq<ParamM> {
    Seq::new(s.len(), |i: int| param_view(s[i]))
}

pub open spec fn fn_view(f: FnDecl) -> FnDeclM {
    FnDeclM {
        name: f.name@,
        params: params_view(f.params@),
        return_type: f.return_type@,
        body: f.body@,
        span: f.span,
    }
}

pub open spec fn fns_view(s: Seq<FnDecl>) -> Seq<FnDeclM> {
    Seq::new(s.len(), |i: int| fn_view(s[i]))
}

pub open spec fn field_view(f: FieldDecl) -> FieldDeclM {
    FieldDeclM { name: f.name@, ty: f.ty@, span: f.span }
}

pub open spec fn fields_view(s: Seq<FieldDecl>) -> Seq<FieldDeclM> {
    Seq::new(s.len(), |i: int| field_view(s[i]))
}

pub open spec fn struct_view(s: StructDecl) -> StructDeclM {
    StructDeclM {
        name: s.name@,
        fields: fields_view(s.fields@),
        methods: fns_view(s.methods@),
        span: s.span,
    }
}

pub open spec fn extend_view(e: ExtendDecl) -> ExtendDeclM {
    ExtendDeclM {
        module: opt_text_view(e.module),
        name: e.name@,
        methods: fns_view(e.methods@),
        span: e.span,
    }
}

pub open spec fn import_view(i: ImportKind) -> ImportKindM {
    match i {
        ImportKind::Named { module, name, alias } => ImportKindM::Named {
            module: module@,
            name: name@,
            alias: opt_text_view(alias),
        },
        ImportKind::Glob { module } => ImportKindM::Glob { module: module@ },
        ImportKind::Module { name } => ImportKindM::Module { name: name@ },
    }
}

pub open spec fn item_view(i: Item) -> ItemM {
    match i {
        Item::Import(d) => ItemM::Import(import_view(d.kind)),
        Item::Struct(s) => ItemM::Struct(struct_view(s)),
        Item::Fn(f) => ItemM::Fn(fn_view(f)),
        Item::Extend(e) => ItemM::Extend(extend_view(e)),
    }
}

pub open spec fn items_view(s: Seq<Item>) -> Seq<ItemM> {
    Seq::new(s.len(), |i: int| item_view(s[i]))
}

impl View for Item {
    type V = ItemM;

    open spec fn view(&self) -> ItemM {
        item_view(*self)
    }
}

impl View for Program {
    type V = ProgramM;

    open spec fn view(&self) -> ProgramM {
        ProgramM { items: items_view(self.items@) }
    }
}

// ---------------------------------------------------------------------------
// Operations
// ---------------------------------------------------------------------------

/// An expression as the parser builds it: not yet typed.
pub open spec fn untyped(kind: ExprKindM, span: Span) -> ExprM {
    ExprM { kind, ty: None, span }
}

impl Expr {
    pub fn new(kind: ExprKind, span: Span) -> (r: Expr)
        ensures
            r@ == untyped(expr_kind_view(kind), span),
            r.kind == kind,
    {
        Expr { kind, ty: None, span }
    }

    /// The resolved type of an expression that has been type-checked.
    pub fn ty(&self) -> (r: &Type)
        requires
            self@.ty is Some,
        ensures
            self@.ty == Some(r@),
    {
        match &self.ty {
            Some(t) => t,
            None => {
                assert(false);
                &Type::Void
            },
        }
    }
}

impl StructNameM {
    pub open spec fn base(self) -> Seq<char> {
        match self {
            StructNameM::Unqualified(n) => n,
            StructNameM::Qualified(_, n) => n,
        }
    }
}

impl View for StructName {
    type V = StructNameM;

    open spec fn view(&self) -> StructNameM {
        struct_name_view(*self)
    }
}

impl StructName {
    /// The bare type name (the part used to look up the struct decl, after
    /// import resolution qualified names still resolve by their last segment).
    pub fn base(&self) -> (r: &str)
        ensures
            r@ == self@.base(),
    {
        match self {
            StructName::Unqualified(n) => n.as_str(),
            StructName::Qualified(_, n) => n.as_str(),
        }
    }
}

/// The method name that a binary operator stands for.
pub open spec fn binary_method(op: BinaryOp) -> Seq<char> {
    match op {
        BinaryOp::Add => "add"@,
        BinaryOp::Sub => "sub"@,
        BinaryOp::Mul => "mul"@,
        BinaryOp::Div => "div"@,
        BinaryOp::Mod => "mod_"@,
        BinaryOp::Eq => "eq"@,
        BinaryOp::Ne => "ne"@,
        BinaryOp::Lt => "lt"@,
        BinaryOp::Gt => "gt"@,
        BinaryOp::Le => "le"@,
        BinaryOp::Ge => "ge"@,
        BinaryOp::And => "and"@,
        BinaryOp::Or => "or"@,
    }
}

/// The method name that `-` or `!` stands for; the reference operators have none.
pub open spec fn unary_method(op: UnaryOp) -> Option<Seq<char>> {
    match op {
        UnaryOp::Neg => Some("neg"@),
        UnaryOp::Not => Some("not"@),
        _ => None,
    }
}

impl BinaryOp {
    /// The stdlib method name this operator desugars to.
    pub fn method_name(self) -> (r: &'static str)
        ensures
            r@ == binary_method(self),
    {
        match self {
            BinaryOp::Add => "add",
            BinaryOp::Sub => "sub",
            BinaryOp::Mul => "mul",
            BinaryOp::Div => "div",
            BinaryOp::Mod => "mod_",
            BinaryOp::Eq => "eq",
            BinaryOp::Ne => "ne",
            BinaryOp::Lt => "lt",
            BinaryOp::Gt => "gt",
            BinaryOp::Le => "le",
            BinaryOp::Ge => "ge",
            BinaryOp::And => "and",
            BinaryOp::Or => "or",
        }
    }
}

impl UnaryOp {
    /// The stdlib method name for the desugarable unary ops (`-`, `!`).
    pub fn method_name(self) -> (r: Option<&'static str>)
        ensures
            match r {
                Some(m) => unary_method(self) == Some(m@),
                None => unary_method(self) is None,
            },
    {
        match self {
            UnaryOp::Neg => Some("neg"),
            UnaryOp::Not => Some("not"),
            _ => None,
        }
    }
}

// ---------------------------------------------------------------------------
// Copies
// ---------------------------------------------------------------------------

impl StructName {
    /// An equal name.
    pub fn copy(&self) -> (r: StructName)
        ensures
            r@ == self@,
    {
        match self {
            StructName::Unqualified(n) => StructName::Unqualified(n.clone()),
            StructName::Qualified(m, n) => StructName::Qualified(m.clone(), n.clone()),
        }
    }
}

impl ImportDecl {
    /// An equal import.
    pub fn copy(&self) -> (r: ImportDecl)
        ensures
            import_view(r.kind) == import_view(self.kind),
    {
        let kind = match &self.kind {
            ImportKind::Named { module, name, alias } => {
                let alias = match alias {
                    Some(a) => Some(a.clone()),
                    None => None,
                };
                ImportKind::Named { module: module.clone(), name: name.clone(), alias }
            },
            ImportKind::Glob { module } => ImportKind::Glob { module: module.clone() },
            ImportKind::Module { name } => ImportKind::Module { name: name.clone() },
        };
        ImportDecl { kind }
    }
}

impl Expr {
    /// An equal expression.
    pub fn copy(&self) -> (r: Expr)
        ensures
            r@ == self@,
        decreases self,
    {
        let ty = match &self.ty {
            Some(t) => Some(t.copy()),
            None => None,
        };
        Expr { kind: self.kind.copy(), ty, span: self.span }
    }
}

impl ExprKind {
    /// An equal expression kind.
    pub fn copy(&self) -> (r: ExprKind)
        ensures
            expr_kind_view(r) == expr_kind_view(*self),
        decreases self,
    {
        match self {
            ExprKind::IntLit(n) => ExprKind::IntLit(*n),
            ExprKind::FloatLit(s) => ExprKind::FloatLit(s.clone()),
            ExprKind::CharLit(c) => ExprKind::CharLit(*c),
            ExprKind::BoolLit(b) => ExprKind::BoolLit(*b),
            ExprKind::StringLit(s) => ExprKind::StringLit(s.clone()),
            ExprKind::Ident(s) => ExprKind::Ident(s.clone()),
            ExprKind::QualifiedIdent { module, name } => ExprKind::QualifiedIdent {
                module: module.clone(),
                name: name.clone(),
            },
            ExprKind::Unary { op, operand } => ExprKind::Unary {
                op: *op,
                operand: Box::new(operand.copy()),
            },
            ExprKind::Binary { op, left, right } => ExprKind::Binary {
                op: *op,
                left: Box::new(left.copy()),
                right: Box::new(right.copy()),
            },
            ExprKind::Cast { expr, target_type } => ExprKind::Cast {
                expr: Box::new(expr.copy()),
                target_type: target_type.copy(),
            },
            ExprKind::Call { callee, args } => {
                let callee = Box::new(callee.copy());
                let mut out: Vec<Expr> = Vec::new();
                let mut i: usize = 0;
                while i < args.len()
                    invariant
                        i == out@.len(),
                        i <= args@.len(),
                        decreases_to!(self => args@),
                        forall|k: int| 0 <= k < i ==> (#[trigger] out@[k])@ == args@[k]@,
                    decreases args@.len() - i,
                {
                    out.push(args[i].copy());
                    i = i + 1;
                }
                assert(exprs_view(out@) =~= exprs_view(args@));
                ExprKind::Call { callee, args: out }
            },
            ExprKind::Field { object, field } => ExprKind::Field {
                object: Box::new(object.copy()),
                field: field.clone(),
            },
            ExprKind::Ref { mutable, operand } => ExprKind::Ref {
                mutable: *mutable,
                operand: Box::new(operand.copy()),
            },
            ExprKind::Deref { operand } => ExprKind::Deref { operand: Box::new(operand.copy()) },
            ExprKind::StructInit { name, fields } => {
                let name = name.copy();
                let mut out: Vec<(String, Expr)> = Vec::new();
                let mut i: usize = 0;
                while i < fields.len()
                    invariant
                        i == out@.len(),
                        i <= fields@.len(),
                        decreases_to!(self => fields@),
                        forall|k: int|
                            0 <= k < i ==> (#[trigger] out@[k]).0@ == fields@[k].0@
                                && out@[k].1@ == fields@[k].1@,
                    decreases fields@.len() - i,
                {
                    out.push((fields[i].0.clone(), fields[i].1.copy()));
                    i = i + 1;
                }
                assert(inits_view(out@) =~= inits_view(fields@));
                ExprKind::StructInit { name, fields: out }
            },
        }
    }
}

/// An equal list of expressions.
pub fn copy_exprs(args: &Vec<Expr>) -> (r: Vec<Expr>)
    ensures
        exprs_view(r@) == exprs_view(args@),
{
    let mut out: Vec<Expr> = Vec::new();
    let mut i: usize = 0;
    while i < args.len()
        invariant
            i == out@.len(),
            i <= args@.len(),
            forall|k: int| 0 <= k < i ==> (#[trigger] out@[k])@ == args@[k]@,
        decreases args@.len() - i,
    {
        out.push(args[i].copy());
        i = i + 1;
    }
    assert(exprs_view(out@) =~= exprs_view(args@));
    out
}

} // verus!
