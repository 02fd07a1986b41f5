//! AST vocabulary: node kinds, operators and the declaration records.
use vstd::prelude::*;
use crate::doc::count_char;
use crate::text::{dec, dec_chars, push_char, push_chars, push_str};

verus! {

/// Node kinds.
#[derive(Debug, Clone, Copy, PartialEq, Eq, Structural)]
pub enum Kind {
    IntLit,
    FloatLit,
    StringLit,
    BoolLit,
    CharLit,
    ArrayLit,
    Ident,
    BinaryOp,
    UnaryOp,
    Call,
    FieldAccess,
    Index,
    Slice,
    VarDecl,
    Assign,
    ExprStmt,
    Block,
    IfStmt,
    WhileStmt,
    ForStmt,
    ReturnStmt,
    BreakStmt,
    ContinueStmt,
    MatchStmt,
    DeferStmt,
    Function,
    StructDecl,
    EnumDecl,
    Program,
    Error,
}

/// Binary operators.
#[derive(Debug, Clone, Copy, PartialEq, Eq, Structural)]
pub enum BinOp {
    Add,
    Sub,
    Mul,
    Div,
    Mod,
    Eq,
    Neq,
    Lt,
    Le,
    Gt,
    Ge,
    And,
    Or,
    BitAnd,
    BitOr,
    BitXor,
    Shl,
    Shr,
    Concat,
}

/// Unary operators.
#[derive(Debug, Clone, Copy, PartialEq, Eq, Structural)]
pub enum UnOp {
    Neg,
    Not,
    BitNot,
}

/// The source spelling of a binary operator.
pub open spec fn bin_op_symbol(op: BinOp) -> Seq<char> {
    match op {
        BinOp::Add => "+"@,
        BinOp::Sub => "-"@,
        BinOp::Mul => "*"@,
        BinOp::Div => "/"@,
        BinOp::Mod => "%"@,
        BinOp::Eq => "=="@,
        BinOp::Neq => "!="@,
        BinOp::Lt => "<"@,
        BinOp::Le => "<="@,
        BinOp::Gt => ">"@,
        BinOp::Ge => ">="@,
        BinOp::And => "&&"@,
        BinOp::Or => "||"@,
        BinOp::BitAnd => "&"@,
        BinOp::BitOr => "|"@,
        BinOp::BitXor => "^"@,
        BinOp::Shl => "<<"@,
        BinOp::Shr => ">>"@,
        BinOp::Concat => "++"@,
    }
}

/// The source spelling of a unary operator.
pub open spec fn un_op_symbol(op: UnOp) -> Seq<char> {
    match op {
        UnOp::Neg => "-"@,
        UnOp::Not => "!"@,
        UnOp::BitNot => "~"@,
    }
}

impl BinOp {
    /// The operator as written in source (what `Display` prints).
    pub fn symbol(&self) -> (r: &'static str)
        ensures
            r@ == bin_op_symbol(*self),
    {
        match self {
            BinOp::Add => "+",
            BinOp::Sub => "-",
            BinOp::Mul => "*",
            BinOp::Div => "/",
            BinOp::Mod => "%",
            BinOp::Eq => "==",
            BinOp::Neq => "!=",
            BinOp::Lt => "<",
            BinOp::Le => "<=",
            BinOp::Gt => ">",
            BinOp::Ge => ">=",
            BinOp::And => "&&",
            BinOp::Or => "||",
            BinOp::BitAnd => "&",
            BinOp::BitOr => "|",
            BinOp::BitXor => "^",
            BinOp::Shl => "<<",
            BinOp::Shr => ">>",
            BinOp::Concat => "++",
        }
    }
}

impl UnOp {
    /// The operator as written in source (what `Display` prints).
    pub fn symbol(&self) -> (r: &'static str)
        ensures
            r@ == un_op_symbol(*self),
    {
        match self {
            UnOp::Neg => "-",
            UnOp::Not => "!",
            UnOp::BitNot => "~",
        }
    }
}

/// The two forms of `for`.
#[derive(Debug, Clone, Copy)]
pub enum ForKind {
    ForIn,
    ForRange,
}

/// A function parameter.
#[derive(Debug, Clone)]
pub struct Param {
    pub name: String,
    pub ty_name: Option<String>,
}

/// A struct field.
#[derive(Debug, Clone)]
pub struct FieldDecl {
    pub name: String,
    pub ty_name: Option<String>,
}

/// A struct declaration.
#[derive(Debug, Clone)]
pub struct StructDecl {
    pub name: String,
    pub fields: Vec<FieldDecl>,
}

/// An enum variant with its optional payload description.
#[derive(Debug, Clone)]
pub struct VariantDecl {
    pub name: String,
    pub payload: Option<String>,
}

/// An enum declaration.
#[derive(Debug, Clone)]
pub struct EnumDecl {
    pub name: String,
    pub variants: Vec<VariantDecl>,
}

/// A field with its type.
pub fn field_decl(name: String, ty_name: String) -> (f: FieldDecl)
    ensures
        f.name == name,
        f.ty_name == Some(ty_name),
{
    FieldDecl { name, ty_name: Some(ty_name) }
}

pub fn variant_decl(name: String, payload: Option<String>) -> (v: VariantDecl)
    ensures
        v.name == name,
        v.payload == payload,
{
    VariantDecl { name, payload }
}

pub fn param(name: String, ty_name: Option<String>) -> (p: Param)
    ensures
        p.name == name,
        p.ty_name == ty_name,
{
    Param { name, ty_name }
}


// ---------------------------------------------------------------------
// Syntax trees
// ---------------------------------------------------------------------

/// A string literal: text pieces and interpolated expressions.
#[derive(Debug)]
pub struct StringLit {
    pub parts: Vec<InterpPart>,
}

/// A piece of a string literal.
#[derive(Debug)]
pub enum InterpPart {
    Text(String),
    Expr(Box<Expr>),
}

#[derive(Debug)]
pub struct BinaryOp {
    pub op: BinOp,
    pub lhs: Box<Expr>,
    pub rhs: Box<Expr>,
}

#[derive(Debug)]
pub struct UnaryOp {
    pub op: UnOp,
    pub operand: Box<Expr>,
}

#[derive(Debug)]
pub struct Call {
    pub func: Box<Expr>,
    pub args: Vec<Expr>,
}

#[derive(Debug)]
pub struct FieldAccess {
    pub obj: Box<Expr>,
    pub field: String,
}

#[derive(Debug)]
pub struct Index {
    pub obj: Box<Expr>,
    pub index: Box<Expr>,
}

#[derive(Debug)]
pub struct Slice {
    pub obj: Box<Expr>,
    pub start: Option<Box<Expr>>,
    pub end: Option<Box<Expr>>,
    pub inclusive: bool,
}

#[derive(Debug)]
pub struct VarDecl {
    pub name: String,
    pub ty_name: Option<String>,
    pub is_mut: bool,
    pub init: Option<Box<Expr>>,
}

#[derive(Debug)]
pub struct Assign {
    pub target: Box<Expr>,
    pub value: Box<Expr>,
}

#[derive(Debug)]
pub struct ExprStmt {
    pub expr: Box<Expr>,
}

#[derive(Debug)]
pub struct Block {
    pub stmts: Vec<Expr>,
}

#[derive(Debug)]
pub struct IfStmt {
    pub cond: Box<Expr>,
    pub then_block: Box<Expr>,
    pub else_block: Option<Box<Expr>>,
}

#[derive(Debug)]
pub struct WhileStmt {
    pub cond: Box<Expr>,
    pub body: Box<Expr>,
}

#[derive(Debug)]
pub struct ForStmt {
    pub kind: ForKind,
    pub var_name: String,
    pub iterable: Option<Box<Expr>>,
    pub start: Option<Box<Expr>>,
    pub end: Option<Box<Expr>>,
    pub step: Option<Box<Expr>>,
    pub body: Box<Expr>,
}

#[derive(Debug)]
pub struct ReturnStmt {
    pub value: Option<Box<Expr>>,
}

#[derive(Debug)]
pub struct MatchArm {
    pub pattern: String,
    pub body: Box<Expr>,
}

#[derive(Debug)]
pub struct MatchStmt {
    pub scrutinee: Box<Expr>,
    pub arms: Vec<MatchArm>,
}

#[derive(Debug)]
pub struct DeferStmt {
    pub expr: Box<Expr>,
}

#[derive(Debug)]
pub struct Function {
    pub name: String,
    pub params: Vec<Param>,
    pub ret_type: Option<String>,
    pub body: Box<Expr>,
}

#[derive(Debug)]
pub struct Program {
    pub items: Vec<Expr>,
}

/// The payload of a node. A float literal keeps its source text.
#[derive(Debug)]
pub enum ExprData {
    IntLit(i64),
    FloatLit(String),
    StringLit(StringLit),
    BoolLit(bool),
    CharLit(i32),
    ArrayLit(Vec<Expr>),
    Ident(String),
    BinaryOp(BinaryOp),
    UnaryOp(UnaryOp),
    Call(Call),
    FieldAccess(FieldAccess),
    Index(Index),
    Slice(Slice),
    VarDecl(VarDecl),
    Assign(Assign),
    ExprStmt(ExprStmt),
    Block(Block),
    IfStmt(IfStmt),
    WhileStmt(WhileStmt),
    ForStmt(ForStmt),
    ReturnStmt(ReturnStmt),
    BreakStmt,
    ContinueStmt,
    MatchStmt(MatchStmt),
    DeferStmt(DeferStmt),
    Function(Function),
    StructDecl(StructDecl),
    EnumDecl(EnumDecl),
    Program(Program),
    Error,
}

/// A syntax tree node: its kind, its 1-based position and its payload.
#[derive(Debug)]
pub struct Expr {
    pub kind: Kind,
    pub line: u32,
    pub col: u32,
    pub data: ExprData,
}

fn node(kind: Kind, line: u32, col: u32, data: ExprData) -> (e: Expr)
    ensures
        e == (Expr { kind, line, col, data }),
{
    Expr { kind, line, col, data }
}

pub fn new_int_lit(v: i64, line: u32, col: u32) -> (e: Expr)
    ensures
        e == (Expr { kind: Kind::IntLit, line, col, data: ExprData::IntLit(v) }),
{
    node(Kind::IntLit, line, col, ExprData::IntLit(v))
}

/// A float literal, kept as its source text.
pub fn new_float_lit(text: String, line: u32, col: u32) -> (e: Expr)
    ensures
        e == (Expr { kind: Kind::FloatLit, line, col, data: ExprData::FloatLit(text) }),
{
    node(Kind::FloatLit, line, col, ExprData::FloatLit(text))
}

pub fn new_bool_lit(v: bool, line: u32, col: u32) -> (e: Expr)
    ensures
        e == (Expr { kind: Kind::BoolLit, line, col, data: ExprData::BoolLit(v) }),
{
    node(Kind::BoolLit, line, col, ExprData::BoolLit(v))
}

pub fn new_char_lit(v: i32, line: u32, col: u32) -> (e: Expr)
    ensures
        e == (Expr { kind: Kind::CharLit, line, col, data: ExprData::CharLit(v) }),
{
    node(Kind::CharLit, line, col, ExprData::CharLit(v))
}

pub fn new_ident(name: String, line: u32, col: u32) -> (e: Expr)
    ensures
        e == (Expr { kind: Kind::Ident, line, col, data: ExprData::Ident(name) }),
{
    node(Kind::Ident, line, col, ExprData::Ident(name))
}

pub fn new_array_lit(items: Vec<Expr>, line: u32, col: u32) -> (e: Expr)
    ensures
        e == (Expr { kind: Kind::ArrayLit, line, col, data: ExprData::ArrayLit(items) }),
{
    node(Kind::ArrayLit, line, col, ExprData::ArrayLit(items))
}

/// A string literal of one text piece.
pub fn string_lit_simple(text: &str) -> (s: StringLit)
    ensures
        s.parts@.len() == 1,
        s.parts@[0] matches InterpPart::Text(t) && t@ == text@,
{
    let mut parts: Vec<InterpPart> = Vec::new();
    parts.push(InterpPart::Text(text.to_owned()));
    StringLit { parts }
}

pub fn new_string_lit(s: StringLit, line: u32, col: u32) -> (e: Expr)
    ensures
        e == (Expr { kind: Kind::StringLit, line, col, data: ExprData::StringLit(s) }),
{
    node(Kind::StringLit, line, col, ExprData::StringLit(s))
}

pub fn new_binary(op: BinOp, lhs: Expr, rhs: Expr, line: u32, col: u32) -> (e: Expr)
    ensures
        e == (Expr {
            kind: Kind::BinaryOp,
            line,
            col,
            data: ExprData::BinaryOp(BinaryOp { op, lhs: Box::new(lhs), rhs: Box::new(rhs) }),
        }),
{
    node(Kind::BinaryOp, line, col, ExprData::BinaryOp(BinaryOp { op, lhs: Box::new(lhs), rhs: Box::new(rhs) }))
}

pub fn new_var_decl(name: String, ty_name: Option<String>, is_mut: bool, init: Option<Expr>, line: u32, col: u32) -> (e: Expr)
    ensures
        e.kind == Kind::VarDecl,
        e.line == line,
        e.col == col,
        e.data matches ExprData::VarDecl(v) && v.name == name && v.ty_name == ty_name && v.is_mut == is_mut
            && match init {
            Some(i) => v.init == Some(Box::new(i)),
            None => v.init is None,
        },
{
    let init = match init {
        Some(i) => Some(Box::new(i)),
        None => None,
    };
    node(Kind::VarDecl, line, col, ExprData::VarDecl(VarDecl { name, ty_name, is_mut, init }))
}

pub fn new_block(stmts: Vec<Expr>, line: u32, col: u32) -> (e: Expr)
    ensures
        e == (Expr { kind: Kind::Block, line, col, data: ExprData::Block(Block { stmts }) }),
{
    node(Kind::Block, line, col, ExprData::Block(Block { stmts }))
}

pub fn new_program(items: Vec<Expr>, line: u32, col: u32) -> (e: Expr)
    ensures
        e == (Expr { kind: Kind::Program, line, col, data: ExprData::Program(Program { items }) }),
{
    node(Kind::Program, line, col, ExprData::Program(Program { items }))
}

// ---------------------------------------------------------------------
// Trees as values
// ---------------------------------------------------------------------

/// A syntax tree as a value: the shape of `Expr`, its texts as character sequences.
pub struct Syn {
    pub kind: Kind,
    pub line: u32,
    pub col: u32,
    pub data: SynData,
}

/// A piece of a string literal, as a value.
pub enum SynPart {
    Text(Seq<char>),
    Expr(Syn),
}

/// A node's payload, as a value (see `ExprData`).
pub enum SynData {
    IntLit(i64),
    FloatLit(Seq<char>),
    StringLit(Seq<SynPart>),
    BoolLit(bool),
    CharLit(i32),
    ArrayLit(Seq<Syn>),
    Ident(Seq<char>),
    BinaryOp(BinOp, Box<Syn>, Box<Syn>),
    UnaryOp(UnOp, Box<Syn>),
    Call(Box<Syn>, Seq<Syn>),
    FieldAccess(Box<Syn>, Seq<char>),
    Index(Box<Syn>, Box<Syn>),
    Slice(Box<Syn>, Option<Box<Syn>>, Option<Box<Syn>>, bool),
    VarDecl(Seq<char>, Option<Seq<char>>, bool, Option<Box<Syn>>),
    Assign(Box<Syn>, Box<Syn>),
    ExprStmt(Box<Syn>),
    Block(Seq<Syn>),
    IfStmt(Box<Syn>, Box<Syn>, Option<Box<Syn>>),
    WhileStmt(Box<Syn>, Box<Syn>),
    ForStmt(ForKind, Seq<char>, Option<Box<Syn>>, Option<Box<Syn>>, Option<Box<Syn>>, Option<Box<Syn>>, Box<Syn>),
    ReturnStmt(Option<Box<Syn>>),
    BreakStmt,
    ContinueStmt,
    MatchStmt(Box<Syn>, Seq<(Seq<char>, Syn)>),
    DeferStmt(Box<Syn>),
    Function(Seq<char>, Seq<(Seq<char>, Option<Seq<char>>)>, Option<Seq<char>>, Box<Syn>),
    StructDecl(Seq<char>, Seq<(Seq<char>, Option<Seq<char>>)>),
    EnumDecl(Seq<char>, Seq<(Seq<char>, Option<Seq<char>>)>),
    Program(Seq<Syn>),
    Error,
}

pub open spec fn opt_str(o: Option<String>) -> Option<Seq<char>> {
    match o {
        Some(t) => Some(t@),
        None => None,
    }
}

pub open spec fn syn_opt(o: Option<Box<Expr>>) -> Option<Box<Syn>>
    decreases o, 0nat,
{
    match o {
        Some(x) => Some(Box::new(syn_of(*x))),
        None => None,
    }
}

pub open spec fn syn_list(es: Seq<Expr>) -> Seq<Syn>
    decreases es, 0nat,
{
    if es.len() == 0 {
        seq![]
    } else {
        syn_list(es.subrange(0, es.len() - 1)).push(syn_of(es.last()))
    }
}

pub open spec fn syn_parts(ps: Seq<InterpPart>) -> Seq<SynPart>
    decreases ps, 0nat,
{
    if ps.len() == 0 {
        seq![]
    } else {
        syn_parts(ps.subrange(0, ps.len() - 1)).push(
            match ps.last() {
                InterpPart::Text(t) => SynPart::Text(t@),
                InterpPart::Expr(x) => SynPart::Expr(syn_of(*x)),
            },
        )
    }
}

pub open spec fn syn_arms(arms: Seq<MatchArm>) -> Seq<(Seq<char>, Syn)>
    decreases arms, 0nat,
{
    if arms.len() == 0 {
        seq![]
    } else {
        syn_arms(arms.subrange(0, arms.len() - 1)).push((arms.last().pattern@, syn_of(*arms.last().body)))
    }
}

pub open spec fn syn_params(ps: Seq<Param>) -> Seq<(Seq<char>, Option<Seq<char>>)> {
    ps.map_values(|p: Param| (p.name@, opt_str(p.ty_name)))
}

pub open spec fn syn_fields(fs: Seq<FieldDecl>) -> Seq<(Seq<char>, Option<Seq<char>>)> {
    fs.map_values(|f: FieldDecl| (f.name@, opt_str(f.ty_name)))
}

pub open spec fn syn_variants(vs: Seq<VariantDecl>) -> Seq<(Seq<char>, Option<Seq<char>>)> {
    vs.map_values(|v: VariantDecl| (v.name@, opt_str(v.payload)))
}

/// The value a tree stands for.
pub open spec fn syn_of(e: Expr) -> Syn
    decreases e, 1nat,
{
    Syn {
        kind: e.kind,
        line: e.line,
        col: e.col,
        data: match e.data {
            ExprData::IntLit(v) => SynData::IntLit(v),
            ExprData::FloatLit(t) => SynData::FloatLit(t@),
            ExprData::StringLit(sl) => SynData::StringLit(syn_parts(sl.parts@)),
            ExprData::BoolLit(b) => SynData::BoolLit(b),
            ExprData::CharLit(v) => SynData::CharLit(v),
            ExprData::ArrayLit(items) => SynData::ArrayLit(syn_list(items@)),
            ExprData::Ident(n) => SynData::Ident(n@),
            ExprData::BinaryOp(b) => SynData::BinaryOp(b.op, Box::new(syn_of(*b.lhs)), Box::new(syn_of(*b.rhs))),
            ExprData::UnaryOp(u) => SynData::UnaryOp(u.op, Box::new(syn_of(*u.operand))),
            ExprData::Call(c) => SynData::Call(Box::new(syn_of(*c.func)), syn_list(c.args@)),
            ExprData::FieldAccess(f) => SynData::FieldAccess(Box::new(syn_of(*f.obj)), f.field@),
            ExprData::Index(i) => SynData::Index(Box::new(syn_of(*i.obj)), Box::new(syn_of(*i.index))),
            ExprData::Slice(sl) => SynData::Slice(Box::new(syn_of(*sl.obj)), syn_opt(sl.start), syn_opt(sl.end), sl.inclusive),
            ExprData::VarDecl(v) => SynData::VarDecl(v.name@, opt_str(v.ty_name), v.is_mut, syn_opt(v.init)),
            ExprData::Assign(a) => SynData::Assign(Box::new(syn_of(*a.target)), Box::new(syn_of(*a.value))),
            ExprData::ExprStmt(x) => SynData::ExprStmt(Box::new(syn_of(*x.expr))),
            ExprData::Block(b) => SynData::Block(syn_list(b.stmts@)),
            ExprData::IfStmt(i) => SynData::IfStmt(Box::new(syn_of(*i.cond)), Box::new(syn_of(*i.then_block)), syn_opt(i.else_block)),
            ExprData::WhileStmt(w) => SynData::WhileStmt(Box::new(syn_of(*w.cond)), Box::new(syn_of(*w.body))),
            ExprData::ForStmt(f) => SynData::ForStmt(f.kind, f.var_name@, syn_opt(f.iterable), syn_opt(f.start), syn_opt(f.end), syn_opt(f.step), Box::new(syn_of(*f.body))),
            ExprData::ReturnStmt(r) => SynData::ReturnStmt(syn_opt(r.value)),
            ExprData::BreakStmt => SynData::BreakStmt,
            ExprData::ContinueStmt => SynData::ContinueStmt,
            ExprData::MatchStmt(m) => SynData::MatchStmt(Box::new(syn_of(*m.scrutinee)), syn_arms(m.arms@)),
            ExprData::DeferStmt(d) => SynData::DeferStmt(Box::new(syn_of(*d.expr))),
            ExprData::Function(f) => SynData::Function(f.name@, syn_params(f.params@), opt_str(f.ret_type), Box::new(syn_of(*f.body))),
            ExprData::StructDecl(sd) => SynData::StructDecl(sd.name@, syn_fields(sd.fields@)),
            ExprData::EnumDecl(en) => SynData::EnumDecl(en.name@, syn_variants(en.variants@)),
            ExprData::Program(p) => SynData::Program(syn_list(p.items@)),
            ExprData::Error => SynData::Error,
        },
    }
}

// ---------------------------------------------------------------------
// Tree text
// ---------------------------------------------------------------------

/// The name of a node kind, as `Debug` prints it.
pub open spec fn kind_debug(k: Kind) -> Seq<char> {
    match k {
        Kind::IntLit => "IntLit"@,
        Kind::FloatLit => "FloatLit"@,
        Kind::StringLit => "StringLit"@,
        Kind::BoolLit => "BoolLit"@,
        Kind::CharLit => "CharLit"@,
        Kind::ArrayLit => "ArrayLit"@,
        Kind::Ident => "Ident"@,
        Kind::BinaryOp => "BinaryOp"@,
        Kind::UnaryOp => "UnaryOp"@,
        Kind::Call => "Call"@,
        Kind::FieldAccess => "FieldAccess"@,
        Kind::Index => "Index"@,
        Kind::Slice => "Slice"@,
        Kind::VarDecl => "VarDecl"@,
        Kind::Assign => "Assign"@,
        Kind::ExprStmt => "ExprStmt"@,
        Kind::Block => "Block"@,
        Kind::IfStmt => "IfStmt"@,
        Kind::WhileStmt => "WhileStmt"@,
        Kind::ForStmt => "ForStmt"@,
        Kind::ReturnStmt => "ReturnStmt"@,
        Kind::BreakStmt => "BreakStmt"@,
        Kind::ContinueStmt => "ContinueStmt"@,
        Kind::MatchStmt => "MatchStmt"@,
        Kind::DeferStmt => "DeferStmt"@,
        Kind::Function => "Function"@,
        Kind::StructDecl => "StructDecl"@,
        Kind::EnumDecl => "EnumDecl"@,
        Kind::Program => "Program"@,
        Kind::Error => "Error"@,
    }
}

pub fn kind_name(k: Kind) -> (r: &'static str)
    ensures
        r@ == kind_debug(k),
{
    match k {
        Kind::IntLit => "IntLit",
        Kind::FloatLit => "FloatLit",
        Kind::StringLit => "StringLit",
        Kind::BoolLit => "BoolLit",
        Kind::CharLit => "CharLit",
        Kind::ArrayLit => "ArrayLit",
        Kind::Ident => "Ident",
        Kind::BinaryOp => "BinaryOp",
        Kind::UnaryOp => "UnaryOp",
        Kind::Call => "Call",
        Kind::FieldAccess => "FieldAccess",
        Kind::Index => "Index",
        Kind::Slice => "Slice",
        Kind::VarDecl => "VarDecl",
        Kind::Assign => "Assign",
        Kind::ExprStmt => "ExprStmt",
        Kind::Block => "Block",
        Kind::IfStmt => "IfStmt",
        Kind::WhileStmt => "WhileStmt",
        Kind::ForStmt => "ForStmt",
        Kind::ReturnStmt => "ReturnStmt",
        Kind::BreakStmt => "BreakStmt",
        Kind::ContinueStmt => "ContinueStmt",
        Kind::MatchStmt => "MatchStmt",
        Kind::DeferStmt => "DeferStmt",
        Kind::Function => "Function",
        Kind::StructDecl => "StructDecl",
        Kind::EnumDecl => "EnumDecl",
        Kind::Program => "Program",
        Kind::Error => "Error",
    }
}

pub open spec fn for_kind_debug(k: ForKind) -> Seq<char> {
    match k {
        ForKind::ForIn => "ForIn"@,
        ForKind::ForRange => "ForRange"@,
    }
}

/// `n` spaces.
pub open spec fn spaces(n: nat) -> Seq<char> {
    Seq::new(n, |i: int| ' ')
}

pub open spec fn bool_text(b: bool) -> Seq<char> {
    if b {
        "true"@
    } else {
        "false"@
    }
}

/// An `i64` in decimal, with its sign.
pub open spec fn int_text(v: i64) -> Seq<char> {
    if v < 0 {
        seq!['-'] + dec((-v) as nat)
    } else {
        dec(v as nat)
    }
}

pub open spec fn hex_digit(d: nat) -> char {
    if d < 10 {
        ((48 + d) as u32) as char
    } else {
        ((55 + d) as u32) as char
    }
}

/// Upper-case hexadecimal digits of `n`, without leading zeros.
pub open spec fn hex(n: nat) -> Seq<char>
    decreases n,
{
    if n < 16 {
        seq![hex_digit(n)]
    } else {
        hex(n / 16).push(hex_digit(n % 16))
    }
}

/// `{:04X}` of an `i32`: its two's-complement bits in hexadecimal, at least four digits.
pub open spec fn hex4(v: i32) -> Seq<char> {
    let h = hex((v as u32) as nat);
    if h.len() < 4 {
        Seq::new((4 - h.len()) as nat, |i: int| '0') + h
    } else {
        h
    }
}

/// `{:?}` of a string: quoted, with special characters escaped.
pub uninterp spec fn debug_quoted(s: Seq<char>) -> Seq<char>;

/// `<str as Debug>::fmt`, reached through `format!("{:?}", ..)`. Its result (the text in
/// double quotes, with quotes, backslashes and control characters escaped) is a function of
/// the text alone, and is named here rather than spelled out.
#[verifier::external_body]
fn str_debug(s: &str) -> (r: String)
    ensures
        r@ == debug_quoted(s@),
{
    format!("{:?}", s)
}

/// `pad`, the node's kind and position: the start of a node's first line.
pub open spec fn header_text(e: Expr, n: nat) -> Seq<char> {
    spaces(n) + kind_debug(e.kind) + "@"@ + dec(e.line as nat) + ":"@ + dec(e.col as nat)
}

pub open spec fn opt_text(o: Option<Box<Expr>>, n: nat) -> Seq<char>
    decreases o, 0nat,
{
    match o {
        Some(x) => expr_text(*x, n),
        None => seq![],
    }
}

/// The nodes of a list, one after another.
pub open spec fn exprs_text(es: Seq<Expr>, n: nat) -> Seq<char>
    decreases es, 0nat,
{
    if es.len() == 0 {
        seq![]
    } else {
        exprs_text(es.subrange(0, es.len() - 1), n) + expr_text(es.last(), n)
    }
}

/// The pieces of a string literal: texts as `text: "..."` lines, expressions as nodes.
pub open spec fn parts_text(ps: Seq<InterpPart>, n: nat) -> Seq<char>
    decreases ps, 0nat,
{
    if ps.len() == 0 {
        seq![]
    } else {
        parts_text(ps.subrange(0, ps.len() - 1), n) + match ps.last() {
            InterpPart::Text(t) => spaces(n) + "  text: \""@ + t@ + "\"\n"@,
            InterpPart::Expr(x) => expr_text(*x, n + 2),
        }
    }
}

/// The arms of a match: each pattern line, then its body.
pub open spec fn arms_text(arms: Seq<MatchArm>, n: nat) -> Seq<char>
    decreases arms, 0nat,
{
    if arms.len() == 0 {
        seq![]
    } else {
        arms_text(arms.subrange(0, arms.len() - 1), n) + spaces(n) + "  pattern="@ + debug_quoted(
            arms.last().pattern@,
        ) + "\n"@ + expr_text(*arms.last().body, n + 2)
    }
}

pub open spec fn params_text(ps: Seq<Param>, n: nat) -> Seq<char>
    decreases ps.len(),
{
    if ps.len() == 0 {
        seq![]
    } else {
        params_text(ps.drop_last(), n) + spaces(n) + "  param="@ + ps.last().name@ + "\n"@
    }
}

pub open spec fn fields_text(fs: Seq<FieldDecl>, n: nat) -> Seq<char>
    decreases fs.len(),
{
    if fs.len() == 0 {
        seq![]
    } else {
        fields_text(fs.drop_last(), n) + spaces(n) + "  field="@ + fs.last().name@ + ":"@ + match fs.last().ty_name {
            Some(t) => t@,
            None => "?"@,
        } + "\n"@
    }
}

pub open spec fn variants_text(vs: Seq<VariantDecl>, n: nat) -> Seq<char>
    decreases vs.len(),
{
    if vs.len() == 0 {
        seq![]
    } else {
        variants_text(vs.drop_last(), n) + spaces(n) + "  variant="@ + vs.last().name@ + "\n"@
    }
}

/// The text of a tree, indented by `n`: the node's kind and position with what
/// it holds on its first line, then its children indented by two more.
pub open spec fn expr_text(e: Expr, n: nat) -> Seq<char>
    decreases e, 1nat,
{
    header_text(e, n) + tail_text(e, n)
}

/// What follows a node's kind and position: the rest of its first line, then its children.
pub open spec fn tail_text(e: Expr, n: nat) -> Seq<char>
    decreases e, 0nat,
{
    let m = n + 2;
    match e.data {
        ExprData::IntLit(v) => " = "@ + int_text(v) + "\n"@,
        ExprData::FloatLit(t) => " = "@ + t@ + "\n"@,
        ExprData::BoolLit(b) => " = "@ + bool_text(b) + "\n"@,
        ExprData::CharLit(v) => " = U+"@ + hex4(v) + "\n"@,
        ExprData::ArrayLit(items) => " items="@ + dec(items@.len()) + "\n"@ + exprs_text(items@, m),
        ExprData::Ident(s) => " name="@ + s@ + "\n"@,
        ExprData::StringLit(sl) => " parts="@ + dec(sl.parts@.len()) + "\n"@ + parts_text(sl.parts@, n),
        ExprData::BinaryOp(b) => " op="@ + bin_op_symbol(b.op) + "\n"@ + expr_text(*b.lhs, m) + expr_text(*b.rhs, m),
        ExprData::UnaryOp(u) => " op="@ + un_op_symbol(u.op) + "\n"@ + expr_text(*u.operand, m),
        ExprData::Call(c) => " args="@ + dec(c.args@.len()) + "\n"@ + expr_text(*c.func, m) + exprs_text(c.args@, m),
        ExprData::FieldAccess(f) => spaces(n) + " field="@ + f.field@ + "\n"@ + expr_text(*f.obj, m),
        ExprData::Index(i) => "\n"@ + expr_text(*i.obj, m) + expr_text(*i.index, m),
        ExprData::Slice(s) => " inclusive="@ + bool_text(s.inclusive) + "\n"@ + expr_text(*s.obj, m) + opt_text(s.start, m) + opt_text(s.end, m),
        ExprData::VarDecl(v) => " name="@ + v.name@ + " mut="@ + bool_text(v.is_mut) + "\n"@ + match v.ty_name {
            Some(t) => spaces(n) + "  type="@ + t@ + "\n"@,
            None => Seq::<char>::empty(),
        } + opt_text(v.init, m),
        ExprData::Assign(a) => "\n"@ + expr_text(*a.target, m) + expr_text(*a.value, m),
        ExprData::ExprStmt(x) => "\n"@ + expr_text(*x.expr, m),
        ExprData::Block(b) => " stmts="@ + dec(b.stmts@.len()) + "\n"@ + exprs_text(b.stmts@, m),
        ExprData::IfStmt(i) => "\n"@ + expr_text(*i.cond, m) + expr_text(*i.then_block, m) + opt_text(i.else_block, m),
        ExprData::WhileStmt(w) => "\n"@ + expr_text(*w.cond, m) + expr_text(*w.body, m),
        ExprData::ForStmt(f) => " var="@ + f.var_name@ + " kind="@ + for_kind_debug(f.kind) + "\n"@ + opt_text(f.iterable, m) + opt_text(f.start, m) + opt_text(f.end, m) + opt_text(f.step, m) + expr_text(*f.body, m),
        ExprData::ReturnStmt(r) => "\n"@ + opt_text(r.value, m),
        ExprData::BreakStmt => "  <break>\n"@,
        ExprData::ContinueStmt => "  <continue>\n"@,
        ExprData::MatchStmt(ms) => " arms="@ + dec(ms.arms@.len()) + "\n"@ + arms_text(ms.arms@, n),
        ExprData::DeferStmt(d) => "\n"@ + expr_text(*d.expr, m),
        ExprData::Function(f) => " name="@ + f.name@ + " params="@ + dec(f.params@.len()) + "\n"@ + params_text(f.params@, n) + expr_text(*f.body, m),
        ExprData::StructDecl(s) => " name="@ + s.name@ + " fields="@ + dec(s.fields@.len()) + "\n"@ + fields_text(s.fields@, n),
        ExprData::EnumDecl(en) => " name="@ + en.name@ + " variants="@ + dec(en.variants@.len()) + "\n"@ + variants_text(en.variants@, n),
        ExprData::Program(p) => " items="@ + dec(p.items@.len()) + "\n"@ + exprs_text(p.items@, m),
        ExprData::Error => spaces(n) + "  <error>\n"@,
    }
}


// ---------------------------------------------------------------------
// Rendering a tree
// ---------------------------------------------------------------------

broadcast use crate::text::lemma_concat_regroup;

/// The text of the tree under `node`, indented by `indent` spaces: one line
/// per node, each child two spaces deeper than its parent.
pub fn render_expr(node: &Expr, indent: usize) -> (r: String)
    ensures
        r@ == expr_text(*node, indent as nat),
{
    let mut pad = String::new();
    let mut i: usize = 0;
    while i < indent
        invariant
            i <= indent,
            pad@ == spaces(i as nat),
        decreases indent - i,
    {
        push_char(&mut pad, ' ');
        i = i + 1;
        assert(pad@ =~= spaces(i as nat));
    }
    let mut out = String::new();
    render_into(&mut out, node, &pad, Ghost(indent as nat));
    assert(out@ =~= expr_text(*node, indent as nat));
    out
}

/// `pad` with two more spaces.
fn deeper(pad: &String, Ghost(n): Ghost<nat>) -> (r: String)
    requires
        pad@ == spaces(n),
    ensures
        r@ == spaces(n + 2),
{
    let mut r = pad.clone();
    push_char(&mut r, ' ');
    push_char(&mut r, ' ');
    assert(r@ =~= spaces(n + 2));
    r
}

fn push_bool(out: &mut String, b: bool)
    ensures
        final(out)@ == old(out)@ + bool_text(b),
{
    if b {
        push_str(out, "true");
    } else {
        push_str(out, "false");
    }
}

fn push_i64(out: &mut String, v: i64)
    ensures
        final(out)@ == old(out)@ + int_text(v),
{
    if v < 0 {
        let a: u64 = (0i128 - (v as i128)) as u64;
        let d = dec_chars(a);
        push_char(out, '-');
        push_chars(out, d.as_slice());
        assert(out@ =~= old(out)@ + int_text(v));
    } else {
        let d = dec_chars(v as u64);
        push_chars(out, d.as_slice());
    }
}

fn hex_digit_char(d: u32) -> (c: char)
    requires
        d < 16,
    ensures
        c == hex_digit(d as nat),
{
    if d < 10 {
        ((d as u8) + 48u8) as char
    } else {
        ((d as u8) + 55u8) as char
    }
}

fn hex_chars(n: u32) -> (r: Vec<char>)
    ensures
        r@ == hex(n as nat),
    decreases n,
{
    if n < 16 {
        vec![hex_digit_char(n)]
    } else {
        let mut r = hex_chars(n / 16);
        r.push(hex_digit_char(n % 16));
        r
    }
}

/// `U+` digits of a character code: `{:04X}`.
fn push_hex4(out: &mut String, v: i32)
    ensures
        final(out)@ == old(out)@ + hex4(v),
{
    let h = hex_chars(v as u32);
    let zeros: usize = if h.len() < 4 {
        4 - h.len()
    } else {
        0
    };
    let mut j: usize = 0;
    while j < zeros
        invariant
            j <= zeros,
            out@ == old(out)@ + Seq::new(j as nat, |i: int| '0'),
        decreases zeros - j,
    {
        push_char(out, '0');
        j = j + 1;
        assert(out@ =~= old(out)@ + Seq::new(j as nat, |i: int| '0'));
    }
    push_chars(out, h.as_slice());
    assert(out@ =~= old(out)@ + hex4(v));
}

/// Appends `pad`, the node's kind and its position.
fn push_header(out: &mut String, node: &Expr, pad: &String, Ghost(n): Ghost<nat>)
    requires
        pad@ == spaces(n),
    ensures
        final(out)@ == old(out)@ + header_text(*node, n),
{
    push_str(out, pad.as_str());
    push_str(out, kind_name(node.kind));
    push_str(out, "@");
    let d = dec_chars(node.line as u64);
    push_chars(out, d.as_slice());
    push_str(out, ":");
    let e = dec_chars(node.col as u64);
    push_chars(out, e.as_slice());
    assert(out@ =~= old(out)@ + (spaces(n) + kind_debug(node.kind) + "@"@ + dec(node.line as nat) + ":"@ + dec(node.col as nat)));
}

fn render_opt(out: &mut String, o: &Option<Box<Expr>>, pad: &String, Ghost(n): Ghost<nat>)
    requires
        pad@ == spaces(n),
    ensures
        final(out)@ == old(out)@ + opt_text(*o, n),
    decreases o, 0nat,
{
    match o {
        Some(x) => {
            render_into(out, x, pad, Ghost(n));
        },
        None => {
            assert(out@ =~= old(out)@ + opt_text(*o, n));
        },
    }
}

fn render_list(out: &mut String, items: &Vec<Expr>, pad: &String, Ghost(n): Ghost<nat>)
    requires
        pad@ == spaces(n),
    ensures
        final(out)@ == old(out)@ + exprs_text(items@, n),
    decreases items, 0nat,
{
    let mut k: usize = 0;
    assert(out@ =~= old(out)@ + exprs_text(items@.subrange(0, 0), n));
    while k < items.len()
        invariant
            k <= items@.len(),
            pad@ == spaces(n),
            out@ == old(out)@ + exprs_text(items@.subrange(0, k as int), n),
        decreases items@.len() - k,
    {
        proof {
            assert(decreases_to!(items => items@[k as int]));
        }
        render_into(out, &items[k], pad, Ghost(n));
        proof {
            let s = items@.subrange(0, k + 1);
            assert(s.subrange(0, s.len() - 1) =~= items@.subrange(0, k as int));
        }
        k = k + 1;
        assert(out@ =~= old(out)@ + exprs_text(items@.subrange(0, k as int), n));
    }
    assert(items@.subrange(0, items@.len() as int) =~= items@);
}

fn render_parts(out: &mut String, parts: &Vec<InterpPart>, pad: &String, Ghost(n): Ghost<nat>)
    requires
        pad@ == spaces(n),
    ensures
        final(out)@ == old(out)@ + parts_text(parts@, n),
    decreases parts, 0nat,
{
    let p2 = deeper(pad, Ghost(n));
    let mut k: usize = 0;
    assert(out@ =~= old(out)@ + parts_text(parts@.subrange(0, 0), n));
    while k < parts.len()
        invariant
            k <= parts@.len(),
            pad@ == spaces(n),
            p2@ == spaces(n + 2),
            out@ == old(out)@ + parts_text(parts@.subrange(0, k as int), n),
        decreases parts@.len() - k,
    {
        let ghost before = out@;
        match &parts[k] {
            InterpPart::Text(t) => {
                push_str(out, pad.as_str());
                push_str(out, "  text: \"");
                push_str(out, t.as_str());
                push_str(out, "\"\n");
            },
            InterpPart::Expr(x) => {
                proof {
                    assert(decreases_to!(parts => parts@[k as int]));
                }
                render_into(out, x, &p2, Ghost(n + 2));
            },
        }
        proof {
            let s = parts@.subrange(0, k + 1);
            assert(s.subrange(0, s.len() - 1) =~= parts@.subrange(0, k as int));
            assert(s.last() == parts@[k as int]);
        }
        k = k + 1;
        assert(out@ =~= old(out)@ + parts_text(parts@.subrange(0, k as int), n));
    }
    assert(parts@.subrange(0, parts@.len() as int) =~= parts@);
}

fn render_arms(out: &mut String, arms: &Vec<MatchArm>, pad: &String, Ghost(n): Ghost<nat>)
    requires
        pad@ == spaces(n),
    ensures
        final(out)@ == old(out)@ + arms_text(arms@, n),
    decreases arms, 0nat,
{
    let p2 = deeper(pad, Ghost(n));
    let mut k: usize = 0;
    assert(out@ =~= old(out)@ + arms_text(arms@.subrange(0, 0), n));
    while k < arms.len()
        invariant
            k <= arms@.len(),
            pad@ == spaces(n),
            p2@ == spaces(n + 2),
            out@ == old(out)@ + arms_text(arms@.subrange(0, k as int), n),
        decreases arms@.len() - k,
    {
        let arm = &arms[k];
        push_str(out, pad.as_str());
        push_str(out, "  pattern=");
        let q = str_debug(arm.pattern.as_str());
        push_str(out, q.as_str());
        push_str(out, "\n");
        proof {
            assert(decreases_to!(arms => arms@[k as int]));
        }
        render_into(out, &arm.body, &p2, Ghost(n + 2));
        proof {
            let s = arms@.subrange(0, k + 1);
            assert(s.subrange(0, s.len() - 1) =~= arms@.subrange(0, k as int));
            assert(s.last() == arms@[k as int]);
        }
        k = k + 1;
        assert(out@ =~= old(out)@ + arms_text(arms@.subrange(0, k as int), n));
    }
    assert(arms@.subrange(0, arms@.len() as int) =~= arms@);
}

fn render_params(out: &mut String, ps: &Vec<Param>, pad: &String, Ghost(n): Ghost<nat>)
    requires
        pad@ == spaces(n),
    ensures
        final(out)@ == old(out)@ + params_text(ps@, n),
{
    let mut k: usize = 0;
    assert(out@ =~= old(out)@ + params_text(ps@.subrange(0, 0), n));
    while k < ps.len()
        invariant
            k <= ps@.len(),
            pad@ == spaces(n),
            out@ == old(out)@ + params_text(ps@.subrange(0, k as int), n),
        decreases ps@.len() - k,
    {
        push_str(out, pad.as_str());
        push_str(out, "  param=");
        push_str(out, ps[k].name.as_str());
        push_str(out, "\n");
        proof {
            let s = ps@.subrange(0, k + 1);
            assert(s.drop_last() =~= ps@.subrange(0, k as int));
            assert(s.last() == ps@[k as int]);
        }
        k = k + 1;
        assert(out@ =~= old(out)@ + params_text(ps@.subrange(0, k as int), n));
    }
    assert(ps@.subrange(0, ps@.len() as int) =~= ps@);
}

fn render_fields(out: &mut String, fs: &Vec<FieldDecl>, pad: &String, Ghost(n): Ghost<nat>)
    requires
        pad@ == spaces(n),
    ensures
        final(out)@ == old(out)@ + fields_text(fs@, n),
{
    let mut k: usize = 0;
    assert(out@ =~= old(out)@ + fields_text(fs@.subrange(0, 0), n));
    while k < fs.len()
        invariant
            k <= fs@.len(),
            pad@ == spaces(n),
            out@ == old(out)@ + fields_text(fs@.subrange(0, k as int), n),
        decreases fs@.len() - k,
    {
        push_str(out, pad.as_str());
        push_str(out, "  field=");
        push_str(out, fs[k].name.as_str());
        push_str(out, ":");
        match &fs[k].ty_name {
            Some(t) => push_str(out, t.as_str()),
            None => push_str(out, "?"),
        }
        push_str(out, "\n");
        proof {
            let s = fs@.subrange(0, k + 1);
            assert(s.drop_last() =~= fs@.subrange(0, k as int));
            assert(s.last() == fs@[k as int]);
        }
        k = k + 1;
        assert(out@ =~= old(out)@ + fields_text(fs@.subrange(0, k as int), n));
    }
    assert(fs@.subrange(0, fs@.len() as int) =~= fs@);
}

fn render_variants(out: &mut String, vs: &Vec<VariantDecl>, pad: &String, Ghost(n): Ghost<nat>)
    requires
        pad@ == spaces(n),
    ensures
        final(out)@ == old(out)@ + variants_text(vs@, n),
{
    let mut k: usize = 0;
    assert(out@ =~= old(out)@ + variants_text(vs@.subrange(0, 0), n));
    while k < vs.len()
        invariant
            k <= vs@.len(),
            pad@ == spaces(n),
            out@ == old(out)@ + variants_text(vs@.subrange(0, k as int), n),
        decreases vs@.len() - k,
    {
        push_str(out, pad.as_str());
        push_str(out, "  variant=");
        push_str(out, vs[k].name.as_str());
        push_str(out, "\n");
        proof {
            let s = vs@.subrange(0, k + 1);
            assert(s.drop_last() =~= vs@.subrange(0, k as int));
            assert(s.last() == vs@[k as int]);
        }
        k = k + 1;
        assert(out@ =~= old(out)@ + variants_text(vs@.subrange(0, k as int), n));
    }
    assert(vs@.subrange(0, vs@.len() as int) =~= vs@);
}

/// Appends the text of the tree under `node`, indented by `pad`.
fn render_into(out: &mut String, node: &Expr, pad: &String, Ghost(n): Ghost<nat>)
    requires
        pad@ == spaces(n),
    ensures
        final(out)@ == old(out)@ + expr_text(*node, n),
    decreases node, 1nat,
{
    let ghost start = out@;
    push_header(out, node, pad, Ghost(n));
    let ghost mid = out@;
    match &node.data {
        ExprData::IntLit(..) | ExprData::FloatLit(..) | ExprData::BoolLit(..) | ExprData::CharLit(..) | ExprData::ArrayLit(..) | ExprData::Ident(..) | ExprData::StringLit(..) | ExprData::BinaryOp(..) | ExprData::UnaryOp(..) | ExprData::Call(..) => render_expr_tail(out, node, pad, Ghost(n)),
        ExprData::FieldAccess(..) | ExprData::Index(..) | ExprData::Slice(..) | ExprData::VarDecl(..) => render_access_tail(out, node, pad, Ghost(n)),
        ExprData::Assign(..) | ExprData::ExprStmt(..) | ExprData::Block(..) | ExprData::WhileStmt(..) => render_stmt_tail(out, node, pad, Ghost(n)),
        ExprData::IfStmt(..) | ExprData::ForStmt(..) => render_branch_tail(out, node, pad, Ghost(n)),
        ExprData::ReturnStmt(..) | ExprData::BreakStmt | ExprData::ContinueStmt | ExprData::MatchStmt(..) | ExprData::DeferStmt(..) | ExprData::Function(..) | ExprData::StructDecl(..) | ExprData::EnumDecl(..) | ExprData::Program(..) | ExprData::Error => render_decl_tail(out, node, pad, Ghost(n)),
    }
    assert(out@ =~= start + expr_text(*node, n));
}

/// The rest of a node after its header: literals, names, operators and calls.
fn render_expr_tail(out: &mut String, node: &Expr, pad: &String, Ghost(n): Ghost<nat>)
    requires
        pad@ == spaces(n),
        node.data is IntLit || node.data is FloatLit || node.data is BoolLit || node.data is CharLit || node.data is ArrayLit || node.data is Ident || node.data is StringLit || node.data is BinaryOp || node.data is UnaryOp || node.data is Call,
    ensures
        final(out)@ == old(out)@ + tail_text(*node, n),
    decreases node, 0nat,
{
    let ghost start = out@;
    let p2 = deeper(pad, Ghost(n));
    let ghost m = n + 2;
    match &node.data {
        ExprData::IntLit(v) => {
            push_str(out, " = ");
            push_i64(out, *v);
            push_str(out, "\n");
            assert(out@ == start + tail_text(*node, n));
        },
        ExprData::FloatLit(t) => {
            push_str(out, " = ");
            push_str(out, t.as_str());
            push_str(out, "\n");
            assert(out@ == start + tail_text(*node, n));
        },
        ExprData::BoolLit(b) => {
            push_str(out, " = ");
            push_bool(out, *b);
            push_str(out, "\n");
            assert(out@ == start + tail_text(*node, n));
        },
        ExprData::CharLit(v) => {
            push_str(out, " = U+");
            push_hex4(out, *v);
            push_str(out, "\n");
            assert(out@ == start + tail_text(*node, n));
        },
        ExprData::ArrayLit(items) => {
            push_str(out, " items=");
            let d = dec_chars(items.len() as u64);
            push_chars(out, d.as_slice());
            push_str(out, "\n");
            render_list(out, items, &p2, Ghost(m));
            assert(out@ == start + tail_text(*node, n));
        },
        ExprData::Ident(s) => {
            push_str(out, " name=");
            push_str(out, s.as_str());
            push_str(out, "\n");
            assert(out@ == start + tail_text(*node, n));
        },
        ExprData::StringLit(sl) => {
            push_str(out, " parts=");
            let d = dec_chars(sl.parts.len() as u64);
            push_chars(out, d.as_slice());
            push_str(out, "\n");
            render_parts(out, &sl.parts, pad, Ghost(n));
            assert(out@ == start + tail_text(*node, n));
        },
        ExprData::BinaryOp(b) => {
            push_str(out, " op=");
            push_str(out, b.op.symbol());
            push_str(out, "\n");
            render_into(out, &b.lhs, &p2, Ghost(m));
            render_into(out, &b.rhs, &p2, Ghost(m));
            assert(out@ == start + tail_text(*node, n));
        },
        ExprData::UnaryOp(u) => {
            push_str(out, " op=");
            push_str(out, u.op.symbol());
            push_str(out, "\n");
            render_into(out, &u.operand, &p2, Ghost(m));
            assert(out@ == start + tail_text(*node, n));
        },
        ExprData::Call(c) => {
            push_str(out, " args=");
            let d = dec_chars(c.args.len() as u64);
            push_chars(out, d.as_slice());
            push_str(out, "\n");
            render_into(out, &c.func, &p2, Ghost(m));
            render_list(out, &c.args, &p2, Ghost(m));
            assert(out@ == start + tail_text(*node, n));
        },
        _ => {},
    }
}

/// The rest of a node after its header: field accesses, indexing, slices and variable declarations.
fn render_access_tail(out: &mut String, node: &Expr, pad: &String, Ghost(n): Ghost<nat>)
    requires
        pad@ == spaces(n),
        node.data is FieldAccess || node.data is Index || node.data is Slice || node.data is VarDecl,
    ensures
        final(out)@ == old(out)@ + tail_text(*node, n),
    decreases node, 0nat,
{
    let ghost start = out@;
    let p2 = deeper(pad, Ghost(n));
    let ghost m = n + 2;
    match &node.data {
        ExprData::FieldAccess(f) => {
            push_str(out, pad.as_str());
            push_str(out, " field=");
            push_str(out, f.field.as_str());
            push_str(out, "\n");
            render_into(out, &f.obj, &p2, Ghost(m));
            assert(out@ == start + tail_text(*node, n));
        },
        ExprData::Index(i) => {
            push_str(out, "\n");
            render_into(out, &i.obj, &p2, Ghost(m));
            render_into(out, &i.index, &p2, Ghost(m));
            assert(out@ == start + tail_text(*node, n));
        },
        ExprData::Slice(s) => {
            push_str(out, " inclusive=");
            push_bool(out, s.inclusive);
            push_str(out, "\n");
            render_into(out, &s.obj, &p2, Ghost(m));
            render_opt(out, &s.start, &p2, Ghost(m));
            render_opt(out, &s.end, &p2, Ghost(m));
            assert(out@ == start + tail_text(*node, n));
        },
        ExprData::VarDecl(v) => {
            push_str(out, " name=");
            push_str(out, v.name.as_str());
            push_str(out, " mut=");
            push_bool(out, v.is_mut);
            push_str(out, "\n");
            match &v.ty_name {
                Some(t) => {
                    push_str(out, pad.as_str());
                    push_str(out, "  type=");
                    push_str(out, t.as_str());
                    push_str(out, "\n");
                },
                None => {},
            }
            render_opt(out, &v.init, &p2, Ghost(m));
            assert(out@ == start + tail_text(*node, n));
        },
        _ => {},
    }
}

/// The rest of a node after its header: assignments, expression statements, blocks and loops.
fn render_stmt_tail(out: &mut String, node: &Expr, pad: &String, Ghost(n): Ghost<nat>)
    requires
        pad@ == spaces(n),
        node.data is Assign || node.data is ExprStmt || node.data is Block || node.data is WhileStmt,
    ensures
        final(out)@ == old(out)@ + tail_text(*node, n),
    decreases node, 0nat,
{
    let ghost start = out@;
    let p2 = deeper(pad, Ghost(n));
    let ghost m = n + 2;
    match &node.data {
        ExprData::Assign(a) => {
            push_str(out, "\n");
            render_into(out, &a.target, &p2, Ghost(m));
            render_into(out, &a.value, &p2, Ghost(m));
            assert(out@ == start + tail_text(*node, n));
        },
        ExprData::ExprStmt(x) => {
            push_str(out, "\n");
            render_into(out, &x.expr, &p2, Ghost(m));
            assert(out@ == start + tail_text(*node, n));
        },
        ExprData::Block(b) => {
            push_str(out, " stmts=");
            let d = dec_chars(b.stmts.len() as u64);
            push_chars(out, d.as_slice());
            push_str(out, "\n");
            render_list(out, &b.stmts, &p2, Ghost(m));
            assert(out@ == start + tail_text(*node, n));
        },
        ExprData::WhileStmt(w) => {
            push_str(out, "\n");
            render_into(out, &w.cond, &p2, Ghost(m));
            render_into(out, &w.body, &p2, Ghost(m));
            assert(out@ == start + tail_text(*node, n));
        },
        _ => {},
    }
}

/// The rest of a node after its header: `if` and `for`.
fn render_branch_tail(out: &mut String, node: &Expr, pad: &String, Ghost(n): Ghost<nat>)
    requires
        pad@ == spaces(n),
        node.data is IfStmt || node.data is ForStmt,
    ensures
        final(out)@ == old(out)@ + tail_text(*node, n),
    decreases node, 0nat,
{
    let ghost start = out@;
    let p2 = deeper(pad, Ghost(n));
    let ghost m = n + 2;
    match &node.data {
        ExprData::IfStmt(i) => {
            push_str(out, "\n");
            render_into(out, &i.cond, &p2, Ghost(m));
            render_into(out, &i.then_block, &p2, Ghost(m));
            render_opt(out, &i.else_block, &p2, Ghost(m));
            assert(out@ == start + tail_text(*node, n));
        },
        ExprData::ForStmt(f) => {
            push_str(out, " var=");
            push_str(out, f.var_name.as_str());
            push_str(out, " kind=");
            match f.kind {
                ForKind::ForIn => push_str(out, "ForIn"),
                ForKind::ForRange => push_str(out, "ForRange"),
            }
            push_str(out, "\n");
            render_opt(out, &f.iterable, &p2, Ghost(m));
            render_opt(out, &f.start, &p2, Ghost(m));
            render_opt(out, &f.end, &p2, Ghost(m));
            render_opt(out, &f.step, &p2, Ghost(m));
            render_into(out, &f.body, &p2, Ghost(m));
            assert(out@ == start + tail_text(*node, n));
        },
        _ => {},
    }
}

/// The rest of a node after its header: jumps, `match`, `defer`, declarations, programs and error nodes.
fn render_decl_tail(out: &mut String, node: &Expr, pad: &String, Ghost(n): Ghost<nat>)
    requires
        pad@ == spaces(n),
        node.data is ReturnStmt || node.data is BreakStmt || node.data is ContinueStmt || node.data is MatchStmt || node.data is DeferStmt || node.data is Function || node.data is StructDecl || node.data is EnumDecl || node.data is Program || node.data is Error,
    ensures
        final(out)@ == old(out)@ + tail_text(*node, n),
    decreases node, 0nat,
{
    let ghost start = out@;
    let p2 = deeper(pad, Ghost(n));
    let ghost m = n + 2;
    match &node.data {
        ExprData::ReturnStmt(r) => {
            push_str(out, "\n");
            render_opt(out, &r.value, &p2, Ghost(m));
            assert(out@ == start + tail_text(*node, n));
        },
        ExprData::BreakStmt => {
            push_str(out, "  <break>\n");
            assert(out@ == start + tail_text(*node, n));
        },
        ExprData::ContinueStmt => {
            push_str(out, "  <continue>\n");
            assert(out@ == start + tail_text(*node, n));
        },
        ExprData::MatchStmt(ms) => {
            push_str(out, " arms=");
            let d = dec_chars(ms.arms.len() as u64);
            push_chars(out, d.as_slice());
            push_str(out, "\n");
            render_arms(out, &ms.arms, pad, Ghost(n));
            assert(out@ == start + tail_text(*node, n));
        },
        ExprData::DeferStmt(d) => {
            push_str(out, "\n");
            render_into(out, &d.expr, &p2, Ghost(m));
            assert(out@ == start + tail_text(*node, n));
        },
        ExprData::Function(f) => {
            push_str(out, " name=");
            push_str(out, f.name.as_str());
            push_str(out, " params=");
            let d = dec_chars(f.params.len() as u64);
            push_chars(out, d.as_slice());
            push_str(out, "\n");
            render_params(out, &f.params, pad, Ghost(n));
            render_into(out, &f.body, &p2, Ghost(m));
            assert(out@ == start + tail_text(*node, n));
        },
        ExprData::StructDecl(sd) => {
            push_str(out, " name=");
            push_str(out, sd.name.as_str());
            push_str(out, " fields=");
            let d = dec_chars(sd.fields.len() as u64);
            push_chars(out, d.as_slice());
            push_str(out, "\n");
            render_fields(out, &sd.fields, pad, Ghost(n));
            assert(out@ == start + tail_text(*node, n));
        },
        ExprData::EnumDecl(en) => {
            push_str(out, " name=");
            push_str(out, en.name.as_str());
            push_str(out, " variants=");
            let d = dec_chars(en.variants.len() as u64);
            push_chars(out, d.as_slice());
            push_str(out, "\n");
            render_variants(out, &en.variants, pad, Ghost(n));
            assert(out@ == start + tail_text(*node, n));
        },
        ExprData::Program(p) => {
            push_str(out, " items=");
            let d = dec_chars(p.items.len() as u64);
            push_chars(out, d.as_slice());
            push_str(out, "\n");
            render_list(out, &p.items, &p2, Ghost(m));
            assert(out@ == start + tail_text(*node, n));
        },
        ExprData::Error => {
            push_str(out, pad.as_str());
            push_str(out, "  <error>\n");
            assert(out@ == start + tail_text(*node, n));
        },
        _ => {},
    }
}

// ---------------------------------------------------------------------
// Every node is shown
// ---------------------------------------------------------------------

/// The nodes of a tree that its text shows: the node itself and, below it, every
/// child, except a match's scrutinee, which the text leaves out.
pub open spec fn shown_nodes(e: Expr) -> nat
    decreases e, 1nat,
{
    1 + match e.data {
        ExprData::StringLit(sl) => shown_in_parts(sl.parts@),
        ExprData::ArrayLit(items) => shown_in_list(items@),
        ExprData::BinaryOp(b) => shown_nodes(*b.lhs) + shown_nodes(*b.rhs),
        ExprData::UnaryOp(u) => shown_nodes(*u.operand),
        ExprData::Call(c) => shown_nodes(*c.func) + shown_in_list(c.args@),
        ExprData::FieldAccess(f) => shown_nodes(*f.obj),
        ExprData::Index(i) => shown_nodes(*i.obj) + shown_nodes(*i.index),
        ExprData::Slice(s) => shown_nodes(*s.obj) + shown_in_opt(s.start) + shown_in_opt(s.end),
        ExprData::VarDecl(v) => shown_in_opt(v.init),
        ExprData::Assign(a) => shown_nodes(*a.target) + shown_nodes(*a.value),
        ExprData::ExprStmt(x) => shown_nodes(*x.expr),
        ExprData::Block(b) => shown_in_list(b.stmts@),
        ExprData::IfStmt(i) => shown_nodes(*i.cond) + shown_nodes(*i.then_block) + shown_in_opt(i.else_block),
        ExprData::WhileStmt(w) => shown_nodes(*w.cond) + shown_nodes(*w.body),
        ExprData::ForStmt(f) => shown_in_opt(f.iterable) + shown_in_opt(f.start) + shown_in_opt(f.end)
            + shown_in_opt(f.step) + shown_nodes(*f.body),
        ExprData::ReturnStmt(r) => shown_in_opt(r.value),
        ExprData::MatchStmt(ms) => shown_in_arms(ms.arms@),
        ExprData::DeferStmt(d) => shown_nodes(*d.expr),
        ExprData::Function(f) => shown_nodes(*f.body),
        ExprData::Program(p) => shown_in_list(p.items@),
        _ => 0,
    }
}

pub open spec fn shown_in_opt(o: Option<Box<Expr>>) -> nat
    decreases o, 0nat,
{
    match o {
        Some(x) => shown_nodes(*x),
        None => 0,
    }
}

pub open spec fn shown_in_list(es: Seq<Expr>) -> nat
    decreases es, 0nat,
{
    if es.len() == 0 {
        0
    } else {
        shown_in_list(es.subrange(0, es.len() - 1)) + shown_nodes(es.last())
    }
}

pub open spec fn shown_in_parts(ps: Seq<InterpPart>) -> nat
    decreases ps, 0nat,
{
    if ps.len() == 0 {
        0
    } else {
        shown_in_parts(ps.subrange(0, ps.len() - 1)) + match ps.last() {
            InterpPart::Text(_) => 0,
            InterpPart::Expr(x) => shown_nodes(*x),
        }
    }
}

pub open spec fn shown_in_arms(arms: Seq<MatchArm>) -> nat
    decreases arms, 0nat,
{
    if arms.len() == 0 {
        0
    } else {
        shown_in_arms(arms.subrange(0, arms.len() - 1)) + shown_nodes(*arms.last().body)
    }
}

/// Every node that the text shows has its own header, marked by `@` before its
/// position: the text of a tree holds at least as many `@` as the tree has shown
/// nodes, children included (names and texts may hold more). A rendering that
/// leaves out a child (an `else` block, a slice's end, an argument) breaks this.
pub proof fn lemma_every_node_rendered(e: Expr, n: nat)
    ensures
        count_char(expr_text(e, n), '@') >= shown_nodes(e),
    decreases e, 2nat,
{
    lemma_header_marked(e, n);
    lemma_at_split(header_text(e, n), tail_text(e, n));
    lemma_tail_rendered(e, n);
}

/// An `if` with an `else` block ends with the text of its then block and then that
/// of its else block, both indented by two more than the `if`.
#[verifier::spinoff_prover]
pub proof fn lemma_else_rendered(e: Expr, n: nat)
    requires
        e.data is IfStmt,
        e.data->IfStmt_0.else_block is Some,
    ensures
        ({
            let text = expr_text(e, n);
            let tail = expr_text(*e.data->IfStmt_0.then_block, n + 2) + expr_text(
                *e.data->IfStmt_0.else_block->Some_0,
                n + 2,
            );
            tail.len() <= text.len() && text.subrange(text.len() - tail.len(), text.len() as int) == tail
        }),
{
    let i = e.data->IfStmt_0;
    let b = i.else_block->Some_0;
    let h = header_text(e, n);
    let c = expr_text(*i.cond, n + 2);
    let t = expr_text(*i.then_block, n + 2);
    let u = expr_text(*b, n + 2);
    let p = h + "\n"@ + c;
    let tu = t + u;
    assert(opt_text(i.else_block, n + 2) == u);
    assert(tail_text(e, n) == "\n"@ + c + t + u);
    assert(expr_text(e, n) == h + ("\n"@ + c + t + u));
    assert(h + ("\n"@ + c + t + u) =~= p + tu);
    assert((p + tu).subrange(p.len() as int, (p + tu).len() as int) =~= tu);
}

proof fn lemma_at_split(a: Seq<char>, b: Seq<char>)
    ensures
        count_char(a + b, '@') == count_char(a, '@') + count_char(b, '@'),
{
    crate::doc::lemma_count_concat(a, b, '@');
}

proof fn lemma_at_split3(a: Seq<char>, b: Seq<char>, c: Seq<char>)
    ensures
        count_char(a + b + c, '@') == count_char(a, '@') + count_char(b, '@') + count_char(c, '@'),
{
    lemma_at_split(a + b, c);
    lemma_at_split(a, b);
}

proof fn lemma_at_split4(a: Seq<char>, b: Seq<char>, c: Seq<char>, d: Seq<char>)
    ensures
        count_char(a + b + c + d, '@') == count_char(a, '@') + count_char(b, '@') + count_char(c, '@')
            + count_char(d, '@'),
{
    lemma_at_split(a + b + c, d);
    lemma_at_split3(a, b, c);
}

/// A node's first line holds the `@` before its position.
proof fn lemma_header_marked(e: Expr, n: nat)
    ensures
        count_char(header_text(e, n), '@') >= 1,
{
    reveal_strlit("@");
    assert(count_char("@"@, '@') == 1) by {
        assert("@"@.len() == 1);
        assert("@"@.last() == '@');
        assert("@"@.drop_last() =~= Seq::<char>::empty());
        assert(count_char(Seq::<char>::empty(), '@') == 0);
    }
    let a = spaces(n) + kind_debug(e.kind);
    lemma_at_split(a, "@"@);
    lemma_at_split(a + "@"@, dec(e.line as nat));
    lemma_at_split(a + "@"@ + dec(e.line as nat), ":"@);
    lemma_at_split(a + "@"@ + dec(e.line as nat) + ":"@, dec(e.col as nat));
}

/// What follows a node's first line shows every child.
proof fn lemma_tail_rendered(e: Expr, n: nat)
    ensures
        count_char(tail_text(e, n), '@') + 1 >= shown_nodes(e),
    decreases e, 1nat,
{
    match e.data {
        ExprData::StringLit(..) | ExprData::ArrayLit(..) | ExprData::BinaryOp(..) | ExprData::UnaryOp(..) | ExprData::Call(..) => lemma_tail_rendered_values(e, n),
        ExprData::FieldAccess(..) | ExprData::Index(..) | ExprData::Slice(..) | ExprData::VarDecl(..) | ExprData::Assign(..) => lemma_tail_rendered_places(e, n),
        ExprData::ExprStmt(..) | ExprData::Block(..) | ExprData::IfStmt(..) | ExprData::WhileStmt(..) => lemma_tail_rendered_statements(e, n),
        ExprData::ForStmt(..) => lemma_tail_rendered_for(e, n),
        ExprData::ReturnStmt(..) | ExprData::MatchStmt(..) | ExprData::DeferStmt(..) | ExprData::Function(..) | ExprData::Program(..) => lemma_tail_rendered_items(e, n),
        _ => {},
    }
}

#[verifier::spinoff_prover]
proof fn lemma_tail_rendered_values(e: Expr, n: nat)
    requires
        e.data is StringLit || e.data is ArrayLit || e.data is BinaryOp || e.data is UnaryOp || e.data is Call,
    ensures
        count_char(tail_text(e, n), '@') + 1 >= shown_nodes(e),
    decreases e, 0nat,
{
    let m = n + 2;
    match e.data {
        ExprData::StringLit(sl) => {
            lemma_parts_rendered(sl.parts@, n);
            lemma_at_split(" parts="@ + dec(sl.parts@.len()) + "\n"@, parts_text(sl.parts@, n));
        },
        ExprData::ArrayLit(items) => {
            lemma_list_rendered(items@, m);
            lemma_at_split(" items="@ + dec(items@.len()) + "\n"@, exprs_text(items@, m));
        },
        ExprData::BinaryOp(b) => {
            lemma_every_node_rendered(*b.lhs, m);
            lemma_every_node_rendered(*b.rhs, m);
            lemma_at_split3(
                " op="@ + bin_op_symbol(b.op) + "\n"@,
                expr_text(*b.lhs, m),
                expr_text(*b.rhs, m),
            );
        },
        ExprData::UnaryOp(u) => {
            lemma_every_node_rendered(*u.operand, m);
            lemma_at_split(" op="@ + un_op_symbol(u.op) + "\n"@, expr_text(*u.operand, m));
        },
        ExprData::Call(c) => {
            lemma_every_node_rendered(*c.func, m);
            lemma_list_rendered(c.args@, m);
            lemma_at_split3(
                " args="@ + dec(c.args@.len()) + "\n"@,
                expr_text(*c.func, m),
                exprs_text(c.args@, m),
            );
        },
        _ => {},
    }
}

#[verifier::spinoff_prover]
proof fn lemma_tail_rendered_places(e: Expr, n: nat)
    requires
        e.data is FieldAccess || e.data is Index || e.data is Slice || e.data is VarDecl || e.data is Assign,
    ensures
        count_char(tail_text(e, n), '@') + 1 >= shown_nodes(e),
    decreases e, 0nat,
{
    let m = n + 2;
    match e.data {
        ExprData::FieldAccess(f) => {
            lemma_every_node_rendered(*f.obj, m);
            lemma_at_split(spaces(n) + " field="@ + f.field@ + "\n"@, expr_text(*f.obj, m));
        },
        ExprData::Index(i) => {
            lemma_every_node_rendered(*i.obj, m);
            lemma_every_node_rendered(*i.index, m);
            lemma_at_split3("\n"@, expr_text(*i.obj, m), expr_text(*i.index, m));
        },
        ExprData::Slice(s) => {
            lemma_every_node_rendered(*s.obj, m);
            lemma_opt_rendered(s.start, m);
            lemma_opt_rendered(s.end, m);
            lemma_at_split4(
                " inclusive="@ + bool_text(s.inclusive) + "\n"@,
                expr_text(*s.obj, m),
                opt_text(s.start, m),
                opt_text(s.end, m),
            );
        },
        ExprData::VarDecl(v) => {
            lemma_opt_rendered(v.init, m);
            lemma_at_split(
                " name="@ + v.name@ + " mut="@ + bool_text(v.is_mut) + "\n"@ + match v.ty_name {
                    Some(t) => spaces(n) + "  type="@ + t@ + "\n"@,
                    None => Seq::<char>::empty(),
                },
                opt_text(v.init, m),
            );
        },
        ExprData::Assign(a) => {
            lemma_every_node_rendered(*a.target, m);
            lemma_every_node_rendered(*a.value, m);
            lemma_at_split3("\n"@, expr_text(*a.target, m), expr_text(*a.value, m));
        },
        _ => {},
    }
}

#[verifier::spinoff_prover]
proof fn lemma_tail_rendered_statements(e: Expr, n: nat)
    requires
        e.data is ExprStmt || e.data is Block || e.data is IfStmt || e.data is WhileStmt,
    ensures
        count_char(tail_text(e, n), '@') + 1 >= shown_nodes(e),
    decreases e, 0nat,
{
    let m = n + 2;
    match e.data {
        ExprData::ExprStmt(x) => {
            lemma_every_node_rendered(*x.expr, m);
            lemma_at_split("\n"@, expr_text(*x.expr, m));
        },
        ExprData::Block(b) => {
            lemma_list_rendered(b.stmts@, m);
            lemma_at_split(" stmts="@ + dec(b.stmts@.len()) + "\n"@, exprs_text(b.stmts@, m));
        },
        ExprData::IfStmt(i) => {
            lemma_every_node_rendered(*i.cond, m);
            lemma_every_node_rendered(*i.then_block, m);
            lemma_opt_rendered(i.else_block, m);
            lemma_at_split4(
                "\n"@,
                expr_text(*i.cond, m),
                expr_text(*i.then_block, m),
                opt_text(i.else_block, m),
            );
        },
        ExprData::WhileStmt(w) => {
            lemma_every_node_rendered(*w.cond, m);
            lemma_every_node_rendered(*w.body, m);
            lemma_at_split3("\n"@, expr_text(*w.cond, m), expr_text(*w.body, m));
        },
        _ => {},
    }
}

#[verifier::spinoff_prover]
proof fn lemma_tail_rendered_for(e: Expr, n: nat)
    requires
        e.data is ForStmt,
    ensures
        count_char(tail_text(e, n), '@') + 1 >= shown_nodes(e),
    decreases e, 0nat,
{
    let m = n + 2;
    match e.data {
        ExprData::ForStmt(f) => {
            lemma_opt_rendered(f.iterable, m);
            lemma_opt_rendered(f.start, m);
            lemma_opt_rendered(f.end, m);
            lemma_opt_rendered(f.step, m);
            lemma_every_node_rendered(*f.body, m);
            let p = " var="@ + f.var_name@ + " kind="@ + for_kind_debug(f.kind) + "\n"@;
            lemma_at_split4(p, opt_text(f.iterable, m), opt_text(f.start, m), opt_text(f.end, m));
            lemma_at_split3(
                p + opt_text(f.iterable, m) + opt_text(f.start, m) + opt_text(f.end, m),
                opt_text(f.step, m),
                expr_text(*f.body, m),
            );
        },
        _ => {},
    }
}

#[verifier::spinoff_prover]
proof fn lemma_tail_rendered_items(e: Expr, n: nat)
    requires
        e.data is ReturnStmt || e.data is MatchStmt || e.data is DeferStmt || e.data is Function || e.data is Program,
    ensures
        count_char(tail_text(e, n), '@') + 1 >= shown_nodes(e),
    decreases e, 0nat,
{
    let m = n + 2;
    match e.data {
        ExprData::ReturnStmt(r) => {
            lemma_opt_rendered(r.value, m);
            lemma_at_split("\n"@, opt_text(r.value, m));
        },
        ExprData::MatchStmt(ms) => {
            lemma_arms_rendered(ms.arms@, n);
            lemma_at_split(" arms="@ + dec(ms.arms@.len()) + "\n"@, arms_text(ms.arms@, n));
        },
        ExprData::DeferStmt(d) => {
            lemma_every_node_rendered(*d.expr, m);
            lemma_at_split("\n"@, expr_text(*d.expr, m));
        },
        ExprData::Function(f) => {
            lemma_every_node_rendered(*f.body, m);
            lemma_at_split(
                " name="@ + f.name@ + " params="@ + dec(f.params@.len()) + "\n"@ + params_text(f.params@, n),
                expr_text(*f.body, m),
            );
        },
        ExprData::Program(p) => {
            lemma_list_rendered(p.items@, m);
            lemma_at_split(" items="@ + dec(p.items@.len()) + "\n"@, exprs_text(p.items@, m));
        },
        _ => {},
    }
}

proof fn lemma_opt_rendered(o: Option<Box<Expr>>, n: nat)
    ensures
        count_char(opt_text(o, n), '@') >= shown_in_opt(o),
    decreases o, 0nat,
{
    match o {
        Some(x) => lemma_every_node_rendered(*x, n),
        None => {},
    }
}

proof fn lemma_list_rendered(es: Seq<Expr>, n: nat)
    ensures
        count_char(exprs_text(es, n), '@') >= shown_in_list(es),
    decreases es, 0nat,
{
    broadcast use crate::doc::lemma_count_concat;

    if es.len() > 0 {
        lemma_list_rendered(es.subrange(0, es.len() - 1), n);
        lemma_every_node_rendered(es.last(), n);
    }
}

proof fn lemma_parts_rendered(ps: Seq<InterpPart>, n: nat)
    ensures
        count_char(parts_text(ps, n), '@') >= shown_in_parts(ps),
    decreases ps, 0nat,
{
    broadcast use crate::doc::lemma_count_concat;

    if ps.len() > 0 {
        lemma_parts_rendered(ps.subrange(0, ps.len() - 1), n);
        match ps.last() {
            InterpPart::Text(_) => {},
            InterpPart::Expr(x) => lemma_every_node_rendered(*x, n + 2),
        }
    }
}

proof fn lemma_arms_rendered(arms: Seq<MatchArm>, n: nat)
    ensures
        count_char(arms_text(arms, n), '@') >= shown_in_arms(arms),
    decreases arms, 0nat,
{
    broadcast use crate::doc::lemma_count_concat;

    if arms.len() > 0 {
        lemma_arms_rendered(arms.subrange(0, arms.len() - 1), n);
        lemma_every_node_rendered(*arms.last().body, n + 2);
    }
}

} // verus!
