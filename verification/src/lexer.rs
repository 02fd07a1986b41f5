//! Qaw lexer: turns UTF-8 source text into a token stream.
//!
//! Keywords are normalised to their English canonical form; the token keeps
//! the text as written in its lexeme.  Every keyword has four forms:
//! canonical (`func`), abbreviation (`fn`), full pinyin (`hanshu`) and
//! pinyin initials (`hs`).
//!
//! The lexical grammar is given by the spec functions `ws_end` (what is
//! skipped between tokens) and `scan` (the token that starts at a position);
//! `next_token` and `tokenize` are proved to follow them, and every token
//! carries the line and column of its first character.
use vstd::prelude::*;
use crate::text::{
    chars_eq, chars_of, char_is_digit, char_is_ws, is_ascii_alpha, is_digit, is_ws, push_char, push_str,
    slice_chars, string_of,
};

verus! {

/// Token kinds.
#[derive(Debug, Clone, Copy, PartialEq, Eq, Hash, Structural)]
pub enum TokKind {
    // literals
    IntLit,
    FloatLit,
    StringLit,
    CharLit,
    BoolLit,
    Ident,
    // keywords (normalised)
    KwPackage,
    KwImport,
    KwFunc,
    KwReturn,
    KwVar,
    KwLet,
    KwMut,
    KwConst,
    KwType,
    KwStruct,
    KwEnum,
    KwIf,
    KwElse,
    KwFor,
    KwWhile,
    KwLoop,
    KwBreak,
    KwContinue,
    KwMatch,
    KwTrue,
    KwFalse,
    KwDefer,
    KwGo,
    KwChan,
    KwPanic,
    KwUnsafe,
    KwAs,
    KwIn,
    KwFrom,
    KwTo,
    KwDownto,
    KwStep,
    // operators
    Plus,
    Minus,
    Star,
    Slash,
    Percent,
    Eq,
    EqEq,
    NotEq,
    Lt,
    Le,
    Gt,
    Ge,
    Amp,
    Pipe,
    Caret,
    Shl,
    Shr,
    AndAnd,
    OrOr,
    Bang,
    Arrow,
    FatArrow,
    DotDot,
    DotDotEq,
    Question,
    QuestionDot,
    QuestionQuestion,
    ColonColon,
    // delimiters
    LParen,
    RParen,
    LBrace,
    RBrace,
    LBracket,
    RBracket,
    LAngle,
    RAngle,
    Comma,
    Semi,
    Colon,
    Dot,
    // special
    Eof,
    Error,
}

/// The name of a token kind, as `Debug` prints it.
pub open spec fn kind_name(k: TokKind) -> Seq<char> {
    match k {
        TokKind::IntLit => "IntLit"@,
        TokKind::FloatLit => "FloatLit"@,
        TokKind::StringLit => "StringLit"@,
        TokKind::CharLit => "CharLit"@,
        TokKind::BoolLit => "BoolLit"@,
        TokKind::Ident => "Ident"@,
        TokKind::KwPackage => "KwPackage"@,
        TokKind::KwImport => "KwImport"@,
        TokKind::KwFunc => "KwFunc"@,
        TokKind::KwReturn => "KwReturn"@,
        TokKind::KwVar => "KwVar"@,
        TokKind::KwLet => "KwLet"@,
        TokKind::KwMut => "KwMut"@,
        TokKind::KwConst => "KwConst"@,
        TokKind::KwType => "KwType"@,
        TokKind::KwStruct => "KwStruct"@,
        TokKind::KwEnum => "KwEnum"@,
        TokKind::KwIf => "KwIf"@,
        TokKind::KwElse => "KwElse"@,
        TokKind::KwFor => "KwFor"@,
        TokKind::KwWhile => "KwWhile"@,
        TokKind::KwLoop => "KwLoop"@,
        TokKind::KwBreak => "KwBreak"@,
        TokKind::KwContinue => "KwContinue"@,
        TokKind::KwMatch => "KwMatch"@,
        TokKind::KwTrue => "KwTrue"@,
        TokKind::KwFalse => "KwFalse"@,
        TokKind::KwDefer => "KwDefer"@,
        TokKind::KwGo => "KwGo"@,
        TokKind::KwChan => "KwChan"@,
        TokKind::KwPanic => "KwPanic"@,
        TokKind::KwUnsafe => "KwUnsafe"@,
        TokKind::KwAs => "KwAs"@,
        TokKind::KwIn => "KwIn"@,
        TokKind::KwFrom => "KwFrom"@,
        TokKind::KwTo => "KwTo"@,
        TokKind::KwDownto => "KwDownto"@,
        TokKind::KwStep => "KwStep"@,
        TokKind::Plus => "Plus"@,
        TokKind::Minus => "Minus"@,
        TokKind::Star => "Star"@,
        TokKind::Slash => "Slash"@,
        TokKind::Percent => "Percent"@,
        TokKind::Eq => "Eq"@,
        TokKind::EqEq => "EqEq"@,
        TokKind::NotEq => "NotEq"@,
        TokKind::Lt => "Lt"@,
        TokKind::Le => "Le"@,
        TokKind::Gt => "Gt"@,
        TokKind::Ge => "Ge"@,
        TokKind::Amp => "Amp"@,
        TokKind::Pipe => "Pipe"@,
        TokKind::Caret => "Caret"@,
        TokKind::Shl => "Shl"@,
        TokKind::Shr => "Shr"@,
        TokKind::AndAnd => "AndAnd"@,
        TokKind::OrOr => "OrOr"@,
        TokKind::Bang => "Bang"@,
        TokKind::Arrow => "Arrow"@,
        TokKind::FatArrow => "FatArrow"@,
        TokKind::DotDot => "DotDot"@,
        TokKind::DotDotEq => "DotDotEq"@,
        TokKind::Question => "Question"@,
        TokKind::QuestionDot => "QuestionDot"@,
        TokKind::QuestionQuestion => "QuestionQuestion"@,
        TokKind::ColonColon => "ColonColon"@,
        TokKind::LParen => "LParen"@,
        TokKind::RParen => "RParen"@,
        TokKind::LBrace => "LBrace"@,
        TokKind::RBrace => "RBrace"@,
        TokKind::LBracket => "LBracket"@,
        TokKind::RBracket => "RBracket"@,
        TokKind::LAngle => "LAngle"@,
        TokKind::RAngle => "RAngle"@,
        TokKind::Comma => "Comma"@,
        TokKind::Semi => "Semi"@,
        TokKind::Colon => "Colon"@,
        TokKind::Dot => "Dot"@,
        TokKind::Eof => "Eof"@,
        TokKind::Error => "Error"@,
    }
}

/// The name of a token kind, as `Debug` prints it.
pub fn tok_kind_name(k: TokKind) -> (r: &'static str)
    ensures
        r@ == kind_name(k),
{
    match k {
        TokKind::IntLit => "IntLit",
        TokKind::FloatLit => "FloatLit",
        TokKind::StringLit => "StringLit",
        TokKind::CharLit => "CharLit",
        TokKind::BoolLit => "BoolLit",
        TokKind::Ident => "Ident",
        TokKind::KwPackage => "KwPackage",
        TokKind::KwImport => "KwImport",
        TokKind::KwFunc => "KwFunc",
        TokKind::KwReturn => "KwReturn",
        TokKind::KwVar => "KwVar",
        TokKind::KwLet => "KwLet",
        TokKind::KwMut => "KwMut",
        TokKind::KwConst => "KwConst",
        TokKind::KwType => "KwType",
        TokKind::KwStruct => "KwStruct",
        TokKind::KwEnum => "KwEnum",
        TokKind::KwIf => "KwIf",
        TokKind::KwElse => "KwElse",
        TokKind::KwFor => "KwFor",
        TokKind::KwWhile => "KwWhile",
        TokKind::KwLoop => "KwLoop",
        TokKind::KwBreak => "KwBreak",
        TokKind::KwContinue => "KwContinue",
        TokKind::KwMatch => "KwMatch",
        TokKind::KwTrue => "KwTrue",
        TokKind::KwFalse => "KwFalse",
        TokKind::KwDefer => "KwDefer",
        TokKind::KwGo => "KwGo",
        TokKind::KwChan => "KwChan",
        TokKind::KwPanic => "KwPanic",
        TokKind::KwUnsafe => "KwUnsafe",
        TokKind::KwAs => "KwAs",
        TokKind::KwIn => "KwIn",
        TokKind::KwFrom => "KwFrom",
        TokKind::KwTo => "KwTo",
        TokKind::KwDownto => "KwDownto",
        TokKind::KwStep => "KwStep",
        TokKind::Plus => "Plus",
        TokKind::Minus => "Minus",
        TokKind::Star => "Star",
        TokKind::Slash => "Slash",
        TokKind::Percent => "Percent",
        TokKind::Eq => "Eq",
        TokKind::EqEq => "EqEq",
        TokKind::NotEq => "NotEq",
        TokKind::Lt => "Lt",
        TokKind::Le => "Le",
        TokKind::Gt => "Gt",
        TokKind::Ge => "Ge",
        TokKind::Amp => "Amp",
        TokKind::Pipe => "Pipe",
        TokKind::Caret => "Caret",
        TokKind::Shl => "Shl",
        TokKind::Shr => "Shr",
        TokKind::AndAnd => "AndAnd",
        TokKind::OrOr => "OrOr",
        TokKind::Bang => "Bang",
        TokKind::Arrow => "Arrow",
        TokKind::FatArrow => "FatArrow",
        TokKind::DotDot => "DotDot",
        TokKind::DotDotEq => "DotDotEq",
        TokKind::Question => "Question",
        TokKind::QuestionDot => "QuestionDot",
        TokKind::QuestionQuestion => "QuestionQuestion",
        TokKind::ColonColon => "ColonColon",
        TokKind::LParen => "LParen",
        TokKind::RParen => "RParen",
        TokKind::LBrace => "LBrace",
        TokKind::RBrace => "RBrace",
        TokKind::LBracket => "LBracket",
        TokKind::RBracket => "RBracket",
        TokKind::LAngle => "LAngle",
        TokKind::RAngle => "RAngle",
        TokKind::Comma => "Comma",
        TokKind::Semi => "Semi",
        TokKind::Colon => "Colon",
        TokKind::Dot => "Dot",
        TokKind::Eof => "Eof",
        TokKind::Error => "Error",
    }
}

/// A token: kind, lexeme and the position (1-based line and column) of its first character.
#[derive(Debug, Clone)]
pub struct Token {
    pub kind: TokKind,
    pub lexeme: String,
    pub line: u32,
    pub col: u32,
}

impl Token {
    pub fn new(kind: TokKind, lexeme: &str, line: u32, col: u32) -> (t: Token)
        ensures
            t.kind == kind,
            t.lexeme@ == lexeme@,
            t.line == line,
            t.col == col,
    {
        let mut s = String::new();
        push_str(&mut s, lexeme);
        Token { kind, lexeme: s, line, col }
    }

    pub fn eof(line: u32, col: u32) -> (t: Token)
        ensures
            t.kind == TokKind::Eof,
            t.lexeme@ == Seq::<char>::empty(),
            t.line == line,
            t.col == col,
    {
        Token { kind: TokKind::Eof, lexeme: String::new(), line, col }
    }

    /// `Kind(lexeme)`: the kind's name and the lexeme.
    pub fn describe(&self) -> (r: String)
        ensures
            r@ == kind_name(self.kind) + "("@ + self.lexeme@ + ")"@,
    {
        let mut s = String::new();
        push_str(&mut s, tok_kind_name(self.kind));
        push_str(&mut s, "(");
        push_str(&mut s, self.lexeme.as_str());
        push_str(&mut s, ")");
        assert(s@ =~= kind_name(self.kind) + "("@ + self.lexeme@ + ")"@);
        s
    }

    /// A field-by-field copy.
    pub fn copy(&self) -> (t: Token)
        ensures
            t.kind == self.kind,
            t.lexeme@ == self.lexeme@,
            t.line == self.line,
            t.col == self.col,
    {
        Token { kind: self.kind, lexeme: self.lexeme.clone(), line: self.line, col: self.col }
    }
}

// ---------------------------------------------------------------------
// Keywords
// ---------------------------------------------------------------------

pub open spec fn kw_entry(w: Seq<char>, c: Seq<char>, a: Seq<char>, f: Seq<char>, i: Seq<char>) -> bool {
    w == c || w == a || w == f || w == i
}

/// The canonical keyword that `w` is a form of (first matching row of the alias table).
pub open spec fn canonical(w: Seq<char>) -> Option<Seq<char>> {
    if kw_entry(w, "package"@, "pkg"@, "baozhuang"@, "bz"@) {
        Some("package"@)
    } else if kw_entry(w, "import"@, "imp"@, "daoru"@, "dr"@) {
        Some("import"@)
    } else if kw_entry(w, "func"@, "fn"@, "hanshu"@, "hs"@) {
        Some("func"@)
    } else if kw_entry(w, "return"@, "ret"@, "fanhui"@, "fh"@) {
        Some("return"@)
    } else if kw_entry(w, "var"@, "var"@, "bianliang"@, "bl"@) {
        Some("var"@)
    } else if kw_entry(w, "let"@, "let"@, "buke"@, "bk"@) {
        Some("let"@)
    } else if kw_entry(w, "mut"@, "mut"@, "kebian"@, "kb"@) {
        Some("mut"@)
    } else if kw_entry(w, "const"@, "con"@, "changliang"@, "cl"@) {
        Some("const"@)
    } else if kw_entry(w, "type"@, "typ"@, "leixing"@, "lx"@) {
        Some("type"@)
    } else if kw_entry(w, "struct"@, "struct"@, "jiegou"@, "jg"@) {
        Some("struct"@)
    } else if kw_entry(w, "enum"@, "enum"@, "meiju"@, "mj"@) {
        Some("enum"@)
    } else if kw_entry(w, "if"@, "if"@, "ruguo"@, "rg"@) {
        Some("if"@)
    } else if kw_entry(w, "else"@, "els"@, "fouze"@, "fz"@) {
        Some("else"@)
    } else if kw_entry(w, "for"@, "for"@, "xunhuan"@, "xh"@) {
        Some("for"@)
    } else if kw_entry(w, "while"@, "whl"@, "dang"@, "dg"@) {
        Some("while"@)
    } else if kw_entry(w, "break"@, "brk"@, "tiaochu"@, "tc"@) {
        Some("break"@)
    } else if kw_entry(w, "continue"@, "cnt"@, "jixu"@, "jx"@) {
        Some("continue"@)
    } else if kw_entry(w, "match"@, "match"@, "pipei"@, "pp"@) {
        Some("match"@)
    } else if kw_entry(w, "true"@, "true"@, "zhen"@, "zh"@) {
        Some("true"@)
    } else if kw_entry(w, "false"@, "fls"@, "jia"@, "ji"@) {
        Some("false"@)
    } else if kw_entry(w, "defer"@, "def"@, "yanchi"@, "yc"@) {
        Some("defer"@)
    } else if kw_entry(w, "go"@, "go"@, "xiecheng"@, "xc"@) {
        Some("go"@)
    } else if kw_entry(w, "chan"@, "chan"@, "tongdao"@, "td"@) {
        Some("chan"@)
    } else if kw_entry(w, "panic"@, "panic"@, "huangkong"@, "hk"@) {
        Some("panic"@)
    } else if kw_entry(w, "unsafe"@, "unsafe"@, "weixian"@, "wx"@) {
        Some("unsafe"@)
    } else if kw_entry(w, "as"@, "as"@, "zuowei"@, "zw"@) {
        Some("as"@)
    } else if kw_entry(w, "in"@, "in"@, "zai"@, "zai"@) {
        Some("in"@)
    } else if kw_entry(w, "from"@, "from"@, "cong"@, "cong"@) {
        Some("from"@)
    } else if kw_entry(w, "to"@, "to"@, "dao"@, "dao"@) {
        Some("to"@)
    } else {
        None
    }
}

/// The token kind of a canonical keyword.
pub open spec fn keyword_kind_spec(c: Seq<char>) -> Option<TokKind> {
    if c == "package"@ {
        Some(TokKind::KwPackage)
    } else if c == "import"@ {
        Some(TokKind::KwImport)
    } else if c == "func"@ {
        Some(TokKind::KwFunc)
    } else if c == "return"@ {
        Some(TokKind::KwReturn)
    } else if c == "var"@ {
        Some(TokKind::KwVar)
    } else if c == "let"@ {
        Some(TokKind::KwLet)
    } else if c == "mut"@ {
        Some(TokKind::KwMut)
    } else if c == "const"@ {
        Some(TokKind::KwConst)
    } else if c == "type"@ {
        Some(TokKind::KwType)
    } else if c == "struct"@ {
        Some(TokKind::KwStruct)
    } else if c == "enum"@ {
        Some(TokKind::KwEnum)
    } else if c == "if"@ {
        Some(TokKind::KwIf)
    } else if c == "else"@ {
        Some(TokKind::KwElse)
    } else if c == "for"@ {
        Some(TokKind::KwFor)
    } else if c == "while"@ {
        Some(TokKind::KwWhile)
    } else if c == "loop"@ {
        Some(TokKind::KwLoop)
    } else if c == "break"@ {
        Some(TokKind::KwBreak)
    } else if c == "continue"@ {
        Some(TokKind::KwContinue)
    } else if c == "match"@ {
        Some(TokKind::KwMatch)
    } else if c == "true"@ {
        Some(TokKind::KwTrue)
    } else if c == "false"@ {
        Some(TokKind::KwFalse)
    } else if c == "defer"@ {
        Some(TokKind::KwDefer)
    } else if c == "go"@ {
        Some(TokKind::KwGo)
    } else if c == "chan"@ {
        Some(TokKind::KwChan)
    } else if c == "panic"@ {
        Some(TokKind::KwPanic)
    } else if c == "unsafe"@ {
        Some(TokKind::KwUnsafe)
    } else if c == "as"@ {
        Some(TokKind::KwAs)
    } else if c == "in"@ {
        Some(TokKind::KwIn)
    } else if c == "from"@ {
        Some(TokKind::KwFrom)
    } else if c == "to"@ {
        Some(TokKind::KwTo)
    } else {
        None
    }
}

/// Kind of an identifier-shaped word: its keyword kind, or `Ident`.
pub open spec fn word_kind(w: Seq<char>) -> TokKind {
    match canonical(w) {
        Some(c) => match keyword_kind_spec(c) {
            Some(k) => k,
            None => TokKind::Ident,
        },
        None => TokKind::Ident,
    }
}

/// The four forms of a keyword (English, abbreviation, pinyin, initials) are one
/// keyword: every form lexes as its canonical spelling does, and never as an identifier.
pub proof fn lemma_keyword_forms(w: Seq<char>)
    ensures
        canonical(w) matches Some(c) ==> word_kind(w) == word_kind(c) && word_kind(w) != TokKind::Ident,
{
    reveal_strlit("as");
    reveal_strlit("baozhuang");
    reveal_strlit("bianliang");
    reveal_strlit("bk");
    reveal_strlit("bl");
    reveal_strlit("break");
    reveal_strlit("brk");
    reveal_strlit("buke");
    reveal_strlit("bz");
    reveal_strlit("chan");
    reveal_strlit("changliang");
    reveal_strlit("cl");
    reveal_strlit("cnt");
    reveal_strlit("con");
    reveal_strlit("cong");
    reveal_strlit("const");
    reveal_strlit("continue");
    reveal_strlit("dang");
    reveal_strlit("dao");
    reveal_strlit("daoru");
    reveal_strlit("def");
    reveal_strlit("defer");
    reveal_strlit("dg");
    reveal_strlit("dr");
    reveal_strlit("els");
    reveal_strlit("else");
    reveal_strlit("enum");
    reveal_strlit("false");
    reveal_strlit("fanhui");
    reveal_strlit("fh");
    reveal_strlit("fls");
    reveal_strlit("fn");
    reveal_strlit("for");
    reveal_strlit("fouze");
    reveal_strlit("from");
    reveal_strlit("func");
    reveal_strlit("fz");
    reveal_strlit("go");
    reveal_strlit("hanshu");
    reveal_strlit("hk");
    reveal_strlit("hs");
    reveal_strlit("huangkong");
    reveal_strlit("if");
    reveal_strlit("imp");
    reveal_strlit("import");
    reveal_strlit("in");
    reveal_strlit("jg");
    reveal_strlit("ji");
    reveal_strlit("jia");
    reveal_strlit("jiegou");
    reveal_strlit("jixu");
    reveal_strlit("jx");
    reveal_strlit("kb");
    reveal_strlit("kebian");
    reveal_strlit("leixing");
    reveal_strlit("let");
    reveal_strlit("lx");
    reveal_strlit("match");
    reveal_strlit("meiju");
    reveal_strlit("mj");
    reveal_strlit("mut");
    reveal_strlit("package");
    reveal_strlit("panic");
    reveal_strlit("pipei");
    reveal_strlit("pkg");
    reveal_strlit("pp");
    reveal_strlit("ret");
    reveal_strlit("return");
    reveal_strlit("rg");
    reveal_strlit("ruguo");
    reveal_strlit("struct");
    reveal_strlit("tc");
    reveal_strlit("td");
    reveal_strlit("tiaochu");
    reveal_strlit("to");
    reveal_strlit("tongdao");
    reveal_strlit("true");
    reveal_strlit("typ");
    reveal_strlit("type");
    reveal_strlit("unsafe");
    reveal_strlit("var");
    reveal_strlit("weixian");
    reveal_strlit("while");
    reveal_strlit("whl");
    reveal_strlit("wx");
    reveal_strlit("xc");
    reveal_strlit("xh");
    reveal_strlit("xiecheng");
    reveal_strlit("xunhuan");
    reveal_strlit("yanchi");
    reveal_strlit("yc");
    reveal_strlit("zai");
    reveal_strlit("zh");
    reveal_strlit("zhen");
    reveal_strlit("zuowei");
    reveal_strlit("zw");
    assert("as"@.len() == 2 && "as"@[0] == 'a' && "as"@[1] == 's');
    assert("baozhuang"@.len() == 9 && "baozhuang"@[0] == 'b' && "baozhuang"@[1] == 'a');
    assert("bianliang"@.len() == 9 && "bianliang"@[0] == 'b' && "bianliang"@[1] == 'i');
    assert("bk"@.len() == 2 && "bk"@[0] == 'b' && "bk"@[1] == 'k');
    assert("bl"@.len() == 2 && "bl"@[0] == 'b' && "bl"@[1] == 'l');
    assert("break"@.len() == 5 && "break"@[0] == 'b' && "break"@[1] == 'r');
    assert("brk"@.len() == 3 && "brk"@[0] == 'b' && "brk"@[1] == 'r');
    assert("buke"@.len() == 4 && "buke"@[0] == 'b' && "buke"@[1] == 'u');
    assert("bz"@.len() == 2 && "bz"@[0] == 'b' && "bz"@[1] == 'z');
    assert("chan"@.len() == 4 && "chan"@[0] == 'c' && "chan"@[1] == 'h');
    assert("changliang"@.len() == 10 && "changliang"@[0] == 'c' && "changliang"@[1] == 'h');
    assert("cl"@.len() == 2 && "cl"@[0] == 'c' && "cl"@[1] == 'l');
    assert("cnt"@.len() == 3 && "cnt"@[0] == 'c' && "cnt"@[1] == 'n');
    assert("con"@.len() == 3 && "con"@[0] == 'c' && "con"@[1] == 'o');
    assert("cong"@.len() == 4 && "cong"@[0] == 'c' && "cong"@[1] == 'o');
    assert("const"@.len() == 5 && "const"@[0] == 'c' && "const"@[1] == 'o');
    assert("continue"@.len() == 8 && "continue"@[0] == 'c' && "continue"@[1] == 'o');
    assert("dang"@.len() == 4 && "dang"@[0] == 'd' && "dang"@[1] == 'a');
    assert("dao"@.len() == 3 && "dao"@[0] == 'd' && "dao"@[1] == 'a');
    assert("daoru"@.len() == 5 && "daoru"@[0] == 'd' && "daoru"@[1] == 'a');
    assert("def"@.len() == 3 && "def"@[0] == 'd' && "def"@[1] == 'e');
    assert("defer"@.len() == 5 && "defer"@[0] == 'd' && "defer"@[1] == 'e');
    assert("dg"@.len() == 2 && "dg"@[0] == 'd' && "dg"@[1] == 'g');
    assert("dr"@.len() == 2 && "dr"@[0] == 'd' && "dr"@[1] == 'r');
    assert("els"@.len() == 3 && "els"@[0] == 'e' && "els"@[1] == 'l');
    assert("else"@.len() == 4 && "else"@[0] == 'e' && "else"@[1] == 'l');
    assert("enum"@.len() == 4 && "enum"@[0] == 'e' && "enum"@[1] == 'n');
    assert("false"@.len() == 5 && "false"@[0] == 'f' && "false"@[1] == 'a');
    assert("fanhui"@.len() == 6 && "fanhui"@[0] == 'f' && "fanhui"@[1] == 'a');
    assert("fh"@.len() == 2 && "fh"@[0] == 'f' && "fh"@[1] == 'h');
    assert("fls"@.len() == 3 && "fls"@[0] == 'f' && "fls"@[1] == 'l');
    assert("fn"@.len() == 2 && "fn"@[0] == 'f' && "fn"@[1] == 'n');
    assert("for"@.len() == 3 && "for"@[0] == 'f' && "for"@[1] == 'o');
    assert("fouze"@.len() == 5 && "fouze"@[0] == 'f' && "fouze"@[1] == 'o');
    assert("from"@.len() == 4 && "from"@[0] == 'f' && "from"@[1] == 'r');
    assert("func"@.len() == 4 && "func"@[0] == 'f' && "func"@[1] == 'u');
    assert("fz"@.len() == 2 && "fz"@[0] == 'f' && "fz"@[1] == 'z');
    assert("go"@.len() == 2 && "go"@[0] == 'g' && "go"@[1] == 'o');
    assert("hanshu"@.len() == 6 && "hanshu"@[0] == 'h' && "hanshu"@[1] == 'a');
    assert("hk"@.len() == 2 && "hk"@[0] == 'h' && "hk"@[1] == 'k');
    assert("hs"@.len() == 2 && "hs"@[0] == 'h' && "hs"@[1] == 's');
    assert("huangkong"@.len() == 9 && "huangkong"@[0] == 'h' && "huangkong"@[1] == 'u');
    assert("if"@.len() == 2 && "if"@[0] == 'i' && "if"@[1] == 'f');
    assert("imp"@.len() == 3 && "imp"@[0] == 'i' && "imp"@[1] == 'm');
    assert("import"@.len() == 6 && "import"@[0] == 'i' && "import"@[1] == 'm');
    assert("in"@.len() == 2 && "in"@[0] == 'i' && "in"@[1] == 'n');
    assert("jg"@.len() == 2 && "jg"@[0] == 'j' && "jg"@[1] == 'g');
    assert("ji"@.len() == 2 && "ji"@[0] == 'j' && "ji"@[1] == 'i');
    assert("jia"@.len() == 3 && "jia"@[0] == 'j' && "jia"@[1] == 'i');
    assert("jiegou"@.len() == 6 && "jiegou"@[0] == 'j' && "jiegou"@[1] == 'i');
    assert("jixu"@.len() == 4 && "jixu"@[0] == 'j' && "jixu"@[1] == 'i');
    assert("jx"@.len() == 2 && "jx"@[0] == 'j' && "jx"@[1] == 'x');
    assert("kb"@.len() == 2 && "kb"@[0] == 'k' && "kb"@[1] == 'b');
    assert("kebian"@.len() == 6 && "kebian"@[0] == 'k' && "kebian"@[1] == 'e');
    assert("leixing"@.len() == 7 && "leixing"@[0] == 'l' && "leixing"@[1] == 'e');
    assert("let"@.len() == 3 && "let"@[0] == 'l' && "let"@[1] == 'e');
    assert("lx"@.len() == 2 && "lx"@[0] == 'l' && "lx"@[1] == 'x');
    assert("match"@.len() == 5 && "match"@[0] == 'm' && "match"@[1] == 'a');
    assert("meiju"@.len() == 5 && "meiju"@[0] == 'm' && "meiju"@[1] == 'e');
    assert("mj"@.len() == 2 && "mj"@[0] == 'm' && "mj"@[1] == 'j');
    assert("mut"@.len() == 3 && "mut"@[0] == 'm' && "mut"@[1] == 'u');
    assert("package"@.len() == 7 && "package"@[0] == 'p' && "package"@[1] == 'a');
    assert("panic"@.len() == 5 && "panic"@[0] == 'p' && "panic"@[1] == 'a');
    assert("pipei"@.len() == 5 && "pipei"@[0] == 'p' && "pipei"@[1] == 'i');
    assert("pkg"@.len() == 3 && "pkg"@[0] == 'p' && "pkg"@[1] == 'k');
    assert("pp"@.len() == 2 && "pp"@[0] == 'p' && "pp"@[1] == 'p');
    assert("ret"@.len() == 3 && "ret"@[0] == 'r' && "ret"@[1] == 'e');
    assert("return"@.len() == 6 && "return"@[0] == 'r' && "return"@[1] == 'e');
    assert("rg"@.len() == 2 && "rg"@[0] == 'r' && "rg"@[1] == 'g');
    assert("ruguo"@.len() == 5 && "ruguo"@[0] == 'r' && "ruguo"@[1] == 'u');
    assert("struct"@.len() == 6 && "struct"@[0] == 's' && "struct"@[1] == 't');
    assert("tc"@.len() == 2 && "tc"@[0] == 't' && "tc"@[1] == 'c');
    assert("td"@.len() == 2 && "td"@[0] == 't' && "td"@[1] == 'd');
    assert("tiaochu"@.len() == 7 && "tiaochu"@[0] == 't' && "tiaochu"@[1] == 'i');
    assert("to"@.len() == 2 && "to"@[0] == 't' && "to"@[1] == 'o');
    assert("tongdao"@.len() == 7 && "tongdao"@[0] == 't' && "tongdao"@[1] == 'o');
    assert("true"@.len() == 4 && "true"@[0] == 't' && "true"@[1] == 'r');
    assert("typ"@.len() == 3 && "typ"@[0] == 't' && "typ"@[1] == 'y');
    assert("type"@.len() == 4 && "type"@[0] == 't' && "type"@[1] == 'y');
    assert("unsafe"@.len() == 6 && "unsafe"@[0] == 'u' && "unsafe"@[1] == 'n');
    assert("var"@.len() == 3 && "var"@[0] == 'v' && "var"@[1] == 'a');
    assert("weixian"@.len() == 7 && "weixian"@[0] == 'w' && "weixian"@[1] == 'e');
    assert("while"@.len() == 5 && "while"@[0] == 'w' && "while"@[1] == 'h');
    assert("whl"@.len() == 3 && "whl"@[0] == 'w' && "whl"@[1] == 'h');
    assert("wx"@.len() == 2 && "wx"@[0] == 'w' && "wx"@[1] == 'x');
    assert("xc"@.len() == 2 && "xc"@[0] == 'x' && "xc"@[1] == 'c');
    assert("xh"@.len() == 2 && "xh"@[0] == 'x' && "xh"@[1] == 'h');
    assert("xiecheng"@.len() == 8 && "xiecheng"@[0] == 'x' && "xiecheng"@[1] == 'i');
    assert("xunhuan"@.len() == 7 && "xunhuan"@[0] == 'x' && "xunhuan"@[1] == 'u');
    assert("yanchi"@.len() == 6 && "yanchi"@[0] == 'y' && "yanchi"@[1] == 'a');
    assert("yc"@.len() == 2 && "yc"@[0] == 'y' && "yc"@[1] == 'c');
    assert("zai"@.len() == 3 && "zai"@[0] == 'z' && "zai"@[1] == 'a');
    assert("zh"@.len() == 2 && "zh"@[0] == 'z' && "zh"@[1] == 'h');
    assert("zhen"@.len() == 4 && "zhen"@[0] == 'z' && "zhen"@[1] == 'h');
    assert("zuowei"@.len() == 6 && "zuowei"@[0] == 'z' && "zuowei"@[1] == 'u');
    assert("zw"@.len() == 2 && "zw"@[0] == 'z' && "zw"@[1] == 'w');
    if canonical(w) == Some("package"@) {
        assert(canonical("package"@) == Some("package"@));
    } else if canonical(w) == Some("import"@) {
        assert(canonical("import"@) == Some("import"@));
    } else if canonical(w) == Some("func"@) {
        assert(canonical("func"@) == Some("func"@));
    } else if canonical(w) == Some("return"@) {
        assert(canonical("return"@) == Some("return"@));
    } else if canonical(w) == Some("var"@) {
        assert(canonical("var"@) == Some("var"@));
    } else if canonical(w) == Some("let"@) {
        assert(canonical("let"@) == Some("let"@));
    } else if canonical(w) == Some("mut"@) {
        assert(canonical("mut"@) == Some("mut"@));
    } else if canonical(w) == Some("const"@) {
        assert(canonical("const"@) == Some("const"@));
    } else if canonical(w) == Some("type"@) {
        assert(canonical("type"@) == Some("type"@));
    } else if canonical(w) == Some("struct"@) {
        assert(canonical("struct"@) == Some("struct"@));
    } else if canonical(w) == Some("enum"@) {
        assert(canonical("enum"@) == Some("enum"@));
    } else if canonical(w) == Some("if"@) {
        assert(canonical("if"@) == Some("if"@));
    } else if canonical(w) == Some("else"@) {
        assert(canonical("else"@) == Some("else"@));
    } else if canonical(w) == Some("for"@) {
        assert(canonical("for"@) == Some("for"@));
    } else if canonical(w) == Some("while"@) {
        assert(canonical("while"@) == Some("while"@));
    } else if canonical(w) == Some("break"@) {
        assert(canonical("break"@) == Some("break"@));
    } else if canonical(w) == Some("continue"@) {
        assert(canonical("continue"@) == Some("continue"@));
    } else if canonical(w) == Some("match"@) {
        assert(canonical("match"@) == Some("match"@));
    } else if canonical(w) == Some("true"@) {
        assert(canonical("true"@) == Some("true"@));
    } else if canonical(w) == Some("false"@) {
        assert(canonical("false"@) == Some("false"@));
    } else if canonical(w) == Some("defer"@) {
        assert(canonical("defer"@) == Some("defer"@));
    } else if canonical(w) == Some("go"@) {
        assert(canonical("go"@) == Some("go"@));
    } else if canonical(w) == Some("chan"@) {
        assert(canonical("chan"@) == Some("chan"@));
    } else if canonical(w) == Some("panic"@) {
        assert(canonical("panic"@) == Some("panic"@));
    } else if canonical(w) == Some("unsafe"@) {
        assert(canonical("unsafe"@) == Some("unsafe"@));
    } else if canonical(w) == Some("as"@) {
        assert(canonical("as"@) == Some("as"@));
    } else if canonical(w) == Some("in"@) {
        assert(canonical("in"@) == Some("in"@));
    } else if canonical(w) == Some("from"@) {
        assert(canonical("from"@) == Some("from"@));
    } else if canonical(w) == Some("to"@) {
        assert(canonical("to"@) == Some("to"@));
    }
}


/// Does the character sequence `w` spell the literal `lit`?
pub(crate) fn spells(w: &[char], lit: &str) -> (r: bool)
    ensures
        r == (w@ == lit@),
{
    let l = chars_of(lit);
    chars_eq(w, l.as_slice())
}

fn is_entry(w: &[char], c: &str, a: &str, f: &str, i: &str) -> (r: bool)
    ensures
        r == kw_entry(w@, c@, a@, f@, i@),
{
    spells(w, c) || spells(w, a) || spells(w, f) || spells(w, i)
}

/// Keyword normalisation: the canonical form of `w` if it is one of the four forms of a keyword.
fn keyword_normalize(w: &[char]) -> (r: Option<&'static str>)
    ensures
        r matches Some(c) ==> canonical(w@) == Some(c@),
        r is None ==> canonical(w@) is None,
{
    if is_entry(w, "package", "pkg", "baozhuang", "bz") {
        Some("package")
    } else if is_entry(w, "import", "imp", "daoru", "dr") {
        Some("import")
    } else if is_entry(w, "func", "fn", "hanshu", "hs") {
        Some("func")
    } else if is_entry(w, "return", "ret", "fanhui", "fh") {
        Some("return")
    } else if is_entry(w, "var", "var", "bianliang", "bl") {
        Some("var")
    } else if is_entry(w, "let", "let", "buke", "bk") {
        Some("let")
    } else if is_entry(w, "mut", "mut", "kebian", "kb") {
        Some("mut")
    } else if is_entry(w, "const", "con", "changliang", "cl") {
        Some("const")
    } else if is_entry(w, "type", "typ", "leixing", "lx") {
        Some("type")
    } else if is_entry(w, "struct", "struct", "jiegou", "jg") {
        Some("struct")
    } else if is_entry(w, "enum", "enum", "meiju", "mj") {
        Some("enum")
    } else if is_entry(w, "if", "if", "ruguo", "rg") {
        Some("if")
    } else if is_entry(w, "else", "els", "fouze", "fz") {
        Some("else")
    } else if is_entry(w, "for", "for", "xunhuan", "xh") {
        Some("for")
    } else if is_entry(w, "while", "whl", "dang", "dg") {
        Some("while")
    } else if is_entry(w, "break", "brk", "tiaochu", "tc") {
        Some("break")
    } else if is_entry(w, "continue", "cnt", "jixu", "jx") {
        Some("continue")
    } else if is_entry(w, "match", "match", "pipei", "pp") {
        Some("match")
    } else if is_entry(w, "true", "true", "zhen", "zh") {
        Some("true")
    } else if is_entry(w, "false", "fls", "jia", "ji") {
        Some("false")
    } else if is_entry(w, "defer", "def", "yanchi", "yc") {
        Some("defer")
    } else if is_entry(w, "go", "go", "xiecheng", "xc") {
        Some("go")
    } else if is_entry(w, "chan", "chan", "tongdao", "td") {
        Some("chan")
    } else if is_entry(w, "panic", "panic", "huangkong", "hk") {
        Some("panic")
    } else if is_entry(w, "unsafe", "unsafe", "weixian", "wx") {
        Some("unsafe")
    } else if is_entry(w, "as", "as", "zuowei", "zw") {
        Some("as")
    } else if is_entry(w, "in", "in", "zai", "zai") {
        Some("in")
    } else if is_entry(w, "from", "from", "cong", "cong") {
        Some("from")
    } else if is_entry(w, "to", "to", "dao", "dao") {
        Some("to")
    } else {
        None
    }
}

/// The token kind of a canonical keyword.
fn keyword_kind(canonical: &str) -> (r: Option<TokKind>)
    ensures
        r == keyword_kind_spec(canonical@),
{
    let c = chars_of(canonical);
    let w = c.as_slice();
    if spells(w, "package") {
        Some(TokKind::KwPackage)
    } else if spells(w, "import") {
        Some(TokKind::KwImport)
    } else if spells(w, "func") {
        Some(TokKind::KwFunc)
    } else if spells(w, "return") {
        Some(TokKind::KwReturn)
    } else if spells(w, "var") {
        Some(TokKind::KwVar)
    } else if spells(w, "let") {
        Some(TokKind::KwLet)
    } else if spells(w, "mut") {
        Some(TokKind::KwMut)
    } else if spells(w, "const") {
        Some(TokKind::KwConst)
    } else if spells(w, "type") {
        Some(TokKind::KwType)
    } else if spells(w, "struct") {
        Some(TokKind::KwStruct)
    } else if spells(w, "enum") {
        Some(TokKind::KwEnum)
    } else if spells(w, "if") {
        Some(TokKind::KwIf)
    } else if spells(w, "else") {
        Some(TokKind::KwElse)
    } else if spells(w, "for") {
        Some(TokKind::KwFor)
    } else if spells(w, "while") {
        Some(TokKind::KwWhile)
    } else if spells(w, "loop") {
        Some(TokKind::KwLoop)
    } else if spells(w, "break") {
        Some(TokKind::KwBreak)
    } else if spells(w, "continue") {
        Some(TokKind::KwContinue)
    } else if spells(w, "match") {
        Some(TokKind::KwMatch)
    } else if spells(w, "true") {
        Some(TokKind::KwTrue)
    } else if spells(w, "false") {
        Some(TokKind::KwFalse)
    } else if spells(w, "defer") {
        Some(TokKind::KwDefer)
    } else if spells(w, "go") {
        Some(TokKind::KwGo)
    } else if spells(w, "chan") {
        Some(TokKind::KwChan)
    } else if spells(w, "panic") {
        Some(TokKind::KwPanic)
    } else if spells(w, "unsafe") {
        Some(TokKind::KwUnsafe)
    } else if spells(w, "as") {
        Some(TokKind::KwAs)
    } else if spells(w, "in") {
        Some(TokKind::KwIn)
    } else if spells(w, "from") {
        Some(TokKind::KwFrom)
    } else if spells(w, "to") {
        Some(TokKind::KwTo)
    } else {
        None
    }
}

// ---------------------------------------------------------------------
// Character classes
// ---------------------------------------------------------------------

/// First character of an identifier: `_`, an ASCII letter, or any character from U+00C0 on.
pub open spec fn ident_start(c: char) -> bool {
    c == '_' || is_ascii_alpha(c) || (c as u32) >= 0xC0
}

/// Later characters of an identifier: `_`, ASCII letters and digits, and any character from U+0080 on.
pub open spec fn ident_char(c: char) -> bool {
    c == '_' || is_ascii_alpha(c) || is_digit(c) || (0x80 <= (c as u32) && (c as u32) <= 0xBF)
        || (c as u32) >= 0xC0
}

fn is_ident_start(c: char) -> (r: bool)
    ensures
        r == ident_start(c),
{
    if c == '_' {
        return true;
    }
    if ('a' <= c && c <= 'z') || ('A' <= c && c <= 'Z') {
        return true;
    }
    let b = c as u32;
    b >= 0xC0
}

fn is_ident_byte(c: char) -> (r: bool)
    ensures
        r == ident_char(c),
{
    if c == '_' {
        return true;
    }
    if ('a' <= c && c <= 'z') || ('A' <= c && c <= 'Z') || ('0' <= c && c <= '9') {
        return true;
    }
    let b = c as u32;
    (0x80 <= b && b <= 0xBF) || b >= 0xC0
}

// ---------------------------------------------------------------------
// Lexical grammar
// ---------------------------------------------------------------------

/// Line and column (both 1-based) of position `p` in `s`.
pub open spec fn line_col(s: Seq<char>, p: nat) -> (nat, nat)
    decreases p,
{
    if p == 0 {
        (1, 1)
    } else {
        let lc = line_col(s, (p - 1) as nat);
        if s[p - 1] == '\n' {
            (lc.0 + 1, 1)
        } else {
            (lc.0, lc.1 + 1)
        }
    }
}

/// End of a `//` comment that starts at `p`: the next newline, or the end.
pub open spec fn line_comment_end(s: Seq<char>, p: nat) -> nat
    decreases s.len() - p,
{
    if p < s.len() && s[p as int] != '\n' {
        line_comment_end(s, p + 1)
    } else {
        p
    }
}

/// End of a block comment whose body starts at `p`: just after the first `*/`, or the end.
pub open spec fn block_comment_end(s: Seq<char>, p: nat) -> nat
    decreases s.len() - p,
{
    if p >= s.len() {
        p
    } else if s[p as int] == '*' && p + 1 < s.len() && s[p + 1 as int] == '/' {
        p + 2
    } else {
        block_comment_end(s, p + 1)
    }
}

/// Where the whitespace and comments that start at `p` end.
pub open spec fn ws_end(s: Seq<char>, p: nat) -> nat
    decreases s.len() - p,
{
    if p >= s.len() {
        p
    } else if is_ws(s[p as int]) {
        ws_end(s, p + 1)
    } else if s[p as int] == '/' && p + 1 < s.len() && s[p + 1 as int] == '/' {
        proof {
            lemma_line_comment_end(s, p + 1);
        }
        ws_end(s, line_comment_end(s, p))
    } else if s[p as int] == '/' && p + 1 < s.len() && s[p + 1 as int] == '*' {
        proof {
            lemma_block_comment_end(s, p + 2);
        }
        ws_end(s, block_comment_end(s, p + 2))
    } else {
        p
    }
}

/// End of the run of ASCII digits that starts at `p`.
pub open spec fn digits_end(s: Seq<char>, p: nat) -> nat
    decreases s.len() - p,
{
    if p < s.len() && is_digit(s[p as int]) {
        digits_end(s, p + 1)
    } else {
        p
    }
}

/// Does a fraction part (`.` followed by a digit) start at `e`?
pub open spec fn has_frac(s: Seq<char>, e: nat) -> bool {
    e + 1 < s.len() && s[e as int] == '.' && is_digit(s[e + 1 as int])
}

pub open spec fn frac_end(s: Seq<char>, e: nat) -> nat {
    if has_frac(s, e) {
        digits_end(s, e + 1)
    } else {
        e
    }
}

/// Does an exponent (`e` or `E`) start at `e`?
pub open spec fn has_exp(s: Seq<char>, e: nat) -> bool {
    e < s.len() && (s[e as int] == 'e' || s[e as int] == 'E')
}

pub open spec fn exp_end(s: Seq<char>, e: nat) -> nat {
    if has_exp(s, e) {
        if e + 1 < s.len() && (s[e + 1 as int] == '+' || s[e + 1 as int] == '-') {
            digits_end(s, e + 2)
        } else {
            digits_end(s, e + 1)
        }
    } else {
        e
    }
}

/// End of the number literal that starts at `p`.
pub open spec fn number_end(s: Seq<char>, p: nat) -> nat {
    exp_end(s, frac_end(s, digits_end(s, p)))
}

/// A number literal is a float when it has a fraction part or an exponent.
pub open spec fn number_is_float(s: Seq<char>, p: nat) -> bool {
    has_frac(s, digits_end(s, p)) || has_exp(s, frac_end(s, digits_end(s, p)))
}

/// End of the identifier characters that start at `p`.
pub open spec fn ident_end(s: Seq<char>, p: nat) -> nat
    decreases s.len() - p,
{
    if p < s.len() && ident_char(s[p as int]) {
        ident_end(s, p + 1)
    } else {
        p
    }
}

/// The character that an escape `\c` stands for inside a string literal.
pub open spec fn unescape(c: char) -> char {
    if c == 'n' {
        '\n'
    } else if c == 't' {
        '\t'
    } else if c == 'r' {
        '\r'
    } else {
        c
    }
}

/// Body of a string literal from `q` on: the decoded text and the position after the closing quote
/// (an unterminated literal runs to the end).
pub open spec fn string_body(s: Seq<char>, q: nat) -> (Seq<char>, nat)
    decreases s.len() - q,
{
    if q >= s.len() {
        (seq![], q)
    } else if s[q as int] == '"' {
        (seq![], q + 1)
    } else if s[q as int] == '\\' {
        if q + 1 < s.len() {
            let r = string_body(s, q + 2);
            (seq![unescape(s[q + 1 as int])] + r.0, r.1)
        } else {
            (seq![], q + 1)
        }
    } else {
        let r = string_body(s, q + 1);
        (seq![s[q as int]] + r.0, r.1)
    }
}

/// Token of a two-character operator `c n`, if any.
pub open spec fn two_char_op(c: char, n: char) -> Option<TokKind> {
    if c == '-' && n == '>' {
        Some(TokKind::Arrow)
    } else if c == '=' && n == '>' {
        Some(TokKind::FatArrow)
    } else if c == '=' && n == '=' {
        Some(TokKind::EqEq)
    } else if c == '!' && n == '=' {
        Some(TokKind::NotEq)
    } else if c == '<' && n == '=' {
        Some(TokKind::Le)
    } else if c == '>' && n == '=' {
        Some(TokKind::Ge)
    } else if c == '&' && n == '&' {
        Some(TokKind::AndAnd)
    } else if c == '|' && n == '|' {
        Some(TokKind::OrOr)
    } else if c == ':' && n == ':' {
        Some(TokKind::ColonColon)
    } else if c == '?' && n == '.' {
        Some(TokKind::QuestionDot)
    } else if c == '?' && n == '?' {
        Some(TokKind::QuestionQuestion)
    } else {
        None
    }
}

/// Token of a single-character operator or delimiter (`Error` for any other character).
pub open spec fn one_char_op(c: char) -> TokKind {
    if c == '(' {
        TokKind::LParen
    } else if c == ')' {
        TokKind::RParen
    } else if c == '{' {
        TokKind::LBrace
    } else if c == '}' {
        TokKind::RBrace
    } else if c == '[' {
        TokKind::LBracket
    } else if c == ']' {
        TokKind::RBracket
    } else if c == ',' {
        TokKind::Comma
    } else if c == ';' {
        TokKind::Semi
    } else if c == ':' {
        TokKind::Colon
    } else if c == '.' {
        TokKind::Dot
    } else if c == '+' {
        TokKind::Plus
    } else if c == '-' {
        TokKind::Minus
    } else if c == '*' {
        TokKind::Star
    } else if c == '/' {
        TokKind::Slash
    } else if c == '%' {
        TokKind::Percent
    } else if c == '=' {
        TokKind::Eq
    } else if c == '<' {
        TokKind::Lt
    } else if c == '>' {
        TokKind::Gt
    } else if c == '!' {
        TokKind::Bang
    } else if c == '?' {
        TokKind::Question
    } else {
        TokKind::Error
    }
}

/// The operator (or delimiter, or error) token at `p`: kind, lexeme and end.
pub open spec fn scan_op(s: Seq<char>, p: nat) -> (TokKind, Seq<char>, nat) {
    let c = s[p as int];
    if p + 1 < s.len() && two_char_op(c, s[p + 1 as int]) is Some {
        (two_char_op(c, s[p + 1 as int])->0, s.subrange(p as int, p + 2 as int), p + 2)
    } else if p + 1 < s.len() && c == '.' && s[p + 1 as int] == '.' {
        if p + 2 < s.len() && s[p + 2 as int] == '=' {
            (TokKind::DotDotEq, s.subrange(p as int, p + 3 as int), p + 3)
        } else {
            (TokKind::DotDot, s.subrange(p as int, p + 2 as int), p + 2)
        }
    } else {
        (one_char_op(c), seq![c], p + 1)
    }
}

/// The character literal token at `p` (`s[p]` is `'`): its one character and its end.
pub open spec fn scan_char(s: Seq<char>, p: nat) -> (Seq<char>, nat) {
    let ch = if p + 1 < s.len() {
        s[p + 1 as int]
    } else {
        '\0'
    };
    let q = if p + 1 < s.len() {
        p + 2
    } else {
        p + 1
    };
    let e = if q < s.len() && s[q as int] == '\'' {
        q + 1
    } else {
        q
    };
    (seq![ch], e)
}

/// The token that starts at `p` (where no whitespace or comment starts): kind, lexeme and end.
pub open spec fn scan(s: Seq<char>, p: nat) -> (TokKind, Seq<char>, nat) {
    let c = s[p as int];
    if is_digit(c) {
        let e = number_end(s, p);
        (
            if number_is_float(s, p) {
                TokKind::FloatLit
            } else {
                TokKind::IntLit
            },
            s.subrange(p as int, e as int),
            e,
        )
    } else if ident_start(c) {
        let e = ident_end(s, p + 1);
        let w = s.subrange(p as int, e as int);
        (word_kind(w), w, e)
    } else if c == '"' {
        let b = string_body(s, p + 1);
        (TokKind::StringLit, b.0, b.1)
    } else if c == '\'' {
        let r = scan_char(s, p);
        (TokKind::CharLit, r.0, r.1)
    } else {
        scan_op(s, p)
    }
}

/// The next token from position `p`: kind, lexeme, start and end.
/// At the end of the input it is `Eof` with an empty lexeme.
pub open spec fn next_tok(s: Seq<char>, p: nat) -> (TokKind, Seq<char>, nat, nat) {
    let q = ws_end(s, p);
    if q >= s.len() {
        (TokKind::Eof, seq![], q, q)
    } else {
        let t = scan(s, q);
        (t.0, t.1, q, t.2)
    }
}

/// All tokens from position `p` up to and including `Eof`: kind, lexeme and start of each.
pub open spec fn tokens_from(s: Seq<char>, p: nat) -> Seq<(TokKind, Seq<char>, nat)>
    decreases s.len() - p,
{
    let t = next_tok(s, p);
    if t.0 == TokKind::Eof || p > s.len() {
        seq![(t.0, t.1, t.2)]
    } else {
        proof {
            lemma_next_tok_progress(s, p);
        }
        seq![(t.0, t.1, t.2)] + tokens_from(s, t.3)
    }
}

// ---------------------------------------------------------------------
// Lemmas on the grammar
// ---------------------------------------------------------------------

/// Characters that stand for themselves inside a string literal.
pub open spec fn plain_text(x: Seq<char>) -> bool {
    forall|i: int| 0 <= i < x.len() ==> #[trigger] x[i] != '"' && x[i] != '\\'
}

proof fn lemma_body_plain(s: Seq<char>, q: nat, x: Seq<char>)
    requires
        plain_text(x),
        q + x.len() <= s.len(),
        s.subrange(q as int, q + x.len() as int) == x,
    ensures
        string_body(s, q) == (x + string_body(s, q + x.len()).0, string_body(s, q + x.len()).1),
    decreases x.len(),
{
    if x.len() > 0 {
        assert(s[q as int] == x[0]);
        let y = x.drop_first();
        assert(s.subrange(q + 1 as int, q + 1 + y.len() as int) =~= y);
        lemma_body_plain(s, q + 1, y);
        assert(x =~= seq![x[0]] + y);
        assert(seq![x[0]] + (y + string_body(s, q + x.len()).0) =~= x + string_body(s, q + x.len()).0);
    } else {
        assert(x + string_body(s, q).0 =~= string_body(s, q).0);
    }
}

/// A string literal with one escape `\e` between plain texts `a` and `b` is one
/// token whose text is `a`, the escaped character, then `b`: `\n` a line feed,
/// `\t` a tab, `\r` a carriage return, and any other character (`\\`, `\"`)
/// itself. The token ends after the closing quote, whatever follows it.
pub proof fn lemma_string_escape(a: Seq<char>, e: char, b: Seq<char>, rest: Seq<char>)
    requires
        plain_text(a),
        plain_text(b),
    ensures
        next_tok(seq!['"'] + a + seq!['\\', e] + b + seq!['"'] + rest, 0) == (
            TokKind::StringLit,
            a + seq![
                if e == 'n' {
                    '\n'
                } else if e == 't' {
                    '\t'
                } else if e == 'r' {
                    '\r'
                } else {
                    e
                },
            ] + b,
            0nat,
            a.len() + b.len() + 4,
        ),
{
    let s = seq!['"'] + a + seq!['\\', e] + b + seq!['"'] + rest;
    let qa = 1 + a.len();
    let qb = qa + 2;
    let qe = qb + b.len();
    assert(s[0] == '"');
    assert(ws_end(s, 0) == 0);
    assert(s.subrange(1, qa as int) =~= a);
    lemma_body_plain(s, 1, a);
    assert(s[qa as int] == '\\');
    assert(s[qa + 1 as int] == e);
    assert(s.subrange(qb as int, qe as int) =~= b);
    lemma_body_plain(s, qb, b);
    assert(s[qe as int] == '"');
    assert(string_body(s, qe) == (Seq::<char>::empty(), qe + 1));
    assert(b + Seq::<char>::empty() =~= b);
    let d = seq![unescape(e)] + b;
    assert(string_body(s, qa) == (d, qe + 1));
    assert(a + d =~= a + seq![unescape(e)] + b);
    assert(!is_digit('"'));
    assert(!ident_start('"')) by {
        assert(('"' as u32) == 34);
    }
    assert(string_body(s, 1) == (a + d, qe + 1));
    assert(scan(s, 0) == (TokKind::StringLit, a + d, qe + 1));
}

pub proof fn lemma_line_col_bound(s: Seq<char>, p: nat)
    ensures
        1 <= line_col(s, p).0 <= p + 1,
        1 <= line_col(s, p).1 <= p + 1,
    decreases p,
{
    if p > 0 {
        lemma_line_col_bound(s, (p - 1) as nat);
    }
}

pub proof fn lemma_line_comment_end(s: Seq<char>, p: nat)
    ensures
        p <= s.len() ==> p <= line_comment_end(s, p) <= s.len(),
        p > s.len() ==> line_comment_end(s, p) == p,
    decreases s.len() - p,
{
    if p < s.len() && s[p as int] != '\n' {
        lemma_line_comment_end(s, p + 1);
    }
}

pub proof fn lemma_block_comment_end(s: Seq<char>, p: nat)
    ensures
        p <= s.len() ==> p <= block_comment_end(s, p) <= s.len(),
        p > s.len() ==> block_comment_end(s, p) == p,
    decreases s.len() - p,
{
    if p < s.len() && !(s[p as int] == '*' && p + 1 < s.len() && s[p + 1 as int] == '/') {
        lemma_block_comment_end(s, p + 1);
    }
}

pub proof fn lemma_ws_end(s: Seq<char>, p: nat)
    ensures
        p <= s.len() ==> p <= ws_end(s, p) <= s.len(),
        p > s.len() ==> ws_end(s, p) == p,
        ws_end(s, p) < s.len() ==> !is_ws(s[ws_end(s, p) as int]),
    decreases s.len() - p,
{
    if p < s.len() {
        if is_ws(s[p as int]) {
            lemma_ws_end(s, p + 1);
        } else if s[p as int] == '/' && p + 1 < s.len() && s[p + 1 as int] == '/' {
            lemma_line_comment_end(s, p + 1);
            lemma_ws_end(s, line_comment_end(s, p));
        } else if s[p as int] == '/' && p + 1 < s.len() && s[p + 1 as int] == '*' {
            lemma_block_comment_end(s, p + 2);
            lemma_ws_end(s, block_comment_end(s, p + 2));
        }
    }
}

pub proof fn lemma_digits_end(s: Seq<char>, p: nat)
    ensures
        p <= s.len() ==> p <= digits_end(s, p) <= s.len(),
        p > s.len() ==> digits_end(s, p) == p,
    decreases s.len() - p,
{
    if p < s.len() && is_digit(s[p as int]) {
        lemma_digits_end(s, p + 1);
    }
}

pub proof fn lemma_ident_end(s: Seq<char>, p: nat)
    ensures
        p <= s.len() ==> p <= ident_end(s, p) <= s.len(),
        p > s.len() ==> ident_end(s, p) == p,
    decreases s.len() - p,
{
    if p < s.len() && ident_char(s[p as int]) {
        lemma_ident_end(s, p + 1);
    }
}

pub proof fn lemma_string_body(s: Seq<char>, q: nat)
    ensures
        q <= s.len() ==> q <= string_body(s, q).1 <= s.len(),
        q > s.len() ==> string_body(s, q).1 == q,
    decreases s.len() - q,
{
    if q < s.len() && s[q as int] != '"' {
        if s[q as int] == '\\' {
            if q + 1 < s.len() {
                lemma_string_body(s, q + 2);
            }
        } else {
            lemma_string_body(s, q + 1);
        }
    }
}

pub proof fn lemma_scan_progress(s: Seq<char>, p: nat)
    requires
        p < s.len(),
    ensures
        p < scan(s, p).2 <= s.len(),
{
    let c = s[p as int];
    if is_digit(c) {
        lemma_digits_end(s, p);
        let d = digits_end(s, p);
        assert(d > p) by {
            lemma_digits_end(s, p + 1);
        }
        if has_frac(s, d) {
            lemma_digits_end(s, d + 1);
        }
        let f = frac_end(s, d);
        if has_exp(s, f) {
            lemma_digits_end(s, f + 1);
            lemma_digits_end(s, f + 2);
        }
    } else if ident_start(c) {
        lemma_ident_end(s, p + 1);
    } else if c == '"' {
        lemma_string_body(s, p + 1);
    }
}

pub proof fn lemma_next_tok_progress(s: Seq<char>, p: nat)
    requires
        p <= s.len(),
        next_tok(s, p).0 != TokKind::Eof,
    ensures
        p <= next_tok(s, p).2 < next_tok(s, p).3 <= s.len(),
{
    lemma_ws_end(s, p);
    lemma_scan_progress(s, ws_end(s, p));
}

// ---------------------------------------------------------------------
// Errors
// ---------------------------------------------------------------------

/// A lexical error.
#[derive(Debug, Clone)]
pub struct LexError {
    pub line: u32,
    pub col: u32,
    pub message: String,
}

/// A lexer never reads `Eof` from a character.
pub proof fn lemma_scan_kind(s: Seq<char>, q: nat)
    requires
        q < s.len(),
    ensures
        scan(s, q).0 != TokKind::Eof,
{
}

/// The tokens from `p` are the next token followed by the tokens after it; they
/// end with `Eof`, which occurs nowhere else; lexing on from `Eof` gives `Eof` again.
pub proof fn lemma_stream(s: Seq<char>, p: nat)
    requires
        p <= s.len(),
    ensures
        ({
            let ts = tokens_from(s, p);
            let t = next_tok(s, p);
            &&& ts.len() >= 1
            &&& ts[0] == (t.0, t.1, t.2)
            &&& ts.last().0 == TokKind::Eof
            &&& forall|i: int| 0 <= i < ts.len() - 1 ==> (#[trigger] ts[i]).0 != TokKind::Eof
            &&& t.0 != TokKind::Eof ==> t.3 <= s.len() && ts.drop_first() == tokens_from(s, t.3)
            &&& t.0 == TokKind::Eof ==> ts.len() == 1 && tokens_from(s, t.3) == ts
        }),
    decreases s.len() - p,
{
    let t = next_tok(s, p);
    let ts = tokens_from(s, p);
    lemma_ws_end(s, p);
    let q = ws_end(s, p);
    if q < s.len() {
        lemma_scan_kind(s, q);
    }
    if t.0 == TokKind::Eof {
        assert(q >= s.len());
        lemma_ws_end(s, q);
        assert(next_tok(s, q) == t);
    } else {
        lemma_next_tok_progress(s, p);
        lemma_stream(s, t.3);
        let rest = tokens_from(s, t.3);
        assert(ts == seq![(t.0, t.1, t.2)] + rest);
        assert(ts.drop_first() =~= rest);
        assert forall|i: int| 0 <= i < ts.len() - 1 implies (#[trigger] ts[i]).0 != TokKind::Eof by {
            if i > 0 {
                assert(ts[i] == rest[i - 1]);
            }
        }
        assert(ts.last() == rest.last());
    }
}

/// Tokens come in source order: their start positions strictly increase, from `p` on.
pub proof fn lemma_tokens_ordered(s: Seq<char>, p: nat)
    requires
        p <= s.len(),
    ensures
        forall|i: int| 0 <= i < tokens_from(s, p).len() ==> p <= (#[trigger] tokens_from(s, p)[i]).2,
        forall|i: int, j: int|
            0 <= i < j < tokens_from(s, p).len() ==> (#[trigger] tokens_from(s, p)[i]).2 < (
            #[trigger] tokens_from(s, p)[j]).2,
    decreases s.len() - p,
{
    let ts = tokens_from(s, p);
    let t = next_tok(s, p);
    lemma_ws_end(s, p);
    lemma_stream(s, p);
    if t.0 != TokKind::Eof {
        lemma_next_tok_progress(s, p);
        lemma_tokens_ordered(s, t.3);
        let rest = tokens_from(s, t.3);
        assert forall|i: int| 0 <= i < ts.len() implies p <= (#[trigger] ts[i]).2 by {
            if i > 0 {
                assert(ts[i] == rest[i - 1]);
            }
        }
        assert forall|i: int, j: int| 0 <= i < j < ts.len() implies (#[trigger] ts[i]).2 < (
        #[trigger] ts[j]).2 by {
            assert(ts[j] == rest[j - 1]);
            if i > 0 {
                assert(ts[i] == rest[i - 1]);
            }
        }
    }
}

// ---------------------------------------------------------------------
// Lexer
// ---------------------------------------------------------------------

/// The lexer: the source characters and the position reached, with its line and column.
pub struct Lexer {
    source: Vec<char>,
    pos: usize,
    line: u32,
    col: u32,
}

impl Lexer {
    /// The source text.
    pub closed spec fn src(&self) -> Seq<char> {
        self.source@
    }

    /// The position (a character index) reached.
    pub closed spec fn position(&self) -> nat {
        self.pos as nat
    }

    /// Well-formedness: the position lies in the source, whose length fits the
    /// `u32` counters, and line and column are those of the position.
    pub closed spec fn wf(&self) -> bool {
        &&& self.pos <= self.source@.len()
        &&& self.source@.len() < u32::MAX
        &&& line_col(self.source@, self.pos as nat) == (self.line as nat, self.col as nat)
    }

    /// The position of a well-formed lexer lies within its source.
    pub proof fn lemma_position(&self)
        requires
            self.wf(),
        ensures
            self.position() <= self.src().len(),
    {
    }

    pub fn new(source: &str) -> (l: Lexer)
        requires
            source@.len() < u32::MAX,
        ensures
            l.wf(),
            l.src() == source@,
            l.position() == 0,
    {
        Lexer { source: chars_of(source), pos: 0, line: 1, col: 1 }
    }

    /// The length of the source, in characters.
    pub fn source_len(&self) -> (n: usize)
        requires
            self.wf(),
        ensures
            n == self.src().len(),
            n < u32::MAX,
    {
        self.source.len()
    }

    fn peek(&self) -> (r: Option<char>)
        ensures
            self.pos < self.source@.len() ==> r == Some(self.source@[self.pos as int]),
            self.pos >= self.source@.len() ==> r is None,
    {
        if self.pos < self.source.len() {
            Some(self.source[self.pos])
        } else {
            None
        }
    }

    fn peek_next(&self) -> (r: Option<char>)
        requires
            self.wf(),
        ensures
            self.pos + 1 < self.source@.len() ==> r == Some(self.source@[self.pos + 1]),
            self.pos + 1 >= self.source@.len() ==> r is None,
    {
        if self.pos + 1 < self.source.len() {
            Some(self.source[self.pos + 1])
        } else {
            None
        }
    }

    fn advance(&mut self) -> (r: Option<char>)
        requires
            old(self).wf(),
        ensures
            final(self).wf(),
            final(self).source@ == old(self).source@,
            old(self).pos < old(self).source@.len() ==> r == Some(old(self).source@[old(self).pos as int])
                && final(self).pos == old(self).pos + 1,
            old(self).pos >= old(self).source@.len() ==> r is None && final(self).pos == old(self).pos,
    {
        if self.pos >= self.source.len() {
            return None;
        }
        let c = self.source[self.pos];
        proof {
            lemma_line_col_bound(self.source@, self.pos as nat);
        }
        self.pos = self.pos + 1;
        if c == '\n' {
            self.line = self.line + 1;
            self.col = 1;
        } else {
            self.col = self.col + 1;
        }
        Some(c)
    }

    /// Skips whitespace and comments.
    fn skip_whitespace_and_comments(&mut self)
        requires
            old(self).wf(),
        ensures
            final(self).wf(),
            final(self).source@ == old(self).source@,
            final(self).pos == ws_end(old(self).source@, old(self).pos as nat),
    {
        let ghost s = self.source@;
        let ghost p0 = self.pos as nat;
        loop
            invariant
                self.wf(),
                self.source@ == s,
                s == old(self).source@,
                p0 == old(self).pos,
                ws_end(s, self.pos as nat) == ws_end(s, p0),
            decreases s.len() - self.pos,
        {
            match self.peek() {
                Some(c) => {
                    if char_is_ws(c) {
                        self.advance();
                    } else if c == '/' {
                        let n = self.peek_next();
                        if n == Some('/') {
                            // line comment
                            let ghost start = self.pos as nat;
                            self.advance();
                            self.advance();
                            proof {
                                assert(line_comment_end(s, start) == line_comment_end(s, start + 1));
                                assert(line_comment_end(s, start + 1) == line_comment_end(s, start + 2));
                            }
                            while self.pos < self.source.len() && self.source[self.pos] != '\n'
                                invariant
                                    self.wf(),
                                    self.source@ == s,
                                    start + 2 <= self.pos <= s.len(),
                                    line_comment_end(s, start) == line_comment_end(s, self.pos as nat),
                                decreases s.len() - self.pos,
                            {
                                self.advance();
                            }
                        } else if n == Some('*') {
                            // block comment
                            let ghost start = self.pos as nat;
                            self.advance();
                            self.advance();
                            loop
                                invariant_except_break
                                    self.wf(),
                                    self.source@ == s,
                                    start + 2 <= self.pos <= s.len(),
                                    block_comment_end(s, start + 2) == block_comment_end(
                                        s,
                                        self.pos as nat,
                                    ),
                                ensures
                                    self.wf(),
                                    self.source@ == s,
                                    start + 2 <= self.pos,
                                    block_comment_end(s, start + 2) == self.pos,
                                decreases s.len() - self.pos,
                            {
                                if self.pos >= self.source.len() {
                                    break;
                                }
                                if self.source[self.pos] == '*' && self.peek_next() == Some('/') {
                                    self.advance();
                                    self.advance();
                                    break;
                                }
                                self.advance();
                            }
                        } else {
                            return;
                        }
                    } else {
                        return;
                    }
                },
                None => {
                    return;
                },
            }
        }
    }

    /// Advances over the ASCII digits at the current position.
    fn skip_digits(&mut self)
        requires
            old(self).wf(),
        ensures
            final(self).wf(),
            final(self).source@ == old(self).source@,
            final(self).pos == digits_end(old(self).source@, old(self).pos as nat),
            old(self).pos <= final(self).pos,
    {
        let ghost s = self.source@;
        let ghost p0 = self.pos as nat;
        while self.pos < self.source.len() && char_is_digit(self.source[self.pos])
            invariant
                self.wf(),
                self.source@ == s,
                p0 <= self.pos,
                digits_end(s, self.pos as nat) == digits_end(s, p0),
            decreases s.len() - self.pos,
        {
            self.advance();
        }
    }

    /// The characters `source[start..pos]` as a string.
    fn lexeme_from(&self, start: usize) -> (r: String)
        requires
            start <= self.pos <= self.source@.len(),
        ensures
            r@ == self.source@.subrange(start as int, self.pos as int),
    {
        let v = slice_chars(self.source.as_slice(), start, self.pos);
        string_of(v.as_slice())
    }

    /// Reads a number literal.
    fn lex_number(&mut self) -> (t: Token)
        requires
            old(self).wf(),
            old(self).pos < old(self).source@.len(),
            is_digit(old(self).source@[old(self).pos as int]),
        ensures
            final(self).wf(),
            final(self).source@ == old(self).source@,
            ({
                let sc = scan(old(self).source@, old(self).pos as nat);
                &&& t.kind == sc.0
                &&& t.lexeme@ == sc.1
                &&& final(self).pos == sc.2
            }),
            (t.line as nat, t.col as nat) == line_col(old(self).source@, old(self).pos as nat),
    {
        let ghost s = self.source@;
        let ghost p = self.pos as nat;
        let start_line = self.line;
        let start_col = self.col;
        let start_pos = self.pos;
        let mut is_float = false;
        self.skip_digits();
        let ghost d = self.pos as nat;
        let n1 = self.peek_next();
        if self.peek() == Some('.') && (match n1 {
            Some(c) => char_is_digit(c),
            None => false,
        }) {
            is_float = true;
            self.advance();
            self.skip_digits();
        }
        let ghost f = self.pos as nat;
        assert(f == frac_end(s, d));
        let c = self.peek();
        if c == Some('e') || c == Some('E') {
            is_float = true;
            self.advance();
            let c2 = self.peek();
            if c2 == Some('+') || c2 == Some('-') {
                self.advance();
            }
            self.skip_digits();
        }
        assert(self.pos == exp_end(s, f));
        let lexeme = self.lexeme_from(start_pos);
        let kind = if is_float {
            TokKind::FloatLit
        } else {
            TokKind::IntLit
        };
        Token { kind, lexeme, line: start_line, col: start_col }
    }

    /// Reads a string literal.
    fn lex_string(&mut self) -> (t: Token)
        requires
            old(self).wf(),
            old(self).pos < old(self).source@.len(),
            old(self).source@[old(self).pos as int] == '"',
        ensures
            final(self).wf(),
            final(self).source@ == old(self).source@,
            ({
                let b = string_body(old(self).source@, (old(self).pos + 1) as nat);
                &&& t.kind == TokKind::StringLit
                &&& t.lexeme@ == b.0
                &&& final(self).pos == b.1
            }),
            (t.line as nat, t.col as nat) == line_col(old(self).source@, old(self).pos as nat),
    {
        let ghost s = self.source@;
        let start_line = self.line;
        let start_col = self.col;
        self.advance();
        let ghost q0 = self.pos as nat;
        let mut buf = String::new();
        loop
            invariant_except_break
                self.wf(),
                self.source@ == s,
                q0 <= self.pos,
                string_body(s, q0).0 == buf@ + string_body(s, self.pos as nat).0,
                string_body(s, q0).1 == string_body(s, self.pos as nat).1,
            ensures
                self.wf(),
                self.source@ == s,
                string_body(s, q0).0 == buf@,
                string_body(s, q0).1 == self.pos,
            decreases s.len() - self.pos,
        {
            match self.peek() {
                None => {
                    break;
                },
                Some(c) => {
                    if c == '"' {
                        self.advance();
                        break;
                    } else if c == '\\' {
                        let ghost q = self.pos as nat;
                        self.advance();
                        if let Some(e) = self.advance() {
                            let u = if e == 'n' {
                                '\n'
                            } else if e == 't' {
                                '\t'
                            } else if e == 'r' {
                                '\r'
                            } else {
                                e
                            };
                            push_char(&mut buf, u);
                            proof {
                                let r = string_body(s, q + 2);
                                assert(string_body(s, q).0 == seq![u] + r.0);
                            }
                        }
                    } else {
                        push_char(&mut buf, c);
                        self.advance();
                        proof {
                            let q = (self.pos - 1) as nat;
                            let r = string_body(s, q + 1);
                            assert(string_body(s, q).0 == seq![c] + r.0);
                        }
                    }
                },
            }
        }
        Token { kind: TokKind::StringLit, lexeme: buf, line: start_line, col: start_col }
    }

    /// Reads a character literal.
    fn lex_char(&mut self) -> (t: Token)
        requires
            old(self).wf(),
            old(self).pos < old(self).source@.len(),
            old(self).source@[old(self).pos as int] == '\'',
        ensures
            final(self).wf(),
            final(self).source@ == old(self).source@,
            ({
                let r = scan_char(old(self).source@, old(self).pos as nat);
                &&& t.kind == TokKind::CharLit
                &&& t.lexeme@ == r.0
                &&& final(self).pos == r.1
            }),
            (t.line as nat, t.col as nat) == line_col(old(self).source@, old(self).pos as nat),
    {
        let start_line = self.line;
        let start_col = self.col;
        self.advance();
        let ch = match self.advance() {
            Some(c) => c,
            None => '\0',
        };
        if self.peek() == Some('\'') {
            self.advance();
        }
        let mut s = String::new();
        push_char(&mut s, ch);
        Token { kind: TokKind::CharLit, lexeme: s, line: start_line, col: start_col }
    }

    /// Reads an identifier or keyword.
    fn lex_ident_or_keyword(&mut self) -> (t: Token)
        requires
            old(self).wf(),
            old(self).pos < old(self).source@.len(),
            ident_start(old(self).source@[old(self).pos as int]),
        ensures
            final(self).wf(),
            final(self).source@ == old(self).source@,
            ({
                let sc = scan(old(self).source@, old(self).pos as nat);
                &&& t.kind == sc.0
                &&& t.lexeme@ == sc.1
                &&& final(self).pos == sc.2
            }),
            (t.line as nat, t.col as nat) == line_col(old(self).source@, old(self).pos as nat),
    {
        let ghost s = self.source@;
        let start_line = self.line;
        let start_col = self.col;
        let start_pos = self.pos;
        self.advance();
        while self.pos < self.source.len() && is_ident_byte(self.source[self.pos])
            invariant
                self.wf(),
                self.source@ == s,
                start_pos < self.pos,
                ident_end(s, self.pos as nat) == ident_end(s, (start_pos + 1) as nat),
            decreases s.len() - self.pos,
        {
            self.advance();
        }
        let word = slice_chars(self.source.as_slice(), start_pos, self.pos);
        let lexeme = string_of(word.as_slice());
        if let Some(canon) = keyword_normalize(word.as_slice()) {
            if let Some(kind) = keyword_kind(canon) {
                return Token { kind, lexeme, line: start_line, col: start_col };
            }
        }
        Token { kind: TokKind::Ident, lexeme, line: start_line, col: start_col }
    }

    /// Reads an operator, delimiter or unknown character.
    fn lex_op(&mut self) -> (t: Token)
        requires
            old(self).wf(),
            old(self).pos < old(self).source@.len(),
        ensures
            final(self).wf(),
            final(self).source@ == old(self).source@,
            ({
                let sc = scan_op(old(self).source@, old(self).pos as nat);
                &&& t.kind == sc.0
                &&& t.lexeme@ == sc.1
                &&& final(self).pos == sc.2
            }),
            (t.line as nat, t.col as nat) == line_col(old(self).source@, old(self).pos as nat),
    {
        let ghost s = self.source@;
        let ghost p = self.pos as int;
        let line = self.line;
        let col = self.col;
        let start = self.pos;
        let c = match self.advance() {
            Some(c) => c,
            None => ' ',
        };
        let next_c = self.peek();
        if let Some(n) = next_c {
            let two = if c == '-' && n == '>' {
                Some(TokKind::Arrow)
            } else if c == '=' && n == '>' {
                Some(TokKind::FatArrow)
            } else if c == '=' && n == '=' {
                Some(TokKind::EqEq)
            } else if c == '!' && n == '=' {
                Some(TokKind::NotEq)
            } else if c == '<' && n == '=' {
                Some(TokKind::Le)
            } else if c == '>' && n == '=' {
                Some(TokKind::Ge)
            } else if c == '&' && n == '&' {
                Some(TokKind::AndAnd)
            } else if c == '|' && n == '|' {
                Some(TokKind::OrOr)
            } else if c == ':' && n == ':' {
                Some(TokKind::ColonColon)
            } else if c == '?' && n == '.' {
                Some(TokKind::QuestionDot)
            } else if c == '?' && n == '?' {
                Some(TokKind::QuestionQuestion)
            } else {
                None
            };
            if let Some(k) = two {
                self.advance();
                let lexeme = self.lexeme_from(start);
                return Token { kind: k, lexeme, line, col };
            }
            if c == '.' && n == '.' {
                self.advance();
                if self.peek() == Some('=') {
                    self.advance();
                    let lexeme = self.lexeme_from(start);
                    return Token { kind: TokKind::DotDotEq, lexeme, line, col };
                }
                let lexeme = self.lexeme_from(start);
                return Token { kind: TokKind::DotDot, lexeme, line, col };
            }
        }
        let kind = if c == '(' {
            TokKind::LParen
        } else if c == ')' {
            TokKind::RParen
        } else if c == '{' {
            TokKind::LBrace
        } else if c == '}' {
            TokKind::RBrace
        } else if c == '[' {
            TokKind::LBracket
        } else if c == ']' {
            TokKind::RBracket
        } else if c == ',' {
            TokKind::Comma
        } else if c == ';' {
            TokKind::Semi
        } else if c == ':' {
            TokKind::Colon
        } else if c == '.' {
            TokKind::Dot
        } else if c == '+' {
            TokKind::Plus
        } else if c == '-' {
            TokKind::Minus
        } else if c == '*' {
            TokKind::Star
        } else if c == '/' {
            TokKind::Slash
        } else if c == '%' {
            TokKind::Percent
        } else if c == '=' {
            TokKind::Eq
        } else if c == '<' {
            TokKind::Lt
        } else if c == '>' {
            TokKind::Gt
        } else if c == '!' {
            TokKind::Bang
        } else if c == '?' {
            TokKind::Question
        } else {
            TokKind::Error
        };
        let mut lexeme = String::new();
        push_char(&mut lexeme, c);
        Token { kind, lexeme, line, col }
    }

    /// The next token.
    pub fn next_token(&mut self) -> (t: Token)
        requires
            old(self).wf(),
        ensures
            final(self).wf(),
            final(self).src() == old(self).src(),
            ({
                let nt = next_tok(old(self).src(), old(self).position());
                &&& t.kind == nt.0
                &&& t.lexeme@ == nt.1
                &&& (t.line as nat, t.col as nat) == line_col(old(self).src(), nt.2)
                &&& final(self).position() == nt.3
            }),
    {
        let ghost s = self.source@;
        self.skip_whitespace_and_comments();
        proof {
            lemma_ws_end(s, old(self).pos as nat);
        }
        let line = self.line;
        let col = self.col;
        let c = match self.peek() {
            None => {
                return Token::eof(line, col);
            },
            Some(c) => c,
        };
        if char_is_digit(c) {
            return self.lex_number();
        }
        if is_ident_start(c) {
            return self.lex_ident_or_keyword();
        }
        if c == '"' {
            return self.lex_string();
        }
        if c == '\'' {
            return self.lex_char();
        }
        self.lex_op()
    }

    /// All tokens up to and including `Eof`.
    pub fn tokenize(&mut self) -> (r: Vec<Token>)
        requires
            old(self).wf(),
        ensures
            final(self).wf(),
            final(self).src() == old(self).src(),
            ({
                let ts = tokens_from(old(self).src(), old(self).position());
                &&& r@.len() == ts.len()
                &&& forall|i: int|
                    0 <= i < ts.len() ==> {
                        &&& (#[trigger] r@[i]).kind == ts[i].0
                        &&& r@[i].lexeme@ == ts[i].1
                        &&& (r@[i].line as nat, r@[i].col as nat) == line_col(
                            old(self).src(),
                            ts[i].2,
                        )
                    }
                &&& final(self).position() == ts.last().2
                &&& next_tok(final(self).src(), final(self).position()).0 == TokKind::Eof
            }),
    {
        let ghost s = self.source@;
        let ghost p0 = self.pos as nat;
        let mut tokens: Vec<Token> = Vec::new();
        loop
            invariant_except_break
                self.wf(),
                self.source@ == s,
                s == old(self).source@,
                p0 == old(self).pos,
                ({
                    let rest = tokens_from(s, self.pos as nat);
                    let all = tokens_from(s, p0);
                    &&& all.len() == tokens@.len() + rest.len()
                    &&& forall|i: int|
                        0 <= i < tokens@.len() ==> {
                            &&& (#[trigger] tokens@[i]).kind == all[i].0
                            &&& tokens@[i].lexeme@ == all[i].1
                            &&& (tokens@[i].line as nat, tokens@[i].col as nat) == line_col(
                                s,
                                all[i].2,
                            )
                        }
                    &&& forall|i: int|
                        0 <= i < rest.len() ==> all[tokens@.len() + i] == #[trigger] rest[i]
                }),
            ensures
                self.wf(),
                self.source@ == s,
                ({
                    let all = tokens_from(s, p0);
                    &&& self.pos == all.last().2
                    &&& next_tok(s, self.pos as nat).0 == TokKind::Eof
                    &&& all.len() == tokens@.len()
                    &&& forall|i: int|
                        0 <= i < tokens@.len() ==> {
                            &&& (#[trigger] tokens@[i]).kind == all[i].0
                            &&& tokens@[i].lexeme@ == all[i].1
                            &&& (tokens@[i].line as nat, tokens@[i].col as nat) == line_col(
                                s,
                                all[i].2,
                            )
                        }
                }),
            decreases s.len() - self.pos,
        {
            let ghost before = self.pos as nat;
            let ghost rest0 = tokens_from(s, before);
            let ghost all = tokens_from(s, p0);
            let t = self.next_token();
            let is_eof = t.kind == TokKind::Eof;
            let ghost nt = next_tok(s, before);
            proof {
                if !is_eof {
                    lemma_next_tok_progress(s, before);
                    assert(rest0 == seq![(nt.0, nt.1, nt.2)] + tokens_from(s, nt.3));
                } else {
                    assert(rest0 == seq![(nt.0, nt.1, nt.2)]);
                }
                assert(rest0[0] == (nt.0, nt.1, nt.2));
                assert(all[tokens@.len() + 0int] == rest0[0]);
            }
            let ghost old_len = tokens@.len();
            tokens.push(t);
            proof {
                assert(tokens@[old_len as int] == t);
                if !is_eof {
                    let rest1 = tokens_from(s, self.pos as nat);
                    assert forall|i: int| 0 <= i < rest1.len() implies all[tokens@.len() + i]
                        == #[trigger] rest1[i] by {
                        assert(rest0[i + 1] == rest1[i]);
                        assert(all[old_len + (i + 1)] == rest0[i + 1]);
                    }
                }
            }
            if is_eof {
                proof {
                    self.lemma_position();
                    lemma_stream(s, before);
                    lemma_ws_end(s, before);
                    if ws_end(s, before) < s.len() {
                        lemma_scan_kind(s, ws_end(s, before));
                    }
                    assert(tokens_from(s, nt.3)[0].0 == next_tok(s, nt.3).0);
                    assert(all[tokens@.len() - 1] == rest0[0]);
                }
                break;
            }
        }
        tokens
    }
}

} // verus!
