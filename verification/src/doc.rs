//! Documentation extraction: `///` comment blocks are attached to the
//! top-level declaration that follows them and rendered as Markdown.
//!
//! The scan is textual: it neither lexes nor parses the source. Brace depth
//! is tracked line by line so that declarations inside bodies are skipped.
use vstd::prelude::*;
use crate::lexer::{canonical, spells};
use crate::text::{
    char_is_ws, chars_of, is_ws, join, join_chars, lemma_trim_start_idem, lines, push_str,
    slice_chars, split_lines, starts_with, starts_with_chars, string_of, trim, trim_chars,
    trim_start, trim_start_chars, views,
};

verus! {

// ---------------------------------------------------------------------
// Data model
// ---------------------------------------------------------------------

/// The kind of a documented top-level declaration.
#[derive(Debug, Clone, Copy, PartialEq, Eq, Structural)]
pub enum DeclKind {
    Function,
    Struct,
    Enum,
    Let,
    Var,
    Const,
}

/// A documented declaration: its kind, name and doc text.
#[derive(Debug, Clone, PartialEq)]
pub struct Decl {
    pub kind: DeclKind,
    pub name: String,
    pub doc: String,
}

impl View for Decl {
    type V = (DeclKind, Seq<char>, Seq<char>);

    open spec fn view(&self) -> (DeclKind, Seq<char>, Seq<char>) {
        (self.kind, self.name@, self.doc@)
    }
}

/// The documentation of one source file.
#[derive(Debug, Clone, PartialEq)]
pub struct DocFile {
    pub project_name: String,
    pub decls: Vec<Decl>,
}

pub open spec fn decl_views(ds: Seq<Decl>) -> Seq<(DeclKind, Seq<char>, Seq<char>)> {
    ds.map_values(|d: Decl| d@)
}

pub open spec fn str_views(ls: Seq<&str>) -> Seq<Seq<char>> {
    ls.map_values(|l: &str| l@)
}

pub open spec fn string_views(ls: Seq<String>) -> Seq<Seq<char>> {
    ls.map_values(|l: String| l@)
}

// ---------------------------------------------------------------------
// Doc comment lines
// ---------------------------------------------------------------------

/// A line whose first non-blank characters are `///`.
pub open spec fn is_doc(line: Seq<char>) -> bool {
    starts_with(trim_start(line), "///"@)
}

/// The text of a doc line: what follows `///`, less one optional space.
pub open spec fn doc_content(line: Seq<char>) -> Seq<char> {
    let t = trim_start(line);
    let after = if starts_with(t, "///"@) {
        t.skip("///"@.len() as int)
    } else {
        seq![]
    };
    if after.len() > 0 && after[0] == ' ' {
        after.drop_first()
    } else {
        after
    }
}

/// End (exclusive) of the run of doc lines that starts at `i`.
pub open spec fn doc_end(ls: Seq<Seq<char>>, i: nat) -> nat
    decreases ls.len() - i,
{
    if i < ls.len() && is_doc(ls[i as int]) {
        doc_end(ls, i + 1)
    } else {
        i
    }
}

/// The texts of the doc lines `i..e`.
pub open spec fn doc_contents(ls: Seq<Seq<char>>, i: nat, e: nat) -> Seq<Seq<char>> {
    ls.subrange(i as int, e as int).map_values(|l: Seq<char>| doc_content(l))
}

/// The doc block starting at line `start`: its line texts and the index after it.
pub open spec fn doc_block(ls: Seq<Seq<char>>, start: nat) -> Option<(Seq<Seq<char>>, nat)> {
    if start >= ls.len() || !is_doc(ls[start as int]) {
        None
    } else {
        Some((doc_contents(ls, start, doc_end(ls, start)), doc_end(ls, start)))
    }
}

pub proof fn lemma_doc_end(ls: Seq<Seq<char>>, i: nat)
    ensures
        i <= ls.len() ==> i <= doc_end(ls, i) <= ls.len(),
        i < ls.len() && is_doc(ls[i as int]) ==> i < doc_end(ls, i),
        forall|k: int| i <= k < doc_end(ls, i) ==> is_doc(#[trigger] ls[k]),
    decreases ls.len() - i,
{
    if i < ls.len() && is_doc(ls[i as int]) {
        lemma_doc_end(ls, i + 1);
    }
}

// ---------------------------------------------------------------------
// Declarations
// ---------------------------------------------------------------------

/// Characters that end the first token of a line.
pub open spec fn is_token_stop(c: char) -> bool {
    is_ws(c) || c == '(' || c == ':' || c == '=' || c == '<' || c == '{'
}

/// Length of the run of non-stop characters at the start of `t`.
pub open spec fn token_len(t: Seq<char>) -> nat
    decreases t.len(),
{
    if t.len() == 0 || is_token_stop(t[0]) {
        0
    } else {
        1 + token_len(t.drop_first())
    }
}

/// The first token of a line (after leading blanks), if it is not empty.
pub open spec fn first_token_of(line: Seq<char>) -> Option<Seq<char>> {
    let t = trim_start(line);
    if t.len() == 0 || token_len(t) == 0 {
        None
    } else {
        Some(t.take(token_len(t) as int))
    }
}

/// `char::is_alphabetic` (the Unicode `Alphabetic` property).
pub uninterp spec fn alphabetic(c: char) -> bool;

/// `char::is_alphanumeric` (`Alphabetic` or `Numeric`).
pub uninterp spec fn alphanumeric(c: char) -> bool;

pub open spec fn ident_tail_len(s: Seq<char>) -> nat
    decreases s.len(),
{
    if s.len() == 0 || !(alphanumeric(s[0]) || s[0] == '_') {
        0
    } else {
        1 + ident_tail_len(s.drop_first())
    }
}

/// The identifier at the start of `s` (after leading blanks): a letter or `_`,
/// then letters, digits and `_`.
pub open spec fn first_ident_of(s: Seq<char>) -> Option<Seq<char>> {
    let t = trim_start(s);
    if t.len() == 0 || !(alphabetic(t[0]) || t[0] == '_') {
        None
    } else {
        Some(t.take(1 + ident_tail_len(t.drop_first()) as int))
    }
}

/// The declaration kind that a keyword (in any of its forms) introduces.
pub open spec fn decl_kind_of(kw: Seq<char>) -> Option<DeclKind> {
    if kw == "func"@ || kw == "fn"@ || kw == "hanshu"@ || kw == "hs"@ {
        Some(DeclKind::Function)
    } else if kw == "struct"@ || kw == "jiegou"@ || kw == "jg"@ {
        Some(DeclKind::Struct)
    } else if kw == "enum"@ || kw == "meiju"@ || kw == "mj"@ {
        Some(DeclKind::Enum)
    } else if kw == "let"@ || kw == "buke"@ || kw == "bk"@ {
        Some(DeclKind::Let)
    } else if kw == "var"@ || kw == "bianliang"@ || kw == "bl"@ {
        Some(DeclKind::Var)
    } else if kw == "const"@ || kw == "con"@ || kw == "changliang"@ || kw == "cl"@ {
        Some(DeclKind::Const)
    } else {
        None
    }
}

/// Each spelling of a keyword declares the same kind of thing: where the lexer's
/// keyword table takes a word to a canonical keyword, the word gives the same
/// declaration kind as that keyword (`hanshu main` is a function as `func main`
/// is), and every declaration keyword is a word of that table.
pub proof fn lemma_decl_kind_forms(w: Seq<char>)
    ensures
        canonical(w) matches Some(c) ==> decl_kind_of(w) == decl_kind_of(c),
        decl_kind_of(w) is Some ==> canonical(w) is Some,
{
    reveal_strlit("as");
    reveal_strlit("baozhuang");
    reveal_strlit("bianliang");
    reveal_strlit("bk");
    reveal_strlit("bl");
    reveal_strlit("break");
    reveal_strlit("brk");
    reveal_strlit("buke");
    reveal_strlit("bz");
    reveal_strlit("chan");
    reveal_strlit("changliang");
    reveal_strlit("cl");
    reveal_strlit("cnt");
    reveal_strlit("con");
    reveal_strlit("cong");
    reveal_strlit("const");
    reveal_strlit("continue");
    reveal_strlit("dang");
    reveal_strlit("dao");
    reveal_strlit("daoru");
    reveal_strlit("def");
    reveal_strlit("defer");
    reveal_strlit("dg");
    reveal_strlit("dr");
    reveal_strlit("els");
    reveal_strlit("else");
    reveal_strlit("enum");
    reveal_strlit("false");
    reveal_strlit("fanhui");
    reveal_strlit("fh");
    reveal_strlit("fls");
    reveal_strlit("fn");
    reveal_strlit("for");
    reveal_strlit("fouze");
    reveal_strlit("from");
    reveal_strlit("func");
    reveal_strlit("fz");
    reveal_strlit("go");
    reveal_strlit("hanshu");
    reveal_strlit("hk");
    reveal_strlit("hs");
    reveal_strlit("huangkong");
    reveal_strlit("if");
    reveal_strlit("imp");
    reveal_strlit("import");
    reveal_strlit("in");
    reveal_strlit("jg");
    reveal_strlit("ji");
    reveal_strlit("jia");
    reveal_strlit("jiegou");
    reveal_strlit("jixu");
    reveal_strlit("jx");
    reveal_strlit("kb");
    reveal_strlit("kebian");
    reveal_strlit("leixing");
    reveal_strlit("let");
    reveal_strlit("lx");
    reveal_strlit("match");
    reveal_strlit("meiju");
    reveal_strlit("mj");
    reveal_strlit("mut");
    reveal_strlit("package");
    reveal_strlit("panic");
    reveal_strlit("pipei");
    reveal_strlit("pkg");
    reveal_strlit("pp");
    reveal_strlit("ret");
    reveal_strlit("return");
    reveal_strlit("rg");
    reveal_strlit("ruguo");
    reveal_strlit("struct");
    reveal_strlit("tc");
    reveal_strlit("td");
    reveal_strlit("tiaochu");
    reveal_strlit("to");
    reveal_strlit("tongdao");
    reveal_strlit("true");
    reveal_strlit("typ");
    reveal_strlit("type");
    reveal_strlit("unsafe");
    reveal_strlit("var");
    reveal_strlit("weixian");
    reveal_strlit("while");
    reveal_strlit("whl");
    reveal_strlit("wx");
    reveal_strlit("xc");
    reveal_strlit("xh");
    reveal_strlit("xiecheng");
    reveal_strlit("xunhuan");
    reveal_strlit("yanchi");
    reveal_strlit("yc");
    reveal_strlit("zai");
    reveal_strlit("zh");
    reveal_strlit("zhen");
    reveal_strlit("zuowei");
    reveal_strlit("zw");
    assert("as"@.len() == 2 && "as"@[0] == 'a' && "as"@[1] == 's');
    assert("baozhuang"@.len() == 9 && "baozhuang"@[0] == 'b' && "baozhuang"@[1] == 'a');
    assert("bianliang"@.len() == 9 && "bianliang"@[0] == 'b' && "bianliang"@[1] == 'i');
    assert("bk"@.len() == 2 && "bk"@[0] == 'b' && "bk"@[1] == 'k');
    assert("bl"@.len() == 2 && "bl"@[0] == 'b' && "bl"@[1] == 'l');
    assert("break"@.len() == 5 && "break"@[0] == 'b' && "break"@[1] == 'r');
    assert("brk"@.len() == 3 && "brk"@[0] == 'b' && "brk"@[1] == 'r');
    assert("buke"@.len() == 4 && "buke"@[0] == 'b' && "buke"@[1] == 'u');
    assert("bz"@.len() == 2 && "bz"@[0] == 'b' && "bz"@[1] == 'z');
    assert("chan"@.len() == 4 && "chan"@[0] == 'c' && "chan"@[1] == 'h');
    assert("changliang"@.len() == 10 && "changliang"@[0] == 'c' && "changliang"@[1] == 'h');
    assert("cl"@.len() == 2 && "cl"@[0] == 'c' && "cl"@[1] == 'l');
    assert("cnt"@.len() == 3 && "cnt"@[0] == 'c' && "cnt"@[1] == 'n');
    assert("con"@.len() == 3 && "con"@[0] == 'c' && "con"@[1] == 'o');
    assert("cong"@.len() == 4 && "cong"@[0] == 'c' && "cong"@[1] == 'o');
    assert("const"@.len() == 5 && "const"@[0] == 'c' && "const"@[1] == 'o');
    assert("continue"@.len() == 8 && "continue"@[0] == 'c' && "continue"@[1] == 'o');
    assert("dang"@.len() == 4 && "dang"@[0] == 'd' && "dang"@[1] == 'a');
    assert("dao"@.len() == 3 && "dao"@[0] == 'd' && "dao"@[1] == 'a');
    assert("daoru"@.len() == 5 && "daoru"@[0] == 'd' && "daoru"@[1] == 'a');
    assert("def"@.len() == 3 && "def"@[0] == 'd' && "def"@[1] == 'e');
    assert("defer"@.len() == 5 && "defer"@[0] == 'd' && "defer"@[1] == 'e');
    assert("dg"@.len() == 2 && "dg"@[0] == 'd' && "dg"@[1] == 'g');
    assert("dr"@.len() == 2 && "dr"@[0] == 'd' && "dr"@[1] == 'r');
    assert("els"@.len() == 3 && "els"@[0] == 'e' && "els"@[1] == 'l');
    assert("else"@.len() == 4 && "else"@[0] == 'e' && "else"@[1] == 'l');
    assert("enum"@.len() == 4 && "enum"@[0] == 'e' && "enum"@[1] == 'n');
    assert("false"@.len() == 5 && "false"@[0] == 'f' && "false"@[1] == 'a');
    assert("fanhui"@.len() == 6 && "fanhui"@[0] == 'f' && "fanhui"@[1] == 'a');
    assert("fh"@.len() == 2 && "fh"@[0] == 'f' && "fh"@[1] == 'h');
    assert("fls"@.len() == 3 && "fls"@[0] == 'f' && "fls"@[1] == 'l');
    assert("fn"@.len() == 2 && "fn"@[0] == 'f' && "fn"@[1] == 'n');
    assert("for"@.len() == 3 && "for"@[0] == 'f' && "for"@[1] == 'o');
    assert("fouze"@.len() == 5 && "fouze"@[0] == 'f' && "fouze"@[1] == 'o');
    assert("from"@.len() == 4 && "from"@[0] == 'f' && "from"@[1] == 'r');
    assert("func"@.len() == 4 && "func"@[0] == 'f' && "func"@[1] == 'u');
    assert("fz"@.len() == 2 && "fz"@[0] == 'f' && "fz"@[1] == 'z');
    assert("go"@.len() == 2 && "go"@[0] == 'g' && "go"@[1] == 'o');
    assert("hanshu"@.len() == 6 && "hanshu"@[0] == 'h' && "hanshu"@[1] == 'a');
    assert("hk"@.len() == 2 && "hk"@[0] == 'h' && "hk"@[1] == 'k');
    assert("hs"@.len() == 2 && "hs"@[0] == 'h' && "hs"@[1] == 's');
    assert("huangkong"@.len() == 9 && "huangkong"@[0] == 'h' && "huangkong"@[1] == 'u');
    assert("if"@.len() == 2 && "if"@[0] == 'i' && "if"@[1] == 'f');
    assert("imp"@.len() == 3 && "imp"@[0] == 'i' && "imp"@[1] == 'm');
    assert("import"@.len() == 6 && "import"@[0] == 'i' && "import"@[1] == 'm');
    assert("in"@.len() == 2 && "in"@[0] == 'i' && "in"@[1] == 'n');
    assert("jg"@.len() == 2 && "jg"@[0] == 'j' && "jg"@[1] == 'g');
    assert("ji"@.len() == 2 && "ji"@[0] == 'j' && "ji"@[1] == 'i');
    assert("jia"@.len() == 3 && "jia"@[0] == 'j' && "jia"@[1] == 'i');
    assert("jiegou"@.len() == 6 && "jiegou"@[0] == 'j' && "jiegou"@[1] == 'i');
    assert("jixu"@.len() == 4 && "jixu"@[0] == 'j' && "jixu"@[1] == 'i');
    assert("jx"@.len() == 2 && "jx"@[0] == 'j' && "jx"@[1] == 'x');
    assert("kb"@.len() == 2 && "kb"@[0] == 'k' && "kb"@[1] == 'b');
    assert("kebian"@.len() == 6 && "kebian"@[0] == 'k' && "kebian"@[1] == 'e');
    assert("leixing"@.len() == 7 && "leixing"@[0] == 'l' && "leixing"@[1] == 'e');
    assert("let"@.len() == 3 && "let"@[0] == 'l' && "let"@[1] == 'e');
    assert("lx"@.len() == 2 && "lx"@[0] == 'l' && "lx"@[1] == 'x');
    assert("match"@.len() == 5 && "match"@[0] == 'm' && "match"@[1] == 'a');
    assert("meiju"@.len() == 5 && "meiju"@[0] == 'm' && "meiju"@[1] == 'e');
    assert("mj"@.len() == 2 && "mj"@[0] == 'm' && "mj"@[1] == 'j');
    assert("mut"@.len() == 3 && "mut"@[0] == 'm' && "mut"@[1] == 'u');
    assert("package"@.len() == 7 && "package"@[0] == 'p' && "package"@[1] == 'a');
    assert("panic"@.len() == 5 && "panic"@[0] == 'p' && "panic"@[1] == 'a');
    assert("pipei"@.len() == 5 && "pipei"@[0] == 'p' && "pipei"@[1] == 'i');
    assert("pkg"@.len() == 3 && "pkg"@[0] == 'p' && "pkg"@[1] == 'k');
    assert("pp"@.len() == 2 && "pp"@[0] == 'p' && "pp"@[1] == 'p');
    assert("ret"@.len() == 3 && "ret"@[0] == 'r' && "ret"@[1] == 'e');
    assert("return"@.len() == 6 && "return"@[0] == 'r' && "return"@[1] == 'e');
    assert("rg"@.len() == 2 && "rg"@[0] == 'r' && "rg"@[1] == 'g');
    assert("ruguo"@.len() == 5 && "ruguo"@[0] == 'r' && "ruguo"@[1] == 'u');
    assert("struct"@.len() == 6 && "struct"@[0] == 's' && "struct"@[1] == 't');
    assert("tc"@.len() == 2 && "tc"@[0] == 't' && "tc"@[1] == 'c');
    assert("td"@.len() == 2 && "td"@[0] == 't' && "td"@[1] == 'd');
    assert("tiaochu"@.len() == 7 && "tiaochu"@[0] == 't' && "tiaochu"@[1] == 'i');
    assert("to"@.len() == 2 && "to"@[0] == 't' && "to"@[1] == 'o');
    assert("tongdao"@.len() == 7 && "tongdao"@[0] == 't' && "tongdao"@[1] == 'o');
    assert("true"@.len() == 4 && "true"@[0] == 't' && "true"@[1] == 'r');
    assert("typ"@.len() == 3 && "typ"@[0] == 't' && "typ"@[1] == 'y');
    assert("type"@.len() == 4 && "type"@[0] == 't' && "type"@[1] == 'y');
    assert("unsafe"@.len() == 6 && "unsafe"@[0] == 'u' && "unsafe"@[1] == 'n');
    assert("var"@.len() == 3 && "var"@[0] == 'v' && "var"@[1] == 'a');
    assert("weixian"@.len() == 7 && "weixian"@[0] == 'w' && "weixian"@[1] == 'e');
    assert("while"@.len() == 5 && "while"@[0] == 'w' && "while"@[1] == 'h');
    assert("whl"@.len() == 3 && "whl"@[0] == 'w' && "whl"@[1] == 'h');
    assert("wx"@.len() == 2 && "wx"@[0] == 'w' && "wx"@[1] == 'x');
    assert("xc"@.len() == 2 && "xc"@[0] == 'x' && "xc"@[1] == 'c');
    assert("xh"@.len() == 2 && "xh"@[0] == 'x' && "xh"@[1] == 'h');
    assert("xiecheng"@.len() == 8 && "xiecheng"@[0] == 'x' && "xiecheng"@[1] == 'i');
    assert("xunhuan"@.len() == 7 && "xunhuan"@[0] == 'x' && "xunhuan"@[1] == 'u');
    assert("yanchi"@.len() == 6 && "yanchi"@[0] == 'y' && "yanchi"@[1] == 'a');
    assert("yc"@.len() == 2 && "yc"@[0] == 'y' && "yc"@[1] == 'c');
    assert("zai"@.len() == 3 && "zai"@[0] == 'z' && "zai"@[1] == 'a');
    assert("zh"@.len() == 2 && "zh"@[0] == 'z' && "zh"@[1] == 'h');
    assert("zhen"@.len() == 4 && "zhen"@[0] == 'z' && "zhen"@[1] == 'h');
    assert("zuowei"@.len() == 6 && "zuowei"@[0] == 'z' && "zuowei"@[1] == 'u');
    assert("zw"@.len() == 2 && "zw"@[0] == 'z' && "zw"@[1] == 'w');
}

/// `<keyword> <name>` at the start of a line (after leading blanks), as a
/// declaration kind and name: the name is the identifier after the keyword.
pub open spec fn decl_of(line: Seq<char>) -> Option<(DeclKind, Seq<char>)> {
    let t = trim_start(line);
    match first_token_of(t) {
        None => None,
        Some(kw) => match first_ident_of(trim_start(t.skip(kw.len() as int))) {
            None => None,
            Some(name) => match decl_kind_of(kw) {
                None => None,
                Some(k) => Some((k, name)),
            },
        },
    }
}

// ---------------------------------------------------------------------
// Lemmas
// ---------------------------------------------------------------------

pub proof fn lemma_token_len_at(t: Seq<char>, n: nat)
    requires
        n <= t.len(),
        forall|k: int| 0 <= k < n ==> !is_token_stop(#[trigger] t[k]),
        n < t.len() ==> is_token_stop(t[n as int]),
    ensures
        token_len(t) == n,
    decreases n,
{
    if n > 0 {
        assert(!is_token_stop(t[0]));
        assert forall|k: int| 0 <= k < n - 1 implies !is_token_stop(#[trigger] t.drop_first()[k]) by {
            assert(t.drop_first()[k] == t[k + 1]);
        }
        if n - 1 < t.drop_first().len() {
            assert(t.drop_first()[n - 1] == t[n as int]);
        }
        lemma_token_len_at(t.drop_first(), (n - 1) as nat);
    }
}

pub proof fn lemma_ident_tail_at(s: Seq<char>, n: nat)
    requires
        n <= s.len(),
        forall|k: int| 0 <= k < n ==> (alphanumeric(#[trigger] s[k]) || s[k] == '_'),
        n < s.len() ==> !(alphanumeric(s[n as int]) || s[n as int] == '_'),
    ensures
        ident_tail_len(s) == n,
    decreases n,
{
    if n > 0 {
        assert(alphanumeric(s[0]) || s[0] == '_');
        assert forall|k: int| 0 <= k < n - 1 implies (alphanumeric(#[trigger] s.drop_first()[k])
            || s.drop_first()[k] == '_') by {
            assert(s.drop_first()[k] == s[k + 1]);
        }
        if n - 1 < s.drop_first().len() {
            assert(s.drop_first()[n - 1] == s[n as int]);
        }
        lemma_ident_tail_at(s.drop_first(), (n - 1) as nat);
    }
}

/// Leading blanks do not change what a line declares.
pub proof fn lemma_decl_trim(line: Seq<char>)
    ensures
        decl_of(line) == decl_of(trim_start(line)),
{
    lemma_trim_start_idem(line);
}

pub proof fn lemma_token_len_bound(t: Seq<char>)
    ensures
        token_len(t) <= t.len(),
    decreases t.len(),
{
    if t.len() > 0 && !is_token_stop(t[0]) {
        lemma_token_len_bound(t.drop_first());
    }
}

// ---------------------------------------------------------------------
// Executable: doc lines
// ---------------------------------------------------------------------

/// Does the line, after leading blanks, begin with `///`?
pub fn is_doc_line(line: &str) -> (r: bool)
    ensures
        r == is_doc(line@),
{
    let cs = chars_of(line);
    is_doc_chars(cs.as_slice())
}

fn is_doc_chars(line: &[char]) -> (r: bool)
    ensures
        r == is_doc(line@),
{
    let t = trim_start_chars(line);
    let marker = chars_of("///");
    starts_with_chars(t.as_slice(), marker.as_slice())
}

/// The text of a doc line after `///` and one optional space.
fn doc_line_content(line: &[char]) -> (r: Vec<char>)
    ensures
        r@ == doc_content(line@),
{
    let t = trim_start_chars(line);
    let marker = chars_of("///");
    let after = if starts_with_chars(t.as_slice(), marker.as_slice()) {
        slice_chars(t.as_slice(), marker.len(), t.len())
    } else {
        Vec::new()
    };
    if after.len() > 0 && after[0] == ' ' {
        let r = slice_chars(after.as_slice(), 1, after.len());
        assert(r@ == after@.drop_first());
        r
    } else {
        after
    }
}

/// The doc block that starts at `start`, over lines held as character vectors.
fn doc_block_lines(ls: &Vec<Vec<char>>, start: usize) -> (r: Option<(Vec<Vec<char>>, usize)>)
    ensures
        r is None <==> doc_block(views(ls@), start as nat) is None,
        r matches Some((v, e)) ==> doc_block(views(ls@), start as nat) == Some((views(v@), e as nat)),
{
    let ghost vs = views(ls@);
    if start >= ls.len() || !is_doc_chars(ls[start].as_slice()) {
        return None;
    }
    let mut out: Vec<Vec<char>> = Vec::new();
    let mut i = start;
    proof {
        lemma_doc_end(vs, start as nat);
    }
    while i < ls.len() && is_doc_chars(ls[i].as_slice())
        invariant
            start <= i <= ls@.len(),
            vs == views(ls@),
            doc_end(vs, i as nat) == doc_end(vs, start as nat),
            views(out@) == doc_contents(vs, start as nat, i as nat),
        decreases ls@.len() - i,
    {
        let c = doc_line_content(ls[i].as_slice());
        let ghost before = views(out@);
        out.push(c);
        proof {
            assert(views(out@) =~= before.push(doc_content(vs[i as int])));
            assert(doc_contents(vs, start as nat, (i + 1) as nat) =~= doc_contents(
                vs,
                start as nat,
                i as nat,
            ).push(doc_content(vs[i as int])));
        }
        i = i + 1;
    }
    Some((out, i))
}

/// The run of consecutive doc lines starting at `start`: their texts, and the
/// index of the first line after the run. `None` when `start` is not a doc line.
pub fn extract_doc_block(lines: &[&str], start: usize) -> (r: Option<(Vec<String>, usize)>)
    ensures
        r is None <==> doc_block(str_views(lines@), start as nat) is None,
        r matches Some((v, e)) ==> doc_block(str_views(lines@), start as nat) == Some(
            (string_views(v@), e as nat),
        ),
{
    let mut ls: Vec<Vec<char>> = Vec::new();
    let mut k: usize = 0;
    while k < lines.len()
        invariant
            k <= lines@.len(),
            views(ls@) == str_views(lines@).take(k as int),
        decreases lines@.len() - k,
    {
        let cs = chars_of(lines[k]);
        let ghost before = views(ls@);
        ls.push(cs);
        assert(views(ls@) =~= before.push(lines@[k as int]@));
        assert(str_views(lines@).take(k + 1) =~= str_views(lines@).take(k as int).push(lines@[k as int]@));
        k = k + 1;
    }
    assert(str_views(lines@).take(lines@.len() as int) == str_views(lines@));
    match doc_block_lines(&ls, start) {
        None => None,
        Some((v, e)) => {
            let mut out: Vec<String> = Vec::new();
            let mut k: usize = 0;
            while k < v.len()
                invariant
                    k <= v@.len(),
                    string_views(out@) == views(v@).take(k as int),
                decreases v@.len() - k,
            {
                let s = string_of(v[k].as_slice());
                let ghost before = string_views(out@);
                out.push(s);
                assert(string_views(out@) =~= before.push(v@[k as int]@));
                assert(views(v@).take(k + 1) =~= views(v@).take(k as int).push(v@[k as int]@));
                k = k + 1;
            }
            assert(views(v@).take(v@.len() as int) == views(v@));
            Some((out, e))
        },
    }
}

// ---------------------------------------------------------------------
// Executable: declarations
// ---------------------------------------------------------------------

/// `char::is_alphabetic`: true for characters with the Unicode `Alphabetic` property.
#[verifier::external_body]
fn char_is_alphabetic(c: char) -> (r: bool)
    ensures
        r == alphabetic(c),
{
    c.is_alphabetic()
}

/// `char::is_alphanumeric`: true for characters that are `Alphabetic` or `Numeric`.
#[verifier::external_body]
fn char_is_alphanumeric(c: char) -> (r: bool)
    ensures
        r == alphanumeric(c),
{
    c.is_alphanumeric()
}

fn is_token_stop_char(c: char) -> (r: bool)
    ensures
        r == is_token_stop(c),
{
    char_is_ws(c) || c == '(' || c == ':' || c == '=' || c == '<' || c == '{'
}

/// The first token of a line, after leading blanks.
fn first_token(line: &[char]) -> (r: Option<Vec<char>>)
    ensures
        r matches Some(kw) ==> first_token_of(line@) == Some(kw@),
        r is None ==> first_token_of(line@) is None,
{
    let s = trim_start_chars(line);
    if s.len() == 0 {
        return None;
    }
    let mut end: usize = 0;
    while end < s.len() && !is_token_stop_char(s[end])
        invariant
            end <= s@.len(),
            forall|k: int| 0 <= k < end ==> !is_token_stop(#[trigger] s@[k]),
        decreases s@.len() - end,
    {
        end = end + 1;
    }
    proof {
        lemma_token_len_at(s@, end as nat);
    }
    if end == 0 {
        None
    } else {
        Some(slice_chars(s.as_slice(), 0, end))
    }
}

/// The identifier at the start of `s`, after leading blanks.
fn first_ident(s: &[char]) -> (r: Option<Vec<char>>)
    ensures
        r matches Some(n) ==> first_ident_of(s@) == Some(n@),
        r is None ==> first_ident_of(s@) is None,
{
    let t = trim_start_chars(s);
    if t.len() == 0 {
        return None;
    }
    let first = t[0];
    if !(char_is_alphabetic(first) || first == '_') {
        return None;
    }
    let mut end: usize = 1;
    while end < t.len() && (char_is_alphanumeric(t[end]) || t[end] == '_')
        invariant
            1 <= end <= t@.len(),
            forall|k: int| 1 <= k < end ==> (alphanumeric(#[trigger] t@[k]) || t@[k] == '_'),
        decreases t@.len() - end,
    {
        end = end + 1;
    }
    proof {
        let tail = t@.drop_first();
        assert forall|k: int| 0 <= k < end - 1 implies (alphanumeric(#[trigger] tail[k]) || tail[k]
            == '_') by {
            assert(tail[k] == t@[k + 1]);
        }
        if end < t@.len() {
            assert(tail[end - 1] == t@[end as int]);
        }
        lemma_ident_tail_at(tail, (end - 1) as nat);
    }
    Some(slice_chars(t.as_slice(), 0, end))
}

fn decl_kind(kw: &[char]) -> (r: Option<DeclKind>)
    ensures
        r == decl_kind_of(kw@),
{
    if spells(kw, "func") || spells(kw, "fn") || spells(kw, "hanshu") || spells(kw, "hs") {
        Some(DeclKind::Function)
    } else if spells(kw, "struct") || spells(kw, "jiegou") || spells(kw, "jg") {
        Some(DeclKind::Struct)
    } else if spells(kw, "enum") || spells(kw, "meiju") || spells(kw, "mj") {
        Some(DeclKind::Enum)
    } else if spells(kw, "let") || spells(kw, "buke") || spells(kw, "bk") {
        Some(DeclKind::Let)
    } else if spells(kw, "var") || spells(kw, "bianliang") || spells(kw, "bl") {
        Some(DeclKind::Var)
    } else if spells(kw, "const") || spells(kw, "con") || spells(kw, "changliang") || spells(
        kw,
        "cl",
    ) {
        Some(DeclKind::Const)
    } else {
        None
    }
}

fn decl_of_chars(line: &[char]) -> (r: Option<(DeclKind, Vec<char>)>)
    ensures
        r matches Some((k, n)) ==> decl_of(line@) == Some((k, n@)),
        r is None ==> decl_of(line@) is None,
{
    let t = trim_start_chars(line);
    proof {
        lemma_trim_start_idem(line@);
        lemma_token_len_bound(t@);
    }
    let kw = match first_token(t.as_slice()) {
        Some(kw) => kw,
        None => {
            return None;
        },
    };
    let tail = slice_chars(t.as_slice(), kw.len(), t.len());
    assert(tail@ == t@.skip(kw@.len() as int));
    let rest = trim_start_chars(tail.as_slice());
    let name = match first_ident(rest.as_slice()) {
        Some(n) => n,
        None => {
            return None;
        },
    };
    match decl_kind(kw.as_slice()) {
        Some(k) => Some((k, name)),
        None => None,
    }
}

/// A line of the form `<keyword> <name>` (leading blanks allowed): the
/// declaration kind that the keyword (in any of its forms) introduces, and the name.
pub fn parse_decl(line: &str) -> (r: Option<(DeclKind, String)>)
    ensures
        r matches Some((k, n)) ==> decl_of(line@) == Some((k, n@)),
        r is None ==> decl_of(line@) is None,
{
    let cs = chars_of(line);
    match decl_of_chars(cs.as_slice()) {
        Some((k, n)) => Some((k, string_of(n.as_slice()))),
        None => None,
    }
}

// ---------------------------------------------------------------------
// Whole files
// ---------------------------------------------------------------------

/// Number of occurrences of `c` in `s`.
pub open spec fn count_char(s: Seq<char>, c: char) -> nat
    decreases s.len(),
{
    if s.len() == 0 {
        0
    } else {
        count_char(s.drop_last(), c) + if s.last() == c {
            1nat
        } else {
            0nat
        }
    }
}

/// Counting splits over concatenation.
pub broadcast proof fn lemma_count_concat(a: Seq<char>, b: Seq<char>, c: char)
    ensures
        #[trigger] count_char(a + b, c) == count_char(a, c) + count_char(b, c),
    decreases b.len(),
{
    if b.len() == 0 {
        assert(a + b =~= a);
    } else {
        lemma_count_concat(a, b.drop_last(), c);
        assert((a + b).drop_last() =~= a + b.drop_last());
        assert((a + b).last() == b.last());
    }
}

/// Number of occurrences of `c` over all lines.
pub open spec fn count_in_lines(ls: Seq<Seq<char>>, c: char) -> nat
    decreases ls.len(),
{
    if ls.len() == 0 {
        0
    } else {
        count_in_lines(ls.drop_last(), c) + count_char(ls.last(), c)
    }
}

/// The brace depth after a line: opening braces add, closing ones subtract,
/// and the depth never goes below zero.
pub open spec fn depth_after(depth: int, line: Seq<char>) -> int {
    let d = depth + count_char(line, '{') - count_char(line, '}');
    if d < 0 {
        0
    } else {
        d
    }
}

/// The first line at or after `j` that is not blank.
pub open spec fn skip_blank(ls: Seq<Seq<char>>, j: nat) -> nat
    decreases ls.len() - j,
{
    if j < ls.len() && trim(ls[j as int]).len() == 0 {
        skip_blank(ls, j + 1)
    } else {
        j
    }
}

/// The doc text of the block `i..e`: its lines joined by newlines, trimmed.
pub open spec fn doc_text(ls: Seq<Seq<char>>, i: nat, e: nat) -> Seq<char> {
    trim(join(doc_contents(ls, i, e), "\n"@))
}

/// The documented top-level declarations found from line `i` on, at brace depth `depth`.
///
/// A doc block is attached to the first non-blank line after it when that line
/// is a declaration; it is recorded only at depth zero. A doc block followed by
/// anything else is dropped.
pub open spec fn scan_decls(ls: Seq<Seq<char>>, i: nat, depth: int) -> Seq<
    (DeclKind, Seq<char>, Seq<char>),
>
    decreases ls.len() - i,
{
    if i >= ls.len() {
        seq![]
    } else if trim_start(ls[i as int]).len() == 0 {
        scan_decls(ls, i + 1, depth)
    } else if is_doc(ls[i as int]) {
        let e = doc_end(ls, i);
        let j = skip_blank(ls, e);
        proof {
            lemma_doc_end(ls, i);
            lemma_skip_blank(ls, e);
        }
        if j < ls.len() && decl_of(trim_start(ls[j as int])) is Some {
            let kn = decl_of(trim_start(ls[j as int]))->0;
            let rest = scan_decls(ls, j + 1, depth_after(depth, ls[j as int]));
            if depth == 0 {
                seq![(kn.0, kn.1, doc_text(ls, i, e))] + rest
            } else {
                rest
            }
        } else {
            scan_decls(ls, e, depth)
        }
    } else {
        scan_decls(ls, i + 1, depth_after(depth, ls[i as int]))
    }
}

/// The run of doc lines starting at line `i` documents `d`: after the run and any
/// blank lines comes the declaration line of `d`'s kind and name, and `d`'s doc
/// text is the run's contents, joined by newlines and trimmed.
pub open spec fn documents(ls: Seq<Seq<char>>, i: nat, d: (DeclKind, Seq<char>, Seq<char>)) -> bool {
    let e = doc_end(ls, i);
    let j = skip_blank(ls, e);
    &&& i < ls.len()
    &&& is_doc(ls[i as int])
    &&& j < ls.len()
    &&& decl_of(trim_start(ls[j as int])) == Some((d.0, d.1))
    &&& d.2 == doc_text(ls, i, e)
}

/// Every declaration that the scan records from line `from` on is documented by
/// a run of doc lines at or after `from`; the run's first line is returned.
pub proof fn lemma_scan_documented(ls: Seq<Seq<char>>, from: nat, depth: int, k: int) -> (i: nat)
    requires
        0 <= k < scan_decls(ls, from, depth).len(),
    ensures
        from <= i,
        documents(ls, i, scan_decls(ls, from, depth)[k]),
    decreases ls.len() - from,
{
    let r = scan_decls(ls, from, depth);
    if trim_start(ls[from as int]).len() == 0 {
        lemma_scan_documented(ls, from + 1, depth, k)
    } else if is_doc(ls[from as int]) {
        let e = doc_end(ls, from);
        let j = skip_blank(ls, e);
        lemma_doc_end(ls, from);
        lemma_skip_blank(ls, e);
        if j < ls.len() && decl_of(trim_start(ls[j as int])) is Some {
            let nd = depth_after(depth, ls[j as int]);
            let rest = scan_decls(ls, j + 1, nd);
            if depth == 0 {
                let kn = decl_of(trim_start(ls[j as int]))->0;
                let x = (kn.0, kn.1, doc_text(ls, from, e));
                assert(r == seq![x] + rest);
                if k == 0 {
                    from
                } else {
                    assert(r[k] == rest[k - 1]);
                    lemma_scan_documented(ls, j + 1, nd, k - 1)
                }
            } else {
                lemma_scan_documented(ls, j + 1, nd, k)
            }
        } else {
            lemma_scan_documented(ls, e, depth, k)
        }
    } else {
        lemma_scan_documented(ls, from + 1, depth_after(depth, ls[from as int]), k)
    }
}

/// Each declaration of a parsed file carries the doc text of a run of `///` lines
/// in its source: after the run and any blank lines comes the declaration's own
/// line, of its kind and name, and the doc text is the run's contents joined by
/// newlines and trimmed.
pub proof fn lemma_decls_documented(source: Seq<char>, k: int) -> (i: nat)
    requires
        0 <= k < scan_decls(lines(source), 0, 0).len(),
    ensures
        documents(lines(source), i, scan_decls(lines(source), 0, 0)[k]),
{
    lemma_scan_documented(lines(source), 0, 0, k)
}

pub proof fn lemma_skip_blank(ls: Seq<Seq<char>>, j: nat)
    ensures
        j <= ls.len() ==> j <= skip_blank(ls, j) <= ls.len(),
    decreases ls.len() - j,
{
    if j < ls.len() && trim(ls[j as int]).len() == 0 {
        lemma_skip_blank(ls, j + 1);
    }
}

proof fn lemma_count_char_prefix(s: Seq<char>, c: char, k: int, l: int)
    requires
        0 <= k <= l <= s.len(),
    ensures
        count_char(s.take(k), c) <= count_char(s.take(l), c),
    decreases l - k,
{
    if k < l {
        assert(s.take(l).drop_last() == s.take(l - 1));
        lemma_count_char_prefix(s, c, k, l - 1);
    }
}

proof fn lemma_count_lines_step(ls: Seq<Seq<char>>, c: char, k: int)
    requires
        0 <= k < ls.len(),
    ensures
        count_in_lines(ls.take(k + 1), c) == count_in_lines(ls.take(k), c) + count_char(ls[k], c),
{
    assert(ls.take(k + 1).drop_last() == ls.take(k));
}

proof fn lemma_count_lines_mono(ls: Seq<Seq<char>>, c: char, k: int, l: int)
    requires
        0 <= k <= l <= ls.len(),
    ensures
        count_in_lines(ls.take(k), c) <= count_in_lines(ls.take(l), c),
    decreases l - k,
{
    if k < l {
        lemma_count_lines_step(ls, c, l - 1);
        lemma_count_lines_mono(ls, c, k, l - 1);
    }
}

/// A line's count is bounded by the count over all lines.
proof fn lemma_count_line_le_total(ls: Seq<Seq<char>>, c: char, k: int)
    requires
        0 <= k < ls.len(),
    ensures
        count_char(ls[k], c) <= count_in_lines(ls, c),
        count_in_lines(ls.take(k), c) + count_char(ls[k], c) <= count_in_lines(ls, c),
{
    lemma_count_lines_step(ls, c, k);
    lemma_count_lines_mono(ls, c, k + 1, ls.len() as int);
    assert(ls.take(ls.len() as int) == ls);
}

/// Numbers of `{` and `}` in a line.
fn count_braces(line: &[char]) -> (r: (i32, i32))
    requires
        count_char(line@, '{') <= i32::MAX,
        count_char(line@, '}') <= i32::MAX,
    ensures
        r.0 == count_char(line@, '{'),
        r.1 == count_char(line@, '}'),
{
    let mut open: i32 = 0;
    let mut close: i32 = 0;
    let mut k: usize = 0;
    assert(line@.take(0).len() == 0);
    while k < line.len()
        invariant
            k <= line@.len(),
            count_char(line@, '{') <= i32::MAX,
            count_char(line@, '}') <= i32::MAX,
            open == count_char(line@.take(k as int), '{'),
            close == count_char(line@.take(k as int), '}'),
        decreases line@.len() - k,
    {
        proof {
            assert(line@.take(k + 1).drop_last() == line@.take(k as int));
            lemma_count_char_prefix(line@, '{', k + 1, line@.len() as int);
            lemma_count_char_prefix(line@, '}', k + 1, line@.len() as int);
            assert(line@.take(line@.len() as int) == line@);
        }
        let c = line[k];
        if c == '{' {
            open = open + 1;
        } else if c == '}' {
            close = close + 1;
        }
        k = k + 1;
    }
    assert(line@.take(line@.len() as int) == line@);
    (open, close)
}

/// The documented top-level declarations of a source file, in order.
pub fn parse_file(source: &str, project_name: &str) -> (r: DocFile)
    requires
        count_in_lines(lines(source@), '{') <= i32::MAX,
        count_in_lines(lines(source@), '}') <= i32::MAX,
    ensures
        r.project_name@ == project_name@,
        decl_views(r.decls@) == scan_decls(lines(source@), 0, 0),
{
    let cs = chars_of(source);
    let ls = split_lines(cs.as_slice());
    let ghost vs = views(ls@);
    let nl = chars_of("\n");
    let mut decls: Vec<Decl> = Vec::new();
    let mut depth: i32 = 0;
    let mut i: usize = 0;
    assert(vs.take(0).len() == 0);
    assert(decl_views(decls@) =~= Seq::<(DeclKind, Seq<char>, Seq<char>)>::empty());
    while i < ls.len()
        invariant
            i <= ls@.len(),
            vs == views(ls@),
            vs == lines(source@),
            nl@ == "\n"@,
            0 <= depth <= count_in_lines(vs.take(i as int), '{'),
            count_in_lines(vs, '{') <= i32::MAX,
            count_in_lines(vs, '}') <= i32::MAX,
            decl_views(decls@) + scan_decls(vs, i as nat, depth as int) == scan_decls(vs, 0, 0),
        decreases ls@.len() - i,
    {
        let ghost before = decl_views(decls@);
        let trimmed = trim_start_chars(ls[i].as_slice());
        if trimmed.len() == 0 {
            proof {
                lemma_count_lines_mono(vs, '{', i as int, i + 1);
            }
            i = i + 1;
            continue;
        }
        proof {
            lemma_trim_start_idem(vs[i as int]);
        }
        if is_doc_chars(trimmed.as_slice()) {
            let (doc_lines, end) = match doc_block_lines(&ls, i) {
                Some(v) => v,
                None => {
                    i = i + 1;
                    continue;
                },
            };
            proof {
                lemma_doc_end(vs, i as nat);
                lemma_count_lines_mono(vs, '{', i as int, end as int);
            }
            let mut j = end;
            while j < ls.len() && trim_chars(ls[j].as_slice()).len() == 0
                invariant
                    end <= j <= ls@.len(),
                    vs == views(ls@),
                    skip_blank(vs, j as nat) == skip_blank(vs, end as nat),
                decreases ls@.len() - j,
            {
                j = j + 1;
            }
            if j < ls.len() {
                let next = trim_start_chars(ls[j].as_slice());
                proof {
                    lemma_trim_start_idem(vs[j as int]);
                }
                match decl_of_chars(next.as_slice()) {
                    Some((kind, name)) => {
                        if depth == 0 {
                            let joined = join_chars(doc_lines.as_slice(), nl.as_slice());
                            let doc = trim_chars(joined.as_slice());
                            let d = Decl { kind, name: string_of(name.as_slice()), doc: string_of(doc.as_slice()) };
                            decls.push(d);
                            assert(decl_views(decls@) =~= before.push(d@));
                        }
                        proof {
                            lemma_count_line_le_total(vs, '{', j as int);
                            lemma_count_line_le_total(vs, '}', j as int);
                            lemma_count_lines_mono(vs, '{', end as int, j as int);
                            lemma_count_lines_step(vs, '{', j as int);
                        }
                        let (o, c) = count_braces(ls[j].as_slice());
                        depth = depth + o - c;
                        if depth < 0 {
                            depth = 0;
                        }
                        i = j + 1;
                        continue;
                    },
                    None => {},
                }
            }
            i = end;
            continue;
        }
        proof {
            lemma_count_line_le_total(vs, '{', i as int);
            lemma_count_line_le_total(vs, '}', i as int);
            lemma_count_lines_step(vs, '{', i as int);
        }
        let (o, c) = count_braces(ls[i].as_slice());
        depth = depth + o - c;
        if depth < 0 {
            depth = 0;
        }
        i = i + 1;
    }
    assert(scan_decls(vs, i as nat, depth as int) == Seq::<(DeclKind, Seq<char>, Seq<char>)>::empty());
    assert(decl_views(decls@) + Seq::<(DeclKind, Seq<char>, Seq<char>)>::empty() == decl_views(decls@));
    DocFile { project_name: project_name.to_owned(), decls }
}

// ---------------------------------------------------------------------
// Markdown
// ---------------------------------------------------------------------

/// The section a declaration is listed under: functions, types, constants, variables.
pub open spec fn section_of(k: DeclKind) -> nat {
    match k {
        DeclKind::Function => 0,
        DeclKind::Struct => 1,
        DeclKind::Enum => 1,
        DeclKind::Const => 2,
        DeclKind::Let => 3,
        DeclKind::Var => 3,
    }
}

pub open spec fn section_title(s: nat) -> Seq<char> {
    if s == 0 {
        "Functions"@
    } else if s == 1 {
        "Types"@
    } else if s == 2 {
        "Constants"@
    } else {
        "Variables"@
    }
}

/// `### name`, then the doc text as a paragraph when there is one.
pub open spec fn decl_entry(d: (DeclKind, Seq<char>, Seq<char>)) -> Seq<char> {
    "### "@ + d.1 + "\n\n"@ + if d.2.len() == 0 {
        Seq::<char>::empty()
    } else {
        d.2 + "\n\n"@
    }
}

/// The entries of the declarations of section `s`, in their order.
pub open spec fn section_entries(ds: Seq<(DeclKind, Seq<char>, Seq<char>)>, s: nat) -> Seq<char>
    decreases ds.len(),
{
    if ds.len() == 0 {
        seq![]
    } else {
        section_entries(ds.drop_last(), s) + if section_of(ds.last().0) == s {
            decl_entry(ds.last())
        } else {
            Seq::<char>::empty()
        }
    }
}

pub open spec fn in_section(ds: Seq<(DeclKind, Seq<char>, Seq<char>)>, s: nat) -> bool {
    exists|k: int| 0 <= k < ds.len() && section_of(#[trigger] ds[k].0) == s
}

/// A section heading and its entries; nothing for an empty section.
pub open spec fn section_block(ds: Seq<(DeclKind, Seq<char>, Seq<char>)>, s: nat) -> Seq<char> {
    if in_section(ds, s) {
        "## "@ + section_title(s) + "\n\n"@ + section_entries(ds, s)
    } else {
        seq![]
    }
}

/// The Markdown page: a title (`Untitled` for an empty name), then the four sections.
pub open spec fn markdown(project: Seq<char>, ds: Seq<(DeclKind, Seq<char>, Seq<char>)>) -> Seq<char> {
    let title = if project.len() == 0 {
        "Untitled"@
    } else {
        project
    };
    "# "@ + title + "\n\n"@ + section_block(ds, 0) + section_block(ds, 1) + section_block(ds, 2)
        + section_block(ds, 3)
}

/// Whether a declaration belongs to section `s`.
pub open spec fn belongs_to(s: nat) -> spec_fn((DeclKind, Seq<char>, Seq<char>)) -> bool {
    |d: (DeclKind, Seq<char>, Seq<char>)| section_of(d.0) == s
}

/// The entries of the given declarations, one after another.
pub open spec fn entries_text(ds: Seq<(DeclKind, Seq<char>, Seq<char>)>) -> Seq<char>
    decreases ds.len(),
{
    if ds.len() == 0 {
        seq![]
    } else {
        entries_text(ds.drop_last()) + decl_entry(ds.last())
    }
}

proof fn lemma_section_entries(ds: Seq<(DeclKind, Seq<char>, Seq<char>)>, s: nat)
    ensures
        section_entries(ds, s) == entries_text(ds.filter(belongs_to(s))),
    decreases ds.len(),
{
    reveal(Seq::filter);
    if ds.len() > 0 {
        lemma_section_entries(ds.drop_last(), s);
        let sub = ds.drop_last().filter(belongs_to(s));
        if belongs_to(s)(ds.last()) {
            assert(sub.push(ds.last()).drop_last() == sub);
        }
    }
}

/// The page lists the sections in the fixed order functions, types, constants,
/// variables; a section appears exactly when some declaration belongs to it, and
/// under its heading come the entries of exactly its declarations, each once, in
/// their order in the file.
pub proof fn lemma_markdown_sections(project: Seq<char>, ds: Seq<(DeclKind, Seq<char>, Seq<char>)>)
    ensures
        markdown(project, ds) == "# "@ + (if project.len() == 0 {
            "Untitled"@
        } else {
            project
        }) + "\n\n"@ + section_block(ds, 0) + section_block(ds, 1) + section_block(ds, 2) + section_block(ds, 3),
        forall|s: nat|
            s < 4 ==> #[trigger] section_block(ds, s) == if exists|k: int| 0 <= k < ds.len() && section_of(#[trigger] ds[k].0) == s {
                "## "@ + section_title(s) + "\n\n"@ + entries_text(ds.filter(belongs_to(s)))
            } else {
                Seq::<char>::empty()
            },
{
    assert forall|s: nat| s < 4 implies #[trigger] section_block(ds, s) == if exists|k: int| 0 <= k < ds.len() && section_of(#[trigger] ds[k].0) == s {
        "## "@ + section_title(s) + "\n\n"@ + entries_text(ds.filter(belongs_to(s)))
    } else {
        Seq::<char>::empty()
    } by {
        lemma_section_entries(ds, s);
    }
}

fn section_index(k: DeclKind) -> (r: usize)
    ensures
        r == section_of(k),
{
    match k {
        DeclKind::Function => 0,
        DeclKind::Struct | DeclKind::Enum => 1,
        DeclKind::Const => 2,
        DeclKind::Let | DeclKind::Var => 3,
    }
}

fn section_title_str(s: usize) -> (r: &'static str)
    ensures
        r@ == section_title(s as nat),
{
    if s == 0 {
        "Functions"
    } else if s == 1 {
        "Types"
    } else if s == 2 {
        "Constants"
    } else {
        "Variables"
    }
}

fn push_decl_entry(out: &mut String, d: &Decl)
    ensures
        final(out)@ == old(out)@ + decl_entry(d@),
{
    push_str(out, "### ");
    push_str(out, d.name.as_str());
    push_str(out, "\n\n");
    if !d.doc.as_str().is_empty() {
        push_str(out, d.doc.as_str());
        push_str(out, "\n\n");
    }
    assert(final(out)@ =~= old(out)@ + decl_entry(d@));
}

/// Appends the block of section `s`.
fn push_section(out: &mut String, ds: &Vec<Decl>, s: usize)
    ensures
        final(out)@ == old(out)@ + section_block(decl_views(ds@), s as nat),
{
    let ghost v = decl_views(ds@);
    let mut present = false;
    let mut k: usize = 0;
    while k < ds.len()
        invariant
            k <= ds@.len(),
            v == decl_views(ds@),
            present <==> exists|t: int| 0 <= t < k && section_of(#[trigger] v[t].0) == s,
        decreases ds@.len() - k,
    {
        if section_index(ds[k].kind) == s {
            assert(section_of(v[k as int].0) == s);
            present = true;
        }
        k = k + 1;
    }
    if !present {
        assert(section_block(v, s as nat) == Seq::<char>::empty());
        assert(old(out)@ + Seq::<char>::empty() == old(out)@);
        return;
    }
    push_str(out, "## ");
    push_str(out, section_title_str(s));
    push_str(out, "\n\n");
    let ghost head = out@;
    let mut k: usize = 0;
    assert(v.take(0).len() == 0);
    while k < ds.len()
        invariant
            k <= ds@.len(),
            v == decl_views(ds@),
            out@ == head + section_entries(v.take(k as int), s as nat),
        decreases ds@.len() - k,
    {
        let ghost prev = out@;
        if section_index(ds[k].kind) == s {
            push_decl_entry(out, &ds[k]);
        }
        proof {
            assert(v.take(k + 1).drop_last() == v.take(k as int));
            assert(v.take(k + 1).last() == ds@[k as int]@);
        }
        assert(out@ =~= head + section_entries(v.take(k + 1), s as nat));
        k = k + 1;
    }
    assert(v.take(ds@.len() as int) == v);
    assert(out@ =~= old(out)@ + section_block(v, s as nat));
}

/// Markdown for a documented file: the project name as title, then one section
/// per kind that has declarations (functions, types, constants, variables),
/// each declaration with its doc text.
pub fn render_markdown(file: &DocFile) -> (r: String)
    ensures
        r@ == markdown(file.project_name@, decl_views(file.decls@)),
{
    let mut out = String::new();
    push_str(&mut out, "# ");
    if file.project_name.as_str().is_empty() {
        push_str(&mut out, "Untitled");
    } else {
        push_str(&mut out, file.project_name.as_str());
    }
    push_str(&mut out, "\n\n");
    let mut idx: usize = 0;
    let ghost v = decl_views(file.decls@);
    let ghost head = out@;
    while idx < 4
        invariant
            idx <= 4,
            v == decl_views(file.decls@),
            idx == 0 ==> out@ == head,
            idx == 1 ==> out@ == head + section_block(v, 0),
            idx == 2 ==> out@ == head + section_block(v, 0) + section_block(v, 1),
            idx == 3 ==> out@ == head + section_block(v, 0) + section_block(v, 1) + section_block(v, 2),
            idx == 4 ==> out@ == head + section_block(v, 0) + section_block(v, 1) + section_block(v, 2)
                + section_block(v, 3),
        decreases 4 - idx,
    {
        push_section(&mut out, &file.decls, idx);
        idx = idx + 1;
    }
    assert(out@ =~= markdown(file.project_name@, v));
    out
}

/// The pages of several files, separated by a horizontal rule.
pub fn join_pages(pages: &[String]) -> (r: String)
    ensures
        r@ == join(string_views(pages@), "\n---\n\n"@),
{
    let ghost v = string_views(pages@);
    let mut out = String::new();
    let mut i: usize = 0;
    assert(v.take(0) =~= Seq::<Seq<char>>::empty());
    while i < pages.len()
        invariant
            i <= pages@.len(),
            v == string_views(pages@),
            out@ == join(v.take(i as int), "\n---\n\n"@),
        decreases pages@.len() - i,
    {
        let ghost before = out@;
        if i > 0 {
            push_str(&mut out, "\n---\n\n");
        }
        push_str(&mut out, pages[i].as_str());
        proof {
            let t = v.take(i + 1);
            assert(t.drop_last() == v.take(i as int));
            assert(t.last() == pages@[i as int]@);
            if i == 0 {
                assert(out@ =~= t[0]);
            } else {
                assert(out@ =~= before + "\n---\n\n"@ + t.last());
            }
        }
        i = i + 1;
    }
    assert(v.take(pages@.len() as int) == v);
    out
}

} // verus!
