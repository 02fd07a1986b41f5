use lib::lexer::{Lexer, TokKind, Token};

fn tok(src: &str) -> Vec<TokKind> {
    let mut lex = Lexer::new(src);
    lex.tokenize().into_iter().map(|t| t.kind).collect()
}

fn toks(src: &str) -> Vec<Token> {
    let mut lex = Lexer::new(src);
    lex.tokenize()
}

#[test]
fn test_empty() {
    assert_eq!(tok(""), vec![TokKind::Eof]);
}

#[test]
fn lexer_test_int() {
    assert_eq!(tok("42"), vec![TokKind::IntLit, TokKind::Eof]);
}

#[test]
fn test_string() {
    assert_eq!(tok("\"hi\""), vec![TokKind::StringLit, TokKind::Eof]);
}

#[test]
fn test_keyword_func() {
    let kinds = tok("func");
    assert_eq!(kinds, vec![TokKind::KwFunc, TokKind::Eof]);
}

#[test]
fn test_keyword_fn() {
    assert_eq!(tok("fn"), vec![TokKind::KwFunc, TokKind::Eof]);
}

#[test]
fn test_keyword_hanshu() {
    assert_eq!(tok("hanshu"), vec![TokKind::KwFunc, TokKind::Eof]);
}

#[test]
fn test_keyword_hs() {
    assert_eq!(tok("hs"), vec![TokKind::KwFunc, TokKind::Eof]);
}

#[test]
fn test_keyword_package() {
    let kinds = tok("package pkg baozhuang bz foo");
    assert_eq!(
        kinds,
        vec![
            TokKind::KwPackage,
            TokKind::KwPackage,
            TokKind::KwPackage,
            TokKind::KwPackage,
            TokKind::Ident,
            TokKind::Eof
        ]
    );
}

#[test]
fn test_operators() {
    assert_eq!(
        tok("+ - * /"),
        vec![TokKind::Plus, TokKind::Minus, TokKind::Star, TokKind::Slash, TokKind::Eof]
    );
}

#[test]
fn test_arrow() {
    assert_eq!(tok("->"), vec![TokKind::Arrow, TokKind::Eof]);
}

#[test]
fn test_comments() {
    let kinds = tok("// comment\n42");
    assert_eq!(kinds, vec![TokKind::IntLit, TokKind::Eof]);
    let kinds = tok("/* hi */42");
    assert_eq!(kinds, vec![TokKind::IntLit, TokKind::Eof]);
}

#[test]
fn test_string_interp_preserved() {
    let kinds = tok("\"hi ${name}\"");
    assert_eq!(kinds, vec![TokKind::StringLit, TokKind::Eof]);
}

#[test]
fn test_chinese_ident() {
    let kinds = tok("中文变量 42");
    assert_eq!(kinds, vec![TokKind::Ident, TokKind::IntLit, TokKind::Eof]);
}

#[test]
fn lexer_positions_are_line_and_column_of_first_char() {
    let ts = toks("let x\n  = 10");
    assert_eq!(ts.len(), 5);
    assert_eq!((ts[0].kind, ts[0].line, ts[0].col), (TokKind::KwLet, 1, 1));
    assert_eq!((ts[1].kind, ts[1].line, ts[1].col), (TokKind::Ident, 1, 5));
    assert_eq!(ts[1].lexeme, "x");
    assert_eq!((ts[2].kind, ts[2].line, ts[2].col), (TokKind::Eq, 2, 3));
    assert_eq!((ts[3].kind, ts[3].line, ts[3].col), (TokKind::IntLit, 2, 5));
    assert_eq!(ts[3].lexeme, "10");
    assert_eq!(ts[4].kind, TokKind::Eof);
}

#[test]
fn lexer_every_keyword_form_normalises() {
    for w in ["return", "ret", "fanhui", "fh"] {
        assert_eq!(tok(w), vec![TokKind::KwReturn, TokKind::Eof], "{w}");
    }
    for w in ["const", "con", "changliang", "cl"] {
        assert_eq!(tok(w), vec![TokKind::KwConst, TokKind::Eof], "{w}");
    }
    assert_eq!(tok("functions"), vec![TokKind::Ident, TokKind::Eof]);
}

#[test]
fn lexer_float_and_two_char_operators() {
    assert_eq!(
        tok("1.5e3 == != <= >= && || =>"),
        vec![
            TokKind::FloatLit,
            TokKind::EqEq,
            TokKind::NotEq,
            TokKind::Le,
            TokKind::Ge,
            TokKind::AndAnd,
            TokKind::OrOr,
            TokKind::FatArrow,
            TokKind::Eof
        ]
    );
}

#[test]
fn lexer_string_lexeme_is_unescaped_body() {
    let ts = toks("\"a\\nb\"");
    assert_eq!(ts[0].kind, TokKind::StringLit);
    assert_eq!(ts[0].lexeme, "a\nb");
}

#[test]
fn lexer_next_token_stays_on_eof() {
    let mut lex = Lexer::new("x");
    assert_eq!(lex.next_token().kind, TokKind::Ident);
    assert_eq!(lex.next_token().kind, TokKind::Eof);
    assert_eq!(lex.next_token().kind, TokKind::Eof);
}

#[test]
fn lexer_unknown_character_is_error_token() {
    assert_eq!(tok("@"), vec![TokKind::Error, TokKind::Eof]);
}

#[test]
fn token_constructors_keep_fields() {
    let t = Token::new(TokKind::Ident, "abc", 3, 7);
    assert_eq!((t.kind, t.lexeme.as_str(), t.line, t.col), (TokKind::Ident, "abc", 3, 7));
    let e = Token::eof(2, 1);
    assert_eq!((e.kind, e.lexeme.as_str(), e.line, e.col), (TokKind::Eof, "", 2, 1));
}

#[test]
fn token_describe_shows_kind_and_lexeme() {
    assert_eq!(Token::new(TokKind::Ident, "x", 1, 1).describe(), "Ident(x)");
    assert_eq!(Token::eof(1, 1).describe(), "Eof()");
}

#[test]
fn lexer_after_tokenize_stays_on_eof() {
    let mut lex = Lexer::new("a b  ");
    let ts = lex.tokenize();
    assert_eq!(ts.len(), 3);
    assert_eq!(lex.next_token().kind, TokKind::Eof);
}
