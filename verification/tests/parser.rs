use lib::ast::{render_expr, BinOp, Expr, ExprData, InterpPart, Kind};
use lib::grammar::parse_i64;
use lib::lexer::{tok_kind_name, Lexer, TokKind};
use lib::parser::Parser;

fn parser(src: &str) -> Parser {
    Parser::new(Lexer::new(src))
}

#[test]
fn parser_starts_on_first_token() {
    let p = parser("func f");
    assert!(p.check(TokKind::KwFunc));
    assert_eq!(p.current_token().lexeme, "func");
    assert!(p.last_error().is_none());
}

#[test]
fn parser_peek_does_not_move() {
    let mut p = parser("a b c");
    assert_eq!(p.peek().lexeme, "b");
    assert_eq!(p.peek().lexeme, "b");
    assert_eq!(p.current_token().lexeme, "a");
    p.advance();
    assert_eq!(p.current_token().lexeme, "b");
    assert_eq!(p.peek().lexeme, "c");
    p.advance();
    p.advance();
    assert!(p.check(TokKind::Eof));
    p.advance();
    assert!(p.check(TokKind::Eof));
    assert!(p.peek().kind == TokKind::Eof);
}

#[test]
fn parser_match_tok_moves_only_on_match() {
    let mut p = parser("( )");
    assert!(!p.match_tok(TokKind::RParen));
    assert!(p.check(TokKind::LParen));
    assert!(p.match_tok(TokKind::LParen));
    assert!(p.check(TokKind::RParen));
}

#[test]
fn parser_expect_records_first_error_only() {
    let mut p = parser("x\n  42");
    assert!(p.expect(TokKind::Ident, "name"));
    assert!(!p.expect(TokKind::LBrace, "'{'"));
    let e = p.last_error().unwrap();
    assert_eq!((e.line, e.col), (2, 3));
    assert_eq!(e.message, "期望 '{', 得到 IntLit at 2:3");
    assert!(!p.expect(TokKind::Semi, "';'"));
    assert_eq!(p.last_error().unwrap().message, "期望 '{', 得到 IntLit at 2:3");
    p.error("ignored while recovering");
    assert_eq!(p.last_error().unwrap().message, "期望 '{', 得到 IntLit at 2:3");
}

#[test]
fn parser_error_then_synchronize() {
    let mut p = parser("1 2 + let x");
    p.error("bad start");
    assert_eq!(p.last_error().unwrap().message, "bad start");
    assert_eq!((p.last_error().unwrap().line, p.last_error().unwrap().col), (1, 1));
    p.synchronize();
    assert!(p.check(TokKind::KwLet));
    let mut q = parser("1 2 3");
    q.synchronize();
    assert!(q.check(TokKind::Eof));
}

#[test]
fn token_kind_names_match_debug() {
    assert_eq!(tok_kind_name(TokKind::IntLit), "IntLit");
    assert_eq!(tok_kind_name(TokKind::KwFunc), "KwFunc");
    assert_eq!(tok_kind_name(TokKind::QuestionQuestion), "QuestionQuestion");
    assert_eq!(tok_kind_name(TokKind::Eof), format!("{:?}", TokKind::Eof));
}

#[test]
fn synchronize_skips_to_statement_start() {
    let mut p = parser("x + ( while y");
    p.synchronize();
    assert!(p.check(TokKind::KwWhile));
    p.synchronize();
    assert!(p.check(TokKind::KwWhile));
}

fn parse(src: &str) -> Expr {
    let mut p = parser(src);
    p.parse_program()
}

fn items(e: &Expr) -> &Vec<Expr> {
    if let ExprData::Program(prog) = &e.data {
        &prog.items
    } else {
        panic!();
    }
}

#[test]
fn test_empty_program() {
    let p = parse("");
    assert_eq!(p.kind, Kind::Program);
}

#[test]
fn test_function_no_params() {
    let p = parse("func foo() {}");
    assert_eq!(items(&p).len(), 1);
}

#[test]
fn test_function_with_params() {
    let p = parse("func add(x: int, y: int) -> int { return x }");
    assert_eq!(items(&p).len(), 1);
}

#[test]
fn test_function_with_return_type() {
    let p = parse("func bar() -> int { }");
    assert_eq!(items(&p).len(), 1);
}

#[test]
fn test_struct() {
    let p = parse("struct Point { x: f64, y: f64 }");
    assert_eq!(items(&p).len(), 1);
}

#[test]
fn test_enum() {
    let p = parse("enum Color { Red, Green, Blue }");
    assert_eq!(items(&p).len(), 1);
}

#[test]
fn test_multiple_items() {
    let p = parse("struct A { x: int } enum B { X } func c() {}");
    assert_eq!(items(&p).len(), 3);
}

fn first_init(p: &Expr) -> &Expr {
    if let ExprData::Function(fd) = &items(p)[0].data {
        if let ExprData::Block(b) = &fd.body.data {
            if let ExprData::VarDecl(v) = &b.stmts[0].data {
                return v.init.as_ref().unwrap();
            }
        }
    }
    panic!();
}

#[test]
fn test_expr_int() {
    let p = parse("func f() { let x = 42 }");
    if let ExprData::IntLit(n) = first_init(&p).data {
        assert_eq!(n, 42);
    } else {
        panic!();
    }
}

#[test]
fn test_expr_precedence() {
    let p = parse("func f() { let x = 1 + 2 * 3 }");
    if let ExprData::BinaryOp(bin) = &first_init(&p).data {
        assert_eq!(bin.op, BinOp::Add);
        assert!(matches!(bin.rhs.data, ExprData::BinaryOp(_)));
    } else {
        panic!();
    }
}

#[test]
fn test_match() {
    let p = parse("func f() { match x { 1 => 0 2 => 0 _ => 0 } }");
    assert_eq!(items(&p).len(), 1);
}

#[test]
fn test_chinese_function() {
    let p = parse("func 中文函数() {}");
    if let ExprData::Function(f) = &items(&p)[0].data {
        assert_eq!(f.name, "中文函数");
    } else {
        panic!();
    }
}

#[test]
fn parse_program_tree_text() {
    let p = parse("func f() { let x = 1 + 2 }");
    assert_eq!(
        render_expr(&p, 0),
        "Program@1:1 items=1\n  Function@1:1 name=f params=0\n    Block@1:10 stmts=1\n      VarDecl@1:12 name=x mut=false\n        BinaryOp@1:22 op=+\n          IntLit@1:20 = 1\n          IntLit@1:24 = 2\n"
    );
}

#[test]
fn parse_assignment_chains_to_the_left() {
    let p = parse("func f() { a = b = 1 }");
    if let ExprData::Function(fd) = &items(&p)[0].data {
        if let ExprData::Block(b) = &fd.body.data {
            if let ExprData::ExprStmt(s) = &b.stmts[0].data {
                if let ExprData::Assign(a) = &s.expr.data {
                    assert!(matches!(a.target.data, ExprData::Assign(_)));
                    assert!(matches!(a.value.data, ExprData::IntLit(1)));
                    return;
                }
            }
        }
    }
    panic!();
}

#[test]
fn parse_int_literal_out_of_range_is_zero() {
    let p = parse("func f() { let x = 99999999999999999999 }");
    if let ExprData::IntLit(n) = first_init(&p).data {
        assert_eq!(n, 0);
    } else {
        panic!();
    }
}

#[test]
fn parse_string_interpolation() {
    let p = parse("func f() { let s = \"a${x + 1}b\" }");
    if let ExprData::StringLit(sl) = &first_init(&p).data {
        assert_eq!(sl.parts.len(), 3);
        assert!(matches!(&sl.parts[0], InterpPart::Text(t) if t == "a"));
        assert!(matches!(&sl.parts[1], InterpPart::Expr(e) if e.kind == Kind::BinaryOp));
        assert!(matches!(&sl.parts[2], InterpPart::Text(t) if t == "b"));
    } else {
        panic!();
    }
}

#[test]
fn parse_unclosed_interpolation_is_text() {
    let p = parse("func f() { let s = \"a${x\" }");
    if let ExprData::StringLit(sl) = &first_init(&p).data {
        assert_eq!(sl.parts.len(), 2);
        assert!(matches!(&sl.parts[1], InterpPart::Text(t) if t == "${x}"));
    } else {
        panic!();
    }
}

#[test]
fn parse_postfix_call_index_slice_field() {
    let p = parse("func f() { let v = a.b(1, 2)[0][1:3] }");
    let e = first_init(&p);
    assert_eq!(e.kind, Kind::Slice);
    if let ExprData::Slice(s) = &e.data {
        assert_eq!(s.obj.kind, Kind::Index);
        assert!(!s.inclusive);
    }
}

#[test]
fn parse_top_level_statement_is_an_error_and_terminates() {
    let mut p = parser("let x = 1 func g() {}");
    let prog = p.parse_program();
    assert_eq!(items(&prog).len(), 1);
    let err = p.last_error().unwrap();
    assert_eq!(err.message, "期望顶层项（func/struct/enum），得到 Ident at 1:5");
}

#[test]
fn parse_missing_expression_records_error() {
    let mut p = parser("func f() { let x = ; }");
    let _ = p.parse_program();
    assert_eq!(p.last_error().unwrap().message, "期望表达式，得到 Semi");
}

#[test]
fn parse_struct_fields_and_enum_payloads() {
    let p = parse("struct P { x: int, y: float } enum E { A(int), B { x: int }, C }");
    if let ExprData::StructDecl(s) = &items(&p)[0].data {
        assert_eq!(s.fields.len(), 2);
        assert_eq!(s.fields[1].ty_name.as_deref(), Some("float"));
    } else {
        panic!();
    }
    if let ExprData::EnumDecl(e) = &items(&p)[1].data {
        assert_eq!(e.variants.len(), 3);
        assert_eq!(e.variants[0].payload.as_deref(), Some("..."));
        assert_eq!(e.variants[1].payload.as_deref(), Some("{...}"));
        assert_eq!(e.variants[2].payload, None);
    } else {
        panic!();
    }
}

#[test]
fn parse_for_forms() {
    let p = parse("func f() { for i in xs { } for j from 1 to 10 { } }");
    if let ExprData::Function(fd) = &items(&p)[0].data {
        if let ExprData::Block(b) = &fd.body.data {
            assert_eq!(b.stmts.len(), 2);
            assert_eq!(b.stmts[0].kind, Kind::ForStmt);
            assert_eq!(b.stmts[1].kind, Kind::ForStmt);
            return;
        }
    }
    panic!();
}

#[test]
fn parse_i64_matches_std() {
    for s in ["0", "42", "-7", "+7", "9223372036854775807", "-9223372036854775808", "9223372036854775808", "", "-", "1_0", "0x10", "12a"] {
        let cs: Vec<char> = s.chars().collect();
        assert_eq!(parse_i64(&cs), s.parse::<i64>().ok(), "{}", s);
    }
}

#[test]
fn parse_stray_top_level_literal_records_error() {
    let mut p = parser("42");
    let prog = p.parse_program();
    assert_eq!(items(&prog).len(), 0);
    let err = p.last_error().unwrap();
    assert_eq!((err.line, err.col), (1, 1));
    assert_eq!(err.message, "期望顶层项（func/struct/enum），得到 IntLit at 1:1");
    let mut q = parser("func f() {}");
    let _ = q.parse_program();
    assert!(q.last_error().is_none());
}
