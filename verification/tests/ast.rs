use lib::ast::{
    new_binary, new_block, new_bool_lit, new_char_lit, new_float_lit, new_ident, new_int_lit,
    new_program, new_string_lit, new_var_decl, render_expr, string_lit_simple, BinOp, Block,
    ExprData, FieldAccess, Expr, InterpPart, Kind, MatchArm, MatchStmt, StringLit,
};

#[test]
fn test_int_lit() {
    let e = new_int_lit(42, 1, 1);
    assert_eq!(e.kind, Kind::IntLit);
    if let ExprData::IntLit(v) = e.data {
        assert_eq!(v, 42);
    } else {
        panic!();
    }
}

#[test]
fn test_float_lit() {
    let e = new_float_lit("2.5".to_string(), 1, 1);
    assert_eq!(e.kind, Kind::FloatLit);
    if let ExprData::FloatLit(v) = e.data {
        let x: f64 = v.parse().unwrap();
        assert!((x - 2.5).abs() < 1e-9);
    } else {
        panic!();
    }
}

#[test]
fn test_string_lit() {
    let e = new_string_lit(string_lit_simple("hi"), 1, 1);
    assert_eq!(e.kind, Kind::StringLit);
}

#[test]
fn test_binary() {
    let e = new_binary(BinOp::Add, new_int_lit(1, 1, 1), new_int_lit(2, 1, 1), 1, 1);
    assert_eq!(e.kind, Kind::BinaryOp);
}

#[test]
fn test_var_decl() {
    let e = new_var_decl("x".into(), Some("int".into()), false, Some(new_int_lit(0, 1, 1)), 1, 1);
    assert_eq!(e.kind, Kind::VarDecl);
}

#[test]
fn test_block() {
    let e = new_block(vec![], 1, 1);
    assert_eq!(e.kind, Kind::Block);
}

#[test]
fn test_program() {
    let e = new_program(vec![], 1, 1);
    assert_eq!(e.kind, Kind::Program);
}

#[test]
fn test_complex_tree() {
    let inner = new_binary(BinOp::Add, new_int_lit(1, 1, 5), new_int_lit(2, 1, 9), 1, 7);
    let vd = new_var_decl("x".into(), None, false, Some(inner), 1, 5);
    let prog = new_program(vec![vd], 1, 1);
    assert_eq!(prog.kind, Kind::Program);
}

#[test]
fn render_nests_children_two_spaces_deeper() {
    let inner = new_binary(BinOp::Add, new_int_lit(1, 1, 5), new_int_lit(2, 1, 9), 1, 7);
    let vd = new_var_decl("x".into(), None, false, Some(inner), 1, 5);
    let prog = new_program(vec![vd], 1, 1);
    assert_eq!(
        render_expr(&prog, 0),
        "Program@1:1 items=1\n  VarDecl@1:5 name=x mut=false\n    BinaryOp@1:7 op=+\n      IntLit@1:5 = 1\n      IntLit@1:9 = 2\n"
    );
}

#[test]
fn render_starts_at_the_given_indent() {
    assert_eq!(render_expr(&new_ident("a".into(), 2, 3), 4), "    Ident@2:3 name=a\n");
}

#[test]
fn render_leaf_values() {
    assert_eq!(render_expr(&new_int_lit(-7, 1, 1), 0), "IntLit@1:1 = -7\n");
    assert_eq!(render_expr(&new_int_lit(i64::MIN, 1, 1), 0), "IntLit@1:1 = -9223372036854775808\n");
    assert_eq!(render_expr(&new_bool_lit(true, 1, 2), 0), "BoolLit@1:2 = true\n");
    assert_eq!(render_expr(&new_char_lit(97, 3, 4), 0), "CharLit@3:4 = U+0061\n");
    assert_eq!(render_expr(&new_char_lit(0x1F600, 1, 1), 0), "CharLit@1:1 = U+1F600\n");
    assert_eq!(render_expr(&new_float_lit("2.5".into(), 1, 1), 0), "FloatLit@1:1 = 2.5\n");
}

#[test]
fn render_var_decl_with_type_and_string() {
    let vd = new_var_decl(
        "s".into(),
        Some("str".into()),
        true,
        Some(new_string_lit(string_lit_simple("hi"), 1, 9)),
        1,
        1,
    );
    assert_eq!(
        render_expr(&vd, 0),
        "VarDecl@1:1 name=s mut=true\n  type=str\n  StringLit@1:9 parts=1\n    text: \"hi\"\n"
    );
}

#[test]
fn render_interpolated_string() {
    let sl = StringLit {
        parts: vec![
            InterpPart::Text("a".into()),
            InterpPart::Expr(Box::new(new_ident("x".into(), 1, 4))),
        ],
    };
    assert_eq!(
        render_expr(&new_string_lit(sl, 1, 1), 0),
        "StringLit@1:1 parts=2\n  text: \"a\"\n  Ident@1:4 name=x\n"
    );
}

#[test]
fn render_match_quotes_patterns() {
    let m = Expr {
        kind: Kind::MatchStmt,
        line: 1,
        col: 1,
        data: ExprData::MatchStmt(MatchStmt {
            scrutinee: Box::new(new_ident("x".into(), 1, 7)),
            arms: vec![MatchArm { pattern: "_".into(), body: Box::new(new_int_lit(0, 1, 14)) }],
        }),
    };
    assert_eq!(render_expr(&m, 0), "MatchStmt@1:1 arms=1\n  pattern=\"_\"\n  IntLit@1:14 = 0\n");
}

#[test]
fn render_field_access_repeats_the_indent() {
    let f = Expr {
        kind: Kind::FieldAccess,
        line: 1,
        col: 2,
        data: ExprData::FieldAccess(FieldAccess { obj: Box::new(new_ident("p".into(), 1, 1)), field: "x".into() }),
    };
    assert_eq!(render_expr(&f, 2), "  FieldAccess@1:2   field=x\n    Ident@1:1 name=p\n");
}

#[test]
fn render_empty_block() {
    let b = Expr { kind: Kind::Block, line: 5, col: 6, data: ExprData::Block(Block { stmts: vec![] }) };
    assert_eq!(render_expr(&b, 0), "Block@5:6 stmts=0\n");
}
