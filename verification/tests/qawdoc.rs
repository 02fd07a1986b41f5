use lib::doc::{
    extract_doc_block, is_doc_line, join_pages, parse_decl, parse_file, render_markdown, Decl, DeclKind, DocFile,
};

#[test]
fn doc_block_extraction_handles_indentation_and_blank_separator() {
    let src = "/// Hello\n/// World\n\nfunc main() {}\n";
    let lines: Vec<&str> = src.lines().collect();
    let (doc, end) = extract_doc_block(&lines, 0).expect("doc block");
    assert_eq!(doc, vec!["Hello", "World"]);
    assert_eq!(end, 2);
}

#[test]
fn doc_block_with_blank_paragraph_break_preserves_separator() {
    let src = "/// Para 1\n///\n/// Para 2\nfunc main() {}\n";
    let lines: Vec<&str> = src.lines().collect();
    let (doc, _end) = extract_doc_block(&lines, 0).unwrap();
    assert_eq!(doc, vec!["Para 1", "", "Para 2"]);
    let joined = doc.join("\n");
    assert!(joined.contains("Para 1\n\nPara 2"));
}

#[test]
fn parse_decl_recognizes_all_six_kinds_and_aliases() {
    let cases = [
        ("func main() {}", DeclKind::Function, "main"),
        ("fn foo()", DeclKind::Function, "foo"),
        ("hs bar()", DeclKind::Function, "bar"),
        ("struct Point { x: int, }", DeclKind::Struct, "Point"),
        ("jg Pt", DeclKind::Struct, "Pt"),
        ("enum Color { Red, }", DeclKind::Enum, "Color"),
        ("mj Mood", DeclKind::Enum, "Mood"),
        ("let x = 1;", DeclKind::Let, "x"),
        ("bk y = 2", DeclKind::Let, "y"),
        ("var z: int = 0;", DeclKind::Var, "z"),
        ("bl w", DeclKind::Var, "w"),
        ("const PI = 3;", DeclKind::Const, "PI"),
        ("cl E", DeclKind::Const, "E"),
    ];
    for (line, exp_kind, exp_name) in cases {
        let (k, n) = parse_decl(line).unwrap_or_else(|| panic!("parse failed: {line}"));
        assert_eq!(k, exp_kind, "kind for {line}");
        assert_eq!(n, exp_name, "name for {line}");
    }
}

#[test]
fn parse_decl_rejects_non_declarations() {
    assert!(parse_decl("// not a decl").is_none());
    assert!(parse_decl("return 0;").is_none());
    assert!(parse_decl("if x {").is_none());
    assert!(parse_decl("match c {").is_none());
    assert!(parse_decl("let").is_none());
    assert!(parse_decl("let 1abc = 1;").is_none());
}

#[test]
fn parse_file_associates_doc_to_next_decl_and_skips_orphan_docs() {
    let src = "\
/// 主程序入口
func main() {
    /// 内部 doc（应在函数体内被忽略）
    let inner = 1;
    print(inner);
}

/// 孤儿注释（无声明）— 之后没有声明，应被丢弃
/// 第二行
";
    let doc = parse_file(src, "demo");
    assert_eq!(doc.project_name, "demo");
    assert_eq!(doc.decls.len(), 1);
    assert_eq!(doc.decls[0].name, "main");
    assert_eq!(doc.decls[0].doc, "主程序入口");
    for d in &doc.decls {
        assert!(!d.doc.contains("内部 doc"));
        assert!(!d.doc.contains("孤儿注释"));
    }
}

#[test]
fn parse_file_classifies_into_sections_correctly() {
    let src = "\
/// 函数 f
func f() {}

/// 结构体 S
struct S { x: int, }

/// 枚举 E
enum E { A, B, }

/// 常量 C
const C = 1;

/// 变量 v
var v: int = 0;

/// 不可变量 i
let i = 1;
";
    let doc = parse_file(src, "proj");
    assert_eq!(doc.decls.len(), 6);
    let kinds: Vec<DeclKind> = doc.decls.iter().map(|d| d.kind).collect();
    assert_eq!(
        kinds,
        vec![
            DeclKind::Function,
            DeclKind::Struct,
            DeclKind::Enum,
            DeclKind::Const,
            DeclKind::Var,
            DeclKind::Let,
        ]
    );
}

#[test]
fn render_markdown_produces_expected_layout() {
    let file = DocFile {
        project_name: "demo".to_string(),
        decls: vec![
            Decl {
                kind: DeclKind::Function,
                name: "main".to_string(),
                doc: "主程序入口".to_string(),
            },
            Decl {
                kind: DeclKind::Struct,
                name: "Point".to_string(),
                doc: "点结构体".to_string(),
            },
        ],
    };
    let md = render_markdown(&file);
    assert!(md.starts_with("# demo\n\n"));
    assert!(md.contains("## Functions\n"));
    assert!(md.contains("### main\n"));
    assert!(md.contains("主程序入口"));
    assert!(md.contains("## Types\n"));
    assert!(md.contains("### Point\n"));
    assert!(md.contains("点结构体"));
}

#[test]
fn render_markdown_uses_untitled_for_empty_project_name() {
    let file = DocFile {
        project_name: String::new(),
        decls: vec![],
    };
    let md = render_markdown(&file);
    assert!(md.contains("# Untitled"));
}

#[test]
fn render_markdown_skips_empty_sections() {
    let file = DocFile {
        project_name: "x".to_string(),
        decls: vec![Decl {
            kind: DeclKind::Const,
            name: "PI".to_string(),
            doc: "圆周率".to_string(),
        }],
    };
    let md = render_markdown(&file);
    assert!(!md.contains("## Functions"));
    assert!(!md.contains("## Types"));
    assert!(md.contains("## Constants"));
    assert!(!md.contains("## Variables"));
}

#[test]
fn doc_line_detection_allows_indentation() {
    assert!(is_doc_line("   /// x"));
    assert!(is_doc_line("///"));
    assert!(!is_doc_line("// x"));
    assert!(!is_doc_line("x /// y"));
}

#[test]
fn extract_doc_block_none_when_start_is_not_doc() {
    let lines = vec!["func f() {}", "/// x"];
    assert!(extract_doc_block(&lines, 0).is_none());
    assert!(extract_doc_block(&lines, 5).is_none());
    let (doc, end) = extract_doc_block(&lines, 1).unwrap();
    assert_eq!(doc, vec!["x"]);
    assert_eq!(end, 2);
}

#[test]
fn parse_decl_allows_leading_blanks() {
    assert_eq!(parse_decl("  func main() {}"), Some((DeclKind::Function, "main".to_string())));
    assert_eq!(parse_decl("\u{3000}let 名字 = 1"), Some((DeclKind::Let, "名字".to_string())));
    assert_eq!(parse_decl("func _x1()"), Some((DeclKind::Function, "_x1".to_string())));
    assert_eq!(parse_decl("func 中文(x)"), Some((DeclKind::Function, "中文".to_string())));
    assert!(parse_decl("").is_none());
    assert!(parse_decl("(func x)").is_none());
}

#[test]
fn parse_file_doc_trimmed_and_joined() {
    let src = "///   first  \n///\n/// second\n\n\nstruct S {}\n";
    let doc = parse_file(src, "p");
    assert_eq!(doc.decls.len(), 1);
    assert_eq!(doc.decls[0].kind, DeclKind::Struct);
    assert_eq!(doc.decls[0].doc, "first  \n\nsecond");
}

#[test]
fn parse_file_ignores_declarations_inside_bodies() {
    let src = "struct A {\n/// inner\nfunc g() {}\n}\n/// outer\nfunc h() {}\n";
    let doc = parse_file(src, "p");
    let names: Vec<&str> = doc.decls.iter().map(|d| d.name.as_str()).collect();
    assert_eq!(names, vec!["h"]);
}

#[test]
fn render_markdown_full_text() {
    let file = DocFile {
        project_name: "m".to_string(),
        decls: vec![
            Decl { kind: DeclKind::Var, name: "v".to_string(), doc: String::new() },
            Decl { kind: DeclKind::Function, name: "f".to_string(), doc: "does f".to_string() },
            Decl { kind: DeclKind::Enum, name: "E".to_string(), doc: "an enum".to_string() },
        ],
    };
    assert_eq!(
        render_markdown(&file),
        "# m\n\n## Functions\n\n### f\n\ndoes f\n\n## Types\n\n### E\n\nan enum\n\n## Variables\n\n### v\n\n"
    );
}

#[test]
fn parse_file_result_compares_equal_to_expected_value() {
    let doc = parse_file("/// a\nlet a = 1;\n", "p");
    assert_eq!(
        doc,
        DocFile {
            project_name: "p".to_string(),
            decls: vec![Decl { kind: DeclKind::Let, name: "a".to_string(), doc: "a".to_string() }],
        }
    );
}

#[test]
fn pages_are_separated_by_rules() {
    assert_eq!(join_pages(&[]), "");
    assert_eq!(join_pages(&["# a\n\n".to_string()]), "# a\n\n");
    assert_eq!(join_pages(&["# a\n\n".to_string(), "# b\n\n".to_string()]), "# a\n\n\n---\n\n# b\n\n");
}
