use lib::manifest::{
    check_dependency, init_manifest, lock_entries, main_template, parse_qaw_toml, render_cache_listing,
    render_lock, unquote, write_qaw_toml, Dependencies, LockEntry, PackageMeta, QawToml, REGISTRY_URL,
};

#[test]
fn parse_minimal() {
    let t = parse_qaw_toml("[package]\nname = \"x\"\nversion = \"0.1.0\"\nedition = \"2024\"\n").unwrap();
    assert_eq!(t.package.name, "x");
    assert_eq!(t.package.version, "0.1.0");
    assert_eq!(t.package.edition, "2024");
    assert!(t.dependencies.is_empty());
}

#[test]
fn parse_with_deps() {
    let src = "[package]\nname = \"a\"\nversion = \"0.2.0\"\nedition = \"2024\"\n\n[dependencies]\nfoo = \"1.0\"\nbar = \"2.3\"\n";
    let t = parse_qaw_toml(src).unwrap();
    assert_eq!(t.dependencies.get("foo"), Some(&"1.0".to_string()));
    assert_eq!(t.dependencies.get("bar"), Some(&"2.3".to_string()));
}

#[test]
fn parse_ignores_comments() {
    let src = "# header\n[package] # inline\nname = \"x\" # trailing\n";
    let t = parse_qaw_toml(src).unwrap();
    assert_eq!(t.package.name, "x");
}

#[test]
fn roundtrip() {
    let t = QawToml {
        package: PackageMeta {
            name: "demo".into(),
            version: "0.3.0".into(),
            edition: "2024".into(),
        },
        dependencies: Dependencies::from_pairs(vec![
            ("qaw_std".to_string(), "1.0".to_string()),
            ("qaw_http".to_string(), "2.1".to_string()),
        ]),
    };
    let s = write_qaw_toml(&t);
    let back = parse_qaw_toml(&s).unwrap();
    assert_eq!(t, back);
}

#[test]
fn render_lock_includes_source_for_deps() {
    let entries = vec![
        LockEntry {
            name: "root".into(),
            version: "0.1.0".into(),
            source: None,
        },
        LockEntry {
            name: "foo".into(),
            version: "1.0.0".into(),
            source: Some(REGISTRY_URL.into()),
        },
    ];
    let s = render_lock(&entries);
    assert!(s.contains("[[package]]"));
    assert!(s.contains("name = \"foo\""));
    assert!(s.contains("source = \""));
    assert!(!s.contains("name = \"root\"\nsource"));
}

#[test]
fn unquote_handles_strings_and_bare() {
    assert_eq!(unquote("\"abc\""), "abc");
    assert_eq!(unquote("'abc'"), "abc");
    assert_eq!(unquote("123"), "123");
    assert_eq!(unquote("  \"x\"  "), "x");
}

#[test]
fn manifest_errors_name_the_line() {
    let e = parse_qaw_toml("[package]\nname \"x\"\n").unwrap_err();
    assert_eq!(e, "第 2 行: 缺少 `=`: `name \"x\"`");
    let e = parse_qaw_toml("\n\n[package\n").unwrap_err();
    assert_eq!(e, "第 3 行: 表头格式错误 `[package`");
}

#[test]
fn manifest_defaults_and_unknown_keys() {
    let t = parse_qaw_toml("[package]\nauthor = \"me\"\n[other]\nname = \"no\"\n").unwrap();
    assert_eq!(t.package.name, "");
    assert_eq!(t.package.version, "0.1.0");
    assert_eq!(t.package.edition, "2024");
    assert_eq!(t, QawToml::default());
}

#[test]
fn manifest_later_dependency_line_wins() {
    let t = parse_qaw_toml("[dependencies]\nb = \"1\"\na = \"2\"\nb = '3'\n").unwrap();
    assert_eq!(t.dependencies.len(), 2);
    assert_eq!(t.dependencies.get("b"), Some(&"3".to_string()));
    let (k0, v0) = t.dependencies.entry(0);
    assert_eq!((k0.as_str(), v0.as_str()), ("a", "2"));
}

#[test]
fn write_manifest_exact_text() {
    let mut t = init_manifest("demo");
    assert_eq!(
        write_qaw_toml(&t),
        "[package]\nname = \"demo\"\nversion = \"0.1.0\"\nedition = \"2024\"\n\n[dependencies]\n# （暂无依赖）\n"
    );
    t.dependencies.insert("zeta".to_string(), "1".to_string());
    t.dependencies.insert("alpha".to_string(), "2".to_string());
    assert_eq!(
        write_qaw_toml(&t),
        "[package]\nname = \"demo\"\nversion = \"0.1.0\"\nedition = \"2024\"\n\n[dependencies]\nalpha = \"2\"\nzeta = \"1\"\n"
    );
}

#[test]
fn dependency_insert_then_get() {
    let mut d = Dependencies::new();
    assert_eq!(d.insert("b".to_string(), "1".to_string()), None);
    assert_eq!(d.insert("a".to_string(), "2".to_string()), None);
    assert_eq!(d.insert("b".to_string(), "3".to_string()), Some("1".to_string()));
    assert_eq!(d.get("b"), Some(&"3".to_string()));
    assert_eq!(d.get("a"), Some(&"2".to_string()));
    assert_eq!(d.get("c"), None);
    assert!(d.contains_key("a"));
    assert_eq!(d.len(), 2);
}

#[test]
fn lock_entries_and_lock_text() {
    let mut t = init_manifest("app");
    t.dependencies.insert("dep".to_string(), "0.9".to_string());
    let es = lock_entries(&t);
    assert_eq!(es.len(), 2);
    assert_eq!(es[0], LockEntry { name: "app".into(), version: "0.1.0".into(), source: None });
    assert_eq!(es[1].source.as_deref(), Some("registry+https://qaw-lang.org"));
    assert_eq!(
        render_lock(&es),
        "[[package]]\nname = \"app\"\nversion = \"0.1.0\"\n\n[[package]]\nname = \"dep\"\nversion = \"0.9\"\nsource = \"registry+https://qaw-lang.org\"\n"
    );
    assert_eq!(render_cache_listing(&es), "app 0.1.0\ndep 0.9\n");
    assert_eq!(render_lock(&[]), "");
}

#[test]
fn add_arguments_are_checked() {
    assert!(check_dependency("qaw_std", "1.0").is_ok());
    assert_eq!(check_dependency("", "1.0").unwrap_err(), "add 需要 <name> 和 <version> 两个参数");
    assert_eq!(check_dependency("x", "").unwrap_err(), "add 需要 <name> 和 <version> 两个参数");
    assert_eq!(check_dependency("a=b", "1").unwrap_err(), "非法依赖名 `a=b`");
    assert_eq!(check_dependency("a b", "1").unwrap_err(), "非法依赖名 `a b`");
    assert_eq!(check_dependency("a\"", "1").unwrap_err(), "非法依赖名 `a\"`");
}

#[test]
fn init_template_text() {
    assert_eq!(
        main_template("hello"),
        "// hello.qaw — 由 qawpm init 生成\n\nfunc main() {\n    print(\"你好, 世界!\");\n}\n"
    );
}

#[test]
fn unquote_edge_cases() {
    assert_eq!(unquote("\""), "\"");
    assert_eq!(unquote("\"\""), "");
    assert_eq!(unquote("\"a'"), "\"a'");
}

#[test]
fn manifest_reports_only_the_first_bad_line() {
    let e = parse_qaw_toml("# top\n[package]\nname = \"x\" # c\nbad line\n[broken\n").unwrap_err();
    assert_eq!(e, "第 4 行: 缺少 `=`: `bad line`");
    assert!(parse_qaw_toml("[package] # ok\n\n  # only a comment\nname = \"x\"\n").is_ok());
}
