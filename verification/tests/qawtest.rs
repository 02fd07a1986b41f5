use lib::testscan::{extract_func_name, find_test_decls, is_test_marker, name_matches, parse_args, parse_test_name_attr};

#[test]
fn finds_simple_test() {
    let src = "\
func add(a: int, b: int) -> int { return a + b; }

// @test
func test_add() {
    let r = add(2, 3);
}
";
    let decls = find_test_decls(src);
    assert_eq!(decls.len(), 1, "should find one test, got {decls:?}");
    assert_eq!(decls[0].name, "test_add");
    assert_eq!(decls[0].func_name, "test_add");
    assert_eq!(decls[0].func_line, 4);
}

#[test]
fn qawtest_finds_multiple_tests() {
    let src = "\
// @test
func test_a() {}

// helper
func helper() {}

// @test
func test_b() {}
";
    let decls = find_test_decls(src);
    assert_eq!(decls.len(), 2, "should find two tests, got {decls:?}");
    let names: Vec<&str> = decls.iter().map(|d| d.name.as_str()).collect();
    assert!(names.contains(&"test_a"));
    assert!(names.contains(&"test_b"));
}

#[test]
fn empty_source_has_no_tests() {
    let decls = find_test_decls("");
    assert!(decls.is_empty());
}

#[test]
fn no_test_marker_yields_nothing() {
    let src = "\
func add(a: int, b: int) -> int { return a + b; }

func main() {
    print(\"hi\");
}
";
    let decls = find_test_decls(src);
    assert!(decls.is_empty(), "no @test markers expected, got {decls:?}");
}

#[test]
fn test_marker_without_func_is_ignored() {
    let src = "\
// @test
let x = 42;

func main() {}
";
    let decls = find_test_decls(src);
    assert!(decls.is_empty(), "@test without func should be ignored");
}

#[test]
fn test_marker_with_blank_lines_between() {
    let src = "\
// @test

func test_x() {}
";
    let decls = find_test_decls(src);
    assert_eq!(decls.len(), 1, "blank lines between @test and func OK");
    assert_eq!(decls[0].name, "test_x");
}

#[test]
fn test_marker_with_comment_between() {
    let src = "\
// @test
// setup
func test_x() {}
";
    let decls = find_test_decls(src);
    assert_eq!(decls.len(), 1, "comment line between @test and func OK");
    assert_eq!(decls[0].name, "test_x");
}

#[test]
fn parse_test_name_attr_quoted_double() {
    let line = "// @test name=\"hello world\"";
    assert_eq!(parse_test_name_attr(line), Some("hello world".to_string()));
}

#[test]
fn parse_test_name_attr_quoted_single() {
    let line = "// @test name='foo'";
    assert_eq!(parse_test_name_attr(line), Some("foo".to_string()));
}

#[test]
fn parse_test_name_attr_no_name() {
    let line = "// @test";
    assert_eq!(parse_test_name_attr(line), None);
}

#[test]
fn parse_test_name_attr_unknown_attr() {
    let line = "// @test ignore=\"yes\"";
    assert_eq!(parse_test_name_attr(line), None);
}

#[test]
fn custom_name_overrides_function_name() {
    let src = "\
// @test name=\"加法测试\"
func test_addition() {}
";
    let decls = find_test_decls(src);
    assert_eq!(decls.len(), 1);
    assert_eq!(decls[0].name, "加法测试");
    assert_eq!(decls[0].func_name, "test_addition");
}

#[test]
fn is_test_marker_line_start() {
    assert!(is_test_marker("// @test"));
    assert!(is_test_marker("// @test name=\"x\""));
    assert!(!is_test_marker("// regular comment"));
    assert!(!is_test_marker("func foo() {}"));
}

#[test]
fn extract_func_name_basic() {
    assert_eq!(extract_func_name("func foo() {}"), Some("foo".to_string()));
    assert_eq!(extract_func_name("func 中文函数() {}"), Some("中文函数".to_string()));
    assert_eq!(
        extract_func_name("func add(a: int, b: int) -> int { return 0; }"),
        Some("add".to_string())
    );
    assert_eq!(extract_func_name("not a func"), None);
}

#[test]
fn parse_args_default() {
    let args: Vec<String> = vec!["qawtest".to_string()];
    let opts = parse_args(&args).unwrap();
    assert!(opts.target.is_none());
    assert!(opts.filter.is_none());
}

#[test]
fn parse_args_with_target() {
    let args = vec!["qawtest".to_string(), "examples".to_string()];
    let opts = parse_args(&args).unwrap();
    assert_eq!(opts.target.as_deref(), Some("examples"));
}

#[test]
fn parse_args_with_filter() {
    let args = vec!["qawtest".to_string(), "--filter".to_string(), "add".to_string()];
    let opts = parse_args(&args).unwrap();
    assert_eq!(opts.filter.as_deref(), Some("add"));
}

#[test]
fn parse_args_filter_missing_value_errors() {
    let args = vec!["qawtest".to_string(), "--filter".to_string()];
    let r = parse_args(&args);
    assert!(r.is_err());
}

#[test]
fn parse_args_unknown_flag_errors() {
    let args = vec!["qawtest".to_string(), "--bogus".to_string()];
    let r = parse_args(&args);
    assert!(r.is_err());
}

#[test]
fn parse_args_two_targets_errors() {
    let args = vec!["qawtest".to_string(), "a".to_string(), "b".to_string()];
    let r = parse_args(&args);
    assert!(r.is_err());
}

#[test]
fn parse_args_error_messages_and_flags() {
    let a = |v: &[&str]| v.iter().map(|s| s.to_string()).collect::<Vec<String>>();
    assert_eq!(parse_args(&a(&["t", "--filter"])).unwrap_err(), "--filter 需要参数");
    assert_eq!(parse_args(&a(&["t", "-x"])).unwrap_err(), "未知选项: -x");
    assert_eq!(parse_args(&a(&["t", "a", "b"])).unwrap_err(), "只支持单个目标参数（目录或文件）");
    let o = parse_args(&a(&["t", "-h", "-V", "-", "--filter", "z"])).unwrap();
    assert!(o.show_help && o.show_version);
    assert_eq!(o.target.as_deref(), Some("-"));
    assert_eq!(o.filter.as_deref(), Some("z"));
    assert!(parse_args(&[]).unwrap().target.is_none());
}

#[test]
fn trailing_marker_and_func_line_numbers() {
    let src = "let a = 1; // @test\n\n// note\nfunc t1() {}\n// @testing\nfunc t2() {}\n";
    let decls = find_test_decls(src);
    assert_eq!(decls.len(), 2);
    assert_eq!(decls[0].func_name, "t1");
    assert_eq!(decls[0].func_line, 4);
    assert_eq!(decls[1].func_name, "t2");
    assert_eq!(decls[1].func_line, 6);
    assert!(is_test_marker("let _ = 1; // @test"));
    assert!(is_test_marker("x(); // @test name=\"z\""));
    assert!(!is_test_marker("x(); // see @testing"));
    assert!(is_test_marker("//   @test\tx"));
    assert!(is_test_marker("// @testname=\"y\""));
    assert!(!is_test_marker("//@testx"));
}

#[test]
fn marker_search_stops_after_window() {
    let mut src = String::from("// @test\n");
    for _ in 0..32 {
        src.push('\n');
    }
    src.push_str("func far() {}\n");
    assert!(find_test_decls(&src).is_empty());
    let near = "// @test\n".to_string() + &"\n".repeat(31) + "func near() {}\n";
    let decls = find_test_decls(&near);
    assert_eq!(decls.len(), 1);
    assert_eq!(decls[0].func_line, 33);
}

#[test]
fn name_attr_trims_quotes_and_blanks() {
    assert_eq!(parse_test_name_attr("// @test name = \"'x'\" "), Some("x".to_string()));
    assert_eq!(parse_test_name_attr("// @test name=\"\""), Some(String::new()));
    assert_eq!(parse_test_name_attr("@test name=\"a\""), None);
}

#[test]
fn trailing_marker_takes_its_comment_name() {
    let decls = find_test_decls("run(); // @test name=\"尾部\"\nfunc t() {}\n");
    assert_eq!(decls.len(), 1);
    assert_eq!(decls[0].name, "尾部");
    assert_eq!(decls[0].func_name, "t");
}

#[test]
fn filter_selects_by_substring() {
    assert!(name_matches("test_addition", &None));
    assert!(name_matches("test_addition", &Some("add".to_string())));
    assert!(name_matches("加法测试", &Some("测试".to_string())));
    assert!(!name_matches("test_sub", &Some("add".to_string())));
    assert!(name_matches("x", &Some(String::new())));
    assert!(!name_matches("ab", &Some("abc".to_string())));
}
