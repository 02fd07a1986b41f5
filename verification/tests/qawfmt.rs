use lib::diff::render_unified_diff;
use lib::formatter::format_text;

#[test]
fn strips_trailing_whitespace() {
    let src = "foo   \nbar\t\nbaz\n";
    let out = format_text(src);
    assert_eq!(out, "foo\nbar\nbaz\n");
}

#[test]
fn collapses_multiple_blank_lines() {
    let src = "a\n\n\n\nb\n";
    let out = format_text(src);
    assert_eq!(out, "a\n\nb\n");
}

#[test]
fn ensures_trailing_newline() {
    let out = format_text("foo");
    assert_eq!(out, "foo\n");
}

#[test]
fn preserves_well_formed_source() {
    let src = "func main() {\n    print(\"hi\");\n}\n";
    let out = format_text(src);
    assert_eq!(out, src);
}

#[test]
fn idempotent_on_already_formatted_input() {
    let src = "a  \n\n\nb\n\nc   \n";
    let once = format_text(src);
    let twice = format_text(&once);
    assert_eq!(once, twice);
}

#[test]
fn idempotent_on_well_formed_input() {
    let src = "func main() {\n    print(\"hi\");\n}\n";
    let once = format_text(src);
    let twice = format_text(&once);
    assert_eq!(once, twice);
    assert_eq!(once, src);
}

#[test]
fn empty_input_stays_empty() {
    let out = format_text("");
    assert_eq!(out, "");
}

#[test]
fn handles_unicode_content() {
    let src = "// 你好   \nfunc main() {\n    print(\"世界! 🌍\");\n}\n";
    let out = format_text(src);
    assert_eq!(out, "// 你好\nfunc main() {\n    print(\"世界! 🌍\");\n}\n");
}

#[test]
fn diff_identical_inputs_is_empty() {
    let src = "foo\nbar\n";
    let out = render_unified_diff("test.qaw", src, src);
    assert_eq!(out, "");
}

#[test]
fn diff_shows_single_change() {
    let src = "foo\nbar\n";
    let dst = "foo\nbaz\n";
    let out = render_unified_diff("test.qaw", src, dst);
    assert!(out.contains("--- test.qaw\n"));
    assert!(out.contains("+++ test.qaw"));
    assert!(out.contains("-bar"));
    assert!(out.contains("+baz"));
    assert!(out.contains("@@ -1,2 +1,2 @@"));
}

#[test]
fn diff_handles_addition() {
    let src = "a\nb\n";
    let dst = "a\nb\nc\n";
    let out = render_unified_diff("t.qaw", src, dst);
    assert!(out.contains("+c"));
    assert!(out.contains("@@ -1,2 +1,3 @@"));
}

#[test]
fn diff_handles_deletion() {
    let src = "a\nb\nc\n";
    let dst = "a\nc\n";
    let out = render_unified_diff("t.qaw", src, dst);
    assert!(out.contains("-b"));
    assert!(out.contains("@@ -1,3 +1,2 @@"));
}

#[test]
fn diff_handles_missing_trailing_newline() {
    let src = "a\nb";
    let dst = "a\nb\n";
    let out = render_unified_diff("t.qaw", src, dst);
    assert!(out.contains("+"), "expected an insertion; got: {out:?}");
}

#[test]
fn diff_silent_when_only_trailing_newline_matches() {
    let src = "a\nb\n";
    let dst = "a\nb\n";
    let out = render_unified_diff("t.qaw", src, dst);
    assert_eq!(out, "");
}

#[test]
fn format_strips_windows_line_endings_and_blank_tail() {
    assert_eq!(format_text("a\r\nb  \r\n\r\n\r\n"), "a\nb\n");
}

#[test]
fn format_whitespace_only_input_keeps_one_blank_line() {
    assert_eq!(format_text("   \n\t\n"), "");
    assert_eq!(format_text("\n\n\n"), "");
}

#[test]
fn formatted_text_has_no_diff_when_formatted_again() {
    let src = "x = 1   \n\n\n\ny = 2";
    let once = format_text(src);
    let twice = format_text(&once);
    assert_eq!(render_unified_diff("f.qaw", &once, &twice), "");
}

#[test]
fn diff_full_output_for_one_change() {
    let out = render_unified_diff("p.qaw", "a\nb\nc\n", "a\nx\nc\n");
    assert_eq!(
        out,
        "--- p.qaw\n+++ p.qaw（qawfmt 格式化后）\n@@ -1,3 +1,3 @@\n a\n-b\n+x\n c\n"
    );
}

#[test]
fn diff_context_is_three_lines_and_hunks_split() {
    let src = "1\n2\n3\n4\n5\n6\n7\n8\n9\n10\n11\n12\n";
    let dst = "1\nX\n3\n4\n5\n6\n7\n8\n9\n10\nY\n12\n";
    let out = render_unified_diff("n.qaw", src, dst);
    assert_eq!(
        out,
        "--- n.qaw\n+++ n.qaw（qawfmt 格式化后）\n@@ -1,5 +1,5 @@\n 1\n-2\n+X\n 3\n 4\n 5\n@@ -8,5 +8,5 @@\n 8\n 9\n 10\n-11\n+Y\n 12\n"
    );
}

#[test]
fn diff_trailing_newline_added_exact() {
    let out = render_unified_diff("t.qaw", "a\nb", "a\nb\n");
    assert_eq!(out, "--- t.qaw\n+++ t.qaw（qawfmt 格式化后）\n@@ -2,1 +2,2 @@\n b\n+\n");
}

#[test]
fn diff_trailing_newline_removed_exact() {
    let out = render_unified_diff("t.qaw", "a\n", "a");
    assert_eq!(out, "--- t.qaw\n+++ t.qaw（qawfmt 格式化后）\n@@ -1,2 +1,1 @@\n a\n-\n");
}

#[test]
fn diff_from_empty_text_adds_a_blank_line() {
    let out = render_unified_diff("e.qaw", "", "\n");
    assert_eq!(out, "--- e.qaw\n+++ e.qaw（qawfmt 格式化后）\n@@ -1,0 +1,1 @@\n+\n");
}

#[test]
fn formatted_output_follows_the_rules() {
    let out = format_text("a \t\n\n\n  b  \n\n");
    assert_eq!(out, "a\n\n  b\n");
    for l in out.lines() {
        assert_eq!(l, l.trim_end());
    }
    assert!(out.ends_with('\n') && !out.ends_with("\n\n"));
}

#[test]
fn diff_changes_with_touching_contexts_share_a_hunk() {
    let out = render_unified_diff("m.qaw", "x\n1\n2\n3\n4\ny\n", "1\n2\n3\n4\n");
    assert_eq!(
        out,
        "--- m.qaw\n+++ m.qaw（qawfmt 格式化后）\n@@ -1,6 +1,4 @@\n-x\n 1\n 2\n 3\n 4\n-y\n"
    );
    // six kept lines apart: still one hunk; seven apart: two hunks
    let six = render_unified_diff("s.qaw", "a\n1\n2\n3\n4\n5\n6\nb\n", "A\n1\n2\n3\n4\n5\n6\nB\n");
    assert_eq!(six.matches("@@ -").count(), 1);
    let seven = render_unified_diff("s.qaw", "a\n1\n2\n3\n4\n5\n6\n7\nb\n", "A\n1\n2\n3\n4\n5\n6\n7\nB\n");
    assert_eq!(seven.matches("@@ -").count(), 2);
    assert!(seven.contains("@@ -1,4 +1,4 @@") && seven.contains("@@ -6,4 +6,4 @@"));
}

#[test]
fn format_keeps_non_blank_lines_in_order() {
    let src = "  a = 1   \n\n\n\tb(\"x  \")\t\n   \n// c  ";
    let out = format_text(src);
    let kept: Vec<&str> = out.lines().filter(|l| !l.is_empty()).collect();
    let want: Vec<&str> = src.lines().map(|l| l.trim_end()).filter(|l| !l.is_empty()).collect();
    assert_eq!(kept, want);
    assert_eq!(out, "  a = 1\n\n\tb(\"x  \")\n\n// c\n");
}
