//! Test discovery: `// @test` markers and the `func` declarations they mark,
//! and the command line of the test runner.
use vstd::prelude::*;
use crate::lexer::spells;
use crate::text::{
    is_ws, lead_ws, lemma_lead_ws_bound, lemma_lead_ws_at, lemma_trail_ws_at, lemma_find_char_at,
    chars_of, find, find_char, lemma_find_char_bound, lines, slice_chars, split_lines,
    starts_with, starts_with_chars, string_of, trim, trim_chars, trim_start, trim_start_chars,
    views,
};

verus! {

// ---------------------------------------------------------------------
// Markers
// ---------------------------------------------------------------------

/// Index of the first `//` in `t`: where a line comment starts.
pub open spec fn comment_start(t: Seq<char>) -> Option<nat>
    decreases t.len(),
{
    if t.len() < 2 {
        None
    } else if t[0] == '/' && t[1] == '/' {
        Some(0)
    } else {
        match comment_start(t.drop_first()) {
            Some(i) => Some(i + 1),
            None => None,
        }
    }
}

/// The line comment of `t`, from its `//` on.
pub open spec fn comment_of(t: Seq<char>) -> Option<Seq<char>> {
    match comment_start(t) {
        Some(i) => Some(t.skip(i as int)),
        None => None,
    }
}

/// A comment `//` whose text, after blanks, is `@test` followed by nothing, a
/// blank, a tab or `name=`.
pub open spec fn is_marker_comment(c: Seq<char>) -> bool {
    let r = trim_start(c.skip(2));
    if starts_with(r, "@test"@) {
        let a = r.skip("@test"@.len() as int);
        a.len() == 0 || a[0] == ' ' || a[0] == '\t' || starts_with(a, "name="@)
    } else {
        false
    }
}

/// A marker line (trimmed): it starts with `// @test`, or its line comment,
/// at the start or at the end of the line (`code; // @test`), is a marker comment.
pub open spec fn is_marker(t: Seq<char>) -> bool {
    if starts_with(t, "// @test"@) {
        true
    } else {
        match comment_of(t) {
            Some(c) => is_marker_comment(c),
            None => false,
        }
    }
}

/// Number of leading `c`s.
pub open spec fn lead_run(s: Seq<char>, c: char) -> nat
    decreases s.len(),
{
    if s.len() > 0 && s[0] == c {
        1 + lead_run(s.drop_first(), c)
    } else {
        0
    }
}

/// Number of trailing `c`s.
pub open spec fn trail_run(s: Seq<char>, c: char) -> nat
    decreases s.len(),
{
    if s.len() > 0 && s.last() == c {
        1 + trail_run(s.drop_last(), c)
    } else {
        0
    }
}

/// `s` without its leading and trailing `c`s (`str::trim_matches`).
pub open spec fn trim_matches(s: Seq<char>, c: char) -> Seq<char> {
    let a = s.skip(lead_run(s, c) as int);
    a.take(a.len() - trail_run(a, c))
}

/// The custom name of a marker line `// @test name="..."`.
pub open spec fn name_attr(t: Seq<char>) -> Option<Seq<char>> {
    if !starts_with(t, "//"@) {
        None
    } else {
        let body = trim_start(t.skip("//"@.len() as int));
        if !starts_with(body, "@test"@) {
            None
        } else {
            let rest = trim_start(body.skip("@test"@.len() as int));
            if rest.len() == 0 {
                None
            } else {
                match find_char(rest, '=') {
                    None => None,
                    Some(eq) => if trim(rest.take(eq as int)) != "name"@ {
                        None
                    } else {
                        Some(trim_matches(trim_matches(trim(rest.skip(eq + 1 as int)), '"'), '\''))
                    },
                }
            }
        }
    }
}

/// The function name of a line `func NAME(...`.
pub open spec fn func_name_of(line: Seq<char>) -> Option<Seq<char>> {
    if !starts_with(line, "func "@) {
        None
    } else {
        let rest = trim_start(line.skip("func "@.len() as int));
        match find_char(rest, '(') {
            None => None,
            Some(p) => Some(trim(rest.take(p as int))),
        }
    }
}

pub proof fn lemma_lead_run(s: Seq<char>, c: char, n: nat)
    requires
        n <= s.len(),
        forall|k: int| 0 <= k < n ==> #[trigger] s[k] == c,
        n < s.len() ==> s[n as int] != c,
    ensures
        lead_run(s, c) == n,
    decreases n,
{
    if n > 0 {
        assert(s[0] == c);
        assert forall|k: int| 0 <= k < n - 1 implies #[trigger] s.drop_first()[k] == c by {
            assert(s.drop_first()[k] == s[k + 1]);
        }
        if n - 1 < s.drop_first().len() {
            assert(s.drop_first()[n - 1] == s[n as int]);
        }
        lemma_lead_run(s.drop_first(), c, (n - 1) as nat);
    }
}

pub proof fn lemma_trail_run(s: Seq<char>, c: char, n: nat)
    requires
        n <= s.len(),
        forall|k: int| s.len() - n <= k < s.len() ==> #[trigger] s[k] == c,
        n < s.len() ==> s[s.len() - n - 1] != c,
    ensures
        trail_run(s, c) == n,
    decreases n,
{
    if n > 0 {
        assert(s[s.len() - 1] == c);
        let t = s.drop_last();
        assert forall|k: int| t.len() - (n - 1) <= k < t.len() implies #[trigger] t[k] == c by {
            assert(t[k] == s[k]);
        }
        if n - 1 < t.len() {
            assert(t[t.len() - (n - 1) - 1] == s[s.len() - n - 1]);
        }
        lemma_trail_run(t, c, (n - 1) as nat);
    }
}

fn trim_matches_chars(s: &[char], c: char) -> (r: Vec<char>)
    ensures
        r@ == trim_matches(s@, c),
{
    let mut lo: usize = 0;
    while lo < s.len() && s[lo] == c
        invariant
            lo <= s@.len(),
            forall|k: int| 0 <= k < lo ==> #[trigger] s@[k] == c,
        decreases s@.len() - lo,
    {
        lo = lo + 1;
    }
    proof {
        lemma_lead_run(s@, c, lo as nat);
    }
    let a = slice_chars(s, lo, s.len());
    let mut n: usize = 0;
    while n < a.len() && a[a.len() - 1 - n] == c
        invariant
            n <= a@.len(),
            forall|k: int| a@.len() - n <= k < a@.len() ==> #[trigger] a@[k] == c,
        decreases a@.len() - n,
    {
        n = n + 1;
    }
    proof {
        lemma_trail_run(a@, c, n as nat);
    }
    slice_chars(a.as_slice(), 0, a.len() - n)
}

/// Index of the first `//` in `t`.
fn find_comment(t: &[char]) -> (r: Option<usize>)
    ensures
        r matches Some(i) ==> comment_start(t@) == Some(i as nat) && i + 2 <= t@.len(),
        r is None ==> comment_start(t@) is None,
{
    let mut i: usize = 0;
    assert(t@.skip(0) == t@);
    while t.len() - i >= 2
        invariant
            i <= t@.len(),
            comment_start(t@) == (match comment_start(t@.skip(i as int)) {
                Some(k) => Some((k + i) as nat),
                None => None,
            }),
        decreases t@.len() - i,
    {
        assert(t@.skip(i as int)[0] == t@[i as int]);
        assert(t@.skip(i as int)[1] == t@[i + 1]);
        if t[i] == '/' && t[i + 1] == '/' {
            return Some(i);
        }
        assert(t@.skip(i as int).drop_first() == t@.skip(i + 1));
        i = i + 1;
    }
    None
}

fn is_marker_comment_chars(c: &[char]) -> (r: bool)
    requires
        c@.len() >= 2,
    ensures
        r == is_marker_comment(c@),
{
    let after = slice_chars(c, 2, c.len());
    let r = trim_start_chars(after.as_slice());
    let at = chars_of("@test");
    if !starts_with_chars(r.as_slice(), at.as_slice()) {
        return false;
    }
    let a = slice_chars(r.as_slice(), at.len(), r.len());
    let name_eq = chars_of("name=");
    a.len() == 0 || a[0] == ' ' || a[0] == '\t' || starts_with_chars(a.as_slice(), name_eq.as_slice())
}

fn is_marker_chars(t: &[char]) -> (r: bool)
    ensures
        r == is_marker(t@),
{
    let full = chars_of("// @test");
    if starts_with_chars(t, full.as_slice()) {
        return true;
    }
    match find_comment(t) {
        Some(i) => {
            let c = slice_chars(t, i, t.len());
            is_marker_comment_chars(c.as_slice())
        },
        None => false,
    }
}

/// The line comment of a marker line.
fn comment_chars(t: &[char]) -> (r: Vec<char>)
    requires
        comment_of(t@) is Some,
    ensures
        comment_of(t@) == Some(r@),
{
    match find_comment(t) {
        Some(i) => slice_chars(t, i, t.len()),
        None => Vec::new(),
    }
}

/// Is the (trimmed) line a `// @test` marker?
pub fn is_test_marker(trimmed: &str) -> (r: bool)
    ensures
        r == is_marker(trimmed@),
{
    let cs = chars_of(trimmed);
    is_marker_chars(cs.as_slice())
}

fn name_attr_chars(t: &[char]) -> (r: Option<Vec<char>>)
    ensures
        r matches Some(n) ==> name_attr(t@) == Some(n@),
        r is None ==> name_attr(t@) is None,
{
    let slashes = chars_of("//");
    if !starts_with_chars(t, slashes.as_slice()) {
        return None;
    }
    let after = slice_chars(t, slashes.len(), t.len());
    let body = trim_start_chars(after.as_slice());
    let at = chars_of("@test");
    if !starts_with_chars(body.as_slice(), at.as_slice()) {
        return None;
    }
    let after_at = slice_chars(body.as_slice(), at.len(), body.len());
    let rest = trim_start_chars(after_at.as_slice());
    if rest.len() == 0 {
        return None;
    }
    let eq = match find(rest.as_slice(), '=') {
        Some(i) => i,
        None => {
            return None;
        },
    };
    proof {
        lemma_find_char_bound(rest@, '=');
    }
    let before = slice_chars(rest.as_slice(), 0, eq);
    let key = trim_chars(before.as_slice());
    if !spells(key.as_slice(), "name") {
        return None;
    }
    let tail = slice_chars(rest.as_slice(), eq + 1, rest.len());
    assert(tail@ == rest@.skip(eq + 1 as int));
    let value = trim_chars(tail.as_slice());
    let v1 = trim_matches_chars(value.as_slice(), '"');
    Some(trim_matches_chars(v1.as_slice(), '\''))
}

/// The custom name given by `// @test name="..."` (or `name='...'`), if any.
pub fn parse_test_name_attr(trimmed: &str) -> (r: Option<String>)
    ensures
        r matches Some(n) ==> name_attr(trimmed@) == Some(n@),
        r is None ==> name_attr(trimmed@) is None,
{
    let cs = chars_of(trimmed);
    match name_attr_chars(cs.as_slice()) {
        Some(n) => Some(string_of(n.as_slice())),
        None => None,
    }
}

fn func_name_chars(line: &[char]) -> (r: Option<Vec<char>>)
    ensures
        r matches Some(n) ==> func_name_of(line@) == Some(n@),
        r is None ==> func_name_of(line@) is None,
{
    let kw = chars_of("func ");
    if !starts_with_chars(line, kw.as_slice()) {
        return None;
    }
    let after = slice_chars(line, kw.len(), line.len());
    let rest = trim_start_chars(after.as_slice());
    let p = match find(rest.as_slice(), '(') {
        Some(p) => p,
        None => {
            return None;
        },
    };
    proof {
        lemma_find_char_bound(rest@, '(');
    }
    let before = slice_chars(rest.as_slice(), 0, p);
    Some(trim_chars(before.as_slice()))
}

/// The name in a line `func NAME(...`.
pub fn extract_func_name(line: &str) -> (r: Option<String>)
    ensures
        r matches Some(n) ==> func_name_of(line@) == Some(n@),
        r is None ==> func_name_of(line@) is None,
{
    let cs = chars_of(line);
    match func_name_chars(cs.as_slice()) {
        Some(n) => Some(string_of(n.as_slice())),
        None => None,
    }
}

// ---------------------------------------------------------------------
// Test declarations
// ---------------------------------------------------------------------

/// A test found in a source file: its display name, its function's name, and
/// the 1-based line of the `func` keyword.
#[derive(Debug, Clone)]
pub struct TestDecl {
    pub name: String,
    pub func_name: String,
    pub func_line: u32,
}

impl View for TestDecl {
    type V = (Seq<char>, Seq<char>, u32);

    open spec fn view(&self) -> (Seq<char>, Seq<char>, u32) {
        (self.name@, self.func_name@, self.func_line)
    }
}

pub open spec fn decl_views(ds: Seq<TestDecl>) -> Seq<(Seq<char>, Seq<char>, u32)> {
    ds.map_values(|d: TestDecl| d@)
}

/// Lines examined for a marker's function: at most 32 after it.
pub const SEARCH_WINDOW: usize = 32;

/// The first line in `j..max` that starts a `func`, unless a line that is
/// neither blank nor a comment comes first.
pub open spec fn search_func(ls: Seq<Seq<char>>, j: nat, max: nat) -> Option<nat>
    decreases max - j,
{
    if j >= max {
        None
    } else {
        let l = trim_start(ls[j as int]);
        if starts_with(l, "func "@) {
            Some(j)
        } else if l.len() != 0 && !starts_with(l, "//"@) {
            None
        } else {
            search_func(ls, j + 1, max)
        }
    }
}

pub open spec fn window_end(len: nat, idx: nat) -> nat {
    if idx + 1 + SEARCH_WINDOW <= len {
        (idx + 1 + SEARCH_WINDOW) as nat
    } else {
        len
    }
}

/// The test declared by a marker on line `idx`, if any.
pub open spec fn decl_at(ls: Seq<Seq<char>>, idx: nat) -> Option<(Seq<char>, Seq<char>, u32)> {
    let line = trim_start(ls[idx as int]);
    if !is_marker(line) {
        None
    } else {
        match search_func(ls, idx + 1, window_end(ls.len(), idx)) {
            None => None,
            Some(j) => match func_name_of(trim_start(ls[j as int])) {
                None => None,
                Some(f) => Some(
                    (
                        match name_attr(comment_of(line)->0) {
                            Some(n) => n,
                            None => f,
                        },
                        f,
                        (j + 1) as u32,
                    ),
                ),
            },
        }
    }
}

/// The tests declared from line `i` on, in order.
pub open spec fn scan_tests(ls: Seq<Seq<char>>, i: nat) -> Seq<(Seq<char>, Seq<char>, u32)>
    decreases ls.len() - i,
{
    if i >= ls.len() {
        seq![]
    } else {
        match decl_at(ls, i) {
            Some(d) => seq![d] + scan_tests(ls, i + 1),
            None => scan_tests(ls, i + 1),
        }
    }
}

/// The tests of a source file: each `// @test` marker (a line starting with it,
/// or ending with it as a comment) with the `func` that follows it within 32
/// lines, past blank and comment lines only. The display name is the marker's
/// `name="..."` if it has one, else the function's name.
pub fn find_test_decls(source: &str) -> (r: Vec<TestDecl>)
    ensures
        decl_views(r@) == scan_tests(lines(source@), 0),
{
    let cs = chars_of(source);
    let ls = split_lines(cs.as_slice());
    let ghost vs = views(ls@);
    let mut out: Vec<TestDecl> = Vec::new();
    let mut idx: usize = 0;
    assert(decl_views(out@) =~= Seq::<(Seq<char>, Seq<char>, u32)>::empty());
    while idx < ls.len()
        invariant
            idx <= ls@.len(),
            vs == views(ls@),
            vs == lines(source@),
            decl_views(out@) + scan_tests(vs, idx as nat) == scan_tests(vs, 0),
        decreases ls@.len() - idx,
    {
        let ghost before = decl_views(out@);
        let line = trim_start_chars(ls[idx].as_slice());
        if !is_marker_chars(line.as_slice()) {
            idx = idx + 1;
            continue;
        }
        proof {
            if starts_with(line@, "// @test"@) {
                reveal_strlit("// @test");
                assert(line@.take(8) == "// @test"@);
                assert(line@[0] == line@.take(8)[0]);
                assert(line@[1] == line@.take(8)[1]);
            }
        }
        let comment = comment_chars(line.as_slice());
        let custom = name_attr_chars(comment.as_slice());
        let len = ls.len();
        let max = if len - (idx + 1) >= SEARCH_WINDOW {
            idx + 1 + SEARCH_WINDOW
        } else {
            len
        };
        let mut j = idx + 1;
        let slashes = chars_of("//");
        let kw = chars_of("func ");
        let mut found: Option<usize> = None;
        while j < max
            invariant_except_break
                found is None,
            invariant
                idx < j <= max <= ls@.len(),
                max == window_end(ls@.len(), idx as nat),
                vs == views(ls@),
                slashes@ == "//"@,
                kw@ == "func "@,
                search_func(vs, j as nat, max as nat) == search_func(vs, (idx + 1) as nat, max as nat),
            ensures
                found matches Some(k) ==> search_func(vs, (idx + 1) as nat, max as nat) == Some(k as nat)
                    && idx < k < ls@.len(),
                found is None ==> search_func(vs, (idx + 1) as nat, max as nat) is None,
            decreases max - j,
        {
            let l = trim_start_chars(ls[j].as_slice());
            if starts_with_chars(l.as_slice(), kw.as_slice()) {
                found = Some(j);
                break;
            }
            if l.len() != 0 && !starts_with_chars(l.as_slice(), slashes.as_slice()) {
                break;
            }
            j = j + 1;
        }
        match found {
            Some(j) => {
                let l = trim_start_chars(ls[j].as_slice());
                match func_name_chars(l.as_slice()) {
                    Some(f) => {
                        let name = match &custom {
                            Some(n) => string_of(n.as_slice()),
                            None => string_of(f.as_slice()),
                        };
                        let d = TestDecl { name, func_name: string_of(f.as_slice()), func_line: (j + 1) as u32 };
                        out.push(d);
                        assert(decl_views(out@) =~= before.push(d@));
                    },
                    None => {},
                }
            },
            None => {},
        }
        idx = idx + 1;
    }
    assert(decl_views(out@) + Seq::<(Seq<char>, Seq<char>, u32)>::empty() == decl_views(out@));
    out
}

// ---------------------------------------------------------------------
// Command line
// ---------------------------------------------------------------------

/// Options of the test runner.
#[derive(Debug, Clone)]
pub struct CliOpts {
    pub target: Option<String>,
    pub filter: Option<String>,
    pub show_help: bool,
    pub show_version: bool,
}

/// The options as sequences.
#[verifier::ext_equal]
pub struct OptsView {
    pub target: Option<Seq<char>>,
    pub filter: Option<Seq<char>>,
    pub show_help: bool,
    pub show_version: bool,
}

pub open spec fn opt_view(o: Option<String>) -> Option<Seq<char>> {
    match o {
        Some(s) => Some(s@),
        None => None,
    }
}

impl View for CliOpts {
    type V = OptsView;

    open spec fn view(&self) -> OptsView {
        OptsView {
            target: opt_view(self.target),
            filter: opt_view(self.filter),
            show_help: self.show_help,
            show_version: self.show_version,
        }
    }
}

pub open spec fn string_views(v: Seq<String>) -> Seq<Seq<char>> {
    v.map_values(|s: String| s@)
}

/// An option word the runner does not know: `--` anything, or `-` and more.
pub open spec fn is_unknown_flag(a: Seq<char>) -> bool {
    starts_with(a, "--"@) || (starts_with(a, "-"@) && a.len() > 1)
}

/// The options given by the arguments from `i` on, over `o`; or the error.
pub open spec fn args_from(args: Seq<Seq<char>>, i: nat, o: OptsView) -> Result<OptsView, Seq<char>>
    decreases args.len() - i,
{
    if i >= args.len() {
        Ok(o)
    } else {
        let a = args[i as int];
        if a == "-h"@ || a == "--help"@ {
            args_from(args, i + 1, OptsView { show_help: true, ..o })
        } else if a == "-V"@ || a == "--version"@ {
            args_from(args, i + 1, OptsView { show_version: true, ..o })
        } else if a == "--filter"@ {
            if i + 1 >= args.len() {
                Err("--filter 需要参数"@)
            } else {
                args_from(args, i + 2, OptsView { filter: Some(args[i + 1 as int]), ..o })
            }
        } else if is_unknown_flag(a) {
            Err("未知选项: "@ + a)
        } else if o.target is Some {
            Err("只支持单个目标参数（目录或文件）"@)
        } else {
            args_from(args, i + 1, OptsView { target: Some(a), ..o })
        }
    }
}

pub open spec fn no_opts() -> OptsView {
    OptsView { target: None, filter: None, show_help: false, show_version: false }
}

/// Reads the runner's arguments (the first is the program name): `-h`/`--help`,
/// `-V`/`--version`, `--filter <substr>`, and at most one target.
pub fn parse_args(args: &[String]) -> (r: Result<CliOpts, String>)
    ensures
        r matches Ok(o) ==> args_from(string_views(args@), 1, no_opts()) == Ok::<OptsView, Seq<char>>(o@),
        r matches Err(e) ==> args_from(string_views(args@), 1, no_opts()) == Err::<OptsView, Seq<char>>(e@),
{
    let ghost av = string_views(args@);
    let mut opts = CliOpts { target: None, filter: None, show_help: false, show_version: false };
    let mut i: usize = 1;
    assert(opts@ =~= no_opts());
    if args.len() == 0 {
        return Ok(opts);
    }
    while i < args.len()
        invariant
            1 <= i <= args@.len() + 1,
            av == string_views(args@),
            args_from(av, 1, no_opts()) == args_from(av, i as nat, opts@),
        decreases args@.len() + 1 - i,
    {
        let a = chars_of(args[i].as_str());
        assert(a@ == av[i as int]);
        let ghost o = opts@;
        if spells(a.as_slice(), "-h") || spells(a.as_slice(), "--help") {
            opts.show_help = true;
            assert(opts@ =~= OptsView { show_help: true, ..o });
            i = i + 1;
        } else if spells(a.as_slice(), "-V") || spells(a.as_slice(), "--version") {
            opts.show_version = true;
            assert(opts@ =~= OptsView { show_version: true, ..o });
            i = i + 1;
        } else if spells(a.as_slice(), "--filter") {
            if i + 1 >= args.len() {
                return Err("--filter 需要参数".to_owned());
            }
            opts.filter = Some(args[i + 1].clone());
            assert(opts@ =~= OptsView { filter: Some(av[i + 1]), ..o });
            i = i + 2;
        } else if starts_with_chars(a.as_slice(), chars_of("--").as_slice()) || (starts_with_chars(
            a.as_slice(),
            chars_of("-").as_slice(),
        ) && a.len() > 1) {
            let mut msg = String::new();
            crate::text::push_str(&mut msg, "未知选项: ");
            crate::text::push_str(&mut msg, args[i].as_str());
            return Err(msg);
        } else {
            if opts.target.is_some() {
                return Err("只支持单个目标参数（目录或文件）".to_owned());
            }
            opts.target = Some(args[i].clone());
            assert(opts@ =~= OptsView { target: Some(av[i as int]), ..o });
            i = i + 1;
        }
    }
    Ok(opts)
}

/// Does `name` contain `needle` (the runner's `--filter`)?
pub open spec fn contains_seq(name: Seq<char>, needle: Seq<char>) -> bool {
    exists|i: int| 0 <= i <= name.len() - needle.len() && #[trigger] name.subrange(i, i + needle.len()) == needle
}

/// Is the test named `name` selected by the filter (every test is, without one)?
pub fn name_matches(name: &str, filter: &Option<String>) -> (r: bool)
    ensures
        r == match filter {
            Some(f) => contains_seq(name@, f@),
            None => true,
        },
{
    match filter {
        None => true,
        Some(f) => {
            let n = chars_of(name);
            let p = chars_of(f.as_str());
            if p.len() > n.len() {
                return false;
            }
            let last = n.len() - p.len();
            let mut i: usize = 0;
            loop
                invariant
                    p@.len() <= n@.len(),
                    last == n@.len() - p@.len(),
                    i <= last,
                    n@ == name@,
                    p@ == f@,
                    *filter == Some(*f),
                    forall|k: int| 0 <= k < i ==> #[trigger] n@.subrange(k, k + p@.len()) != p@,
                decreases last - i,
            {
                assert(n@.subrange(i as int, i + p@.len()) =~= n@.skip(i as int).take(p@.len() as int));
                if crate::text::starts_with_at(n.as_slice(), i, p.as_slice()) {
                    assert(name@.subrange(i as int, i + f@.len()) == f@);
                    return true;
                }
                if i == last {
                    assert forall|k: int| 0 <= k <= name@.len() - f@.len() implies #[trigger] name@.subrange(k, k + f@.len()) != f@ by {
                        assert(n@.subrange(k, k + p@.len()) != p@);
                    }
                    return false;
                }
                i = i + 1;
            }
        },
    }
}

// ---------------------------------------------------------------------
// Indentation does not matter
// ---------------------------------------------------------------------

/// Blanks put before a line are skipped with its own.
pub proof fn lemma_trim_start_indented(ws: Seq<char>, s: Seq<char>)
    requires
        forall|k: int| 0 <= k < ws.len() ==> is_ws(#[trigger] ws[k]),
    ensures
        trim_start(ws + s) == trim_start(s),
    decreases ws.len(),
{
    if ws.len() == 0 {
        assert(ws + s =~= s);
    } else {
        let rest = ws.drop_first();
        lemma_trim_start_indented(rest, s);
        assert((ws + s).drop_first() =~= rest + s);
        assert(is_ws(ws[0]));
        assert(lead_ws(ws + s) == 1 + lead_ws(rest + s));
        lemma_lead_ws_bound(rest + s);
        assert((ws + s).skip(lead_ws(ws + s) as int) =~= (rest + s).skip(lead_ws(rest + s) as int));
    }
}

proof fn lemma_search_same_trim(ls: Seq<Seq<char>>, ks: Seq<Seq<char>>, j: nat, max: nat)
    requires
        ls.len() == ks.len(),
        max <= ls.len(),
        forall|k: int| 0 <= k < ls.len() ==> trim_start(#[trigger] ls[k]) == trim_start(ks[k]),
    ensures
        search_func(ls, j, max) == search_func(ks, j, max),
        search_func(ls, j, max) matches Some(r) ==> j <= r < max,
    decreases max - j,
{
    if j < max {
        assert(trim_start(ls[j as int]) == trim_start(ks[j as int]));
        lemma_search_same_trim(ls, ks, j + 1, max);
    }
}

proof fn lemma_scan_same_trim(ls: Seq<Seq<char>>, ks: Seq<Seq<char>>, i: nat)
    requires
        ls.len() == ks.len(),
        forall|k: int| 0 <= k < ls.len() ==> trim_start(#[trigger] ls[k]) == trim_start(ks[k]),
    ensures
        scan_tests(ls, i) == scan_tests(ks, i),
    decreases ls.len() - i,
{
    if i < ls.len() {
        assert(trim_start(ls[i as int]) == trim_start(ks[i as int]));
        lemma_search_same_trim(ls, ks, i + 1, window_end(ls.len(), i));
        match search_func(ls, i + 1, window_end(ls.len(), i)) {
            Some(j) => {
                assert(trim_start(ls[j as int]) == trim_start(ks[j as int]));
            },
            None => {},
        }
        assert(decl_at(ls, i) == decl_at(ks, i));
        lemma_scan_same_trim(ls, ks, i + 1);
    }
}

/// The tests found in a source depend on its lines only as they read after their
/// leading blanks: two sources with as many lines, equal line by line once
/// those blanks are skipped, declare the same tests at the same lines.
pub proof fn lemma_tests_ignore_indent(ls: Seq<Seq<char>>, ks: Seq<Seq<char>>)
    requires
        ls.len() == ks.len(),
        forall|k: int| 0 <= k < ls.len() ==> trim_start(#[trigger] ls[k]) == trim_start(ks[k]),
    ensures
        scan_tests(ls, 0) == scan_tests(ks, 0),
{
    lemma_scan_same_trim(ls, ks, 0);
}

/// Indenting any one line (a marker, the `func` line after it, a line between)
/// by any run of blanks leaves the tests that are found unchanged.
pub proof fn lemma_reindent_line(ls: Seq<Seq<char>>, j: int, ws: Seq<char>)
    requires
        0 <= j < ls.len(),
        forall|k: int| 0 <= k < ws.len() ==> is_ws(#[trigger] ws[k]),
    ensures
        scan_tests(ls.update(j, ws + ls[j]), 0) == scan_tests(ls, 0),
{
    let ks = ls.update(j, ws + ls[j]);
    lemma_trim_start_indented(ws, ls[j]);
    assert forall|k: int| 0 <= k < ks.len() implies trim_start(#[trigger] ks[k]) == trim_start(ls[k]) by {
        if k == j {
            lemma_trim_start_indented(ws, ls[j]);
        }
    }
    lemma_tests_ignore_indent(ks, ls);
}

/// A line that reads `// @test` after its blanks, directly followed by one that
/// reads `func NAME(...` after its blanks, declares the test NAME, named after
/// its function, whose `func` stands on the second of the two lines.
pub proof fn lemma_marker_then_func(ls: Seq<Seq<char>>, i: nat, name: Seq<char>, rest: Seq<char>)
    requires
        i + 1 < ls.len(),
        trim_start(ls[i as int]) == "// @test"@,
        trim_start(ls[i + 1 as int]) == "func "@ + name + "("@ + rest,
        name.len() > 0,
        forall|k: int| 0 <= k < name.len() ==> !is_ws(#[trigger] name[k]) && name[k] != '(',
    ensures
        decl_at(ls, i) == Some((name, name, (i + 2) as u32)),
{
    reveal_strlit("// @test");
    reveal_strlit("func ");
    reveal_strlit("(");
    reveal_strlit("//");
    reveal_strlit("@test");
    let marker = "// @test"@;
    assert(starts_with(marker, "// @test"@)) by {
        assert(marker.take(8) =~= marker);
    }
    assert(is_marker(marker));
    // the marker's comment is the whole line, and it names nothing
    assert(comment_start(marker) == Some(0nat));
    assert(comment_of(marker) == Some(marker)) by {
        assert(marker.skip(0) =~= marker);
    }
    assert(starts_with(marker, "//"@)) by {
        assert(marker.take(2) =~= "//"@);
    }
    let body_raw = marker.skip(2);
    assert(body_raw =~= seq![' '] + "@test"@);
    lemma_lead_ws_at(body_raw, 1);
    let body = trim_start(body_raw);
    assert(body =~= "@test"@);
    assert(starts_with(body, "@test"@)) by {
        assert(body.take(5) =~= body);
    }
    let after = body.skip(5);
    assert(after =~= Seq::<char>::empty());
    lemma_lead_ws_at(after, 0);
    assert(trim_start(after).len() == 0);
    assert(name_attr(marker) is None);
    // the function line
    let line = trim_start(ls[i + 1 as int]);
    assert(starts_with(line, "func "@)) by {
        assert(line.take(5) =~= "func "@);
    }
    let tail = name + "("@ + rest;
    assert(line.skip(5) =~= tail);
    lemma_lead_ws_at(tail, 0);
    assert(trim_start(tail) =~= tail);
    lemma_find_char_at(tail, '(', name.len());
    assert(tail.take(name.len() as int) =~= name);
    lemma_lead_ws_at(name, 0);
    assert(trim_start(name) =~= name);
    lemma_trail_ws_at(name, 0);
    assert(trim(name) =~= name);
    assert(func_name_of(line) == Some(name));
    // the search stops at once on the function line
    let max = window_end(ls.len(), i);
    assert(max >= i + 2);
    assert(search_func(ls, i + 1, max) == Some(i + 1));
}

} // verus!
