//! Unified diff between a source text and its formatted form.
//!
//! The edit script is read back from the table of longest-common-subsequence
//! lengths; hunks carry three lines of context, as `diff -u` prints them.
use vstd::prelude::*;
use crate::text::{
    starts_with, chars_eq, chars_of, dec, ends_with, ends_with_chars, lemma_lines_len, lines, push_char,
    push_chars, push_str, push_usize, split_lines, views,
};

verus! {

/// One step of an edit script.
#[derive(Debug, Clone, Copy, PartialEq, Eq, Structural)]
pub enum DiffOp {
    Keep,
    Del,
    Add,
}

pub open spec fn max_nat(x: nat, y: nat) -> nat {
    if x >= y {
        x
    } else {
        y
    }
}

/// Length of a longest common subsequence of `a[..i]` and `b[..j]`.
pub open spec fn lcs(a: Seq<Seq<char>>, b: Seq<Seq<char>>, i: nat, j: nat) -> nat
    decreases i + j,
{
    if i == 0 || j == 0 {
        0
    } else if a[i - 1] == b[j - 1] {
        lcs(a, b, (i - 1) as nat, (j - 1) as nat) + 1
    } else {
        max_nat(lcs(a, b, i, (j - 1) as nat), lcs(a, b, (i - 1) as nat, j))
    }
}

/// The edit script from `a[..i]` to `b[..j]` read back from the LCS table
/// (a kept line first, then an added line when that loses nothing, else a deleted one).
pub open spec fn edits(a: Seq<Seq<char>>, b: Seq<Seq<char>>, i: nat, j: nat) -> Seq<DiffOp>
    decreases i + j,
{
    if i == 0 && j == 0 {
        seq![]
    } else if i > 0 && j > 0 && a[i - 1] == b[j - 1] {
        edits(a, b, (i - 1) as nat, (j - 1) as nat).push(DiffOp::Keep)
    } else if j > 0 && (i == 0 || lcs(a, b, i, (j - 1) as nat) >= lcs(a, b, (i - 1) as nat, j)) {
        edits(a, b, i, (j - 1) as nat).push(DiffOp::Add)
    } else {
        edits(a, b, (i - 1) as nat, j).push(DiffOp::Del)
    }
}

/// Lines of the old text that the script consumes (kept or deleted).
pub open spec fn count_a(ops: Seq<DiffOp>) -> nat
    decreases ops.len(),
{
    if ops.len() == 0 {
        0
    } else {
        count_a(ops.drop_last()) + if ops.last() == DiffOp::Add {
            0nat
        } else {
            1nat
        }
    }
}

/// Lines of the new text that the script consumes (kept or added).
pub open spec fn count_b(ops: Seq<DiffOp>) -> nat
    decreases ops.len(),
{
    if ops.len() == 0 {
        0
    } else {
        count_b(ops.drop_last()) + if ops.last() == DiffOp::Del {
            0nat
        } else {
            1nat
        }
    }
}

/// Number of kept lines.
pub open spec fn count_keep(ops: Seq<DiffOp>) -> nat
    decreases ops.len(),
{
    if ops.len() == 0 {
        0
    } else {
        count_keep(ops.drop_last()) + if ops.last() == DiffOp::Keep {
            1nat
        } else {
            0nat
        }
    }
}

/// `ops` turns `a` into `b`: kept lines are equal, deleted lines come from `a`, added ones from `b`.
pub open spec fn transforms(ops: Seq<DiffOp>, a: Seq<Seq<char>>, b: Seq<Seq<char>>) -> bool
    decreases ops.len(),
{
    if ops.len() == 0 {
        a.len() == 0 && b.len() == 0
    } else if ops.last() == DiffOp::Keep {
        a.len() > 0 && b.len() > 0 && a.last() == b.last() && transforms(
            ops.drop_last(),
            a.drop_last(),
            b.drop_last(),
        )
    } else if ops.last() == DiffOp::Del {
        a.len() > 0 && transforms(ops.drop_last(), a.drop_last(), b)
    } else {
        b.len() > 0 && transforms(ops.drop_last(), a, b.drop_last())
    }
}

/// 1-based line number in the old text before step `k`.
pub open spec fn pos_a(ops: Seq<DiffOp>, k: int) -> nat {
    1 + count_a(ops.take(k))
}

/// 1-based line number in the new text before step `k`.
pub open spec fn pos_b(ops: Seq<DiffOp>, k: int) -> nat {
    1 + count_b(ops.take(k))
}

pub const CONTEXT: usize = 3;

/// Start of a hunk: up to three kept steps before the change at `start + back`.
pub open spec fn back_start(ops: Seq<DiffOp>, start: nat, back: nat) -> nat
    decreases start,
{
    if start > 0 && back < CONTEXT && ops[start - 1] == DiffOp::Keep {
        back_start(ops, (start - 1) as nat, back + 1)
    } else {
        start
    }
}

/// End of the run of changed steps from `e`.
pub open spec fn change_end(ops: Seq<DiffOp>, e: nat) -> nat
    decreases ops.len() - e,
{
    if e < ops.len() && ops[e as int] != DiffOp::Keep {
        change_end(ops, e + 1)
    } else {
        e
    }
}

/// Number of consecutive kept steps from `e`.
pub open spec fn keep_run(ops: Seq<DiffOp>, e: nat) -> nat
    decreases ops.len() - e,
{
    if e < ops.len() && ops[e as int] == DiffOp::Keep {
        1 + keep_run(ops, e + 1)
    } else {
        0
    }
}

/// End of the changes of the hunk whose first change is at `e`: runs of changes
/// at most `2 * CONTEXT` kept steps apart share one hunk, since their contexts
/// would touch.
pub open spec fn hunk_changes_end(ops: Seq<DiffOp>, e: nat) -> nat
    decreases ops.len() - e,
{
    if e < ops.len() && ops[e as int] != DiffOp::Keep {
        let c = change_end(ops, e);
        let k = keep_run(ops, c);
        proof {
            lemma_change_end(ops, e);
            lemma_keep_run(ops, c);
        }
        if c + k < ops.len() && k <= 2 * CONTEXT {
            hunk_changes_end(ops, c + k)
        } else {
            c
        }
    } else {
        e
    }
}

/// End of a hunk: up to three kept steps after its changes.
pub open spec fn ctx_end(ops: Seq<DiffOp>, e: nat, fwd: nat) -> nat
    decreases ops.len() - e,
{
    if e < ops.len() && fwd < CONTEXT && ops[e as int] == DiffOp::Keep {
        ctx_end(ops, e + 1, fwd + 1)
    } else {
        e
    }
}

/// One line of a hunk body.
pub open spec fn body_line(a: Seq<Seq<char>>, b: Seq<Seq<char>>, ops: Seq<DiffOp>, k: int) -> Seq<char> {
    match ops[k] {
        DiffOp::Keep => seq![' '] + a[pos_a(ops, k) - 1] + seq!['\n'],
        DiffOp::Del => seq!['-'] + a[pos_a(ops, k) - 1] + seq!['\n'],
        DiffOp::Add => seq!['+'] + b[pos_b(ops, k) - 1] + seq!['\n'],
    }
}

/// The body lines of steps `k..e`.
pub open spec fn hunk_body(a: Seq<Seq<char>>, b: Seq<Seq<char>>, ops: Seq<DiffOp>, k: nat, e: nat) -> Seq<char>
    decreases e - k,
{
    if k >= e {
        seq![]
    } else {
        body_line(a, b, ops, k as int) + hunk_body(a, b, ops, k + 1, e)
    }
}

/// `@@ -a_start,a_count +b_start,b_count @@` for steps `st..e`.
pub open spec fn hunk_header(ops: Seq<DiffOp>, st: nat, e: nat) -> Seq<char> {
    "@@ -"@ + dec(pos_a(ops, st as int)) + ","@ + dec(
        (pos_a(ops, e as int) - pos_a(ops, st as int)) as nat,
    ) + " +"@ + dec(pos_b(ops, st as int)) + ","@ + dec(
        (pos_b(ops, e as int) - pos_b(ops, st as int)) as nat,
    ) + " @@\n"@
}

/// The hunks for the changes from step `i` on.
pub open spec fn hunks(a: Seq<Seq<char>>, b: Seq<Seq<char>>, ops: Seq<DiffOp>, i: nat) -> Seq<char>
    decreases ops.len() - i,
{
    if i >= ops.len() {
        seq![]
    } else if ops[i as int] == DiffOp::Keep {
        hunks(a, b, ops, i + 1)
    } else {
        let st = back_start(ops, i, 0);
        let e = ctx_end(ops, hunk_changes_end(ops, i), 0);
        proof {
            lemma_hunk_changes_end(ops, i);
            lemma_ctx_end(ops, hunk_changes_end(ops, i), 0);
        }
        hunk_header(ops, st, e) + hunk_body(a, b, ops, st, e) + hunks(a, b, ops, e)
    }
}

/// The two header lines of a diff.
pub open spec fn diff_header(path: Seq<char>) -> Seq<char> {
    "--- "@ + path + "\n+++ "@ + path + "（qawfmt 格式化后）\n"@
}

/// The diff when both texts have the same lines and only the final newline differs:
/// a hunk on the last line `n` that adds (or removes) an empty line after it.
pub open spec fn trailing_newline_diff(path: Seq<char>, ls: Seq<Seq<char>>, adding: bool) -> Seq<char> {
    let n = ls.len();
    if n == 0 {
        diff_header(path) + "@@ -"@ + dec(
            if adding {
                0
            } else {
                1
            },
        ) + ",0 +"@ + dec(
            if adding {
                1
            } else {
                0
            },
        ) + ","@ + dec(1) + " @@\n"@
    } else if adding {
        diff_header(path) + "@@ -"@ + dec(n) + ",1 +"@ + dec(n) + ",2 @@\n "@ + ls.last()
            + "\n+\n"@
    } else {
        diff_header(path) + "@@ -"@ + dec(n) + ",2 +"@ + dec(n) + ",1 @@\n "@ + ls.last()
            + "\n-\n"@
    }
}

/// The unified diff from `src` to `dst` (empty when their lines and final newlines agree).
pub open spec fn unified_diff(path: Seq<char>, src: Seq<char>, dst: Seq<char>) -> Seq<char> {
    let a = lines(src);
    let b = lines(dst);
    let src_nl = ends_with(src, seq!['\n']);
    let dst_nl = ends_with(dst, seq!['\n']);
    if a == b && src_nl != dst_nl {
        trailing_newline_diff(path, a, !src_nl && dst_nl)
    } else if a == b {
        seq![]
    } else {
        let ops = edits(a, b, a.len(), b.len());
        diff_header(path) + hunks(a, b, ops, 0)
    }
}

// ---------------------------------------------------------------------
// Lemmas
// ---------------------------------------------------------------------

proof fn lemma_prefix(h: Seq<char>, x: Seq<char>)
    ensures
        starts_with(h + x, h),
{
    assert((h + x).take(h.len() as int) =~= h);
}

/// A diff is empty exactly when the two texts have the same lines and agree on
/// the final newline; any other diff starts with the two file header lines.
pub proof fn lemma_diff_empty_iff(path: Seq<char>, src: Seq<char>, dst: Seq<char>)
    ensures
        (unified_diff(path, src, dst).len() == 0) == (lines(src) == lines(dst) && ends_with(src, seq!['\n'])
            == ends_with(dst, seq!['\n'])),
        unified_diff(path, src, dst).len() > 0 ==> starts_with(unified_diff(path, src, dst), diff_header(path)),
{
    let a = lines(src);
    let b = lines(dst);
    let h = diff_header(path);
    let u = unified_diff(path, src, dst);
    reveal_strlit("--- ");
    assert(h.len() > 0);
    if a == b && ends_with(src, seq!['\n']) != ends_with(dst, seq!['\n']) {
        let adding = !ends_with(src, seq!['\n']) && ends_with(dst, seq!['\n']);
        let t = trailing_newline_diff(path, a, adding);
        assert(starts_with(t, h)) by {
            assert(t.take(h.len() as int) =~= h);
        }
    } else if a != b {
        lemma_prefix(h, hunks(a, b, edits(a, b, a.len(), b.len()), 0));
    }
}

pub proof fn lemma_change_end(ops: Seq<DiffOp>, e: nat)
    ensures
        e <= ops.len() ==> e <= change_end(ops, e) <= ops.len(),
        e < ops.len() && ops[e as int] != DiffOp::Keep ==> e < change_end(ops, e),
    decreases ops.len() - e,
{
    if e < ops.len() && ops[e as int] != DiffOp::Keep {
        lemma_change_end(ops, e + 1);
    }
}

pub proof fn lemma_keep_run(ops: Seq<DiffOp>, e: nat)
    ensures
        e <= ops.len() ==> e + keep_run(ops, e) <= ops.len(),
        e + keep_run(ops, e) < ops.len() ==> ops[(e + keep_run(ops, e)) as int] != DiffOp::Keep,
        forall|k: int| e <= k < e + keep_run(ops, e) ==> ops[k] == DiffOp::Keep,
    decreases ops.len() - e,
{
    if e < ops.len() && ops[e as int] == DiffOp::Keep {
        lemma_keep_run(ops, e + 1);
    }
}

pub proof fn lemma_hunk_changes_end(ops: Seq<DiffOp>, e: nat)
    ensures
        e < ops.len() && ops[e as int] != DiffOp::Keep ==> e < hunk_changes_end(ops, e) <= ops.len(),
        e < hunk_changes_end(ops, e) < ops.len() ==> ops[hunk_changes_end(ops, e) as int] == DiffOp::Keep,
    decreases ops.len() - e,
{
    if e < ops.len() && ops[e as int] != DiffOp::Keep {
        let c = change_end(ops, e);
        lemma_change_end(ops, e);
        lemma_keep_run(ops, c);
        let k = keep_run(ops, c);
        if c + k < ops.len() && k <= 2 * CONTEXT {
            lemma_hunk_changes_end(ops, c + k);
        } else {
            lemma_change_end_stop(ops, e);
        }
    }
}

pub proof fn lemma_change_end_stop(ops: Seq<DiffOp>, e: nat)
    ensures
        change_end(ops, e) < ops.len() ==> ops[change_end(ops, e) as int] == DiffOp::Keep,
    decreases ops.len() - e,
{
    if e < ops.len() && ops[e as int] != DiffOp::Keep {
        lemma_change_end_stop(ops, e + 1);
    }
}

pub proof fn lemma_ctx_end(ops: Seq<DiffOp>, e: nat, fwd: nat)
    ensures
        e <= ops.len() ==> e <= ctx_end(ops, e, fwd) <= ops.len(),
    decreases ops.len() - e,
{
    if e < ops.len() && fwd < CONTEXT && ops[e as int] == DiffOp::Keep {
        lemma_ctx_end(ops, e + 1, fwd + 1);
    }
}

pub proof fn lemma_back_start(ops: Seq<DiffOp>, start: nat, back: nat)
    ensures
        back_start(ops, start, back) <= start,
    decreases start,
{
    if start > 0 && back < CONTEXT && ops[start - 1] == DiffOp::Keep {
        lemma_back_start(ops, (start - 1) as nat, back + 1);
    }
}

proof fn lemma_lcs_le(a: Seq<Seq<char>>, b: Seq<Seq<char>>, i: nat, j: nat)
    ensures
        lcs(a, b, i, j) <= i,
        lcs(a, b, i, j) <= j,
    decreases i + j,
{
    if i > 0 && j > 0 {
        if a[i - 1] == b[j - 1] {
            lemma_lcs_le(a, b, (i - 1) as nat, (j - 1) as nat);
        } else {
            lemma_lcs_le(a, b, i, (j - 1) as nat);
            lemma_lcs_le(a, b, (i - 1) as nat, j);
        }
    }
}

/// The script read back from the table consumes exactly `a[..i]` and `b[..j]`.
proof fn lemma_edits_counts(a: Seq<Seq<char>>, b: Seq<Seq<char>>, i: nat, j: nat)
    requires
        i <= a.len(),
        j <= b.len(),
    ensures
        count_a(edits(a, b, i, j)) == i,
        count_b(edits(a, b, i, j)) == j,
        edits(a, b, i, j).len() <= i + j,
    decreases i + j,
{
    let ops = edits(a, b, i, j);
    if !(i == 0 && j == 0) {
        if i > 0 && j > 0 && a[i - 1] == b[j - 1] {
            lemma_edits_counts(a, b, (i - 1) as nat, (j - 1) as nat);
            assert(ops.drop_last() == edits(a, b, (i - 1) as nat, (j - 1) as nat));
        } else if j > 0 && (i == 0 || lcs(a, b, i, (j - 1) as nat) >= lcs(a, b, (i - 1) as nat, j)) {
            lemma_edits_counts(a, b, i, (j - 1) as nat);
            assert(ops.drop_last() == edits(a, b, i, (j - 1) as nat));
        } else {
            lemma_edits_counts(a, b, (i - 1) as nat, j);
            assert(ops.drop_last() == edits(a, b, (i - 1) as nat, j));
        }
    }
}

/// The diff's edit script is correct and minimal: it turns `a` into `b`, and the lines it
/// keeps form a longest common subsequence of the two.
pub proof fn lemma_edits_minimal(a: Seq<Seq<char>>, b: Seq<Seq<char>>, i: nat, j: nat)
    requires
        i <= a.len(),
        j <= b.len(),
    ensures
        transforms(edits(a, b, i, j), a.take(i as int), b.take(j as int)),
        count_keep(edits(a, b, i, j)) == lcs(a, b, i, j),
    decreases i + j,
{
    let ops = edits(a, b, i, j);
    if i == 0 && j == 0 {
    } else if i > 0 && j > 0 && a[i - 1] == b[j - 1] {
        lemma_edits_minimal(a, b, (i - 1) as nat, (j - 1) as nat);
        assert(ops.drop_last() == edits(a, b, (i - 1) as nat, (j - 1) as nat));
        assert(a.take(i as int).drop_last() == a.take(i - 1));
        assert(b.take(j as int).drop_last() == b.take(j - 1));
    } else if j > 0 && (i == 0 || lcs(a, b, i, (j - 1) as nat) >= lcs(a, b, (i - 1) as nat, j)) {
        lemma_edits_minimal(a, b, i, (j - 1) as nat);
        assert(ops.drop_last() == edits(a, b, i, (j - 1) as nat));
        assert(b.take(j as int).drop_last() == b.take(j - 1));
        if i == 0 {
            lemma_lcs_le(a, b, i, (j - 1) as nat);
        }
    } else {
        lemma_edits_minimal(a, b, (i - 1) as nat, j);
        assert(ops.drop_last() == edits(a, b, (i - 1) as nat, j));
        assert(a.take(i as int).drop_last() == a.take(i - 1));
        if j == 0 {
            lemma_lcs_le(a, b, (i - 1) as nat, j);
        }
    }
}

proof fn lemma_count_step(ops: Seq<DiffOp>, k: int)
    requires
        0 <= k < ops.len(),
    ensures
        count_a(ops.take(k + 1)) == count_a(ops.take(k)) + if ops[k] == DiffOp::Add {
            0nat
        } else {
            1nat
        },
        count_b(ops.take(k + 1)) == count_b(ops.take(k)) + if ops[k] == DiffOp::Del {
            0nat
        } else {
            1nat
        },
{
    assert(ops.take(k + 1).drop_last() == ops.take(k));
    assert(ops.take(k + 1).last() == ops[k]);
}

proof fn lemma_count_mono(ops: Seq<DiffOp>, k: int, l: int)
    requires
        0 <= k <= l <= ops.len(),
    ensures
        count_a(ops.take(k)) <= count_a(ops.take(l)),
        count_b(ops.take(k)) <= count_b(ops.take(l)),
    decreases l - k,
{
    if k < l {
        lemma_count_mono(ops, k, l - 1);
        lemma_count_step(ops, l - 1);
    }
}

/// Every line that a step of the diff's script refers to exists.
proof fn lemma_body_in_bounds(a: Seq<Seq<char>>, b: Seq<Seq<char>>, k: int)
    requires
        0 <= k < edits(a, b, a.len(), b.len()).len(),
    ensures
        ({
            let ops = edits(a, b, a.len(), b.len());
            &&& ops[k] != DiffOp::Add ==> 1 <= pos_a(ops, k) <= a.len()
            &&& ops[k] != DiffOp::Del ==> 1 <= pos_b(ops, k) <= b.len()
        }),
{
    let ops = edits(a, b, a.len(), b.len());
    lemma_edits_counts(a, b, a.len(), b.len());
    lemma_count_step(ops, k);
    lemma_count_mono(ops, k + 1, ops.len() as int);
    assert(ops.take(ops.len() as int) == ops);
}

// ---------------------------------------------------------------------
// Executable
// ---------------------------------------------------------------------

fn lines_eq(a: &Vec<Vec<char>>, b: &Vec<Vec<char>>) -> (r: bool)
    ensures
        r == (views(a@) == views(b@)),
{
    if a.len() != b.len() {
        assert(views(a@).len() != views(b@).len());
        return false;
    }
    let mut i: usize = 0;
    while i < a.len()
        invariant
            a@.len() == b@.len(),
            i <= a@.len(),
            forall|k: int| 0 <= k < i ==> views(a@)[k] == views(b@)[k],
        decreases a@.len() - i,
    {
        if !chars_eq(a[i].as_slice(), b[i].as_slice()) {
            assert(views(a@)[i as int] != views(b@)[i as int]);
            return false;
        }
        i = i + 1;
    }
    assert(views(a@) =~= views(b@));
    true
}

/// The table of LCS lengths: `dp[i][j]` is the LCS length of `a[..i]` and `b[..j]`.
fn lcs_table(a: &Vec<Vec<char>>, b: &Vec<Vec<char>>) -> (dp: Vec<Vec<usize>>)
    ensures
        dp@.len() == a@.len() + 1,
        forall|i: int| 0 <= i <= a@.len() ==> #[trigger] dp@[i]@.len() == b@.len() + 1,
        forall|i: int, j: int|
            0 <= i <= a@.len() && 0 <= j <= b@.len() ==> #[trigger] dp@[i]@[j] == lcs(
                views(a@),
                views(b@),
                i as nat,
                j as nat,
            ),
{
    let ghost va = views(a@);
    let ghost vb = views(b@);
    let n = a.len();
    let m = b.len();
    let mut dp: Vec<Vec<usize>> = Vec::new();
    let mut row0: Vec<usize> = Vec::new();
    row0.push(0);
    let mut j: usize = 0;
    while j < m
        invariant
            j <= m,
            m == b@.len(),
            row0@.len() == j + 1,
            forall|k: int| 0 <= k <= j ==> row0@[k] == 0,
        decreases m - j,
    {
        row0.push(0);
        j = j + 1;
    }
    proof {
        assert forall|c: int| 0 <= c <= m implies #[trigger] row0@[c] == lcs(va, vb, 0, c as nat) by {}
    }
    dp.push(row0);
    let mut i: usize = 0;
    while i < n
        invariant
            i <= n,
            n == a@.len(),
            m == b@.len(),
            va == views(a@),
            vb == views(b@),
            dp@.len() == i + 1,
            forall|r: int| 0 <= r <= i ==> #[trigger] dp@[r]@.len() == m + 1,
            forall|r: int, c: int|
                0 <= r <= i && 0 <= c <= m ==> #[trigger] dp@[r]@[c] == lcs(va, vb, r as nat, c as nat),
        decreases n - i,
    {
        let prev = &dp[i];
        let mut cur: Vec<usize> = Vec::new();
        cur.push(0);
        let mut j: usize = 0;
        while j < m
            invariant
                i < n,
                j <= m,
                n == a@.len(),
                m == b@.len(),
                va == views(a@),
                vb == views(b@),
                prev@.len() == m + 1,
                forall|c: int| 0 <= c <= m ==> #[trigger] prev@[c] == lcs(va, vb, i as nat, c as nat),
                cur@.len() == j + 1,
                forall|c: int| 0 <= c <= j ==> #[trigger] cur@[c] == lcs(va, vb, (i + 1) as nat, c as nat),
            decreases m - j,
        {
            proof {
                lemma_lcs_le(va, vb, (i + 1) as nat, (j + 1) as nat);
                lemma_lcs_le(va, vb, i as nat, j as nat);
                assert(va[i as int] == a@[i as int]@);
                assert(vb[j as int] == b@[j as int]@);
            }
            let v = if chars_eq(a[i].as_slice(), b[j].as_slice()) {
                prev[j] + 1
            } else {
                let l = cur[j];
                let u = prev[j + 1];
                if l >= u {
                    l
                } else {
                    u
                }
            };
            cur.push(v);
            j = j + 1;
        }
        dp.push(cur);
        i = i + 1;
    }
    dp
}

/// The edit script read back from the LCS table.
fn build_edits(a: &Vec<Vec<char>>, b: &Vec<Vec<char>>, dp: &Vec<Vec<usize>>) -> (ops: Vec<DiffOp>)
    requires
        dp@.len() == a@.len() + 1,
        forall|i: int| 0 <= i <= a@.len() ==> #[trigger] dp@[i]@.len() == b@.len() + 1,
        forall|i: int, j: int|
            0 <= i <= a@.len() && 0 <= j <= b@.len() ==> #[trigger] dp@[i]@[j] == lcs(
                views(a@),
                views(b@),
                i as nat,
                j as nat,
            ),
    ensures
        ops@ == edits(views(a@), views(b@), a@.len(), b@.len()),
{
    let ghost va = views(a@);
    let ghost vb = views(b@);
    let mut rev: Vec<DiffOp> = Vec::new();
    let mut i = a.len();
    let mut j = b.len();
    while i > 0 || j > 0
        invariant
            i <= a@.len(),
            j <= b@.len(),
            va == views(a@),
            vb == views(b@),
            dp@.len() == a@.len() + 1,
            forall|r: int| 0 <= r <= a@.len() ==> #[trigger] dp@[r]@.len() == b@.len() + 1,
            forall|r: int, c: int|
                0 <= r <= a@.len() && 0 <= c <= b@.len() ==> #[trigger] dp@[r]@[c] == lcs(
                    va,
                    vb,
                    r as nat,
                    c as nat,
                ),
            edits(va, vb, a@.len(), b@.len()) == edits(va, vb, i as nat, j as nat) + rev@.reverse(),
        decreases i + j,
    {
        let ghost before = rev@;
        let ghost e = edits(va, vb, i as nat, j as nat);
        if i > 0 && j > 0 && chars_eq(a[i - 1].as_slice(), b[j - 1].as_slice()) {
            proof {
                assert(va[i - 1] == a@[i - 1]@);
                assert(vb[j - 1] == b@[j - 1]@);
            }
            rev.push(DiffOp::Keep);
            i = i - 1;
            j = j - 1;
        } else if j > 0 && (i == 0 || dp[i][j - 1] >= dp[i - 1][j]) {
            proof {
                if i > 0 {
                    assert(va[i - 1] == a@[i - 1]@);
                    assert(vb[j - 1] == b@[j - 1]@);
                }
            }
            rev.push(DiffOp::Add);
            j = j - 1;
        } else {
            proof {
                if i > 0 && j > 0 {
                    assert(va[i - 1] == a@[i - 1]@);
                    assert(vb[j - 1] == b@[j - 1]@);
                }
            }
            rev.push(DiffOp::Del);
            i = i - 1;
        }
        proof {
            let e2 = edits(va, vb, i as nat, j as nat);
            assert(e == e2.push(rev@.last()));
            assert(rev@.reverse() =~= seq![rev@.last()] + before.reverse());
            assert(e + before.reverse() =~= e2 + rev@.reverse());
        }
    }
    let mut ops: Vec<DiffOp> = Vec::new();
    let mut k = rev.len();
    while k > 0
        invariant
            k <= rev@.len(),
            ops@ == rev@.skip(k as int).reverse(),
        decreases k,
    {
        k = k - 1;
        ops.push(rev[k]);
        proof {
            assert(rev@.skip(k as int).reverse() =~= rev@.skip(k + 1).reverse().push(rev@[k as int]));
        }
    }
    assert(rev@.skip(0) == rev@);
    assert(edits(va, vb, 0, 0) == Seq::<DiffOp>::empty());
    assert(edits(va, vb, a@.len(), b@.len()) =~= rev@.reverse());
    ops
}


/// The diff for texts whose lines agree and whose final newlines differ.
/// `adding`: the old text lacks the final newline that the new one has.
fn render_trailing_newline_diff(path: &str, ls: &Vec<Vec<char>>, adding: bool) -> (r: String)
    ensures
        r@ == trailing_newline_diff(path@, views(ls@), adding),
{
    let mut s = String::new();
    push_str(&mut s, "--- ");
    push_str(&mut s, path);
    push_str(&mut s, "\n+++ ");
    push_str(&mut s, path);
    push_str(&mut s, "（qawfmt 格式化后）\n");
    let n = ls.len();
    if n == 0 {
        let (a_n, b_n): (usize, usize) = if adding {
            (0, 1)
        } else {
            (1, 0)
        };
        push_str(&mut s, "@@ -");
        push_usize(&mut s, a_n);
        push_str(&mut s, ",0 +");
        push_usize(&mut s, b_n);
        push_str(&mut s, ",");
        push_usize(&mut s, 1);
        push_str(&mut s, " @@\n");
        assert(s@ =~= trailing_newline_diff(path@, views(ls@), adding));
        return s;
    }
    let last = &ls[n - 1];
    assert(last@ == views(ls@).last());
    if adding {
        push_str(&mut s, "@@ -");
        push_usize(&mut s, n);
        push_str(&mut s, ",1 +");
        push_usize(&mut s, n);
        push_str(&mut s, ",2 @@\n ");
        push_chars(&mut s, last.as_slice());
        push_str(&mut s, "\n+\n");
    } else {
        push_str(&mut s, "@@ -");
        push_usize(&mut s, n);
        push_str(&mut s, ",2 +");
        push_usize(&mut s, n);
        push_str(&mut s, ",1 @@\n ");
        push_chars(&mut s, last.as_slice());
        push_str(&mut s, "\n-\n");
    }
    assert(s@ =~= trailing_newline_diff(path@, views(ls@), adding));
    s
}

/// Renders the unified diff (three lines of context) that turns `src` into `dst`.
#[verifier::rlimit(40)]
pub fn render_unified_diff(path: &str, src: &str, dst: &str) -> (r: String)
    requires
        src@.len() + dst@.len() < usize::MAX,
    ensures
        r@ == unified_diff(path@, src@, dst@),
{
    let src_cs = chars_of(src);
    let dst_cs = chars_of(dst);
    let a = split_lines(src_cs.as_slice());
    let b = split_lines(dst_cs.as_slice());
    let nl = vec!['\n'];
    assert(nl@ =~= seq!['\n']);
    let src_nl = ends_with_chars(src_cs.as_slice(), nl.as_slice());
    let dst_nl = ends_with_chars(dst_cs.as_slice(), nl.as_slice());
    proof {
        lemma_lines_len(src@);
        lemma_lines_len(dst@);
    }
    let same = lines_eq(&a, &b);
    if same && src_nl != dst_nl {
        return render_trailing_newline_diff(path, &a, !src_nl && dst_nl);
    }
    if same {
        return String::new();
    }
    let ghost va = views(a@);
    let ghost vb = views(b@);
    let dp = lcs_table(&a, &b);
    let ops = build_edits(&a, &b, &dp);
    let n = ops.len();
    proof {
        lemma_edits_counts(va, vb, va.len(), vb.len());
    }
    // pa[k], pb[k]: 1-based line numbers before step k
    let mut pa: Vec<usize> = Vec::new();
    let mut pb: Vec<usize> = Vec::new();
    pa.push(1);
    pb.push(1);
    let mut k: usize = 0;
    while k < n
        invariant
            k <= n,
            n == ops@.len(),
            ops@ == edits(va, vb, va.len(), vb.len()),
            n <= va.len() + vb.len(),
            va.len() == a@.len(),
            vb.len() == b@.len(),
            va.len() < usize::MAX,
            vb.len() < usize::MAX,
            count_a(ops@) == va.len(),
            count_b(ops@) == vb.len(),
            pa@.len() == k + 1,
            pb@.len() == k + 1,
            forall|t: int| 0 <= t <= k ==> #[trigger] pa@[t] == pos_a(ops@, t),
            forall|t: int| 0 <= t <= k ==> #[trigger] pb@[t] == pos_b(ops@, t),
        decreases n - k,
    {
        proof {
            lemma_count_step(ops@, k as int);
            lemma_count_mono(ops@, k + 1, n as int);
            assert(ops@.take(n as int) == ops@);
            assert(ops@.take(0) == Seq::<DiffOp>::empty());
        }
        let x = pa[k];
        let y = pb[k];
        match ops[k] {
            DiffOp::Keep => {
                pa.push(x + 1);
                pb.push(y + 1);
            },
            DiffOp::Del => {
                pa.push(x + 1);
                pb.push(y);
            },
            DiffOp::Add => {
                pa.push(x);
                pb.push(y + 1);
            },
        }
        k = k + 1;
    }
    assert(ops@.take(0) == Seq::<DiffOp>::empty());
    let mut out = String::new();
    push_str(&mut out, "--- ");
    push_str(&mut out, path);
    push_str(&mut out, "\n+++ ");
    push_str(&mut out, path);
    push_str(&mut out, "（qawfmt 格式化后）\n");
    let ghost head = out@;
    assert(head =~= diff_header(path@));
    let mut i: usize = 0;
    while i < n
        invariant
            i <= n,
            n == ops@.len(),
            ops@ == edits(va, vb, va.len(), vb.len()),
            va == views(a@),
            vb == views(b@),
            pa@.len() == n + 1,
            pb@.len() == n + 1,
            forall|t: int| 0 <= t <= n ==> #[trigger] pa@[t] == pos_a(ops@, t),
            forall|t: int| 0 <= t <= n ==> #[trigger] pb@[t] == pos_b(ops@, t),
            head + hunks(va, vb, ops@, 0) == out@ + hunks(va, vb, ops@, i as nat),
        decreases n - i,
    {
        if ops[i] == DiffOp::Keep {
            i = i + 1;
            continue;
        }
        let ghost gi = i as nat;
        // context before
        let mut start = i;
        let mut back: usize = 0;
        while start > 0 && back < CONTEXT && ops[start - 1] == DiffOp::Keep
            invariant
                start <= i < n,
                n == ops@.len(),
                back <= CONTEXT,
                back_start(ops@, start as nat, back as nat) == back_start(ops@, gi, 0),
            decreases start,
        {
            start = start - 1;
            back = back + 1;
        }
        // the changes, with the changes that follow within twice the context
        let mut end = i;
        loop
            invariant_except_break
                i <= end < n,
                ops@[end as int] != DiffOp::Keep,
                hunk_changes_end(ops@, end as nat) == hunk_changes_end(ops@, gi),
            invariant
                n == ops@.len(),
                i < n,
                ops@[gi as int] != DiffOp::Keep,
            ensures
                i < end <= n,
                end == hunk_changes_end(ops@, gi),
            decreases n - end,
        {
            let ghost ge = end as nat;
            proof {
                lemma_change_end(ops@, ge);
                lemma_keep_run(ops@, change_end(ops@, ge));
                lemma_hunk_changes_end(ops@, gi);
            }
            while end < n && ops[end] != DiffOp::Keep
                invariant
                    ge <= end <= n,
                    n == ops@.len(),
                    change_end(ops@, end as nat) == change_end(ops@, ge),
                decreases n - end,
            {
                end = end + 1;
            }
            let mut k: usize = 0;
            while end + k < n && ops[end + k] == DiffOp::Keep
                invariant
                    end + k <= n,
                    n == ops@.len(),
                    end == change_end(ops@, ge),
                    k + keep_run(ops@, (end + k) as nat) == keep_run(ops@, end as nat),
                decreases n - (end + k),
            {
                k = k + 1;
            }
            if end + k < n && k <= 2 * CONTEXT {
                end = end + k;
            } else {
                break;
            }
        }
        let ghost ce = end as nat;
        // context after
        let mut fwd: usize = 0;
        while end < n && fwd < CONTEXT && ops[end] == DiffOp::Keep
            invariant
                i <= end <= n,
                n == ops@.len(),
                fwd <= CONTEXT,
                ctx_end(ops@, end as nat, fwd as nat) == ctx_end(ops@, ce, 0),
            decreases n - end,
        {
            end = end + 1;
            fwd = fwd + 1;
        }
        proof {
            lemma_back_start(ops@, gi, 0);
            lemma_hunk_changes_end(ops@, gi);
            assert(i < end);
        }
        let a_start = pa[start];
        let b_start = pb[start];
        proof {
            lemma_count_mono(ops@, start as int, end as int);
        }
        let a_count = pa[end] - pa[start];
        let b_count = pb[end] - pb[start];
        let ghost before_hunk = out@;
        push_str(&mut out, "@@ -");
        push_usize(&mut out, a_start);
        push_str(&mut out, ",");
        push_usize(&mut out, a_count);
        push_str(&mut out, " +");
        push_usize(&mut out, b_start);
        push_str(&mut out, ",");
        push_usize(&mut out, b_count);
        push_str(&mut out, " @@\n");
        assert(out@ == before_hunk + hunk_header(ops@, start as nat, end as nat));
        let ghost after_header = out@;
        let mut kk = start;
        while kk < end
            invariant
                start <= kk <= end <= n,
                n == ops@.len(),
                ops@ == edits(va, vb, va.len(), vb.len()),
                va == views(a@),
                vb == views(b@),
                pa@.len() == n + 1,
                pb@.len() == n + 1,
                forall|t: int| 0 <= t <= n ==> #[trigger] pa@[t] == pos_a(ops@, t),
                forall|t: int| 0 <= t <= n ==> #[trigger] pb@[t] == pos_b(ops@, t),
                after_header + hunk_body(va, vb, ops@, start as nat, end as nat) == out@
                    + hunk_body(va, vb, ops@, kk as nat, end as nat),
            decreases end - kk,
        {
            proof {
                lemma_body_in_bounds(va, vb, kk as int);
            }
            let ghost before_line = out@;
            match ops[kk] {
                DiffOp::Keep => {
                    let line = &a[pa[kk] - 1];
                    assert(line@ == va[pa@[kk as int] - 1]);
                    push_char(&mut out, ' ');
                    push_chars(&mut out, line.as_slice());
                    push_char(&mut out, '\n');
                    assert(out@ =~= before_line + body_line(va, vb, ops@, kk as int));
                },
                DiffOp::Del => {
                    let line = &a[pa[kk] - 1];
                    assert(line@ == va[pa@[kk as int] - 1]);
                    push_char(&mut out, '-');
                    push_chars(&mut out, line.as_slice());
                    push_char(&mut out, '\n');
                    assert(out@ =~= before_line + body_line(va, vb, ops@, kk as int));
                },
                DiffOp::Add => {
                    let line = &b[pb[kk] - 1];
                    assert(line@ == vb[pb@[kk as int] - 1]);
                    push_char(&mut out, '+');
                    push_chars(&mut out, line.as_slice());
                    push_char(&mut out, '\n');
                    assert(out@ =~= before_line + body_line(va, vb, ops@, kk as int));
                },
            }
            proof {
                assert(hunk_body(va, vb, ops@, kk as nat, end as nat) == body_line(va, vb, ops@, kk as int)
                    + hunk_body(va, vb, ops@, (kk + 1) as nat, end as nat));
            }
            kk = kk + 1;
        }
        proof {
            assert(hunks(va, vb, ops@, gi) == hunk_header(ops@, start as nat, end as nat) + hunk_body(
                va,
                vb,
                ops@,
                start as nat,
                end as nat,
            ) + hunks(va, vb, ops@, end as nat));
        }
        i = end;
    }
    assert(out@ =~= head + hunks(va, vb, ops@, 0));
    out
}

// ---------------------------------------------------------------------
// Hunks are disjoint
// ---------------------------------------------------------------------

/// After the last change of a hunk come more than `2 * CONTEXT` kept steps, or the end.
proof fn lemma_hunk_gap(ops: Seq<DiffOp>, e: nat)
    requires
        e < ops.len(),
        ops[e as int] != DiffOp::Keep,
    ensures
        ({
            let c = hunk_changes_end(ops, e);
            c + keep_run(ops, c) >= ops.len() || keep_run(ops, c) > 2 * CONTEXT
        }),
    decreases ops.len() - e,
{
    let c = change_end(ops, e);
    lemma_change_end(ops, e);
    lemma_keep_run(ops, c);
    let k = keep_run(ops, c);
    if c + k < ops.len() && k <= 2 * CONTEXT {
        lemma_hunk_gap(ops, c + k);
    }
}

proof fn lemma_ctx_end_bound(ops: Seq<DiffOp>, e: nat, fwd: nat)
    requires
        fwd <= CONTEXT,
    ensures
        ctx_end(ops, e, fwd) <= e + (CONTEXT - fwd),
    decreases ops.len() - e,
{
    if e < ops.len() && fwd < CONTEXT && ops[e as int] == DiffOp::Keep {
        lemma_ctx_end_bound(ops, e + 1, fwd + 1);
    }
}

proof fn lemma_back_start_bound(ops: Seq<DiffOp>, start: nat, back: nat)
    requires
        back <= CONTEXT,
    ensures
        back_start(ops, start, back) + (CONTEXT - back) >= start,
    decreases start,
{
    if start > 0 && back < CONTEXT && ops[start - 1] == DiffOp::Keep {
        lemma_back_start_bound(ops, (start - 1) as nat, back + 1);
    }
}

/// Hunks do not overlap: a change after a hunk opens a hunk whose leading
/// context starts after the previous hunk ends, so in consecutive headers
/// `@@ -s1,c1 +t1,d1 @@` and `@@ -s2,c2 +t2,d2 @@`, `s2 >= s1 + c1` and `t2 >= t1 + d1`.
/// Changes at most `2 * CONTEXT` kept lines apart share one hunk.
pub proof fn lemma_hunks_disjoint(ops: Seq<DiffOp>, i: nat, j: nat)
    requires
        i < ops.len(),
        ops[i as int] != DiffOp::Keep,
        ctx_end(ops, hunk_changes_end(ops, i), 0) <= j < ops.len(),
        ops[j as int] != DiffOp::Keep,
    ensures
        ({
            let st1 = back_start(ops, i, 0);
            let e1 = ctx_end(ops, hunk_changes_end(ops, i), 0);
            let st2 = back_start(ops, j, 0);
            &&& e1 < st2
            &&& pos_a(ops, st2 as int) >= pos_a(ops, st1 as int) + (pos_a(ops, e1 as int) - pos_a(
                ops,
                st1 as int,
            ))
            &&& pos_b(ops, st2 as int) >= pos_b(ops, st1 as int) + (pos_b(ops, e1 as int) - pos_b(
                ops,
                st1 as int,
            ))
        }),
{
    let c = hunk_changes_end(ops, i);
    lemma_hunk_changes_end(ops, i);
    lemma_hunk_gap(ops, i);
    lemma_keep_run(ops, c);
    lemma_ctx_end(ops, c, 0);
    lemma_ctx_end_bound(ops, c, 0);
    lemma_back_start_bound(ops, j, 0);
    lemma_back_start(ops, j, 0);
    let k = keep_run(ops, c);
    let e1 = ctx_end(ops, c, 0);
    let st2 = back_start(ops, j, 0);
    if j < c + k {
        assert(ops[j as int] == DiffOp::Keep);
    }
    assert(j >= c + k);
    assert(k > 2 * CONTEXT);
    assert(e1 < st2);
    lemma_count_mono(ops, e1 as int, st2 as int);
}

} // verus!
