//! Source formatter.
//!
//! Rules: trailing whitespace is removed from every line, runs of blank
//! lines collapse to one blank line, and a non-empty result ends with exactly
//! one newline.  Indentation, comments, string literals and names are kept.
use vstd::prelude::*;
use crate::diff::unified_diff;
use crate::text::{
    chars_of, ends_with, join, join_chars, lemma_find_char_at, lemma_find_char_bound, lemma_trail_ws_bound,
    lemma_trim_end_idem, lines, split_lines, strip_cr, string_of, trail_ws, trim_end, trim_end_chars,
    views,
};

verus! {

/// Lines after trimming their ends and collapsing runs of blank lines.
pub open spec fn collapse(ls: Seq<Seq<char>>) -> Seq<Seq<char>>
    decreases ls.len(),
{
    if ls.len() == 0 {
        seq![]
    } else {
        let r = collapse(ls.drop_last());
        let t = trim_end(ls.last());
        if t.len() == 0 && r.len() > 0 && r.last().len() == 0 {
            r
        } else {
            r.push(t)
        }
    }
}

/// The collapsed lines, with an empty last line added when the last one is not blank.
pub open spec fn formatted_lines(s: Seq<char>) -> Seq<Seq<char>> {
    let r = collapse(lines(s));
    if r.len() > 0 && r.last().len() > 0 {
        r.push(seq![])
    } else {
        r
    }
}

/// The formatted text: the formatted lines joined by newlines.
pub open spec fn format_spec(s: Seq<char>) -> Seq<char> {
    join(formatted_lines(s), seq!['\n'])
}

/// Formats source text.
pub fn format_text(src: &str) -> (r: String)
    ensures
        r@ == format_spec(src@),
{
    let cs = chars_of(src);
    let ls = split_lines(cs.as_slice());
    let mut result: Vec<Vec<char>> = Vec::new();
    let mut prev_blank = false;
    let mut i: usize = 0;
    while i < ls.len()
        invariant
            i <= ls@.len(),
            views(ls@) == lines(src@),
            views(result@) == collapse(views(ls@).take(i as int)),
            prev_blank == (result@.len() > 0 && result@.last()@.len() == 0),
        decreases ls@.len() - i,
    {
        let ghost pre = views(ls@).take(i as int);
        let trimmed = trim_end_chars(ls[i].as_slice());
        let is_blank = trimmed.len() == 0;
        proof {
            let cur = views(ls@).take(i + 1);
            assert(cur.drop_last() == pre);
            assert(cur.last() == ls@[i as int]@);
        }
        if !(is_blank && prev_blank) {
            let ghost before = views(result@);
            result.push(trimmed);
            proof {
                assert(views(result@) =~= before.push(trim_end(ls@[i as int]@)));
            }
            prev_blank = is_blank;
        }
        i = i + 1;
    }
    assert(views(ls@).take(ls@.len() as int) == views(ls@));
    if result.len() > 0 && result[result.len() - 1].len() > 0 {
        let ghost before = views(result@);
        result.push(Vec::new());
        assert(views(result@) =~= before.push(seq![]));
    }
    let nl = vec!['\n'];
    assert(nl@ =~= seq!['\n']);
    let joined = join_chars(result.as_slice(), nl.as_slice());
    string_of(joined.as_slice())
}

// ---------------------------------------------------------------------
// Idempotence
// ---------------------------------------------------------------------

/// No element contains a newline.
pub open spec fn no_newlines(xs: Seq<Seq<char>>) -> bool {
    forall|i: int, k: int| 0 <= i < xs.len() && 0 <= k < xs[i].len() ==> #[trigger] xs[i][k] != '\n'
}

/// Every element is trimmed at the end and no two consecutive elements are empty.
pub open spec fn collapsed(xs: Seq<Seq<char>>) -> bool {
    &&& forall|i: int| 0 <= i < xs.len() ==> trail_ws(#[trigger] xs[i]) == 0
    &&& forall|i: int| 0 <= i < xs.len() - 1 ==> !(#[trigger] xs[i].len() == 0 && xs[i + 1].len() == 0)
}

proof fn lemma_join_front(xs: Seq<Seq<char>>, sep: Seq<char>)
    requires
        xs.len() >= 2,
    ensures
        join(xs, sep) == xs[0] + sep + join(xs.drop_first(), sep),
    decreases xs.len(),
{
    if xs.len() == 2 {
        assert(xs.drop_first().len() == 1);
        assert(xs.drop_last().len() == 1);
        assert(join(xs.drop_first(), sep) == xs[1]);
        assert(join(xs.drop_last(), sep) == xs[0]);
    } else {
        lemma_join_front(xs.drop_last(), sep);
        assert(xs.drop_last().drop_first() == xs.drop_first().drop_last());
        assert(xs.drop_first().last() == xs.last());
        assert(xs.drop_last()[0] == xs[0]);
    }
}

proof fn lemma_lines_no_newlines(s: Seq<char>)
    ensures
        no_newlines(lines(s)),
    decreases s.len(),
{
    if s.len() > 0 {
        lemma_find_char_bound(s, '\n');
        match crate::text::find_char(s, '\n') {
            Some(i) => {
                lemma_lines_no_newlines(s.skip(i + 1 as int));
                let head = strip_cr(s.take(i as int));
                let ls = lines(s);
                let rest = lines(s.skip(i + 1 as int));
                assert(ls == seq![head] + rest);
                assert forall|a: int, k: int| 0 <= a < ls.len() && 0 <= k < ls[a].len() implies #[trigger] ls[a][k]
                    != '\n' by {
                    if a == 0 {
                        assert(ls[0] == head);
                        assert(head[k] == s[k]);
                    } else {
                        assert(ls[a] == rest[a - 1]);
                    }
                }
            },
            None => {},
        }
    }
}

proof fn lemma_collapse_props(ls: Seq<Seq<char>>)
    requires
        no_newlines(ls),
    ensures
        no_newlines(collapse(ls)),
        collapsed(collapse(ls)),
    decreases ls.len(),
{
    if ls.len() > 0 {
        let pre = ls.drop_last();
        assert(no_newlines(pre)) by {
            assert forall|i: int, k: int| 0 <= i < pre.len() && 0 <= k < pre[i].len() implies #[trigger] pre[i][k]
                != '\n' by {
                assert(pre[i] == ls[i]);
            }
        }
        lemma_collapse_props(pre);
        let r = collapse(pre);
        let t = trim_end(ls.last());
        lemma_trim_end_idem(ls.last());
        lemma_trail_ws_bound(ls.last());
        if !(t.len() == 0 && r.len() > 0 && r.last().len() == 0) {
            let r2 = r.push(t);
            assert(collapse(ls) == r2);
            assert forall|i: int, k: int| 0 <= i < r2.len() && 0 <= k < r2[i].len() implies #[trigger] r2[i][k]
                != '\n' by {
                if i < r.len() {
                    assert(r2[i] == r[i]);
                } else {
                    assert(r2[i] == t);
                    assert(t[k] == ls.last()[k]);
                    assert(ls.last() == ls[ls.len() - 1]);
                }
            }
            assert forall|i: int| 0 <= i < r2.len() implies trail_ws(#[trigger] r2[i]) == 0 by {
                if i < r.len() {
                    assert(r2[i] == r[i]);
                }
            }
            assert forall|i: int| 0 <= i < r2.len() - 1 implies !(#[trigger] r2[i].len() == 0 && r2[i
                + 1].len() == 0) by {
                if i < r.len() - 1 {
                    assert(r2[i] == r[i]);
                    assert(r2[i + 1] == r[i + 1]);
                } else {
                    assert(r2[i] == r.last());
                    assert(r2[i + 1] == t);
                }
            }
        }
    }
}

/// `lines` gives back a sequence of newline-free lines that were joined and terminated by newlines.
proof fn lemma_lines_join(xs: Seq<Seq<char>>)
    requires
        xs.len() > 0,
        no_newlines(xs),
        forall|i: int| 0 <= i < xs.len() ==> trail_ws(#[trigger] xs[i]) == 0,
    ensures
        lines(join(xs, seq!['\n']) + seq!['\n']) == xs,
    decreases xs.len(),
{
    let nl = seq!['\n'];
    let x0 = xs[0];
    assert(trail_ws(xs[0]) == 0);
    // the first line has no `\r` at its end, since `\r` is whitespace
    assert(strip_cr(x0) == x0) by {
        if x0.len() > 0 && x0.last() == '\r' {
            assert(crate::text::is_ws(x0.last()));
        }
    }
    let rest = if xs.len() == 1 {
        Seq::<char>::empty()
    } else {
        join(xs.drop_first(), nl) + nl
    };
    let whole = join(xs, nl) + nl;
    if xs.len() == 1 {
        assert(whole == x0 + nl + rest);
    } else {
        lemma_join_front(xs, nl);
        assert(whole == x0 + nl + rest);
    }
    assert forall|k: int| 0 <= k < x0.len() implies whole[k] != '\n' by {
        assert(whole[k] == x0[k]);
        assert(xs[0][k] != '\n');
    }
    lemma_find_char_at(whole, '\n', x0.len());
    assert(whole.take(x0.len() as int) == x0);
    assert(whole.skip(x0.len() + 1 as int) == rest);
    assert(lines(whole) == seq![x0] + lines(rest));
    if xs.len() == 1 {
        assert(lines(rest) == Seq::<Seq<char>>::empty());
        assert(lines(whole) == xs);
    } else {
        let tl = xs.drop_first();
        assert forall|i: int, k: int| 0 <= i < tl.len() && 0 <= k < tl[i].len() implies #[trigger] tl[i][k]
            != '\n' by {
            assert(tl[i] == xs[i + 1]);
        }
        assert forall|i: int| 0 <= i < tl.len() implies trail_ws(#[trigger] tl[i]) == 0 by {
            assert(tl[i] == xs[i + 1]);
        }
        lemma_lines_join(tl);
        assert(seq![x0] + tl == xs);
    }
}

/// Collapsing is the identity on a sequence that is already collapsed.
proof fn lemma_collapse_fixed(xs: Seq<Seq<char>>)
    requires
        collapsed(xs),
    ensures
        collapse(xs) == xs,
    decreases xs.len(),
{
    if xs.len() > 0 {
        let pre = xs.drop_last();
        assert(collapsed(pre)) by {
            assert forall|i: int| 0 <= i < pre.len() implies trail_ws(#[trigger] pre[i]) == 0 by {
                assert(pre[i] == xs[i]);
            }
            assert forall|i: int| 0 <= i < pre.len() - 1 implies !(#[trigger] pre[i].len() == 0 && pre[i
                + 1].len() == 0) by {
                assert(pre[i] == xs[i]);
                assert(pre[i + 1] == xs[i + 1]);
            }
        }
        lemma_collapse_fixed(pre);
        let x = xs.last();
        assert(trail_ws(xs[xs.len() - 1]) == 0);
        assert(trim_end(x) == x) by {
            assert(x.take(x.len() as int) == x);
        }
        if x.len() == 0 && pre.len() > 0 {
            assert(!(xs[xs.len() - 2].len() == 0 && xs[xs.len() - 1].len() == 0));
            assert(pre.last() == xs[xs.len() - 2]);
        }
        assert(pre.push(x) == xs);
    }
}

/// The shape of a formatted text: empty, or the lines `q` (trimmed at their
/// ends, no two consecutive blank, the last not blank) each followed by a newline.
proof fn lemma_format_shape(s: Seq<char>) -> (q: Seq<Seq<char>>)
    ensures
        format_spec(s).len() == 0 || {
            &&& q.len() > 0
            &&& q.last().len() > 0
            &&& no_newlines(q)
            &&& collapsed(q)
            &&& format_spec(s) == join(q, seq!['\n']) + seq!['\n']
        },
{
    let nl = seq!['\n'];
    let r = collapse(lines(s));
    lemma_lines_no_newlines(s);
    lemma_collapse_props(lines(s));
    let f = format_spec(s);
    if r.len() == 0 {
        assert(f == Seq::<char>::empty());
        r
    } else if r.last().len() > 0 {
        let fl = r.push(seq![]);
        assert(fl.drop_last() == r);
        assert(f == join(r, nl) + nl + Seq::<char>::empty());
        assert(f == join(r, nl) + nl);
        r
    } else {
        // the last collapsed line is blank
        assert(f == join(r, nl));
        if r.len() == 1 {
            assert(f == r[0]);
            assert(f == Seq::<char>::empty());
            r
        } else {
            let p = r.drop_last();
            assert(!(r[r.len() - 2].len() == 0 && r[r.len() - 1].len() == 0));
            assert(p.last() == r[r.len() - 2]);
            assert(f == join(p, nl) + nl + r.last());
            assert(f == join(p, nl) + nl);
            assert(no_newlines(p)) by {
                assert forall|i: int, k: int| 0 <= i < p.len() && 0 <= k < p[i].len() implies #[trigger] p[i][k]
                    != '\n' by {
                    assert(p[i] == r[i]);
                }
            }
            assert(collapsed(p)) by {
                assert forall|i: int| 0 <= i < p.len() implies trail_ws(#[trigger] p[i]) == 0 by {
                    assert(p[i] == r[i]);
                }
                assert forall|i: int| 0 <= i < p.len() - 1 implies !(#[trigger] p[i].len() == 0 && p[i
                    + 1].len() == 0) by {
                    assert(p[i] == r[i]);
                    assert(p[i + 1] == r[i + 1]);
                }
            }
            p
        }
    }
}

/// Formatting is idempotent: formatting formatted text changes nothing.
pub proof fn lemma_format_idempotent(s: Seq<char>)
    ensures
        format_spec(format_spec(s)) == format_spec(s),
{
    let nl = seq!['\n'];
    let f = format_spec(s);
    let q = lemma_format_shape(s);
    if f.len() == 0 {
        assert(f == Seq::<char>::empty());
        assert(lines(f) == Seq::<Seq<char>>::empty());
        assert(collapse(lines(f)) == Seq::<Seq<char>>::empty());
    } else {
        lemma_lines_join(q);
        lemma_collapse_fixed(q);
        assert(formatted_lines(f) == q.push(seq![]));
        assert(q.push(seq![]).drop_last() == q);
        assert(format_spec(f) == join(q, nl) + nl + Seq::<char>::empty());
    }
}

/// The non-blank lines of `ls`, each without its trailing whitespace, in order.
pub open spec fn kept_lines(ls: Seq<Seq<char>>) -> Seq<Seq<char>>
    decreases ls.len(),
{
    if ls.len() == 0 {
        seq![]
    } else {
        let t = trim_end(ls.last());
        if t.len() > 0 {
            kept_lines(ls.drop_last()).push(t)
        } else {
            kept_lines(ls.drop_last())
        }
    }
}

proof fn lemma_kept_collapse(ls: Seq<Seq<char>>)
    ensures
        kept_lines(collapse(ls)) == kept_lines(ls),
    decreases ls.len(),
{
    if ls.len() > 0 {
        lemma_kept_collapse(ls.drop_last());
        let r = collapse(ls.drop_last());
        let t = trim_end(ls.last());
        lemma_trim_end_idem(ls.last());
        if !(t.len() == 0 && r.len() > 0 && r.last().len() == 0) {
            assert(r.push(t).drop_last() == r);
            assert(r.push(t).last() == t);
        }
    }
}

/// Formatting keeps the text of every non-blank line, in order: the non-blank
/// lines of the output are those of the input, each without its trailing
/// whitespace; nothing is reindented, reordered or rewritten.
pub proof fn lemma_format_keeps_lines(s: Seq<char>)
    ensures
        kept_lines(lines(format_spec(s))) == kept_lines(lines(s)),
{
    let nl = seq!['\n'];
    let r = collapse(lines(s));
    let f = format_spec(s);
    lemma_kept_collapse(lines(s));
    lemma_lines_no_newlines(s);
    lemma_collapse_props(lines(s));
    if r.len() == 0 {
        assert(f == Seq::<char>::empty());
        assert(lines(f) == Seq::<Seq<char>>::empty());
    } else if r.last().len() > 0 {
        let fl = r.push(seq![]);
        assert(fl.drop_last() == r);
        assert(f == join(r, nl) + nl + Seq::<char>::empty());
        assert(f == join(r, nl) + nl);
        lemma_lines_join(r);
    } else if r.len() == 1 {
        assert(f == r[0]);
        assert(f == Seq::<char>::empty());
        assert(lines(f) == Seq::<Seq<char>>::empty());
        assert(r.drop_last() == Seq::<Seq<char>>::empty());
        assert(trim_end(r.last()) == r.last()) by {
            lemma_trim_end_idem(r.last());
            assert(trail_ws(r.last()) == 0);
        }
        assert(kept_lines(r) == kept_lines(r.drop_last()));
    } else {
        let p = r.drop_last();
        assert(p.last() == r[r.len() - 2]);
        assert(f == join(p, nl) + nl + r.last());
        assert(f == join(p, nl) + nl);
        assert(no_newlines(p)) by {
            assert forall|i: int, k: int| 0 <= i < p.len() && 0 <= k < p[i].len() implies #[trigger] p[i][k]
                != '\n' by {
                assert(p[i] == r[i]);
            }
        }
        assert forall|i: int| 0 <= i < p.len() implies trail_ws(#[trigger] p[i]) == 0 by {
            assert(p[i] == r[i]);
        }
        lemma_lines_join(p);
        lemma_trim_end_idem(r.last());
        assert(trail_ws(r.last()) == 0);
        assert(kept_lines(r) == kept_lines(p));
    }
}

/// The formatter's rules hold of every output: each line is free of trailing
/// whitespace, no two consecutive lines are blank, and a non-empty text ends
/// with exactly one newline.
pub proof fn lemma_format_rules(s: Seq<char>)
    ensures
        forall|i: int| 0 <= i < lines(format_spec(s)).len() ==> trail_ws(#[trigger] lines(format_spec(s))[i]) == 0,
        forall|i: int| 0 <= i < lines(format_spec(s)).len() - 1 ==> !(#[trigger] lines(format_spec(s))[i].len() == 0
            && lines(format_spec(s))[i + 1].len() == 0),
        format_spec(s).len() == 0 || (ends_with(format_spec(s), seq!['\n']) && !ends_with(
            format_spec(s),
            seq!['\n', '\n'],
        )),
{
    let nl = seq!['\n'];
    let f = format_spec(s);
    let q = lemma_format_shape(s);
    if f.len() == 0 {
        assert(lines(f) == Seq::<Seq<char>>::empty());
    } else {
        lemma_lines_join(q);
        assert(lines(f) == q);
        let j = join(q, nl);
        let last = q.last();
        if q.len() == 1 {
            assert(j == last);
        } else {
            assert(j == join(q.drop_last(), nl) + nl + last);
        }
        assert(j.len() >= last.len());
        assert(j[j.len() - 1] == last[last.len() - 1]);
        assert(last[last.len() - 1] != '\n');
        assert(f.skip(f.len() - 1) =~= nl);
        assert(f[f.len() - 2] == j[j.len() - 1]);
        assert(f.skip(f.len() - 2)[0] == f[f.len() - 2]);
    }
}

/// A text compared with itself has an empty diff.
pub proof fn lemma_diff_identical(path: Seq<char>, s: Seq<char>)
    ensures
        unified_diff(path, s, s) == Seq::<char>::empty(),
{
}

/// Formatting a formatted text again shows no diff: what `--check` relies on.
pub proof fn lemma_formatted_has_no_diff(path: Seq<char>, s: Seq<char>)
    ensures
        unified_diff(path, format_spec(s), format_spec(format_spec(s))) == Seq::<char>::empty(),
{
    lemma_format_idempotent(s);
    lemma_diff_identical(path, format_spec(s));
}

} // verus!
