//! The syntax of Qaw as functions of the token stream: what each parse gives,
//! and where it leaves the cursor and its error state.
//!
//! Each function takes the stream and source (`Ctx`) and where the parse
//! starts (`PState`), and gives the tree (as a `Syn` value) with the state
//! after it. They follow the grammar as the parser reads it, error recovery
//! included; `onward` only states that a parse never moves back.
use vstd::prelude::*;
use crate::ast::{BinOp, ForKind, Kind, Syn, SynData, SynPart, UnOp};
use crate::grammar::{char_lit_value, infix_of, int_lit_value, not_expr_message, not_item_message};
use crate::lexer::{tokens_from, TokKind};
use crate::parser::{accept, adv, cur, expect_s, fail, pos_of, ready, resync, Ctx, PState};

verus! {

/// A node at the current token.
pub open spec fn node(c: Ctx, s: PState, kind: Kind, data: SynData) -> Syn {
    Syn { kind, line: pos_of(c, s).0, col: pos_of(c, s).1, data }
}

/// `b` where it is at or after `a` in the stream, else `a`.
pub open spec fn onward(c: Ctx, a: PState, b: PState) -> PState {
    if a.i <= b.i && b.i < c.st.len() {
        b
    } else {
        a
    }
}

pub open spec fn boxed(o: Option<Syn>) -> Option<Box<Syn>> {
    match o {
        Some(x) => Some(Box::new(x)),
        None => None,
    }
}

// ---------------------------------------------------------------------
// String literals
// ---------------------------------------------------------------------

/// Where the `}` that closes a hole lies, scanning from `j` at nesting depth `d`.
pub open spec fn hole_end(s: Seq<char>, j: nat, d: nat) -> Option<nat>
    decreases s.len() - j,
{
    if j >= s.len() {
        None
    } else if s[j as int] == '{' {
        hole_end(s, j + 1, d + 1)
    } else if s[j as int] == '}' {
        if d <= 1 {
            Some(j)
        } else {
            hole_end(s, j + 1, (d - 1) as nat)
        }
    } else {
        hole_end(s, j + 1, d)
    }
}

/// A piece of a string literal's text: plain text, or the source of a `${...}` hole.
pub enum Piece {
    Text(Seq<char>),
    Hole(Seq<char>),
}

/// The pieces of a string literal from `i` on, its pending text starting at `t`.
/// An unclosed hole is kept as text, with `${` and `}` around what follows it.
pub open spec fn pieces(s: Seq<char>, i: nat, t: nat) -> Seq<Piece>
    decreases s.len() - i,
{
    if i >= s.len() {
        if t < s.len() {
            seq![Piece::Text(s.subrange(t as int, s.len() as int))]
        } else {
            seq![]
        }
    } else if i + 1 < s.len() && s[i as int] == '$' && s[i + 1 as int] == '{' {
        let pre: Seq<Piece> = if i > t {
            seq![Piece::Text(s.subrange(t as int, i as int))]
        } else {
            seq![]
        };
        match hole_end(s, i + 2, 1) {
            None => pre.push(Piece::Text("${"@ + s.subrange(i + 2 as int, s.len() as int) + "}"@)),
            Some(j) => if i + 2 <= j < s.len() {
                pre.push(Piece::Hole(s.subrange(i + 2 as int, j as int))) + pieces(s, j + 1, j + 1)
            } else {
                pre
            },
        }
    } else {
        pieces(s, i + 1, t)
    }
}

/// The pieces of a whole literal; an empty literal is one empty text piece.
pub open spec fn interp_pieces(s: Seq<char>) -> Seq<Piece> {
    let p = pieces(s, 0, 0);
    if p.len() == 0 {
        seq![Piece::Text(seq![])]
    } else {
        p
    }
}

/// The tokens of a hole's source, read on their own.
pub open spec fn hole_ctx(h: Seq<char>) -> Ctx {
    Ctx { st: tokens_from(h, 0), src: h }
}

/// A fresh parse: at the first token, no error.
pub open spec fn start() -> PState {
    PState { i: 0, panic: false, err: None }
}

// ---------------------------------------------------------------------
// Expressions
// ---------------------------------------------------------------------

/// The parts of a string literal: texts as they are, holes parsed as expressions
/// on their own (a hole as long as the whole source, which cannot occur, stays text).
pub open spec fn parts_s(c: Ctx, s: PState, ps: Seq<Piece>) -> Seq<SynPart>
    decreases c.src.len(), c.st.len() - s.i, 9nat, ps.len(),
    when ready(c, s)
{
    if ps.len() == 0 {
        seq![]
    } else {
        parts_s(c, s, ps.drop_last()).push(
            match ps.last() {
                Piece::Text(t) => SynPart::Text(t),
                Piece::Hole(h) => if h.len() < c.src.len() {
                    SynPart::Expr(expr_s(hole_ctx(h), start()).0)
                } else {
                    SynPart::Text(h)
                },
            },
        )
    }
}

/// A primary expression: a literal, a name, `( expr )` or `[ exprs ]`.
pub open spec fn primary_s(c: Ctx, s: PState) -> (Syn, PState)
    decreases c.src.len(), c.st.len() - s.i, 10nat, 0nat,
    when ready(c, s)
{
    let t = cur(c, s);
    let s1 = adv(c, s);
    let bad = (node(c, s, Kind::Error, SynData::IntLit(0)), fail(c, s, not_expr_message(t.0)));
    if t.0 == TokKind::IntLit {
        (node(c, s, Kind::IntLit, SynData::IntLit(int_lit_value(t.1))), s1)
    } else if t.0 == TokKind::FloatLit {
        (node(c, s, Kind::FloatLit, SynData::FloatLit(t.1)), s1)
    } else if t.0 == TokKind::StringLit {
        (node(c, s, Kind::StringLit, SynData::StringLit(parts_s(c, s1, interp_pieces(t.1)))), s1)
    } else if t.0 == TokKind::CharLit {
        (node(c, s, Kind::CharLit, SynData::CharLit(char_lit_value(t.1))), s1)
    } else if (t.0 == TokKind::BoolLit && t.1 == "true"@) || t.0 == TokKind::KwTrue {
        (node(c, s, Kind::BoolLit, SynData::BoolLit(true)), s1)
    } else if (t.0 == TokKind::BoolLit && t.1 == "false"@) || t.0 == TokKind::KwFalse {
        (node(c, s, Kind::BoolLit, SynData::BoolLit(false)), s1)
    } else if t.0 == TokKind::Ident {
        (node(c, s, Kind::Ident, SynData::Ident(t.1)), s1)
    } else if t.0 == TokKind::LParen {
        let r = expr_s(c, s1);
        (r.0, expect_s(c, onward(c, s1, r.1), TokKind::RParen, "')'"@).1)
    } else if t.0 == TokKind::LBracket {
        let r = list_s(c, s1, TokKind::RBracket);
        (
            node(c, s, Kind::ArrayLit, SynData::ArrayLit(r.0)),
            expect_s(c, onward(c, s1, r.1), TokKind::RBracket, "']'"@).1,
        )
    } else {
        bad
    }
}

/// Comma-separated expressions up to (not past) `close`.
pub open spec fn list_s(c: Ctx, s: PState, close: TokKind) -> (Seq<Syn>, PState)
    decreases c.src.len(), c.st.len() - s.i, 18nat, 0nat,
    when ready(c, s)
{
    if cur(c, s).0 == close {
        (seq![], s)
    } else {
        list_more(c, s, seq![])
    }
}

/// The rest of a list after `acc`: an expression, then more after a comma.
pub open spec fn list_more(c: Ctx, s: PState, acc: Seq<Syn>) -> (Seq<Syn>, PState)
    decreases c.src.len(), c.st.len() - s.i, 17nat, 0nat,
    when ready(c, s)
{
    let r = expr_s(c, s);
    let s1 = onward(c, s, r.1);
    let acc1 = acc.push(r.0);
    let m = accept(c, s1, TokKind::Comma);
    if m.0 {
        list_more(c, m.1, acc1)
    } else {
        (acc1, s1)
    }
}

/// An expression.
pub open spec fn expr_s(c: Ctx, s: PState) -> (Syn, PState)
    decreases c.src.len(), c.st.len() - s.i, 16nat, 0nat,
    when ready(c, s)
{
    expr_bp_s(c, s, 0)
}

/// An expression whose operators bind at least as tightly as `min`.
pub open spec fn expr_bp_s(c: Ctx, s: PState, min: u8) -> (Syn, PState)
    decreases c.src.len(), c.st.len() - s.i, 15nat, 0nat,
    when ready(c, s)
{
    let r = unary_s(c, s);
    if r.0.kind == Kind::Error {
        r
    } else {
        infix_more(c, onward(c, s, r.1), r.0, min)
    }
}

/// After `lhs`: each operator binding at least as tightly as `min`, with its right
/// operand parsed at the operator's right binding power.
pub open spec fn infix_more(c: Ctx, s: PState, lhs: Syn, min: u8) -> (Syn, PState)
    decreases c.src.len(), c.st.len() - s.i, 14nat, 0nat,
    when ready(c, s)
{
    match infix_of(cur(c, s).0) {
        None => (lhs, s),
        Some(x) => if x.1 < min {
            (lhs, s)
        } else {
            let s1 = adv(c, s);
            let r = expr_bp_s(c, s1, x.2);
            let e = if x.3 {
                node(c, s, Kind::Assign, SynData::Assign(Box::new(lhs), Box::new(r.0)))
            } else {
                node(c, s, Kind::BinaryOp, SynData::BinaryOp(x.0, Box::new(lhs), Box::new(r.0)))
            };
            infix_more(c, onward(c, s1, r.1), e, min)
        },
    }
}

/// A prefix `-` or `!`, then a postfix expression.
pub open spec fn unary_s(c: Ctx, s: PState) -> (Syn, PState)
    decreases c.src.len(), c.st.len() - s.i, 13nat, 0nat,
    when ready(c, s)
{
    let k = cur(c, s).0;
    if k == TokKind::Minus || k == TokKind::Bang {
        let r = unary_s(c, adv(c, s));
        let op = if k == TokKind::Minus {
            UnOp::Neg
        } else {
            UnOp::Not
        };
        (node(c, s, Kind::UnaryOp, SynData::UnaryOp(op, Box::new(r.0))), r.1)
    } else {
        postfix_s(c, s)
    }
}

/// A primary expression with its calls, field accesses, indexing and slices.
pub open spec fn postfix_s(c: Ctx, s: PState) -> (Syn, PState)
    decreases c.src.len(), c.st.len() - s.i, 12nat, 0nat,
    when ready(c, s)
{
    let r = primary_s(c, s);
    postfix_more(c, onward(c, s, r.1), r.0)
}

/// The postfix forms after `e`.
pub open spec fn postfix_more(c: Ctx, s: PState, e: Syn) -> (Syn, PState)
    decreases c.src.len(), c.st.len() - s.i, 11nat, 0nat,
    when ready(c, s)
{
    let k = cur(c, s).0;
    let s1 = adv(c, s);
    if k == TokKind::LParen {
        let r = list_s(c, s1, TokKind::RParen);
        let s2 = expect_s(c, onward(c, s1, r.1), TokKind::RParen, "')'"@).1;
        postfix_more(c, s2, node(c, s, Kind::Call, SynData::Call(Box::new(e), r.0)))
    } else if k == TokKind::Dot {
        if cur(c, s1).0 != TokKind::Ident {
            (e, fail(c, s1, "期望字段名"@))
        } else {
            postfix_more(
                c,
                adv(c, s1),
                node(c, s, Kind::FieldAccess, SynData::FieldAccess(Box::new(e), cur(c, s1).1)),
            )
        }
    } else if k == TokKind::LBracket {
        let r = bracket_s(c, s1, e, s);
        postfix_more(c, onward(c, s1, r.1), r.0)
    } else {
        (e, s)
    }
}

/// An expression unless the current token is `k1` or `k2`.
pub open spec fn opt_expr_s(c: Ctx, s: PState, k1: TokKind, k2: TokKind) -> (Option<Syn>, PState)
    decreases c.src.len(), c.st.len() - s.i, 17nat, 0nat,
    when ready(c, s)
{
    if cur(c, s).0 != k1 && cur(c, s).0 != k2 {
        let r = expr_s(c, s);
        (Some(r.0), onward(c, s, r.1))
    } else {
        (None, s)
    }
}

/// After the start of a slice: `:` with an optional end (`..=` marks it
/// inclusive), or `..` with an optional end; nothing for a plain index.
pub open spec fn slice_tail_s(c: Ctx, s: PState) -> (Option<Syn>, bool, PState)
    decreases c.src.len(), c.st.len() - s.i, 18nat, 0nat,
    when ready(c, s)
{
    let colon = accept(c, s, TokKind::Colon);
    if colon.0 {
        let e1 = opt_expr_s(c, colon.1, TokKind::RBracket, TokKind::DotDotEq);
        let s2 = onward(c, colon.1, e1.1);
        let incl = accept(c, s2, TokKind::DotDotEq);
        if incl.0 {
            let e2 = opt_expr_s(c, incl.1, TokKind::RBracket, TokKind::RBracket);
            (if e2.0 is Some {
                e2.0
            } else {
                e1.0
            }, true, onward(c, incl.1, e2.1))
        } else {
            (e1.0, false, s2)
        }
    } else {
        let dots = accept(c, s, TokKind::DotDot);
        if dots.0 {
            let e2 = opt_expr_s(c, dots.1, TokKind::RBracket, TokKind::RBracket);
            (e2.0, false, onward(c, dots.1, e2.1))
        } else {
            (None, false, s)
        }
    }
}

/// What follows `[` after `e` (the `[` at `at`): an index `[i]`, or a slice
/// `[a:b]`, `[a:..=b]`, `[a..b]` with either end left out.
pub open spec fn bracket_s(c: Ctx, s: PState, e: Syn, at: PState) -> (Syn, PState)
    decreases c.src.len(), c.st.len() - s.i, 19nat, 0nat,
    when ready(c, s)
{
    let st = opt_expr_s(c, s, TokKind::Colon, TokKind::RBracket);
    let s1 = onward(c, s, st.1);
    let tail = slice_tail_s(c, s1);
    let s3 = expect_s(c, tail.2, TokKind::RBracket, "']'"@).1;
    let r = match tail.0 {
        None => match st.0 {
            Some(idx) => node(c, at, Kind::Index, SynData::Index(Box::new(e), Box::new(idx))),
            None => e,
        },
        Some(en) => node(
            c,
            at,
            Kind::Slice,
            SynData::Slice(Box::new(e), boxed(st.0), Some(Box::new(en)), tail.1),
        ),
    };
    (r, s3)
}

// ---------------------------------------------------------------------
// Statements
// ---------------------------------------------------------------------

/// A name at the current token, or `error` with `msg` recorded.
pub open spec fn name_s(c: Ctx, s: PState, msg: Seq<char>) -> (Seq<char>, PState) {
    if cur(c, s).0 == TokKind::Ident {
        (cur(c, s).1, adv(c, s))
    } else {
        ("error"@, fail(c, s, msg))
    }
}

/// An optional `: Type` (with `?` appended when it is followed by `?`).
pub open spec fn type_s(c: Ctx, s: PState) -> (Option<Seq<char>>, PState) {
    let a = accept(c, s, TokKind::Colon);
    if !a.0 {
        (None, s)
    } else if cur(c, a.1).0 != TokKind::Ident {
        (None, a.1)
    } else {
        let q = accept(c, adv(c, a.1), TokKind::Question);
        (Some(if q.0 {
            cur(c, a.1).1 + "?"@
        } else {
            cur(c, a.1).1
        }), q.1)
    }
}

/// `let` / `var` / `const`, an optional `mut`, a name, an optional type and value.
pub open spec fn var_decl_s(c: Ctx, s: PState, is_mut: bool) -> (Syn, PState) {
    let m = accept(c, adv(c, s), TokKind::KwMut);
    let n = name_s(c, m.1, "期望变量名"@);
    let t = type_s(c, n.1);
    let eq = accept(c, t.1, TokKind::Eq);
    let init: (Option<Syn>, PState) = if eq.0 {
        let r = expr_s(c, eq.1);
        (Some(r.0), r.1)
    } else {
        (None, t.1)
    };
    (
        node(c, s, Kind::VarDecl, SynData::VarDecl(n.0, t.0, is_mut || m.0, boxed(init.0))),
        accept(c, init.1, TokKind::Semi).1,
    )
}

/// `return` with an optional value.
pub open spec fn return_s(c: Ctx, s: PState) -> (Syn, PState) {
    let s1 = adv(c, s);
    let k = cur(c, s1).0;
    let v: (Option<Syn>, PState) = if k != TokKind::Semi && k != TokKind::RBrace && k != TokKind::Eof {
        let r = expr_s(c, s1);
        (Some(r.0), r.1)
    } else {
        (None, s1)
    };
    (node(c, s, Kind::ReturnStmt, SynData::ReturnStmt(boxed(v.0))), accept(c, v.1, TokKind::Semi).1)
}

/// An expression statement.
pub open spec fn expr_stmt_s(c: Ctx, s: PState) -> (Syn, PState) {
    let r = expr_s(c, s);
    (node(c, s, Kind::ExprStmt, SynData::ExprStmt(Box::new(r.0))), accept(c, r.1, TokKind::Semi).1)
}

/// A condition, with or without parentheses.
pub open spec fn cond_s(c: Ctx, s: PState) -> (Syn, PState) {
    let a = accept(c, s, TokKind::LParen);
    if a.0 {
        let r = expr_s(c, a.1);
        (r.0, expect_s(c, r.1, TokKind::RParen, "')'"@).1)
    } else {
        expr_s(c, s)
    }
}

/// The empty block that stands for a malformed statement.
pub open spec fn empty_block(c: Ctx, s: PState) -> Syn {
    node(c, s, Kind::Block, SynData::Block(seq![]))
}

/// Moving to the token `close` (or `Eof`).
pub open spec fn skip_s(c: Ctx, s: PState, close: TokKind) -> PState
    decreases c.st.len() - s.i,
    when ready(c, s)
{
    let k = cur(c, s).0;
    if k == close || k == TokKind::Eof {
        s
    } else {
        skip_s(c, adv(c, s), close)
    }
}

/// A match arm's pattern: `true`, `false`, a literal's or name's text, or `_`
/// (reading nothing) for anything else.
pub open spec fn pattern_s(c: Ctx, s: PState) -> (Seq<char>, PState) {
    let t = cur(c, s);
    if t.0 == TokKind::KwTrue {
        ("true"@, adv(c, s))
    } else if t.0 == TokKind::KwFalse {
        ("false"@, adv(c, s))
    } else if t.0 == TokKind::IntLit || t.0 == TokKind::FloatLit || t.0 == TokKind::StringLit || t.0
        == TokKind::Ident {
        (t.1, adv(c, s))
    } else {
        ("_"@, s)
    }
}

/// The arms of a match after `acc`, at most 32.
pub open spec fn arms_s(c: Ctx, s: PState, acc: Seq<(Seq<char>, Syn)>) -> (Seq<(Seq<char>, Syn)>, PState)
    decreases 32 - acc.len(),
    when ready(c, s) && acc.len() <= 32
{
    let k = cur(c, s).0;
    if k == TokKind::RBrace || k == TokKind::Eof || acc.len() >= 32 {
        (acc, s)
    } else {
        let s1 = if s.panic {
            onward(c, s, resync(c, s))
        } else {
            s
        };
        let p = pattern_s(c, s1);
        let x = expect_s(c, p.1, TokKind::FatArrow, "'=>'"@);
        if !x.0 {
            (acc, skip_s(c, x.1, TokKind::RBrace))
        } else {
            let r = expr_s(c, x.1);
            let s2 = onward(c, x.1, r.1);
            arms_s(c, accept(c, s2, TokKind::Comma).1, acc.push((p.0, r.0)))
        }
    }
}

/// `match scrutinee { arms }`; an empty block where `{` is missing.
pub open spec fn match_stmt_s(c: Ctx, s: PState) -> (Syn, PState) {
    let r = expr_s(c, adv(c, s));
    let x = expect_s(c, r.1, TokKind::LBrace, "'{'"@);
    if !x.0 {
        (empty_block(c, s), x.1)
    } else {
        let a = arms_s(c, x.1, seq![]);
        (
            node(c, s, Kind::MatchStmt, SynData::MatchStmt(Box::new(r.0), a.0)),
            expect_s(c, a.1, TokKind::RBrace, "'}'"@).1,
        )
    }
}

/// A `{ ... }` block.
pub open spec fn block_s(c: Ctx, s: PState) -> (Syn, PState)
    decreases c.st.len() - s.i, 23nat, 0nat,
    when ready(c, s)
{
    let x = expect_s(c, s, TokKind::LBrace, "'{'"@);
    if !x.0 {
        (empty_block(c, s), x.1)
    } else {
        let r = stmts_s(c, x.1, seq![]);
        (
            node(c, s, Kind::Block, SynData::Block(r.0)),
            expect_s(c, onward(c, x.1, r.1), TokKind::RBrace, "'}'"@).1,
        )
    }
}

/// The statements of a block after `acc`, at most 256, up to `}` or `Eof`.
pub open spec fn stmts_s(c: Ctx, s: PState, acc: Seq<Syn>) -> (Seq<Syn>, PState)
    decreases c.st.len() - s.i, 22nat, 256 - acc.len(),
    when ready(c, s) && acc.len() <= 256
{
    let k = cur(c, s).0;
    if k == TokKind::RBrace || k == TokKind::Eof || acc.len() >= 256 {
        (acc, s)
    } else {
        let s1 = if s.panic {
            onward(c, s, resync(c, s))
        } else {
            s
        };
        let r = stmt_s(c, s1);
        stmts_s(c, onward(c, s1, r.1), acc.push(r.0))
    }
}

/// One statement, by its first token.
pub open spec fn stmt_s(c: Ctx, s: PState) -> (Syn, PState)
    decreases c.st.len() - s.i, 21nat, 0nat,
    when ready(c, s)
{
    let k = cur(c, s).0;
    if k == TokKind::KwLet || k == TokKind::KwConst {
        var_decl_s(c, s, false)
    } else if k == TokKind::KwVar {
        var_decl_s(c, s, true)
    } else if k == TokKind::KwReturn {
        return_s(c, s)
    } else if k == TokKind::KwBreak {
        (node(c, s, Kind::BreakStmt, SynData::BreakStmt), accept(c, adv(c, s), TokKind::Semi).1)
    } else if k == TokKind::KwContinue {
        (node(c, s, Kind::ContinueStmt, SynData::ContinueStmt), accept(c, adv(c, s), TokKind::Semi).1)
    } else if k == TokKind::KwIf {
        if_s(c, s)
    } else if k == TokKind::KwWhile {
        while_s(c, s)
    } else if k == TokKind::KwFor {
        for_s(c, s)
    } else if k == TokKind::KwMatch {
        match_stmt_s(c, s)
    } else {
        expr_stmt_s(c, s)
    }
}

/// `if cond { } [else if ... | else { }]`.
pub open spec fn if_s(c: Ctx, s: PState) -> (Syn, PState)
    decreases c.st.len() - s.i, 20nat, 0nat,
    when ready(c, s) && cur(c, s).0 != TokKind::Eof
{
    let s1 = adv(c, s);
    let cond = cond_s(c, s1);
    let b = block_s(c, onward(c, s1, cond.1));
    let s2 = onward(c, s1, b.1);
    let e = accept(c, s2, TokKind::KwElse);
    let els: (Option<Syn>, PState) = if e.0 {
        if cur(c, e.1).0 == TokKind::KwIf {
            let r = if_s(c, e.1);
            (Some(r.0), r.1)
        } else {
            let r = block_s(c, e.1);
            (Some(r.0), r.1)
        }
    } else {
        (None, s2)
    };
    (node(c, s, Kind::IfStmt, SynData::IfStmt(Box::new(cond.0), Box::new(b.0), boxed(els.0))), els.1)
}

/// `while cond { }`.
pub open spec fn while_s(c: Ctx, s: PState) -> (Syn, PState)
    decreases c.st.len() - s.i, 20nat, 0nat,
    when ready(c, s) && cur(c, s).0 != TokKind::Eof
{
    let s1 = adv(c, s);
    let cond = cond_s(c, s1);
    let b = block_s(c, onward(c, s1, cond.1));
    (node(c, s, Kind::WhileStmt, SynData::WhileStmt(Box::new(cond.0), Box::new(b.0))), b.1)
}

/// `for x in e { }` or `for x from a to b [step s] { }`; an empty block where
/// the header is malformed.
pub open spec fn for_s(c: Ctx, s: PState) -> (Syn, PState)
    decreases c.st.len() - s.i, 20nat, 0nat,
    when ready(c, s)
{
    let s1 = adv(c, s);
    if cur(c, s1).0 != TokKind::Ident {
        (empty_block(c, s), fail(c, s1, "期望循环变量名"@))
    } else {
        let var = cur(c, s1).1;
        let s2 = adv(c, s1);
        let a = accept(c, s2, TokKind::KwIn);
        if a.0 {
            let r = expr_s(c, a.1);
            let b = block_s(c, onward(c, a.1, r.1));
            (
                node(
                    c,
                    s,
                    Kind::ForStmt,
                    SynData::ForStmt(ForKind::ForIn, var, Some(Box::new(r.0)), None, None, None, Box::new(b.0)),
                ),
                b.1,
            )
        } else {
            let f = accept(c, s2, TokKind::KwFrom);
            if !f.0 {
                (empty_block(c, s), fail(c, s2, "期望 'in' 或 'from'"@))
            } else {
                for_range_s(c, f.1, var, s)
            }
        }
    }
}

/// After `for x from` (the `for` at `at`): `a to b [step s] { }`; an empty block
/// where `to` is missing.
pub open spec fn for_range_s(c: Ctx, s: PState, var: Seq<char>, at: PState) -> (Syn, PState)
    decreases c.st.len() - s.i, 19nat, 0nat,
    when ready(c, s)
{
    let r1 = expr_s(c, s);
    let x = expect_s(c, onward(c, s, r1.1), TokKind::KwTo, "'to' 或 'downto'"@);
    if !x.0 {
        (empty_block(c, at), x.1)
    } else {
        let r2 = expr_s(c, x.1);
        let s3 = onward(c, x.1, r2.1);
        let st = accept(c, s3, TokKind::KwStep);
        let step: (Option<Syn>, PState) = if st.0 {
            let r3 = expr_s(c, st.1);
            (Some(r3.0), onward(c, st.1, r3.1))
        } else {
            (None, s3)
        };
        let b = block_s(c, step.1);
        (
            node(
                c,
                at,
                Kind::ForStmt,
                SynData::ForStmt(
                    ForKind::ForRange,
                    var,
                    None,
                    Some(Box::new(r1.0)),
                    Some(Box::new(r2.0)),
                    boxed(step.0),
                    Box::new(b.0),
                ),
            ),
            b.1,
        )
    }
}

// ---------------------------------------------------------------------
// Declarations
// ---------------------------------------------------------------------

/// Parameters after `acc`: names with optional types, separated by commas.
pub open spec fn params_s(c: Ctx, s: PState, acc: Seq<(Seq<char>, Option<Seq<char>>)>) -> (
    Seq<(Seq<char>, Option<Seq<char>>)>,
    PState,
)
    decreases c.st.len() - s.i,
    when ready(c, s)
{
    if cur(c, s).0 != TokKind::Ident {
        (acc, fail(c, s, "期望参数名"@))
    } else {
        let t = type_s(c, adv(c, s));
        let acc1 = acc.push((cur(c, s).1, t.0));
        let m = accept(c, t.1, TokKind::Comma);
        if m.0 {
            params_s(c, m.1, acc1)
        } else {
            (acc1, t.1)
        }
    }
}

/// `func name(params) [-> type] { body }`.
pub open spec fn function_s(c: Ctx, s: PState) -> (Syn, PState) {
    let n = name_s(c, adv(c, s), "期望函数名"@);
    let lp = accept(c, n.1, TokKind::LParen);
    let ps: (Seq<(Seq<char>, Option<Seq<char>>)>, PState) = if lp.0 {
        let inner: (Seq<(Seq<char>, Option<Seq<char>>)>, PState) = if cur(c, lp.1).0 != TokKind::RParen {
            params_s(c, lp.1, seq![])
        } else {
            (seq![], lp.1)
        };
        (inner.0, expect_s(c, inner.1, TokKind::RParen, "')'"@).1)
    } else {
        (seq![], n.1)
    };
    let ar = accept(c, ps.1, TokKind::Arrow);
    let ret: (Option<Seq<char>>, PState) = if !ar.0 {
        (None, ps.1)
    } else if cur(c, ar.1).0 == TokKind::Ident {
        (Some(cur(c, ar.1).1), adv(c, ar.1))
    } else {
        (None, fail(c, ar.1, "期望返回类型"@))
    };
    let b = block_s(c, ret.1);
    (node(c, s, Kind::Function, SynData::Function(n.0, ps.0, ret.0, Box::new(b.0))), b.1)
}

/// Struct fields after `acc`, at most 64; other tokens are skipped.
pub open spec fn fields_s(c: Ctx, s: PState, acc: Seq<(Seq<char>, Option<Seq<char>>)>) -> (
    Seq<(Seq<char>, Option<Seq<char>>)>,
    PState,
)
    decreases c.st.len() - s.i,
    when ready(c, s)
{
    let t = cur(c, s);
    if t.0 == TokKind::RBrace || t.0 == TokKind::Eof || acc.len() >= 64 {
        (acc, s)
    } else if t.0 != TokKind::Ident {
        fields_s(c, adv(c, s), acc)
    } else {
        let x = expect_s(c, adv(c, s), TokKind::Colon, "':'"@);
        if !x.0 {
            (acc, x.1)
        } else {
            let ty: (Seq<char>, PState) = if cur(c, x.1).0 == TokKind::Ident {
                (cur(c, x.1).1, adv(c, x.1))
            } else {
                ("?"@, fail(c, x.1, "期望类型"@))
            };
            fields_s(c, accept(c, ty.1, TokKind::Comma).1, acc.push((t.1, Some(ty.0))))
        }
    }
}

/// `struct Name { field: Type, ... }`.
pub open spec fn struct_s(c: Ctx, s: PState) -> (Syn, PState) {
    let n = name_s(c, adv(c, s), "期望 struct 名"@);
    let x = expect_s(c, n.1, TokKind::LBrace, "'{'"@);
    if !x.0 {
        (node(c, s, Kind::StructDecl, SynData::StructDecl(n.0, seq![])), x.1)
    } else {
        let f = fields_s(c, x.1, seq![]);
        (node(c, s, Kind::StructDecl, SynData::StructDecl(n.0, f.0)), expect_s(c, f.1, TokKind::RBrace, "'}'"@).1)
    }
}

/// Enum variants after `acc`, at most 64; a payload in `( )` or `{ }` is skipped
/// and noted as `...` or `{...}`; other tokens are skipped.
pub open spec fn variants_s(c: Ctx, s: PState, acc: Seq<(Seq<char>, Option<Seq<char>>)>) -> (
    Seq<(Seq<char>, Option<Seq<char>>)>,
    PState,
)
    decreases c.st.len() - s.i,
    when ready(c, s)
{
    let t = cur(c, s);
    if t.0 == TokKind::RBrace || t.0 == TokKind::Eof || acc.len() >= 64 {
        (acc, s)
    } else if t.0 != TokKind::Ident {
        variants_s(c, adv(c, s), acc)
    } else {
        let s1 = adv(c, s);
        let lp = accept(c, s1, TokKind::LParen);
        let lb = accept(c, s1, TokKind::LBrace);
        let pl: (Option<Seq<char>>, PState) = if lp.0 {
            (Some("..."@), expect_s(c, onward(c, lp.1, skip_s(c, lp.1, TokKind::RParen)), TokKind::RParen, "')'"@).1)
        } else if lb.0 {
            (Some("{...}"@), expect_s(c, onward(c, lb.1, skip_s(c, lb.1, TokKind::RBrace)), TokKind::RBrace, "'}'"@).1)
        } else {
            (None, s1)
        };
        variants_s(c, accept(c, onward(c, s1, pl.1), TokKind::Comma).1, acc.push((t.1, pl.0)))
    }
}

/// `enum Name { Variant, ... }`.
pub open spec fn enum_s(c: Ctx, s: PState) -> (Syn, PState) {
    let n = name_s(c, adv(c, s), "期望 enum 名"@);
    let x = expect_s(c, n.1, TokKind::LBrace, "'{'"@);
    if !x.0 {
        (node(c, s, Kind::EnumDecl, SynData::EnumDecl(n.0, seq![])), x.1)
    } else {
        let v = variants_s(c, x.1, seq![]);
        (node(c, s, Kind::EnumDecl, SynData::EnumDecl(n.0, v.0)), expect_s(c, v.1, TokKind::RBrace, "'}'"@).1)
    }
}

/// A top-level declaration, or `None` with an error recorded and the cursor at
/// the next place to resume.
pub open spec fn item_s(c: Ctx, s: PState) -> (Option<Syn>, PState) {
    let k = cur(c, s).0;
    if k == TokKind::KwFunc {
        let r = function_s(c, s);
        (Some(r.0), r.1)
    } else if k == TokKind::KwStruct {
        let r = struct_s(c, s);
        (Some(r.0), r.1)
    } else if k == TokKind::KwEnum {
        let r = enum_s(c, s);
        (Some(r.0), r.1)
    } else {
        (None, resync(c, fail(c, s, not_item_message(k, pos_of(c, s).0, pos_of(c, s).1))))
    }
}

/// The declarations after `acc`, at most 256, until `Eof`. Where a failed
/// declaration leaves the cursor on a token that starts none, that token is skipped.
pub open spec fn items_s(c: Ctx, s: PState, acc: Seq<Syn>) -> (Seq<Syn>, PState)
    decreases c.st.len() - s.i + 256 - acc.len(),
    when ready(c, s) && acc.len() <= 256
{
    if cur(c, s).0 == TokKind::Eof || acc.len() >= 256 {
        (acc, s)
    } else {
        let s1 = if s.panic {
            onward(c, s, resync(c, s))
        } else {
            s
        };
        let r = item_s(c, s1);
        let s2 = onward(c, s1, r.1);
        match r.0 {
            Some(it) => items_s(c, s2, acc.push(it)),
            None => {
                let k = cur(c, s2).0;
                let s3 = if k != TokKind::Eof && k != TokKind::KwFunc && k != TokKind::KwStruct && k
                    != TokKind::KwEnum {
                    adv(c, s2)
                } else {
                    s2
                };
                if s3.i > s.i {
                    items_s(c, s3, acc)
                } else {
                    (acc, s3)
                }
            },
        }
    }
}

/// The whole program: its declarations, in order.
pub open spec fn program_s(c: Ctx, s: PState) -> (Syn, PState) {
    let r = items_s(c, s, seq![]);
    (node(c, s, Kind::Program, SynData::Program(r.0)), r.1)
}

// ---------------------------------------------------------------------
// Laws of the grammar
// ---------------------------------------------------------------------

/// The binary operators by precedence level, loosest first: `||`; `&&`;
/// comparisons; `|`; `^`; `&`; shifts; `+ -`; `* / %`.
pub open spec fn binary_level(k: TokKind) -> Option<(BinOp, nat)> {
    if k == TokKind::OrOr {
        Some((BinOp::Or, 1))
    } else if k == TokKind::AndAnd {
        Some((BinOp::And, 2))
    } else if k == TokKind::EqEq {
        Some((BinOp::Eq, 3))
    } else if k == TokKind::NotEq {
        Some((BinOp::Neq, 3))
    } else if k == TokKind::Lt {
        Some((BinOp::Lt, 3))
    } else if k == TokKind::Le {
        Some((BinOp::Le, 3))
    } else if k == TokKind::Gt {
        Some((BinOp::Gt, 3))
    } else if k == TokKind::Ge {
        Some((BinOp::Ge, 3))
    } else if k == TokKind::Pipe {
        Some((BinOp::BitOr, 4))
    } else if k == TokKind::Caret {
        Some((BinOp::BitXor, 5))
    } else if k == TokKind::Amp {
        Some((BinOp::BitAnd, 6))
    } else if k == TokKind::Shl {
        Some((BinOp::Shl, 7))
    } else if k == TokKind::Shr {
        Some((BinOp::Shr, 7))
    } else if k == TokKind::Plus {
        Some((BinOp::Add, 8))
    } else if k == TokKind::Minus {
        Some((BinOp::Sub, 8))
    } else if k == TokKind::Star {
        Some((BinOp::Mul, 9))
    } else if k == TokKind::Slash {
        Some((BinOp::Div, 9))
    } else if k == TokKind::Percent {
        Some((BinOp::Mod, 9))
    } else {
        None
    }
}

/// Tokens that end an expression: nothing binds across them.
pub open spec fn ends_expr(k: TokKind) -> bool {
    k == TokKind::Eof || k == TokKind::Semi || k == TokKind::RBrace || k == TokKind::RParen || k
        == TokKind::Comma || k == TokKind::RBracket
}

pub open spec fn at(s: PState, j: nat) -> PState {
    PState { i: j, ..s }
}

/// The name at token `j`, as a tree.
pub open spec fn name_at(c: Ctx, s: PState, j: nat) -> Syn {
    node(c, at(s, j), Kind::Ident, SynData::Ident(c.st[j as int].1))
}

/// A binary node at the operator token `j`.
pub open spec fn binary_at(c: Ctx, s: PState, j: nat, op: BinOp, l: Syn, r: Syn) -> Syn {
    node(c, at(s, j), Kind::BinaryOp, SynData::BinaryOp(op, Box::new(l), Box::new(r)))
}

proof fn lemma_name_operand(c: Ctx, s: PState, j: nat, m: u8)
    requires
        ready(c, s),
        j + 1 < c.st.len(),
        c.st[j as int].0 == TokKind::Ident,
        binary_level(c.st[j + 1 as int].0) is Some || ends_expr(c.st[j + 1 as int].0),
    ensures
        expr_bp_s(c, at(s, j), m) == infix_more(c, at(s, j + 1), name_at(c, s, j), m),
{
    let sj = at(s, j);
    assert(ready(c, sj));
    assert(cur(c, sj) == c.st[j as int]);
    assert(adv(c, sj) == at(s, j + 1));
    assert(primary_s(c, sj) == (name_at(c, s, j), at(s, j + 1)));
    let k = c.st[j + 1 as int].0;
    assert(cur(c, at(s, j + 1)).0 == k);
    assert(k != TokKind::LParen && k != TokKind::Dot && k != TokKind::LBracket);
    assert(postfix_more(c, at(s, j + 1), name_at(c, s, j)) == (name_at(c, s, j), at(s, j + 1)));
    assert(postfix_s(c, sj) == (name_at(c, s, j), at(s, j + 1)));
    assert(unary_s(c, sj) == (name_at(c, s, j), at(s, j + 1)));
}

/// Precedence of binary operators: in `x op1 y op2 z` (three names, then a token
/// that ends the expression), `op2` takes `y` and `z` as its operands exactly when
/// it binds more tightly than `op1`; otherwise the two group to the left. In
/// particular `a || b && c` is `a || (b && c)`, and `a - b - c` is `(a - b) - c`.
pub proof fn lemma_binary_precedence(c: Ctx, s: PState)
    requires
        ready(c, s),
        s.i + 5 < c.st.len(),
        c.st[s.i as int].0 == TokKind::Ident,
        binary_level(c.st[s.i + 1 as int].0) is Some,
        c.st[s.i + 2 as int].0 == TokKind::Ident,
        binary_level(c.st[s.i + 3 as int].0) is Some,
        c.st[s.i + 4 as int].0 == TokKind::Ident,
        ends_expr(c.st[s.i + 5 as int].0),
    ensures
        ({
            let i = s.i;
            let (op1, l1) = binary_level(c.st[i + 1 as int].0)->0;
            let (op2, l2) = binary_level(c.st[i + 3 as int].0)->0;
            let x = name_at(c, s, i);
            let y = name_at(c, s, i + 2);
            let z = name_at(c, s, i + 4);
            expr_s(c, s) == (
                if l2 > l1 {
                    binary_at(c, s, i + 1, op1, x, binary_at(c, s, i + 3, op2, y, z))
                } else {
                    binary_at(c, s, i + 3, op2, binary_at(c, s, i + 1, op1, x, y), z)
                },
                at(s, i + 5),
            )
        }),
{
    let i = s.i;
    let k1 = c.st[i + 1 as int].0;
    let k2 = c.st[i + 3 as int].0;
    let x = name_at(c, s, i);
    let y = name_at(c, s, i + 2);
    let z = name_at(c, s, i + 4);
    assert(at(s, i) == s);
    let fa = infix_of(k1)->0;
    let fb = infix_of(k2)->0;
    let la = binary_level(k1)->0;
    let lb = binary_level(k2)->0;
    assert(infix_of(k1) is Some && fa.0 == la.0 && fa.1 == la.1 && fa.2 == fa.1 + 1 && !fa.3);
    assert(infix_of(k2) is Some && fb.0 == lb.0 && fb.1 == lb.1 && fb.2 == fb.1 + 1 && !fb.3);
    assert(infix_of(c.st[i + 5 as int].0) is None);
    lemma_name_operand(c, s, i, 0);
    lemma_name_operand(c, s, i + 2, fa.2);
    assert(expr_s(c, s) == expr_bp_s(c, s, 0));
    assert(cur(c, at(s, i + 1)).0 == k1);
    assert(cur(c, at(s, i + 3)).0 == k2);
    assert(cur(c, at(s, i + 5)).0 == c.st[i + 5 as int].0);
    assert(adv(c, at(s, i + 1)) == at(s, i + 2));
    assert(adv(c, at(s, i + 3)) == at(s, i + 4));
    assert(infix_more(c, at(s, i + 5), z, 0) == (z, at(s, i + 5)));
    if fb.1 < fa.2 {
        // `op2` does not bind inside `op1`'s right operand
        assert(infix_more(c, at(s, i + 3), y, fa.2) == (y, at(s, i + 3)));
                lemma_name_operand(c, s, i + 4, fb.2);
        assert(infix_more(c, at(s, i + 5), z, fb.2) == (z, at(s, i + 5)));
        let e2 = binary_at(c, s, i + 3, fb.0, binary_at(c, s, i + 1, fa.0, x, y), z);
        assert(infix_more(c, at(s, i + 5), e2, 0) == (e2, at(s, i + 5)));
        assert(infix_more(c, at(s, i + 3), binary_at(c, s, i + 1, fa.0, x, y), 0) == (e2, at(s, i + 5)));
    } else {
        lemma_name_operand(c, s, i + 4, fb.2);
        assert(infix_more(c, at(s, i + 5), z, fb.2) == (z, at(s, i + 5)));
        let e = binary_at(c, s, i + 3, fb.0, y, z);
        assert(infix_more(c, at(s, i + 5), e, fa.2) == (e, at(s, i + 5)));
        assert(infix_more(c, at(s, i + 3), y, fa.2) == (e, at(s, i + 5)));
        let e1 = binary_at(c, s, i + 1, fa.0, x, e);
        assert(infix_more(c, at(s, i + 5), e1, 0) == (e1, at(s, i + 5)));
    }
}

} // verus!
