//! The recursive-descent parser: declarations, statements, and expressions by
//! binding power (Pratt), with `${...}` interpolation inside string literals.
//!
//! Every parse function leaves the cursor well formed, on the same stream, at or
//! after where it started, and gives exactly the tree, end position and recorded
//! error that the matching function of `syntax` states for the tokens. Loops are
//! bounded as the language fixes them: at most 256 items or statements, 64
//! fields or variants, and 32 match arms.
use vstd::prelude::*;
use crate::ast::{
    opt_str, syn_arms, syn_fields, syn_list, syn_of, syn_opt, syn_params, syn_parts, syn_variants, BinOp, BinaryOp, Block, Call, Expr, ExprData, FieldAccess,
    Index, InterpPart, Kind, MatchArm, Slice, StringLit, Syn, SynData, SynPart, UnOp, UnaryOp,
};
use crate::lexer::{tok_kind_name, Lexer, TokKind};
use crate::parser::{expect_s, pos_of, ready, PState, Parser};
use crate::syntax::{
    arms_s, block_s, boxed, enum_s, fields_s, for_range_s, item_s, items_s, pattern_s, program_s, struct_s,
    variants_s, bracket_s, cond_s, expr_stmt_s, for_s, function_s, if_s, match_stmt_s, name_s,
    node, onward, params_s, return_s, skip_s, stmt_s, stmts_s, type_s, var_decl_s, while_s, slice_tail_s, expr_bp_s, expr_s, hole_end, infix_more, interp_pieces, list_more, list_s, opt_expr_s,
    parts_s, pieces, postfix_more, postfix_s, primary_s, unary_s, Piece,
};
use crate::text::{chars_eq, chars_of, is_digit, push_str, slice_chars, string_of};

verus! {

/// `b` is `a` moved forward: well formed, on the same tokens, not behind.
pub open spec fn moved_on(a: Parser, b: Parser) -> bool {
    &&& b.wf()
    &&& b.index() < b.stream().len()
    &&& b.stream() == a.stream()
    &&& b.source() == a.source()
    &&& a.index() <= b.index()
}

// ---------------------------------------------------------------------
// Integer literals
// ---------------------------------------------------------------------

/// The value of a run of decimal digits.
pub open spec fn digits_value(s: Seq<char>) -> int
    decreases s.len(),
{
    if s.len() == 0 {
        0
    } else {
        digits_value(s.drop_last()) * 10 + (s.last() as int - 48)
    }
}

/// The length of a leading sign, `-` or `+`.
pub open spec fn sign_len(s: Seq<char>) -> int {
    if s.len() > 0 && (s[0] == '-' || s[0] == '+') {
        1
    } else {
        0
    }
}

pub open spec fn all_digits(t: Seq<char>) -> bool {
    forall|i: int| 0 <= i < t.len() ==> is_digit(#[trigger] t[i])
}

/// What `str::parse::<i64>` gives: an optional sign, then at least one decimal
/// digit and nothing else, in the range of `i64`.
pub open spec fn i64_of(s: Seq<char>) -> Option<i64> {
    let body = s.skip(sign_len(s));
    let v = if s.len() > 0 && s[0] == '-' {
        -digits_value(body)
    } else {
        digits_value(body)
    };
    if body.len() == 0 || !all_digits(body) {
        None
    } else if i64::MIN <= v <= i64::MAX {
        Some(v as i64)
    } else {
        None
    }
}

/// The value of an integer literal: what `parse` gives, or 0 where it fails.
pub open spec fn int_lit_value(s: Seq<char>) -> i64 {
    match i64_of(s) {
        Some(v) => v,
        None => 0,
    }
}

/// Parses a decimal `i64` with an optional sign.
pub fn parse_i64(s: &[char]) -> (r: Option<i64>)
    ensures
        r == i64_of(s@),
{
    let limit: i128 = 9223372036854775808;
    let mut start: usize = 0;
    let mut neg = false;
    if s.len() > 0 && (s[0] == '-' || s[0] == '+') {
        neg = s[0] == '-';
        start = 1;
    }
    let ghost body = s@.skip(start as int);
    if start == s.len() {
        return None;
    }
    let mut acc: i128 = 0;
    let mut i: usize = start;
    while i < s.len()
        invariant
            start <= i <= s@.len(),
            body == s@.skip(start as int),
            start == sign_len(s@),
            body.len() == s@.len() - start,
            neg == (s@.len() > 0 && s@[0] == '-'),
            forall|k: int| 0 <= k < body.len() ==> body[k] == s@[k + start],
            0 <= acc <= limit + 1,
            limit == 9223372036854775808,
            acc == if digits_value(body.take(i - start)) <= limit {
                digits_value(body.take(i - start))
            } else {
                limit + 1
            },
            forall|k: int| 0 <= k < i - start ==> is_digit(#[trigger] body[k]),
        decreases s@.len() - i,
    {
        let c = s[i];
        if !('0' <= c && c <= '9') {
            assert(!is_digit(body[i - start]));
            return None;
        }
        let d = (c as u32 - 48) as i128;
        proof {
            let t = body.take(i - start + 1);
            assert(t.drop_last() =~= body.take(i - start));
            assert(t.last() == c);
        }
        if acc > limit {
            acc = limit + 1;
        } else {
            acc = acc * 10 + d;
            if acc > limit {
                acc = limit + 1;
            }
        }
        i = i + 1;
    }
    assert(body.take(i - start) =~= body);
    if neg {
        if acc > limit {
            None
        } else {
            Some((0 - acc) as i64)
        }
    } else {
        if acc >= limit {
            None
        } else {
            Some(acc as i64)
        }
    }
}


/// The value of a character literal: its first character's code, or 0.
pub open spec fn char_lit_value(s: Seq<char>) -> i32 {
    if s.len() > 0 {
        (s[0] as u32) as i32
    } else {
        0
    }
}

/// The message for a token that cannot start an expression.
pub open spec fn not_expr_message(k: TokKind) -> Seq<char> {
    "期望表达式，得到 "@ + crate::lexer::kind_name(k)
}

// ---------------------------------------------------------------------
// Binding powers
// ---------------------------------------------------------------------

/// Infix operators: the operator, its left and right binding powers, and
/// whether it is an assignment (which binds loosest and to the right).
pub open spec fn infix_of(k: TokKind) -> Option<(BinOp, u8, u8, bool)> {
    match k {
        TokKind::Eq => Some((BinOp::Add, 0u8, 1u8, true)),
        TokKind::OrOr => Some((BinOp::Or, 1u8, 2u8, false)),
        TokKind::AndAnd => Some((BinOp::And, 2u8, 3u8, false)),
        TokKind::EqEq => Some((BinOp::Eq, 3u8, 4u8, false)),
        TokKind::NotEq => Some((BinOp::Neq, 3u8, 4u8, false)),
        TokKind::Lt => Some((BinOp::Lt, 3u8, 4u8, false)),
        TokKind::Le => Some((BinOp::Le, 3u8, 4u8, false)),
        TokKind::Gt => Some((BinOp::Gt, 3u8, 4u8, false)),
        TokKind::Ge => Some((BinOp::Ge, 3u8, 4u8, false)),
        TokKind::Pipe => Some((BinOp::BitOr, 4u8, 5u8, false)),
        TokKind::Caret => Some((BinOp::BitXor, 5u8, 6u8, false)),
        TokKind::Amp => Some((BinOp::BitAnd, 6u8, 7u8, false)),
        TokKind::Shl => Some((BinOp::Shl, 7u8, 8u8, false)),
        TokKind::Shr => Some((BinOp::Shr, 7u8, 8u8, false)),
        TokKind::Plus => Some((BinOp::Add, 8u8, 9u8, false)),
        TokKind::Minus => Some((BinOp::Sub, 8u8, 9u8, false)),
        TokKind::Star => Some((BinOp::Mul, 9u8, 10u8, false)),
        TokKind::Slash => Some((BinOp::Div, 9u8, 10u8, false)),
        TokKind::Percent => Some((BinOp::Mod, 9u8, 10u8, false)),
        _ => None,
    }
}

pub fn infix(k: TokKind) -> (r: Option<(BinOp, u8, u8, bool)>)
    ensures
        r == infix_of(k),
{
    match k {
        TokKind::Eq => Some((BinOp::Add, 0u8, 1u8, true)),
        TokKind::OrOr => Some((BinOp::Or, 1u8, 2u8, false)),
        TokKind::AndAnd => Some((BinOp::And, 2u8, 3u8, false)),
        TokKind::EqEq => Some((BinOp::Eq, 3u8, 4u8, false)),
        TokKind::NotEq => Some((BinOp::Neq, 3u8, 4u8, false)),
        TokKind::Lt => Some((BinOp::Lt, 3u8, 4u8, false)),
        TokKind::Le => Some((BinOp::Le, 3u8, 4u8, false)),
        TokKind::Gt => Some((BinOp::Gt, 3u8, 4u8, false)),
        TokKind::Ge => Some((BinOp::Ge, 3u8, 4u8, false)),
        TokKind::Pipe => Some((BinOp::BitOr, 4u8, 5u8, false)),
        TokKind::Caret => Some((BinOp::BitXor, 5u8, 6u8, false)),
        TokKind::Amp => Some((BinOp::BitAnd, 6u8, 7u8, false)),
        TokKind::Shl => Some((BinOp::Shl, 7u8, 8u8, false)),
        TokKind::Shr => Some((BinOp::Shr, 7u8, 8u8, false)),
        TokKind::Plus => Some((BinOp::Add, 8u8, 9u8, false)),
        TokKind::Minus => Some((BinOp::Sub, 8u8, 9u8, false)),
        TokKind::Star => Some((BinOp::Mul, 9u8, 10u8, false)),
        TokKind::Slash => Some((BinOp::Div, 9u8, 10u8, false)),
        TokKind::Percent => Some((BinOp::Mod, 9u8, 10u8, false)),
        _ => None,
    }
}

/// `s` holds exactly the characters of `lit`.
fn string_is(s: &String, lit: &str) -> (r: bool)
    ensures
        r == (s@ == lit@),
{
    let a = chars_of(s.as_str());
    let b = chars_of(lit);
    chars_eq(a.as_slice(), b.as_slice())
}

/// The value of an optional tree.
pub open spec fn opt_syn(o: Option<Expr>) -> Option<Syn> {
    match o {
        Some(x) => Some(syn_of(x)),
        None => None,
    }
}

pub proof fn lemma_syn_list_push(es: Seq<Expr>, x: Expr)
    ensures
        syn_list(es.push(x)) == syn_list(es).push(syn_of(x)),
{
    assert(es.push(x).subrange(0, es.len() as int) =~= es);
}

pub proof fn lemma_syn_list_len(es: Seq<Expr>)
    ensures
        syn_list(es).len() == es.len(),
    decreases es.len(),
{
    if es.len() > 0 {
        lemma_syn_list_len(es.subrange(0, es.len() - 1));
    }
}

pub proof fn lemma_syn_arms_len(arms: Seq<MatchArm>)
    ensures
        syn_arms(arms).len() == arms.len(),
    decreases arms.len(),
{
    if arms.len() > 0 {
        lemma_syn_arms_len(arms.subrange(0, arms.len() - 1));
    }
}

pub proof fn lemma_syn_opt_none()
    ensures
        syn_opt(None) == None::<Box<Syn>>,
{
}

pub proof fn lemma_syn_opt_some(e: Expr)
    ensures
        syn_opt(Some(Box::new(e))) == Some(Box::new(syn_of(e))),
{
}

pub proof fn lemma_syn_parts_push(ps: Seq<InterpPart>, x: InterpPart)
    ensures
        syn_parts(ps.push(x)) == syn_parts(ps).push(
            match x {
                InterpPart::Text(t) => SynPart::Text(t@),
                InterpPart::Expr(e) => SynPart::Expr(syn_of(*e)),
            },
        ),
{
    assert(ps.push(x).subrange(0, ps.len() as int) =~= ps);
}

pub proof fn lemma_syn_arms_push(arms: Seq<MatchArm>, x: MatchArm)
    ensures
        syn_arms(arms.push(x)) == syn_arms(arms).push((x.pattern@, syn_of(*x.body))),
{
    assert(arms.push(x).subrange(0, arms.len() as int) =~= arms);
}

impl Parser {
    /// An expression.
    pub fn parse_expr(&mut self) -> (r: Expr)
        requires
            old(self).wf(),
        ensures
            moved_on(*old(self), *final(self)),
            (syn_of(r), final(self).state()) == expr_s(old(self).ctx(), old(self).state()),
        decreases old(self).source().len(), old(self).stream().len() - old(self).index(), 15nat,
    {
        proof {
            self.lemma_ready();
        }
        self.parse_expr_bp(0)
    }

    /// An expression whose operators bind at least as tightly as `min_bp`.
    pub fn parse_expr_bp(&mut self, min_bp: u8) -> (r: Expr)
        requires
            old(self).wf(),
        ensures
            moved_on(*old(self), *final(self)),
            (syn_of(r), final(self).state()) == expr_bp_s(old(self).ctx(), old(self).state(), min_bp),
        decreases old(self).source().len(), old(self).stream().len() - old(self).index(), 14nat,
    {
        let ghost c = self.ctx();
        let ghost s0 = self.state();
        proof {
            self.lemma_ready();
        }
        let mut lhs = self.parse_unary();
        if lhs.kind == Kind::Error {
            return lhs;
        }
        loop
            invariant
                moved_on(*old(self), *self),
                c == self.ctx(),
                c == old(self).ctx(),
                s0 == old(self).state(),
                expr_bp_s(c, s0, min_bp) == infix_more(c, self.state(), syn_of(lhs), min_bp),
            decreases self.stream().len() - self.index(),
        {
            proof {
                self.lemma_ready();
            }
            let ghost st = self.state();
            let k = self.current_token().kind;
            let (op, l_bp, r_bp, is_assign) = match infix(k) {
                Some(x) => x,
                None => {
                    return lhs;
                },
            };
            if l_bp < min_bp {
                return lhs;
            }
            let line = self.current_token().line;
            let col = self.current_token().col;
            proof {
                self.lemma_not_last();
            }
            self.advance();
            let rhs = self.parse_expr_bp(r_bp);
            if is_assign {
                lhs = Expr {
                    kind: Kind::Assign,
                    line,
                    col,
                    data: ExprData::Assign(crate::ast::Assign { target: Box::new(lhs), value: Box::new(rhs) }),
                };
            } else {
                lhs = Expr {
                    kind: Kind::BinaryOp,
                    line,
                    col,
                    data: ExprData::BinaryOp(BinaryOp { op, lhs: Box::new(lhs), rhs: Box::new(rhs) }),
                };
            }
        }
    }

    /// A prefix `-` or `!`, then a postfix expression.
    pub fn parse_unary(&mut self) -> (r: Expr)
        requires
            old(self).wf(),
        ensures
            moved_on(*old(self), *final(self)),
            (syn_of(r), final(self).state()) == unary_s(old(self).ctx(), old(self).state()),
        decreases old(self).source().len(), old(self).stream().len() - old(self).index(), 13nat,
    {
        proof {
            self.lemma_ready();
        }
        let line = self.current_token().line;
        let col = self.current_token().col;
        let k = self.current_token().kind;
        if k == TokKind::Minus || k == TokKind::Bang {
            let op = if k == TokKind::Minus {
                UnOp::Neg
            } else {
                UnOp::Not
            };
            proof {
                self.lemma_not_last();
            }
            self.advance();
            let operand = self.parse_unary();
            Expr { kind: Kind::UnaryOp, line, col, data: ExprData::UnaryOp(UnaryOp { op, operand: Box::new(operand) }) }
        } else {
            self.parse_postfix()
        }
    }

    /// Comma-separated expressions up to (not past) the closing token.
    pub fn parse_expr_list(&mut self, close: TokKind) -> (r: Vec<Expr>)
        requires
            old(self).wf(),
        ensures
            moved_on(*old(self), *final(self)),
            (syn_list(r@), final(self).state()) == list_s(old(self).ctx(), old(self).state(), close),
        decreases old(self).source().len(), old(self).stream().len() - old(self).index(), 16nat,
    {
        let ghost c = self.ctx();
        let ghost s0 = self.state();
        proof {
            self.lemma_ready();
        }
        let mut items: Vec<Expr> = Vec::new();
        assert(syn_list(items@) == Seq::<Syn>::empty());
        if self.check(close) {
            return items;
        }
        loop
            invariant
                moved_on(*old(self), *self),
                c == self.ctx(),
                c == old(self).ctx(),
                s0 == old(self).state(),
                list_s(c, s0, close) == list_more(c, self.state(), syn_list(items@)),
            decreases self.stream().len() - self.index(),
        {
            proof {
                self.lemma_ready();
            }
            let e = self.parse_expr();
            proof {
                lemma_syn_list_push(items@, e);
            }
            items.push(e);
            proof {
                self.lemma_ready();
            }
            if !self.match_tok(TokKind::Comma) {
                return items;
            }
        }
    }

    /// A primary expression followed by calls, field accesses, indexing and slices.
    #[verifier::rlimit(60)]
    #[verifier::spinoff_prover]
    pub fn parse_postfix(&mut self) -> (r: Expr)
        requires
            old(self).wf(),
        ensures
            moved_on(*old(self), *final(self)),
            (syn_of(r), final(self).state()) == postfix_s(old(self).ctx(), old(self).state()),
        decreases old(self).source().len(), old(self).stream().len() - old(self).index(), 12nat,
    {
        let ghost c = self.ctx();
        let ghost s0 = self.state();
        proof {
            self.lemma_ready();
        }
        let mut expr = self.parse_primary();
        loop
            invariant
                moved_on(*old(self), *self),
                c == self.ctx(),
                c == old(self).ctx(),
                s0 == old(self).state(),
                postfix_s(c, s0) == postfix_more(c, self.state(), syn_of(expr)),
            decreases self.stream().len() - self.index(),
        {
            proof {
                self.lemma_ready();
            }
            let ghost st = self.state();
            let k = self.current_token().kind;
            let line = self.current_token().line;
            let col = self.current_token().col;
            if k == TokKind::LParen {
                proof {
                    self.lemma_not_last();
                }
                self.advance();
                let args = self.parse_expr_list(TokKind::RParen);
                proof {
                    self.lemma_ready();
                }
                self.expect(TokKind::RParen, "')'");
                expr = Expr { kind: Kind::Call, line, col, data: ExprData::Call(Call { func: Box::new(expr), args }) };
            } else if k == TokKind::Dot {
                proof {
                    self.lemma_not_last();
                }
                self.advance();
                proof {
                    self.lemma_ready();
                }
                if !self.check(TokKind::Ident) {
                    self.error("期望字段名");
                    return expr;
                }
                let field = self.current_token().lexeme.clone();
                self.advance();
                expr = Expr {
                    kind: Kind::FieldAccess,
                    line,
                    col,
                    data: ExprData::FieldAccess(FieldAccess { obj: Box::new(expr), field }),
                };
            } else if k == TokKind::LBracket {
                proof {
                    self.lemma_not_last();
                }
                self.advance();
                expr = self.parse_bracket(expr, line, col, Ghost(st));
            } else {
                return expr;
            }
        }
    }

    /// An expression unless the current token is `k1` or `k2`.
    fn parse_opt_expr(&mut self, k1: TokKind, k2: TokKind) -> (r: Option<Expr>)
        requires
            old(self).wf(),
        ensures
            moved_on(*old(self), *final(self)),
            (opt_syn(r), final(self).state()) == opt_expr_s(old(self).ctx(), old(self).state(), k1, k2),
        decreases old(self).source().len(), old(self).stream().len() - old(self).index(), 17nat,
    {
        proof {
            self.lemma_ready();
        }
        if !self.check(k1) && !self.check(k2) {
            Some(self.parse_expr())
        } else {
            None
        }
    }

    /// After the start of a slice: its end, and whether it is inclusive.
    fn parse_slice_tail(&mut self) -> (r: (Option<Expr>, bool))
        requires
            old(self).wf(),
        ensures
            moved_on(*old(self), *final(self)),
            (opt_syn(r.0), r.1, final(self).state()) == slice_tail_s(old(self).ctx(), old(self).state()),
        decreases old(self).source().len(), old(self).stream().len() - old(self).index(), 18nat,
    {
        proof {
            self.lemma_ready();
        }
        let mut end: Option<Expr> = None;
        let mut inclusive = false;
        if self.match_tok(TokKind::Colon) {
            end = self.parse_opt_expr(TokKind::RBracket, TokKind::DotDotEq);
            proof {
                self.lemma_ready();
            }
            if self.match_tok(TokKind::DotDotEq) {
                inclusive = true;
                let e2 = self.parse_opt_expr(TokKind::RBracket, TokKind::RBracket);
                if e2.is_some() {
                    end = e2;
                }
            }
        } else if self.match_tok(TokKind::DotDot) {
            end = self.parse_opt_expr(TokKind::RBracket, TokKind::RBracket);
        }
        (end, inclusive)
    }

    /// What follows `[` after `e`: an index or a slice (the `[` was at `line`:`col`).
    #[verifier::rlimit(60)]
    #[verifier::spinoff_prover]
    fn parse_bracket(&mut self, e: Expr, line: u32, col: u32, Ghost(at): Ghost<PState>) -> (r: Expr)
        requires
            old(self).wf(),
            (line, col) == pos_of(old(self).ctx(), at),
        ensures
            moved_on(*old(self), *final(self)),
            (syn_of(r), final(self).state()) == bracket_s(old(self).ctx(), old(self).state(), syn_of(e), at),
        decreases old(self).source().len(), old(self).stream().len() - old(self).index(), 19nat,
    {
        proof {
            self.lemma_ready();
        }
        let ghost c = self.ctx();
        let ghost s0 = self.state();
        let start = self.parse_opt_expr(TokKind::Colon, TokKind::RBracket);
        let ghost s1 = self.state();
        assert(opt_expr_s(c, s0, TokKind::Colon, TokKind::RBracket) == (opt_syn(start), s1));
        assert(onward(c, s0, s1) == s1);
        let (end, inclusive) = self.parse_slice_tail();
        let ghost s2 = self.state();
        assert(slice_tail_s(c, s1) == (opt_syn(end), inclusive, s2));
        proof {
            self.lemma_ready();
        }
        self.expect(TokKind::RBracket, "']'");
        assert(expect_s(c, s2, TokKind::RBracket, "']'"@).1 == self.state());
        let ghost ev = syn_of(e);
        match end {
            None => match start {
                Some(idx) => {
                    let r = Expr {
                        kind: Kind::Index,
                        line,
                        col,
                        data: ExprData::Index(Index { obj: Box::new(e), index: Box::new(idx) }),
                    };
                    assert(syn_of(r) == node(c, at, Kind::Index, SynData::Index(Box::new(ev), Box::new(syn_of(idx)))));
                    assert(bracket_s(c, s0, ev, at) == (syn_of(r), self.state()));
                    r
                },
                None => {
                    assert(bracket_s(c, s0, ev, at) == (ev, self.state()));
                    e
                },
            },
            Some(en) => {
                let ghost sv = opt_syn(start);
                let start = match start {
                    Some(x) => Some(Box::new(x)),
                    None => None,
                };
                assert(syn_opt(start) == boxed(sv));
                let r = Expr {
                    kind: Kind::Slice,
                    line,
                    col,
                    data: ExprData::Slice(Slice { obj: Box::new(e), start, end: Some(Box::new(en)), inclusive }),
                };
                assert(syn_opt(Some(Box::new(en))) == Some(Box::new(syn_of(en))));
                assert(syn_of(r) == node(c, at, Kind::Slice, SynData::Slice(Box::new(ev), boxed(sv), Some(Box::new(syn_of(en))), inclusive)));
                assert(opt_syn(end) == Some(syn_of(en)));
                assert(bracket_s(c, s0, ev, at) == (syn_of(r), self.state()));
                r
            },
        }
    }

    /// A literal, a name, a parenthesised expression or an array literal.
    pub fn parse_primary(&mut self) -> (r: Expr)
        requires
            old(self).wf(),
        ensures
            moved_on(*old(self), *final(self)),
            (syn_of(r), final(self).state()) == primary_s(old(self).ctx(), old(self).state()),
        decreases old(self).source().len(), old(self).stream().len() - old(self).index(), 11nat,
    {
        proof {
            self.lemma_ready();
        }
        let line = self.current_token().line;
        let col = self.current_token().col;
        let kind = self.current_token().kind;
        let lexeme = self.current_token().lexeme.clone();
        if kind == TokKind::IntLit {
            let cs = chars_of(lexeme.as_str());
            let v = match parse_i64(cs.as_slice()) {
                Some(v) => v,
                None => 0,
            };
            self.advance();
            return Expr { kind: Kind::IntLit, line, col, data: ExprData::IntLit(v) };
        }
        if kind == TokKind::FloatLit {
            self.advance();
            return Expr { kind: Kind::FloatLit, line, col, data: ExprData::FloatLit(lexeme) };
        }
        if kind == TokKind::StringLit {
            proof {
                self.lemma_not_last();
            }
            self.advance();
            let sl = self.parse_string_interp(&lexeme);
            return Expr { kind: Kind::StringLit, line, col, data: ExprData::StringLit(sl) };
        }
        if kind == TokKind::CharLit {
            let cs = chars_of(lexeme.as_str());
            let v: i32 = if cs.len() > 0 {
                (cs[0] as u32) as i32
            } else {
                0
            };
            self.advance();
            return Expr { kind: Kind::CharLit, line, col, data: ExprData::CharLit(v) };
        }
        if (kind == TokKind::BoolLit && string_is(&lexeme, "true")) || kind == TokKind::KwTrue {
            self.advance();
            return Expr { kind: Kind::BoolLit, line, col, data: ExprData::BoolLit(true) };
        }
        if (kind == TokKind::BoolLit && string_is(&lexeme, "false")) || kind == TokKind::KwFalse {
            self.advance();
            return Expr { kind: Kind::BoolLit, line, col, data: ExprData::BoolLit(false) };
        }
        if kind == TokKind::Ident {
            self.advance();
            return Expr { kind: Kind::Ident, line, col, data: ExprData::Ident(lexeme) };
        }
        if kind == TokKind::LParen {
            proof {
                self.lemma_not_last();
            }
            self.advance();
            let e = self.parse_expr();
            proof {
                self.lemma_ready();
            }
            self.expect(TokKind::RParen, "')'");
            return e;
        }
        if kind == TokKind::LBracket {
            proof {
                self.lemma_not_last();
            }
            self.advance();
            let items = self.parse_expr_list(TokKind::RBracket);
            proof {
                self.lemma_ready();
            }
            self.expect(TokKind::RBracket, "']'");
            return Expr { kind: Kind::ArrayLit, line, col, data: ExprData::ArrayLit(items) };
        }
        let mut msg = String::new();
        push_str(&mut msg, "期望表达式，得到 ");
        push_str(&mut msg, tok_kind_name(kind));
        self.error(msg.as_str());
        Expr { kind: Kind::Error, line, col, data: ExprData::IntLit(0) }
    }

    /// Splits the text of a string literal into text pieces and the
    /// expressions of its `${...}` holes, each parsed on its own.
    #[verifier::rlimit(60)]
    #[verifier::spinoff_prover]
    pub fn parse_string_interp(&self, raw: &String) -> (r: StringLit)
        requires
            self.wf(),
        ensures
            syn_parts(r.parts@) == parts_s(self.ctx(), self.state(), interp_pieces(raw@)),
        decreases self.source().len(), self.stream().len() - self.index(), 10nat,
    {
        proof {
            self.lemma_ready();
        }
        let ghost c = self.ctx();
        let ghost st = self.state();
        let cs = chars_of(raw.as_str());
        let n = cs.len();
        let ghost s = cs@;
        let ghost mut done: Seq<Piece> = seq![];
        let mut parts: Vec<InterpPart> = Vec::new();
        let mut i: usize = 0;
        let mut text_start: usize = 0;
        assert(syn_parts(parts@) == Seq::<SynPart>::empty());
        assert(done + pieces(s, 0, 0) =~= pieces(s, 0, 0));
        while i < n
            invariant
                n == cs@.len(),
                s == cs@,
                s == raw@,
                c == self.ctx(),
                st == self.state(),
                ready(c, st),
                text_start <= i <= n,
                self.wf(),
                syn_parts(parts@) == parts_s(c, st, done),
                done + pieces(s, i as nat, text_start as nat) == pieces(s, 0, 0),
            decreases n - i,
        {
            if i + 1 < n && cs[i] == '$' && cs[i + 1] == '{' {
                let ghost pre: Seq<Piece> = if i > text_start {
                    seq![Piece::Text(s.subrange(text_start as int, i as int))]
                } else {
                    seq![]
                };
                if i > text_start {
                    let chunk = string_of(slice_chars(cs.as_slice(), text_start, i).as_slice());
                    proof {
                        lemma_syn_parts_push(parts@, InterpPart::Text(chunk));
                        let p = Piece::Text(s.subrange(text_start as int, i as int));
                        assert(done.push(p).drop_last() == done);
                        done = done.push(p);
                    }
                    parts.push(InterpPart::Text(chunk));
                    assert(syn_parts(parts@) == parts_s(c, st, done));
                }
                let ghost done_pre = done;
                assert(done_pre =~= if i > text_start { done_pre.drop_last() + pre } else { done_pre + pre });
                let expr_start = i + 2;
                let mut depth: usize = 1;
                let mut j: usize = expr_start;
                let mut found = false;
                while j < n && !found
                    invariant
                        expr_start <= j <= n,
                        n == cs@.len(),
                        s == cs@,
                        expr_start >= 2,
                        !found ==> 1 <= depth <= j - expr_start + 1,
                        !found ==> hole_end(s, j as nat, depth as nat) == hole_end(s, expr_start as nat, 1),
                        found ==> j < n && hole_end(s, expr_start as nat, 1) == Some(j as nat),
                    decreases n - j + if found {
                        0int
                    } else {
                        1int
                    },
                {
                    if cs[j] == '{' {
                        depth = depth + 1;
                        j = j + 1;
                    } else if cs[j] == '}' {
                        depth = depth - 1;
                        if depth == 0 {
                            found = true;
                        } else {
                            j = j + 1;
                        }
                    } else {
                        j = j + 1;
                    }
                }
                if !found {
                    let mut t = String::new();
                    push_str(&mut t, "${");
                    let rest = string_of(slice_chars(cs.as_slice(), expr_start, n).as_slice());
                    push_str(&mut t, rest.as_str());
                    push_str(&mut t, "}");
                    proof {
                        assert(hole_end(s, j as nat, depth as nat) is None);
                        let p = Piece::Text("${"@ + s.subrange(expr_start as int, n as int) + "}"@);
                        lemma_syn_parts_push(parts@, InterpPart::Text(t));
                        assert(done.push(p).drop_last() == done);
                        assert(pieces(s, i as nat, text_start as nat) == pre.push(p));
                        done = done.push(p);
                        assert(pieces(s, n as nat, n as nat) == Seq::<Piece>::empty());
                    }
                    parts.push(InterpPart::Text(t));
                    assert(syn_parts(parts@) == parts_s(c, st, done)) by {
                        assert(parts_s(c, st, done) == parts_s(c, st, done.drop_last()).push(SynPart::Text(t@)));
                    }
                    i = n;
                    text_start = n;
                } else {
                    let inner = string_of(slice_chars(cs.as_slice(), expr_start, j).as_slice());
                    let ghost h = s.subrange(expr_start as int, j as int);
                    let ghost p = Piece::Hole(h);
                    if j - expr_start < self.source_len() {
                        let lex = Lexer::new(inner.as_str());
                        let mut sub = Parser::new(lex);
                        proof {
                            sub.lemma_ready();
                        }
                        let e = sub.parse_expr();
                        proof {
                            lemma_syn_parts_push(parts@, InterpPart::Expr(Box::new(e)));
                        }
                        parts.push(InterpPart::Expr(Box::new(e)));
                    } else {
                        proof {
                            lemma_syn_parts_push(parts@, InterpPart::Text(inner));
                        }
                        parts.push(InterpPart::Text(inner));
                    }
                    proof {
                        assert(done.push(p).drop_last() == done);
                        assert(pieces(s, i as nat, text_start as nat) == pre.push(p) + pieces(s, (j + 1) as nat, (j + 1) as nat));
                        done = done.push(p);
                        assert(syn_parts(parts@) == parts_s(c, st, done));
                    }
                    i = j + 1;
                    text_start = i;
                }
            } else {
                i = i + 1;
            }
        }
        if text_start < n {
            let chunk = string_of(slice_chars(cs.as_slice(), text_start, n).as_slice());
            proof {
                let p = Piece::Text(s.subrange(text_start as int, n as int));
                lemma_syn_parts_push(parts@, InterpPart::Text(chunk));
                assert(done.push(p).drop_last() == done);
                done = done.push(p);
            }
            parts.push(InterpPart::Text(chunk));
        }
        assert(done =~= pieces(s, 0, 0));
        if parts.len() == 0 {
            let t = String::new();
            proof {
                lemma_syn_parts_push(parts@, InterpPart::Text(t));
                assert(parts_s(c, st, done) == Seq::<SynPart>::empty());
                assert(done.len() == 0) by {
                    if done.len() > 0 {
                        assert(parts_s(c, st, done).len() == parts_s(c, st, done.drop_last()).len() + 1);
                    }
                }
                let one = seq![Piece::Text(Seq::<char>::empty())];
                assert(one.drop_last() =~= Seq::<Piece>::empty());
            }
            parts.push(InterpPart::Text(t));
        }
        StringLit { parts }
    }
}

/// The message for a token that cannot start a top-level declaration.
pub open spec fn not_item_message(k: TokKind, line: u32, col: u32) -> Seq<char> {
    "期望顶层项（func/struct/enum），得到 "@ + crate::lexer::kind_name(k) + " at "@ + crate::text::dec(
        line as nat,
    ) + ":"@ + crate::text::dec(col as nat)
}

pub proof fn lemma_map_push<A, B>(v: Seq<A>, x: A, f: spec_fn(A) -> B)
    ensures
        v.push(x).map_values(f) == v.map_values(f).push(f(x)),
{
    assert(v.push(x).map_values(f) =~= v.map_values(f).push(f(x)));
}

/// An optional tree, boxed.
fn box_opt(o: Option<Expr>) -> (r: Option<Box<Expr>>)
    ensures
        syn_opt(r) == boxed(opt_syn(o)),
{
    match o {
        Some(e) => Some(Box::new(e)),
        None => None,
    }
}

/// The empty block at `line`:`col`.
fn empty_block(line: u32, col: u32) -> (r: Expr)
    ensures
        syn_of(r) == (Syn { kind: Kind::Block, line, col, data: SynData::Block(seq![]) }),
{
    let stmts: Vec<Expr> = Vec::new();
    assert(syn_list(stmts@) == Seq::<Syn>::empty());
    Expr { kind: Kind::Block, line, col, data: ExprData::Block(Block { stmts }) }
}

impl Parser {
    /// The name at the current token, moving past it; otherwise records `msg`
    /// and gives `error`.
    fn name_or(&mut self, msg: &str) -> (r: String)
        requires
            old(self).wf(),
        ensures
            moved_on(*old(self), *final(self)),
            (r@, final(self).state()) == name_s(old(self).ctx(), old(self).state(), msg@),
    {
        proof {
            self.lemma_ready();
        }
        if self.check(TokKind::Ident) {
            let n = self.current_token().lexeme.clone();
            self.advance();
            n
        } else {
            self.error(msg);
            "error".to_string()
        }
    }

    /// An optional type after `:`: a name, with `?` appended when it is marked optional.
    fn parse_type_annotation(&mut self) -> (r: Option<String>)
        requires
            old(self).wf(),
        ensures
            moved_on(*old(self), *final(self)),
            (opt_str(r), final(self).state()) == type_s(old(self).ctx(), old(self).state()),
    {
        proof {
            self.lemma_ready();
        }
        if !self.match_tok(TokKind::Colon) {
            return None;
        }
        proof {
            self.lemma_ready();
        }
        if !self.check(TokKind::Ident) {
            return None;
        }
        let mut t = self.current_token().lexeme.clone();
        self.advance();
        proof {
            self.lemma_ready();
        }
        if self.match_tok(TokKind::Question) {
            push_str(&mut t, "?");
        }
        Some(t)
    }

    /// A `{ ... }` block of at most 256 statements.
    #[verifier::rlimit(80)]
    #[verifier::spinoff_prover]
    pub fn parse_block(&mut self) -> (r: Expr)
        requires
            old(self).wf(),
        ensures
            moved_on(*old(self), *final(self)),
            (syn_of(r), final(self).state()) == block_s(old(self).ctx(), old(self).state()),
        decreases old(self).source().len(), old(self).stream().len() - old(self).index(), 18nat,
    {
        let ghost c = self.ctx();
        proof {
            self.lemma_ready();
        }
        let line = self.current_token().line;
        let col = self.current_token().col;
        let mut stmts: Vec<Expr> = Vec::new();
        assert(syn_list(stmts@) == Seq::<Syn>::empty());
        if !self.expect(TokKind::LBrace, "'{'") {
            return Expr { kind: Kind::Block, line, col, data: ExprData::Block(Block { stmts }) };
        }
        let ghost s1 = self.state();
        while !self.check(TokKind::RBrace) && !self.check(TokKind::Eof) && stmts.len() < 256
            invariant
                moved_on(*old(self), *self),
                c == self.ctx(),
                c == old(self).ctx(),
                self.index() > old(self).index(),
                ready(c, s1),
                s1.i <= self.index(),
                stmts@.len() <= 256,
                stmts_s(c, s1, seq![]) == stmts_s(c, self.state(), syn_list(stmts@)),
            decreases 256 - stmts@.len(),
        {
            proof {
                self.lemma_ready();
                lemma_syn_list_len(stmts@);
            }
            if self.is_panicking() {
                self.synchronize();
            }
            let st = self.parse_stmt();
            proof {
                lemma_syn_list_push(stmts@, st);
            }
            stmts.push(st);
        }
        proof {
            self.lemma_ready();
            lemma_syn_list_len(stmts@);
        }
        self.expect(TokKind::RBrace, "'}'");
        Expr { kind: Kind::Block, line, col, data: ExprData::Block(Block { stmts }) }
    }

    /// One statement.
    pub fn parse_stmt(&mut self) -> (r: Expr)
        requires
            old(self).wf(),
        ensures
            moved_on(*old(self), *final(self)),
            (syn_of(r), final(self).state()) == stmt_s(old(self).ctx(), old(self).state()),
        decreases old(self).source().len(), old(self).stream().len() - old(self).index(), 17nat,
    {
        proof {
            self.lemma_ready();
        }
        let line = self.current_token().line;
        let col = self.current_token().col;
        let k = self.current_token().kind;
        if k == TokKind::KwLet || k == TokKind::KwConst {
            self.parse_var_decl(false)
        } else if k == TokKind::KwVar {
            self.parse_var_decl(true)
        } else if k == TokKind::KwReturn {
            self.parse_return()
        } else if k == TokKind::KwBreak || k == TokKind::KwContinue {
            self.advance();
            proof {
                self.lemma_ready();
            }
            self.match_tok(TokKind::Semi);
            if k == TokKind::KwBreak {
                Expr { kind: Kind::BreakStmt, line, col, data: ExprData::BreakStmt }
            } else {
                Expr { kind: Kind::ContinueStmt, line, col, data: ExprData::ContinueStmt }
            }
        } else if k == TokKind::KwIf {
            self.parse_if()
        } else if k == TokKind::KwWhile {
            self.parse_while()
        } else if k == TokKind::KwFor {
            self.parse_for()
        } else if k == TokKind::KwMatch {
            self.parse_match()
        } else {
            self.parse_expr_stmt()
        }
    }

    /// `let` / `var` / `const`, an optional `mut`, the name, an optional type and
    /// an optional initial value.
    pub fn parse_var_decl(&mut self, is_mut: bool) -> (r: Expr)
        requires
            old(self).wf(),
        ensures
            moved_on(*old(self), *final(self)),
            (syn_of(r), final(self).state()) == var_decl_s(old(self).ctx(), old(self).state(), is_mut),
        decreases old(self).source().len(), old(self).stream().len() - old(self).index(), 16nat,
    {
        proof {
            self.lemma_ready();
        }
        let line = self.current_token().line;
        let col = self.current_token().col;
        self.advance();
        proof {
            self.lemma_ready();
        }
        let mut is_mut = is_mut;
        if self.match_tok(TokKind::KwMut) {
            is_mut = true;
        }
        let name = self.name_or("期望变量名");
        let ty_name = self.parse_type_annotation();
        proof {
            self.lemma_ready();
        }
        let init = if self.match_tok(TokKind::Eq) {
            Some(self.parse_expr())
        } else {
            None
        };
        let init = box_opt(init);
        proof {
            self.lemma_ready();
        }
        self.match_tok(TokKind::Semi);
        Expr {
            kind: Kind::VarDecl,
            line,
            col,
            data: ExprData::VarDecl(crate::ast::VarDecl { name, ty_name, is_mut, init }),
        }
    }

    /// `return` with an optional value.
    pub fn parse_return(&mut self) -> (r: Expr)
        requires
            old(self).wf(),
        ensures
            moved_on(*old(self), *final(self)),
            (syn_of(r), final(self).state()) == return_s(old(self).ctx(), old(self).state()),
        decreases old(self).source().len(), old(self).stream().len() - old(self).index(), 16nat,
    {
        proof {
            self.lemma_ready();
        }
        let line = self.current_token().line;
        let col = self.current_token().col;
        self.advance();
        proof {
            self.lemma_ready();
        }
        let value = if !self.check(TokKind::Semi) && !self.check(TokKind::RBrace) && !self.check(
            TokKind::Eof,
        ) {
            Some(self.parse_expr())
        } else {
            None
        };
        let value = box_opt(value);
        proof {
            self.lemma_ready();
        }
        self.match_tok(TokKind::Semi);
        Expr { kind: Kind::ReturnStmt, line, col, data: ExprData::ReturnStmt(crate::ast::ReturnStmt { value }) }
    }

    /// An expression used as a statement.
    pub fn parse_expr_stmt(&mut self) -> (r: Expr)
        requires
            old(self).wf(),
        ensures
            moved_on(*old(self), *final(self)),
            (syn_of(r), final(self).state()) == expr_stmt_s(old(self).ctx(), old(self).state()),
        decreases old(self).source().len(), old(self).stream().len() - old(self).index(), 16nat,
    {
        proof {
            self.lemma_ready();
        }
        let line = self.current_token().line;
        let col = self.current_token().col;
        let e = self.parse_expr();
        proof {
            self.lemma_ready();
        }
        self.match_tok(TokKind::Semi);
        Expr { kind: Kind::ExprStmt, line, col, data: ExprData::ExprStmt(crate::ast::ExprStmt { expr: Box::new(e) }) }
    }

    /// A condition, with or without parentheses.
    fn parse_condition(&mut self) -> (r: Expr)
        requires
            old(self).wf(),
        ensures
            moved_on(*old(self), *final(self)),
            (syn_of(r), final(self).state()) == cond_s(old(self).ctx(), old(self).state()),
        decreases old(self).source().len(), old(self).stream().len() - old(self).index(), 16nat,
    {
        proof {
            self.lemma_ready();
        }
        if self.match_tok(TokKind::LParen) {
            let c = self.parse_expr();
            proof {
                self.lemma_ready();
            }
            self.expect(TokKind::RParen, "')'");
            c
        } else {
            self.parse_expr()
        }
    }

    /// `if` with an optional `else` block or `else if`.
    pub fn parse_if(&mut self) -> (r: Expr)
        requires
            old(self).wf(),
            old(self).current().kind != TokKind::Eof,
        ensures
            moved_on(*old(self), *final(self)),
            (syn_of(r), final(self).state()) == if_s(old(self).ctx(), old(self).state()),
        decreases old(self).source().len(), old(self).stream().len() - old(self).index(), 16nat,
    {
        proof {
            self.lemma_ready();
        }
        let line = self.current_token().line;
        let col = self.current_token().col;
        self.advance();
        let cond = self.parse_condition();
        let then_block = self.parse_block();
        proof {
            self.lemma_ready();
        }
        let else_block = if self.match_tok(TokKind::KwElse) {
            proof {
                self.lemma_ready();
            }
            if self.check(TokKind::KwIf) {
                Some(self.parse_if())
            } else {
                Some(self.parse_block())
            }
        } else {
            None
        };
        let else_block = box_opt(else_block);
        Expr {
            kind: Kind::IfStmt,
            line,
            col,
            data: ExprData::IfStmt(
                crate::ast::IfStmt { cond: Box::new(cond), then_block: Box::new(then_block), else_block },
            ),
        }
    }

    /// `while` with its condition and body.
    pub fn parse_while(&mut self) -> (r: Expr)
        requires
            old(self).wf(),
            old(self).current().kind != TokKind::Eof,
        ensures
            moved_on(*old(self), *final(self)),
            (syn_of(r), final(self).state()) == while_s(old(self).ctx(), old(self).state()),
        decreases old(self).source().len(), old(self).stream().len() - old(self).index(), 16nat,
    {
        proof {
            self.lemma_ready();
        }
        let line = self.current_token().line;
        let col = self.current_token().col;
        self.advance();
        let cond = self.parse_condition();
        let body = self.parse_block();
        Expr {
            kind: Kind::WhileStmt,
            line,
            col,
            data: ExprData::WhileStmt(crate::ast::WhileStmt { cond: Box::new(cond), body: Box::new(body) }),
        }
    }

    /// `for x in e { }` or `for x from a to b [step s] { }`; an empty block where
    /// the header is malformed.
    #[verifier::rlimit(80)]
    #[verifier::spinoff_prover]
    pub fn parse_for(&mut self) -> (r: Expr)
        requires
            old(self).wf(),
            old(self).current().kind != TokKind::Eof,
        ensures
            moved_on(*old(self), *final(self)),
            (syn_of(r), final(self).state()) == for_s(old(self).ctx(), old(self).state()),
        decreases old(self).source().len(), old(self).stream().len() - old(self).index(), 16nat,
    {
        let ghost s0 = self.state();
        proof {
            self.lemma_ready();
        }
        let line = self.current_token().line;
        let col = self.current_token().col;
        self.advance();
        proof {
            self.lemma_ready();
        }
        if !self.check(TokKind::Ident) {
            self.error("期望循环变量名");
            return empty_block(line, col);
        }
        let var_name = self.current_token().lexeme.clone();
        self.advance();
        proof {
            self.lemma_ready();
        }
        if self.match_tok(TokKind::KwIn) {
            let iter = self.parse_expr();
            proof {
                lemma_syn_opt_some(iter);
                lemma_syn_opt_none();
            }
            let body = self.parse_block();
            Expr {
                kind: Kind::ForStmt,
                line,
                col,
                data: ExprData::ForStmt(
                    crate::ast::ForStmt {
                        kind: crate::ast::ForKind::ForIn,
                        var_name,
                        iterable: Some(Box::new(iter)),
                        start: None,
                        end: None,
                        step: None,
                        body: Box::new(body),
                    },
                ),
            }
        } else if self.match_tok(TokKind::KwFrom) {
            self.parse_for_range(var_name, line, col, Ghost(s0))
        } else {
            self.error("期望 'in' 或 'from'");
            empty_block(line, col)
        }
    }

    /// After `for x from` (the `for` at `line`:`col`): `a to b [step s] { }`.
    #[verifier::rlimit(80)]
    #[verifier::spinoff_prover]
    fn parse_for_range(&mut self, var_name: String, line: u32, col: u32, Ghost(at): Ghost<PState>) -> (r: Expr)
        requires
            old(self).wf(),
            (line, col) == pos_of(old(self).ctx(), at),
        ensures
            moved_on(*old(self), *final(self)),
            (syn_of(r), final(self).state()) == for_range_s(old(self).ctx(), old(self).state(), var_name@, at),
        decreases old(self).source().len(), old(self).stream().len() - old(self).index(), 17nat,
    {
        proof {
            self.lemma_ready();
        }
        let start = self.parse_expr();
        proof {
            self.lemma_ready();
        }
        if !self.expect(TokKind::KwTo, "'to' 或 'downto'") {
            return empty_block(line, col);
        }
        let end = self.parse_expr();
        proof {
            self.lemma_ready();
        }
        let step = if self.match_tok(TokKind::KwStep) {
            Some(self.parse_expr())
        } else {
            None
        };
        let step = box_opt(step);
        proof {
            lemma_syn_opt_some(start);
            lemma_syn_opt_some(end);
            lemma_syn_opt_none();
        }
        let body = self.parse_block();
        Expr {
            kind: Kind::ForStmt,
            line,
            col,
            data: ExprData::ForStmt(
                crate::ast::ForStmt {
                    kind: crate::ast::ForKind::ForRange,
                    var_name,
                    iterable: None,
                    start: Some(Box::new(start)),
                    end: Some(Box::new(end)),
                    step,
                    body: Box::new(body),
                },
            ),
        }
    }

    /// Moves to the token `close` (or `Eof`) without passing it.
    fn skip_until(&mut self, close: TokKind)
        requires
            old(self).wf(),
        ensures
            moved_on(*old(self), *final(self)),
            final(self).state() == skip_s(old(self).ctx(), old(self).state(), close),
    {
        let ghost c = self.ctx();
        let ghost s0 = self.state();
        proof {
            self.lemma_ready();
        }
        while !self.check(close) && !self.check(TokKind::Eof)
            invariant
                moved_on(*old(self), *self),
                c == self.ctx(),
                ready(c, self.state()),
                skip_s(c, s0, close) == skip_s(c, self.state(), close),
            decreases self.stream().len() - self.index(),
        {
            proof {
                self.lemma_ready();
            }
            self.advance();
        }
        proof {
            self.lemma_ready();
        }
    }

    /// A match arm's pattern.
    fn parse_pattern(&mut self) -> (r: String)
        requires
            old(self).wf(),
        ensures
            moved_on(*old(self), *final(self)),
            (r@, final(self).state()) == pattern_s(old(self).ctx(), old(self).state()),
    {
        proof {
            self.lemma_ready();
        }
        let k = self.current_token().kind;
        if k == TokKind::KwTrue {
            self.advance();
            "true".to_string()
        } else if k == TokKind::KwFalse {
            self.advance();
            "false".to_string()
        } else if k == TokKind::IntLit || k == TokKind::FloatLit || k == TokKind::StringLit || k
            == TokKind::Ident {
            let s = self.current_token().lexeme.clone();
            self.advance();
            s
        } else {
            "_".to_string()
        }
    }

    /// The arms of a match, at most 32; after a malformed arm, the rest up to `}` is skipped.
    #[verifier::rlimit(80)]
    #[verifier::spinoff_prover]
    fn parse_arms(&mut self) -> (r: Vec<MatchArm>)
        requires
            old(self).wf(),
        ensures
            moved_on(*old(self), *final(self)),
            (syn_arms(r@), final(self).state()) == arms_s(old(self).ctx(), old(self).state(), seq![]),
    {
        let ghost c = self.ctx();
        let ghost s0 = self.state();
        proof {
            self.lemma_ready();
        }
        let mut arms: Vec<MatchArm> = Vec::new();
        assert(syn_arms(arms@) == Seq::<(Seq<char>, Syn)>::empty());
        while !self.check(TokKind::RBrace) && !self.check(TokKind::Eof) && arms.len() < 32
            invariant
                moved_on(*old(self), *self),
                c == self.ctx(),
                c == old(self).ctx(),
                ready(c, self.state()),
                ready(c, s0),
                s0 == old(self).state(),
                arms@.len() <= 32,
                arms_s(c, s0, seq![]) == arms_s(c, self.state(), syn_arms(arms@)),
            decreases 32 - arms@.len(),
        {
            proof {
                self.lemma_ready();
                lemma_syn_arms_len(arms@);
            }
            let ghost st = self.state();
            if self.is_panicking() {
                self.synchronize();
            }
            let ghost st1 = self.state();
            let pattern = self.parse_pattern();
            proof {
                self.lemma_ready();
            }
            let ghost st2 = self.state();
            if !self.expect(TokKind::FatArrow, "'=>'") {
                let ghost st3 = self.state();
                self.skip_until(TokKind::RBrace);
                assert(arms_s(c, st, syn_arms(arms@)) == (syn_arms(arms@), skip_s(c, st3, TokKind::RBrace)));
                return arms;
            }
            let body = self.parse_expr();
            let arm = MatchArm { pattern, body: Box::new(body) };
            proof {
                lemma_syn_arms_push(arms@, arm);
            }
            arms.push(arm);
            proof {
                self.lemma_ready();
            }
            self.match_tok(TokKind::Comma);
            proof {
                self.lemma_ready();
            }
        }
        proof {
            self.lemma_ready();
            lemma_syn_arms_len(arms@);
        }
        arms
    }

    /// `match` with at most 32 arms `pattern => expr`; an empty block where `{`
    /// is missing.
    pub fn parse_match(&mut self) -> (r: Expr)
        requires
            old(self).wf(),
        ensures
            moved_on(*old(self), *final(self)),
            (syn_of(r), final(self).state()) == match_stmt_s(old(self).ctx(), old(self).state()),
        decreases old(self).source().len(), old(self).stream().len() - old(self).index(), 16nat,
    {
        proof {
            self.lemma_ready();
        }
        let line = self.current_token().line;
        let col = self.current_token().col;
        self.advance();
        let scrutinee = self.parse_expr();
        proof {
            self.lemma_ready();
        }
        if !self.expect(TokKind::LBrace, "'{'") {
            return empty_block(line, col);
        }
        let arms = self.parse_arms();
        proof {
            self.lemma_ready();
        }
        self.expect(TokKind::RBrace, "'}'");
        Expr {
            kind: Kind::MatchStmt,
            line,
            col,
            data: ExprData::MatchStmt(crate::ast::MatchStmt { scrutinee: Box::new(scrutinee), arms }),
        }
    }

    /// Parameters: names with optional types, separated by commas.
    fn parse_params(&mut self) -> (r: Vec<crate::ast::Param>)
        requires
            old(self).wf(),
        ensures
            moved_on(*old(self), *final(self)),
            (syn_params(r@), final(self).state()) == params_s(old(self).ctx(), old(self).state(), seq![]),
    {
        let ghost c = self.ctx();
        let ghost s0 = self.state();
        proof {
            self.lemma_ready();
        }
        let mut params: Vec<crate::ast::Param> = Vec::new();
        assert(syn_params(params@) =~= Seq::<(Seq<char>, Option<Seq<char>>)>::empty());
        loop
            invariant
                moved_on(*old(self), *self),
                c == self.ctx(),
                c == old(self).ctx(),
                s0 == old(self).state(),
                params_s(c, s0, seq![]) == params_s(c, self.state(), syn_params(params@)),
            decreases self.stream().len() - self.index(),
        {
            proof {
                self.lemma_ready();
            }
            if !self.check(TokKind::Ident) {
                self.error("期望参数名");
                return params;
            }
            let pname = self.current_token().lexeme.clone();
            self.advance();
            let ptype = self.parse_type_annotation();
            let p = crate::ast::Param { name: pname, ty_name: ptype };
            proof {
                lemma_map_push(params@, p, |p: crate::ast::Param| (p.name@, opt_str(p.ty_name)));
            }
            params.push(p);
            proof {
                self.lemma_ready();
            }
            if !self.match_tok(TokKind::Comma) {
                return params;
            }
        }
    }

    /// `func name(params) [-> type] { body }`.
    #[verifier::rlimit(80)]
    #[verifier::spinoff_prover]
    pub fn parse_function(&mut self) -> (r: Expr)
        requires
            old(self).wf(),
        ensures
            moved_on(*old(self), *final(self)),
            (syn_of(r), final(self).state()) == function_s(old(self).ctx(), old(self).state()),
    {
        proof {
            self.lemma_ready();
        }
        let line = self.current_token().line;
        let col = self.current_token().col;
        self.advance();
        let name = self.name_or("期望函数名");
        let mut params: Vec<crate::ast::Param> = Vec::new();
        proof {
            self.lemma_ready();
        }
        if self.match_tok(TokKind::LParen) {
            proof {
                self.lemma_ready();
            }
            if !self.check(TokKind::RParen) {
                params = self.parse_params();
            }
            proof {
                self.lemma_ready();
            }
            self.expect(TokKind::RParen, "')'");
        }
        proof {
            self.lemma_ready();
        }
        let ret_type = if self.match_tok(TokKind::Arrow) {
            proof {
                self.lemma_ready();
            }
            if self.check(TokKind::Ident) {
                let t = self.current_token().lexeme.clone();
                self.advance();
                Some(t)
            } else {
                self.error("期望返回类型");
                None
            }
        } else {
            None
        };
        assert(syn_params(Seq::<crate::ast::Param>::empty()) =~= Seq::<(Seq<char>, Option<Seq<char>>)>::empty());
        let body = self.parse_block();
        Expr {
            kind: Kind::Function,
            line,
            col,
            data: ExprData::Function(crate::ast::Function { name, params, ret_type, body: Box::new(body) }),
        }
    }

    /// Struct fields, at most 64; tokens other than names are skipped.
    fn parse_fields(&mut self) -> (r: Vec<crate::ast::FieldDecl>)
        requires
            old(self).wf(),
        ensures
            moved_on(*old(self), *final(self)),
            (syn_fields(r@), final(self).state()) == fields_s(old(self).ctx(), old(self).state(), seq![]),
    {
        let ghost c = self.ctx();
        let ghost s0 = self.state();
        proof {
            self.lemma_ready();
        }
        let mut fields: Vec<crate::ast::FieldDecl> = Vec::new();
        assert(syn_fields(fields@) =~= Seq::<(Seq<char>, Option<Seq<char>>)>::empty());
        while !self.check(TokKind::RBrace) && !self.check(TokKind::Eof) && fields.len() < 64
            invariant
                moved_on(*old(self), *self),
                c == self.ctx(),
                c == old(self).ctx(),
                ready(c, s0),
                s0 == old(self).state(),
                fields_s(c, s0, seq![]) == fields_s(c, self.state(), syn_fields(fields@)),
            decreases self.stream().len() - self.index(),
        {
            proof {
                self.lemma_ready();
            }
            if self.check(TokKind::Ident) {
                let fname = self.current_token().lexeme.clone();
                self.advance();
                proof {
                    self.lemma_ready();
                }
                if !self.expect(TokKind::Colon, "':'") {
                    return fields;
                }
                proof {
                    self.lemma_ready();
                }
                let ftype = if self.check(TokKind::Ident) {
                    let t = self.current_token().lexeme.clone();
                    self.advance();
                    t
                } else {
                    self.error("期望类型");
                    "?".to_string()
                };
                let f = crate::ast::field_decl(fname, ftype);
                proof {
                    lemma_map_push(fields@, f, |f: crate::ast::FieldDecl| (f.name@, opt_str(f.ty_name)));
                }
                fields.push(f);
                proof {
                    self.lemma_ready();
                }
                self.match_tok(TokKind::Comma);
            } else {
                self.advance();
            }
        }
        proof {
            self.lemma_ready();
        }
        fields
    }

    /// `struct Name { field: Type, ... }` with at most 64 fields.
    pub fn parse_struct(&mut self) -> (r: Expr)
        requires
            old(self).wf(),
        ensures
            moved_on(*old(self), *final(self)),
            (syn_of(r), final(self).state()) == struct_s(old(self).ctx(), old(self).state()),
    {
        proof {
            self.lemma_ready();
        }
        let line = self.current_token().line;
        let col = self.current_token().col;
        self.advance();
        let name = self.name_or("期望 struct 名");
        let mut fields: Vec<crate::ast::FieldDecl> = Vec::new();
        assert(syn_fields(fields@) =~= Seq::<(Seq<char>, Option<Seq<char>>)>::empty());
        proof {
            self.lemma_ready();
        }
        if self.expect(TokKind::LBrace, "'{'") {
            fields = self.parse_fields();
            proof {
                self.lemma_ready();
            }
            self.expect(TokKind::RBrace, "'}'");
        }
        Expr {
            kind: Kind::StructDecl,
            line,
            col,
            data: ExprData::StructDecl(crate::ast::StructDecl { name, fields }),
        }
    }

    /// Moves past the closing token after skipping to it (or to `Eof`).
    fn skip_to(&mut self, close: TokKind, what: &str)
        requires
            old(self).wf(),
        ensures
            moved_on(*old(self), *final(self)),
            final(self).state() == expect_s(
                old(self).ctx(),
                skip_s(old(self).ctx(), old(self).state(), close),
                close,
                what@,
            ).1,
    {
        self.skip_until(close);
        proof {
            self.lemma_ready();
        }
        self.expect(close, what);
    }

    /// Enum variants, at most 64; tokens other than names are skipped.
    fn parse_variants(&mut self) -> (r: Vec<crate::ast::VariantDecl>)
        requires
            old(self).wf(),
        ensures
            moved_on(*old(self), *final(self)),
            (syn_variants(r@), final(self).state()) == variants_s(old(self).ctx(), old(self).state(), seq![]),
    {
        let ghost c = self.ctx();
        let ghost s0 = self.state();
        proof {
            self.lemma_ready();
        }
        let mut variants: Vec<crate::ast::VariantDecl> = Vec::new();
        assert(syn_variants(variants@) =~= Seq::<(Seq<char>, Option<Seq<char>>)>::empty());
        while !self.check(TokKind::RBrace) && !self.check(TokKind::Eof) && variants.len() < 64
            invariant
                moved_on(*old(self), *self),
                c == self.ctx(),
                c == old(self).ctx(),
                ready(c, s0),
                variants_s(c, s0, seq![]) == variants_s(c, self.state(), syn_variants(variants@)),
            decreases self.stream().len() - self.index(),
        {
            proof {
                self.lemma_ready();
            }
            if self.check(TokKind::Ident) {
                let vname = self.current_token().lexeme.clone();
                self.advance();
                proof {
                    self.lemma_ready();
                }
                let payload = if self.match_tok(TokKind::LParen) {
                    self.skip_to(TokKind::RParen, "')'");
                    Some("...".to_string())
                } else if self.match_tok(TokKind::LBrace) {
                    self.skip_to(TokKind::RBrace, "'}'");
                    Some("{...}".to_string())
                } else {
                    None
                };
                let v = crate::ast::VariantDecl { name: vname, payload };
                proof {
                    lemma_map_push(variants@, v, |v: crate::ast::VariantDecl| (v.name@, opt_str(v.payload)));
                }
                variants.push(v);
                proof {
                    self.lemma_ready();
                }
                self.match_tok(TokKind::Comma);
            } else {
                self.advance();
            }
        }
        proof {
            self.lemma_ready();
        }
        variants
    }

    /// `enum Name { Variant, Variant(...), Variant { ... } }` with at most 64 variants.
    pub fn parse_enum(&mut self) -> (r: Expr)
        requires
            old(self).wf(),
        ensures
            moved_on(*old(self), *final(self)),
            (syn_of(r), final(self).state()) == enum_s(old(self).ctx(), old(self).state()),
    {
        proof {
            self.lemma_ready();
        }
        let line = self.current_token().line;
        let col = self.current_token().col;
        self.advance();
        let name = self.name_or("期望 enum 名");
        let mut variants: Vec<crate::ast::VariantDecl> = Vec::new();
        assert(syn_variants(variants@) =~= Seq::<(Seq<char>, Option<Seq<char>>)>::empty());
        proof {
            self.lemma_ready();
        }
        if self.expect(TokKind::LBrace, "'{'") {
            variants = self.parse_variants();
            proof {
                self.lemma_ready();
            }
            self.expect(TokKind::RBrace, "'}'");
        }
        Expr {
            kind: Kind::EnumDecl,
            line,
            col,
            data: ExprData::EnumDecl(crate::ast::EnumDecl { name, variants }),
        }
    }

    /// A top-level declaration; `None`, with an error recorded and the cursor
    /// moved to the next place to resume, where the token starts none.
    pub fn parse_item(&mut self) -> (r: Option<Expr>)
        requires
            old(self).wf(),
        ensures
            moved_on(*old(self), *final(self)),
            (opt_syn(r), final(self).state()) == item_s(old(self).ctx(), old(self).state()),
    {
        proof {
            self.lemma_ready();
        }
        let k = self.current_token().kind;
        if k == TokKind::KwFunc {
            Some(self.parse_function())
        } else if k == TokKind::KwStruct {
            Some(self.parse_struct())
        } else if k == TokKind::KwEnum {
            Some(self.parse_enum())
        } else {
            let line = self.current_token().line;
            let col = self.current_token().col;
            let mut msg = String::new();
            push_str(&mut msg, "期望顶层项（func/struct/enum），得到 ");
            push_str(&mut msg, tok_kind_name(k));
            push_str(&mut msg, " at ");
            crate::text::push_usize(&mut msg, line as usize);
            push_str(&mut msg, ":");
            crate::text::push_usize(&mut msg, col as usize);
            self.error(msg.as_str());
            self.synchronize();
            None
        }
    }

    /// The whole source: its top-level declarations, at most 256, in order, until
    /// `Eof`. After an error the cursor resumes at the next declaration; a
    /// statement keyword at the top level, where nothing can resume, is skipped.
    pub fn parse_program(&mut self) -> (r: Expr)
        requires
            old(self).wf(),
        ensures
            moved_on(*old(self), *final(self)),
            (syn_of(r), final(self).state()) == program_s(old(self).ctx(), old(self).state()),
    {
        let ghost c = self.ctx();
        let ghost s0 = self.state();
        proof {
            self.lemma_ready();
        }
        let line = self.current_token().line;
        let col = self.current_token().col;
        let mut items: Vec<Expr> = Vec::new();
        assert(syn_list(items@) == Seq::<Syn>::empty());
        while !self.check(TokKind::Eof) && items.len() < 256
            invariant
                moved_on(*old(self), *self),
                c == self.ctx(),
                c == old(self).ctx(),
                ready(c, s0),
                items@.len() <= 256,
                items_s(c, s0, seq![]) == items_s(c, self.state(), syn_list(items@)),
            decreases (self.stream().len() - self.index()) + (256 - items@.len()),
        {
            proof {
                self.lemma_ready();
                lemma_syn_list_len(items@);
            }
            let ghost st = self.state();
            if self.is_panicking() {
                self.synchronize();
            }
            match self.parse_item() {
                Some(item) => {
                    proof {
                        lemma_syn_list_push(items@, item);
                    }
                    items.push(item);
                },
                None => {
                    proof {
                        self.lemma_ready();
                    }
                    let k = self.current_token().kind;
                    if k != TokKind::Eof && k != TokKind::KwFunc && k != TokKind::KwStruct && k
                        != TokKind::KwEnum {
                        self.advance();
                    }
                },
            }
        }
        proof {
            self.lemma_ready();
            lemma_syn_list_len(items@);
        }
        Expr {
            kind: Kind::Program,
            line,
            col,
            data: ExprData::Program(crate::ast::Program { items }),
        }
    }
}

} // verus!
