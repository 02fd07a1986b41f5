//! The parser's token cursor: one token of lookahead, error recording with
//! panic mode, and recovery to the start of the next statement.
//!
//! The cursor walks the token stream that the lexer produces; the stream ends
//! with `Eof`, and advancing past `Eof` stays on it.
use vstd::prelude::*;
use crate::lexer::{
    kind_name, lemma_stream, line_col, next_tok, tok_kind_name, tokens_from, Lexer, TokKind, Token,
};
use crate::text::{dec, push_str, push_usize};

verus! {

/// A parse error at a 1-based line and column.
#[derive(Debug, Clone)]
pub struct ParseError {
    pub line: u32,
    pub col: u32,
    pub message: String,
}

// ---------------------------------------------------------------------
// The token stream
// ---------------------------------------------------------------------

/// A token of the stream: kind, lexeme and start position.
pub type Tok = (TokKind, Seq<char>, nat);

/// Token `i` of the stream; past the end, the final `Eof`.
pub open spec fn tok_at(st: Seq<Tok>, i: nat) -> Tok {
    if i < st.len() {
        st[i as int]
    } else {
        st.last()
    }
}

/// The stream from token `i` on (at least the final `Eof`).
pub open spec fn stream_from(st: Seq<Tok>, i: nat) -> Seq<Tok> {
    if i < st.len() {
        st.skip(i as int)
    } else {
        st.skip(st.len() - 1)
    }
}

/// `t` is the stream token `e` of the source `s`.
pub open spec fn shows(t: Token, e: Tok, s: Seq<char>) -> bool {
    &&& t.kind == e.0
    &&& t.lexeme@ == e.1
    &&& (t.line as nat, t.col as nat) == line_col(s, e.2)
}

/// A stream as the lexer produces it: non-empty, with `Eof` last and only there.
pub open spec fn stream_shape(st: Seq<Tok>) -> bool {
    &&& st.len() >= 1
    &&& st.last().0 == TokKind::Eof
    &&& forall|i: int| 0 <= i < st.len() - 1 ==> (#[trigger] st[i]).0 != TokKind::Eof
}

/// Kinds at which error recovery stops: the start of a declaration or statement.
pub open spec fn is_sync_kind(k: TokKind) -> bool {
    ||| k == TokKind::KwFunc
    ||| k == TokKind::KwStruct
    ||| k == TokKind::KwEnum
    ||| k == TokKind::KwVar
    ||| k == TokKind::KwLet
    ||| k == TokKind::KwConst
    ||| k == TokKind::KwIf
    ||| k == TokKind::KwWhile
    ||| k == TokKind::KwFor
    ||| k == TokKind::KwReturn
}

/// The first token at or after `i` that is `Eof` or starts a statement.
pub open spec fn sync_point(st: Seq<Tok>, i: nat) -> nat
    decreases st.len() - i,
{
    if i + 1 >= st.len() || st[i as int].0 == TokKind::Eof || is_sync_kind(st[i as int].0) {
        i
    } else {
        sync_point(st, i + 1)
    }
}

/// Recovery stops at the first token, from `i` on, that is `Eof` or starts a
/// declaration or statement, and skips only tokens that are neither.
pub proof fn lemma_sync_point(st: Seq<Tok>, i: nat)
    requires
        stream_shape(st),
        i < st.len(),
    ensures
        i <= sync_point(st, i) < st.len(),
        st[sync_point(st, i) as int].0 == TokKind::Eof || is_sync_kind(st[sync_point(st, i) as int].0),
        forall|k: int|
            i <= k < sync_point(st, i) ==> (#[trigger] st[k]).0 != TokKind::Eof && !is_sync_kind(st[k].0),
    decreases st.len() - i,
{
    if !(i + 1 >= st.len() || st[i as int].0 == TokKind::Eof || is_sync_kind(st[i as int].0)) {
        lemma_sync_point(st, i + 1);
    } else if i + 1 >= st.len() {
        assert(st[i as int] == st.last());
    }
}

/// The message of a failed `expect`.
pub open spec fn expect_message(what: Seq<char>, k: TokKind, line: u32, col: u32) -> Seq<char> {
    "期望 "@ + what + ", 得到 "@ + kind_name(k) + " at "@ + dec(line as nat) + ":"@ + dec(col as nat)
}

// ---------------------------------------------------------------------
// The cursor as a value
// ---------------------------------------------------------------------

/// What a parse reads: the token stream and the source it came from (for positions).
pub struct Ctx {
    pub st: Seq<Tok>,
    pub src: Seq<char>,
}

/// Where a parse stands: the current index, whether an error is being recovered
/// from, and the error recorded so far.
pub struct PState {
    pub i: nat,
    pub panic: bool,
    pub err: Option<(u32, u32, Seq<char>)>,
}

/// The stream is as the lexer makes it and the index lies in it.
pub open spec fn ready(c: Ctx, s: PState) -> bool {
    stream_shape(c.st) && s.i < c.st.len()
}

/// The current token.
pub open spec fn cur(c: Ctx, s: PState) -> Tok {
    tok_at(c.st, s.i)
}

/// Line and column of the current token.
pub open spec fn pos_of(c: Ctx, s: PState) -> (u32, u32) {
    let lc = line_col(c.src, cur(c, s).2);
    (lc.0 as u32, lc.1 as u32)
}

/// Moving past the current token (staying on `Eof`).
pub open spec fn adv(c: Ctx, s: PState) -> PState {
    PState {
        i: if s.i + 1 < c.st.len() {
            s.i + 1
        } else {
            s.i
        },
        ..s
    }
}

/// Recording `msg` at the current token, unless an error is being recovered from.
pub open spec fn fail(c: Ctx, s: PState, msg: Seq<char>) -> PState {
    PState {
        panic: true,
        err: if s.panic {
            s.err
        } else {
            Some((pos_of(c, s).0, pos_of(c, s).1, msg))
        },
        ..s
    }
}

/// Moving past a token of kind `k`, if it is the current one.
pub open spec fn accept(c: Ctx, s: PState, k: TokKind) -> (bool, PState) {
    if cur(c, s).0 == k {
        (true, adv(c, s))
    } else {
        (false, s)
    }
}

/// Moving past a token of kind `k`, or failing with the `expect` message.
pub open spec fn expect_s(c: Ctx, s: PState, k: TokKind, what: Seq<char>) -> (bool, PState) {
    if cur(c, s).0 == k {
        (true, adv(c, s))
    } else {
        (false, fail(c, s, expect_message(what, cur(c, s).0, pos_of(c, s).0, pos_of(c, s).1)))
    }
}

/// Recovery: out of panic mode, at the next place to resume.
pub open spec fn resync(c: Ctx, s: PState) -> PState {
    PState { i: sync_point(c.st, s.i), panic: false, err: s.err }
}

// ---------------------------------------------------------------------
// The parser's cursor
// ---------------------------------------------------------------------

/// The parser: the lexer, the current token, one token of lookahead, and the
/// error state (panic mode suppresses further errors until recovery).
pub struct Parser {
    lex: Lexer,
    current: Token,
    peeked: Option<Token>,
    panic_mode: bool,
    last_error: Option<ParseError>,
    stream: Ghost<Seq<Tok>>,
    index: Ghost<nat>,
}

impl Parser {
    /// The tokens of the source from where the lexer stood when the parser was made.
    pub closed spec fn stream(&self) -> Seq<Tok> {
        self.stream@
    }

    /// Position of the current token in the stream.
    pub closed spec fn index(&self) -> nat {
        self.index@
    }

    pub closed spec fn source(&self) -> Seq<char> {
        self.lex.src()
    }

    pub closed spec fn current(&self) -> Token {
        self.current
    }

    pub closed spec fn panicking(&self) -> bool {
        self.panic_mode
    }

    /// The recorded error: line, column and message.
    pub closed spec fn recorded(&self) -> Option<(u32, u32, Seq<char>)> {
        match self.last_error {
            Some(e) => Some((e.line, e.col, e.message@)),
            None => None,
        }
    }

    /// The stream and source as a value.
    pub open spec fn ctx(&self) -> Ctx {
        Ctx { st: self.stream(), src: self.source() }
    }

    /// The index and error state as a value.
    pub open spec fn state(&self) -> PState {
        PState { i: self.index(), panic: self.panicking(), err: self.recorded() }
    }

    pub closed spec fn wf(&self) -> bool {
        &&& self.lex.wf()
        &&& stream_shape(self.stream@)
        &&& self.index@ < self.stream@.len()
        &&& shows(self.current, self.stream@[self.index@ as int], self.lex.src())
        &&& match self.peeked {
            Some(t) => {
                &&& shows(t, tok_at(self.stream@, self.index@ + 1), self.lex.src())
                &&& tokens_from(self.lex.src(), self.lex.position()) == stream_from(
                    self.stream@,
                    self.index@ + 2,
                )
            },
            None => tokens_from(self.lex.src(), self.lex.position()) == stream_from(
                self.stream@,
                self.index@ + 1,
            ),
        }
    }

    /// A parser on the lexer's tokens, its current token the first one.
    pub fn new(lex: Lexer) -> (p: Parser)
        requires
            lex.wf(),
        ensures
            p.wf(),
            p.index() < p.stream().len(),
            p.stream() == tokens_from(lex.src(), lex.position()),
            p.source() == lex.src(),
            p.index() == 0,
            !p.panicking(),
            p.recorded() is None,
    {
        let mut lex = lex;
        let ghost s = lex.src();
        let ghost p0 = lex.position();
        proof {
            lex.lemma_position();
            lemma_stream(s, p0);
        }
        let first = lex.next_token();
        let ghost st = tokens_from(s, p0);
        proof {
            let t = next_tok(s, p0);
            if t.0 != TokKind::Eof {
                assert(stream_from(st, 1) == st.drop_first());
            } else {
                assert(stream_from(st, 1) =~= st);
            }
        }
        Parser {
            lex,
            current: first,
            peeked: None,
            panic_mode: false,
            last_error: None,
            stream: Ghost(st),
            index: Ghost(0),
        }
    }

    /// Reads the next token from the lexer: the token at `j` of the stream.
    fn read(&mut self, Ghost(j): Ghost<nat>) -> (t: Token)
        requires
            old(self).lex.wf(),
            stream_shape(old(self).stream@),
            tokens_from(old(self).lex.src(), old(self).lex.position()) == stream_from(
                old(self).stream@,
                j,
            ),
        ensures
            final(self).lex.wf(),
            final(self).lex.src() == old(self).lex.src(),
            shows(t, tok_at(old(self).stream@, j), old(self).lex.src()),
            tokens_from(final(self).lex.src(), final(self).lex.position()) == stream_from(
                old(self).stream@,
                j + 1,
            ),
            final(self).current == old(self).current,
            final(self).peeked == old(self).peeked,
            final(self).panic_mode == old(self).panic_mode,
            final(self).last_error == old(self).last_error,
            final(self).stream == old(self).stream,
            final(self).index == old(self).index,
    {
        let ghost s = self.lex.src();
        let ghost p = self.lex.position();
        let ghost st = self.stream@;
        proof {
            crate::lexer::lemma_line_col_bound(s, 0);
        }
        let t = self.lex.next_token();
        proof {
            old(self).lex.lemma_position();
            lemma_stream(s, p);
            let nt = next_tok(s, p);
            let m: int = if j < st.len() {
                j as int
            } else {
                st.len() - 1
            };
            assert(stream_from(st, j) == st.skip(m));
            assert(st.skip(m)[0] == st[m]);
            assert(tok_at(st, j) == st[m]);
            if nt.0 != TokKind::Eof {
                assert(m < st.len() - 1);
                assert(st.skip(m).drop_first() =~= st.skip(m + 1));
                assert(stream_from(st, j + 1) == st.skip(m + 1));
            } else {
                assert(m == st.len() - 1);
                assert(stream_from(st, j + 1) == st.skip(m));
            }
        }
        t
    }

    /// The token after the current one, without moving.
    pub fn peek(&mut self) -> (t: Token)
        requires
            old(self).wf(),
        ensures
            final(self).wf(),
            final(self).index() < final(self).stream().len(),
            shows(t, tok_at(old(self).stream(), old(self).index() + 1), old(self).source()),
            final(self).stream() == old(self).stream(),
            final(self).index() == old(self).index(),
            final(self).source() == old(self).source(),
            final(self).current() == old(self).current(),
            final(self).panicking() == old(self).panicking(),
            final(self).recorded() == old(self).recorded(),
    {
        match &self.peeked {
            Some(t) => {
                return t.copy();
            },
            None => {},
        }
        let t = self.read(Ghost(self.index@ + 1));
        self.peeked = Some(t.copy());
        t
    }

    /// Moves to the next token (staying on `Eof` at the end).
    pub fn advance(&mut self)
        requires
            old(self).wf(),
        ensures
            final(self).state() == adv(old(self).ctx(), old(self).state()),
            final(self).wf(),
            final(self).index() < final(self).stream().len(),
            old(self).current().kind != TokKind::Eof ==> final(self).index() == old(self).index() + 1,
            final(self).index() == if old(self).index() + 1 < old(self).stream().len() {
                old(self).index() + 1
            } else {
                old(self).index()
            },
            final(self).stream() == old(self).stream(),
            final(self).source() == old(self).source(),
            final(self).panicking() == old(self).panicking(),
            final(self).recorded() == old(self).recorded(),
    {
        let ghost st = self.stream@;
        let ghost i = self.index@;
        let ghost ni: nat = if i + 1 < st.len() {
            i + 1
        } else {
            i
        };
        if self.peeked.is_some() {
            let t = self.peeked.take().unwrap();
            self.current = t;
            proof {
                if i + 1 >= st.len() {
                    assert(stream_from(st, i + 2) == stream_from(st, ni + 1));
                }
            }
        } else {
            let t = self.read(Ghost(i + 1));
            self.current = t;
        }
        self.index = Ghost(ni);
        proof {
            if i + 1 >= st.len() {
                assert(stream_from(st, i + 2) == stream_from(st, ni + 1));
            }
        }
    }

    /// Is the current token of kind `kind`?
    pub fn check(&self, kind: TokKind) -> (r: bool)
        ensures
            r == (self.current().kind == kind),
    {
        self.current.kind == kind
    }

    /// Moves past the current token if it is of kind `kind`.
    pub fn match_tok(&mut self, kind: TokKind) -> (r: bool)
        requires
            old(self).wf(),
        ensures
            (r, final(self).state()) == accept(old(self).ctx(), old(self).state(), kind),
            final(self).wf(),
            final(self).index() < final(self).stream().len(),
            r == (old(self).current().kind == kind),
            r && kind != TokKind::Eof ==> final(self).index() == old(self).index() + 1,
            r ==> final(self).index() == if old(self).index() + 1 < old(self).stream().len() {
                old(self).index() + 1
            } else {
                old(self).index()
            },
            !r ==> *final(self) == *old(self),
            final(self).stream() == old(self).stream(),
            final(self).source() == old(self).source(),
            final(self).panicking() == old(self).panicking(),
            final(self).recorded() == old(self).recorded(),
    {
        if self.current.kind == kind {
            self.advance();
            true
        } else {
            false
        }
    }

    /// Records an error at the current token, unless one is being recovered from.
    pub fn error(&mut self, msg: &str)
        requires
            old(self).wf(),
        ensures
            final(self).state() == fail(old(self).ctx(), old(self).state(), msg@),
            final(self).wf(),
            final(self).index() < final(self).stream().len(),
            final(self).panicking(),
            final(self).stream() == old(self).stream(),
            final(self).index() == old(self).index(),
            final(self).source() == old(self).source(),
            final(self).current() == old(self).current(),
            final(self).recorded() == if old(self).panicking() {
                old(self).recorded()
            } else {
                Some((old(self).current().line, old(self).current().col, msg@))
            },
    {
        if !self.panic_mode {
            self.panic_mode = true;
            self.last_error = Some(
                ParseError { line: self.current.line, col: self.current.col, message: msg.to_owned() },
            );
        }
    }

    /// Moves past a token of kind `kind`; otherwise records `期望 <what>, 得到 <kind> at
    /// <line>:<col>` (unless recovering) and stays.
    pub fn expect(&mut self, kind: TokKind, what: &str) -> (r: bool)
        requires
            old(self).wf(),
        ensures
            (r, final(self).state()) == expect_s(old(self).ctx(), old(self).state(), kind, what@),
            final(self).wf(),
            final(self).index() < final(self).stream().len(),
            r == (old(self).current().kind == kind),
            r && kind != TokKind::Eof ==> final(self).index() == old(self).index() + 1,
            final(self).stream() == old(self).stream(),
            final(self).source() == old(self).source(),
            r ==> final(self).index() == if old(self).index() + 1 < old(self).stream().len() {
                old(self).index() + 1
            } else {
                old(self).index()
            },
            r ==> final(self).panicking() == old(self).panicking() && final(self).recorded() == old(
                self,
            ).recorded(),
            !r ==> final(self).index() == old(self).index() && final(self).panicking(),
            !r ==> final(self).recorded() == if old(self).panicking() {
                old(self).recorded()
            } else {
                Some(
                    (
                        old(self).current().line,
                        old(self).current().col,
                        expect_message(
                            what@,
                            old(self).current().kind,
                            old(self).current().line,
                            old(self).current().col,
                        ),
                    ),
                )
            },
    {
        if self.current.kind == kind {
            self.advance();
            return true;
        }
        if !self.panic_mode {
            self.panic_mode = true;
            let mut msg = String::new();
            push_str(&mut msg, "期望 ");
            push_str(&mut msg, what);
            push_str(&mut msg, ", 得到 ");
            push_str(&mut msg, tok_kind_name(self.current.kind));
            push_str(&mut msg, " at ");
            push_usize(&mut msg, self.current.line as usize);
            push_str(&mut msg, ":");
            push_usize(&mut msg, self.current.col as usize);
            assert(msg@ =~= expect_message(what@, self.current.kind, self.current.line, self.current.col));
            self.last_error = Some(ParseError { line: self.current.line, col: self.current.col, message: msg });
        }
        false
    }

    /// Leaves panic mode and skips to `Eof` or to the next token that starts a
    /// declaration or statement.
    pub fn synchronize(&mut self)
        requires
            old(self).wf(),
        ensures
            final(self).state() == resync(old(self).ctx(), old(self).state()),
            final(self).wf(),
            final(self).index() < final(self).stream().len(),
            !final(self).panicking(),
            final(self).index() == sync_point(old(self).stream(), old(self).index()),
            old(self).index() <= final(self).index(),
            final(self).current().kind == TokKind::Eof || is_sync_kind(final(self).current().kind),
            final(self).stream() == old(self).stream(),
            final(self).source() == old(self).source(),
            final(self).recorded() == old(self).recorded(),
    {
        self.panic_mode = false;
        while !self.check(TokKind::Eof)
            invariant
                self.wf(),
                !self.panic_mode,
                self.stream@ == old(self).stream@,
                self.lex.src() == old(self).lex.src(),
                self.recorded() == old(self).recorded(),
                sync_point(self.stream@, self.index@) == sync_point(old(self).stream@, old(self).index@),
                old(self).index@ <= self.index@,
            decreases self.stream@.len() - self.index@,
        {
            let k = self.current.kind;
            if k == TokKind::KwFunc || k == TokKind::KwStruct || k == TokKind::KwEnum || k == TokKind::KwVar || k == TokKind::KwLet || k == TokKind::KwConst || k == TokKind::KwIf || k == TokKind::KwWhile || k == TokKind::KwFor || k == TokKind::KwReturn {
                return;
            }
            proof {
                assert(self.index@ + 1 < self.stream@.len());
            }
            self.advance();
        }
    }

    /// Is an error being recovered from?
    pub fn is_panicking(&self) -> (r: bool)
        ensures
            r == self.panicking(),
    {
        self.panic_mode
    }

    /// The length of the source, in characters.
    pub fn source_len(&self) -> (n: usize)
        requires
            self.wf(),
        ensures
            n == self.source().len(),
            n < u32::MAX,
    {
        self.lex.source_len()
    }

    /// Two cursors on one stream at one place see the same current token.
    pub proof fn lemma_same_place(a: Parser, b: Parser)
        requires
            a.wf(),
            b.wf(),
            a.stream() == b.stream(),
            a.index() == b.index(),
        ensures
            a.current().kind == b.current().kind,
    {
    }

    /// The current token is the stream's token at the current index.
    pub proof fn lemma_current(&self)
        requires
            self.wf(),
        ensures
            self.current().kind == self.stream()[self.index() as int].0,
            self.current().lexeme@ == self.stream()[self.index() as int].1,
    {
    }

    /// The cursor as values: a ready stream, and the current token is the
    /// stream's token at the index, at its line and column.
    pub proof fn lemma_ready(&self)
        requires
            self.wf(),
        ensures
            ready(self.ctx(), self.state()),
            self.current().kind == cur(self.ctx(), self.state()).0,
            self.current().lexeme@ == cur(self.ctx(), self.state()).1,
            (self.current().line, self.current().col) == pos_of(self.ctx(), self.state()),
    {
    }

    /// The current token lies in the stream.
    pub proof fn lemma_in_stream(&self)
        requires
            self.wf(),
        ensures
            self.index() < self.stream().len(),
    {
    }

    /// Only `Eof` ends the stream: a current token of another kind has a successor.
    pub proof fn lemma_not_last(&self)
        requires
            self.wf(),
            self.current().kind != TokKind::Eof,
        ensures
            self.index() + 1 < self.stream().len(),
    {
    }

    /// The error recorded so far, if any.
    pub fn last_error(&self) -> (r: Option<&ParseError>)
        ensures
            match r {
                Some(e) => self.recorded() == Some((e.line, e.col, e.message@)),
                None => self.recorded() is None,
            },
    {
        match &self.last_error {
            Some(e) => Some(e),
            None => None,
        }
    }

    /// The current token.
    pub fn current_token(&self) -> (t: &Token)
        ensures
            *t == self.current(),
    {
        &self.current
    }
}

} // verus!
