//! The GoPlus parser: tokens to a `Program`, with error recovery.
use vstd::prelude::*;

use crate::ast::{
    Block, Decorator, DeriveKind, ElseBranch, EnumDecl, EnumVariant, Expr, ExprStmt, FieldDecl,
    FnDecl, IfStmt, ImplBlock, Item, MatchArm, MatchArmBody, MatchStmt, MethodDecl, ParamDecl,
    Pattern, Program, RawStmt, ReceiverKind, ReturnStmt, ReturnType, Span, Stmt, StructDecl,
    TypeRef, VarDeclStmt,
};
use crate::diag::Diagnostic;
use crate::lexer::{byte_at, lex_chars, lex_from, RawTok, Token, TokenKind};
use crate::text::{
    push_str,
    byte_len, find_char, first_index, lemma_first_index, occurs_at, str_to_string, string_of,
    to_chars, trim, trim_bounds,
    trim_string,
};

use crate::text::views;

verus! {

struct Parser {
    chars: Vec<char>,
    src_len: usize,
    tokens: Vec<Token>,
    ranges: Vec<(usize, usize)>,
    idx: usize,
    diagnostics: Vec<Diagnostic>,
}

/// The parser's view of one token: its kind and char range.
pub open spec fn raw_ok(s: Seq<char>, toks: Seq<crate::lexer::RawTok>, i: nat) -> bool {
    &&& forall|k: int| 0 <= k < toks.len() ==> i <= (#[trigger] toks[k]).start < toks[k].end <= s.len()
    &&& forall|k: int, j: int| 0 <= k < j < toks.len() ==> (#[trigger] toks[k]).end <= (#[trigger] toks[j]).start
}

proof fn lemma_lex_from_ordered(s: Seq<char>, i: nat)
    ensures
        raw_ok(s, lex_from(s, i).0, i),
    decreases s.len() - i,
{
    if i < s.len() {
        let p = crate::lexer::piece_at(s, i);
        let n = match p {
            crate::lexer::Piece::Skip(n) => n,
            crate::lexer::Piece::Tok(_, n) => n,
            crate::lexer::Piece::Bad(n) => n,
        };
        if n > 0 && i + n <= s.len() {
            lemma_lex_from_ordered(s, i + n);
            let tn = lex_from(s, i + n).0;
            let ti = lex_from(s, i).0;
            if let crate::lexer::Piece::Tok(k, _) = p {
                assert forall|a: int, b: int| 0 <= a < b < ti.len() implies (#[trigger] ti[a]).end
                    <= (#[trigger] ti[b]).start by {
                    if a > 0 {
                        assert(ti[a] == tn[a - 1]);
                    }
                    assert(ti[b] == tn[b - 1]);
                }
                assert forall|a: int| 0 <= a < ti.len() implies i <= (#[trigger] ti[a]).start
                    < ti[a].end <= s.len() by {
                    if a > 0 {
                        assert(ti[a] == tn[a - 1]);
                    }
                }
            }
        }
    }
}

impl Parser {
    /// Tokens, ranges and source agree; `idx` is within the tokens.
    spec fn wf(&self) -> bool {
        &&& byte_len(self.chars@) <= usize::MAX
        &&& self.src_len == byte_len(self.chars@)
        &&& self.tokens@.len() == self.ranges@.len()
        &&& self.tokens@.len() <= usize::MAX
        &&& self.idx <= self.tokens@.len()
        &&& forall|k: int|
            0 <= k < self.ranges@.len() ==> (#[trigger] self.ranges@[k]).0 < self.ranges@[k].1
                <= self.chars@.len()
        &&& forall|k: int, j: int|
            0 <= k < j < self.ranges@.len() ==> (#[trigger] self.ranges@[k]).1 <= (
            #[trigger] self.ranges@[j]).0
        &&& forall|k: int|
            0 <= k < self.tokens@.len() ==> (#[trigger] self.tokens@[k]).span == Span {
                start: byte_at(self.chars@, self.ranges@[k].0 as nat) as usize,
                end: byte_at(self.chars@, self.ranges@[k].1 as nat) as usize,
            }
    }

    /// `b` continues from `a`: same input, not earlier, diagnostics only added.
    spec fn grows(a: &Parser, b: &Parser) -> bool {
        &&& b.wf()
        &&& a.chars@ == b.chars@
        &&& a.src_len == b.src_len
        &&& a.tokens@ == b.tokens@
        &&& a.ranges@ == b.ranges@
        &&& a.idx <= b.idx
        &&& a.diagnostics@.len() <= b.diagnostics@.len()
        &&& forall|i: int| 0 <= i < a.diagnostics@.len() ==> b.diagnostics@[i] == a.diagnostics@[i]
    }

    /// Tokens still to read.
    spec fn remaining(&self) -> nat {
        (self.tokens@.len() - self.idx) as nat
    }

    spec fn kind_at(&self, i: int) -> TokenKind {
        self.tokens@[i].kind
    }

    spec fn at_spec(&self, kind: TokenKind) -> bool {
        self.idx < self.tokens@.len() && self.tokens@[self.idx as int].kind == kind
    }

    spec fn eof_spec(&self) -> bool {
        self.idx >= self.tokens@.len()
    }

    /// Source text from the start of token `a` to the end of token `b - 1`.
    spec fn text_of(&self, a: int, b: int) -> Seq<char> {
        self.chars@.subrange(self.ranges@[a].0 as int, self.ranges@[b - 1].1 as int)
    }

    /// The dotted name read from the identifiers at `i`, `i + 2`, ..., `j - 1`: their texts
    /// with a `.` between each two.
    spec fn dotted_name(&self, i: int, j: int) -> Seq<char>
        decreases j - i,
    {
        if j <= i + 1 {
            self.text_of(i, i + 1)
        } else {
            self.dotted_name(i, j - 2) + "."@ + self.text_of(j - 1, j)
        }
    }

    proof fn lemma_dotted_same(a: &Parser, b: &Parser, i: int, j: int)
        requires
            a.chars@ == b.chars@,
            a.ranges@ == b.ranges@,
        ensures
            a.dotted_name(i, j) == b.dotted_name(i, j),
        decreases j - i,
    {
        if j > i + 1 {
            Parser::lemma_dotted_same(a, b, i, j - 2);
        }
    }

    /// Byte span from the start of token `a` to the end of token `b - 1`.
    spec fn span_of(&self, a: int, b: int) -> Span {
        Span { start: self.tokens@[a].span.start, end: self.tokens@[b - 1].span.end }
    }

    spec fn current_span_spec(&self) -> Span {
        if self.idx < self.tokens@.len() {
            self.tokens@[self.idx as int].span
        } else {
            Span { start: self.src_len, end: self.src_len }
        }
    }

    proof fn lemma_grows_refl(&self)
        requires
            self.wf(),
        ensures
            Parser::grows(self, self),
    {
        assert(self.diagnostics@ =~= self.diagnostics@.take(self.diagnostics@.len() as int));
    }

    proof fn lemma_grows_trans(a: &Parser, b: &Parser, c: &Parser)
        requires
            Parser::grows(a, b),
            Parser::grows(b, c),
        ensures
            Parser::grows(a, c),
    {
        assert(a.diagnostics@ =~= c.diagnostics@.take(a.diagnostics@.len() as int));
    }

    /// What `parse_text_segment` reads, stopping at newlines and `}`, is `segment`.
    proof fn lemma_segment(&self, stops: Seq<TokenKind>, rb: bool)
        requires
            self.wf(),
        ensures
            ({
                let b = self.idx as int;
                let ks = self.kinds();
                let toks = raws_of(self.tokens@, self.ranges@);
                let e = seg_end(ks, b, zero_depth(), stops, true, rb);
                let x = strip_back(ks, b, strip_back(ks, b, e, TokenKind::Newline), TokenKind::Semi);
                let ht = x > b && ks[x - 1] == TokenKind::Question;
                let y = if ht { x - 1 } else { x };
                &&& ks == tok_kinds(toks)
                &&& b <= e <= ks.len()
                &&& y > b ==> segment(self.chars@, toks, b, stops, rb) == Some(
                    (trim(self.text_of(b, y)), ht),
                )
                &&& y <= b ==> segment(self.chars@, toks, b, stops, rb) is None
                &&& seg_next(toks, b, stops, rb) == if x <= b { b } else { e }
            }),
    {
        let b = self.idx as int;
        let ks = self.kinds();
        let toks = raws_of(self.tokens@, self.ranges@);
        assert(ks =~= tok_kinds(toks));
        let e = seg_end(ks, b, zero_depth(), stops, true, rb);
        lemma_seg_end_bounds(ks, b, zero_depth(), stops, true, rb);
        lemma_strip_back(ks, b, e, TokenKind::Newline);
        lemma_strip_back(ks, b, strip_back(ks, b, e, TokenKind::Newline), TokenKind::Semi);
    }

    fn new(chars: Vec<char>, tokens: Vec<Token>, ranges: Vec<(usize, usize)>) -> (p: Parser)
        requires
            byte_len(chars@) <= usize::MAX,
            tokens@.len() == ranges@.len(),
            raw_ok(chars@, lex_from(chars@, 0).0, 0),
            lex_from(chars@, 0).0.len() == tokens@.len(),
            forall|k: int|
                0 <= k < tokens@.len() ==> tokens@[k] == crate::lexer::token_of(
                    chars@,
                    #[trigger] lex_from(chars@, 0).0[k],
                ),
            forall|k: int|
                0 <= k < ranges@.len() ==> (#[trigger] ranges@[k]).0 == lex_from(chars@, 0).0[k].start
                    && ranges@[k].1 == lex_from(chars@, 0).0[k].end,
        ensures
            p.wf(),
            p.idx == 0,
            p.diagnostics@.len() == 0,
            p.chars@ == chars@,
            p.tokens@ == tokens@,
            p.ranges@ == ranges@,
    {
        let src_len = byte_length_of(&chars);
        let _ = tokens.len();
        let p = Parser { chars, src_len, tokens, ranges, idx: 0, diagnostics: Vec::new() };
        proof {
            let toks = lex_from(p.chars@, 0).0;
            assert forall|k: int, j: int|
                0 <= k < j < p.ranges@.len() implies (#[trigger] p.ranges@[k]).1 <= (
            #[trigger] p.ranges@[j]).0 by {
                assert(toks[k].end <= toks[j].start);
            }
            assert forall|k: int| 0 <= k < p.ranges@.len() implies (#[trigger] p.ranges@[k]).0
                < p.ranges@[k].1 <= p.chars@.len() by {
                assert(0 <= toks[k].start < toks[k].end <= p.chars@.len());
            }
        }
        p
    }

    fn at(&self, kind: TokenKind) -> (r: bool)
        requires
            self.wf(),
        ensures
            r == self.at_spec(kind),
    {
        self.idx < self.tokens.len() && self.tokens[self.idx].kind == kind
    }

    fn at_n(&self, n: usize, kind: TokenKind) -> (r: bool)
        requires
            self.wf(),
        ensures
            r == (self.idx + n < self.tokens@.len() && self.tokens@[self.idx + n].kind == kind),
    {
        n < self.tokens.len() - self.idx && self.tokens[self.idx + n].kind == kind
    }

    fn consume(&mut self, kind: TokenKind) -> (r: bool)
        requires
            old(self).wf(),
        ensures
            Parser::grows(old(self), final(self)),
            r == old(self).at_spec(kind),
            r ==> final(self).idx == old(self).idx + 1,
            !r ==> final(self).idx == old(self).idx,
            final(self).diagnostics@ == old(self).diagnostics@,
    {
        proof {
            self.lemma_grows_refl();
        }
        if self.at(kind) {
            self.idx = self.idx + 1;
            true
        } else {
            false
        }
    }

    fn peek_kind(&self) -> (r: Option<TokenKind>)
        requires
            self.wf(),
        ensures
            r == if self.idx < self.tokens@.len() {
                Some(self.tokens@[self.idx as int].kind)
            } else {
                None::<TokenKind>
            },
    {
        if self.idx < self.tokens.len() {
            Some(self.tokens[self.idx].kind)
        } else {
            None
        }
    }

    fn is_eof(&self) -> (r: bool)
        requires
            self.wf(),
        ensures
            r == self.eof_spec(),
    {
        self.idx >= self.tokens.len()
    }

    fn current_span(&self) -> (r: Span)
        requires
            self.wf(),
        ensures
            r == self.current_span_spec(),
    {
        if self.idx < self.tokens.len() {
            self.tokens[self.idx].span
        } else {
            Span { start: self.src_len, end: self.src_len }
        }
    }

    fn previous_end(&self) -> (r: Option<usize>)
        requires
            self.wf(),
        ensures
            r == if self.idx > 0 {
                Some(self.tokens@[self.idx - 1].span.end)
            } else {
                None::<usize>
            },
    {
        if self.idx > 0 {
            Some(self.tokens[self.idx - 1].span.end)
        } else {
            None
        }
    }

    /// The text of token `k`.
    fn token_text(&self, k: usize) -> (r: String)
        requires
            self.wf(),
            k < self.tokens@.len(),
        ensures
            r@ == self.text_of(k as int, k + 1),
    {
        string_of(&self.chars, self.ranges[k].0, self.ranges[k].1)
    }

    /// Byte span from token `start_idx` through token `end_idx - 1`.
    fn range_span(&self, start_idx: usize, end_idx: usize) -> (r: Option<Span>)
        requires
            self.wf(),
            end_idx <= self.tokens@.len(),
        ensures
            r matches Some(sp) ==> start_idx < end_idx && sp == self.span_of(
                start_idx as int,
                end_idx as int,
            ),
            r is None ==> end_idx <= start_idx,
    {
        if end_idx <= start_idx || start_idx >= self.tokens.len() {
            return None;
        }
        let start = self.tokens[start_idx].span.start;
        let end = self.tokens[end_idx - 1].span.end;
        Some(Span { start, end })
    }

    /// Trimmed text from token `a` through token `b - 1`.
    fn range_text(&self, a: usize, b: usize) -> (r: String)
        requires
            self.wf(),
            a < b <= self.tokens@.len(),
        ensures
            r@ == trim(self.text_of(a as int, b as int)),
    {
        let lo = self.ranges[a].0;
        let hi = self.ranges[b - 1].1;
        assert(lo <= hi) by {
            if a < b - 1 {
                assert(self.ranges@[a as int].1 <= self.ranges@[b - 1].0);
            }
        }
        let (x, y) = trim_bounds(&self.chars, lo, hi);
        string_of(&self.chars, x, y)
    }

    fn push_diag(&mut self, message: &str, span: Span)
        requires
            old(self).wf(),
        ensures
            Parser::grows(old(self), final(self)),
            final(self).idx == old(self).idx,
            final(self).diagnostics@.len() == old(self).diagnostics@.len() + 1,
            final(self).diagnostics@.last().message@ == message@,
            final(self).diagnostics@.last().span == Some(span),
    {
        self.diagnostics.push(Diagnostic::new(str_to_string(message), Some(span)));
        assert(old(self).diagnostics@ =~= self.diagnostics@.take(old(self).diagnostics@.len() as int));
    }

    fn push_diagnostic(&mut self, d: Diagnostic)
        requires
            old(self).wf(),
        ensures
            Parser::grows(old(self), final(self)),
            final(self).idx == old(self).idx,
            final(self).diagnostics@ == old(self).diagnostics@.push(d),
    {
        self.diagnostics.push(d);
        assert(old(self).diagnostics@ =~= self.diagnostics@.take(old(self).diagnostics@.len() as int));
    }

    /// Consumes a token of `kind`, or reports `message` at the current token.
    fn expect(&mut self, kind: TokenKind, message: &str) -> (r: bool)
        requires
            old(self).wf(),
        ensures
            Parser::grows(old(self), final(self)),
            r == old(self).at_spec(kind),
            r ==> final(self).idx == old(self).idx + 1 && final(self).diagnostics@ == old(self).diagnostics@,
            !r ==> final(self).idx == old(self).idx && final(self).diagnostics@.len()
                == old(self).diagnostics@.len() + 1 && final(self).diagnostics@.last().message@
                == message@ && final(self).diagnostics@.last().span == Some(
                old(self).current_span_spec(),
            ),
    {
        if self.consume(kind) {
            true
        } else {
            let span = self.current_span();
            self.push_diag(message, span);
            false
        }
    }

    /// Consumes a token of `kind` and returns its index, or reports `message`.
    fn expect_token(&mut self, kind: TokenKind, message: &str) -> (r: Option<usize>)
        requires
            old(self).wf(),
        ensures
            Parser::grows(old(self), final(self)),
            r is Some == old(self).at_spec(kind),
            r matches Some(k) ==> k == old(self).idx && final(self).idx == k + 1
                && final(self).diagnostics@ == old(self).diagnostics@,
            r is None ==> final(self).idx == old(self).idx && final(self).diagnostics@.len()
                == old(self).diagnostics@.len() + 1 && final(self).diagnostics@.last().message@
                == message@,
    {
        if self.at(kind) {
            let k = self.idx;
            self.idx = self.idx + 1;
            proof {
                old(self).lemma_grows_refl();
            }
            Some(k)
        } else {
            let span = self.current_span();
            self.push_diag(message, span);
            None
        }
    }

    /// An identifier's text, or a report of `message`.
    fn parse_ident(&mut self, message: &str) -> (r: Option<String>)
        requires
            old(self).wf(),
        ensures
            Parser::grows(old(self), final(self)),
            r is Some == old(self).at_spec(TokenKind::Ident),
            r matches Some(name) ==> name@ == old(self).text_of(
                old(self).idx as int,
                old(self).idx + 1,
            ) && final(self).idx == old(self).idx + 1,
            r is None ==> final(self).idx == old(self).idx && final(self).diagnostics@.len()
                == old(self).diagnostics@.len() + 1 && final(self).diagnostics@.last().message@
                == message@,
            r is Some ==> final(self).diagnostics@ == old(self).diagnostics@,
    {
        let k = self.expect_token(TokenKind::Ident, message)?;
        Some(self.token_text(k))
    }

    /// Skips newlines and semicolons.
    fn skip_separators(&mut self)
        requires
            old(self).wf(),
        ensures
            Parser::grows(old(self), final(self)),
            final(self).diagnostics@ == old(self).diagnostics@,
            !final(self).at_spec(TokenKind::Newline),
            !final(self).at_spec(TokenKind::Semi),
            forall|k: int|
                old(self).idx <= k < final(self).idx ==> final(self).kind_at(k) == TokenKind::Newline
                    || final(self).kind_at(k) == TokenKind::Semi,
            final(self).idx == skip_seps(
                raws_of(old(self).tokens@, old(self).ranges@),
                old(self).idx as int,
            ),
    {
        proof {
            self.lemma_grows_refl();
        }
        let ghost start = *self;
        while self.at(TokenKind::Newline) || self.at(TokenKind::Semi)
            invariant
                Parser::grows(&start, self),
                self.diagnostics@ == start.diagnostics@,
                forall|k: int|
                    start.idx <= k < self.idx ==> self.kind_at(k) == TokenKind::Newline
                        || self.kind_at(k) == TokenKind::Semi,
            decreases self.remaining(),
        {
            let ghost prev = self.idx;
            let ghost before = *self;
            assert(self.kind_at(prev as int) == TokenKind::Newline || self.kind_at(prev as int)
                == TokenKind::Semi);
            self.idx = self.idx + 1;
            assert forall|k: int|
                start.idx <= k < self.idx implies self.kind_at(k) == TokenKind::Newline
                    || self.kind_at(k) == TokenKind::Semi by {
                if k < prev {
                    assert(before.kind_at(k) == self.kind_at(k));
                } else {
                    assert(k == prev);
                }
            }
        }
        proof {
            let toks = raws_of(self.tokens@, self.ranges@);
            assert forall|k: int| start.idx <= k < self.idx implies (#[trigger] toks[k]).kind
                == TokenKind::Newline || toks[k].kind == TokenKind::Semi by {
                assert(toks[k].kind == self.kind_at(k));
            }
            lemma_skip_seps_to(toks, start.idx as int, self.idx as int);
        }
    }

    /// After an error at top level: skips to the next `fn`, `struct`, `enum` or `impl`.
    fn synchronize_top_level(&mut self)
        requires
            old(self).wf(),
        ensures
            Parser::grows(old(self), final(self)),
            final(self).diagnostics@ == old(self).diagnostics@,
            final(self).eof_spec() || final(self).at_spec(TokenKind::Fn) || final(self).at_spec(
                TokenKind::Struct,
            ) || final(self).at_spec(TokenKind::Enum) || final(self).at_spec(TokenKind::Impl),
    {
        proof {
            self.lemma_grows_refl();
        }
        let ghost start = *self;
        while !self.is_eof() && !(self.at(TokenKind::Fn) || self.at(TokenKind::Struct) || self.at(
            TokenKind::Enum,
        ) || self.at(TokenKind::Impl))
            invariant
                Parser::grows(&start, self),
                self.diagnostics@ == start.diagnostics@,
            decreases self.remaining(),
        {
            self.idx = self.idx + 1;
        }
    }

    /// After an error in a block: skips one statement, stopping before the
    /// block's closing brace.
    fn synchronize_block(&mut self)
        requires
            old(self).wf(),
        ensures
            Parser::grows(old(self), final(self)),
            final(self).diagnostics@ == old(self).diagnostics@,
            !old(self).eof_spec() && !old(self).at_spec(TokenKind::RBrace) ==> final(self).idx
                > old(self).idx,
    {
        proof {
            self.lemma_grows_refl();
        }
        let ghost start = *self;
        let mut depth: usize = 0;
        loop
            invariant
                Parser::grows(&start, self),
                self.diagnostics@ == start.diagnostics@,
                depth <= self.idx - start.idx,
                self.idx == start.idx ==> depth == 0,
            ensures
                Parser::grows(&start, self),
                self.diagnostics@ == start.diagnostics@,
                !start.eof_spec() && !start.at_spec(TokenKind::RBrace) ==> self.idx > start.idx,
            decreases self.remaining(),
        {
            match self.peek_kind() {
                Some(TokenKind::LBrace) => {
                    depth = depth + 1;
                    self.idx = self.idx + 1;
                },
                Some(TokenKind::RBrace) => {
                    if depth == 0 {
                        break;
                    }
                    depth = depth - 1;
                    self.idx = self.idx + 1;
                },
                Some(TokenKind::Newline) | Some(TokenKind::Semi) => {
                    self.idx = self.idx + 1;
                    if depth == 0 {
                        break;
                    }
                },
                Some(_) => {
                    self.idx = self.idx + 1;
                },
                None => {
                    break;
                },
            }
        }
    }
}

/// Nesting depths of `()`, `[]`, `{}` and `<>`.
pub type Depth = (nat, nat, nat, nat);

pub open spec fn dec(n: nat) -> nat {
    if n == 0 {
        0
    } else {
        (n - 1) as nat
    }
}

/// Depths after reading a token of kind `k`; closers never go below zero.
pub open spec fn step_depth(d: Depth, k: TokenKind) -> Depth {
    match k {
        TokenKind::LParen => (d.0 + 1, d.1, d.2, d.3),
        TokenKind::RParen => (dec(d.0), d.1, d.2, d.3),
        TokenKind::LBracket => (d.0, d.1 + 1, d.2, d.3),
        TokenKind::RBracket => (d.0, dec(d.1), d.2, d.3),
        TokenKind::LBrace => (d.0, d.1, d.2 + 1, d.3),
        TokenKind::RBrace => (d.0, d.1, dec(d.2), d.3),
        TokenKind::Lt => (d.0, d.1, d.2, d.3 + 1),
        TokenKind::Gt => (d.0, d.1, d.2, dec(d.3)),
        _ => d,
    }
}

pub open spec fn zero_depth() -> Depth {
    (0, 0, 0, 0)
}

/// A token that ends a text segment when met outside all brackets.
pub open spec fn is_stop(k: TokenKind, stops: Seq<TokenKind>, nl: bool, rb: bool) -> bool {
    (nl && k == TokenKind::Newline) || (rb && k == TokenKind::RBrace) || stops.contains(k)
}

/// Index of the first stop token met outside all brackets from `i` on, or the end.
pub open spec fn seg_end(
    kinds: Seq<TokenKind>,
    i: int,
    d: Depth,
    stops: Seq<TokenKind>,
    nl: bool,
    rb: bool,
) -> int
    decreases kinds.len() - i,
{
    if i >= kinds.len() || i < 0 {
        kinds.len() as int
    } else if d == zero_depth() && is_stop(kinds[i], stops, nl, rb) {
        i
    } else {
        seg_end(kinds, i + 1, step_depth(d, kinds[i]), stops, nl, rb)
    }
}

/// `e` moved back over trailing tokens of `kind`, not below `start`.
pub open spec fn strip_back(kinds: Seq<TokenKind>, start: int, e: int, kind: TokenKind) -> int
    decreases e - start,
{
    if e > start && kinds[e - 1] == kind {
        strip_back(kinds, start, e - 1, kind)
    } else {
        e
    }
}

pub proof fn lemma_seg_end_bounds(
    kinds: Seq<TokenKind>,
    i: int,
    d: Depth,
    stops: Seq<TokenKind>,
    nl: bool,
    rb: bool,
)
    requires
        0 <= i <= kinds.len(),
    ensures
        i <= seg_end(kinds, i, d, stops, nl, rb) <= kinds.len(),
    decreases kinds.len() - i,
{
    if i < kinds.len() && !(d == zero_depth() && is_stop(kinds[i], stops, nl, rb)) {
        lemma_seg_end_bounds(kinds, i + 1, step_depth(d, kinds[i]), stops, nl, rb);
    }
}

proof fn lemma_strip_back(kinds: Seq<TokenKind>, start: int, e: int, kind: TokenKind)
    requires
        start <= e,
    ensures
        start <= strip_back(kinds, start, e, kind) <= e,
    decreases e - start,
{
    if e > start && kinds[e - 1] == kind {
        lemma_strip_back(kinds, start, e - 1, kind);
    }
}

fn kinds_contains(stops: &[TokenKind], k: TokenKind) -> (r: bool)
    ensures
        r == stops@.contains(k),
{
    let mut i: usize = 0;
    while i < stops.len()
        invariant
            0 <= i <= stops@.len(),
            forall|j: int| 0 <= j < i ==> stops@[j] != k,
        decreases stops@.len() - i,
    {
        if stops[i] == k {
            return true;
        }
        i = i + 1;
    }
    false
}

impl Parser {
    /// The kinds of all tokens.
    spec fn kinds(&self) -> Seq<TokenKind> {
        self.tokens@.map_values(|t: Token| t.kind)
    }

    /// Reads text up to the first stop token outside brackets: a `stops` kind,
    /// a newline (if `nl`) or a `}` (if `rb`). Trailing newlines, then trailing
    /// semicolons, are left out of the text; a final `?` becomes the `bool`.
    fn parse_text_segment(&mut self, stop_kinds: &[TokenKind], stop_on_newline: bool, stop_on_rbrace: bool)
        -> (r: Option<(String, Span, bool)>)
        requires
            old(self).wf(),
        ensures
            Parser::grows(old(self), final(self)),
            r is Some ==> final(self).idx > old(self).idx,
            ({
                let p = old(self);
                let start = p.idx as int;
                let ks = p.kinds();
                let e = seg_end(ks, start, zero_depth(), stop_kinds@, stop_on_newline, stop_on_rbrace);
                let x = strip_back(ks, start, strip_back(ks, start, e, TokenKind::Newline), TokenKind::Semi);
                let has_try = x > start && ks[x - 1] == TokenKind::Question;
                let y = if has_try { x - 1 } else { x };
                if x <= start {
                    r is None && final(self).idx == p.idx && final(self).diagnostics@ == p.diagnostics@
                } else if y <= start {
                    &&& r is None
                    &&& final(self).idx == e
                    &&& final(self).diagnostics@.len() == p.diagnostics@.len() + 1
                    &&& final(self).diagnostics@.last().message@ == "expected expression before `?`"@
                    &&& final(self).diagnostics@.last().span == Some(p.span_of(start, e))
                } else {
                    &&& r matches Some((text, span, t)) && text@ == trim(p.text_of(start, y)) && span
                        == p.span_of(start, y) && t == has_try
                    &&& final(self).idx == e
                    &&& final(self).diagnostics@ == p.diagnostics@
                }
            }),
    {
        let ghost ks = self.kinds();
        let start = self.idx;
        let n = self.tokens.len();
        let mut i = start;
        let mut pd: usize = 0;
        let mut bd: usize = 0;
        let mut cd: usize = 0;
        let mut ad: usize = 0;
        loop
            invariant
                self.wf(),
                ks == self.kinds(),
                n == ks.len(),
                start == self.idx,
                start <= i <= n,
                pd + bd + cd + ad <= i - start,
                seg_end(ks, start as int, zero_depth(), stop_kinds@, stop_on_newline, stop_on_rbrace)
                    == seg_end(
                    ks,
                    i as int,
                    (pd as nat, bd as nat, cd as nat, ad as nat),
                    stop_kinds@,
                    stop_on_newline,
                    stop_on_rbrace,
                ),
            ensures
                self.wf(),
                ks == self.kinds(),
                start == self.idx,
                start <= i <= n,
                seg_end(ks, start as int, zero_depth(), stop_kinds@, stop_on_newline, stop_on_rbrace) == i,
            decreases n - i,
        {
            if i >= n {
                break;
            }
            let kind = self.tokens[i].kind;
            assert(ks[i as int] == kind);
            if pd == 0 && bd == 0 && cd == 0 && ad == 0 {
                if (stop_on_newline && kind == TokenKind::Newline) || (stop_on_rbrace && kind
                    == TokenKind::RBrace) || kinds_contains(stop_kinds, kind) {
                    break;
                }
            }
            match kind {
                TokenKind::LParen => pd = pd + 1,
                TokenKind::RParen => pd = if pd == 0 { 0 } else { pd - 1 },
                TokenKind::LBracket => bd = bd + 1,
                TokenKind::RBracket => bd = if bd == 0 { 0 } else { bd - 1 },
                TokenKind::LBrace => cd = cd + 1,
                TokenKind::RBrace => cd = if cd == 0 { 0 } else { cd - 1 },
                TokenKind::Lt => ad = ad + 1,
                TokenKind::Gt => ad = if ad == 0 { 0 } else { ad - 1 },
                _ => {},
            }
            i = i + 1;
        }
        let ghost e = i as int;
        if i <= start {
            proof {
                self.lemma_grows_refl();
                lemma_strip_back(ks, start as int, e, TokenKind::Newline);
                lemma_strip_back(ks, start as int, strip_back(ks, start as int, e, TokenKind::Newline), TokenKind::Semi);
            }
            return None;
        }
        let mut end = i;
        while end > start && self.tokens[end - 1].kind == TokenKind::Newline
            invariant
                self.wf(),
                ks == self.kinds(),
                start <= end <= i <= ks.len(),
                strip_back(ks, start as int, e, TokenKind::Newline) == strip_back(ks, start as int, end as int, TokenKind::Newline),
            decreases end - start,
        {
            end = end - 1;
        }
        proof {
            if end > start {
                assert(ks[end - 1] == self.tokens@[end - 1].kind);
            }
        }
        assert(strip_back(ks, start as int, end as int, TokenKind::Newline) == end);
        let ghost x1 = end as int;
        while end > start && self.tokens[end - 1].kind == TokenKind::Semi
            invariant
                self.wf(),
                ks == self.kinds(),
                start <= end <= i <= ks.len(),
                strip_back(ks, start as int, x1, TokenKind::Semi) == strip_back(ks, start as int, end as int, TokenKind::Semi),
            decreases end - start,
        {
            end = end - 1;
        }
        proof {
            if end > start {
                assert(ks[end - 1] == self.tokens@[end - 1].kind);
            }
        }
        assert(strip_back(ks, start as int, end as int, TokenKind::Semi) == end);
        if end <= start {
            proof {
                self.lemma_grows_refl();
            }
            return None;
        }
        assert(ks[end - 1] == self.tokens@[end - 1].kind);
        let mut has_try = false;
        if self.tokens[end - 1].kind == TokenKind::Question {
            has_try = true;
            end = end - 1;
        }
        if end <= start {
            let sp = self.range_span(start, i);
            self.idx = i;
            assert(old(self).diagnostics@ =~= self.diagnostics@.take(old(self).diagnostics@.len() as int));
            match sp {
                Some(sp) => {
                    self.push_diag("expected expression before `?`", sp);
                },
                None => {},
            }
            return None;
        }
        let span = match self.range_span(start, end) {
            Some(sp) => sp,
            None => {
                return None;
            },
        };
        let text = self.range_text(start, end);
        self.idx = i;
        assert(old(self).diagnostics@ =~= self.diagnostics@.take(old(self).diagnostics@.len() as int));
        Some((text, span, has_try))
    }

    /// Text to the end of the line (or to a `}`).
    fn parse_raw_text_to_line(&mut self) -> (r: Option<(String, Span, bool)>)
        requires
            old(self).wf(),
        ensures
            Parser::grows(old(self), final(self)),
            r is Some ==> final(self).idx > old(self).idx,
            final(self).idx == seg_next(
                raws_of(old(self).tokens@, old(self).ranges@),
                old(self).idx as int,
                Seq::empty(),
                true,
            ),
            segment(
                old(self).chars@,
                raws_of(old(self).tokens@, old(self).ranges@),
                old(self).idx as int,
                Seq::empty(),
                true,
            ) == match r {
                Some((t, _, h)) => Some((t@, h)),
                None => None::<(Seq<char>, bool)>,
            },
    {
        let ghost p = *self;
        let stops: [TokenKind; 0] = [];
        assert(stops@ =~= Seq::<TokenKind>::empty());
        proof {
            p.lemma_segment(Seq::empty(), true);
        }
        self.parse_text_segment(&stops, true, true)
    }
}

/// The non-empty trimmed pieces of `s` between commas.
pub open spec fn comma_items(s: Seq<char>) -> Seq<Seq<char>>
    decreases s.len(),
{
    let i = first_index(s, ',');
    let piece = trim(s.take(i as int));
    let rest = if i >= s.len() {
        Seq::<Seq<char>>::empty()
    } else {
        comma_items(s.skip(i as int + 1))
    };
    if piece.len() > 0 {
        seq![piece] + rest
    } else {
        rest
    }
}

/// Pattern `Name(b1, b2)` as the name and its bindings; else the whole text.
pub open spec fn pattern_variant_spec(input: Seq<char>) -> (Seq<char>, Seq<Seq<char>>) {
    let text = trim(input);
    let lp = first_index(text, '(');
    if lp < text.len() && text.len() > 0 && text.last() == ')' {
        (trim(text.take(lp as int)), comma_items(text.subrange(lp as int + 1, text.len() - 1)))
    } else {
        (text, Seq::empty())
    }
}

/// Index of the first occurrence of `p` in `s`, if any.
pub open spec fn first_occurrence(s: Seq<char>, p: Seq<char>) -> Option<int> {
    if exists|i: int| occurs_at(s, p, i) {
        Some(choose|i: int| occurs_at(s, p, i) && forall|j: int| 0 <= j < i ==> !occurs_at(s, p, j))
    } else {
        None
    }
}

/// `p` is the pattern of a match arm with text `raw`: `_`, `Enum::Variant(..)`
/// (split at the first `::`) or `Variant(..)`.
pub open spec fn pattern_of(p: Pattern, raw: Seq<char>, span: Span) -> bool {
    let text = trim(raw);
    if text == "_"@ {
        p == Pattern::Wildcard { span }
    } else {
        match first_occurrence(text, "::"@) {
            Some(i) => {
                let (variant, bindings) = pattern_variant_spec(trim(text.skip(i + 2)));
                &&& p matches Pattern::TypedVariant { enum_name: e, variant: v, bindings: b, span: sp }
                &&& sp == span
                &&& e@ == trim(text.take(i))
                &&& v@ == variant
                &&& views(b@) == bindings
            },
            None => {
                let (variant, bindings) = pattern_variant_spec(text);
                &&& p matches Pattern::Variant { variant: v, bindings: b, span: sp }
                &&& sp == span
                &&& v@ == variant
                &&& views(b@) == bindings
            },
        }
    }
}

proof fn lemma_first_occurrence(s: Seq<char>, p: Seq<char>, i: int)
    requires
        occurs_at(s, p, i),
        forall|j: int| 0 <= j < i ==> !occurs_at(s, p, j),
    ensures
        first_occurrence(s, p) == Some(i),
{
    let c = choose|k: int| occurs_at(s, p, k) && forall|j: int| 0 <= j < k ==> !occurs_at(s, p, j);
    assert(occurs_at(s, p, i) && forall|j: int| 0 <= j < i ==> !occurs_at(s, p, j));
    if c < i {
        assert(!occurs_at(s, p, c));
    }
    if c > i {
        assert(!occurs_at(s, p, i));
    }
}

/// The pattern of a match arm.
fn parse_pattern(raw: &str, span: Span) -> (r: Pattern)
    ensures
        pattern_of(r, raw@, span),
{
    let text = trim_string(raw);
    if crate::text::str_eq(text.as_str(), "_") {
        return Pattern::Wildcard { span };
    }
    let tv = to_chars(text.as_str());
    let sep = to_chars("::");
    match crate::text::find_from(&tv, &sep, 0) {
        Some(i) => {
            proof {
                lemma_first_occurrence(tv@, sep@, i as int);
                reveal_strlit("::");
            }
            let (x, y) = trim_bounds(&tv, 0, i);
            assert(tv@.subrange(0, i as int) =~= tv@.take(i as int));
            let enum_name = string_of(&tv, x, y);
            let tl = tv.len();
            assert(i + 2 <= tl);
            let right = string_of(&tv, i + 2, tl);
            assert(tv@.subrange(i + 2, tv@.len() as int) =~= tv@.skip(i + 2));
            let right_trimmed = trim_string(right.as_str());
            let (variant, bindings) = parse_pattern_variant(right_trimmed.as_str());
            Pattern::TypedVariant { enum_name, variant, bindings, span }
        },
        None => {
            proof {
                if exists|j: int| occurs_at(tv@, sep@, j) {
                    let j = choose|j: int| occurs_at(tv@, sep@, j);
                    assert(!occurs_at(tv@, sep@, j));
                }
            }
            let (variant, bindings) = parse_pattern_variant(text.as_str());
            Pattern::Variant { variant, bindings, span }
        },
    }
}

/// The views of a vector of strings.
/// Splits the text between commas, keeping the non-empty trimmed pieces.
fn split_comma_items(v: &Vec<char>, lo: usize, hi: usize) -> (r: Vec<String>)
    requires
        lo <= hi <= v@.len(),
    ensures
        views(r@) == comma_items(v@.subrange(lo as int, hi as int)),
{
    let mut out: Vec<String> = Vec::new();
    let mut pos = lo;
    let ghost whole = v@.subrange(lo as int, hi as int);
    assert(v@.subrange(pos as int, hi as int) =~= whole);
    loop
        invariant
            lo <= pos <= hi <= v@.len(),
            whole == v@.subrange(lo as int, hi as int),
            comma_items(whole) == views(out@) + comma_items(v@.subrange(pos as int, hi as int)),
        decreases hi - pos,
    {
        let ghost t = v@.subrange(pos as int, hi as int);
        let c = find_char(v, ',', pos, hi);
        let e = match c {
            Some(k) => k,
            None => hi,
        };
        proof {
            assert forall|j: int| 0 <= j < e - pos implies t[j] != ',' by {
                assert(t[j] == v@[pos + j]);
            }
            lemma_first_index(t, ',', e - pos);
            assert(t.take(e - pos) =~= v@.subrange(pos as int, e as int));
        }
        let (x, y) = trim_bounds(v, pos, e);
        let ghost before = out@;
        if x < y {
            out.push(string_of(v, x, y));
            proof {
                assert(views(out@) =~= views(before).push(v@.subrange(x as int, y as int)));
            }
        }
        match c {
            Some(k) => {
                proof {
                    assert(t.skip(e - pos + 1) =~= v@.subrange(k + 1, hi as int));
                    assert(views(before) + comma_items(t) =~= views(out@)
                        + comma_items(v@.subrange(k + 1, hi as int)));
                }
                pos = k + 1;
            },
            None => {
                proof {
                    assert(views(before) + comma_items(t) =~= views(out@));
                    assert(comma_items(whole) =~= views(out@));
                    assert(whole == v@.subrange(lo as int, hi as int));
                }
                return out;
            },
        }
    }
}

/// `Name(b1, b2)` as the name and its bindings; anything else as a bare name.
#[verifier::rlimit(30)]
fn parse_pattern_variant(input: &str) -> (r: (String, Vec<String>))
    ensures
        r.0@ == pattern_variant_spec(input@).0,
        views(r.1@) == pattern_variant_spec(input@).1,
{
    let all = to_chars(input);
    let (a, b) = trim_bounds(&all, 0, all.len());
    assert(all@.subrange(0, all@.len() as int) =~= all@);
    let ghost text = all@.subrange(a as int, b as int);
    let lp = find_char(&all, '(', a, b);
    match lp {
        Some(lp) => {
            proof {
                assert forall|j: int| 0 <= j < lp - a implies text[j] != '(' by {
                    assert(text[j] == all@[a + j]);
                }
                lemma_first_index(text, '(', lp - a);
            }
            if b > a && all[b - 1] == ')' {
                let (x, y) = trim_bounds(&all, a, lp);
                assert(text.take(lp - a) =~= all@.subrange(a as int, lp as int));
                let name = string_of(&all, x, y);
                assert(text.subrange(lp - a + 1, text.len() - 1) =~= all@.subrange(lp + 1, b - 1));
                let bindings = split_comma_items(&all, lp + 1, b - 1);
                return (name, bindings);
            }
        },
        None => {
            proof {
                assert forall|j: int| 0 <= j < b - a implies text[j] != '(' by {
                    assert(text[j] == all@[a + j]);
                }
                lemma_first_index(text, '(', b - a);
            }
        },
    }
    (string_of(&all, a, b), Vec::new())
}

/// An annotation that `@derive(String)` accepts on a type.
/// What a `@derive` target gives: `String`, `Debug`, `Equal`, `JsonMarshal`, `JsonUnmarshal`,
/// and `JSON` for both JSON ones; `None` for any other target.
pub open spec fn target_derives(t: Seq<char>) -> Option<Seq<DeriveKind>> {
    if t == "String"@ {
        Some(seq![DeriveKind::String])
    } else if t == "Debug"@ {
        Some(seq![DeriveKind::Debug])
    } else if t == "Equal"@ {
        Some(seq![DeriveKind::Equal])
    } else if t == "JSON"@ {
        Some(seq![DeriveKind::JsonMarshal, DeriveKind::JsonUnmarshal])
    } else if t == "JsonMarshal"@ {
        Some(seq![DeriveKind::JsonMarshal])
    } else if t == "JsonUnmarshal"@ {
        Some(seq![DeriveKind::JsonUnmarshal])
    } else {
        None
    }
}

/// The derives of the targets, trimmed, in their order.
pub open spec fn args_derives(args: Seq<String>) -> Seq<DeriveKind>
    decreases args.len(),
{
    if args.len() == 0 {
        Seq::empty()
    } else {
        args_derives(args.drop_last()) + match target_derives(trim(args.last()@)) {
            Some(d) => d,
            None => Seq::empty(),
        }
    }
}

/// A message for each target that gives no derive.
pub open spec fn args_refusals(args: Seq<String>) -> Seq<Seq<char>>
    decreases args.len(),
{
    if args.len() == 0 {
        Seq::empty()
    } else {
        args_refusals(args.drop_last()) + match target_derives(trim(args.last()@)) {
            Some(_) => Seq::empty(),
            None => seq!["unsupported derive target `"@ + trim(args.last()@) + "`"@],
        }
    }
}

/// The derives of the annotations on a type, in their order.
pub open spec fn anns_derives(anns: Seq<Decorator>) -> Seq<DeriveKind>
    decreases anns.len(),
{
    if anns.len() == 0 {
        Seq::empty()
    } else {
        anns_derives(anns.drop_last()) + if anns.last().name@ == "derive"@ {
            args_derives(anns.last().args@)
        } else {
            Seq::empty()
        }
    }
}

/// The messages that the annotations on a type draw: one for an annotation that is not
/// `@derive`, one for a `@derive` without targets, one for each unknown target.
pub open spec fn anns_refusals(anns: Seq<Decorator>) -> Seq<Seq<char>>
    decreases anns.len(),
{
    if anns.len() == 0 {
        Seq::empty()
    } else {
        let a = anns.last();
        anns_refusals(anns.drop_last()) + if a.name@ != "derive"@ {
            seq!["unsupported annotation `@"@ + a.name@ + "` on type declaration"@]
        } else if a.args@.len() == 0 {
            seq!["@derive requires at least one target"@]
        } else {
            args_refusals(a.args@)
        }
    }
}

/// The messages of diagnostics.
pub open spec fn messages_of(ds: Seq<Diagnostic>) -> Seq<Seq<char>> {
    ds.map_values(|d: Diagnostic| d.message@)
}

/// `s` without leading and trailing `c`s.
pub open spec fn trim_char(s: Seq<char>, c: char) -> Seq<char>
    decreases s.len(),
{
    if s.len() > 0 && s[0] == c {
        trim_char(s.drop_first(), c)
    } else if s.len() > 0 && s.last() == c {
        trim_char(s.drop_last(), c)
    } else {
        s
    }
}

/// The first token from `i` on that is neither a newline nor a `;`.
pub open spec fn skip_seps(toks: Seq<RawTok>, i: int) -> int
    decreases toks.len() - i,
{
    if 0 <= i < toks.len() && (toks[i].kind == TokenKind::Newline || toks[i].kind
        == TokenKind::Semi) {
        skip_seps(toks, i + 1)
    } else {
        i
    }
}

pub proof fn lemma_skip_seps_ge(toks: Seq<RawTok>, i: int)
    ensures
        skip_seps(toks, i) >= i,
        0 <= i <= toks.len() ==> skip_seps(toks, i) <= toks.len(),
    decreases toks.len() - i,
{
    if 0 <= i < toks.len() && (toks[i].kind == TokenKind::Newline || toks[i].kind
        == TokenKind::Semi) {
        lemma_skip_seps_ge(toks, i + 1);
    }
}

proof fn lemma_skip_seps_to(toks: Seq<RawTok>, a: int, b: int)
    requires
        0 <= a <= b <= toks.len(),
        forall|k: int|
            a <= k < b ==> (#[trigger] toks[k]).kind == TokenKind::Newline || toks[k].kind
                == TokenKind::Semi,
        b < toks.len() ==> toks[b].kind != TokenKind::Newline && toks[b].kind != TokenKind::Semi,
    ensures
        skip_seps(toks, a) == b,
    decreases b - a,
{
    if a < b {
        lemma_skip_seps_to(toks, a + 1, b);
    }
}

/// Identifiers joined by `.` start at token `i`: one, and another after each `.`.
pub open spec fn dotted_ok(toks: Seq<RawTok>, i: int) -> bool
    decreases toks.len() - i,
{
    &&& 0 <= i < toks.len()
    &&& toks[i].kind == TokenKind::Ident
    &&& (i + 1 < toks.len() && toks[i + 1].kind == TokenKind::Dot ==> dotted_ok(toks, i + 2))
}

/// Where a dotted name that starts at token `i` ends: after its last identifier.
pub open spec fn dotted_end(toks: Seq<RawTok>, i: int) -> int
    decreases toks.len() - i,
{
    if 0 <= i && i + 1 < toks.len() && toks[i + 1].kind == TokenKind::Dot {
        dotted_end(toks, i + 2)
    } else {
        i + 1
    }
}

/// A decorator's arguments from token `i` on: each an expression up to a `,` or the `)`,
/// with separators and commas between them; where they read so, the token after the `)`.
#[verifier::opaque]
pub open spec fn args_end(s: Seq<char>, toks: Seq<RawTok>, i: int) -> Option<int>
    decreases toks.len() - i,
{
    if !(0 <= i < toks.len()) {
        None
    } else if toks[i].kind == TokenKind::RParen {
        Some(i + 1)
    } else if segment(s, toks, i, seq![TokenKind::Comma, TokenKind::RParen], false) is Some {
        let e = seg_end(
            tok_kinds(toks),
            i,
            zero_depth(),
            seq![TokenKind::Comma, TokenKind::RParen],
            true,
            false,
        );
        let c = skip_seps(toks, e);
        if 0 <= c < toks.len() && toks[c].kind == TokenKind::Comma {
            let n = skip_seps(toks, c + 1);
            if i < n <= toks.len() {
                args_end(s, toks, n)
            } else {
                None
            }
        } else if 0 <= c < toks.len() && toks[c].kind == TokenKind::RParen {
            Some(c + 1)
        } else {
            None
        }
    } else {
        None
    }
}

/// A decorator at token `i`: `@`, a dotted name and, if a `(` follows, its arguments;
/// where it reads so, the token after it.
pub open spec fn decorator_end(s: Seq<char>, toks: Seq<RawTok>, i: int) -> Option<int> {
    if 0 <= i < toks.len() && toks[i].kind == TokenKind::At && dotted_ok(toks, i + 1) {
        let d = dotted_end(toks, i + 1);
        if 0 <= d < toks.len() && toks[d].kind == TokenKind::LParen {
            args_end(s, toks, skip_seps(toks, d + 1))
        } else {
            Some(d)
        }
    } else {
        None
    }
}

/// Decorators from token `i` on (`decorator_end`), each followed by separators; where they
/// read so, the token after them.
#[verifier::opaque]
pub open spec fn decorators_end(s: Seq<char>, toks: Seq<RawTok>, i: int) -> Option<int>
    decreases toks.len() - i,
{
    if 0 <= i < toks.len() && toks[i].kind == TokenKind::At {
        match decorator_end(s, toks, i) {
            Some(d) => {
                let n = skip_seps(toks, d);
                if i < n <= toks.len() {
                    decorators_end(s, toks, n)
                } else {
                    None
                }
            },
            None => None,
        }
    } else {
        Some(i)
    }
}

/// The type parameter names from token `i` on: identifiers separated by commas, up to a `>`;
/// a place without an identifier gives no name.
#[verifier::opaque]
pub open spec fn tparams_from(s: Seq<char>, toks: Seq<RawTok>, i: int) -> Seq<Seq<char>>
    decreases toks.len() - i,
{
    if i < 0 || i >= toks.len() || toks[i].kind == TokenKind::Gt {
        Seq::empty()
    } else {
        let named = toks[i].kind == TokenKind::Ident;
        let here = if named {
            seq![s.subrange(toks[i].start as int, toks[i].end as int)]
        } else {
            Seq::empty()
        };
        let j = if named { i + 1 } else { i };
        let c = skip_seps(toks, j);
        if 0 <= c < toks.len() && toks[c].kind == TokenKind::Comma {
            proof {
                lemma_skip_seps_ge(toks, j);
                lemma_skip_seps_ge(toks, c + 1);
            }
            here + tparams_from(s, toks, skip_seps(toks, c + 1))
        } else {
            here
        }
    }
}

proof fn lemma_tparams_step(s: Seq<char>, toks: Seq<RawTok>, i: int)
    ensures
        tparams_from(s, toks, i) == if i < 0 || i >= toks.len() || toks[i].kind == TokenKind::Gt {
            Seq::empty()
        } else {
            let named = toks[i].kind == TokenKind::Ident;
            let here = if named {
                seq![s.subrange(toks[i].start as int, toks[i].end as int)]
            } else {
                Seq::empty()
            };
            let j = if named { i + 1 } else { i };
            let c = skip_seps(toks, j);
            if 0 <= c < toks.len() && toks[c].kind == TokenKind::Comma {
                here + tparams_from(s, toks, skip_seps(toks, c + 1))
            } else {
                here
            }
        },
{
    reveal_with_fuel(tparams_from, 1);
}

/// The type parameters written from token `i`: after separators, `<` and the names up to `>`;
/// none without a `<`.
pub open spec fn type_params_at(s: Seq<char>, toks: Seq<RawTok>, i: int) -> Seq<Seq<char>> {
    let a = skip_seps(toks, i);
    if 0 <= a < toks.len() && toks[a].kind == TokenKind::Lt {
        tparams_from(s, toks, skip_seps(toks, a + 1))
    } else {
        Seq::empty()
    }
}

/// The decorators' names are dotted names that start, in their order, just after `@` tokens
/// at the increasing positions `ps`, from token `k` on.
spec fn decorators_at(p: Parser, k: int, decs: Seq<Decorator>, ps: Seq<int>) -> bool {
    &&& ps.len() == decs.len()
    &&& forall|j: int|
        0 <= j < ps.len() ==> k <= #[trigger] ps[j] < p.tokens@.len() && p.tokens@[ps[j]].kind
            == TokenKind::At && exists|e: int| decs[j].name@ == #[trigger] p.dotted_name(ps[j] + 1, e)
    &&& forall|i: int, j: int| 0 <= i < j < ps.len() ==> #[trigger] ps[i] < #[trigger] ps[j]
}

/// The parameters from token `i` on read: up to a `)` or the end, each an identifier, its
/// `:` (which may be missing) and a type, with commas between them.
#[verifier::opaque]
pub open spec fn params_ok(s: Seq<char>, toks: Seq<RawTok>, i: int) -> bool
    decreases toks.len() - i,
{
    if i < 0 || i >= toks.len() || toks[i].kind == TokenKind::RParen {
        true
    } else if toks[i].kind != TokenKind::Ident {
        false
    } else {
        let c = if i + 1 < toks.len() && toks[i + 1].kind == TokenKind::Colon {
            i + 2
        } else {
            i + 1
        };
        let b = skip_seps(toks, c);
        let stops = seq![TokenKind::Comma, TokenKind::RParen];
        match segment(s, toks, b, stops, false) {
            None => false,
            Some(_) => {
                let e = seg_end(tok_kinds(toks), b, zero_depth(), stops, true, false);
                let d = skip_seps(toks, e);
                if 0 <= d < toks.len() && toks[d].kind == TokenKind::Comma {
                    proof {
                        lemma_skip_seps_ge(toks, c);
                        lemma_seg_end_bounds(tok_kinds(toks), b, zero_depth(), stops, true, false);
                        lemma_skip_seps_ge(toks, e);
                        lemma_skip_seps_ge(toks, d + 1);
                    }
                    params_ok(s, toks, skip_seps(toks, d + 1))
                } else {
                    true
                }
            },
        }
    }
}

proof fn lemma_params_ok_step(s: Seq<char>, toks: Seq<RawTok>, i: int)
    ensures
        params_ok(s, toks, i) == if i < 0 || i >= toks.len() || toks[i].kind == TokenKind::RParen {
            true
        } else if toks[i].kind != TokenKind::Ident {
            false
        } else {
            let c = if i + 1 < toks.len() && toks[i + 1].kind == TokenKind::Colon {
                i + 2
            } else {
                i + 1
            };
            let b = skip_seps(toks, c);
            let stops = seq![TokenKind::Comma, TokenKind::RParen];
            match segment(s, toks, b, stops, false) {
                None => false,
                Some(_) => {
                    let e = seg_end(tok_kinds(toks), b, zero_depth(), stops, true, false);
                    let d = skip_seps(toks, e);
                    if 0 <= d < toks.len() && toks[d].kind == TokenKind::Comma {
                        params_ok(s, toks, skip_seps(toks, d + 1))
                    } else {
                        true
                    }
                },
            }
        },
{
    reveal_with_fuel(params_ok, 1);
}

/// Separators, then a `,` and the separators after it if there is one.
pub open spec fn past_comma(toks: Seq<RawTok>, j: int) -> int {
    let c = skip_seps(toks, j);
    if 0 <= c < toks.len() && toks[c].kind == TokenKind::Comma {
        skip_seps(toks, c + 1)
    } else {
        c
    }
}

/// Where the parameters start after token `i`: past the `(`, separators and, where a
/// receiver is allowed, `self` or `mut self` with the comma after it.
pub open spec fn params_start(toks: Seq<RawTok>, i: int, allow_receiver: bool) -> int {
    let a = if 0 <= i < toks.len() && toks[i].kind == TokenKind::LParen { i + 1 } else { i };
    let b = skip_seps(toks, a);
    if allow_receiver && 0 <= b < toks.len() && toks[b].kind == TokenKind::SelfKw {
        past_comma(toks, b + 1)
    } else if allow_receiver && 0 <= b && b + 1 < toks.len() && toks[b].kind == TokenKind::Mut
        && toks[b + 1].kind == TokenKind::SelfKw {
        past_comma(toks, b + 2)
    } else {
        b
    }
}

/// An `if` at token `k` has a condition, and a `{` where the condition ends.
#[verifier::opaque]
pub open spec fn if_head_ok(s: Seq<char>, toks: Seq<RawTok>, k: int) -> bool {
    let b = skip_seps(toks, k + 1);
    let q = seg_next(toks, b, seq![TokenKind::LBrace], false);
    &&& segment(s, toks, b, seq![TokenKind::LBrace], false) is Some
    &&& 0 <= q < toks.len()
    &&& toks[q].kind == TokenKind::LBrace
}

/// The text of a token.
pub open spec fn tok_text(s: Seq<char>, t: RawTok) -> Seq<char> {
    s.subrange(t.start as int, t.end as int)
}

/// The paths of the run of `import "path"` declarations that starts at token `i`,
/// each followed by separators.
pub open spec fn import_run(s: Seq<char>, toks: Seq<RawTok>, i: int) -> Seq<Seq<char>>
    decreases toks.len() - i,
{
    if 0 <= i && i + 1 < toks.len() && toks[i].kind == TokenKind::Import && toks[i + 1].kind
        == TokenKind::StringLit {
        proof {
            lemma_skip_seps_ge(toks, i + 2);
        }
        seq![trim_char(tok_text(s, toks[i + 1]), '"')] + import_run(
            s,
            toks,
            skip_seps(toks, i + 2),
        )
    } else {
        Seq::empty()
    }
}

/// Where the run of imports that starts at token `i` ends.
pub open spec fn import_run_end(toks: Seq<RawTok>, i: int) -> int
    decreases toks.len() - i,
{
    if 0 <= i && i + 1 < toks.len() && toks[i].kind == TokenKind::Import && toks[i + 1].kind
        == TokenKind::StringLit {
        proof {
            lemma_skip_seps_ge(toks, i + 2);
        }
        import_run_end(toks, skip_seps(toks, i + 2))
    } else {
        i
    }
}

/// The file holds nothing but its header: a package clause, imports and separators.
pub open spec fn header_only(toks: Seq<RawTok>) -> bool {
    let i = skip_seps(toks, 0);
    skip_seps(toks, import_run_end(toks, skip_seps(toks, i + 2))) >= toks.len()
}

/// The header of a file whose tokens are `toks`: after leading separators, `package`
/// and the package name, then the run of imports. `None` where it does not start so.
pub open spec fn header_of(s: Seq<char>, toks: Seq<RawTok>) -> Option<
    (Seq<char>, Seq<Seq<char>>),
> {
    let i = skip_seps(toks, 0);
    if 0 <= i && i + 1 < toks.len() && toks[i].kind == TokenKind::Package && toks[i + 1].kind
        == TokenKind::Ident {
        Some((tok_text(s, toks[i + 1]), import_run(s, toks, skip_seps(toks, i + 2))))
    } else {
        None
    }
}

/// `names` are the texts of identifier tokens that stand, in their order, at the
/// increasing positions `ps`, all after token `k`.
pub open spec fn names_at(
    s: Seq<char>,
    toks: Seq<RawTok>,
    k: int,
    names: Seq<Seq<char>>,
    ps: Seq<int>,
) -> bool {
    &&& ps.len() == names.len()
    &&& forall|j: int|
        0 <= j < ps.len() ==> k < #[trigger] ps[j] < toks.len() && toks[ps[j]].kind
            == TokenKind::Ident && names[j] == tok_text(s, toks[ps[j]])
    &&& forall|i: int, j: int| 0 <= i < j < ps.len() ==> #[trigger] ps[i] < #[trigger] ps[j]
}

/// The names of identifier tokens after token `k`, in their order.
pub open spec fn names_after(s: Seq<char>, toks: Seq<RawTok>, k: int, names: Seq<Seq<char>>) -> bool {
    exists|ps: Seq<int>| #[trigger] names_at(s, toks, k, names, ps)
}

pub open spec fn field_names(fields: Seq<FieldDecl>) -> Seq<Seq<char>> {
    fields.map_values(|f: FieldDecl| f.name@)
}

pub open spec fn variant_names(variants: Seq<EnumVariant>) -> Seq<Seq<char>> {
    variants.map_values(|v: EnumVariant| v.name@)
}

pub open spec fn param_names(params: Seq<ParamDecl>) -> Seq<Seq<char>> {
    params.map_values(|p: ParamDecl| p.name@)
}

/// Each parameter's type is the segment after its name and `:`, up to a `,` or `)`.
pub open spec fn typed_at(s: Seq<char>, toks: Seq<RawTok>, params: Seq<ParamDecl>, ps: Seq<int>) -> bool {
    forall|j: int|
        0 <= j < ps.len() ==> {
            let p = #[trigger] ps[j];
            let c = if p + 1 < toks.len() && toks[p + 1].kind == TokenKind::Colon {
                p + 2
            } else {
                p + 1
            };
            segment(s, toks, skip_seps(toks, c), seq![TokenKind::Comma, TokenKind::RParen], false)
                matches Some((t, _)) && params[j].ty.raw@ == t
        }
}

proof fn lemma_typed_push(
    s: Seq<char>,
    toks: Seq<RawTok>,
    params: Seq<ParamDecl>,
    ps: Seq<int>,
    x: ParamDecl,
    p: int,
)
    requires
        ps.len() == params.len(),
        typed_at(s, toks, params, ps),
        ({
            let c = if p + 1 < toks.len() && toks[p + 1].kind == TokenKind::Colon {
                p + 2
            } else {
                p + 1
            };
            segment(s, toks, skip_seps(toks, c), seq![TokenKind::Comma, TokenKind::RParen], false)
                matches Some((t, _)) && x.ty.raw@ == t
        }),
    ensures
        typed_at(s, toks, params.push(x), ps.push(p)),
{
    let ps2 = ps.push(p);
    let params2 = params.push(x);
    assert forall|j: int| 0 <= j < ps2.len() implies {
        let q = #[trigger] ps2[j];
        let c = if q + 1 < toks.len() && toks[q + 1].kind == TokenKind::Colon {
            q + 2
        } else {
            q + 1
        };
        segment(s, toks, skip_seps(toks, c), seq![TokenKind::Comma, TokenKind::RParen], false)
            matches Some((t, _)) && params2[j].ty.raw@ == t
    } by {
        if j < ps.len() {
            assert(ps2[j] == ps[j]);
            assert(params2[j] == params[j]);
        }
    }
}

/// The parameters' names are identifiers after token `k`, in their order, each followed by
/// its type.
pub open spec fn params_after(s: Seq<char>, toks: Seq<RawTok>, k: int, params: Seq<ParamDecl>) -> bool {
    exists|ps: Seq<int>|
        #[trigger] names_at(s, toks, k, param_names(params), ps) && typed_at(s, toks, params, ps)
}

proof fn lemma_params_after_weaken(
    s: Seq<char>,
    toks: Seq<RawTok>,
    k: int,
    k2: int,
    params: Seq<ParamDecl>,
)
    requires
        k <= k2,
        params_after(s, toks, k2, params),
    ensures
        params_after(s, toks, k, params),
{
    let ps = choose|ps: Seq<int>|
        #[trigger] names_at(s, toks, k2, param_names(params), ps) && typed_at(s, toks, params, ps);
    assert(names_at(s, toks, k, param_names(params), ps));
}

pub open spec fn method_names(methods: Seq<MethodDecl>) -> Seq<Seq<char>> {
    methods.map_values(|m: MethodDecl| m.name@)
}

proof fn lemma_names_after_weaken(
    s: Seq<char>,
    toks: Seq<RawTok>,
    k: int,
    k2: int,
    names: Seq<Seq<char>>,
)
    requires
        k <= k2,
        names_after(s, toks, k2, names),
    ensures
        names_after(s, toks, k, names),
{
    let ps = choose|ps: Seq<int>| #[trigger] names_at(s, toks, k2, names, ps);
    assert(names_at(s, toks, k, names, ps));
}

pub open spec fn tok_kinds(toks: Seq<RawTok>) -> Seq<TokenKind> {
    toks.map_values(|t: RawTok| t.kind)
}

/// A text segment from token `b`: the tokens up to a `stops` kind, a newline or (if `rb`) a
/// `}` outside brackets, less trailing newlines and `;`s, as trimmed text, with whether a `?`
/// ends it (the `?` left out). `None` when nothing is left.
pub open spec fn segment(
    s: Seq<char>,
    toks: Seq<RawTok>,
    b: int,
    stops: Seq<TokenKind>,
    rb: bool,
) -> Option<(Seq<char>, bool)> {
    let ks = tok_kinds(toks);
    let e = seg_end(ks, b, zero_depth(), stops, true, rb);
    let x = strip_back(ks, b, strip_back(ks, b, e, TokenKind::Newline), TokenKind::Semi);
    let has_try = x > b && ks[x - 1] == TokenKind::Question;
    let y = if has_try { x - 1 } else { x };
    if y <= b {
        None
    } else {
        Some((trim(s.subrange(toks[b].start as int, toks[y - 1].end as int)), has_try))
    }
}

/// Where reading a segment from token `b` leaves off: at its stop where it found tokens,
/// else at `b`.
pub open spec fn seg_next(toks: Seq<RawTok>, b: int, stops: Seq<TokenKind>, rb: bool) -> int {
    let ks = tok_kinds(toks);
    let e = seg_end(ks, b, zero_depth(), stops, true, rb);
    let x = strip_back(ks, b, strip_back(ks, b, e, TokenKind::Newline), TokenKind::Semi);
    if x <= b {
        b
    } else {
        e
    }
}

/// The expression read from the rest of the line at token `b`: where nothing is found there,
/// the line is read once more from where the first reading left off.
pub open spec fn line_expr(s: Seq<char>, toks: Seq<RawTok>, b: int) -> Option<(Seq<char>, bool)> {
    match segment(s, toks, b, Seq::empty(), true) {
        Some(v) => Some(v),
        None => segment(s, toks, seg_next(toks, b, Seq::empty(), true), Seq::empty(), true),
    }
}

/// The expression that fills the rest of the line from token `b`.
pub open spec fn line_segment(s: Seq<char>, toks: Seq<RawTok>, b: int) -> Option<(Seq<char>, bool)> {
    segment(s, toks, b, Seq::empty(), true)
}

/// The comma-separated values of a `return` from token `b` on.
#[verifier::opaque]
pub open spec fn return_values(s: Seq<char>, toks: Seq<RawTok>, b: int) -> Seq<(Seq<char>, bool)>
    decreases toks.len() - b,
{
    if b < 0 || b >= toks.len() {
        Seq::empty()
    } else {
        match segment(s, toks, b, seq![TokenKind::Comma], true) {
            None => Seq::empty(),
            Some(v) => {
                let e = seg_end(tok_kinds(toks), b, zero_depth(), seq![TokenKind::Comma], true, true);
                let c = skip_seps(toks, e);
                if 0 <= c < toks.len() && toks[c].kind == TokenKind::Comma {
                    proof {
                        lemma_seg_end_bounds(
                            tok_kinds(toks),
                            b,
                            zero_depth(),
                            seq![TokenKind::Comma],
                            true,
                            true,
                        );
                        lemma_skip_seps_ge(toks, e);
                        lemma_skip_seps_ge(toks, c + 1);
                    }
                    seq![v] + return_values(s, toks, skip_seps(toks, c + 1))
                } else {
                    seq![v]
                }
            },
        }
    }
}

proof fn lemma_return_values_step(s: Seq<char>, toks: Seq<RawTok>, b: int)
    ensures
        return_values(s, toks, b) == if b < 0 || b >= toks.len() {
            Seq::empty()
        } else {
            match segment(s, toks, b, seq![TokenKind::Comma], true) {
                None => Seq::empty(),
                Some(v) => {
                    let e = seg_end(tok_kinds(toks), b, zero_depth(), seq![TokenKind::Comma], true, true);
                    let c = skip_seps(toks, e);
                    if 0 <= c < toks.len() && toks[c].kind == TokenKind::Comma {
                        seq![v] + return_values(s, toks, skip_seps(toks, c + 1))
                    } else {
                        seq![v]
                    }
                },
            }
        },
{
    reveal_with_fuel(return_values, 1);
}

/// Every value of a `return` from token `b` on reads as a segment.
#[verifier::opaque]
pub open spec fn return_values_ok(s: Seq<char>, toks: Seq<RawTok>, b: int) -> bool
    decreases toks.len() - b,
{
    if b < 0 || b >= toks.len() {
        true
    } else {
        match segment(s, toks, b, seq![TokenKind::Comma], true) {
            None => false,
            Some(_) => {
                let e = seg_end(tok_kinds(toks), b, zero_depth(), seq![TokenKind::Comma], true, true);
                let c = skip_seps(toks, e);
                if 0 <= c < toks.len() && toks[c].kind == TokenKind::Comma {
                    proof {
                        lemma_seg_end_bounds(
                            tok_kinds(toks),
                            b,
                            zero_depth(),
                            seq![TokenKind::Comma],
                            true,
                            true,
                        );
                        lemma_skip_seps_ge(toks, e);
                        lemma_skip_seps_ge(toks, c + 1);
                    }
                    return_values_ok(s, toks, skip_seps(toks, c + 1))
                } else {
                    true
                }
            },
        }
    }
}

proof fn lemma_return_values_ok_step(s: Seq<char>, toks: Seq<RawTok>, b: int)
    ensures
        return_values_ok(s, toks, b) == if b < 0 || b >= toks.len() {
            true
        } else {
            match segment(s, toks, b, seq![TokenKind::Comma], true) {
                None => false,
                Some(_) => {
                    let e = seg_end(tok_kinds(toks), b, zero_depth(), seq![TokenKind::Comma], true, true);
                    let c = skip_seps(toks, e);
                    if 0 <= c < toks.len() && toks[c].kind == TokenKind::Comma {
                        return_values_ok(s, toks, skip_seps(toks, c + 1))
                    } else {
                        true
                    }
                },
            }
        },
{
    reveal_with_fuel(return_values_ok, 1);
}

/// A `return` at token `k` reads: nothing follows it on its line, or every value does.
pub open spec fn return_parses(s: Seq<char>, toks: Seq<RawTok>, k: int) -> bool {
    let b = skip_seps(toks, k + 1);
    if 0 <= b < toks.len() && (toks[b].kind == TokenKind::Newline || toks[b].kind
        == TokenKind::Semi || toks[b].kind == TokenKind::RBrace) {
        true
    } else {
        return_values_ok(s, toks, b)
    }
}

/// What a `return` at token `k` gives back: nothing when a newline, `;` or `}` follows it,
/// else its values.
pub open spec fn return_exprs(s: Seq<char>, toks: Seq<RawTok>, k: int) -> Seq<(Seq<char>, bool)> {
    let b = skip_seps(toks, k + 1);
    if 0 <= b < toks.len() && (toks[b].kind == TokenKind::Newline || toks[b].kind
        == TokenKind::Semi || toks[b].kind == TokenKind::RBrace) {
        Seq::empty()
    } else {
        return_values(s, toks, b)
    }
}

pub open spec fn expr_views(exprs: Seq<Expr>) -> Seq<(Seq<char>, bool)> {
    exprs.map_values(|e: Expr| (e.text@, e.has_try))
}

/// Statement `st` starts at token `k`, whose kind selects its form: `match`, `return`,
/// `if`, a `for` loop kept as raw text, `name := ...`, and otherwise an expression. The
/// expression of a declaration or of an expression statement is the rest of its line; a
/// `return` gives back the values that follow it; the condition of an `if` and the value of
/// a `match` are the text up to their `{`.
pub open spec fn stmt_at(s: Seq<char>, toks: Seq<RawTok>, k: int, st: Stmt) -> bool {
    let declares = toks[k].kind == TokenKind::Ident && k + 1 < toks.len() && toks[k + 1].kind
        == TokenKind::ColonEq;
    &&& 0 <= k < toks.len()
    &&& match st {
        Stmt::Match(m) => toks[k].kind == TokenKind::Match && segment(
            s,
            toks,
            skip_seps(toks, k + 1),
            seq![TokenKind::LBrace],
            false,
        ) == Some((m.value.text@, m.value.has_try)),
        Stmt::Return(r) => toks[k].kind == TokenKind::Return && expr_views(r.exprs@) == return_exprs(
            s,
            toks,
            k,
        ),
        Stmt::If(i) => toks[k].kind == TokenKind::If && segment(
            s,
            toks,
            skip_seps(toks, k + 1),
            seq![TokenKind::LBrace],
            false,
        ) == Some((i.condition.text@, i.condition.has_try)),
        Stmt::Raw(_) => toks[k].kind == TokenKind::For,
        Stmt::VarDecl(v) => declares && v.name@ == tok_text(s, toks[k]) && (line_segment(
            s,
            toks,
            skip_seps(toks, k + 2),
        ) matches Some((t, h)) ==> v.expr.text@ == t && v.expr.has_try == h),
        Stmt::Expr(x) => !declares && toks[k].kind != TokenKind::Match && toks[k].kind
            != TokenKind::Return && toks[k].kind != TokenKind::If && toks[k].kind != TokenKind::For
            && (line_segment(s, toks, k) matches Some((t, h)) ==> x.expr.text@ == t
            && x.expr.has_try == h),
    }
}

/// The statements start, in their order, at the increasing tokens `ps`, all after token `k`.
pub open spec fn stmts_at(
    s: Seq<char>,
    toks: Seq<RawTok>,
    k: int,
    stmts: Seq<Stmt>,
    ps: Seq<int>,
) -> bool {
    &&& ps.len() == stmts.len()
    &&& forall|j: int| 0 <= j < ps.len() ==> k < #[trigger] ps[j] && stmt_at(s, toks, ps[j], stmts[j])
    &&& forall|i: int, j: int| 0 <= i < j < ps.len() ==> #[trigger] ps[i] < #[trigger] ps[j]
}

pub open spec fn stmts_after(s: Seq<char>, toks: Seq<RawTok>, k: int, stmts: Seq<Stmt>) -> bool {
    exists|ps: Seq<int>| #[trigger] stmts_at(s, toks, k, stmts, ps)
}

proof fn lemma_stmts_after_weaken(s: Seq<char>, toks: Seq<RawTok>, k: int, k2: int, stmts: Seq<Stmt>)
    requires
        k <= k2,
        stmts_after(s, toks, k2, stmts),
    ensures
        stmts_after(s, toks, k, stmts),
{
    let ps = choose|ps: Seq<int>| #[trigger] stmts_at(s, toks, k2, stmts, ps);
    assert(stmts_at(s, toks, k, stmts, ps));
}

/// The statements in the order their first tokens come: each followed by those nested in
/// its blocks.
pub open spec fn flatten(stmts: Seq<Stmt>) -> Seq<Stmt>
    decreases stmts,
{
    if stmts.len() == 0 {
        Seq::empty()
    } else {
        seq![stmts[0]] + nested(stmts[0]) + flatten(stmts.drop_first())
    }
}

/// The statements nested in the blocks of `st`, in the order their first tokens come.
pub open spec fn nested(st: Stmt) -> Seq<Stmt>
    decreases st,
{
    match st {
        Stmt::If(i) => if_nested(i),
        Stmt::Match(m) => arms_nested(m.arms@),
        _ => Seq::empty(),
    }
}

/// The statements of an `if`'s blocks; an `else if` counts as an `if` statement of its own.
pub open spec fn if_nested(i: IfStmt) -> Seq<Stmt>
    decreases i,
{
    flatten(i.then_block.stmts@) + match i.else_branch {
        None => Seq::empty(),
        Some(ElseBranch::Block(b)) => flatten(b.stmts@),
        Some(ElseBranch::If(x)) => seq![Stmt::If(*x)] + if_nested(*x),
    }
}

/// The statements of the arms' blocks.
pub open spec fn arms_nested(arms: Seq<MatchArm>) -> Seq<Stmt>
    decreases arms,
{
    if arms.len() == 0 {
        Seq::empty()
    } else {
        (match arms[0].body {
            MatchArmBody::Block(b) => flatten(b.stmts@),
            MatchArmBody::Expr(_) => Seq::empty(),
        }) + arms_nested(arms.drop_first())
    }
}

/// The statements start, in their order, at increasing tokens strictly between `lo` and `hi`.
pub open spec fn stmts_within(
    s: Seq<char>,
    toks: Seq<RawTok>,
    lo: int,
    hi: int,
    stmts: Seq<Stmt>,
    ps: Seq<int>,
) -> bool {
    &&& ps.len() == stmts.len()
    &&& forall|j: int|
        0 <= j < ps.len() ==> lo < #[trigger] ps[j] < hi && stmt_at(s, toks, ps[j], stmts[j])
    &&& forall|i: int, j: int| 0 <= i < j < ps.len() ==> #[trigger] ps[i] < #[trigger] ps[j]
}

pub open spec fn placed(s: Seq<char>, toks: Seq<RawTok>, lo: int, hi: int, stmts: Seq<Stmt>) -> bool {
    exists|ps: Seq<int>| #[trigger] stmts_within(s, toks, lo, hi, stmts, ps)
}

proof fn lemma_placed_empty(s: Seq<char>, toks: Seq<RawTok>, lo: int, hi: int)
    ensures
        placed(s, toks, lo, hi, Seq::empty()),
{
    assert(stmts_within(s, toks, lo, hi, Seq::empty(), Seq::empty()));
}

proof fn lemma_placed_one(s: Seq<char>, toks: Seq<RawTok>, lo: int, hi: int, k: int, st: Stmt)
    requires
        lo < k < hi,
        stmt_at(s, toks, k, st),
    ensures
        placed(s, toks, lo, hi, seq![st]),
{
    assert(stmts_within(s, toks, lo, hi, seq![st], seq![k]));
}

proof fn lemma_placed_weaken(
    s: Seq<char>,
    toks: Seq<RawTok>,
    lo: int,
    hi: int,
    lo2: int,
    hi2: int,
    a: Seq<Stmt>,
)
    requires
        placed(s, toks, lo, hi, a),
        lo2 <= lo,
        hi <= hi2,
    ensures
        placed(s, toks, lo2, hi2, a),
{
    let ps = choose|ps: Seq<int>| #[trigger] stmts_within(s, toks, lo, hi, a, ps);
    assert(stmts_within(s, toks, lo2, hi2, a, ps));
}

/// Statements placed before token `b` followed by statements placed after token `m`.
proof fn lemma_placed_concat(
    s: Seq<char>,
    toks: Seq<RawTok>,
    lo: int,
    b: int,
    m: int,
    hi: int,
    a: Seq<Stmt>,
    c: Seq<Stmt>,
)
    requires
        placed(s, toks, lo, b, a),
        placed(s, toks, m, hi, c),
        b <= m + 1,
        lo <= m,
        b <= hi,
    ensures
        placed(s, toks, lo, hi, a + c),
{
    let pa = choose|ps: Seq<int>| #[trigger] stmts_within(s, toks, lo, b, a, ps);
    let pc = choose|ps: Seq<int>| #[trigger] stmts_within(s, toks, m, hi, c, ps);
    let ps = pa + pc;
    assert forall|j: int| 0 <= j < ps.len() implies lo < #[trigger] ps[j] < hi && stmt_at(
        s,
        toks,
        ps[j],
        (a + c)[j],
    ) by {
        if j < pa.len() {
            assert(ps[j] == pa[j]);
        } else {
            assert(ps[j] == pc[j - pa.len()]);
        }
    }
    assert forall|i: int, j: int| 0 <= i < j < ps.len() implies #[trigger] ps[i] < #[trigger] ps[j] by {
        if j < pa.len() {
            assert(ps[j] == pa[j]);
            assert(ps[i] == pa[i]);
        } else if i >= pa.len() {
            assert(ps[j] == pc[j - pa.len()]);
            assert(ps[i] == pc[i - pa.len()]);
        } else {
            assert(ps[i] == pa[i]);
            assert(ps[j] == pc[j - pa.len()]);
        }
    }
    assert(stmts_within(s, toks, lo, hi, a + c, ps));
}

proof fn lemma_flatten_push(a: Seq<Stmt>, x: Stmt)
    ensures
        flatten(a.push(x)) == flatten(a) + seq![x] + nested(x),
    decreases a.len(),
{
    if a.len() == 0 {
        assert(a.push(x).drop_first() =~= Seq::<Stmt>::empty());
        assert(flatten(Seq::<Stmt>::empty()) =~= Seq::<Stmt>::empty());
        assert(flatten(a.push(x)) =~= seq![x] + nested(x));
        assert(flatten(a) =~= Seq::<Stmt>::empty());
    } else {
        assert(a.push(x).drop_first() =~= a.drop_first().push(x));
        lemma_flatten_push(a.drop_first(), x);
        assert(a.push(x)[0] == a[0]);
        assert(flatten(a.push(x)) =~= seq![a[0]] + nested(a[0]) + (flatten(a.drop_first()) + seq![x]
            + nested(x)));
    }
}

proof fn lemma_arms_nested_push(a: Seq<MatchArm>, x: MatchArm)
    ensures
        arms_nested(a.push(x)) == arms_nested(a) + match x.body {
            MatchArmBody::Block(b) => flatten(b.stmts@),
            MatchArmBody::Expr(_) => Seq::empty(),
        },
    decreases a.len(),
{
    if a.len() == 0 {
        assert(a.push(x).drop_first() =~= Seq::<MatchArm>::empty());
        assert(arms_nested(a) =~= Seq::<Stmt>::empty());
        let tail = arms_nested(a.push(x).drop_first());
        assert(tail =~= Seq::<Stmt>::empty());
        assert(a.push(x)[0] == x);
        let here = match x.body {
            MatchArmBody::Block(b) => flatten(b.stmts@),
            MatchArmBody::Expr(_) => Seq::<Stmt>::empty(),
        };
        assert(arms_nested(a.push(x)) =~= here + tail);
        assert(arms_nested(a.push(x)) =~= arms_nested(a) + here);
    } else {
        assert(a.push(x).drop_first() =~= a.drop_first().push(x));
        lemma_arms_nested_push(a.drop_first(), x);
        assert(a.push(x)[0] == a[0]);
        let h0 = match a[0].body {
            MatchArmBody::Block(b) => flatten(b.stmts@),
            MatchArmBody::Expr(_) => Seq::<Stmt>::empty(),
        };
        let hx = match x.body {
            MatchArmBody::Block(b) => flatten(b.stmts@),
            MatchArmBody::Expr(_) => Seq::<Stmt>::empty(),
        };
        assert(arms_nested(a.push(x)) =~= h0 + (arms_nested(a.drop_first()) + hx));
        assert(arms_nested(a) =~= h0 + arms_nested(a.drop_first()));
    }
}

/// The methods' names stand, in their order, at the increasing tokens `ps` after token `k`,
/// and each method's parameter names and body statements (nested ones included) follow its
/// name.
pub open spec fn methods_at(
    s: Seq<char>,
    toks: Seq<RawTok>,
    k: int,
    methods: Seq<MethodDecl>,
    ps: Seq<int>,
) -> bool {
    &&& names_at(s, toks, k, method_names(methods), ps)
    &&& forall|j: int|
        0 <= j < ps.len() ==> params_after(s, toks, #[trigger] ps[j], methods[j].params@)
            && stmts_after(s, toks, ps[j], methods[j].body.stmts@) && placed(
            s,
            toks,
            ps[j],
            toks.len() as int,
            flatten(methods[j].body.stmts@),
        )
}

/// Item `it` is declared at token `k`: that token is its keyword and, for a function, a
/// struct or an enum, the next token is its name; the names of a function's parameters, of a
/// struct's fields, of an enum's variants and of an impl's methods are, in their order,
/// identifiers that follow, and the statements of a function's or a method's body, nested
/// ones included, start in the order of `flatten` at tokens that follow.
pub open spec fn item_at(s: Seq<char>, toks: Seq<RawTok>, k: int, it: Item) -> bool {
    &&& 0 <= k < toks.len()
    &&& match it {
        Item::Function(f) => toks[k].kind == TokenKind::Fn && k + 1 < toks.len() && f.name@
            == tok_text(s, toks[k + 1]) && params_after(s, toks, k + 1, f.params@)
            && stmts_after(s, toks, k + 1, f.body.stmts@) && placed(
            s,
            toks,
            k + 1,
            toks.len() as int,
            flatten(f.body.stmts@),
        ),
        Item::Struct(d) => toks[k].kind == TokenKind::Struct && k + 1 < toks.len() && d.name@
            == tok_text(s, toks[k + 1]) && names_after(s, toks, k + 1, field_names(d.fields@)),
        Item::Enum(d) => toks[k].kind == TokenKind::Enum && k + 1 < toks.len() && d.name@
            == tok_text(s, toks[k + 1]) && names_after(s, toks, k + 1, variant_names(d.variants@)),
        Item::Impl(b) => toks[k].kind == TokenKind::Impl && exists|ps: Seq<int>|
            #[trigger] methods_at(s, toks, k, b.methods@, ps),
    }
}

/// A field's type read from token `c`: up to a `,`, a newline or a `}` outside brackets,
/// with something in it besides a final `?`; where it is one, the token where it stops.
#[verifier::opaque]
pub open spec fn field_type_end(toks: Seq<RawTok>, c: int) -> Option<int> {
    let ks = tok_kinds(toks);
    let e = seg_end(
        ks,
        c,
        zero_depth(),
        seq![TokenKind::Comma, TokenKind::Newline, TokenKind::RBrace],
        true,
        true,
    );
    let x = strip_back(ks, c, strip_back(ks, c, e, TokenKind::Newline), TokenKind::Semi);
    let y = if x > c && ks[x - 1] == TokenKind::Question {
        x - 1
    } else {
        x
    };
    if y > c {
        Some(e)
    } else {
        None
    }
}

/// The fields of a struct body from token `i` on: each a name, `:` and a type, then
/// separators and at most one `,` with separators after it, up to the closing `}`; where
/// they are so, the token after that `}`.
#[verifier::opaque]
pub open spec fn fields_end(toks: Seq<RawTok>, i: int) -> Option<int>
    decreases toks.len() - i,
{
    if i < 0 || i >= toks.len() {
        None
    } else if toks[i].kind == TokenKind::RBrace {
        Some(i + 1)
    } else if toks[i].kind == TokenKind::Ident && i + 1 < toks.len() && toks[i + 1].kind
        == TokenKind::Colon {
        match field_type_end(toks, skip_seps(toks, i + 2)) {
            Some(e) => {
                let q = skip_seps(toks, e);
                let q2 = if 0 <= q < toks.len() && toks[q].kind == TokenKind::Comma {
                    skip_seps(toks, q + 1)
                } else {
                    q
                };
                if i < q2 <= toks.len() {
                    fields_end(toks, q2)
                } else {
                    None
                }
            },
            None => None,
        }
    } else {
        None
    }
}

/// A struct declaration at token `k`: `struct`, its name, `{` (after separators) and its
/// fields; where it is one, the token after its closing `}`.
pub open spec fn struct_end(toks: Seq<RawTok>, k: int) -> Option<int> {
    if 0 <= k && k + 1 < toks.len() && toks[k].kind == TokenKind::Struct && toks[k + 1].kind
        == TokenKind::Ident {
        let b = skip_seps(toks, k + 2);
        if 0 <= b < toks.len() && toks[b].kind == TokenKind::LBrace {
            fields_end(toks, skip_seps(toks, b + 1))
        } else {
            None
        }
    } else {
        None
    }
}

/// The items stand, in their order, at the increasing tokens `ks`.
pub open spec fn items_at(s: Seq<char>, toks: Seq<RawTok>, items: Seq<Item>, ks: Seq<int>) -> bool {
    &&& ks.len() == items.len()
    &&& forall|j: int| 0 <= j < ks.len() ==> item_at(s, toks, #[trigger] ks[j], items[j])
    &&& forall|i: int, j: int| 0 <= i < j < ks.len() ==> #[trigger] ks[i] < #[trigger] ks[j]
}

/// After leading separators, the tokens do not start with `package`.
pub open spec fn missing_package(toks: Seq<RawTok>) -> bool {
    let i = skip_seps(toks, 0);
    !(0 <= i < toks.len() && toks[i].kind == TokenKind::Package)
}

/// The package name and import paths of `source`, read from its tokens.
pub open spec fn program_header(source: Seq<char>) -> Option<(Seq<char>, Seq<Seq<char>>)> {
    header_of(source, lex_from(source, 0).0)
}

/// The parser's tokens as kinds with char ranges.
spec fn raws_of(tokens: Seq<Token>, ranges: Seq<(usize, usize)>) -> Seq<RawTok> {
    Seq::new(
        tokens.len(),
        |k: int| RawTok { kind: tokens[k].kind, start: ranges[k].0 as nat, end: ranges[k].1 as nat },
    )
}

/// Index of the first token from `i` at which a raw statement ends: a newline
/// or `;` before any `{`, a `}` closing the statement's block, or the end.
pub open spec fn raw_end(kinds: Seq<TokenKind>, i: int, depth: nat, seen: bool) -> int
    decreases kinds.len() - i,
{
    if i >= kinds.len() || i < 0 {
        kinds.len() as int
    } else {
        let k = kinds[i];
        if k == TokenKind::LBrace {
            raw_end(kinds, i + 1, depth + 1, true)
        } else if k == TokenKind::RBrace {
            if seen {
                if dec(depth) == 0 {
                    i + 1
                } else {
                    raw_end(kinds, i + 1, dec(depth), seen)
                }
            } else {
                i
            }
        } else if (k == TokenKind::Newline || k == TokenKind::Semi) && !seen {
            i
        } else {
            raw_end(kinds, i + 1, depth, seen)
        }
    }
}

proof fn lemma_raw_end_bounds(kinds: Seq<TokenKind>, i: int, depth: nat, seen: bool)
    requires
        0 <= i <= kinds.len(),
    ensures
        i <= raw_end(kinds, i, depth, seen) <= kinds.len(),
    decreases kinds.len() - i,
{
    if i < kinds.len() {
        let k = kinds[i];
        if k == TokenKind::LBrace {
            lemma_raw_end_bounds(kinds, i + 1, depth + 1, true);
        } else if k == TokenKind::RBrace {
            if seen && dec(depth) != 0 {
                lemma_raw_end_bounds(kinds, i + 1, dec(depth), seen);
            }
        } else if !((k == TokenKind::Newline || k == TokenKind::Semi) && !seen) {
            lemma_raw_end_bounds(kinds, i + 1, depth, seen);
        }
    }
}

proof fn lemma_fields_first(toks: Seq<RawTok>, p: int)
    requires
        fields_end(toks, p) is Some,
        0 <= p < toks.len(),
        toks[p].kind != TokenKind::RBrace,
    ensures
        toks[p].kind == TokenKind::Ident,
        p + 1 < toks.len(),
        toks[p + 1].kind == TokenKind::Colon,
        field_type_end(toks, skip_seps(toks, p + 2)) is Some,
{
    reveal(fields_end);
}

proof fn lemma_fields_step(toks: Seq<RawTok>, p: int, c: int, e: int, q: int, q2: int)
    requires
        0 <= p,
        p + 1 < toks.len(),
        toks[p].kind == TokenKind::Ident,
        toks[p + 1].kind == TokenKind::Colon,
        c == skip_seps(toks, p + 2),
        field_type_end(toks, c) == Some(e),
        q == skip_seps(toks, e),
        q2 == (if 0 <= q < toks.len() && toks[q].kind == TokenKind::Comma {
            skip_seps(toks, q + 1)
        } else {
            q
        }),
    ensures
        fields_end(toks, p) == fields_end(toks, q2),
{
    lemma_skip_seps_ge(toks, p + 2);
    assert(c <= e <= toks.len()) by {
        reveal(field_type_end);
        lemma_seg_end_bounds(
            tok_kinds(toks),
            c,
            zero_depth(),
            seq![TokenKind::Comma, TokenKind::Newline, TokenKind::RBrace],
            true,
            true,
        );
    }
    lemma_skip_seps_ge(toks, e);
    if 0 <= q < toks.len() && toks[q].kind == TokenKind::Comma {
        lemma_skip_seps_ge(toks, q + 1);
    }
    reveal(fields_end);
}

/// Where a line statement read from token `b` stops: at a newline or a `}` outside
/// brackets.
pub open spec fn line_end(toks: Seq<RawTok>, b: int) -> int {
    seg_end(tok_kinds(toks), b, zero_depth(), Seq::empty(), true, true)
}

/// A statement at token `k` that is an expression filling its line: it starts with none of
/// `}`, `match`, `return`, `if`, `for` or `name :=`, and the line holds an expression.
pub open spec fn line_stmt_at(s: Seq<char>, toks: Seq<RawTok>, k: int) -> bool {
    &&& 0 <= k < toks.len()
    &&& toks[k].kind != TokenKind::RBrace
    &&& toks[k].kind != TokenKind::Match
    &&& toks[k].kind != TokenKind::Return
    &&& toks[k].kind != TokenKind::If
    &&& toks[k].kind != TokenKind::For
    &&& !(k + 1 < toks.len() && toks[k].kind == TokenKind::Ident && toks[k + 1].kind
        == TokenKind::ColonEq)
    &&& line_segment(s, toks, k) is Some
}

/// A statement at token `k` that declares a variable: a name, `:=` and an expression that
/// fills the rest of the line.
pub open spec fn var_stmt_at(s: Seq<char>, toks: Seq<RawTok>, k: int) -> bool {
    &&& 0 <= k
    &&& k + 1 < toks.len()
    &&& toks[k].kind == TokenKind::Ident
    &&& toks[k + 1].kind == TokenKind::ColonEq
    &&& line_segment(s, toks, skip_seps(toks, k + 2)) is Some
}

/// A `return` at token `k` with one value, or with none before the block's `}`; where it is
/// one, the token where it stops.
pub open spec fn return_end(s: Seq<char>, toks: Seq<RawTok>, k: int) -> Option<int> {
    let b = skip_seps(toks, k + 1);
    if !(0 <= k < toks.len() && toks[k].kind == TokenKind::Return && 0 <= b < toks.len()) {
        None
    } else if toks[b].kind == TokenKind::RBrace {
        Some(b)
    } else if segment(s, toks, b, seq![TokenKind::Comma], true) is Some {
        let e = seg_end(tok_kinds(toks), b, zero_depth(), seq![TokenKind::Comma], true, true);
        let c = skip_seps(toks, e);
        if 0 <= c < toks.len() && toks[c].kind == TokenKind::Comma {
            None
        } else {
            Some(c)
        }
    } else {
        None
    }
}

/// A line statement at token `k` (an expression, a variable declaration, or a `return` of
/// `return_end`); where it is one, the token where it stops.
pub open spec fn simple_stmt_end(s: Seq<char>, toks: Seq<RawTok>, k: int) -> Option<int> {
    if line_stmt_at(s, toks, k) {
        Some(line_end(toks, k))
    } else if var_stmt_at(s, toks, k) {
        Some(line_end(toks, skip_seps(toks, k + 2)))
    } else {
        return_end(s, toks, k)
    }
}

/// The statements of a block from token `i` on, each a line statement (`simple_stmt_end`),
/// with separators between them, up to the closing `}`; where they are so, the token after
/// it.
#[verifier::opaque]
pub open spec fn lines_end(s: Seq<char>, toks: Seq<RawTok>, i: int) -> Option<int>
    decreases toks.len() - i,
{
    let k = skip_seps(toks, i);
    if k < 0 || k >= toks.len() {
        None
    } else if toks[k].kind == TokenKind::RBrace {
        Some(k + 1)
    } else {
        match simple_stmt_end(s, toks, k) {
            Some(e) => if i <= k < e <= toks.len() {
                lines_end(s, toks, e)
            } else {
                None
            },
            None => None,
        }
    }
}

/// A block at token `i` whose statements are expressions filling their lines; where it is
/// one, the token after its closing `}`.
pub open spec fn block_end(s: Seq<char>, toks: Seq<RawTok>, i: int) -> Option<int> {
    if 0 <= i < toks.len() && toks[i].kind == TokenKind::LBrace {
        lines_end(s, toks, i + 1)
    } else {
        None
    }
}

/// A function's return type read from token `i`: none, or `->` and a type up to the body's
/// `{`; where it reads so, the token after it.
pub open spec fn ret_end(toks: Seq<RawTok>, i: int) -> Option<int> {
    let a = skip_seps(toks, i);
    if !(0 <= a < toks.len() && toks[a].kind == TokenKind::Arrow) {
        Some(a)
    } else {
        let b = skip_seps(toks, a + 1);
        let e = seg_end(tok_kinds(toks), b, zero_depth(), seq![TokenKind::LBrace], false, false);
        if e <= b {
            None
        } else {
            Some(e)
        }
    }
}

/// A function declaration at token `k` without parameters: `fn`, its name, `()`, its
/// return type and a block of line statements; where it is one, the token after it.
pub open spec fn fn_end(s: Seq<char>, toks: Seq<RawTok>, k: int) -> Option<int> {
    if 0 <= k && k + 1 < toks.len() && toks[k].kind == TokenKind::Fn && toks[k + 1].kind
        == TokenKind::Ident {
        let q = skip_seps(toks, k + 2);
        let c = skip_seps(toks, q + 1);
        if 0 <= q < toks.len() && toks[q].kind == TokenKind::LParen && 0 <= c < toks.len()
            && toks[c].kind == TokenKind::RParen {
            match ret_end(toks, c + 1) {
                Some(r) => block_end(s, toks, r),
                None => None,
            }
        } else {
            None
        }
    } else {
        None
    }
}

/// A declaration at token `j`: a struct, or a function without parameters whose body holds
/// line statements (`simple_stmt_end`), after decorators (`decorators_end`); where it is
/// one, the token after it.
pub open spec fn item_end(s: Seq<char>, toks: Seq<RawTok>, j: int) -> Option<int> {
    if 0 <= j < toks.len() && toks[j].kind == TokenKind::Struct {
        struct_end(toks, j)
    } else {
        match decorators_end(s, toks, j) {
            Some(k) => if 0 <= k < toks.len() && toks[k].kind == TokenKind::Fn {
                fn_end(s, toks, k)
            } else {
                None
            },
            None => None,
        }
    }
}

/// Where the items of a file begin: after its package clause and its imports.
pub open spec fn items_start(toks: Seq<RawTok>) -> int {
    import_run_end(toks, skip_seps(toks, skip_seps(toks, 0) + 2))
}

/// From token `i` on, past separators, the file holds nothing but declarations without
/// annotations (see `item_end`), each followed by separators.
#[verifier::opaque]
pub open spec fn decl_items(s: Seq<char>, toks: Seq<RawTok>, i: int) -> bool
    decreases toks.len() - i,
{
    let j = skip_seps(toks, i);
    if j < 0 || j >= toks.len() {
        true
    } else {
        match item_end(s, toks, j) {
            Some(e) => i < e <= toks.len() && decl_items(s, toks, e),
            None => false,
        }
    }
}

proof fn lemma_skip_seps_idem(toks: Seq<RawTok>, i: int)
    ensures
        skip_seps(toks, skip_seps(toks, i)) == skip_seps(toks, i),
    decreases toks.len() - i,
{
    if 0 <= i < toks.len() && (toks[i].kind == TokenKind::Newline || toks[i].kind
        == TokenKind::Semi) {
        lemma_skip_seps_idem(toks, i + 1);
    }
}

proof fn lemma_decl_items_not_import(s: Seq<char>, toks: Seq<RawTok>, i: int)
    requires
        decl_items(s, toks, i),
    ensures
        !(0 <= i < toks.len() && toks[i].kind == TokenKind::Import),
{
    reveal(decl_items);
    reveal(decorators_end);
}

proof fn lemma_decl_items_skip(s: Seq<char>, toks: Seq<RawTok>, i: int)
    requires
        decl_items(s, toks, i),
    ensures
        decl_items(s, toks, skip_seps(toks, i)),
{
    reveal(decl_items);
    lemma_skip_seps_idem(toks, i);
    lemma_skip_seps_ge(toks, i);
    lemma_decl_items_next(s, toks, i);
    let j = skip_seps(toks, i);
    if 0 <= j < toks.len() {
        lemma_item_end_after(s, toks, j);
    }
}

proof fn lemma_decorators_after(s: Seq<char>, toks: Seq<RawTok>, i: int)
    requires
        decorators_end(s, toks, i) is Some,
    ensures
        decorators_end(s, toks, i) matches Some(k) && i <= k,
    decreases toks.len() - i,
{
    reveal(decorators_end);
    if 0 <= i < toks.len() && toks[i].kind == TokenKind::At {
        lemma_decorators_after(s, toks, skip_seps(toks, decorator_end(s, toks, i)->0));
    }
}

/// A declaration ends after the token where it starts.
proof fn lemma_item_end_after(s: Seq<char>, toks: Seq<RawTok>, j: int)
    requires
        0 <= j < toks.len(),
        item_end(s, toks, j) is Some,
    ensures
        item_end(s, toks, j) matches Some(e) && j < e,
{
    if toks[j].kind == TokenKind::Struct {
        reveal(fields_end);
        lemma_skip_seps_ge(toks, j + 2);
        let b = skip_seps(toks, j + 2);
        lemma_skip_seps_ge(toks, b + 1);
        let f = skip_seps(toks, b + 1);
        lemma_fields_end_after(toks, f);
    } else {
        lemma_decorators_after(s, toks, j);
        let k = decorators_end(s, toks, j)->0;
        lemma_skip_seps_ge(toks, k + 2);
        let q = skip_seps(toks, k + 2);
        lemma_skip_seps_ge(toks, q + 1);
        let c = skip_seps(toks, q + 1);
        lemma_skip_seps_ge(toks, c + 1);
        let a = skip_seps(toks, c + 1);
        let r = ret_end(toks, c + 1)->0;
        if 0 <= a < toks.len() && toks[a].kind == TokenKind::Arrow {
            lemma_skip_seps_ge(toks, a + 1);
        }
        lemma_lines_end_after(s, toks, r + 1);
    }
}

/// In a file of declarations the next item, past separators, is a declaration, and the
/// file is of declarations from its end on.
proof fn lemma_decl_items_next(s: Seq<char>, toks: Seq<RawTok>, i: int)
    requires
        decl_items(s, toks, i),
    ensures
        ({
            let j = skip_seps(toks, i);
            0 <= j < toks.len() ==> (skip_seps(toks, j) == j && (item_end(s, toks, j) matches Some(e)
                && e <= toks.len() && decl_items(s, toks, e)))
        }),
{
    reveal(decl_items);
    lemma_skip_seps_idem(toks, i);
}

proof fn lemma_lines_end_after(s: Seq<char>, toks: Seq<RawTok>, i: int)
    requires
        lines_end(s, toks, i) is Some,
    ensures
        lines_end(s, toks, i) matches Some(e) && i < e,
    decreases toks.len() - i,
{
    reveal(lines_end);
    let k = skip_seps(toks, i);
    lemma_skip_seps_ge(toks, i);
    if 0 <= k < toks.len() && toks[k].kind != TokenKind::RBrace {
        lemma_lines_end_after(s, toks, simple_stmt_end(s, toks, k)->0);
    }
}

proof fn lemma_args_end_in(s: Seq<char>, toks: Seq<RawTok>, i: int)
    requires
        args_end(s, toks, i) is Some,
    ensures
        0 <= i < toks.len(),
{
    reveal(args_end);
}

proof fn lemma_return_end_parses(s: Seq<char>, toks: Seq<RawTok>, k: int)
    requires
        return_end(s, toks, k) is Some,
    ensures
        return_parses(s, toks, k),
{
    reveal(return_values_ok);
}

proof fn lemma_block_step(s: Seq<char>, toks: Seq<RawTok>, i: int, e: int)
    requires
        0 <= i,
        skip_seps(toks, i) == i,
        simple_stmt_end(s, toks, i) == Some(e),
        lines_end(s, toks, i) is Some,
    ensures
        lines_end(s, toks, skip_seps(toks, e)) == lines_end(s, toks, i),
        i < e,
{
    reveal(lines_end);
    lemma_skip_seps_ge(toks, e);
    lemma_lines_end_skip(s, toks, e);
}

proof fn lemma_lines_end_skip(s: Seq<char>, toks: Seq<RawTok>, i: int)
    requires
        0 <= i,
    ensures
        lines_end(s, toks, skip_seps(toks, i)) == lines_end(s, toks, i),
{
    reveal(lines_end);
    lemma_skip_seps_idem(toks, i);
    lemma_skip_seps_ge(toks, i);
}

proof fn lemma_fields_end_after(toks: Seq<RawTok>, i: int)
    requires
        fields_end(toks, i) is Some,
    ensures
        fields_end(toks, i) matches Some(e) && i < e,
    decreases toks.len() - i,
{
    reveal(fields_end);
    if 0 <= i < toks.len() && toks[i].kind != TokenKind::RBrace {
        let c = skip_seps(toks, i + 2);
        let e = field_type_end(toks, c)->0;
        let q = skip_seps(toks, e);
        let q2 = if 0 <= q < toks.len() && toks[q].kind == TokenKind::Comma {
            skip_seps(toks, q + 1)
        } else {
            q
        };
        lemma_fields_end_after(toks, q2);
    }
}

proof fn lemma_tok_kinds(p: Parser)
    requires
        p.tokens@.len() == p.ranges@.len(),
    ensures
        tok_kinds(raws_of(p.tokens@, p.ranges@)) == p.kinds(),
{
    assert(tok_kinds(raws_of(p.tokens@, p.ranges@)) =~= p.kinds());
}

fn trim_quotes(s: &String) -> (r: String)
    ensures
        r@ == trim_char(s@, '"'),
{
    let v = to_chars(s.as_str());
    let mut a: usize = 0;
    let mut b: usize = v.len();
    assert(v@.subrange(0, v@.len() as int) =~= v@);
    while a < b && (v[a] == '"' || v[b - 1] == '"')
        invariant
            0 <= a <= b <= v@.len(),
            trim_char(v@, '"') == trim_char(v@.subrange(a as int, b as int), '"'),
        decreases b - a,
    {
        if v[a] == '"' {
            assert(v@.subrange(a as int, b as int).drop_first() =~= v@.subrange(a + 1, b as int));
            a = a + 1;
        } else {
            assert(v@.subrange(a as int, b as int).drop_last() =~= v@.subrange(a as int, b - 1));
            b = b - 1;
        }
    }
    string_of(&v, a, b)
}

impl Parser {
    /// `@derive(String)` annotations as derives; any other annotation is reported.
    fn extract_derives(&mut self, annotations: &Vec<Decorator>) -> (r: Vec<DeriveKind>)
        requires
            old(self).wf(),
        ensures
            Parser::grows(old(self), final(self)),
            final(self).idx == old(self).idx,
            r@ == anns_derives(annotations@),
            messages_of(final(self).diagnostics@.skip(old(self).diagnostics@.len() as int))
                == anns_refusals(annotations@),
    {
        let mut derives: Vec<DeriveKind> = Vec::new();
        let mut i: usize = 0;
        let ghost n0 = self.diagnostics@.len() as int;
        proof {
            self.lemma_grows_refl();
            assert(annotations@.take(0) =~= Seq::<Decorator>::empty());
            assert(messages_of(self.diagnostics@.skip(n0)) =~= Seq::<Seq<char>>::empty());
        }
        while i < annotations.len()
            invariant
                Parser::grows(old(self), self),
                self.idx == old(self).idx,
                n0 == old(self).diagnostics@.len(),
                0 <= i <= annotations@.len(),
                derives@ == anns_derives(annotations@.take(i as int)),
                messages_of(self.diagnostics@.skip(n0)) == anns_refusals(annotations@.take(i as int)),
            decreases annotations@.len() - i,
        {
            let ann = &annotations[i];
            assert(annotations@.take(i + 1).drop_last() =~= annotations@.take(i as int));
            assert(annotations@.take(i + 1).last() == *ann);
            let ghost d0 = derives@;
            let ghost m0 = messages_of(self.diagnostics@.skip(n0));
            if !crate::text::str_eq(ann.name.as_str(), "derive") {
                let mut msg = str_to_string("unsupported annotation `@");
                push_str(&mut msg, ann.name.as_str());
                push_str(&mut msg, "` on type declaration");
                let d = Diagnostic::new(msg, Some(ann.span)).with_hint(
                    str_to_string("only `@derive(...)` is supported on structs/enums"),
                );
                self.push_note(d, Ghost(n0));
                assert(derives@ =~= d0 + Seq::<DeriveKind>::empty());
            } else if ann.args.len() == 0 {
                let d = Diagnostic::new(
                    str_to_string("@derive requires at least one target"),
                    Some(ann.span),
                ).with_hint(str_to_string("example: @derive(String), @derive(Debug, Equal)"));
                self.push_note(d, Ghost(n0));
                assert(derives@ =~= d0 + Seq::<DeriveKind>::empty());
                assert(args_derives(ann.args@) =~= Seq::<DeriveKind>::empty());
            } else {
                let mut k: usize = 0;
                proof {
                    assert(ann.args@.take(0) =~= Seq::<String>::empty());
                    assert(derives@ =~= d0 + args_derives(ann.args@.take(0)));
                    assert(messages_of(self.diagnostics@.skip(n0)) =~= m0 + args_refusals(
                        ann.args@.take(0),
                    ));
                }
                while k < ann.args.len()
                    invariant
                        Parser::grows(old(self), self),
                        self.idx == old(self).idx,
                        n0 == old(self).diagnostics@.len(),
                        0 <= k <= ann.args@.len(),
                        derives@ == d0 + args_derives(ann.args@.take(k as int)),
                        messages_of(self.diagnostics@.skip(n0)) == m0 + args_refusals(
                            ann.args@.take(k as int),
                        ),
                    decreases ann.args@.len() - k,
                {
                    let ghost dk = derives@;
                    let ghost mk = messages_of(self.diagnostics@.skip(n0));
                    assert(ann.args@.take(k + 1).drop_last() =~= ann.args@.take(k as int));
                    assert(ann.args@.take(k + 1).last() == ann.args@[k as int]);
                    let t = trim_string(ann.args[k].as_str());
                    if crate::text::str_eq(t.as_str(), "String") {
                        derives.push(DeriveKind::String);
                    } else if crate::text::str_eq(t.as_str(), "Debug") {
                        derives.push(DeriveKind::Debug);
                    } else if crate::text::str_eq(t.as_str(), "Equal") {
                        derives.push(DeriveKind::Equal);
                    } else if crate::text::str_eq(t.as_str(), "JSON") {
                        derives.push(DeriveKind::JsonMarshal);
                        derives.push(DeriveKind::JsonUnmarshal);
                    } else if crate::text::str_eq(t.as_str(), "JsonMarshal") {
                        derives.push(DeriveKind::JsonMarshal);
                    } else if crate::text::str_eq(t.as_str(), "JsonUnmarshal") {
                        derives.push(DeriveKind::JsonUnmarshal);
                    } else {
                        let mut msg = str_to_string("unsupported derive target `");
                        push_str(&mut msg, t.as_str());
                        push_str(&mut msg, "`");
                        let d = Diagnostic::new(msg, Some(ann.span)).with_hint(
                            str_to_string(
                                "supported: String, Debug, Equal, JSON, JsonMarshal, JsonUnmarshal",
                            ),
                        );
                        self.push_note(d, Ghost(n0));
                    }
                    proof {
                        let a = ann.args@.take(k + 1);
                        assert(derives@ =~= dk + match target_derives(trim(a.last()@)) {
                            Some(d) => d,
                            None => Seq::<DeriveKind>::empty(),
                        });
                        assert(messages_of(self.diagnostics@.skip(n0)) =~= mk + match target_derives(
                            trim(a.last()@),
                        ) {
                            Some(_) => Seq::<Seq<char>>::empty(),
                            None => seq!["unsupported derive target `"@ + trim(a.last()@) + "`"@],
                        });
                    }
                    k = k + 1;
                }
                assert(ann.args@.take(ann.args@.len() as int) =~= ann.args@);
            }
            proof {
                let a = annotations@.take(i + 1);
                assert(derives@ =~= anns_derives(a.drop_last()) + if a.last().name@ == "derive"@ {
                    args_derives(a.last().args@)
                } else {
                    Seq::empty()
                });
            }
            i = i + 1;
        }
        assert(annotations@.take(annotations@.len() as int) =~= annotations@);
        derives
    }

    /// Pushes `d`; the messages from position `n0` on grow by its message.
    fn push_note(&mut self, d: Diagnostic, n0: Ghost<int>)
        requires
            old(self).wf(),
            0 <= n0@ <= old(self).diagnostics@.len(),
        ensures
            Parser::grows(old(self), final(self)),
            final(self).idx == old(self).idx,
            messages_of(final(self).diagnostics@.skip(n0@)) == messages_of(
                old(self).diagnostics@.skip(n0@),
            ).push(d.message@),
    {
        self.push_diagnostic(d);
        assert(self.diagnostics@.skip(n0@) =~= old(self).diagnostics@.skip(n0@).push(d));
        assert(messages_of(self.diagnostics@.skip(n0@)) =~= messages_of(
            old(self).diagnostics@.skip(n0@),
        ).push(d.message@));
    }

    /// `import "path"`: the path without its quotes.
    fn parse_import_decl(&mut self) -> (r: Option<String>)
        requires
            old(self).wf(),
        ensures
            Parser::grows(old(self), final(self)),
            old(self).at_spec(TokenKind::Import) ==> final(self).idx > old(self).idx,
            r matches Some(path) ==> final(self).idx > old(self).idx && path@ == trim_char(
                final(self).text_of(final(self).idx - 1, final(self).idx as int),
                '"',
            ),
            old(self).at_spec(TokenKind::Import) && r is Some ==> final(self).idx == old(self).idx
                + 2 && old(self).kind_at(old(self).idx + 1) == TokenKind::StringLit,
            r is None ==> final(self).diagnostics@.len() > old(self).diagnostics@.len(),
            old(self).at_spec(TokenKind::Import) && old(self).idx + 1 < old(self).tokens@.len()
                && old(self).kind_at(old(self).idx + 1) == TokenKind::StringLit ==> r is Some
                && final(self).diagnostics@ == old(self).diagnostics@,
    {
        let ghost start = *self;
        self.expect(TokenKind::Import, "expected `import`");
        let ghost mid = *self;
        let k = self.expect_token(TokenKind::StringLit, "expected import path string");
        proof {
            Parser::lemma_grows_trans(&start, &mid, self);
        }
        let k = k?;
        let text = self.token_text(k);
        Some(trim_quotes(&text))
    }

    /// Zero or more `@name(args)` annotations.
    fn parse_annotations(&mut self) -> (r: Vec<Decorator>)
        requires
            old(self).wf(),
        ensures
            Parser::grows(old(self), final(self)),
            exists|ps: Seq<int>| #[trigger] decorators_at(*old(self), old(self).idx as int, r@, ps),
            final(self).diagnostics@.len() == old(self).diagnostics@.len() ==> !final(self).at_spec(
                TokenKind::At,
            ),
            old(self).at_spec(TokenKind::At) && dotted_ok(
                raws_of(old(self).tokens@, old(self).ranges@),
                old(self).idx + 1,
            ) ==> r@.len() > 0,
            !old(self).at_spec(TokenKind::At) ==> r@.len() == 0 && final(self).idx == old(self).idx
                && final(self).diagnostics@ == old(self).diagnostics@,
            decorators_end(old(self).chars@, raws_of(old(self).tokens@, old(self).ranges@), old(self).idx as int)
                matches Some(e) ==> final(self).idx == e && final(self).diagnostics@ == old(
                self,
            ).diagnostics@,
    {
        let mut decorators: Vec<Decorator> = Vec::new();
        proof {
            self.lemma_grows_refl();
        }
        if !self.at(TokenKind::At) {
            assert(decorators_at(*old(self), old(self).idx as int, decorators@, Seq::empty()));
            proof {
                reveal(decorators_end);
            }
            return decorators;
        }
        let ghost mut ps: Seq<int> = Seq::empty();
        let ghost mut failed = false;
        let ghost first_ok = old(self).at_spec(TokenKind::At) && dotted_ok(
            raws_of(old(self).tokens@, old(self).ranges@),
            old(self).idx + 1,
        );
        assert(decorators_at(*old(self), old(self).idx as int, decorators@, ps));
        let ghost toks = raws_of(old(self).tokens@, old(self).ranges@);
        let ghost good = decorators_end(old(self).chars@, toks, old(self).idx as int) is Some;
        while self.at(TokenKind::At)
            invariant_except_break
                !failed,
            invariant
                Parser::grows(old(self), self),
                decorators_at(*old(self), old(self).idx as int, decorators@, ps),
                forall|j: int| 0 <= j < ps.len() ==> #[trigger] ps[j] < self.idx,
                first_ok == (old(self).at_spec(TokenKind::At) && dotted_ok(
                    raws_of(old(self).tokens@, old(self).ranges@),
                    old(self).idx + 1,
                )),
                first_ok ==> self.idx == old(self).idx || decorators@.len() > 0,
                toks == raws_of(old(self).tokens@, old(self).ranges@),
                good == (decorators_end(old(self).chars@, toks, old(self).idx as int) is Some),
                good ==> self.diagnostics@ == old(self).diagnostics@ && decorators_end(
                    old(self).chars@,
                    toks,
                    self.idx as int,
                ) == decorators_end(old(self).chars@, toks, old(self).idx as int),
            ensures
                good ==> !failed && self.diagnostics@ == old(self).diagnostics@
                    && decorators_end(old(self).chars@, toks, self.idx as int) == decorators_end(
                    old(self).chars@,
                    toks,
                    old(self).idx as int,
                ),
                Parser::grows(old(self), self),
                decorators_at(*old(self), old(self).idx as int, decorators@, ps),
                failed ==> self.diagnostics@.len() > old(self).diagnostics@.len(),
                !failed ==> !self.at_spec(TokenKind::At),
                first_ok ==> decorators@.len() > 0,
            decreases self.remaining(),
        {
            let ghost before = *self;
            let ghost decs0 = decorators@;
            proof {
                if good {
                    reveal(decorators_end);
                    assert(before.at_spec(TokenKind::At));
                }
                if first_ok && before.idx == old(self).idx {
                    assert(before.at_spec(TokenKind::At));
                    assert(raws_of(before.tokens@, before.ranges@) == raws_of(
                        old(self).tokens@,
                        old(self).ranges@,
                    ));
                }
            }
            match self.parse_annotation() {
                Some(d) => {
                    proof {
                        let ps0 = ps;
                        ps = ps.push(before.idx as int);
                        let e = choose|e: int| d.name@ == #[trigger] before.dotted_name(
                            before.idx + 1,
                            e,
                        );
                        Parser::lemma_dotted_same(&before, old(self), before.idx + 1, e);
                        assert(d.name@ == old(self).dotted_name(before.idx + 1, e));
                        assert forall|a: int, b: int| 0 <= a < b < ps.len() implies #[trigger] ps[a]
                            < #[trigger] ps[b] by {
                            assert(ps0[a] < before.idx);
                            if b < ps0.len() {
                                assert(ps[b] == ps0[b]);
                            }
                        }
                        assert forall|j: int| 0 <= j < ps.len() implies old(self).idx <= #[trigger] ps[j]
                            < old(self).tokens@.len() && old(self).tokens@[ps[j]].kind
                            == TokenKind::At && exists|e2: int| decs0.push(d)[j].name@
                            == #[trigger] old(self).dotted_name(ps[j] + 1, e2) by {
                            if j < ps0.len() {
                                assert(ps[j] == ps0[j]);
                                assert(decs0.push(d)[j] == decs0[j]);
                            } else {
                                assert(decs0.push(d)[j] == d);
                                assert(d.name@ == old(self).dotted_name(ps[j] + 1, e));
                            }
                        }
                    }
                    decorators.push(d);
                    assert(decorators_at(*old(self), old(self).idx as int, decorators@, ps));
                },
                None => {
                    proof {
                        failed = true;
                    }
                    break;
                },
            }
            let ghost mid = *self;
            self.skip_separators();
            proof {
                if good {
                    reveal(decorators_end);
                }
            }
            proof {
                Parser::lemma_grows_trans(&before, &mid, self);
                Parser::lemma_grows_trans(old(self), &before, self);
            }
        }
        proof {
            if good {
                reveal(decorators_end);
            }
        }
        decorators
    }

    /// A decorator's name: identifiers joined by `.`.
    #[verifier::rlimit(60)]
    #[verifier::spinoff_prover]
    fn parse_decorator_name(&mut self) -> (r: Option<String>)
        requires
            old(self).wf(),
        ensures
            Parser::grows(old(self), final(self)),
            r is Some ==> final(self).idx > old(self).idx,
            r matches Some(n) ==> exists|e: int|
                n@ == #[trigger] old(self).dotted_name(old(self).idx as int, e),
            r is Some <==> dotted_ok(
                raws_of(old(self).tokens@, old(self).ranges@),
                old(self).idx as int,
            ),
            r is None ==> final(self).diagnostics@.len() > old(self).diagnostics@.len(),
            r is Some ==> final(self).idx == dotted_end(
                raws_of(old(self).tokens@, old(self).ranges@),
                old(self).idx as int,
            ) && final(self).diagnostics@ == old(self).diagnostics@,
    {
        let ghost s0 = *self;
        let ghost i0 = self.idx as int;
        let ghost toks = raws_of(self.tokens@, self.ranges@);
        let first = self.parse_ident("expected decorator name");
        let mut name = first?;
        assert(name@ == s0.dotted_name(i0, i0 + 1));
        proof {
            self.lemma_grows_refl();
        }
        while self.at(TokenKind::Dot)
            invariant
                s0 == *old(self),
                toks == raws_of(old(self).tokens@, old(self).ranges@),
                i0 == old(self).idx,
                dotted_ok(toks, i0) == dotted_ok(toks, self.idx - 1),
                toks[self.idx - 1].kind == TokenKind::Ident,
                Parser::grows(&s0, self),
                self.idx > i0,
                name@ == s0.dotted_name(i0, self.idx as int),
                dotted_end(toks, i0) == dotted_end(toks, self.idx - 1),
                self.diagnostics@ == old(self).diagnostics@,
            decreases self.remaining(),
        {
            let ghost b0 = *self;
            proof {
                let j = b0.idx - 1;
                assert(b0.at_spec(TokenKind::Dot));
                assert(0 <= j && j + 1 < toks.len());
                assert(toks[j].kind == TokenKind::Ident);
                assert(toks[b0.idx as int].kind == TokenKind::Dot);
                assert(dotted_ok(toks, j) == dotted_ok(toks, j + 2));
            }
            let _ = self.consume(TokenKind::Dot);
            let ghost b1 = *self;
            let seg = self.parse_ident("expected decorator name segment after `.`");
            proof {
                Parser::lemma_grows_trans(&b0, &b1, self);
                Parser::lemma_grows_trans(&s0, &b0, self);
            }
            match seg {
                None => {
                    assert(!b1.at_spec(TokenKind::Ident));
                    assert(!dotted_ok(toks, b1.idx as int));
                    return None;
                },
                Some(seg) => {
                    assert(seg@ == s0.text_of(b1.idx as int, b1.idx + 1));
                    push_str(&mut name, ".");
                    push_str(&mut name, seg.as_str());
                    assert(self.idx == b0.idx + 2);
                    assert(name@ =~= s0.dotted_name(i0, self.idx as int));
                    assert(toks[self.idx - 1].kind == TokenKind::Ident);
                },
            }
        }
        proof {
            let j = self.idx - 1;
            assert(!(j + 1 < toks.len() && toks[j + 1].kind == TokenKind::Dot));
            assert(dotted_ok(toks, j));
        }
        Some(name)
    }

    /// `@name`, `@a.b.name`, each with `(arg, ...)` or not.
    #[verifier::rlimit(80)]
    #[verifier::spinoff_prover]
    fn parse_annotation(&mut self) -> (r: Option<Decorator>)
        requires
            old(self).wf(),
        ensures
            Parser::grows(old(self), final(self)),
            old(self).at_spec(TokenKind::At) ==> final(self).idx > old(self).idx,
            r matches Some(d) ==> final(self).idx > old(self).idx && exists|e: int|
                d.name@ == #[trigger] old(self).dotted_name(old(self).idx + 1, e),
            old(self).at_spec(TokenKind::At) ==> (r is Some <==> dotted_ok(
                raws_of(old(self).tokens@, old(self).ranges@),
                old(self).idx + 1,
            )),
            r is None ==> final(self).diagnostics@.len() > old(self).diagnostics@.len(),
            decorator_end(old(self).chars@, raws_of(old(self).tokens@, old(self).ranges@), old(self).idx as int)
                matches Some(e) ==> r is Some && final(self).idx == e && final(self).diagnostics@
                == old(self).diagnostics@,
    {
        let ghost s0 = *self;
        let ghost toks = raws_of(self.tokens@, self.ranges@);
        let ghost chars = self.chars@;
        let ghost good = decorator_end(chars, toks, s0.idx as int) is Some;
        let at = self.expect_token(TokenKind::At, "expected `@`")?;
        let at_span = self.tokens[at].span;
        let ghost s1 = *self;
        let name = self.parse_decorator_name();
        proof {
            Parser::lemma_grows_trans(&s0, &s1, self);
        }
        let name = name?;
        proof {
            let e = choose|e: int| name@ == #[trigger] s1.dotted_name(s1.idx as int, e);
            Parser::lemma_dotted_same(&s1, &s0, s1.idx as int, e);
            assert(name@ == s0.dotted_name(s0.idx + 1, e));
        }
        let mut args: Vec<String> = Vec::new();
        let mut end = at_span.end;
        let ghost s2 = *self;
        proof {
            if good {
                assert(s1.idx == s0.idx + 1);
                assert(s2.idx == dotted_end(toks, s0.idx + 1));
                assert(s2.diagnostics@ == s0.diagnostics@);
            }
        }
        if self.consume(TokenKind::LParen) {
            self.skip_separators();
            proof {
                Parser::lemma_grows_trans(&s2, &s2, self);
            }
            let stops = [TokenKind::Comma, TokenKind::RParen];
            assert(stops@ =~= seq![TokenKind::Comma, TokenKind::RParen]);
            proof {
                if good {
                    lemma_args_end_in(chars, toks, self.idx as int);
                }
            }
            while !self.at(TokenKind::RParen) && !self.is_eof()
                invariant
                    Parser::grows(&s2, self),
                    self.idx > s2.idx,
                    toks == raws_of(s2.tokens@, s2.ranges@),
                    chars == s2.chars@,
                    stops@ == seq![TokenKind::Comma, TokenKind::RParen],
                    good == (decorator_end(chars, toks, s0.idx as int) is Some),
                    good ==> self.diagnostics@ == s0.diagnostics@ && args_end(
                        chars,
                        toks,
                        self.idx as int,
                    ) == decorator_end(chars, toks, s0.idx as int) && self.idx < toks.len(),
                ensures
                    Parser::grows(&s2, self),
                    self.idx > s2.idx,
                    good ==> self.diagnostics@ == s0.diagnostics@ && args_end(
                        chars,
                        toks,
                        self.idx as int,
                    ) == decorator_end(chars, toks, s0.idx as int) && self.at_spec(TokenKind::RParen),
                decreases self.remaining(),
            {
                let ghost b0 = *self;
                proof {
                    b0.lemma_segment(seq![TokenKind::Comma, TokenKind::RParen], false);
                    if good {
                        reveal(args_end);
                    }
                }
                match self.parse_text_segment(&stops, true, false) {
                    Some((arg, _, _)) => args.push(arg),
                    None => {},
                }
                let ghost b1 = *self;
                self.skip_separators();
                let ghost b2 = *self;
                proof {
                    Parser::lemma_grows_trans(&b0, &b1, &b2);
                    Parser::lemma_grows_trans(&s2, &b0, &b2);
                }
                if self.consume(TokenKind::Comma) {
                    self.skip_separators();
                    proof {
                        Parser::lemma_grows_trans(&b2, &b2, self);
                        Parser::lemma_grows_trans(&s2, &b2, self);
                        if good {
                            reveal(args_end);
                            lemma_skip_seps_ge(toks, b1.idx as int);
                            lemma_skip_seps_ge(toks, b2.idx + 1);
                            lemma_args_end_in(chars, toks, self.idx as int);
                        }
                    }
                    continue;
                }
                proof {
                    Parser::lemma_grows_trans(&s2, &b2, self);
                    if good {
                        reveal(args_end);
                    }
                }
                break;
            }
            let ghost s3 = *self;
            proof {
                if good {
                    reveal(args_end);
                }
            }
            match self.expect_token(TokenKind::RParen, "expected `)` after args") {
                Some(rp) => {
                    end = self.tokens[rp].span.end;
                },
                None => {},
            }
            proof {
                Parser::lemma_grows_trans(&s2, &s3, self);
                if good {
                    assert(self.idx == s3.idx + 1);
                    assert(decorator_end(chars, toks, s0.idx as int) == Some(self.idx as int));
                }
            }
        }
        proof {
            Parser::lemma_grows_trans(&s0, &s1, &s2);
            Parser::lemma_grows_trans(&s0, &s2, self);
        }
        Some(Decorator { name, args, span: Span { start: at_span.start, end } })
    }
}

impl Parser {
    /// `struct Name { field: Type, ... }`.
    #[verifier::rlimit(80)]
    #[verifier::spinoff_prover]
    fn parse_struct_decl(&mut self, annotations: Vec<Decorator>) -> (r: Option<StructDecl>)
        requires
            old(self).wf(),
        ensures
            Parser::grows(old(self), final(self)),
            old(self).at_spec(TokenKind::Struct) ==> final(self).idx > old(self).idx,
            r matches Some(d) ==> final(self).idx > old(self).idx && d.name@ == old(self).text_of(
                old(self).idx + 1,
                old(self).idx + 2,
            ) && d.derives@ == anns_derives(annotations@),
            r is Some ==> old(self).idx + 1 < old(self).tokens@.len(),
            r matches Some(d) ==> names_after(
                old(self).chars@,
                raws_of(old(self).tokens@, old(self).ranges@),
                old(self).idx + 1,
                field_names(d.fields@),
            ),
            annotations@.len() == 0 ==> (struct_end(
                raws_of(old(self).tokens@, old(self).ranges@),
                old(self).idx as int,
            ) matches Some(e) ==> r is Some && final(self).idx == e && final(self).diagnostics@
                == old(self).diagnostics@),
    {
        let ghost toks = raws_of(self.tokens@, self.ranges@);
        let ghost chars = self.chars@;
        let ghost k0 = self.idx + 1;
        let ghost good = annotations@.len() == 0 && struct_end(toks, old(self).idx as int) is Some;
        proof {
            lemma_tok_kinds(*self);
        }
        let kw = self.expect_token(TokenKind::Struct, "expected `struct`")?;
        let start = self.tokens[kw].span.start;
        let name = self.parse_ident("expected struct name")?;
        let ghost d0 = self.diagnostics@;
        let derives = self.extract_derives(&annotations);
        proof {
            if annotations@.len() == 0 {
                let tail = self.diagnostics@.skip(d0.len() as int);
                assert(messages_of(tail).len() == tail.len());
                assert(self.diagnostics@ =~= d0);
            }
        }
        self.skip_separators();
        self.expect(TokenKind::LBrace, "expected `{` after struct name");
        let mut fields: Vec<FieldDecl> = Vec::new();
        self.skip_separators();
        let ghost s0 = *self;
        let ghost mut ps: Seq<int> = Seq::empty();
        while !self.at(TokenKind::RBrace) && !self.is_eof()
            invariant
                Parser::grows(old(self), self),
                Parser::grows(&s0, self),
                self.idx > old(self).idx,
                self.idx > k0,
                toks == raws_of(old(self).tokens@, old(self).ranges@),
                chars == old(self).chars@,
                names_at(chars, toks, k0, field_names(fields@), ps),
                forall|j: int| 0 <= j < ps.len() ==> #[trigger] ps[j] < self.idx,
                tok_kinds(toks) == self.kinds(),
                good == (annotations@.len() == 0 && struct_end(toks, old(self).idx as int) is Some),
                good ==> self.diagnostics@ == old(self).diagnostics@ && fields_end(
                    toks,
                    self.idx as int,
                ) == struct_end(toks, old(self).idx as int),
            decreases self.remaining(),
        {
            let fstart = self.current_span().start;
            let ghost p = self.idx as int;
            proof {
                if good {
                    lemma_fields_first(toks, p);
                }
            }
            let field_name = self.parse_ident("expected field name")?;
            assert(field_name@ == tok_text(chars, toks[p]));
            self.expect(TokenKind::Colon, "expected `:` after field name");
            self.skip_separators();
            let ghost c = self.idx as int;
            let stops = [TokenKind::Comma, TokenKind::Newline, TokenKind::RBrace];
            assert(stops@ =~= seq![TokenKind::Comma, TokenKind::Newline, TokenKind::RBrace]);
            proof {
                if good {
                    assert(c == skip_seps(toks, p + 2));
                    assert(field_type_end(toks, c) is Some);
                    reveal(field_type_end);
                }
            }
            let (ty_raw, ty_span, _) = self.parse_text_segment(&stops, true, true)?;
            let ghost e = self.idx as int;
            proof {
                if good {
                    assert(field_type_end(toks, c) == Some(e)) by {
                        reveal(field_type_end);
                    }
                }
            }
            let ghost before = fields@;
            fields.push(
                FieldDecl {
                    name: field_name,
                    ty: TypeRef { raw: ty_raw, span: ty_span },
                    span: Span { start: fstart, end: ty_span.end },
                },
            );
            proof {
                let ps0 = ps;
                ps = ps.push(p);
                assert(field_names(fields@) =~= field_names(before).push(tok_text(chars, toks[p])));
                assert forall|a: int, b: int| 0 <= a < b < ps.len() implies #[trigger] ps[a]
                    < #[trigger] ps[b] by {
                    assert(ps0[a] < p);
                    if b < ps0.len() {
                        assert(ps[b] == ps0[b]);
                    }
                }
                assert forall|j: int| 0 <= j < ps.len() implies k0 < #[trigger] ps[j] < toks.len()
                    && toks[ps[j]].kind == TokenKind::Ident && field_names(fields@)[j] == tok_text(
                    chars,
                    toks[ps[j]],
                ) by {
                    if j < ps0.len() {
                        assert(ps[j] == ps0[j]);
                        assert(field_names(fields@)[j] == field_names(before)[j]);
                    }
                }
            }
            self.skip_separators();
            let ghost q = self.idx as int;
            self.consume(TokenKind::Comma);
            self.skip_separators();
            proof {
                if good {
                    lemma_fields_step(toks, p, c, e, q, self.idx as int);
                }
            }
        }
        proof {
            if good {
                reveal(fields_end);
                assert(self.at_spec(TokenKind::RBrace));
            }
        }
        let end = self.expect_token(TokenKind::RBrace, "expected `}` after struct body");
        let end_pos = match end {
            Some(k) => self.tokens[k].span.end,
            None => start,
        };
        let d = StructDecl { name, fields, derives, span: Span { start, end: end_pos } };
        assert(names_at(chars, toks, k0, field_names(d.fields@), ps));
        Some(d)
    }

    /// `enum Name<T> { Variant, Variant(Type, ...) }`.
    fn parse_enum_decl(&mut self, annotations: Vec<Decorator>) -> (r: Option<EnumDecl>)
        requires
            old(self).wf(),
        ensures
            Parser::grows(old(self), final(self)),
            old(self).at_spec(TokenKind::Enum) ==> final(self).idx > old(self).idx,
            r matches Some(d) ==> final(self).idx > old(self).idx && d.name@ == old(self).text_of(
                old(self).idx + 1,
                old(self).idx + 2,
            ) && d.derives@ == anns_derives(annotations@),
            r is Some ==> old(self).idx + 1 < old(self).tokens@.len(),
            r matches Some(d) ==> names_after(
                old(self).chars@,
                raws_of(old(self).tokens@, old(self).ranges@),
                old(self).idx + 1,
                variant_names(d.variants@),
            ),
    {
        let ghost toks = raws_of(self.tokens@, self.ranges@);
        let ghost chars = self.chars@;
        let ghost k0 = self.idx + 1;
        let kw = self.expect_token(TokenKind::Enum, "expected `enum`")?;
        let start = self.tokens[kw].span.start;
        let name = self.parse_ident("expected enum name")?;
        let type_params = self.parse_type_params();
        let derives = self.extract_derives(&annotations);
        self.skip_separators();
        self.expect(TokenKind::LBrace, "expected `{` after enum name");
        let mut variants: Vec<EnumVariant> = Vec::new();
        self.skip_separators();
        let ghost mut ps: Seq<int> = Seq::empty();
        while !self.at(TokenKind::RBrace) && !self.is_eof()
            invariant
                Parser::grows(old(self), self),
                self.idx > old(self).idx,
                self.idx > k0,
                toks == raws_of(old(self).tokens@, old(self).ranges@),
                chars == old(self).chars@,
                names_at(chars, toks, k0, variant_names(variants@), ps),
                forall|j: int| 0 <= j < ps.len() ==> #[trigger] ps[j] < self.idx,
            decreases self.remaining(),
        {
            let vstart = self.current_span().start;
            let ghost p = self.idx as int;
            let variant_name = self.parse_ident("expected enum variant name")?;
            assert(variant_name@ == tok_text(chars, toks[p]));
            let mut payload: Vec<TypeRef> = Vec::new();
            self.skip_separators();
            if self.consume(TokenKind::LParen) {
                self.skip_separators();
                let ghost s1 = *self;
                while !self.at(TokenKind::RParen) && !self.is_eof()
                    invariant
                        Parser::grows(old(self), self),
                        Parser::grows(&s1, self),
                        self.idx > old(self).idx,
                    decreases self.remaining(),
                {
                    let (ty_raw, ty_span, _) = self.parse_text_segment(
                        &[TokenKind::Comma, TokenKind::RParen],
                        true,
                        false,
                    )?;
                    payload.push(TypeRef { raw: ty_raw, span: ty_span });
                    self.skip_separators();
                    if self.consume(TokenKind::Comma) {
                        self.skip_separators();
                        continue;
                    }
                    break;
                }
                self.expect(TokenKind::RParen, "expected `)` after variant payload");
            }
            let vend = match self.previous_end() {
                Some(e) => e,
                None => vstart,
            };
            let ghost before = variants@;
            variants.push(
                EnumVariant { name: variant_name, payload, span: Span { start: vstart, end: vend } },
            );
            proof {
                let ps0 = ps;
                ps = ps.push(p);
                assert(variant_names(variants@) =~= variant_names(before).push(
                    tok_text(chars, toks[p]),
                ));
                assert forall|a: int, b: int| 0 <= a < b < ps.len() implies #[trigger] ps[a]
                    < #[trigger] ps[b] by {
                    assert(ps0[a] < p);
                    if b < ps0.len() {
                        assert(ps[b] == ps0[b]);
                    }
                }
                assert forall|j: int| 0 <= j < ps.len() implies k0 < #[trigger] ps[j] < toks.len()
                    && toks[ps[j]].kind == TokenKind::Ident && variant_names(variants@)[j]
                    == tok_text(chars, toks[ps[j]]) by {
                    if j < ps0.len() {
                        assert(ps[j] == ps0[j]);
                        assert(variant_names(variants@)[j] == variant_names(before)[j]);
                    }
                }
            }
            self.skip_separators();
            self.consume(TokenKind::Comma);
            self.skip_separators();
        }
        let end = self.expect_token(TokenKind::RBrace, "expected `}` after enum body");
        let end_pos = match end {
            Some(k) => self.tokens[k].span.end,
            None => start,
        };
        let d = EnumDecl {
            name,
            type_params,
            variants,
            derives,
            span: Span { start, end: end_pos },
        };
        assert(names_at(chars, toks, k0, variant_names(d.variants@), ps));
        Some(d)
    }

    /// `<T, U>` after a name; none when there is no `<`.
    fn parse_type_params(&mut self) -> (r: Vec<String>)
        requires
            old(self).wf(),
        ensures
            Parser::grows(old(self), final(self)),
            views(r@) == type_params_at(
                old(self).chars@,
                raws_of(old(self).tokens@, old(self).ranges@),
                old(self).idx as int,
            ),
            ({
                let toks = raws_of(old(self).tokens@, old(self).ranges@);
                let q = skip_seps(toks, old(self).idx as int);
                !(0 <= q < toks.len() && toks[q].kind == TokenKind::Lt) ==> final(self).idx == q
                    && final(self).diagnostics@ == old(self).diagnostics@
            }),
    {
        let ghost toks = raws_of(self.tokens@, self.ranges@);
        let ghost chars = self.chars@;
        self.skip_separators();
        let mut params: Vec<String> = Vec::new();
        if !self.consume(TokenKind::Lt) {
            assert(views(params@) =~= Seq::<Seq<char>>::empty());
            return params;
        }
        self.skip_separators();
        let ghost b0 = self.idx as int;
        let ghost s1 = *self;
        let ghost mut finished = false;
        assert(views(params@) + tparams_from(chars, toks, b0) =~= tparams_from(chars, toks, b0));
        while !self.at(TokenKind::Gt) && !self.is_eof()
            invariant_except_break
                !finished,
                views(params@) + tparams_from(chars, toks, self.idx as int) == tparams_from(
                    chars,
                    toks,
                    b0,
                ),
            invariant
                Parser::grows(old(self), self),
                Parser::grows(&s1, self),
                toks == raws_of(old(self).tokens@, old(self).ranges@),
                chars == old(self).chars@,
            ensures
                Parser::grows(old(self), self),
                finished || self.eof_spec() || self.at_spec(TokenKind::Gt),
                !finished ==> views(params@) + tparams_from(chars, toks, self.idx as int)
                    == tparams_from(chars, toks, b0),
                finished ==> views(params@) == tparams_from(chars, toks, b0),
            decreases self.remaining(),
        {
            let ghost i = self.idx as int;
            let ghost before = params@;
            proof {
                lemma_tparams_step(chars, toks, i);
            }
            match self.parse_ident("expected generic type parameter") {
                Some(name) => {
                    params.push(name);
                    assert(views(params@) =~= views(before).push(name@));
                },
                None => {
                    assert(views(params@) =~= views(before));
                },
            }
            self.skip_separators();
            if self.consume(TokenKind::Comma) {
                self.skip_separators();
                proof {
                    assert(views(params@) + tparams_from(chars, toks, self.idx as int) =~= views(
                        before,
                    ) + tparams_from(chars, toks, i));
                }
                continue;
            }
            proof {
                assert(views(params@) =~= views(before) + tparams_from(chars, toks, i));
                finished = true;
            }
            break;
        }
        proof {
            if !finished {
                lemma_tparams_step(chars, toks, self.idx as int);
                assert(views(params@) + Seq::<Seq<char>>::empty() =~= views(params@));
            }
        }
        self.expect(TokenKind::Gt, "expected `>` after type parameters");
        params
    }

    /// `impl Target { methods }`.
    fn parse_impl_block(&mut self) -> (r: Option<ImplBlock>)
        requires
            old(self).wf(),
        ensures
            Parser::grows(old(self), final(self)),
            old(self).at_spec(TokenKind::Impl) ==> final(self).idx > old(self).idx,
            r is Some ==> final(self).idx > old(self).idx,
            r matches Some(b) ==> exists|ps: Seq<int>|
                #[trigger] methods_at(
                    old(self).chars@,
                    raws_of(old(self).tokens@, old(self).ranges@),
                    old(self).idx as int,
                    b.methods@,
                    ps,
                ),
            r is Some <==> (old(self).at_spec(TokenKind::Impl) && segment(
                old(self).chars@,
                raws_of(old(self).tokens@, old(self).ranges@),
                skip_seps(raws_of(old(self).tokens@, old(self).ranges@), old(self).idx + 1),
                seq![TokenKind::LBrace],
                false,
            ) is Some),
            r matches Some(b) ==> (segment(
                old(self).chars@,
                raws_of(old(self).tokens@, old(self).ranges@),
                skip_seps(raws_of(old(self).tokens@, old(self).ranges@), old(self).idx + 1),
                seq![TokenKind::LBrace],
                false,
            ) matches Some((t, _)) && b.target@ == t),
    {
        let ghost toks = raws_of(self.tokens@, self.ranges@);
        let ghost chars = self.chars@;
        let ghost k0 = self.idx as int;
        let kw = self.expect_token(TokenKind::Impl, "expected `impl`")?;
        let start = self.tokens[kw].span.start;
        self.skip_separators();
        let ghost pt = *self;
        proof {
            pt.lemma_segment(seq![TokenKind::LBrace], false);
        }
        let stops = [TokenKind::LBrace];
        assert(stops@ =~= seq![TokenKind::LBrace]);
        let (target, _, _) = self.parse_text_segment(&stops, true, false)?;
        self.expect(TokenKind::LBrace, "expected `{` after impl target");
        let mut methods: Vec<MethodDecl> = Vec::new();
        self.skip_separators();
        let ghost mut ps: Seq<int> = Seq::empty();
        while !self.at(TokenKind::RBrace) && !self.is_eof()
            invariant
                Parser::grows(old(self), self),
                self.idx > old(self).idx,
                toks == raws_of(old(self).tokens@, old(self).ranges@),
                chars == old(self).chars@,
                k0 == old(self).idx,
                methods_at(chars, toks, k0, methods@, ps),
                forall|j: int| 0 <= j < ps.len() ==> #[trigger] ps[j] <= self.idx,
            decreases self.remaining(),
        {
            let ghost s0 = *self;
            let decorators = self.parse_annotations();
            self.skip_separators();
            if !self.at(TokenKind::Fn) {
                let span = self.current_span();
                self.push_diag("expected method declaration inside impl", span);
                // past the end of input there is nothing left to skip
                if !self.is_eof() {
                    self.idx = self.idx + 1;
                }
                continue;
            }
            let ghost p = self.idx + 1;
            let ghost sm = *self;
            match self.parse_method_decl(decorators) {
                Some(method) => {
                    let ghost before = methods@;
                    assert(method.name@ == tok_text(chars, toks[p]));
                    methods.push(method);
                    proof {
                        let ps0 = ps;
                        ps = ps.push(p);
                        assert(method_names(methods@) =~= method_names(before).push(
                            tok_text(chars, toks[p]),
                        ));
                        assert forall|a: int, b: int| 0 <= a < b < ps.len() implies #[trigger] ps[a]
                            < #[trigger] ps[b] by {
                            assert(ps0[a] <= sm.idx);
                            if b < ps0.len() {
                                assert(ps[b] == ps0[b]);
                            }
                        }
                        assert forall|j: int| 0 <= j < ps.len() implies k0 < #[trigger] ps[j]
                            < toks.len() && toks[ps[j]].kind == TokenKind::Ident && method_names(
                            methods@,
                        )[j] == tok_text(chars, toks[ps[j]]) by {
                            if j < ps0.len() {
                                assert(ps[j] == ps0[j]);
                                assert(method_names(methods@)[j] == method_names(before)[j]);
                            }
                        }
                        assert forall|j: int| 0 <= j < ps.len() implies params_after(
                            chars,
                            toks,
                            #[trigger] ps[j],
                            methods@[j].params@,
                        ) && stmts_after(chars, toks, ps[j], methods@[j].body.stmts@) && placed(
                            chars,
                            toks,
                            ps[j],
                            toks.len() as int,
                            flatten(methods@[j].body.stmts@),
                        ) by {
                            if j < ps0.len() {
                                assert(ps[j] == ps0[j]);
                                assert(methods@[j] == before[j]);
                            }
                        }
                    }
                },
                None => self.synchronize_block(),
            }
            self.skip_separators();
        }
        let end = self.expect_token(TokenKind::RBrace, "expected `}` after impl block");
        let end_pos = match end {
            Some(k) => self.tokens[k].span.end,
            None => start,
        };
        let b = ImplBlock { target, methods, span: Span { start, end: end_pos } };
        assert(methods_at(chars, toks, k0, b.methods@, ps));
        let ghost bb = b;
        let r: Option<ImplBlock> = Some(b);
        assert(r matches Some(x) && x == bb);
        r
    }

    /// `fn name<T>(params) -> Ret { body }`.
    #[verifier::rlimit(80)]
    #[verifier::spinoff_prover]
    fn parse_fn_decl(&mut self, decorators: Vec<Decorator>) -> (r: Option<FnDecl>)
        requires
            old(self).wf(),
        ensures
            Parser::grows(old(self), final(self)),
            old(self).at_spec(TokenKind::Fn) ==> final(self).idx > old(self).idx,
            r matches Some(f) ==> final(self).idx > old(self).idx && f.name@ == old(self).text_of(
                old(self).idx + 1,
                old(self).idx + 2,
            ) && f.decorators@ == decorators@,
            r is Some ==> old(self).idx + 1 < old(self).tokens@.len(),
            r matches Some(f) ==> params_after(
                old(self).chars@,
                raws_of(old(self).tokens@, old(self).ranges@),
                old(self).idx + 1,
                f.params@,
            ),
            r matches Some(f) ==> stmts_after(
                old(self).chars@,
                raws_of(old(self).tokens@, old(self).ranges@),
                old(self).idx + 1,
                f.body.stmts@,
            ),
            r matches Some(f) ==> placed(
                old(self).chars@,
                raws_of(old(self).tokens@, old(self).ranges@),
                old(self).idx + 1,
                old(self).tokens@.len() as int,
                flatten(f.body.stmts@),
            ),
            fn_end(old(self).chars@, raws_of(old(self).tokens@, old(self).ranges@), old(self).idx as int)
                matches Some(e) ==> r is Some && final(self).idx == e && final(self).diagnostics@
                == old(self).diagnostics@,
    {
        let ghost toks = raws_of(self.tokens@, self.ranges@);
        let ghost good = fn_end(self.chars@, toks, self.idx as int) is Some;
        proof {
            lemma_tok_kinds(*self);
        }
        let kw = self.expect_token(TokenKind::Fn, "expected `fn`")?;
        let start = self.tokens[kw].span.start;
        let name = self.parse_ident("expected function name")?;
        let type_params = self.parse_type_params();
        let ghost q = self.idx as int;
        let (params, _) = if self.parse_empty_params() {
            let none: Vec<ParamDecl> = Vec::new();
            proof {
                let ps = Seq::<int>::empty();
                assert(param_names(none@) =~= Seq::<Seq<char>>::empty());
                assert(names_at(self.chars@, toks, q - 1, param_names(none@), ps));
                assert(typed_at(self.chars@, toks, none@, ps));
            }
            (none, None)
        } else {
            self.parse_params(false)?
        };
        proof {
            lemma_params_after_weaken(
                self.chars@,
                raws_of(self.tokens@, self.ranges@),
                old(self).idx + 1,
                q - 1,
                params@,
            );
        }
        let ghost q1 = self.idx as int;
        let ret = self.parse_return_type();
        let ghost q2 = self.idx as int;
        proof {
            if good {
                assert(ret_end(toks, q1) == Some(q2));
            }
        }
        let body = self.parse_block()?;
        proof {
            lemma_stmts_after_weaken(
                self.chars@,
                raws_of(self.tokens@, self.ranges@),
                old(self).idx + 1,
                q2,
                body.stmts@,
            );
            lemma_placed_weaken(
                self.chars@,
                raws_of(self.tokens@, self.ranges@),
                q2,
                self.idx as int,
                old(self).idx + 1,
                self.tokens@.len() as int,
                flatten(body.stmts@),
            );
        }
        let end = body.span.end;
        Some(FnDecl { name, type_params, params, ret, body, decorators, span: Span { start, end } })
    }

    /// `fn name(self, params) -> Ret { body }` inside an `impl`.
    fn parse_method_decl(&mut self, decorators: Vec<Decorator>) -> (r: Option<MethodDecl>)
        requires
            old(self).wf(),
        ensures
            Parser::grows(old(self), final(self)),
            old(self).at_spec(TokenKind::Fn) ==> final(self).idx > old(self).idx,
            r matches Some(m) ==> final(self).idx > old(self).idx && m.name@ == old(self).text_of(
                old(self).idx + 1,
                old(self).idx + 2,
            ) && m.decorators@ == decorators@,
            r is Some ==> old(self).idx + 1 < old(self).tokens@.len() && old(self).kind_at(
                old(self).idx + 1,
            ) == TokenKind::Ident,
            r matches Some(m) ==> params_after(
                old(self).chars@,
                raws_of(old(self).tokens@, old(self).ranges@),
                old(self).idx + 1,
                m.params@,
            ) && stmts_after(
                old(self).chars@,
                raws_of(old(self).tokens@, old(self).ranges@),
                old(self).idx + 1,
                m.body.stmts@,
            ) && placed(
                old(self).chars@,
                raws_of(old(self).tokens@, old(self).ranges@),
                old(self).idx + 1,
                old(self).tokens@.len() as int,
                flatten(m.body.stmts@),
            ),
    {
        let kw = self.expect_token(TokenKind::Fn, "expected `fn`")?;
        let start = self.tokens[kw].span.start;
        let name = self.parse_ident("expected method name")?;
        let type_params = self.parse_type_params();
        let ghost q = self.idx as int;
        let (params, receiver) = self.parse_params(true)?;
        proof {
            lemma_params_after_weaken(
                self.chars@,
                raws_of(self.tokens@, self.ranges@),
                old(self).idx + 1,
                q - 1,
                params@,
            );
        }
        let receiver = match receiver {
            Some(r) => r,
            None => {
                let d = Diagnostic::new(
                    str_to_string("expected `self` or `mut self` as first method argument"),
                    Some(Span { start, end: start }),
                ).with_hint(str_to_string("use `fn m(self, ...)` or `fn m(mut self, ...)`"));
                self.push_diagnostic(d);
                ReceiverKind::Value
            },
        };
        let ret = self.parse_return_type();
        let ghost q2 = self.idx as int;
        let body = self.parse_block()?;
        proof {
            lemma_stmts_after_weaken(
                self.chars@,
                raws_of(self.tokens@, self.ranges@),
                old(self).idx + 1,
                q2,
                body.stmts@,
            );
            lemma_placed_weaken(
                self.chars@,
                raws_of(self.tokens@, self.ranges@),
                q2,
                self.idx as int,
                old(self).idx + 1,
                self.tokens@.len() as int,
                flatten(body.stmts@),
            );
        }
        let end = body.span.end;
        Some(
            MethodDecl {
                receiver,
                name,
                type_params,
                params,
                ret,
                body,
                decorators,
                span: Span { start, end },
            },
        )
    }

    /// `(self?, name: Type, ...)`.
    #[verifier::rlimit(100)]
    #[verifier::spinoff_prover]
    fn parse_params(&mut self, allow_receiver: bool) -> (r: Option<(Vec<ParamDecl>, Option<ReceiverKind>)>)
        requires
            old(self).wf(),
        ensures
            Parser::grows(old(self), final(self)),
            r matches Some((_, recv)) ==> (recv is Some ==> allow_receiver),
            r matches Some((ps_, _)) ==> params_after(
                old(self).chars@,
                raws_of(old(self).tokens@, old(self).ranges@),
                old(self).idx - 1,
                ps_@,
            ),
            r is Some <==> params_ok(
                old(self).chars@,
                raws_of(old(self).tokens@, old(self).ranges@),
                params_start(
                    raws_of(old(self).tokens@, old(self).ranges@),
                    old(self).idx as int,
                    allow_receiver,
                ),
            ),
    {
        let ghost toks = raws_of(self.tokens@, self.ranges@);
        let ghost chars = self.chars@;
        let ghost k0 = self.idx - 1;
        self.expect(TokenKind::LParen, "expected `(`");
        self.skip_separators();
        let mut receiver: Option<ReceiverKind> = None;
        let mut params: Vec<ParamDecl> = Vec::new();
        if allow_receiver {
            if self.at(TokenKind::SelfKw) {
                receiver = Some(ReceiverKind::Value);
                self.idx = self.idx + 1;
                self.skip_separators();
                self.consume(TokenKind::Comma);
                self.skip_separators();
            } else if self.at(TokenKind::Mut) && self.at_n(1, TokenKind::SelfKw) {
                receiver = Some(ReceiverKind::Pointer);
                self.idx = self.idx + 2;
                self.skip_separators();
                self.consume(TokenKind::Comma);
                self.skip_separators();
            }
        }
        let ghost s1 = *self;
        let ghost mut ps: Seq<int> = Seq::empty();
        let ghost start = self.idx as int;
        let ghost mut finished = false;
        assert(start == params_start(toks, old(self).idx as int, allow_receiver));
        let stops = [TokenKind::Comma, TokenKind::RParen];
        assert(stops@ =~= seq![TokenKind::Comma, TokenKind::RParen]);
        while !self.at(TokenKind::RParen) && !self.is_eof()
            invariant_except_break
                !finished,
                params_ok(chars, toks, start) == params_ok(chars, toks, self.idx as int),
            invariant
                stops@ == seq![TokenKind::Comma, TokenKind::RParen],
                start == params_start(toks, old(self).idx as int, allow_receiver),
                finished ==> params_ok(chars, toks, start),
                Parser::grows(old(self), self),
                Parser::grows(&s1, self),
                receiver is Some ==> allow_receiver,
                toks == raws_of(old(self).tokens@, old(self).ranges@),
                chars == old(self).chars@,
                k0 == old(self).idx - 1,
                names_at(chars, toks, k0, param_names(params@), ps),
                typed_at(chars, toks, params@, ps),
                forall|j: int| 0 <= j < ps.len() ==> #[trigger] ps[j] < self.idx,
            ensures
                Parser::grows(old(self), self),
                receiver is Some ==> allow_receiver,
                names_at(chars, toks, k0, param_names(params@), ps),
                typed_at(chars, toks, params@, ps),
                finished || self.at_spec(TokenKind::RParen) || self.eof_spec(),
                !finished ==> params_ok(chars, toks, start) == params_ok(
                    chars,
                    toks,
                    self.idx as int,
                ),
            decreases self.remaining(),
        {
            let pstart = self.current_span().start;
            let ghost p = self.idx as int;
            proof {
                lemma_params_ok_step(chars, toks, p);
            }
            let name = match self.parse_ident("expected parameter name") {
                Some(n) => n,
                None => {
                    assert(!params_ok(chars, toks, start));
                    return None;
                },
            };
            assert(name@ == tok_text(chars, toks[p]));
            self.expect(TokenKind::Colon, "expected `:` after parameter name");
            self.skip_separators();
            let ghost pb = *self;
            proof {
                pb.lemma_segment(seq![TokenKind::Comma, TokenKind::RParen], false);
            }
            let (ty_raw, ty_span, _) = match self.parse_text_segment(&stops, true, false) {
                Some(t) => t,
                None => {
                    assert(!params_ok(chars, toks, start));
                    return None;
                },
            };
            assert(segment(
                chars,
                toks,
                pb.idx as int,
                seq![TokenKind::Comma, TokenKind::RParen],
                false,
            ) matches Some((t, _)) && ty_raw@ == t);
            let ghost before = params@;
            params.push(
                ParamDecl {
                    name,
                    ty: TypeRef { raw: ty_raw, span: ty_span },
                    span: Span { start: pstart, end: ty_span.end },
                },
            );
            proof {
                let ps0 = ps;
                ps = ps.push(p);
                assert(param_names(params@) =~= param_names(before).push(tok_text(chars, toks[p])));
                assert forall|a: int, b: int| 0 <= a < b < ps.len() implies #[trigger] ps[a]
                    < #[trigger] ps[b] by {
                    assert(ps0[a] < p);
                    if b < ps0.len() {
                        assert(ps[b] == ps0[b]);
                    }
                }
                assert forall|j: int| 0 <= j < ps.len() implies k0 < #[trigger] ps[j] < toks.len()
                    && toks[ps[j]].kind == TokenKind::Ident && param_names(params@)[j] == tok_text(
                    chars,
                    toks[ps[j]],
                ) by {
                    if j < ps0.len() {
                        assert(ps[j] == ps0[j]);
                        assert(param_names(params@)[j] == param_names(before)[j]);
                    }
                }
                lemma_typed_push(chars, toks, before, ps0, params@.last(), p);
                assert(params@ =~= before.push(params@.last()));
            }
            self.skip_separators();
            if self.consume(TokenKind::Comma) {
                self.skip_separators();
                continue;
            }
            proof {
                assert(params_ok(chars, toks, p));
                finished = true;
            }
            break;
        }
        proof {
            if !finished {
                lemma_params_ok_step(chars, toks, self.idx as int);
            }
        }
        self.expect(TokenKind::RParen, "expected `)` after parameter list");
        assert(names_at(chars, toks, k0, param_names(params@), ps));
        assert(typed_at(chars, toks, params@, ps));
        Some((params, receiver))
    }

    /// Reads `()`, separators allowed inside it: an empty parameter list. Reads nothing
    /// when the list is not empty.
    fn parse_empty_params(&mut self) -> (r: bool)
        requires
            old(self).wf(),
        ensures
            Parser::grows(old(self), final(self)),
            final(self).diagnostics@ == old(self).diagnostics@,
            ({
                let toks = raws_of(old(self).tokens@, old(self).ranges@);
                let c = skip_seps(toks, old(self).idx + 1);
                &&& r == (old(self).at_spec(TokenKind::LParen) && 0 <= c < toks.len()
                    && toks[c].kind == TokenKind::RParen)
                &&& r ==> final(self).idx == c + 1
                &&& !r ==> final(self).idx == old(self).idx
            }),
    {
        proof {
            self.lemma_grows_refl();
        }
        if !self.at(TokenKind::LParen) {
            return false;
        }
        let start = self.idx;
        self.idx = self.idx + 1;
        self.skip_separators();
        if self.at(TokenKind::RParen) {
            self.idx = self.idx + 1;
            return true;
        }
        self.idx = start;
        false
    }

    /// Index of the first `{` outside brackets from the current token, or the end.
    fn scan_to_brace(&self) -> (r: usize)
        requires
            self.wf(),
        ensures
            r == seg_end(self.kinds(), self.idx as int, zero_depth(), seq![TokenKind::LBrace], false, false),
            self.idx <= r <= self.tokens@.len(),
    {
        let ghost ks = self.kinds();
        let ghost stops = seq![TokenKind::LBrace];
        let n = self.tokens.len();
        let mut i = self.idx;
        let mut pd: usize = 0;
        let mut bd: usize = 0;
        let mut cd: usize = 0;
        let mut ad: usize = 0;
        loop
            invariant
                self.wf(),
                ks == self.kinds(),
                n == ks.len(),
                stops == seq![TokenKind::LBrace],
                self.idx <= i <= n,
                pd + bd + cd + ad <= i - self.idx,
                seg_end(ks, self.idx as int, zero_depth(), stops, false, false) == seg_end(
                    ks,
                    i as int,
                    (pd as nat, bd as nat, cd as nat, ad as nat),
                    stops,
                    false,
                    false,
                ),
            ensures
                self.idx <= i <= n,
                seg_end(ks, self.idx as int, zero_depth(), stops, false, false) == i,
            decreases n - i,
        {
            if i >= n {
                break;
            }
            let kind = self.tokens[i].kind;
            assert(ks[i as int] == kind);
            if pd == 0 && bd == 0 && cd == 0 && ad == 0 && kind == TokenKind::LBrace {
                assert(stops.contains(kind)) by {
                    assert(stops[0] == kind);
                }
                break;
            }
            proof {
                if pd == 0 && bd == 0 && cd == 0 && ad == 0 {
                    assert(!stops.contains(kind)) by {
                        if stops.contains(kind) {
                            let j = choose|j: int| 0 <= j < stops.len() && stops[j] == kind;
                            assert(j == 0);
                        }
                    }
                }
            }
            match kind {
                TokenKind::LParen => pd = pd + 1,
                TokenKind::RParen => pd = if pd == 0 { 0 } else { pd - 1 },
                TokenKind::LBracket => bd = bd + 1,
                TokenKind::RBracket => bd = if bd == 0 { 0 } else { bd - 1 },
                TokenKind::LBrace => cd = cd + 1,
                TokenKind::RBrace => cd = if cd == 0 { 0 } else { cd - 1 },
                TokenKind::Lt => ad = ad + 1,
                TokenKind::Gt => ad = if ad == 0 { 0 } else { ad - 1 },
                _ => {},
            }
            i = i + 1;
        }
        i
    }

    /// `-> Type`, `-> Type!` or `-> !` before the body's `{`; `Void` without `->`.
    fn parse_return_type(&mut self) -> (r: ReturnType)
        requires
            old(self).wf(),
        ensures
            Parser::grows(old(self), final(self)),
            ({
                let p = old(self);
                let toks = raws_of(p.tokens@, p.ranges@);
                let ks = p.kinds();
                let a = skip_seps(toks, p.idx as int);
                let b = skip_seps(toks, a + 1);
                let i = seg_end(ks, b, zero_depth(), seq![TokenKind::LBrace], false, false);
                let has_error = ks[i - 1] == TokenKind::Bang;
                let e = if has_error { i - 1 } else { i };
                if !(a < ks.len() && ks[a] == TokenKind::Arrow) {
                    r is Void && final(self).idx == a && final(self).diagnostics@ == p.diagnostics@
                } else if i <= b {
                    &&& r is Void
                    &&& final(self).idx == b
                    &&& final(self).diagnostics@.len() == p.diagnostics@.len() + 1
                    &&& final(self).diagnostics@.last().message@ == "expected return type after `->`"@
                } else {
                    &&& final(self).idx == i
                    &&& final(self).diagnostics@ == p.diagnostics@
                    &&& if i - b == 1 && ks[b] == TokenKind::Bang {
                        r is ErrorOnly
                    } else {
                        let raw = if b < e { trim(p.text_of(b, e)) } else { Seq::<char>::empty() };
                        let span = if b < e { p.span_of(b, e) } else { Span { start: 0, end: 0 } };
                        match r {
                            ReturnType::TypeWithError(t) => has_error && t.raw@ == raw && t.span == span,
                            ReturnType::Type(t) => !has_error && t.raw@ == raw && t.span == span,
                            _ => false,
                        }
                    }
                }
            }),
    {
        self.skip_separators();
        if !self.consume(TokenKind::Arrow) {
            return ReturnType::Void;
        }
        self.skip_separators();
        let start_idx = self.idx;
        let i = self.scan_to_brace();
        if i <= start_idx {
            let span = self.current_span();
            self.push_diag("expected return type after `->`", span);
            return ReturnType::Void;
        }
        self.idx = i;
        if i - start_idx == 1 && self.tokens[start_idx].kind == TokenKind::Bang {
            return ReturnType::ErrorOnly;
        }
        let has_error = self.tokens[i - 1].kind == TokenKind::Bang;
        let end_token_idx = if has_error { i - 1 } else { i };
        let span = match self.range_span(start_idx, end_token_idx) {
            Some(sp) => sp,
            None => Span { start: 0, end: 0 },
        };
        let raw = if start_idx < end_token_idx {
            self.range_text(start_idx, end_token_idx)
        } else {
            String::new()
        };
        let ty = TypeRef { raw, span };
        if has_error {
            ReturnType::TypeWithError(ty)
        } else {
            ReturnType::Type(ty)
        }
    }
}

impl Parser {
    /// `{ statements }`.
    fn parse_block(&mut self) -> (r: Option<Block>)
        requires
            old(self).wf(),
        ensures
            Parser::grows(old(self), final(self)),
            old(self).at_spec(TokenKind::LBrace) ==> final(self).idx > old(self).idx,
            r is Some ==> final(self).idx > old(self).idx,
            r matches Some(b) ==> stmts_after(
                old(self).chars@,
                raws_of(old(self).tokens@, old(self).ranges@),
                old(self).idx as int,
                b.stmts@,
            ),
            r matches Some(b) ==> placed(
                old(self).chars@,
                raws_of(old(self).tokens@, old(self).ranges@),
                old(self).idx as int,
                final(self).idx as int,
                flatten(b.stmts@),
            ),
            r is Some <==> old(self).at_spec(TokenKind::LBrace),
            block_end(old(self).chars@, raws_of(old(self).tokens@, old(self).ranges@), old(self).idx as int)
                matches Some(e) ==> final(self).idx == e && final(self).diagnostics@ == old(
                self,
            ).diagnostics@,
        decreases old(self).remaining(), 3nat,
    {
        let ghost toks = raws_of(self.tokens@, self.ranges@);
        let ghost chars = self.chars@;
        let ghost k0 = self.idx as int;
        let ghost good = block_end(chars, toks, k0) is Some;
        let lb = self.expect_token(TokenKind::LBrace, "expected `{` to start block")?;
        let start = self.tokens[lb].span.start;
        let mut stmts: Vec<Stmt> = Vec::new();
        self.skip_separators();
        proof {
            if good {
                lemma_lines_end_skip(chars, toks, k0 + 1);
                lemma_skip_seps_idem(toks, k0 + 1);
            }
        }
        let ghost mut ps: Seq<int> = Seq::empty();
        proof {
            lemma_placed_empty(chars, toks, k0, self.idx as int);
            assert(flatten(stmts@) =~= Seq::<Stmt>::empty());
        }
        while !self.at(TokenKind::RBrace) && !self.is_eof()
            invariant
                Parser::grows(old(self), self),
                self.idx > old(self).idx,
                toks == raws_of(old(self).tokens@, old(self).ranges@),
                chars == old(self).chars@,
                k0 == old(self).idx,
                stmts_at(chars, toks, k0, stmts@, ps),
                forall|j: int| 0 <= j < ps.len() ==> #[trigger] ps[j] < self.idx,
                placed(chars, toks, k0, self.idx as int, flatten(stmts@)),
                good == (block_end(chars, toks, k0) is Some),
                good ==> self.diagnostics@ == old(self).diagnostics@ && lines_end(
                    chars,
                    toks,
                    self.idx as int,
                ) == block_end(chars, toks, k0) && skip_seps(toks, self.idx as int) == self.idx,
            decreases self.remaining(),
        {
            let ghost s0 = *self;
            let ghost p = skip_seps(toks, s0.idx as int);
            proof {
                lemma_skip_seps_ge(toks, s0.idx as int);
                if good {
                    reveal(lines_end);
                    assert(simple_stmt_end(chars, toks, p) is Some);
                }
            }
            match self.parse_stmt() {
                Some(stmt) => {
                    let ghost before = stmts@;
                    proof {
                        lemma_placed_concat(
                            chars,
                            toks,
                            k0,
                            s0.idx as int,
                            s0.idx - 1,
                            self.idx as int,
                            flatten(before),
                            seq![stmt] + nested(stmt),
                        );
                        lemma_flatten_push(before, stmt);
                        assert(flatten(before) + (seq![stmt] + nested(stmt)) =~= flatten(
                            before.push(stmt),
                        ));
                    }
                    stmts.push(stmt);
                    proof {
                        let ps0 = ps;
                        ps = ps.push(p);
                        assert forall|a: int, b: int| 0 <= a < b < ps.len() implies #[trigger] ps[a]
                            < #[trigger] ps[b] by {
                            assert(ps0[a] < s0.idx);
                            if b < ps0.len() {
                                assert(ps[b] == ps0[b]);
                            }
                        }
                        assert forall|j: int| 0 <= j < ps.len() implies k0 < #[trigger] ps[j]
                            && stmt_at(chars, toks, ps[j], stmts@[j]) by {
                            if j < ps0.len() {
                                assert(ps[j] == ps0[j]);
                                assert(stmts@[j] == before[j]);
                            }
                        }
                    }
                },
                None => {
                    let ghost s1 = *self;
                    proof {
                        if s1.idx == s0.idx {
                            assert(s1.at_spec(TokenKind::RBrace) == s0.at_spec(TokenKind::RBrace));
                        }
                    }
                    self.synchronize_block();
                    proof {
                        lemma_placed_weaken(
                            chars,
                            toks,
                            k0,
                            s0.idx as int,
                            k0,
                            self.idx as int,
                            flatten(stmts@),
                        );
                    }
                },
            }
            let ghost s2 = self.idx as int;
            self.skip_separators();
            proof {
                lemma_placed_weaken(chars, toks, k0, s2, k0, self.idx as int, flatten(stmts@));
                if good {
                    lemma_block_step(chars, toks, s0.idx as int, s2);
                    lemma_skip_seps_idem(toks, s2);
                }
            }
        }
        proof {
            if good {
                reveal(lines_end);
            }
        }
        let ghost s3 = self.idx as int;
        let rb = self.expect_token(TokenKind::RBrace, "expected `}` to end block");
        let end = match rb {
            Some(k) => self.tokens[k].span.end,
            None => start,
        };
        let b = Block { stmts, span: Span { start, end } };
        assert(stmts_at(chars, toks, k0, b.stmts@, ps));
        proof {
            lemma_placed_weaken(chars, toks, k0, s3, k0, self.idx as int, flatten(b.stmts@));
        }
        Some(b)
    }

    /// One statement.
    #[verifier::rlimit(90)]
    #[verifier::spinoff_prover]
    fn parse_stmt(&mut self) -> (r: Option<Stmt>)
        requires
            old(self).wf(),
        ensures
            Parser::grows(old(self), final(self)),
            r is Some ==> final(self).idx > old(self).idx,
            r matches Some(st) ==> ({
                let toks = raws_of(old(self).tokens@, old(self).ranges@);
                let k = skip_seps(toks, old(self).idx as int);
                k < final(self).idx && stmt_at(old(self).chars@, toks, k, st)
            }),
            r matches Some(st) ==> placed(
                old(self).chars@,
                raws_of(old(self).tokens@, old(self).ranges@),
                old(self).idx - 1,
                final(self).idx as int,
                seq![st] + nested(st),
            ),
            ({
                let toks = raws_of(old(self).tokens@, old(self).ranges@);
                let k = skip_seps(toks, old(self).idx as int);
                let declares = k + 1 < toks.len() && toks[k].kind == TokenKind::Ident && toks[k
                    + 1].kind == TokenKind::ColonEq;
                if k >= toks.len() || toks[k].kind == TokenKind::RBrace {
                    r is None
                } else if toks[k].kind == TokenKind::Match {
                    r is Some ==> segment(
                        old(self).chars@,
                        toks,
                        skip_seps(toks, k + 1),
                        seq![TokenKind::LBrace],
                        false,
                    ) is Some
                } else if toks[k].kind == TokenKind::If {
                    r is Some ==> if_head_ok(old(self).chars@, toks, k)
                } else if toks[k].kind == TokenKind::Return {
                    r is Some <==> return_parses(old(self).chars@, toks, k)
                } else if toks[k].kind == TokenKind::For {
                    r is Some <==> raw_end(tok_kinds(toks), k, 0, false) != k
                } else if declares {
                    r is Some <==> line_expr(old(self).chars@, toks, skip_seps(toks, k + 2)) is Some
                } else {
                    r is Some <==> line_expr(old(self).chars@, toks, k) is Some
                }
            }),
            ({
                let toks = raws_of(old(self).tokens@, old(self).ranges@);
                let k = skip_seps(toks, old(self).idx as int);
                simple_stmt_end(old(self).chars@, toks, k) matches Some(e) ==> r is Some
                    && final(self).idx == e && final(self).diagnostics@ == old(self).diagnostics@
            }),
        decreases old(self).remaining(), 2nat,
    {
        let ghost toks = raws_of(self.tokens@, self.ranges@);
        let ghost chars = self.chars@;
        let ghost i0 = self.idx as int;
        self.skip_separators();
        if self.is_eof() || self.at(TokenKind::RBrace) {
            return None;
        }
        let ghost k = self.idx as int;
        proof {
            if return_end(chars, toks, k) is Some {
                lemma_return_end_parses(chars, toks, k);
            }
            assert(self.kinds() =~= tok_kinds(toks));
        }
        let res = if self.at(TokenKind::Match) {
            match self.parse_match_stmt() {
                Some(m) => Some(Stmt::Match(m)),
                None => None,
            }
        } else if self.at(TokenKind::Return) {
            match self.parse_return_stmt() {
                Some(m) => Some(Stmt::Return(m)),
                None => None,
            }
        } else if self.at(TokenKind::If) {
            match self.parse_if_stmt() {
                Some(m) => Some(Stmt::If(m)),
                None => None,
            }
        } else if self.at(TokenKind::For) {
            match self.parse_raw_stmt() {
                Some(m) => Some(Stmt::Raw(m)),
                None => None,
            }
        } else if self.at(TokenKind::Ident) && self.at_n(1, TokenKind::ColonEq) {
            match self.parse_var_decl_stmt() {
                Some(m) => Some(Stmt::VarDecl(m)),
                None => None,
            }
        } else {
            match self.parse_expr_stmt() {
                Some(m) => Some(Stmt::Expr(m)),
                None => None,
            }
        };
        let ghost gres = res;
        proof {
            if let Some(st) = gres {
                match st {
                    Stmt::If(x) => {
                        assert(nested(st) == if_nested(x));
                        lemma_placed_weaken(
                            chars,
                            toks,
                            k - 1,
                            self.idx as int,
                            i0 - 1,
                            self.idx as int,
                            seq![st] + nested(st),
                        );
                    },
                    Stmt::Match(x) => {
                        assert(nested(st) == arms_nested(x.arms@));
                        lemma_placed_weaken(
                            chars,
                            toks,
                            k - 1,
                            self.idx as int,
                            i0 - 1,
                            self.idx as int,
                            seq![st] + nested(st),
                        );
                    },
                    _ => {
                        lemma_skip_seps_ge(toks, i0);
                        lemma_placed_one(chars, toks, i0 - 1, self.idx as int, k, st);
                        assert(seq![st] + nested(st) =~= seq![st]);
                    },
                }
            }
        }
        res
    }

    /// A text segment to the end of the line; when none is found there, tried again.
    fn parse_line_text(&mut self) -> (r: Option<(String, Span, bool)>)
        requires
            old(self).wf(),
        ensures
            Parser::grows(old(self), final(self)),
            r is Some ==> final(self).idx > old(self).idx,
            line_segment(
                old(self).chars@,
                raws_of(old(self).tokens@, old(self).ranges@),
                old(self).idx as int,
            ) matches Some((t, h)) ==> (r matches Some((text, _, ht)) && text@ == t && ht == h),
            line_expr(
                old(self).chars@,
                raws_of(old(self).tokens@, old(self).ranges@),
                old(self).idx as int,
            ) == match r {
                Some((t, _, h)) => Some((t@, h)),
                None => None::<(Seq<char>, bool)>,
            },
            line_segment(
                old(self).chars@,
                raws_of(old(self).tokens@, old(self).ranges@),
                old(self).idx as int,
            ) is Some ==> final(self).idx == line_end(
                raws_of(old(self).tokens@, old(self).ranges@),
                old(self).idx as int,
            ) && final(self).diagnostics@ == old(self).diagnostics@,
    {
        let ghost p = *self;
        let stops: [TokenKind; 0] = [];
        assert(stops@ =~= Seq::<TokenKind>::empty());
        let first = self.parse_text_segment(&stops, true, true);
        proof {
            p.lemma_segment(Seq::empty(), true);
        }
        match first {
            Some(t) => Some(t),
            None => self.parse_raw_text_to_line(),
        }
    }

    /// `name := expr`.
    fn parse_var_decl_stmt(&mut self) -> (r: Option<VarDeclStmt>)
        requires
            old(self).wf(),
        ensures
            Parser::grows(old(self), final(self)),
            r matches Some(v) ==> final(self).idx > old(self).idx && v.name@ == old(self).text_of(
                old(self).idx as int,
                old(self).idx + 1,
            ),
            r matches Some(v) ==> (old(self).idx + 1 < old(self).tokens@.len() && old(self).kind_at(
                old(self).idx + 1,
            ) == TokenKind::ColonEq ==> (line_segment(
                old(self).chars@,
                raws_of(old(self).tokens@, old(self).ranges@),
                skip_seps(raws_of(old(self).tokens@, old(self).ranges@), old(self).idx + 2),
            ) matches Some((t, h)) ==> v.expr.text@ == t && v.expr.has_try == h)),
            !old(self).at_spec(TokenKind::Ident) ==> r is None,
            old(self).at_spec(TokenKind::Ident) ==> ({
                let toks = raws_of(old(self).tokens@, old(self).ranges@);
                let c = if old(self).idx + 1 < toks.len() && toks[old(self).idx + 1].kind
                    == TokenKind::ColonEq {
                    old(self).idx + 2
                } else {
                    old(self).idx + 1
                };
                line_expr(old(self).chars@, toks, skip_seps(toks, c)) == match r {
                    Some(v) => Some((v.expr.text@, v.expr.has_try)),
                    None => None::<(Seq<char>, bool)>,
                }
            }),
            var_stmt_at(old(self).chars@, raws_of(old(self).tokens@, old(self).ranges@), old(self).idx as int)
                ==> r is Some && final(self).idx == line_end(
                raws_of(old(self).tokens@, old(self).ranges@),
                skip_seps(raws_of(old(self).tokens@, old(self).ranges@), old(self).idx + 2),
            ) && final(self).diagnostics@ == old(self).diagnostics@,
    {
        let start = self.current_span().start;
        let name = self.parse_ident("expected variable name")?;
        self.expect(TokenKind::ColonEq, "expected `:=` in variable declaration");
        self.skip_separators();
        let (text, span, has_try) = self.parse_line_text()?;
        Some(
            VarDeclStmt {
                name,
                expr: Expr { text, has_try, span },
                span: Span { start, end: span.end },
            },
        )
    }

    /// `return` with zero or more comma-separated values.
    #[verifier::rlimit(50)]
    #[verifier::spinoff_prover]
    fn parse_return_stmt(&mut self) -> (r: Option<ReturnStmt>)
        requires
            old(self).wf(),
        ensures
            Parser::grows(old(self), final(self)),
            r is Some ==> final(self).idx > old(self).idx,
            r matches Some(rs) ==> expr_views(rs.exprs@) == return_exprs(
                old(self).chars@,
                raws_of(old(self).tokens@, old(self).ranges@),
                old(self).idx as int,
            ),
            !old(self).at_spec(TokenKind::Return) ==> r is None,
            old(self).at_spec(TokenKind::Return) ==> (r is Some <==> return_parses(
                old(self).chars@,
                raws_of(old(self).tokens@, old(self).ranges@),
                old(self).idx as int,
            )),
            return_end(old(self).chars@, raws_of(old(self).tokens@, old(self).ranges@), old(self).idx as int)
                matches Some(e) ==> final(self).idx == e && final(self).diagnostics@ == old(
                self,
            ).diagnostics@,
    {
        let ghost toks = raws_of(self.tokens@, self.ranges@);
        let ghost chars = self.chars@;
        let kw = self.expect_token(TokenKind::Return, "expected `return`")?;
        let start = self.tokens[kw].span.start;
        self.skip_separators();
        let ghost b0 = self.idx as int;
        if self.at(TokenKind::Newline) || self.at(TokenKind::Semi) || self.at(TokenKind::RBrace) {
            let rs = ReturnStmt { exprs: Vec::new(), span: Span { start, end: start } };
            assert(expr_views(rs.exprs@) =~= Seq::<(Seq<char>, bool)>::empty());
            return Some(rs);
        }
        let mut exprs: Vec<Expr> = Vec::new();
        let ghost mut finished = false;
        proof {
            assert(expr_views(exprs@) + return_values(chars, toks, b0) =~= return_values(
                chars,
                toks,
                b0,
            ));
        }
        let stops = [TokenKind::Comma];
        assert(stops@ =~= seq![TokenKind::Comma]);
        assert(return_parses(chars, toks, old(self).idx as int) == return_values_ok(chars, toks, b0));
        let ghost single = return_end(chars, toks, old(self).idx as int) is Some;
        let ghost e0 = seg_end(tok_kinds(toks), b0, zero_depth(), seq![TokenKind::Comma], true, true);
        assert(single ==> self.diagnostics@ == old(self).diagnostics@ && b0 == skip_seps(
            toks,
            old(self).idx + 1,
        ));
        while !self.is_eof()
            invariant_except_break
                !finished,
                return_values_ok(chars, toks, b0) == return_values_ok(chars, toks, self.idx as int),
                expr_views(exprs@) + return_values(chars, toks, self.idx as int) == return_values(
                    chars,
                    toks,
                    b0,
                ),
            invariant
                Parser::grows(old(self), self),
                self.idx > old(self).idx,
                toks == raws_of(old(self).tokens@, old(self).ranges@),
                chars == old(self).chars@,
                stops@ == seq![TokenKind::Comma],
                return_parses(chars, toks, old(self).idx as int) == return_values_ok(chars, toks, b0),
                single == (return_end(chars, toks, old(self).idx as int) is Some),
                e0 == seg_end(tok_kinds(toks), b0, zero_depth(), seq![TokenKind::Comma], true, true),
                single ==> b0 == skip_seps(toks, old(self).idx + 1),
                single && !finished ==> self.idx == b0 && self.diagnostics@ == old(self).diagnostics@,
            ensures
                single ==> finished && self.idx == skip_seps(toks, e0) && self.diagnostics@ == old(
                    self,
                ).diagnostics@,
                Parser::grows(old(self), self),
                self.idx > old(self).idx,
                finished || self.eof_spec(),
                !finished ==> expr_views(exprs@) + return_values(chars, toks, self.idx as int)
                    == return_values(chars, toks, b0),
                finished ==> expr_views(exprs@) == return_values(chars, toks, b0),
                return_values_ok(chars, toks, b0) || !finished && return_values_ok(
                    chars,
                    toks,
                    b0,
                ) == return_values_ok(chars, toks, self.idx as int),
            decreases self.remaining(),
        {
            let ghost p = *self;
            let ghost b = self.idx as int;
            proof {
                lemma_return_values_ok_step(chars, toks, b);
                p.lemma_segment(seq![TokenKind::Comma], true);
            }
            let seg = self.parse_text_segment(&stops, true, true);
            let (text, span, has_try) = match seg {
                Some(t) => t,
                None => {
                    assert(!return_values_ok(chars, toks, b0));
                    return None;
                },
            };
            let ghost e = self.idx as int;
            proof {
                p.lemma_segment(seq![TokenKind::Comma], true);
                assert(segment(chars, toks, b, seq![TokenKind::Comma], true) == Some((text@, has_try)));
                lemma_return_values_step(chars, toks, b);
            }
            let ghost before = exprs@;
            exprs.push(Expr { text, has_try, span });
            proof {
                assert(expr_views(exprs@) =~= expr_views(before).push((text@, has_try)));
            }
            self.skip_separators();
            let ghost c = self.idx as int;
            if self.consume(TokenKind::Comma) {
                self.skip_separators();
                proof {
                    assert(return_values(chars, toks, b) == seq![(text@, has_try)] + return_values(
                        chars,
                        toks,
                        self.idx as int,
                    ));
                    assert(expr_views(exprs@) + return_values(chars, toks, self.idx as int)
                        =~= expr_views(before) + return_values(chars, toks, b));
                }
                continue;
            }
            proof {
                assert(return_values_ok(chars, toks, b0));
                assert(return_values(chars, toks, b) == seq![(text@, has_try)]);
                assert(expr_views(exprs@) =~= expr_views(before) + return_values(chars, toks, b));
                finished = true;
            }
            break;
        }
        proof {
            if !finished {
                lemma_return_values_ok_step(chars, toks, self.idx as int);
                lemma_return_values_step(chars, toks, self.idx as int);
                assert(return_values(chars, toks, self.idx as int) == Seq::<(Seq<char>, bool)>::empty());
                assert(expr_views(exprs@) + Seq::<(Seq<char>, bool)>::empty() =~= expr_views(exprs@));
            }
        }
        let end = if exprs.len() > 0 {
            exprs[exprs.len() - 1].span.end
        } else {
            start
        };
        Some(ReturnStmt { exprs, span: Span { start, end } })
    }

    /// An expression on its own line.
    fn parse_expr_stmt(&mut self) -> (r: Option<ExprStmt>)
        requires
            old(self).wf(),
        ensures
            Parser::grows(old(self), final(self)),
            r is Some ==> final(self).idx > old(self).idx,
            r matches Some(x) ==> (line_segment(
                old(self).chars@,
                raws_of(old(self).tokens@, old(self).ranges@),
                old(self).idx as int,
            ) matches Some((t, h)) ==> x.expr.text@ == t && x.expr.has_try == h),
            line_expr(
                old(self).chars@,
                raws_of(old(self).tokens@, old(self).ranges@),
                old(self).idx as int,
            ) == match r {
                Some(x) => Some((x.expr.text@, x.expr.has_try)),
                None => None::<(Seq<char>, bool)>,
            },
            line_segment(
                old(self).chars@,
                raws_of(old(self).tokens@, old(self).ranges@),
                old(self).idx as int,
            ) is Some ==> r is Some && final(self).idx == line_end(
                raws_of(old(self).tokens@, old(self).ranges@),
                old(self).idx as int,
            ) && final(self).diagnostics@ == old(self).diagnostics@,
    {
        let (text, span, has_try) = self.parse_line_text()?;
        Some(ExprStmt { expr: Expr { text, has_try, span }, span })
    }

    /// `match value { Pattern => expr-or-block, ... }`.
    #[verifier::rlimit(80)]
    #[verifier::spinoff_prover]
    fn parse_match_stmt(&mut self) -> (r: Option<MatchStmt>)
        requires
            old(self).wf(),
        ensures
            Parser::grows(old(self), final(self)),
            old(self).at_spec(TokenKind::Match) ==> final(self).idx > old(self).idx,
            r matches Some(m) ==> final(self).idx > old(self).idx && m.resolved_enum is None,
            r matches Some(m) ==> segment(
                old(self).chars@,
                raws_of(old(self).tokens@, old(self).ranges@),
                skip_seps(raws_of(old(self).tokens@, old(self).ranges@), old(self).idx + 1),
                seq![TokenKind::LBrace],
                false,
            ) == Some((m.value.text@, m.value.has_try)),
            r matches Some(m) ==> placed(
                old(self).chars@,
                raws_of(old(self).tokens@, old(self).ranges@),
                old(self).idx - 1,
                final(self).idx as int,
                seq![Stmt::Match(m)] + arms_nested(m.arms@),
            ),
        decreases old(self).remaining(), 1nat,
    {
        let ghost toks = raws_of(self.tokens@, self.ranges@);
        let ghost chars = self.chars@;
        let ghost k = self.idx as int;
        let kw = self.expect_token(TokenKind::Match, "expected `match`")?;
        let start = self.tokens[kw].span.start;
        self.skip_separators();
        let ghost p = *self;
        let stops = [TokenKind::LBrace];
        assert(stops@ =~= seq![TokenKind::LBrace]);
        let (value_text, value_span, value_try) = self.parse_text_segment(&stops, true, false)?;
        proof {
            p.lemma_segment(seq![TokenKind::LBrace], false);
        }
        self.expect(TokenKind::LBrace, "expected `{` after match value");
        self.skip_separators();
        let mut arms: Vec<MatchArm> = Vec::new();
        proof {
            lemma_placed_empty(chars, toks, k, self.idx as int);
            assert(arms_nested(arms@) =~= Seq::<Stmt>::empty());
        }
        while !self.at(TokenKind::RBrace) && !self.is_eof()
            invariant
                Parser::grows(old(self), self),
                self.idx > old(self).idx,
                toks == raws_of(old(self).tokens@, old(self).ranges@),
                chars == old(self).chars@,
                k == old(self).idx,
                placed(chars, toks, k, self.idx as int, arms_nested(arms@)),
            decreases self.remaining(),
        {
            let ghost c0 = self.idx as int;
            self.skip_separators();
            proof {
                lemma_placed_weaken(chars, toks, k, c0, k, self.idx as int, arms_nested(arms@));
            }
            if self.at(TokenKind::RBrace) {
                break;
            }
            let (pattern_text, pattern_span, _) = self.parse_text_segment(
                &[TokenKind::FatArrow],
                true,
                false,
            )?;
            self.expect(TokenKind::FatArrow, "expected `=>` in match arm");
            self.skip_separators();
            let pattern = parse_pattern(pattern_text.as_str(), pattern_span);
            let ghost c1 = self.idx as int;
            let arm_body = if self.at(TokenKind::LBrace) {
                let blk = self.parse_block()?;
                proof {
                    lemma_placed_concat(
                        chars,
                        toks,
                        k,
                        c0,
                        c1,
                        self.idx as int,
                        arms_nested(arms@),
                        flatten(blk.stmts@),
                    );
                }
                MatchArmBody::Block(blk)
            } else {
                let (expr_text, expr_span, expr_try) = self.parse_text_segment(
                    &[TokenKind::Comma],
                    true,
                    true,
                )?;
                MatchArmBody::Expr(Expr { text: expr_text, has_try: expr_try, span: expr_span })
            };
            let arm_end = match &arm_body {
                MatchArmBody::Expr(expr) => expr.span.end,
                MatchArmBody::Block(block) => block.span.end,
            };
            let arm = MatchArm {
                pattern,
                body: arm_body,
                span: Span { start: pattern_span.start, end: arm_end },
            };
            let ghost before = arms@;
            let ghost ga = arm;
            proof {
                lemma_arms_nested_push(before, ga);
                match ga.body {
                    MatchArmBody::Block(_) => {},
                    MatchArmBody::Expr(_) => {
                        lemma_placed_weaken(
                            chars,
                            toks,
                            k,
                            c0,
                            k,
                            self.idx as int,
                            arms_nested(before),
                        );
                        assert(arms_nested(before) + Seq::<Stmt>::empty() =~= arms_nested(before));
                    },
                }
            }
            arms.push(arm);
            let ghost c2 = self.idx as int;
            self.skip_separators();
            self.consume(TokenKind::Comma);
            self.skip_separators();
            proof {
                lemma_placed_weaken(chars, toks, k, c2, k, self.idx as int, arms_nested(arms@));
            }
        }
        let ghost c3 = self.idx as int;
        let rb = self.expect_token(TokenKind::RBrace, "expected `}` after match arms");
        let end = match rb {
            Some(k) => self.tokens[k].span.end,
            None => start,
        };
        let m = MatchStmt {
            value: Expr { text: value_text, has_try: value_try, span: value_span },
            arms,
            resolved_enum: None,
            span: Span { start, end },
        };
        proof {
            lemma_placed_weaken(chars, toks, k, c3, k, self.idx as int, arms_nested(m.arms@));
            assert(stmt_at(chars, toks, k, Stmt::Match(m)));
            lemma_placed_one(chars, toks, k - 1, k + 1, k, Stmt::Match(m));
            lemma_placed_concat(
                chars,
                toks,
                k - 1,
                k + 1,
                k,
                self.idx as int,
                seq![Stmt::Match(m)],
                arms_nested(m.arms@),
            );
        }
        Some(m)
    }

    /// `if cond { ... }` with optional `else { ... }` or `else if ...`.
    #[verifier::rlimit(100)]
    #[verifier::spinoff_prover]
    fn parse_if_stmt(&mut self) -> (r: Option<IfStmt>)
        requires
            old(self).wf(),
        ensures
            Parser::grows(old(self), final(self)),
            old(self).at_spec(TokenKind::If) ==> final(self).idx > old(self).idx,
            r is Some ==> final(self).idx > old(self).idx,
            r matches Some(i) ==> segment(
                old(self).chars@,
                raws_of(old(self).tokens@, old(self).ranges@),
                skip_seps(raws_of(old(self).tokens@, old(self).ranges@), old(self).idx + 1),
                seq![TokenKind::LBrace],
                false,
            ) == Some((i.condition.text@, i.condition.has_try)),
            r matches Some(i) ==> placed(
                old(self).chars@,
                raws_of(old(self).tokens@, old(self).ranges@),
                old(self).idx - 1,
                final(self).idx as int,
                seq![Stmt::If(i)] + if_nested(i),
            ),
            r is Some ==> if_head_ok(
                old(self).chars@,
                raws_of(old(self).tokens@, old(self).ranges@),
                old(self).idx as int,
            ),
        decreases old(self).remaining(), 1nat,
    {
        let ghost toks = raws_of(self.tokens@, self.ranges@);
        let ghost chars = self.chars@;
        let ghost k = self.idx as int;
        let kw = self.expect_token(TokenKind::If, "expected `if`")?;
        let start = self.tokens[kw].span.start;
        self.skip_separators();
        let ghost p = *self;
        let stops = [TokenKind::LBrace];
        assert(stops@ =~= seq![TokenKind::LBrace]);
        let (cond_text, cond_span, cond_try) = self.parse_text_segment(&stops, true, false)?;
        proof {
            p.lemma_segment(seq![TokenKind::LBrace], false);
        }
        let ghost q = self.idx as int;
        let ghost before_block = *self;
        let then_block = self.parse_block()?;
        assert(if_head_ok(chars, toks, k)) by {
            reveal(if_head_ok);
            assert(before_block.at_spec(TokenKind::LBrace));
            assert(toks[q].kind == TokenKind::LBrace);
        }
        let ghost idx1 = self.idx as int;
        self.skip_separators();
        let ghost mut rest: Seq<Stmt> = Seq::empty();
        proof {
            lemma_placed_empty(chars, toks, idx1 - 1, self.idx as int);
        }
        let else_branch = if self.consume(TokenKind::Else) {
            self.skip_separators();
            if self.at(TokenKind::If) {
                let ghost q2 = self.idx as int;
                let inner = self.parse_if_stmt()?;
                proof {
                    rest = seq![Stmt::If(inner)] + if_nested(inner);
                    lemma_placed_weaken(chars, toks, q2 - 1, self.idx as int, idx1 - 1, self.idx as int, rest);
                }
                Some(ElseBranch::If(Box::new(inner)))
            } else {
                let ghost q2 = self.idx as int;
                let eb = self.parse_block()?;
                proof {
                    rest = flatten(eb.stmts@);
                    lemma_placed_weaken(chars, toks, q2, self.idx as int, idx1 - 1, self.idx as int, rest);
                }
                Some(ElseBranch::Block(eb))
            }
        } else {
            None
        };
        let end = match &else_branch {
            Some(ElseBranch::Block(block)) => block.span.end,
            Some(ElseBranch::If(if_stmt)) => if_stmt.span.end,
            None => then_block.span.end,
        };
        let i = IfStmt {
            condition: Expr { text: cond_text, has_try: cond_try, span: cond_span },
            then_block,
            else_branch,
            span: Span { start, end },
        };
        proof {
            assert(stmt_at(chars, toks, k, Stmt::If(i)));
            lemma_placed_one(chars, toks, k - 1, k + 1, k, Stmt::If(i));
            lemma_placed_weaken(chars, toks, q, idx1, k, idx1, flatten(i.then_block.stmts@));
            lemma_placed_concat(
                chars,
                toks,
                k - 1,
                k + 1,
                k,
                idx1,
                seq![Stmt::If(i)],
                flatten(i.then_block.stmts@),
            );
            lemma_placed_concat(
                chars,
                toks,
                k - 1,
                idx1,
                idx1 - 1,
                self.idx as int,
                seq![Stmt::If(i)] + flatten(i.then_block.stmts@),
                rest,
            );
            assert(if_nested(i) == flatten(i.then_block.stmts@) + rest);
            assert(seq![Stmt::If(i)] + flatten(i.then_block.stmts@) + rest =~= seq![Stmt::If(i)]
                + if_nested(i));
        }
        Some(i)
    }

    /// A statement kept as Go text: up to the end of the line, or through its block.
    fn parse_raw_stmt(&mut self) -> (r: Option<RawStmt>)
        requires
            old(self).wf(),
        ensures
            Parser::grows(old(self), final(self)),
            r matches Some(raw) ==> {
                let e = raw_end(old(self).kinds(), old(self).idx as int, 0, false);
                &&& final(self).idx == e
                &&& e > old(self).idx
                &&& raw.text@ == trim(old(self).text_of(old(self).idx as int, e))
                &&& raw.span == old(self).span_of(old(self).idx as int, e)
            },
            r is None ==> final(self).idx == old(self).idx && raw_end(
                old(self).kinds(),
                old(self).idx as int,
                0,
                false,
            ) == old(self).idx,
    {
        let ghost ks = self.kinds();
        let start_idx = self.idx;
        let n = self.tokens.len();
        let mut i = start_idx;
        let mut depth: usize = 0;
        let mut seen = false;
        loop
            invariant_except_break
                raw_end(ks, start_idx as int, 0, false) == raw_end(ks, i as int, depth as nat, seen),
            invariant
                self.wf(),
                ks == self.kinds(),
                n == ks.len(),
                start_idx == self.idx,
                start_idx <= i <= n,
                depth <= i - start_idx,
            ensures
                start_idx <= i <= n,
                raw_end(ks, start_idx as int, 0, false) == i,
            decreases n - i,
        {
            if i >= n {
                break;
            }
            let kind = self.tokens[i].kind;
            assert(ks[i as int] == kind);
            if kind == TokenKind::LBrace {
                seen = true;
                depth = depth + 1;
            } else if kind == TokenKind::RBrace {
                if seen {
                    depth = if depth == 0 { 0 } else { depth - 1 };
                    if depth == 0 {
                        i = i + 1;
                        break;
                    }
                } else {
                    break;
                }
            } else if (kind == TokenKind::Newline || kind == TokenKind::Semi) && !seen {
                break;
            }
            i = i + 1;
        }
        if i == start_idx {
            proof {
                self.lemma_grows_refl();
            }
            return None;
        }
        let span = self.range_span(start_idx, i)?;
        let text = self.range_text(start_idx, i);
        self.idx = i;
        Some(RawStmt { text, span })
    }
}

impl Parser {
    /// `package name`, imports, then declarations; all diagnostics on failure.
    #[verifier::rlimit(100)]
    #[verifier::spinoff_prover]
    fn parse_program(&mut self) -> (r: Result<Program, Vec<Diagnostic>>)
        requires
            old(self).wf(),
            old(self).idx == 0,
            old(self).diagnostics@.len() == 0,
        ensures
            r matches Ok(p) ==> p.span == (Span { start: 0, end: old(self).src_len }),
            r matches Ok(p) ==> header_of(old(self).chars@, raws_of(old(self).tokens@, old(self).ranges@))
                == Some((p.package@, views(p.imports@))),
            r matches Ok(p) ==> exists|ks: Seq<int>|
                #[trigger] items_at(
                    old(self).chars@,
                    raws_of(old(self).tokens@, old(self).ranges@),
                    p.items@,
                    ks,
                ),
            r matches Err(d) ==> d@.len() > 0,
            header_of(old(self).chars@, raws_of(old(self).tokens@, old(self).ranges@)) is Some
                && header_only(raws_of(old(self).tokens@, old(self).ranges@)) ==> (r matches Ok(p)
                && p.items@.len() == 0),
            header_of(old(self).chars@, raws_of(old(self).tokens@, old(self).ranges@)) is Some
                && decl_items(
                old(self).chars@,
                raws_of(old(self).tokens@, old(self).ranges@),
                items_start(raws_of(old(self).tokens@, old(self).ranges@)),
            ) ==> r is Ok,
            header_of(old(self).chars@, raws_of(old(self).tokens@, old(self).ranges@)) is None
                ==> (r matches Err(d) && d@[0].message@ == (if missing_package(
                raws_of(old(self).tokens@, old(self).ranges@),
            ) {
                "expected `package` declaration"@
            } else {
                "expected package name"@
            })),
    {
        let ghost toks = raws_of(self.tokens@, self.ranges@);
        let ghost chars = self.chars@;
        self.skip_separators();
        let ghost i0 = self.idx as int;
        let ghost s0 = *self;
        let _ = self.expect(TokenKind::Package, "expected `package` declaration");
        let ghost s1 = *self;
        let name = self.parse_ident("expected package name");
        let ghost named = name is Some;
        let package_name = match name {
            Some(name) => name,
            None => str_to_string("main"),
        };
        proof {
            if self.diagnostics@.len() == 0 {
                assert(s1.diagnostics@.len() == 0);
                assert(named);
                assert(toks[i0].kind == TokenKind::Package);
                assert(toks[i0 + 1].kind == TokenKind::Ident);
                assert(package_name@ == tok_text(chars, toks[i0 + 1]));
            }
        }
        let ghost s2 = *self;
        self.skip_separators();
        let ghost j0 = self.idx as int;
        let ghost clean = header_of(chars, toks) is Some && header_only(toks);
        let ghost hdr_ok = header_of(chars, toks) is Some && !(0 <= import_run_end(toks, j0)
            < toks.len() && toks[import_run_end(toks, j0)].kind == TokenKind::Import);
        let ghost good = header_of(chars, toks) is Some && decl_items(chars, toks, items_start(toks));
        proof {
            if clean {
                lemma_skip_seps_ge(toks, import_run_end(toks, j0));
            }
            if good {
                lemma_decl_items_not_import(chars, toks, items_start(toks));
            }
            if header_of(chars, toks) is Some {
                assert(toks[i0].kind == TokenKind::Package);
                assert(toks[i0 + 1].kind == TokenKind::Ident);
                assert(s1.diagnostics@.len() == 0);
                assert(self.diagnostics@.len() == 0);
                assert(j0 == skip_seps(toks, skip_seps(toks, 0) + 2));
            }
        }
        let mut imports: Vec<String> = Vec::new();
        proof {
            assert(views(imports@) + import_run(chars, toks, j0) =~= import_run(chars, toks, j0));
        }
        while self.at(TokenKind::Import)
            invariant
                Parser::grows(old(self), self),
                toks == raws_of(old(self).tokens@, old(self).ranges@),
                chars == old(self).chars@,
                Parser::grows(&s2, self),
                self.diagnostics@.len() == 0 ==> import_run(chars, toks, j0) == views(imports@)
                    + import_run(chars, toks, self.idx as int),
                hdr_ok ==> self.diagnostics@.len() == 0 && import_run_end(toks, self.idx as int)
                    == import_run_end(toks, j0),
                hdr_ok == (header_of(chars, toks) is Some && !(0 <= import_run_end(toks, j0)
                    < toks.len() && toks[import_run_end(toks, j0)].kind == TokenKind::Import)),
                header_of(chars, toks) is Some ==> j0 == skip_seps(toks, skip_seps(toks, 0) + 2),
            decreases self.remaining(),
        {
            let ghost b0 = *self;
            proof {
                if hdr_ok {
                    lemma_skip_seps_ge(toks, import_run_end(toks, j0));
                    if !(b0.idx + 1 < toks.len() && toks[b0.idx + 1].kind == TokenKind::StringLit) {
                        assert(import_run_end(toks, b0.idx as int) == b0.idx);
                        assert(skip_seps(toks, b0.idx as int) == b0.idx);
                    }
                }
            }
            let ghost before = imports@;
            let got = self.parse_import_decl();
            let ghost g = got;
            match got {
                Some(path) => imports.push(path),
                None => {},
            }
            let ghost b1 = *self;
            self.skip_separators();
            proof {
                if self.diagnostics@.len() == 0 {
                    assert(b1.diagnostics@.len() == 0);
                    let path = g->0;
                    assert(g is Some);
                    assert(b1.idx == b0.idx + 2);
                    assert(toks[b0.idx + 1].kind == TokenKind::StringLit);
                    assert(path@ == trim_char(tok_text(chars, toks[b0.idx + 1]), '"'));
                    assert(imports@ == before.push(path));
                    assert(views(imports@) =~= views(before).push(path@));
                    assert(import_run(chars, toks, b0.idx as int) == seq![path@] + import_run(
                        chars,
                        toks,
                        self.idx as int,
                    ));
                    assert(views(imports@) + import_run(chars, toks, self.idx as int) =~= views(
                        before,
                    ) + import_run(chars, toks, b0.idx as int));
                }
            }
        }
        let ghost mid = *self;
        proof {
            if hdr_ok {
                assert(import_run_end(toks, self.idx as int) == self.idx);
            }
            if good {
                assert(hdr_ok);
                assert(self.idx == items_start(toks));
                assert(self.diagnostics@.len() == 0);
            }
            if clean {
                assert(skip_seps(toks, self.idx as int) >= toks.len());
            }
            assert(import_run(chars, toks, self.idx as int) =~= Seq::<Seq<char>>::empty());
            if self.diagnostics@.len() == 0 {
                assert(views(imports@) + Seq::<Seq<char>>::empty() =~= views(imports@));
            }
        }
        let mut items: Vec<Item> = Vec::new();
        let ghost mut ks: Seq<int> = Seq::empty();
        while !self.is_eof()
            invariant
                Parser::grows(old(self), self),
                toks == raws_of(old(self).tokens@, old(self).ranges@),
                chars == old(self).chars@,
                Parser::grows(&mid, self),
                clean ==> self.diagnostics@.len() == 0 && items@.len() == 0 && skip_seps(
                    toks,
                    self.idx as int,
                ) >= toks.len(),
                items_at(chars, toks, items@, ks),
                forall|j: int| 0 <= j < ks.len() ==> #[trigger] ks[j] < self.idx,
                good ==> self.diagnostics@.len() == 0 && decl_items(chars, toks, self.idx as int),
                good == (header_of(chars, toks) is Some && decl_items(chars, toks, items_start(toks))),
            decreases self.remaining(),
        {
            let ghost top = self.idx as int;
            self.skip_separators();
            proof {
                if good {
                    lemma_decl_items_skip(chars, toks, top);
                    lemma_decl_items_next(chars, toks, top);
                }
            }
            if self.is_eof() {
                break;
            }
            let ghost s0 = *self;
            let annotations = self.parse_annotations();
            self.skip_separators();
            let ghost k = self.idx as int;
            proof {
                if good {
                    assert(self.diagnostics@.len() == 0);
                    if toks[s0.idx as int].kind == TokenKind::Struct {
                        assert(annotations@.len() == 0);
                        assert(k == s0.idx);
                        assert(self.at_spec(TokenKind::Struct));
                    } else {
                        let kk = decorators_end(chars, toks, s0.idx as int)->0;
                        assert(k == kk);
                        assert(self.at_spec(TokenKind::Fn));
                        assert(fn_end(chars, toks, kk) is Some);
                    }
                }
            }
            let ghost sk = *self;
            let ghost mut impl_got: Option<ImplBlock> = None;
            let item = if self.at(TokenKind::Fn) {
                match self.parse_fn_decl(annotations) {
                    Some(f) => Some(Item::Function(f)),
                    None => None,
                }
            } else if self.at(TokenKind::Struct) {
                match self.parse_struct_decl(annotations) {
                    Some(d) => Some(Item::Struct(d)),
                    None => None,
                }
            } else if self.at(TokenKind::Enum) {
                match self.parse_enum_decl(annotations) {
                    Some(d) => Some(Item::Enum(d)),
                    None => None,
                }
            } else if self.at(TokenKind::Impl) {
                let mut k: usize = 0;
                while k < annotations.len()
                    invariant
                        Parser::grows(&s0, self),
                        self.at_spec(TokenKind::Impl),
                        self.idx == sk.idx,
                    decreases annotations@.len() - k,
                {
                    let d = Diagnostic::new(
                        str_to_string("decorators are not supported on `impl` blocks"),
                        Some(annotations[k].span),
                    ).with_hint(str_to_string("attach decorators on methods instead"));
                    self.push_diagnostic(d);
                    k = k + 1;
                }
                let got = self.parse_impl_block();
                let ghost gg = got;
                proof {
                    impl_got = gg;
                    if let Some(b) = gg {
                        let at = sk.idx as int;
                        let ps = choose|ps: Seq<int>|
                            #[trigger] methods_at(chars, toks, at, b.methods@, ps);
                        assert(methods_at(chars, toks, at, b.methods@, ps));
                    }
                }
                match got {
                    Some(d) => Some(Item::Impl(d)),
                    None => None,
                }
            } else {
                let span = self.current_span();
                self.push_diag("expected top-level declaration", span);
                // past the end of input there is nothing left to skip
                if !self.is_eof() {
                    self.idx = self.idx + 1;
                }
                None
            };
            let ghost it = item;
            proof {
                if good {
                    assert(it is Some);
                    assert(self.diagnostics@.len() == 0);
                    assert(decl_items(chars, toks, self.idx as int));
                }
                if it is Some {
                    if let Item::Impl(b) = it->0 {
                        assert(impl_got == Some(b));
                        let ps = choose|ps: Seq<int>|
                            #[trigger] methods_at(chars, toks, k, b.methods@, ps);
                        assert(methods_at(chars, toks, k, b.methods@, ps));
                    }
                    assert(item_at(chars, toks, k, it->0));
                    assert(k < self.idx);
                }
                assert(sk.idx <= self.idx);
            }
            match item {
                Some(item) => {
                    items.push(item);
                    proof {
                        let ks0 = ks;
                        ks = ks.push(k);
                        assert forall|j: int| 0 <= j < ks.len() implies item_at(
                            chars,
                            toks,
                            #[trigger] ks[j],
                            items@[j],
                        ) by {
                            if j < ks0.len() {
                                assert(ks[j] == ks0[j]);
                            }
                        }
                        assert forall|a: int, b: int| 0 <= a < b < ks.len() implies #[trigger] ks[a]
                            < #[trigger] ks[b] by {
                            assert(ks0[a] < sk.idx);
                            if b < ks0.len() {
                                assert(ks[b] == ks0[b]);
                            }
                        }
                    }
                },
                None => self.synchronize_top_level(),
            }
            let ghost e = self.idx as int;
            self.skip_separators();
            proof {
                if good {
                    lemma_decl_items_skip(chars, toks, e);
                }
            }
        }
        if self.diagnostics.len() == 0 {
            let p = Program {
                package: package_name,
                imports,
                items,
                span: Span { start: 0, end: self.src_len },
            };
            proof {
                assert(items_at(chars, toks, p.items@, ks));
            }
            let ghost pp = p;
            let r: Result<Program, Vec<Diagnostic>> = Ok(p);
            assert(r matches Ok(q) && q == pp);
            r
        } else {
            proof {
                Parser::lemma_grows_trans(&s2, &mid, self);
                if header_of(chars, toks) is None {
                    if missing_package(toks) {
                        assert(s1.diagnostics@.len() == 1);
                        assert(s1.diagnostics@[0].message@ == "expected `package` declaration"@);
                    } else {
                        assert(toks[i0].kind == TokenKind::Package);
                        assert(s1.diagnostics@.len() == 0);
                        assert(!named);
                        assert(s2.diagnostics@[0].message@ == "expected package name"@);
                    }
                    assert(self.diagnostics@[0] == s2.diagnostics@[0]);
                }
            }
            let mut taken: Vec<Diagnostic> = Vec::new();
            std::mem::swap(&mut taken, &mut self.diagnostics);
            Err(taken)
        }
    }
}

/// The program in `source`, or the lexer's or the parser's diagnostics. A program that
/// parses has the package name and imports of its header, and its items stand in their
/// order at their keywords, with the names that follow them; a file without a package
/// clause is refused, and one whose header is followed by nothing but declarations of
/// `item_end` (structs whose fields are a name, `:` and a type; functions without
/// parameters, after decorators, whose body holds expression lines, variable declarations
/// and single-value returns) parses.
pub fn parse_program(source: &str) -> (r: Result<Program, Vec<Diagnostic>>)
    requires
        byte_len(source@) <= usize::MAX,
    ensures
        lex_from(source@, 0).1.len() > 0 ==> (r matches Err(d) && crate::lexer::lex_err(source@, d@)),
        r matches Ok(p) ==> p.span == (Span { start: 0, end: byte_len(source@) as usize }),
        r matches Ok(p) ==> program_header(source@) == Some((p.package@, views(p.imports@))),
        r matches Ok(p) ==> exists|ks: Seq<int>|
            #[trigger] items_at(source@, lex_from(source@, 0).0, p.items@, ks),
        r matches Err(d) ==> d@.len() > 0,
        lex_from(source@, 0).1.len() == 0 && program_header(source@) is Some && header_only(
            lex_from(source@, 0).0,
        ) ==> (r matches Ok(p) && p.items@.len() == 0),
        lex_from(source@, 0).1.len() == 0 && program_header(source@) is Some && decl_items(
            source@,
            lex_from(source@, 0).0,
            items_start(lex_from(source@, 0).0),
        ) ==> r is Ok,
        lex_from(source@, 0).1.len() == 0 && program_header(source@) is None ==> (r matches Err(
            d,
        ) && d@[0].message@ == (if missing_package(lex_from(source@, 0).0) {
            "expected `package` declaration"@
        } else {
            "expected package name"@
        })),
{
    let chars = to_chars(source);
    let (lexed, ranges) = lex_chars(&chars);
    let tokens = match lexed {
        Ok(t) => t,
        Err(d) => {
            return Err(d);
        },
    };
    proof {
        lemma_lex_from_ordered(chars@, 0);
    }
    let ghost s = chars@;
    let mut parser = Parser::new(chars, tokens, ranges);
    proof {
        let lexed = lex_from(s, 0).0;
        assert(raws_of(parser.tokens@, parser.ranges@) =~= lexed) by {
            assert forall|k: int| 0 <= k < lexed.len() implies raws_of(
                parser.tokens@,
                parser.ranges@,
            )[k] == lexed[k] by {
                assert(parser.tokens@[k] == crate::lexer::token_of(s, lexed[k]));
            }
        }
    }
    parser.parse_program()
}

fn byte_length_of(v: &Vec<char>) -> (n: usize)
    requires
        byte_len(v@) <= usize::MAX,
    ensures
        n == byte_len(v@),
{
    let mut i: usize = 0;
    let mut n: usize = 0;
    assert(v@.take(0) =~= Seq::<char>::empty());
    while i < v.len()
        invariant
            0 <= i <= v@.len(),
            n == byte_len(v@.take(i as int)),
            byte_len(v@) <= usize::MAX,
        decreases v@.len() - i,
    {
        proof {
            crate::text::lemma_byte_len_take(v@, i as int);
            crate::text::lemma_byte_len_mono(v@, i + 1, v@.len() as int);
            assert(v@.take(v@.len() as int) =~= v@);
        }
        n = n + crate::text::char_width(v[i]);
        i = i + 1;
    }
    assert(v@.take(v@.len() as int) =~= v@);
    n
}

} // verus!
