//! The GoPlus lexer: source text to tokens with byte spans.
//!
//! At every position the longest token wins; exact keywords and symbols win
//! over identifiers of the same length. Blanks (`[ \t\r\f]+`) and line
//! comments (`//` up to the end of the line) are skipped.
use vstd::prelude::*;

use crate::ast::Span;
use crate::diag::Diagnostic;
use crate::text::{byte_len, char_width, lemma_byte_len_take, string_of, to_chars};

verus! {

#[derive(Debug, Clone, Copy, PartialEq, Eq, Structural)]
pub enum TokenKind {
    Newline,
    Package,
    Import,
    Fn,
    Struct,
    Enum,
    Impl,
    Match,
    Return,
    If,
    Else,
    For,
    Mut,
    SelfKw,
    TypeKw,
    Arrow,
    FatArrow,
    DoubleColon,
    ColonEq,
    At,
    Bang,
    Question,
    Colon,
    Semi,
    Comma,
    Dot,
    Eq,
    LParen,
    RParen,
    LBrace,
    RBrace,
    LBracket,
    RBracket,
    Lt,
    Gt,
    Plus,
    Minus,
    Star,
    Slash,
    Percent,
    Amp,
    Pipe,
    StringLit,
    IntLit,
    Ident,
}

#[derive(Debug, Clone, PartialEq, Eq)]
pub struct Token {
    pub kind: TokenKind,
    pub span: Span,
}

impl Token {
    pub fn copy(&self) -> (r: Token)
        ensures
            r == *self,
    {
        Token { kind: self.kind, span: self.span }
    }
}

/// What the lexer finds at one position: something to skip, a token, or
/// text that starts no token; each with its length in chars.
pub enum Piece {
    Skip(nat),
    Tok(TokenKind, nat),
    Bad(nat),
}

pub open spec fn is_blank(c: char) -> bool {
    c == ' ' || c == '\t' || c == '\r' || c == '\x0c'
}

pub open spec fn is_digit(c: char) -> bool {
    '0' <= c && c <= '9'
}

pub open spec fn is_alpha(c: char) -> bool {
    ('a' <= c && c <= 'z') || ('A' <= c && c <= 'Z')
}

pub open spec fn is_ident_start(c: char) -> bool {
    is_alpha(c) || c == '_'
}

pub open spec fn is_ident_char(c: char) -> bool {
    is_alpha(c) || is_digit(c) || c == '_'
}

pub open spec fn is_int_char(c: char) -> bool {
    is_digit(c) || c == '_'
}

/// The char class used by a run: blanks (0), digits and `_` (1),
/// identifier chars (2), anything but a newline (3).
pub open spec fn in_class(which: u8, c: char) -> bool {
    if which == 0 {
        is_blank(c)
    } else if which == 1 {
        is_int_char(c)
    } else if which == 2 {
        is_ident_char(c)
    } else {
        c != '\n'
    }
}

/// Length of the run of chars of class `which` from `i`.
pub open spec fn run_len(s: Seq<char>, i: nat, which: u8) -> nat
    decreases s.len() - i,
{
    if i < s.len() && in_class(which, s[i as int]) {
        1 + run_len(s, i + 1, which)
    } else {
        0
    }
}

/// Length of a comment from `i` (which holds `//`) up to, not including, the newline.
pub open spec fn comment_len(s: Seq<char>, i: nat) -> nat {
    run_len(s, i, 3)
}

/// The string literal starting with the quote at `i`: `Tok` through the closing
/// quote, or `Bad` up to the point where no string can continue.
pub open spec fn string_piece(s: Seq<char>, i: nat, j: nat) -> Piece
    decreases s.len() - j,
{
    if j >= s.len() {
        Piece::Bad((s.len() - i) as nat)
    } else if s[j as int] == '"' {
        Piece::Tok(TokenKind::StringLit, (j + 1 - i) as nat)
    } else if s[j as int] == '\\' {
        if j + 1 < s.len() && s[j as int + 1] != '\n' {
            string_piece(s, i, j + 2)
        } else {
            Piece::Bad((j + 1 - i) as nat)
        }
    } else {
        string_piece(s, i, j + 1)
    }
}

/// The keyword spelled by `w`, or `Ident`.
pub open spec fn keyword_kind(w: Seq<char>) -> TokenKind {
    if w == "package"@ {
        TokenKind::Package
    } else if w == "import"@ {
        TokenKind::Import
    } else if w == "fn"@ {
        TokenKind::Fn
    } else if w == "struct"@ {
        TokenKind::Struct
    } else if w == "enum"@ {
        TokenKind::Enum
    } else if w == "impl"@ {
        TokenKind::Impl
    } else if w == "match"@ {
        TokenKind::Match
    } else if w == "return"@ {
        TokenKind::Return
    } else if w == "if"@ {
        TokenKind::If
    } else if w == "else"@ {
        TokenKind::Else
    } else if w == "for"@ {
        TokenKind::For
    } else if w == "mut"@ {
        TokenKind::Mut
    } else if w == "self"@ {
        TokenKind::SelfKw
    } else if w == "type"@ {
        TokenKind::TypeKw
    } else {
        TokenKind::Ident
    }
}

/// The single-char symbol `c`, if it is one.
pub open spec fn symbol_kind(c: char) -> Option<TokenKind> {
    if c == '\n' {
        Some(TokenKind::Newline)
    } else if c == '@' {
        Some(TokenKind::At)
    } else if c == '!' {
        Some(TokenKind::Bang)
    } else if c == '?' {
        Some(TokenKind::Question)
    } else if c == ':' {
        Some(TokenKind::Colon)
    } else if c == ';' {
        Some(TokenKind::Semi)
    } else if c == ',' {
        Some(TokenKind::Comma)
    } else if c == '.' {
        Some(TokenKind::Dot)
    } else if c == '=' {
        Some(TokenKind::Eq)
    } else if c == '(' {
        Some(TokenKind::LParen)
    } else if c == ')' {
        Some(TokenKind::RParen)
    } else if c == '{' {
        Some(TokenKind::LBrace)
    } else if c == '}' {
        Some(TokenKind::RBrace)
    } else if c == '[' {
        Some(TokenKind::LBracket)
    } else if c == ']' {
        Some(TokenKind::RBracket)
    } else if c == '<' {
        Some(TokenKind::Lt)
    } else if c == '>' {
        Some(TokenKind::Gt)
    } else if c == '+' {
        Some(TokenKind::Plus)
    } else if c == '-' {
        Some(TokenKind::Minus)
    } else if c == '*' {
        Some(TokenKind::Star)
    } else if c == '/' {
        Some(TokenKind::Slash)
    } else if c == '%' {
        Some(TokenKind::Percent)
    } else if c == '&' {
        Some(TokenKind::Amp)
    } else if c == '|' {
        Some(TokenKind::Pipe)
    } else {
        None
    }
}

/// The two-char symbol `a b`, if it is one.
pub open spec fn pair_kind(a: char, b: char) -> Option<TokenKind> {
    if a == '-' && b == '>' {
        Some(TokenKind::Arrow)
    } else if a == '=' && b == '>' {
        Some(TokenKind::FatArrow)
    } else if a == ':' && b == ':' {
        Some(TokenKind::DoubleColon)
    } else if a == ':' && b == '=' {
        Some(TokenKind::ColonEq)
    } else {
        None
    }
}

/// The longest match at position `i < s.len()`.
pub open spec fn piece_at(s: Seq<char>, i: nat) -> Piece {
    let c = s[i as int];
    if is_blank(c) {
        Piece::Skip(run_len(s, i, 0))
    } else if c == '/' && i + 1 < s.len() && s[i as int + 1] == '/' {
        Piece::Skip(comment_len(s, i))
    } else if c == '"' {
        string_piece(s, i, i + 1)
    } else if is_digit(c) {
        Piece::Tok(TokenKind::IntLit, run_len(s, i, 1))
    } else if is_ident_start(c) {
        let n = run_len(s, i, 2);
        Piece::Tok(keyword_kind(s.subrange(i as int, i as int + n)), n)
    } else if i + 1 < s.len() && pair_kind(c, s[i as int + 1]) is Some {
        Piece::Tok(pair_kind(c, s[i as int + 1])->0, 2)
    } else if symbol_kind(c) is Some {
        Piece::Tok(symbol_kind(c)->0, 1)
    } else {
        Piece::Bad(1)
    }
}

/// A token by its kind and its char range.
pub struct RawTok {
    pub kind: TokenKind,
    pub start: nat,
    pub end: nat,
}

/// Tokens and bad ranges found from position `i` on.
pub open spec fn lex_from(s: Seq<char>, i: nat) -> (Seq<RawTok>, Seq<(nat, nat)>)
    decreases s.len() - i,
{
    if i >= s.len() {
        (Seq::empty(), Seq::empty())
    } else {
        let p = piece_at(s, i);
        let n = match p {
            Piece::Skip(n) => n,
            Piece::Tok(_, n) => n,
            Piece::Bad(n) => n,
        };
        if n == 0 || i + n > s.len() {
            // never happens: every piece is at least one char long and within `s`
            (Seq::empty(), Seq::empty())
        } else {
            let (toks, bads) = lex_from(s, i + n);
            match p {
                Piece::Skip(_) => (toks, bads),
                Piece::Tok(k, _) => (seq![RawTok { kind: k, start: i, end: i + n }] + toks, bads),
                Piece::Bad(_) => (toks, seq![(i, i + n)] + bads),
            }
        }
    }
}

/// The byte offset at which char `i` of `s` starts.
pub open spec fn byte_at(s: Seq<char>, i: nat) -> nat {
    byte_len(s.take(i as int))
}

/// A lexed token with its byte span.
pub open spec fn token_of(s: Seq<char>, t: RawTok) -> Token {
    Token { kind: t.kind, span: Span { start: byte_at(s, t.start) as usize, end: byte_at(s, t.end) as usize } }
}

/// What `lex` returns: the tokens when no text is bad; else one diagnostic per bad range.
pub open spec fn lex_ok(s: Seq<char>, tokens: Seq<Token>) -> bool {
    let (toks, bads) = lex_from(s, 0);
    bads.len() == 0 && tokens.len() == toks.len() && forall|k: int|
        0 <= k < toks.len() ==> tokens[k] == token_of(s, #[trigger] toks[k])
}

pub open spec fn lex_err(s: Seq<char>, diags: Seq<Diagnostic>) -> bool {
    let (toks, bads) = lex_from(s, 0);
    bads.len() > 0 && diags.len() == bads.len() && forall|k: int|
        0 <= k < bads.len() ==> {
            let (a, b) = #[trigger] bads[k];
            &&& diags[k].message@ == "invalid token `"@ + s.subrange(a as int, b as int) + "`"@
            &&& diags[k].span == Some(Span { start: byte_at(s, a) as usize, end: byte_at(s, b) as usize })
            &&& diags[k].code@ == "E0000"@
            &&& diags[k].hint is None
            &&& diags[k].severity == crate::diag::DiagnosticSeverity::Error
        }
}

fn is_blank_char(c: char) -> (r: bool)
    ensures
        r == is_blank(c),
{
    c == ' ' || c == '\t' || c == '\r' || c == '\x0c'
}

fn is_digit_char(c: char) -> (r: bool)
    ensures
        r == is_digit(c),
{
    '0' <= c && c <= '9'
}

pub fn is_alpha_char(c: char) -> (r: bool)
    ensures
        r == is_alpha(c),
{
    ('a' <= c && c <= 'z') || ('A' <= c && c <= 'Z')
}

/// `[A-Za-z0-9_]`.
pub fn is_ident_char_exec(c: char) -> (r: bool)
    ensures
        r == is_ident_char(c),
{
    is_alpha_char(c) || is_digit_char(c) || c == '_'
}

proof fn lemma_run_len_from(s: Seq<char>, i: nat, j: nat, which: u8)
    requires
        i <= j <= s.len(),
        forall|k: int| i <= k < j ==> in_class(which, s[k]),
    ensures
        run_len(s, i, which) == (j - i) + run_len(s, j, which),
    decreases j - i,
{
    if i < j {
        lemma_run_len_from(s, i + 1, j, which);
    }
}

fn in_class_exec(which: u8, c: char) -> (r: bool)
    ensures
        r == in_class(which, c),
{
    if which == 0 {
        is_blank_char(c)
    } else if which == 1 {
        is_digit_char(c) || c == '_'
    } else if which == 2 {
        is_ident_char_exec(c)
    } else {
        c != '\n'
    }
}

/// Length of the run of chars of class `which` from `i`.
fn run_exec(v: &Vec<char>, i: usize, which: u8) -> (n: usize)
    requires
        i <= v@.len(),
    ensures
        n == run_len(v@, i as nat, which),
        i + n <= v@.len(),
{
    let mut j = i;
    while j < v.len() && in_class_exec(which, v[j])
        invariant
            i <= j <= v@.len(),
            forall|k: int| i <= k < j ==> in_class(which, v@[k]),
        decreases v@.len() - j,
    {
        j = j + 1;
    }
    proof {
        lemma_run_len_from(v@, i as nat, j as nat, which);
    }
    j - i
}

fn keyword_exec(v: &Vec<char>, a: usize, b: usize) -> (k: TokenKind)
    requires
        a <= b <= v@.len(),
    ensures
        k == keyword_kind(v@.subrange(a as int, b as int)),
{
    let w = string_of(v, a, b);
    let ws = w.as_str();
    if crate::text::str_eq(ws, "package") {
        TokenKind::Package
    } else if crate::text::str_eq(ws, "import") {
        TokenKind::Import
    } else if crate::text::str_eq(ws, "fn") {
        TokenKind::Fn
    } else if crate::text::str_eq(ws, "struct") {
        TokenKind::Struct
    } else if crate::text::str_eq(ws, "enum") {
        TokenKind::Enum
    } else if crate::text::str_eq(ws, "impl") {
        TokenKind::Impl
    } else if crate::text::str_eq(ws, "match") {
        TokenKind::Match
    } else if crate::text::str_eq(ws, "return") {
        TokenKind::Return
    } else if crate::text::str_eq(ws, "if") {
        TokenKind::If
    } else if crate::text::str_eq(ws, "else") {
        TokenKind::Else
    } else if crate::text::str_eq(ws, "for") {
        TokenKind::For
    } else if crate::text::str_eq(ws, "mut") {
        TokenKind::Mut
    } else if crate::text::str_eq(ws, "self") {
        TokenKind::SelfKw
    } else if crate::text::str_eq(ws, "type") {
        TokenKind::TypeKw
    } else {
        TokenKind::Ident
    }
}

fn symbol_exec(c: char) -> (k: Option<TokenKind>)
    ensures
        k == symbol_kind(c),
{
    if c == '\n' {
        Some(TokenKind::Newline)
    } else if c == '@' {
        Some(TokenKind::At)
    } else if c == '!' {
        Some(TokenKind::Bang)
    } else if c == '?' {
        Some(TokenKind::Question)
    } else if c == ':' {
        Some(TokenKind::Colon)
    } else if c == ';' {
        Some(TokenKind::Semi)
    } else if c == ',' {
        Some(TokenKind::Comma)
    } else if c == '.' {
        Some(TokenKind::Dot)
    } else if c == '=' {
        Some(TokenKind::Eq)
    } else if c == '(' {
        Some(TokenKind::LParen)
    } else if c == ')' {
        Some(TokenKind::RParen)
    } else if c == '{' {
        Some(TokenKind::LBrace)
    } else if c == '}' {
        Some(TokenKind::RBrace)
    } else if c == '[' {
        Some(TokenKind::LBracket)
    } else if c == ']' {
        Some(TokenKind::RBracket)
    } else if c == '<' {
        Some(TokenKind::Lt)
    } else if c == '>' {
        Some(TokenKind::Gt)
    } else if c == '+' {
        Some(TokenKind::Plus)
    } else if c == '-' {
        Some(TokenKind::Minus)
    } else if c == '*' {
        Some(TokenKind::Star)
    } else if c == '/' {
        Some(TokenKind::Slash)
    } else if c == '%' {
        Some(TokenKind::Percent)
    } else if c == '&' {
        Some(TokenKind::Amp)
    } else if c == '|' {
        Some(TokenKind::Pipe)
    } else {
        None
    }
}

fn pair_exec(a: char, b: char) -> (k: Option<TokenKind>)
    ensures
        k == pair_kind(a, b),
{
    if a == '-' && b == '>' {
        Some(TokenKind::Arrow)
    } else if a == '=' && b == '>' {
        Some(TokenKind::FatArrow)
    } else if a == ':' && b == ':' {
        Some(TokenKind::DoubleColon)
    } else if a == ':' && b == '=' {
        Some(TokenKind::ColonEq)
    } else {
        None
    }
}

/// Scans a string literal whose opening quote is at `i`.
fn string_exec(v: &Vec<char>, i: usize) -> (r: (bool, usize))
    requires
        i < v@.len(),
    ensures
        r.0 ==> string_piece(v@, i as nat, i as nat + 1) == Piece::Tok(TokenKind::StringLit, r.1 as nat),
        !r.0 ==> string_piece(v@, i as nat, i as nat + 1) == Piece::Bad(r.1 as nat),
        1 <= r.1,
        i + r.1 <= v@.len(),
{
    let len = v.len();
    let mut j = i + 1;
    while j < len
        invariant
            len == v@.len(),
            i < j <= v@.len() + 1,
            string_piece(v@, i as nat, i as nat + 1) == string_piece(v@, i as nat, j as nat),
        decreases v@.len() + 1 - j,
    {
        let c = v[j];
        if c == '"' {
            return (true, j + 1 - i);
        } else if c == '\\' {
            if j + 1 < len && v[j + 1] != '\n' {
                j = j + 2;
            } else {
                return (false, j + 1 - i);
            }
        } else {
            j = j + 1;
        }
    }
    (false, v.len() - i)
}

/// The piece at position `i`, as (class, kind, length) with class 0 skip, 1 token, 2 bad.
fn piece_exec(v: &Vec<char>, i: usize) -> (r: (u8, TokenKind, usize))
    requires
        i < v@.len(),
    ensures
        r.0 == 0 ==> piece_at(v@, i as nat) == Piece::Skip(r.2 as nat),
        r.0 == 1 ==> piece_at(v@, i as nat) == Piece::Tok(r.1, r.2 as nat),
        r.0 == 2 ==> piece_at(v@, i as nat) == Piece::Bad(r.2 as nat),
        r.0 <= 2,
        1 <= r.2,
        i + r.2 <= v@.len(),
{
    let len = v.len();
    let c = v[i];
    if is_blank_char(c) {
        let n = run_exec(v, i, 0);
        proof {
            lemma_run_len_from(v@, i as nat, i as nat + 1, 0);
        }
        (0, TokenKind::Newline, n)
    } else if c == '/' && i + 1 < len && v[i + 1] == '/' {
        let n = run_exec(v, i, 3);
        proof {
            lemma_run_len_from(v@, i as nat, i as nat + 1, 3);
        }
        (0, TokenKind::Newline, n)
    } else if c == '"' {
        let (ok, n) = string_exec(v, i);
        if ok {
            (1, TokenKind::StringLit, n)
        } else {
            (2, TokenKind::Newline, n)
        }
    } else if is_digit_char(c) {
        let n = run_exec(v, i, 1);
        proof {
            lemma_run_len_from(v@, i as nat, i as nat + 1, 1);
        }
        (1, TokenKind::IntLit, n)
    } else if is_alpha_char(c) || c == '_' {
        let n = run_exec(v, i, 2);
        proof {
            lemma_run_len_from(v@, i as nat, i as nat + 1, 2);
        }
        let k = keyword_exec(v, i, i + n);
        (1, k, n)
    } else {
        let pk = if i + 1 < len {
            pair_exec(c, v[i + 1])
        } else {
            None
        };
        match pk {
            Some(k) => (1, k, 2),
            None => match symbol_exec(c) {
                Some(k) => (1, k, 1),
                None => (2, TokenKind::Newline, 1),
            },
        }
    }
}

/// Splits `source` into tokens; any text that starts no token is reported.
pub fn lex(source: &str) -> (r: Result<Vec<Token>, Vec<Diagnostic>>)
    requires
        byte_len(source@) <= usize::MAX,
    ensures
        r matches Ok(tokens) ==> lex_ok(source@, tokens@),
        r matches Err(diags) ==> lex_err(source@, diags@),
{
    let v = to_chars(source);
    let (toks, _) = lex_chars(&v);
    toks
}

proof fn lemma_byte_at_bound(s: Seq<char>, j: nat)
    requires
        j < s.len(),
    ensures
        byte_at(s, j) + crate::text::utf8_width(s[j as int]) <= byte_len(s),
{
    lemma_byte_len_take(s, j as int);
    crate::text::lemma_byte_len_mono(s, (j + 1) as int, s.len() as int);
    assert(s.take(s.len() as int) =~= s);
}

/// Advances the byte offset of char `i` by `n` chars.
fn advance_bytes(v: &Vec<char>, i: usize, b: usize, n: usize) -> (r: usize)
    requires
        i + n <= v@.len(),
        b == byte_at(v@, i as nat),
        byte_len(v@) <= usize::MAX,
    ensures
        r == byte_at(v@, (i + n) as nat),
{
    let mut k: usize = 0;
    let mut cur = b;
    let len = v.len();
    while k < n
        invariant
            len == v@.len(),
            i + n <= v@.len(),
            0 <= k <= n,
            cur == byte_at(v@, (i + k) as nat),
            byte_len(v@) <= usize::MAX,
        decreases n - k,
    {
        proof {
            lemma_byte_at_bound(v@, (i + k) as nat);
            lemma_byte_len_take(v@, (i + k) as int);
        }
        let w = char_width(v[i + k]);
        assert(cur + w <= byte_len(v@));
        cur = cur + w;
        k = k + 1;
    }
    cur
}

/// The diagnostic for the bad range `(a, e)` of `s`.
pub open spec fn bad_diag_ok(s: Seq<char>, r: (nat, nat), d: Diagnostic) -> bool {
    let (a, e) = r;
    &&& d.message@ == "invalid token `"@ + s.subrange(a as int, e as int) + "`"@
    &&& d.span == Some(Span { start: byte_at(s, a) as usize, end: byte_at(s, e) as usize })
    &&& d.code@ == "E0000"@
    &&& d.hint is None
    &&& d.severity == crate::diag::DiagnosticSeverity::Error
}

/// Lexes a char vector; also returns the char range of each token.
pub fn lex_chars(v: &Vec<char>) -> (r: (Result<Vec<Token>, Vec<Diagnostic>>, Vec<(usize, usize)>))
    requires
        byte_len(v@) <= usize::MAX,
    ensures
        r.0 matches Ok(tokens) ==> lex_ok(v@, tokens@) && r.1@.len() == tokens@.len() && forall|k: int|
            0 <= k < r.1@.len() ==> (#[trigger] r.1@[k]).0 == lex_from(v@, 0).0[k].start
                && r.1@[k].1 == lex_from(v@, 0).0[k].end,
        r.0 matches Err(diags) ==> lex_err(v@, diags@),
{
    let mut tokens: Vec<Token> = Vec::new();
    let mut ranges: Vec<(usize, usize)> = Vec::new();
    let mut diags: Vec<Diagnostic> = Vec::new();
    let mut i: usize = 0;
    let mut b: usize = 0;
    let ghost s = v@;
    let ghost mut rt: Seq<RawTok> = Seq::empty();
    let ghost mut rb: Seq<(nat, nat)> = Seq::empty();
    assert(s.take(0) =~= Seq::<char>::empty());
    assert(lex_from(s, 0).0 =~= rt + lex_from(s, 0).0);
    assert(lex_from(s, 0).1 =~= rb + lex_from(s, 0).1);
    while i < v.len()
        invariant
            s == v@,
            0 <= i <= s.len(),
            b == byte_at(s, i as nat),
            byte_len(s) <= usize::MAX,
            lex_from(s, 0).0 == rt + lex_from(s, i as nat).0,
            lex_from(s, 0).1 == rb + lex_from(s, i as nat).1,
            tokens@.len() == rt.len(),
            ranges@.len() == rt.len(),
            diags@.len() == rb.len(),
            forall|k: int| 0 <= k < rt.len() ==> tokens@[k] == token_of(s, #[trigger] rt[k]),
            forall|k: int| 0 <= k < rt.len() ==> (#[trigger] ranges@[k]).0 == rt[k].start && ranges@[k].1 == rt[k].end,
            forall|k: int| 0 <= k < rb.len() ==> bad_diag_ok(s, #[trigger] rb[k], diags@[k]),
        decreases s.len() - i,
    {
        let (class, kind, n) = piece_exec(v, i);
        let nb = advance_bytes(v, i, b, n);
        let ghost (ti, bi) = lex_from(s, i as nat);
        let ghost (tn, bn) = lex_from(s, (i + n) as nat);
        if class == 1 {
            let ghost t = RawTok { kind: kind, start: i as nat, end: (i + n) as nat };
            assert(ti == seq![t] + tn);
            assert(bi == bn);
            tokens.push(Token { kind, span: Span { start: b, end: nb } });
            ranges.push((i, i + n));
            proof {
                assert(rt + ti =~= rt.push(t) + tn);
                rt = rt.push(t);
            }
        } else if class == 2 {
            assert(bi == seq![(i as nat, (i + n) as nat)] + bn);
            assert(ti == tn);
            let mut msg = String::new();
            msg.append("invalid token `");
            let text = string_of(v, i, i + n);
            msg.append(text.as_str());
            msg.append("`");
            diags.push(Diagnostic::new(msg, Some(Span { start: b, end: nb })));
            proof {
                assert(rb + bi =~= rb.push((i as nat, (i + n) as nat)) + bn);
                rb = rb.push((i as nat, (i + n) as nat));
            }
        } else {
            assert(ti == tn);
            assert(bi == bn);
        }
        i = i + n;
        b = nb;
    }
    assert(lex_from(s, i as nat).0.len() == 0);
    assert(lex_from(s, 0).0 =~= rt);
    assert(lex_from(s, 0).1 =~= rb);
    if diags.len() == 0 {
        (Ok(tokens), ranges)
    } else {
        (Err(diags), ranges)
    }
}

} // verus!
