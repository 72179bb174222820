//! Compiler diagnostics and their human / JSON renderings.
use vstd::prelude::*;

use crate::text::{
    byte_len, char_width, decimal, lemma_byte_len_mono, lemma_byte_len_take, push_char, push_decimal,
    push_range, push_repeat, repeat, str_to_string, to_chars,
};

verus! {

pub use crate::ast::Span;

#[derive(Debug, Clone, Copy, PartialEq, Eq, Structural)]
pub enum DiagnosticSeverity {
    Error,
    Warning,
    Info,
    Hint,
}

pub open spec fn severity_text(s: DiagnosticSeverity) -> Seq<char> {
    match s {
        DiagnosticSeverity::Error => "error"@,
        DiagnosticSeverity::Warning => "warning"@,
        DiagnosticSeverity::Info => "info"@,
        DiagnosticSeverity::Hint => "hint"@,
    }
}

impl DiagnosticSeverity {
    /// The lower-case name of the severity.
    pub fn as_str(&self) -> (r: &'static str)
        ensures
            r@ == severity_text(*self),
    {
        match self {
            DiagnosticSeverity::Error => "error",
            DiagnosticSeverity::Warning => "warning",
            DiagnosticSeverity::Info => "info",
            DiagnosticSeverity::Hint => "hint",
        }
    }
}

#[derive(Debug, Clone, PartialEq, Eq)]
pub struct Diagnostic {
    pub code: String,
    pub message: String,
    pub span: Option<Span>,
    pub hint: Option<String>,
    pub severity: DiagnosticSeverity,
}

impl Diagnostic {
    /// An error with the generic code `E0000`.
    pub fn new(message: String, span: Option<Span>) -> (d: Diagnostic)
        ensures
            d.code@ == "E0000"@,
            d.message@ == message@,
            d.span == span,
            d.hint is None,
            d.severity == DiagnosticSeverity::Error,
    {
        Diagnostic {
            code: str_to_string("E0000"),
            message,
            span,
            hint: None,
            severity: DiagnosticSeverity::Error,
        }
    }

    /// A warning with the generic code `W0000`.
    pub fn warning(message: String, span: Option<Span>) -> (d: Diagnostic)
        ensures
            d.code@ == "W0000"@,
            d.message@ == message@,
            d.span == span,
            d.hint is None,
            d.severity == DiagnosticSeverity::Warning,
    {
        Diagnostic {
            code: str_to_string("W0000"),
            message,
            span,
            hint: None,
            severity: DiagnosticSeverity::Warning,
        }
    }

    pub fn with_code(self, code: String) -> (d: Diagnostic)
        ensures
            d.code@ == code@,
            d.message == self.message,
            d.span == self.span,
            d.hint == self.hint,
            d.severity == self.severity,
    {
        let mut d = self;
        d.code = code;
        d
    }

    pub fn with_hint(self, hint: String) -> (d: Diagnostic)
        ensures
            d.code == self.code,
            d.message == self.message,
            d.span == self.span,
            d.hint == Some(hint),
            d.severity == self.severity,
    {
        let mut d = self;
        d.hint = Some(hint);
        d
    }

    pub fn with_severity(self, severity: DiagnosticSeverity) -> (d: Diagnostic)
        ensures
            d.code == self.code,
            d.message == self.message,
            d.span == self.span,
            d.hint == self.hint,
            d.severity == severity,
    {
        let mut d = self;
        d.severity = severity;
        d
    }
}

/// Number of chars of `s` that begin before byte `offset`.
pub open spec fn chars_before(s: Seq<char>, offset: nat) -> nat
    decreases s.len(),
{
    if s.len() == 0 {
        0
    } else if byte_len(s.drop_last()) < offset {
        s.len()
    } else {
        chars_before(s.drop_last(), offset)
    }
}

/// 1-based (line, column) reached after reading all of `t`.
pub open spec fn line_col_of(t: Seq<char>) -> (nat, nat)
    decreases t.len(),
{
    if t.len() == 0 {
        (1, 1)
    } else {
        let (l, c) = line_col_of(t.drop_last());
        if t.last() == '\n' {
            (l + 1, 1)
        } else {
            (l, c + 1)
        }
    }
}

/// Line and column of byte `offset` in `source`.
pub open spec fn line_col_spec(source: Seq<char>, offset: nat) -> (nat, nat) {
    line_col_of(source.take(chars_before(source, offset) as int))
}

proof fn lemma_chars_before_take(s: Seq<char>, offset: nat, i: int)
    requires
        0 <= i < s.len(),
        byte_len(s.take(i)) < offset,
    ensures
        chars_before(s.take(i + 1), offset) == i + 1,
{
    assert(s.take(i + 1).drop_last() =~= s.take(i));
}

proof fn lemma_chars_before_stop(s: Seq<char>, offset: nat, i: int)
    requires
        0 <= i <= s.len(),
        i == s.len() || byte_len(s.take(i)) >= offset,
        chars_before(s.take(i), offset) == i,
    ensures
        chars_before(s, offset) == i,
    decreases s.len() - i,
{
    if i < s.len() {
        // every later char starts at or after `offset`
        lemma_chars_before_suffix(s, offset, i, s.len() as int);
        assert(s.take(s.len() as int) =~= s);
    } else {
        assert(s.take(i) =~= s);
    }
}

proof fn lemma_chars_before_suffix(s: Seq<char>, offset: nat, i: int, j: int)
    requires
        0 <= i <= j <= s.len(),
        i < s.len() ==> byte_len(s.take(i)) >= offset,
        chars_before(s.take(i), offset) == i,
    ensures
        chars_before(s.take(j), offset) == i,
    decreases j - i,
{
    if j > i {
        lemma_chars_before_suffix(s, offset, i, j - 1);
        lemma_byte_len_mono(s, i, j - 1);
        assert(s.take(j).drop_last() =~= s.take(j - 1));
    }
}

/// The byte offset where char `i` of `s` begins is counted back to `i` chars.
pub proof fn lemma_chars_before_exact(s: Seq<char>, i: int)
    requires
        0 <= i <= s.len(),
    ensures
        chars_before(s, byte_len(s.take(i))) == i,
{
    let offset = byte_len(s.take(i));
    if i > 0 {
        assert(s.take(i).drop_last() =~= s.take(i - 1));
        assert(byte_len(s.take(i - 1)) < offset);
    }
    lemma_chars_before_stop(s, offset, i);
}

/// 1-based line and column of a byte offset (columns count chars).
pub fn line_col(source: &str, offset: usize) -> (r: (usize, usize))
    requires
        source@.len() < usize::MAX,
    ensures
        r.0 == line_col_spec(source@, offset as nat).0,
        r.1 == line_col_spec(source@, offset as nat).1,
{
    let v = to_chars(source);
    line_col_chars(&v, offset)
}

pub fn line_col_chars(v: &Vec<char>, offset: usize) -> (r: (usize, usize))
    requires
        v@.len() < usize::MAX,
    ensures
        r.0 == line_col_spec(v@, offset as nat).0,
        r.1 == line_col_spec(v@, offset as nat).1,
{
    let mut line: usize = 1;
    let mut col: usize = 1;
    let mut idx: usize = 0;
    let mut i: usize = 0;
    let mut done = false;
    let n = v.len();
    assert(v@.take(0) =~= Seq::<char>::empty());
    while !done && i < n
        invariant
            n == v@.len(),
            n < usize::MAX,
            0 <= i <= n,
            !done ==> idx == byte_len(v@.take(i as int)),
            done ==> byte_len(v@.take(i as int)) >= offset,
            chars_before(v@.take(i as int), offset as nat) == i,
            line_col_of(v@.take(i as int)) == (line as nat, col as nat),
            line <= i + 1,
            col <= i + 1,
        decreases n - i + (if done { 0int } else { 1int }),
    {
        if idx >= offset {
            done = true;
        } else {
            let ch = v[i];
            proof {
                lemma_byte_len_take(v@, i as int);
                lemma_chars_before_take(v@, offset as nat, i as int);
                assert(v@.take(i + 1).drop_last() =~= v@.take(i as int));
            }
            if ch == '\n' {
                line = line + 1;
                col = 1;
            } else {
                col = col + 1;
            }
            let w = char_width(ch);
            if w >= offset - idx {
                done = true;
            } else {
                idx = idx + w;
            }
            i = i + 1;
        }
    }
    proof {
        lemma_chars_before_stop(v@, offset as nat, i as int);
    }
    (line, col)
}

/// Index of the first `'\n'` in `s`, or its length.
pub open spec fn first_newline(s: Seq<char>) -> nat
    decreases s.len(),
{
    if s.len() == 0 {
        0
    } else if s[0] == '\n' {
        0
    } else {
        1 + first_newline(s.drop_first())
    }
}

pub open spec fn strip_cr(s: Seq<char>) -> Seq<char> {
    if s.len() > 0 && s.last() == '\r' {
        s.drop_last()
    } else {
        s
    }
}

proof fn lemma_first_newline(s: Seq<char>)
    ensures
        first_newline(s) <= s.len(),
        first_newline(s) < s.len() ==> s[first_newline(s) as int] == '\n',
        forall|j: int| 0 <= j < first_newline(s) ==> s[j] != '\n',
    decreases s.len(),
{
    if s.len() > 0 && s[0] != '\n' {
        lemma_first_newline(s.drop_first());
        assert forall|j: int| 0 <= j < first_newline(s) implies s[j] != '\n' by {
            if j > 0 {
                assert(s[j] == s.drop_first()[j - 1]);
            }
        }
    }
}

proof fn lemma_first_newline_at(s: Seq<char>, k: int)
    requires
        0 <= k <= s.len(),
        k < s.len() ==> s[k] == '\n',
        forall|j: int| 0 <= j < k ==> s[j] != '\n',
    ensures
        first_newline(s) == k,
    decreases s.len(),
{
    lemma_first_newline(s);
    if first_newline(s) < k {
        assert(s[first_newline(s) as int] == '\n');
    }
    if first_newline(s) > k {
        assert(s[k] == '\n');
    }
}

/// Line `n` (0-based) of `s` as `s.lines().nth(n)` gives it: pieces between
/// `'\n'`, without a trailing `'\r'`, and no empty piece after a final newline.
pub open spec fn nth_line(s: Seq<char>, n: nat) -> Option<Seq<char>>
    decreases s.len(),
{
    if s.len() == 0 {
        None
    } else {
        let i = first_newline(s);
        if n == 0 {
            Some(strip_cr(s.take(i as int)))
        } else if i >= s.len() {
            None
        } else {
            nth_line(s.skip(i as int + 1), (n - 1) as nat)
        }
    }
}

/// The line numbered `target_line` (1-based; 0 means the first) of `source`.
pub open spec fn source_line_spec(source: Seq<char>, target_line: nat) -> Option<Seq<char>> {
    nth_line(source, if target_line == 0 { 0 } else { (target_line - 1) as nat })
}

/// Start and end (exclusive, before `'\r'` stripping) of the first line of `v[lo..]`.
fn line_end(v: &Vec<char>, lo: usize) -> (r: usize)
    requires
        lo <= v@.len(),
    ensures
        lo <= r <= v@.len(),
        r - lo == first_newline(v@.skip(lo as int)),
{
    let mut i = lo;
    while i < v.len() && v[i] != '\n'
        invariant
            lo <= i <= v@.len(),
            forall|j: int| lo <= j < i ==> v@[j] != '\n',
        decreases v@.len() - i,
    {
        i = i + 1;
    }
    proof {
        let t = v@.skip(lo as int);
        lemma_first_newline_at(t, i - lo);
    }
    i
}

fn source_line_chars(v: &Vec<char>, target_line: usize) -> (r: Option<String>)
    ensures
        r matches Some(t) ==> source_line_spec(v@, target_line as nat) == Some(t@),
        r is None ==> source_line_spec(v@, target_line as nat) is None,
{
    let idx: usize = if target_line == 0 { 0 } else { target_line - 1 };
    let mut pos: usize = 0;
    let mut k: usize = 0;
    assert(v@.skip(0) =~= v@);
    while k < idx
        invariant
            pos <= v@.len(),
            k <= idx,
            nth_line(v@, idx as nat) == nth_line(v@.skip(pos as int), (idx - k) as nat),
            source_line_spec(v@, target_line as nat) == nth_line(v@, idx as nat),
        decreases idx - k,
    {
        if pos == v.len() {
            assert(v@.skip(pos as int).len() == 0);
            assert(nth_line(v@.skip(pos as int), (idx - k) as nat) is None);
            assert(nth_line(v@, idx as nat) is None);
            return None;
        }
        let e = line_end(v, pos);
        if e == v.len() {
            assert(first_newline(v@.skip(pos as int)) >= v@.skip(pos as int).len());
            assert(nth_line(v@.skip(pos as int), (idx - k) as nat) is None);
            assert(nth_line(v@, idx as nat) is None);
            return None;
        }
        proof {
            let t = v@.skip(pos as int);
            assert(t.skip(first_newline(t) as int + 1) =~= v@.skip(e as int + 1));
        }
        pos = e + 1;
        k = k + 1;
    }
    if pos == v.len() {
        assert(v@.skip(pos as int).len() == 0);
        return None;
    }
    let e = line_end(v, pos);
    let mut hi = e;
    if hi > pos && v[hi - 1] == '\r' {
        hi = hi - 1;
    }
    proof {
        let t = v@.skip(pos as int);
        assert(t.take(first_newline(t) as int) =~= v@.subrange(pos as int, e as int));
        assert(strip_cr(v@.subrange(pos as int, e as int)) =~= v@.subrange(pos as int, hi as int));
    }
    Some(crate::text::string_of(v, pos, hi))
}

/// `" ".repeat(col - 1) + "^".repeat(max(len, 1))`.
pub open spec fn caret_line_spec(col: nat, len: nat) -> Seq<char> {
    let pad = if col == 0 { 0 } else { (col - 1) as nat };
    let width = if len < 1 { 1 } else { len };
    repeat(" "@, pad) + repeat("^"@, width)
}

fn caret_line(col: usize, len: usize) -> (r: String)
    ensures
        r@ == caret_line_spec(col as nat, len as nat),
{
    let width = if len < 1 { 1 } else { len };
    let pad = if col == 0 { 0 } else { col - 1 };
    let mut out = String::new();
    push_repeat(&mut out, " ", pad);
    push_repeat(&mut out, "^", width);
    assert(out@ =~= caret_line_spec(col as nat, len as nat));
    out
}

/// Number of leading chars of `t` that are not `'\n'`.
pub open spec fn count_to_newline(t: Seq<char>) -> nat {
    first_newline(t)
}

/// Width in chars of the first line of the span's text.
pub open spec fn span_len_spec(s: Seq<char>, span: Span) -> nat {
    let end = if span.end < byte_len(s) { span.end as nat } else { byte_len(s) };
    let start = if span.start < end { span.start as nat } else { end };
    count_to_newline(s.subrange(chars_before(s, start) as int, chars_before(s, end) as int))
}

/// Byte offset of char `k` of `v`, with the number of chars that start before `b`.
fn char_index_of_byte(v: &Vec<char>, b: usize) -> (r: usize)
    ensures
        r == chars_before(v@, b as nat),
        r <= v@.len(),
{
    let mut i: usize = 0;
    let mut idx: usize = 0;
    let mut done = false;
    assert(v@.take(0) =~= Seq::<char>::empty());
    while !done && i < v.len()
        invariant
            0 <= i <= v@.len(),
            !done ==> idx == byte_len(v@.take(i as int)),
            done ==> byte_len(v@.take(i as int)) >= b,
            chars_before(v@.take(i as int), b as nat) == i,
        decreases v@.len() - i + (if done { 0int } else { 1int }),
    {
        if idx >= b {
            done = true;
        } else {
            proof {
                lemma_byte_len_take(v@, i as int);
                lemma_chars_before_take(v@, b as nat, i as int);
            }
            let w = char_width(v[i]);
            if w >= b - idx {
                done = true;
            } else {
                idx = idx + w;
            }
            i = i + 1;
        }
    }
    proof {
        lemma_chars_before_stop(v@, b as nat, i as int);
    }
    i
}

proof fn lemma_chars_before_le(s: Seq<char>, a: nat, b: nat)
    requires
        a <= b,
    ensures
        chars_before(s, a) <= chars_before(s, b),
        chars_before(s, b) <= s.len(),
    decreases s.len(),
{
    if s.len() > 0 {
        lemma_chars_before_le(s.drop_last(), a, b);
    }
}

/// Total byte length of `v`, if it fits in `usize`.
fn byte_length(v: &Vec<char>) -> (r: Option<usize>)
    ensures
        r matches Some(n) ==> n == byte_len(v@),
        r is None ==> byte_len(v@) > usize::MAX,
{
    let mut i: usize = 0;
    let mut n: usize = 0;
    assert(v@.take(0) =~= Seq::<char>::empty());
    while i < v.len()
        invariant
            0 <= i <= v@.len(),
            n == byte_len(v@.take(i as int)),
        decreases v@.len() - i,
    {
        proof {
            lemma_byte_len_take(v@, i as int);
        }
        let w = char_width(v[i]);
        if w > usize::MAX - n {
            proof {
                lemma_byte_len_mono(v@, i + 1, v@.len() as int);
                assert(v@.take(v@.len() as int) =~= v@);
            }
            return None;
        }
        n = n + w;
        i = i + 1;
    }
    assert(v@.take(v@.len() as int) =~= v@);
    Some(n)
}

fn span_len(v: &Vec<char>, span: &Span) -> (r: usize)
    ensures
        r == span_len_spec(v@, *span),
{
    let end: usize = match byte_length(v) {
        Some(total) => if span.end < total { span.end } else { total },
        None => span.end,
    };
    let start: usize = if span.start < end { span.start } else { end };
    let a = char_index_of_byte(v, start);
    let b = char_index_of_byte(v, end);
    proof {
        lemma_chars_before_le(v@, start as nat, end as nat);
    }
    let mut i = a;
    while i < b && v[i] != '\n'
        invariant
            a <= i <= b <= v@.len(),
            forall|j: int| a <= j < i ==> v@[j] != '\n',
        decreases b - i,
    {
        i = i + 1;
    }
    proof {
        let t = v@.subrange(a as int, b as int);
        lemma_first_newline_at(t, i - a);
    }
    i - a
}

/// The human rendering of a diagnostic.
pub open spec fn render_spec(d: Diagnostic, path: Seq<char>, source: Seq<char>) -> Seq<char> {
    let head = severity_text(d.severity) + " "@ + d.code@ + ": "@ + d.message@;
    match d.span {
        Some(span) => {
            let (line, col) = line_col_spec(source, span.start as nat);
            let first = path + ":"@ + decimal(line) + ":"@ + decimal(col) + ": "@ + head;
            let with_line = match source_line_spec(source, line) {
                Some(text) => first + "\n"@ + text + "\n"@ + caret_line_spec(
                    col,
                    span_len_spec(source, span),
                ),
                None => first,
            };
            match d.hint {
                Some(h) => with_line + "\nhint: "@ + h@,
                None => with_line,
            }
        },
        None => match d.hint {
            Some(h) => path + ": "@ + head + " (hint: "@ + h@ + ")"@,
            None => path + ": "@ + head,
        },
    }
}

pub open spec fn json_start_end_spec(source: Seq<char>, span: Span) -> Seq<char> {
    let (line, column) = line_col_spec(source, span.start as nat);
    let (end_line, end_column) = line_col_spec(source, span.end as nat);
    "{\"start\":"@ + decimal(span.start as nat) + ",\"end\":"@ + decimal(span.end as nat)
        + ",\"line\":"@ + decimal(line) + ",\"column\":"@ + decimal(column) + ",\"endLine\":"@
        + decimal(end_line) + ",\"endColumn\":"@ + decimal(end_column) + "}"@
}

/// The JSON rendering of a diagnostic.
pub open spec fn render_json_spec(d: Diagnostic, path: Seq<char>, source: Seq<char>) -> Seq<char> {
    let span_text = match d.span {
        Some(span) => json_start_end_spec(source, span),
        None => "null"@,
    };
    let hint_text = match d.hint {
        Some(h) => "\""@ + json_escape_spec(h@) + "\""@,
        None => "null"@,
    };
    "{\"path\":\""@ + json_escape_spec(path) + "\",\"code\":\""@ + json_escape_spec(d.code@)
        + "\",\"severity\":\""@ + severity_text(d.severity) + "\",\"message\":\""@
        + json_escape_spec(d.message@) + "\",\"span\":"@ + span_text + ",\"hint\":"@ + hint_text
        + ",\"source\":\"goplus\"}"@
}

impl Diagnostic {
    /// `path:line:col: severity code: message`, then the source line with a caret and the hint.
    pub fn render(&self, path: &str, source: &str) -> (r: String)
        requires
            source@.len() < usize::MAX,
        ensures
            r@ == render_spec(*self, path@, source@),
    {
        let v = to_chars(source);
        let mut head = String::new();
        head.append(self.severity.as_str());
        head.append(" ");
        head.append(self.code.as_str());
        head.append(": ");
        head.append(self.message.as_str());
        match &self.span {
            Some(span) => {
                let (line, col) = line_col_chars(&v, span.start);
                let mut out = String::new();
                out.append(path);
                out.append(":");
                push_decimal(&mut out, line);
                out.append(":");
                push_decimal(&mut out, col);
                out.append(": ");
                out.append(head.as_str());
                let ghost first = out@;
                match source_line_chars(&v, line) {
                    Some(line_text) => {
                        out.append("\n");
                        out.append(line_text.as_str());
                        out.append("\n");
                        let width = span_len(&v, span);
                        let caret = caret_line(col, width);
                        out.append(caret.as_str());
                    },
                    None => {},
                }
                match &self.hint {
                    Some(hint) => {
                        out.append("\nhint: ");
                        out.append(hint.as_str());
                    },
                    None => {},
                }
                out
            },
            None => {
                let mut out = String::new();
                out.append(path);
                out.append(": ");
                out.append(head.as_str());
                match &self.hint {
                    Some(hint) => {
                        out.append(" (hint: ");
                        out.append(hint.as_str());
                        out.append(")");
                    },
                    None => {},
                }
                out
            },
        }
    }

    /// One JSON object with path, code, severity, message, span, hint and source.
    pub fn render_json(&self, path: &str, source: &str) -> (r: String)
        requires
            source@.len() < usize::MAX,
        ensures
            r@ == render_json_spec(*self, path@, source@),
    {
        let v = to_chars(source);
        let mut span_text = String::new();
        match &self.span {
            Some(span) => {
                let (line, column) = line_col_chars(&v, span.start);
                let (end_line, end_column) = line_col_chars(&v, span.end);
                span_text.append("{\"start\":");
                push_decimal(&mut span_text, span.start);
                span_text.append(",\"end\":");
                push_decimal(&mut span_text, span.end);
                span_text.append(",\"line\":");
                push_decimal(&mut span_text, line);
                span_text.append(",\"column\":");
                push_decimal(&mut span_text, column);
                span_text.append(",\"endLine\":");
                push_decimal(&mut span_text, end_line);
                span_text.append(",\"endColumn\":");
                push_decimal(&mut span_text, end_column);
                span_text.append("}");
            },
            None => {
                span_text.append("null");
            },
        }
        let mut hint_text = String::new();
        match &self.hint {
            Some(hint) => {
                hint_text.append("\"");
                let e = json_escape(hint.as_str());
                hint_text.append(e.as_str());
                hint_text.append("\"");
            },
            None => {
                hint_text.append("null");
            },
        }
        let mut out = String::new();
        out.append("{\"path\":\"");
        let e = json_escape(path);
        out.append(e.as_str());
        out.append("\",\"code\":\"");
        let e = json_escape(self.code.as_str());
        out.append(e.as_str());
        out.append("\",\"severity\":\"");
        out.append(self.severity.as_str());
        out.append("\",\"message\":\"");
        let e = json_escape(self.message.as_str());
        out.append(e.as_str());
        out.append("\",\"span\":");
        out.append(span_text.as_str());
        out.append(",\"hint\":");
        out.append(hint_text.as_str());
        out.append(",\"source\":\"goplus\"}");
        out
    }
}

/// Unicode general category `Cc`.
pub open spec fn is_control_char(c: char) -> bool {
    (c as u32) <= 0x1f || (0x7f <= (c as u32) && (c as u32) <= 0x9f)
}

pub open spec fn hex_digit(d: nat) -> char {
    if d < 10 {
        crate::text::digit_char(d)
    } else if d == 10 {
        'a'
    } else if d == 11 {
        'b'
    } else if d == 12 {
        'c'
    } else if d == 13 {
        'd'
    } else if d == 14 {
        'e'
    } else {
        'f'
    }
}

/// The JSON escape of one char.
pub open spec fn json_escape_char(c: char) -> Seq<char> {
    if c == '"' {
        "\\\""@
    } else if c == '\\' {
        "\\\\"@
    } else if c == '\n' {
        "\\n"@
    } else if c == '\r' {
        "\\r"@
    } else if c == '\t' {
        "\\t"@
    } else if is_control_char(c) {
        "\\u00"@ + seq![hex_digit(((c as u32) / 16) as nat), hex_digit(((c as u32) % 16) as nat)]
    } else {
        seq![c]
    }
}

/// The JSON escape of a string, char by char.
pub open spec fn json_escape_spec(s: Seq<char>) -> Seq<char>
    decreases s.len(),
{
    if s.len() == 0 {
        Seq::empty()
    } else {
        json_escape_spec(s.drop_last()) + json_escape_char(s.last())
    }
}

fn hex_char(d: u32) -> (c: char)
    requires
        d < 16,
    ensures
        c == hex_digit(d as nat),
{
    if d == 0 {
        '0'
    } else if d == 1 {
        '1'
    } else if d == 2 {
        '2'
    } else if d == 3 {
        '3'
    } else if d == 4 {
        '4'
    } else if d == 5 {
        '5'
    } else if d == 6 {
        '6'
    } else if d == 7 {
        '7'
    } else if d == 8 {
        '8'
    } else if d == 9 {
        '9'
    } else if d == 10 {
        'a'
    } else if d == 11 {
        'b'
    } else if d == 12 {
        'c'
    } else if d == 13 {
        'd'
    } else if d == 14 {
        'e'
    } else {
        'f'
    }
}

/// Escapes quotes, backslashes and control chars for a JSON string.
pub fn json_escape(input: &str) -> (r: String)
    ensures
        r@ == json_escape_spec(input@),
{
    let v = to_chars(input);
    let mut out = String::new();
    let mut i: usize = 0;
    assert(v@.take(0) =~= Seq::<char>::empty());
    while i < v.len()
        invariant
            0 <= i <= v@.len(),
            out@ == json_escape_spec(v@.take(i as int)),
        decreases v@.len() - i,
    {
        let ch = v[i];
        let u: u32 = ch as u32;
        let ghost before = out@;
        if ch == '"' {
            out.append("\\\"");
        } else if ch == '\\' {
            out.append("\\\\");
        } else if ch == '\n' {
            out.append("\\n");
        } else if ch == '\r' {
            out.append("\\r");
        } else if ch == '\t' {
            out.append("\\t");
        } else if u <= 0x1f || (0x7f <= u && u <= 0x9f) {
            out.append("\\u00");
            push_char(&mut out, hex_char(u / 16));
            push_char(&mut out, hex_char(u % 16));
        } else {
            push_char(&mut out, ch);
        }
        assert(v@.take(i + 1).drop_last() =~= v@.take(i as int));
        assert(out@ =~= before + json_escape_char(ch));
        i = i + 1;
    }
    assert(v@.take(v@.len() as int) =~= v@);
    out
}

#[derive(Debug, Clone, Default, PartialEq, Eq)]
pub struct Diagnostics {
    items: Vec<Diagnostic>,
}

impl View for Diagnostics {
    type V = Seq<Diagnostic>;

    closed spec fn view(&self) -> Seq<Diagnostic> {
        self.items@
    }
}

pub open spec fn any_error(items: Seq<Diagnostic>) -> bool {
    exists|i: int| 0 <= i < items.len() && items[i].severity == DiagnosticSeverity::Error
}

impl Diagnostics {
    pub fn new() -> (d: Diagnostics)
        ensures
            d@ == Seq::<Diagnostic>::empty(),
    {
        Diagnostics { items: Vec::new() }
    }

    pub fn push(&mut self, diagnostic: Diagnostic)
        ensures
            final(self)@ == old(self)@.push(diagnostic),
    {
        self.items.push(diagnostic);
    }

    pub fn extend(&mut self, diagnostics: Vec<Diagnostic>)
        ensures
            final(self)@ == old(self)@ + diagnostics@,
    {
        let mut d = diagnostics;
        self.items.append(&mut d);
    }

    pub fn is_empty(&self) -> (r: bool)
        ensures
            r == (self@.len() == 0),
    {
        self.items.len() == 0
    }

    /// Some diagnostic has severity `Error`.
    pub fn has_errors(&self) -> (r: bool)
        ensures
            r == any_error(self@),
    {
        let mut i: usize = 0;
        while i < self.items.len()
            invariant
                0 <= i <= self@.len(),
                forall|j: int| 0 <= j < i ==> self@[j].severity != DiagnosticSeverity::Error,
            decreases self@.len() - i,
        {
            if self.items[i].severity == DiagnosticSeverity::Error {
                return true;
            }
            i = i + 1;
        }
        false
    }

    pub fn has_any(&self) -> (r: bool)
        ensures
            r == (self@.len() > 0),
    {
        self.items.len() > 0
    }

    pub fn items(&self) -> (r: &[Diagnostic])
        ensures
            r@ == self@,
    {
        self.items.as_slice()
    }

    /// Each message on a line of its own.
    pub fn messages(&self) -> (r: String)
        ensures
            r@ == messages_spec(self@),
    {
        let mut out = String::new();
        let mut i: usize = 0;
        while i < self.items.len()
            invariant
                0 <= i <= self@.len(),
                out@ == messages_spec(self@.take(i as int)),
            decreases self@.len() - i,
        {
            assert(self@.take(i + 1).drop_last() =~= self@.take(i as int));
            out.append(self.items[i].message.as_str());
            out.append("\n");
            i = i + 1;
        }
        assert(self@.take(self@.len() as int) =~= self@);
        out
    }
}

/// The messages of `items`, each followed by a newline.
pub open spec fn messages_spec(items: Seq<Diagnostic>) -> Seq<char>
    decreases items.len(),
{
    if items.len() == 0 {
        Seq::empty()
    } else {
        messages_spec(items.drop_last()) + items.last().message@ + "\n"@
    }
}

} // verus!
