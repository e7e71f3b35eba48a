//! The scanner: raw source bytes to classified tokens.
//!
//! It never stops at a bad byte or an unterminated string: it records a
//! diagnostic, skips past the offending content, and goes on, so a
//! single pass yields every lexical fault at once; and it always closes
//! the token sequence with one end-of-file token. The whole behaviour is
//! specified by `spec_scan`, a recursive scanner over the byte sequence,
//! and the executable scanner is proved to produce exactly its tokens
//! and its diagnostics.

use crate::lox_error::Errors;
use crate::number::{digits_end, is_digit, lemma_digits_end_bounds};
use crate::token::{spec_keyword, Token, TokenType, TokenV, TokenizationError, TokenizationErrorType};
use vstd::prelude::*;

verus! {

/// Whether `c` starts an identifier (ASCII letters only, as the
/// identifier grammar has it).
pub open spec fn is_alpha(c: u8) -> bool {
    (65 <= c <= 90) || (97 <= c <= 122)
}

/// Whether `c` may continue an identifier.
pub open spec fn is_alnum(c: u8) -> bool {
    is_alpha(c) || is_digit(c)
}

/// The first position at or after `p` that ends a line comment: a
/// newline or the end of the source (the newline itself is not
/// consumed).
pub open spec fn comment_end(s: Seq<u8>, p: int) -> int
    decreases s.len() - p when p <= s.len()
{
    if 0 <= p < s.len() && s[p] != 10 {
        comment_end(s, p + 1)
    } else {
        p
    }
}

/// The first position at or after `p` holding the closing quote of a
/// string literal, or the end of the source.
pub open spec fn string_end(s: Seq<u8>, p: int) -> int
    decreases s.len() - p when p <= s.len()
{
    if 0 <= p < s.len() && s[p] != 34 {
        string_end(s, p + 1)
    } else {
        p
    }
}

/// The first position at or after `p` that no longer continues an
/// identifier.
pub open spec fn ident_end(s: Seq<u8>, p: int) -> int
    decreases s.len() - p when p <= s.len()
{
    if 0 <= p < s.len() && is_alnum(s[p]) {
        ident_end(s, p + 1)
    } else {
        p
    }
}

/// How many newline bytes stand in `[a, b)`.
pub open spec fn newlines_in(s: Seq<u8>, a: int, b: int) -> int
    decreases b - a,
{
    if a < b {
        (if 0 <= a < s.len() && s[a] == 10 {
            1int
        } else {
            0int
        }) + newlines_in(s, a + 1, b)
    } else {
        0
    }
}

pub proof fn lemma_newlines_bounds(s: Seq<u8>, a: int, b: int)
    requires
        a <= b,
    ensures
        0 <= newlines_in(s, a, b) <= b - a,
    decreases b - a,
{
    if a < b {
        lemma_newlines_bounds(s, a + 1, b);
    }
}

/// What one dispatch of the scanner does at position `pos`: the token
/// and diagnostic it emits, if any, and the position, line and column it
/// leaves. Read it only with `pos < s.len()`.
pub struct ScanStep {
    pub token: Option<TokenV>,
    pub err: Option<TokenizationError>,
    pub pos: int,
    pub line: nat,
    pub col: nat,
}

/// A token whose lexeme is `s[start..end)`.
pub open spec fn tok_of(s: Seq<u8>, kind: TokenType, start: int, end: int, line: nat, col: nat) -> TokenV {
    TokenV { kind, lexeme: s.subrange(start, end), line, column: col }
}

/// One dispatch of the scanner: punctuation by one byte of lookahead,
/// `//` comments to the end of the line, whitespace skipped, newline
/// bookkeeping, string literals (the unterminated one is reported and
/// still yields the remaining text), numeric literals with one optional
/// decimal point, identifiers classified against the keyword table, and
/// a diagnostic for any byte that starts nothing.
pub open spec fn scan_step(s: Seq<u8>, pos: int, line: nat, col: nat) -> ScanStep {
    let c = s[pos];
    let p1 = pos + 1;
    let c1 = (col + 1) as nat;
    if c == 40 {
        ScanStep { token: Some(tok_of(s, TokenType::LeftParen, pos, p1, line, c1)), err: None, pos: p1, line, col: c1 }
    } else if c == 41 {
        ScanStep { token: Some(tok_of(s, TokenType::RightParen, pos, p1, line, c1)), err: None, pos: p1, line, col: c1 }
    } else if c == 123 {
        ScanStep { token: Some(tok_of(s, TokenType::LeftBrace, pos, p1, line, c1)), err: None, pos: p1, line, col: c1 }
    } else if c == 125 {
        ScanStep { token: Some(tok_of(s, TokenType::RightBrace, pos, p1, line, c1)), err: None, pos: p1, line, col: c1 }
    } else if c == 44 {
        ScanStep { token: Some(tok_of(s, TokenType::Comma, pos, p1, line, c1)), err: None, pos: p1, line, col: c1 }
    } else if c == 46 {
        ScanStep { token: Some(tok_of(s, TokenType::Dot, pos, p1, line, c1)), err: None, pos: p1, line, col: c1 }
    } else if c == 45 {
        ScanStep { token: Some(tok_of(s, TokenType::Minus, pos, p1, line, c1)), err: None, pos: p1, line, col: c1 }
    } else if c == 43 {
        ScanStep { token: Some(tok_of(s, TokenType::Plus, pos, p1, line, c1)), err: None, pos: p1, line, col: c1 }
    } else if c == 59 {
        ScanStep { token: Some(tok_of(s, TokenType::Semicolon, pos, p1, line, c1)), err: None, pos: p1, line, col: c1 }
    } else if c == 42 {
        ScanStep { token: Some(tok_of(s, TokenType::Star, pos, p1, line, c1)), err: None, pos: p1, line, col: c1 }
    } else if c == 33 {
        if p1 < s.len() && s[p1] == 61 {
            ScanStep { token: Some(tok_of(s, TokenType::BangEqual, pos, pos + 2, line, (col + 2) as nat)), err: None, pos: pos + 2, line, col: (col + 2) as nat }
        } else {
            ScanStep { token: Some(tok_of(s, TokenType::Bang, pos, p1, line, c1)), err: None, pos: p1, line, col: c1 }
        }
    } else if c == 61 {
        if p1 < s.len() && s[p1] == 61 {
            ScanStep { token: Some(tok_of(s, TokenType::EqualEqual, pos, pos + 2, line, (col + 2) as nat)), err: None, pos: pos + 2, line, col: (col + 2) as nat }
        } else {
            ScanStep { token: Some(tok_of(s, TokenType::Equal, pos, p1, line, c1)), err: None, pos: p1, line, col: c1 }
        }
    } else if c == 60 {
        if p1 < s.len() && s[p1] == 61 {
            ScanStep { token: Some(tok_of(s, TokenType::LessEqual, pos, pos + 2, line, (col + 2) as nat)), err: None, pos: pos + 2, line, col: (col + 2) as nat }
        } else {
            ScanStep { token: Some(tok_of(s, TokenType::Less, pos, p1, line, c1)), err: None, pos: p1, line, col: c1 }
        }
    } else if c == 62 {
        if p1 < s.len() && s[p1] == 61 {
            ScanStep { token: Some(tok_of(s, TokenType::GreaterEqual, pos, pos + 2, line, (col + 2) as nat)), err: None, pos: pos + 2, line, col: (col + 2) as nat }
        } else {
            ScanStep { token: Some(tok_of(s, TokenType::Greater, pos, p1, line, c1)), err: None, pos: p1, line, col: c1 }
        }
    } else if c == 47 {
        if p1 < s.len() && s[p1] == 47 {
            let e = comment_end(s, pos + 2);
            ScanStep { token: None, err: None, pos: e, line, col: (col + (e - pos)) as nat }
        } else {
            ScanStep { token: Some(tok_of(s, TokenType::Slash, pos, p1, line, c1)), err: None, pos: p1, line, col: c1 }
        }
    } else if c == 32 || c == 13 || c == 9 {
        ScanStep { token: None, err: None, pos: p1, line, col: c1 }
    } else if c == 10 {
        ScanStep { token: None, err: None, pos: p1, line: (line + 1) as nat, col: 0 }
    } else if c == 34 {
        let e = string_end(s, p1);
        let nl = newlines_in(s, p1, e);
        let line2 = (line + nl) as nat;
        let col2 = (col + (e - pos)) as nat;
        let tok = TokenV { kind: TokenType::StringLiteral, lexeme: s.subrange(p1, e), line: line2, column: col2 };
        if e >= s.len() {
            ScanStep {
                token: Some(tok),
                err: Some(TokenizationError { line: line2 as usize, column: col2 as usize, error_type: TokenizationErrorType::UnFinishedString }),
                pos: e,
                line: line2,
                col: col2,
            }
        } else {
            ScanStep { token: Some(tok), err: None, pos: e + 1, line: line2, col: (col2 + 1) as nat }
        }
    } else if is_digit(c) {
        let e1 = digits_end(s, pos);
        let e2 = if e1 < s.len() && s[e1] == 46 && e1 + 1 < s.len() && is_digit(s[e1 + 1]) {
            digits_end(s, e1 + 1)
        } else {
            e1
        };
        ScanStep {
            token: Some(tok_of(s, TokenType::Number, pos, e2, line, (col + (e2 - pos)) as nat)),
            err: None,
            pos: e2,
            line,
            col: (col + (e2 - pos)) as nat,
        }
    } else if is_alpha(c) {
        let e = ident_end(s, p1);
        ScanStep {
            token: Some(tok_of(s, spec_keyword(s.subrange(pos, e)), pos, e, line, (col + (e - pos)) as nat)),
            err: None,
            pos: e,
            line,
            col: (col + (e - pos)) as nat,
        }
    } else {
        ScanStep {
            token: None,
            err: Some(TokenizationError { line: line as usize, column: (col + 1) as usize, error_type: TokenizationErrorType::UnIdentifiedLetter(c) }),
            pos: p1,
            line,
            col: c1,
        }
    }
}

/// The token sequence and the diagnostics of a whole scan.
pub struct ScanOut {
    pub tokens: Seq<TokenV>,
    pub errs: Seq<TokenizationError>,
}

/// Scans from `pos` to the end of the source, closing the token
/// sequence with one end-of-file token.
pub open spec fn spec_scan(s: Seq<u8>, pos: int, line: nat, col: nat) -> ScanOut
    decreases s.len() - pos when 0 <= pos
{
    if pos >= s.len() {
        ScanOut {
            tokens: seq![TokenV { kind: TokenType::Eof, lexeme: Seq::empty(), line, column: col }],
            errs: Seq::empty(),
        }
    } else {
        let st = scan_step(s, pos, line, col);
        let next = if st.pos <= pos {
            pos + 1
        } else if st.pos > s.len() {
            s.len() as int
        } else {
            st.pos
        };
        let rest = spec_scan(s, next, st.line, st.col);
        ScanOut {
            tokens: (match st.token {
                Some(t) => seq![t],
                None => Seq::empty(),
            }) + rest.tokens,
            errs: (match st.err {
                Some(e) => seq![e],
                None => Seq::empty(),
            }) + rest.errs,
        }
    }
}

/// The whole scan of a source text.
pub open spec fn spec_scan_source(s: Seq<u8>) -> ScanOut {
    spec_scan(s, 0, 0, 0)
}

/// The shadows of a token list.
pub open spec fn view_tokens(ts: Seq<Token>) -> Seq<TokenV>
    decreases ts.len(),
{
    if ts.len() == 0 {
        Seq::empty()
    } else {
        seq![ts[0].view()] + view_tokens(ts.subrange(1, ts.len() as int))
    }
}

/// `view_tokens`, element by element.
pub proof fn lemma_view_tokens(ts: Seq<Token>)
    ensures
        view_tokens(ts).len() == ts.len(),
        forall|i: int| 0 <= i < ts.len() ==> view_tokens(ts)[i] == #[trigger] ts[i].view(),
    decreases ts.len(),
{
    if ts.len() > 0 {
        let rest = ts.subrange(1, ts.len() as int);
        lemma_view_tokens(rest);
        assert forall|i: int| 0 <= i < ts.len() implies view_tokens(ts)[i] == #[trigger] ts[i].view() by {
            if i > 0 {
                assert(rest[i - 1] == ts[i]);
                assert(view_tokens(ts)[i] == view_tokens(rest)[i - 1]);
            }
        }
    }
}

/// A copy of `src[a..b)`.
fn copy_range(src: &Vec<u8>, a: usize, b: usize) -> (r: Vec<u8>)
    requires
        a <= b <= src@.len(),
    ensures
        r@ == src@.subrange(a as int, b as int),
{
    let mut out: Vec<u8> = Vec::new();
    let mut i: usize = a;
    while i < b
        invariant
            a <= i <= b <= src@.len(),
            out@ == src@.subrange(a as int, i as int),
        decreases b - i,
    {
        out.push(src[i]);
        proof {
            assert(out@ =~= src@.subrange(a as int, i + 1));
        }
        i += 1;
    }
    proof {
        assert(out@ =~= src@.subrange(a as int, b as int));
    }
    out
}

/// The end of a line comment, by scan.
fn find_comment_end(src: &Vec<u8>, p: usize) -> (r: usize)
    requires
        p <= src@.len(),
    ensures
        r as int == comment_end(src@, p as int),
        p <= r <= src@.len(),
{
    let n = src.len();
    let mut i: usize = p;
    while i < n && src[i] != 10
        invariant
            p <= i <= n,
            n == src@.len(),
            comment_end(src@, p as int) == comment_end(src@, i as int),
        decreases n - i,
    {
        i += 1;
    }
    i
}

/// The position of the closing quote, or the end of the source.
fn find_string_end(src: &Vec<u8>, p: usize) -> (r: usize)
    requires
        p <= src@.len(),
    ensures
        r as int == string_end(src@, p as int),
        p <= r <= src@.len(),
{
    let n = src.len();
    let mut i: usize = p;
    while i < n && src[i] != 34
        invariant
            p <= i <= n,
            n == src@.len(),
            string_end(src@, p as int) == string_end(src@, i as int),
        decreases n - i,
    {
        i += 1;
    }
    i
}

/// The end of an identifier, by scan.
fn find_ident_end(src: &Vec<u8>, p: usize) -> (r: usize)
    requires
        p <= src@.len(),
    ensures
        r as int == ident_end(src@, p as int),
        p <= r <= src@.len(),
{
    let n = src.len();
    let mut i: usize = p;
    while i < n && byte_is_alnum(src[i])
        invariant
            p <= i <= n,
            n == src@.len(),
            ident_end(src@, p as int) == ident_end(src@, i as int),
        decreases n - i,
    {
        i += 1;
    }
    i
}

/// The end of a digit run, by scan.
fn find_digits_end(src: &Vec<u8>, p: usize) -> (r: usize)
    requires
        p <= src@.len(),
    ensures
        r as int == digits_end(src@, p as int),
        p <= r <= src@.len(),
{
    let n = src.len();
    let mut i: usize = p;
    while i < n && crate::number::byte_is_digit(src[i])
        invariant
            p <= i <= n,
            n == src@.len(),
            digits_end(src@, p as int) == digits_end(src@, i as int),
        decreases n - i,
    {
        i += 1;
    }
    i
}

/// How many newlines stand in `src[a..b)`.
fn count_newlines(src: &Vec<u8>, a: usize, b: usize) -> (r: usize)
    requires
        a <= b <= src@.len(),
    ensures
        r as int == newlines_in(src@, a as int, b as int),
        r <= b - a,
{
    let mut cnt: usize = 0;
    let mut i: usize = a;
    while i < b
        invariant
            a <= i <= b <= src@.len(),
            cnt <= i - a,
            newlines_in(src@, a as int, b as int) == cnt + newlines_in(src@, i as int, b as int),
        decreases b - i,
    {
        proof {
            lemma_newlines_bounds(src@, i + 1, b as int);
        }
        if src[i] == 10 {
            cnt += 1;
        }
        i += 1;
    }
    cnt
}

/// Whether `c` starts an identifier.
fn byte_is_alpha(c: u8) -> (r: bool)
    ensures
        r == is_alpha(c),
{
    (65 <= c && c <= 90) || (97 <= c && c <= 122)
}

/// Whether `c` continues an identifier.
fn byte_is_alnum(c: u8) -> (r: bool)
    ensures
        r == is_alnum(c),
{
    byte_is_alpha(c) || crate::number::byte_is_digit(c)
}

/// What one executable dispatch yields.
struct StepOut {
    token: Option<Token>,
    err: Option<TokenizationError>,
    pos: usize,
    line: usize,
    col: usize,
}

/// One executable dispatch, equal to `scan_step` in every part.
fn scan_step_exec(src: &Vec<u8>, pos: usize, line: usize, col: usize) -> (r: StepOut)
    requires
        pos < src@.len(),
        col <= pos,
        line <= pos,
    ensures
        ({
            let st = scan_step(src@, pos as int, line as nat, col as nat);
            &&& (match r.token {
                Some(t) => Some(t.view()),
                None => None::<TokenV>,
            }) == st.token
            &&& r.err == st.err
            &&& r.pos as int == st.pos
            &&& r.line as nat == st.line
            &&& r.col as nat == st.col
            &&& pos < r.pos <= src@.len()
            &&& r.col <= r.pos
            &&& r.line <= r.pos
        }),
{
    let len = src.len();
    let c = src[pos];
    if c == 40 || c == 41 || c == 123 || c == 125 || c == 44 || c == 46 || c == 45 || c == 43
        || c == 59 || c == 42 {
        let kind = if c == 40 {
            TokenType::LeftParen
        } else if c == 41 {
            TokenType::RightParen
        } else if c == 123 {
            TokenType::LeftBrace
        } else if c == 125 {
            TokenType::RightBrace
        } else if c == 44 {
            TokenType::Comma
        } else if c == 46 {
            TokenType::Dot
        } else if c == 45 {
            TokenType::Minus
        } else if c == 43 {
            TokenType::Plus
        } else if c == 59 {
            TokenType::Semicolon
        } else {
            TokenType::Star
        };
        let t = Token::new(kind, copy_range(src, pos, pos + 1), line, col + 1);
        StepOut { token: Some(t), err: None, pos: pos + 1, line, col: col + 1 }
    } else if c == 33 || c == 61 || c == 60 || c == 62 {
        let two = pos + 1 < len && src[pos + 1] == 61;
        let kind = if c == 33 {
            if two {
                TokenType::BangEqual
            } else {
                TokenType::Bang
            }
        } else if c == 61 {
            if two {
                TokenType::EqualEqual
            } else {
                TokenType::Equal
            }
        } else if c == 60 {
            if two {
                TokenType::LessEqual
            } else {
                TokenType::Less
            }
        } else {
            if two {
                TokenType::GreaterEqual
            } else {
                TokenType::Greater
            }
        };
        let e = if two {
            pos + 2
        } else {
            pos + 1
        };
        let t = Token::new(kind, copy_range(src, pos, e), line, col + (e - pos));
        StepOut { token: Some(t), err: None, pos: e, line, col: col + (e - pos) }
    } else if c == 47 {
        if pos + 1 < len && src[pos + 1] == 47 {
            let e = find_comment_end(src, pos + 2);
            StepOut { token: None, err: None, pos: e, line, col: col + (e - pos) }
        } else {
            let t = Token::new(TokenType::Slash, copy_range(src, pos, pos + 1), line, col + 1);
            StepOut { token: Some(t), err: None, pos: pos + 1, line, col: col + 1 }
        }
    } else if c == 32 || c == 13 || c == 9 {
        StepOut { token: None, err: None, pos: pos + 1, line, col: col + 1 }
    } else if c == 10 {
        StepOut { token: None, err: None, pos: pos + 1, line: line + 1, col: 0 }
    } else if c == 34 {
        let e = find_string_end(src, pos + 1);
        let nl = count_newlines(src, pos + 1, e);
        let line2 = line + nl;
        let col2 = col + (e - pos);
        let t = Token::new(TokenType::StringLiteral, copy_range(src, pos + 1, e), line2, col2);
        if e >= len {
            StepOut {
                token: Some(t),
                err: Some(
                    TokenizationError {
                        line: line2,
                        column: col2,
                        error_type: TokenizationErrorType::UnFinishedString,
                    },
                ),
                pos: e,
                line: line2,
                col: col2,
            }
        } else {
            StepOut { token: Some(t), err: None, pos: e + 1, line: line2, col: col2 + 1 }
        }
    } else if crate::number::byte_is_digit(c) {
        let e1 = find_digits_end(src, pos);
        let e2 = if e1 < len && src[e1] == 46 && e1 + 1 < len && crate::number::byte_is_digit(
            src[e1 + 1],
        ) {
            find_digits_end(src, e1 + 1)
        } else {
            e1
        };
        proof {
            assert(digits_end(src@, pos as int) == digits_end(src@, pos + 1));
            lemma_digits_end_bounds(src@, pos + 1);
            if e1 < len && src@[e1 as int] == 46 && e1 + 1 < len && is_digit(src@[e1 + 1]) {
                lemma_digits_end_bounds(src@, e1 + 2);
                assert(digits_end(src@, e1 + 1) == digits_end(src@, e1 + 2));
            }
        }
        let t = Token::new(TokenType::Number, copy_range(src, pos, e2), line, col + (e2 - pos));
        StepOut { token: Some(t), err: None, pos: e2, line, col: col + (e2 - pos) }
    } else if byte_is_alpha(c) {
        let e = find_ident_end(src, pos + 1);
        let lexeme = copy_range(src, pos, e);
        let kind = TokenType::keyword(lexeme.as_slice());
        let t = Token::new(kind, lexeme, line, col + (e - pos));
        StepOut { token: Some(t), err: None, pos: e, line, col: col + (e - pos) }
    } else {
        StepOut {
            token: None,
            err: Some(
                TokenizationError {
                    line,
                    column: col + 1,
                    error_type: TokenizationErrorType::UnIdentifiedLetter(c),
                },
            ),
            pos: pos + 1,
            line,
            col: col + 1,
        }
    }
}

/// The scanner over one source text; one pass reads it whole.
pub struct Scanner {
    source: Vec<u8>,
}

impl Scanner {
    /// The source bytes.
    pub closed spec fn src(&self) -> Seq<u8> {
        self.source@
    }

    /// A scanner over `source`, at its start.
    pub fn new(source: Vec<u8>) -> (r: Self)
        ensures
            r.src() == source@,
    {
        Scanner { source }
    }

    /// Scans the whole source: every token of `spec_scan_source`, closed
    /// by the end-of-file token, and every diagnostic, in order.
    pub fn scan(self) -> (r: (Vec<Token>, Vec<TokenizationError>))
        ensures
            view_tokens(r.0@) == spec_scan_source(self.src()).tokens,
            r.1@ == spec_scan_source(self.src()).errs,
    {
        let Scanner { source } = self;
        let mut line: usize = 0;
        let mut column: usize = 0;
        let mut current: usize = 0;
        let mut tokens: Vec<Token> = Vec::new();
        let mut errors: Vec<TokenizationError> = Vec::new();
        let len = source.len();
        while current < len
            invariant
                len == source@.len(),
                current <= len,
                column <= current,
                line <= current,
                spec_scan_source(source@).tokens == view_tokens(tokens@) + spec_scan(
                    source@,
                    current as int,
                    line as nat,
                    column as nat,
                ).tokens,
                spec_scan_source(source@).errs == errors@ + spec_scan(
                    source@,
                    current as int,
                    line as nat,
                    column as nat,
                ).errs,
            decreases len - current,
        {
            let ghost pos0 = current as int;
            let ghost line0 = line as nat;
            let ghost col0 = column as nat;
            let ghost toks0 = tokens@;
            let ghost errs0 = errors@;
            let step = scan_step_exec(&source, current, line, column);
            let ghost st = scan_step(source@, pos0, line0, col0);
            proof {
                assert(spec_scan(source@, pos0, line0, col0).tokens == (match st.token {
                    Some(t) => seq![t],
                    None => Seq::<TokenV>::empty(),
                }) + spec_scan(source@, st.pos, st.line, st.col).tokens);
                assert(spec_scan(source@, pos0, line0, col0).errs == (match st.err {
                    Some(e) => seq![e],
                    None => Seq::<TokenizationError>::empty(),
                }) + spec_scan(source@, st.pos, st.line, st.col).errs);
            }
            match step.token {
                Some(t) => {
                    tokens.push(t);
                    proof {
                        lemma_view_tokens(tokens@);
                        lemma_view_tokens(toks0);
                        assert forall|k: int|
                            0 <= k < tokens@.len() implies view_tokens(tokens@)[k] == (view_tokens(
                            toks0,
                        ) + seq![st.token->0])[k] by {
                            assert(view_tokens(tokens@)[k] == tokens@[k].view());
                            if k < toks0.len() {
                                assert(tokens@[k] == toks0[k]);
                                assert(view_tokens(toks0)[k] == toks0[k].view());
                            }
                        }
                        assert(view_tokens(tokens@) =~= view_tokens(toks0) + seq![st.token->0]);
                        assert(view_tokens(toks0) + (seq![st.token->0] + spec_scan(
                            source@,
                            st.pos,
                            st.line,
                            st.col,
                        ).tokens) =~= view_tokens(tokens@) + spec_scan(
                            source@,
                            st.pos,
                            st.line,
                            st.col,
                        ).tokens);
                    }
                },
                None => {
                    proof {
                        assert(view_tokens(toks0) + (Seq::<TokenV>::empty() + spec_scan(
                            source@,
                            st.pos,
                            st.line,
                            st.col,
                        ).tokens) =~= view_tokens(tokens@) + spec_scan(
                            source@,
                            st.pos,
                            st.line,
                            st.col,
                        ).tokens);
                    }
                },
            }
            match step.err {
                Some(e) => {
                    errors.push(e);
                    proof {
                        assert(errs0 + (seq![st.err->0] + spec_scan(
                            source@,
                            st.pos,
                            st.line,
                            st.col,
                        ).errs) =~= errors@ + spec_scan(source@, st.pos, st.line, st.col).errs);
                    }
                },
                None => {
                    proof {
                        assert(errs0 + (Seq::<TokenizationError>::empty() + spec_scan(
                            source@,
                            st.pos,
                            st.line,
                            st.col,
                        ).errs) =~= errors@ + spec_scan(source@, st.pos, st.line, st.col).errs);
                    }
                },
            }
            current = step.pos;
            line = step.line;
            column = step.col;
        }
        let eof = Token::new(TokenType::Eof, Vec::new(), line, column);
        let ghost toks0 = tokens@;
        tokens.push(eof);
        proof {
            assert(spec_scan(source@, current as int, line as nat, column as nat).tokens
                =~= seq![
                TokenV {
                    kind: TokenType::Eof,
                    lexeme: Seq::empty(),
                    line: line as nat,
                    column: column as nat,
                },
            ]);
            lemma_view_tokens(tokens@);
            lemma_view_tokens(toks0);
            assert(tokens@[toks0.len() as int].view().lexeme =~= Seq::<u8>::empty());
            assert(tokens@[toks0.len() as int].view() == (TokenV {
                kind: TokenType::Eof,
                lexeme: Seq::<u8>::empty(),
                line: line as nat,
                column: column as nat,
            }));
            assert forall|k: int|
                0 <= k < tokens@.len() implies view_tokens(tokens@)[k] == (view_tokens(toks0)
                + spec_scan(source@, current as int, line as nat, column as nat).tokens)[k] by {
                assert(view_tokens(tokens@)[k] == tokens@[k].view());
                if k < toks0.len() {
                    assert(tokens@[k] == toks0[k]);
                    assert(view_tokens(toks0)[k] == toks0[k].view());
                }
            }
            assert(view_tokens(tokens@) =~= view_tokens(toks0) + spec_scan(
                source@,
                current as int,
                line as nat,
                column as nat,
            ).tokens);
            assert(errors@ + spec_scan(source@, current as int, line as nat, column as nat).errs
                =~= errors@);
        }
        (tokens, errors)
    }

    /// Scans the whole source; the token sequence when it is clean, the
    /// full diagnostic list when it is not.
    pub fn scan_tokens(self) -> (r: Result<Vec<Token>, Errors<TokenizationError>>)
        ensures
            match r {
                Ok(toks) => spec_scan_source(self.src()).errs.len() == 0 && view_tokens(toks@)
                    == spec_scan_source(self.src()).tokens,
                Err(e) => e.items@ == spec_scan_source(self.src()).errs && e.items@.len() > 0,
            },
    {
        let (tokens, errors) = self.scan();
        if errors.len() == 0 {
            proof {
                assert(spec_scan_source(self.src()).errs =~= Seq::<TokenizationError>::empty());
            }
            Ok(tokens)
        } else {
            Err(Errors::from_vec(errors))
        }
    }
}

} // verus!
