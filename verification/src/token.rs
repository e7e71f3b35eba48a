//! Tokens: the classified lexemes that the scanner produces and the parser
//! consumes, and the scanner's diagnostics.

use vstd::prelude::*;

verus! {

/// The closed set of token kinds: single- and double-character
/// punctuation, the three literal kinds, the keywords, an error sentinel
/// that lets parsing continue after a failed `consume`, and the
/// end-of-file mark that always closes a token sequence.
#[derive(Clone, Copy, Debug, PartialEq, Eq, Structural)]
pub enum TokenType {
    LeftParen,
    RightParen,
    LeftBrace,
    RightBrace,
    Comma,
    Dot,
    Minus,
    Plus,
    Semicolon,
    Slash,
    Star,
    Bang,
    BangEqual,
    Equal,
    EqualEqual,
    Greater,
    GreaterEqual,
    Less,
    LessEqual,
    Identifier,
    StringLiteral,
    Number,
    And,
    Else,
    False,
    Fun,
    For,
    If,
    Nil,
    Or,
    Return,
    True,
    Var,
    While,
    TokenError,
    Eof,
}

/// Which keyword a given identifier text names, or `Identifier` when it
/// names none.
pub open spec fn spec_keyword(s: Seq<u8>) -> TokenType {
    if s == seq![97u8, 110u8, 100u8] {
        TokenType::And
    } else if s == seq![101u8, 108u8, 115u8, 101u8] {
        TokenType::Else
    } else if s == seq![102u8, 97u8, 108u8, 115u8, 101u8] {
        TokenType::False
    } else if s == seq![102u8, 117u8, 110u8] {
        TokenType::Fun
    } else if s == seq![102u8, 111u8, 114u8] {
        TokenType::For
    } else if s == seq![105u8, 102u8] {
        TokenType::If
    } else if s == seq![110u8, 105u8, 108u8] {
        TokenType::Nil
    } else if s == seq![111u8, 114u8] {
        TokenType::Or
    } else if s == seq![114u8, 101u8, 116u8, 117u8, 114u8, 110u8] {
        TokenType::Return
    } else if s == seq![116u8, 114u8, 117u8, 101u8] {
        TokenType::True
    } else if s == seq![118u8, 97u8, 114u8] {
        TokenType::Var
    } else if s == seq![119u8, 104u8, 105u8, 108u8, 101u8] {
        TokenType::While
    } else {
        TokenType::Identifier
    }
}

/// Whether the byte slice `s` reads exactly as the word `w`.
fn bytes_is(s: &[u8], w: &[u8]) -> (r: bool)
    ensures
        r <==> s@ == w@,
{
    if s.len() != w.len() {
        proof {
            assert(s@.len() != w@.len());
        }
        return false;
    }
    let n = s.len();
    let mut i: usize = 0;
    while i < n
        invariant
            n == s@.len(),
            n == w@.len(),
            0 <= i <= n,
            forall|k: int| 0 <= k < i ==> s@[k] == w@[k],
        decreases n - i,
    {
        if s[i] != w[i] {
            proof {
                assert(s@[i as int] != w@[i as int]);
            }
            return false;
        }
        i += 1;
    }
    proof {
        assert(s@ =~= w@);
    }
    true
}

impl TokenType {
    /// Classifies an identifier text against the keyword table.
    pub fn keyword(st: &[u8]) -> (r: Self)
        ensures
            r == spec_keyword(st@),
    {
        if bytes_is(st, &[97u8, 110u8, 100u8]) {
            TokenType::And
        } else if bytes_is(st, &[101u8, 108u8, 115u8, 101u8]) {
            TokenType::Else
        } else if bytes_is(st, &[102u8, 97u8, 108u8, 115u8, 101u8]) {
            TokenType::False
        } else if bytes_is(st, &[102u8, 117u8, 110u8]) {
            TokenType::Fun
        } else if bytes_is(st, &[102u8, 111u8, 114u8]) {
            TokenType::For
        } else if bytes_is(st, &[105u8, 102u8]) {
            TokenType::If
        } else if bytes_is(st, &[110u8, 105u8, 108u8]) {
            TokenType::Nil
        } else if bytes_is(st, &[111u8, 114u8]) {
            TokenType::Or
        } else if bytes_is(st, &[114u8, 101u8, 116u8, 117u8, 114u8, 110u8]) {
            TokenType::Return
        } else if bytes_is(st, &[116u8, 114u8, 117u8, 101u8]) {
            TokenType::True
        } else if bytes_is(st, &[118u8, 97u8, 114u8]) {
            TokenType::Var
        } else if bytes_is(st, &[119u8, 104u8, 105u8, 108u8, 101u8]) {
            TokenType::While
        } else {
            TokenType::Identifier
        }
    }
}

/// The mathematical shadow of a token: kind, lexeme bytes and position.
pub struct TokenV {
    pub kind: TokenType,
    pub lexeme: Seq<u8>,
    pub line: nat,
    pub column: nat,
}

/// One classified lexeme with the source position where it started.
#[derive(Clone, Debug)]
pub struct Token {
    token_type: TokenType,
    lexeme: Vec<u8>,
    line: usize,
    column: usize,
}

impl Token {
    pub closed spec fn view(&self) -> TokenV {
        TokenV {
            kind: self.token_type,
            lexeme: self.lexeme@,
            line: self.line as nat,
            column: self.column as nat,
        }
    }

    /// Builds a token.
    pub fn new(token_type: TokenType, lexeme: Vec<u8>, line: usize, column: usize) -> (r: Self)
        ensures
            r.view() == (TokenV { kind: token_type, lexeme: lexeme@, line: line as nat, column: column as nat }),
    {
        Token { token_type, lexeme, line, column }
    }

    /// The placeholder that a failed `consume` yields so that parsing can
    /// continue.
    pub fn err_token() -> (r: Self)
        ensures
            r.view() == (TokenV { kind: TokenType::TokenError, lexeme: Seq::<u8>::empty(), line: 0, column: 0 }),
    {
        let r = Token { token_type: TokenType::TokenError, lexeme: Vec::new(), line: 0, column: 0 };
        proof {
            assert(r.view().lexeme =~= Seq::<u8>::empty());
        }
        r
    }

    /// The token's kind.
    pub fn get_type(&self) -> (r: TokenType)
        ensures
            r == self.view().kind,
    {
        self.token_type
    }

    /// Whether the token is of the given kind.
    pub fn match_token(&self, token_type: TokenType) -> (r: bool)
        ensures
            r <==> self.view().kind == token_type,
    {
        self.token_type == token_type
    }

    /// Whether the token is of one of the given kinds.
    pub fn matches_token(&self, token_types: &[TokenType]) -> (r: bool)
        ensures
            r <==> token_types@.contains(self.view().kind),
    {
        let n = token_types.len();
        let mut i: usize = 0;
        while i < n
            invariant
                n == token_types@.len(),
                0 <= i <= n,
                forall|k: int| 0 <= k < i ==> token_types@[k] != self.view().kind,
            decreases n - i,
        {
            if token_types[i] == self.token_type {
                proof {
                    assert(token_types@[i as int] == self.view().kind);
                }
                return true;
            }
            i += 1;
        }
        false
    }

    /// A copy of the token.
    pub fn dup(&self) -> (r: Token)
        ensures
            r.view() == self.view(),
    {
        Token {
            token_type: self.token_type,
            lexeme: crate::lox_object::clone_bytes(&self.lexeme),
            line: self.line,
            column: self.column,
        }
    }

    /// The lexeme bytes.
    pub fn as_bytes(&self) -> (r: &Vec<u8>)
        ensures
            r@ == self.view().lexeme,
    {
        &self.lexeme
    }

    /// The line the token started on.
    pub fn line(&self) -> (r: usize)
        ensures
            r as nat == self.view().line,
    {
        self.line
    }

    /// The column the token started on.
    pub fn column(&self) -> (r: usize)
        ensures
            r as nat == self.view().column,
    {
        self.column
    }
}

/// The two lexical faults the scanner reports.
#[derive(Clone, Copy, Debug, PartialEq, Eq, Structural)]
pub enum TokenizationErrorType {
    /// A byte that starts no token; the byte is carried along.
    UnIdentifiedLetter(u8),
    /// A string literal that the end of the source interrupts.
    UnFinishedString,
}

/// One lexical diagnostic: what went wrong and where.
#[derive(Clone, Copy, Debug, PartialEq, Eq, Structural)]
pub struct TokenizationError {
    pub line: usize,
    pub column: usize,
    pub error_type: TokenizationErrorType,
}

} // verus!
