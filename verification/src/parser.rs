//! The parser: recursive-descent, precedence-climbing construction of
//! the syntax tree from the token sequence, with per-statement error
//! recovery.
//!
//! Parsing never stops at the first fault and never panics: on an
//! unexpected token it records a diagnostic, synchronizes to the next
//! safe statement boundary, and goes on, so one pass surfaces many
//! independent faults. The whole behaviour is specified by a
//! specification-level parser (`sp_program` and friends) that runs under
//! an explicit budget on recursion depth — 16 budget units per token
//! cover the deepest grammar chain, so the budget is generous for any
//! input; should it ever run out, that too is a diagnostic, not a crash.
//! The executable parser is proved to return exactly the tree, the
//! diagnostics and the final position of the specification parser.

use crate::ast::{view_exprs, view_names, view_stmts, BinOp, Expr, ExprV, Lit, LitV, LogicalOp, Stmt, StmtV, UnaryOp};
use crate::lox_error::Errors;
use crate::number::spec_parse_number;
use crate::scanner::view_tokens;
use crate::token::{Token, TokenType, TokenV};
use vstd::prelude::*;

verus! {

/// The reasons a parse can fail, each tagged onto the offending token.
#[derive(Clone, Copy, Debug, PartialEq, Eq, Structural)]
pub enum ParserErrorType {
    MissingSemicolon,
    /// The left-hand side of `=` is not a bare variable reference.
    InvalidAssignment,
    MissingRightParen,
    MissingValue,
    MissingIdentifier,
    MissingRightBrace,
    MissingLeftParen,
    MissingLeftBrace,
    /// The recursion budget ran out: nesting deeper than the budget
    /// covers (never reached by the budget the parser itself picks).
    NestingTooDeep,
}

/// One syntax diagnostic: the offending token and the reason.
#[derive(Debug)]
pub struct ParserError {
    pub pos: Token,
    pub error_type: ParserErrorType,
}

/// The shadow of a syntax diagnostic.
pub struct PErrV {
    pub pos: TokenV,
    pub kind: ParserErrorType,
}

impl ParserError {
    pub open spec fn view(&self) -> PErrV {
        PErrV { pos: self.pos.view(), kind: self.error_type }
    }
}

/// The shadows of a diagnostic list.
pub open spec fn view_perrs(es: Seq<ParserError>) -> Seq<PErrV>
    decreases es.len(),
{
    if es.len() == 0 {
        Seq::empty()
    } else {
        seq![es[0].view()] + view_perrs(es.subrange(1, es.len() as int))
    }
}

/// `view_perrs`, element by element.
pub proof fn lemma_view_perrs(es: Seq<ParserError>)
    ensures
        view_perrs(es).len() == es.len(),
        forall|i: int| 0 <= i < es.len() ==> view_perrs(es)[i] == #[trigger] es[i].view(),
    decreases es.len(),
{
    if es.len() > 0 {
        let rest = es.subrange(1, es.len() as int);
        lemma_view_perrs(rest);
        assert forall|i: int| 0 <= i < es.len() implies view_perrs(es)[i] == #[trigger] es[i].view() by {
            if i > 0 {
                assert(rest[i - 1] == es[i]);
                assert(view_perrs(es)[i] == view_perrs(rest)[i - 1]);
            }
        }
    }
}

/// Whether the token at `i` exists and is of kind `k`.
pub open spec fn at_kind(toks: Seq<TokenV>, i: int, k: TokenType) -> bool {
    0 <= i < toks.len() && toks[i].kind == k
}

/// Whether position `i` is at (or past) the end of the file.
pub open spec fn at_eof(toks: Seq<TokenV>, i: int) -> bool {
    !(0 <= i < toks.len()) || toks[i].kind == TokenType::Eof
}

/// The placeholder token a diagnostic carries when the position has no
/// token.
pub open spec fn err_token_v() -> TokenV {
    TokenV { kind: TokenType::TokenError, lexeme: Seq::empty(), line: 0, column: 0 }
}

/// The token at `i`, or the placeholder.
pub open spec fn cur_or_err(toks: Seq<TokenV>, i: int) -> TokenV {
    if 0 <= i < toks.len() {
        toks[i]
    } else {
        err_token_v()
    }
}

/// A diagnostic of kind `et` at position `i`.
pub open spec fn perr(toks: Seq<TokenV>, i: int, et: ParserErrorType) -> PErrV {
    PErrV { pos: cur_or_err(toks, i), kind: et }
}

/// Synchronization: discards tokens until a safe statement boundary —
/// the start of a statement keyword, a brace, the end of the file — or
/// just past the next semicolon.
pub open spec fn sp_recovery(toks: Seq<TokenV>, i: int) -> int
    decreases toks.len() - i when 0 <= i
{
    if !(0 <= i < toks.len()) {
        i
    } else if toks[i].kind == TokenType::LeftBrace || toks[i].kind == TokenType::While
        || toks[i].kind == TokenType::Var || toks[i].kind == TokenType::For || toks[i].kind
        == TokenType::If || toks[i].kind == TokenType::Eof {
        i
    } else if toks[i].kind == TokenType::Semicolon {
        i + 1
    } else {
        sp_recovery(toks, i + 1)
    }
}


/// Law: synchronization never moves backwards and always lands at a
/// safe boundary — a statement keyword, a brace, the end of the
/// sequence — or just past a semicolon. Parsing continues from there,
/// which is how one pass surfaces many independent faults.
pub proof fn lemma_recovery_synchronizes(toks: Seq<TokenV>, i: int)
    requires
        0 <= i <= toks.len(),
    ensures
        i <= sp_recovery(toks, i) <= toks.len(),
        ({
            let j = sp_recovery(toks, i);
            j == toks.len() || toks[j].kind == TokenType::LeftBrace || toks[j].kind
                == TokenType::While || toks[j].kind == TokenType::Var || toks[j].kind
                == TokenType::For || toks[j].kind == TokenType::If || toks[j].kind
                == TokenType::Eof || (j >= 1 && toks[j - 1].kind == TokenType::Semicolon)
        }),
    decreases toks.len() - i,
{
    if i < toks.len() && !(toks[i].kind == TokenType::LeftBrace || toks[i].kind == TokenType::While
        || toks[i].kind == TokenType::Var || toks[i].kind == TokenType::For || toks[i].kind
        == TokenType::If || toks[i].kind == TokenType::Eof) && toks[i].kind
        != TokenType::Semicolon {
        lemma_recovery_synchronizes(toks, i + 1);
    }
}

/// What consuming an expected token yields: the diagnostics (empty on
/// success) and the next position (past the token on success, at the
/// synchronization point on failure).
pub open spec fn sp_consume(toks: Seq<TokenV>, i: int, k: TokenType, et: ParserErrorType) -> (
    Seq<PErrV>,
    int,
) {
    if at_kind(toks, i, k) {
        (Seq::empty(), i + 1)
    } else {
        (seq![perr(toks, i, et)], sp_recovery(toks, i))
    }
}

/// What parsing an expression yields: the tree, the diagnostics, and
/// the next position.
pub struct PExpr {
    pub expr: ExprV,
    pub errs: Seq<PErrV>,
    pub i: int,
}

/// What parsing a statement yields.
pub struct PStmt {
    pub stmt: StmtV,
    pub errs: Seq<PErrV>,
    pub i: int,
}

/// What parsing a statement list yields.
pub struct PStmts {
    pub stmts: Seq<StmtV>,
    pub errs: Seq<PErrV>,
    pub i: int,
}

/// What parsing an argument list yields.
pub struct PArgs {
    pub args: Seq<ExprV>,
    pub errs: Seq<PErrV>,
    pub i: int,
}

/// What parsing a parameter list yields.
pub struct PParams {
    pub params: Seq<Seq<u8>>,
    pub errs: Seq<PErrV>,
    pub i: int,
}

/// The out-of-budget expression result.
pub open spec fn too_deep_expr(toks: Seq<TokenV>, i: int) -> PExpr {
    PExpr {
        expr: ExprV::Literal(LitV::Nil),
        errs: seq![perr(toks, i, ParserErrorType::NestingTooDeep)],
        i,
    }
}

/// The out-of-budget statement result.
pub open spec fn too_deep_stmt(toks: Seq<TokenV>, i: int) -> PStmt {
    PStmt {
        stmt: StmtV::Expression(ExprV::Literal(LitV::Nil)),
        errs: seq![perr(toks, i, ParserErrorType::NestingTooDeep)],
        i,
    }
}

/// Which operator of precedence level `lv` the token kind `k` is, if
/// any. Level 0 binds loosest: `or`; then `and`; equality; comparison;
/// terms; factors.
pub open spec fn level_op(lv: int, k: TokenType) -> Option<Result<LogicalOp, BinOp>> {
    if lv == 0 && k == TokenType::Or {
        Some(Ok(LogicalOp::Or))
    } else if lv == 1 && k == TokenType::And {
        Some(Ok(LogicalOp::And))
    } else if lv == 2 && k == TokenType::EqualEqual {
        Some(Err(BinOp::Equal))
    } else if lv == 2 && k == TokenType::BangEqual {
        Some(Err(BinOp::NotEqual))
    } else if lv == 3 && k == TokenType::Greater {
        Some(Err(BinOp::Greater))
    } else if lv == 3 && k == TokenType::GreaterEqual {
        Some(Err(BinOp::GreaterEqual))
    } else if lv == 3 && k == TokenType::Less {
        Some(Err(BinOp::Less))
    } else if lv == 3 && k == TokenType::LessEqual {
        Some(Err(BinOp::LessEqual))
    } else if lv == 4 && k == TokenType::Plus {
        Some(Err(BinOp::Add))
    } else if lv == 4 && k == TokenType::Minus {
        Some(Err(BinOp::Sub))
    } else if lv == 5 && k == TokenType::Star {
        Some(Err(BinOp::Mul))
    } else if lv == 5 && k == TokenType::Slash {
        Some(Err(BinOp::Div))
    } else {
        None
    }
}

/// The node an operator of level `lv` builds.
pub open spec fn level_node(op: Result<LogicalOp, BinOp>, l: ExprV, r: ExprV) -> ExprV {
    match op {
        Ok(lop) => ExprV::Logical(Box::new(l), lop, Box::new(r)),
        Err(bop) => ExprV::Binary(Box::new(l), bop, Box::new(r)),
    }
}

/// A primary expression: a literal, a variable, or a parenthesized
/// expression; anything else is a `MissingValue` diagnostic, a `nil`
/// placeholder, and synchronization.
pub open spec fn sp_primary(toks: Seq<TokenV>, i: int, d: nat) -> PExpr
    decreases d,
{
    if d == 0 {
        too_deep_expr(toks, i)
    } else if at_kind(toks, i, TokenType::True) {
        PExpr { expr: ExprV::Literal(LitV::True), errs: Seq::empty(), i: i + 1 }
    } else if at_kind(toks, i, TokenType::False) {
        PExpr { expr: ExprV::Literal(LitV::False), errs: Seq::empty(), i: i + 1 }
    } else if at_kind(toks, i, TokenType::Nil) {
        PExpr { expr: ExprV::Literal(LitV::Nil), errs: Seq::empty(), i: i + 1 }
    } else if at_kind(toks, i, TokenType::Number) {
        PExpr {
            expr: ExprV::Literal(LitV::Number(spec_parse_number(toks[i].lexeme))),
            errs: Seq::empty(),
            i: i + 1,
        }
    } else if at_kind(toks, i, TokenType::StringLiteral) {
        PExpr { expr: ExprV::Literal(LitV::Text(toks[i].lexeme)), errs: Seq::empty(), i: i + 1 }
    } else if at_kind(toks, i, TokenType::Identifier) {
        PExpr { expr: ExprV::Variable(toks[i].lexeme), errs: Seq::empty(), i: i + 1 }
    } else if at_kind(toks, i, TokenType::LeftParen) {
        let e = sp_assignment(toks, i + 1, (d - 1) as nat);
        if at_kind(toks, e.i, TokenType::RightParen) {
            PExpr { expr: ExprV::Grouping(Box::new(e.expr)), errs: e.errs, i: e.i + 1 }
        } else {
            PExpr {
                expr: ExprV::Grouping(Box::new(e.expr)),
                errs: e.errs + seq![perr(toks, e.i, ParserErrorType::MissingRightParen)],
                i: sp_recovery(toks, e.i),
            }
        }
    } else {
        PExpr {
            expr: ExprV::Literal(LitV::Nil),
            errs: seq![perr(toks, i, ParserErrorType::MissingValue)],
            i: sp_recovery(toks, i),
        }
    }
}

/// A call chain: a primary followed by any number of argument lists.
pub open spec fn sp_call(toks: Seq<TokenV>, i: int, d: nat) -> PExpr
    decreases d,
{
    if d == 0 {
        too_deep_expr(toks, i)
    } else {
        let e = sp_primary(toks, i, (d - 1) as nat);
        let rest = sp_call_rest(toks, e.expr, e.i, (d - 1) as nat);
        PExpr { expr: rest.expr, errs: e.errs + rest.errs, i: rest.i }
    }
}

/// The `(...)` tails of a call chain.
pub open spec fn sp_call_rest(toks: Seq<TokenV>, callee: ExprV, i: int, d: nat) -> PExpr
    decreases d,
{
    if d == 0 {
        PExpr { expr: callee, errs: seq![perr(toks, i, ParserErrorType::NestingTooDeep)], i }
    } else if at_kind(toks, i, TokenType::LeftParen) {
        let fc = sp_finish_call(toks, callee, i + 1, (d - 1) as nat);
        let rest = sp_call_rest(toks, fc.expr, fc.i, (d - 1) as nat);
        PExpr { expr: rest.expr, errs: fc.errs + rest.errs, i: rest.i }
    } else {
        PExpr { expr: callee, errs: Seq::empty(), i }
    }
}

/// One argument list and its closing parenthesis.
pub open spec fn sp_finish_call(toks: Seq<TokenV>, callee: ExprV, i: int, d: nat) -> PExpr
    decreases d,
{
    if d == 0 {
        PExpr { expr: callee, errs: seq![perr(toks, i, ParserErrorType::NestingTooDeep)], i }
    } else if at_kind(toks, i, TokenType::RightParen) {
        PExpr { expr: ExprV::Call(Box::new(callee), Seq::empty()), errs: Seq::empty(), i: i + 1 }
    } else {
        let a = sp_arguments(toks, i, (d - 1) as nat);
        let c = sp_consume(toks, a.i, TokenType::RightParen, ParserErrorType::MissingRightParen);
        PExpr { expr: ExprV::Call(Box::new(callee), a.args), errs: a.errs + c.0, i: c.1 }
    }
}

/// A comma-separated argument list.
pub open spec fn sp_arguments(toks: Seq<TokenV>, i: int, d: nat) -> PArgs
    decreases d,
{
    if d == 0 {
        PArgs {
            args: seq![ExprV::Literal(LitV::Nil)],
            errs: seq![perr(toks, i, ParserErrorType::NestingTooDeep)],
            i,
        }
    } else {
        let e = sp_assignment(toks, i, (d - 1) as nat);
        if at_kind(toks, e.i, TokenType::Comma) {
            let rest = sp_arguments(toks, e.i + 1, (d - 1) as nat);
            PArgs { args: seq![e.expr] + rest.args, errs: e.errs + rest.errs, i: rest.i }
        } else {
            PArgs { args: seq![e.expr], errs: e.errs, i: e.i }
        }
    }
}

/// A unary chain: `!` and `-` prefixes down to a call chain.
pub open spec fn sp_unary(toks: Seq<TokenV>, i: int, d: nat) -> PExpr
    decreases d,
{
    if d == 0 {
        too_deep_expr(toks, i)
    } else if at_kind(toks, i, TokenType::Bang) {
        let e = sp_unary(toks, i + 1, (d - 1) as nat);
        PExpr { expr: ExprV::Unary(UnaryOp::Not, Box::new(e.expr)), errs: e.errs, i: e.i }
    } else if at_kind(toks, i, TokenType::Minus) {
        let e = sp_unary(toks, i + 1, (d - 1) as nat);
        PExpr { expr: ExprV::Unary(UnaryOp::Negative, Box::new(e.expr)), errs: e.errs, i: e.i }
    } else {
        sp_call(toks, i, (d - 1) as nat)
    }
}

/// One of the six binary precedence levels: its operand chain, folded
/// left-associatively.
pub open spec fn sp_binary(toks: Seq<TokenV>, lv: int, i: int, d: nat) -> PExpr
    decreases d,
{
    if d == 0 {
        too_deep_expr(toks, i)
    } else {
        let e = if lv >= 5 {
            sp_unary(toks, i, (d - 1) as nat)
        } else {
            sp_binary(toks, lv + 1, i, (d - 1) as nat)
        };
        let rest = sp_bin_rest(toks, lv, e.expr, e.i, (d - 1) as nat);
        PExpr { expr: rest.expr, errs: e.errs + rest.errs, i: rest.i }
    }
}

/// The operator tail of one precedence level.
pub open spec fn sp_bin_rest(toks: Seq<TokenV>, lv: int, acc: ExprV, i: int, d: nat) -> PExpr
    decreases d,
{
    if d == 0 {
        PExpr { expr: acc, errs: seq![perr(toks, i, ParserErrorType::NestingTooDeep)], i }
    } else if 0 <= i < toks.len() && level_op(lv, toks[i].kind) is Some {
        let op = level_op(lv, toks[i].kind)->0;
        let e = if lv >= 5 {
            sp_unary(toks, i + 1, (d - 1) as nat)
        } else {
            sp_binary(toks, lv + 1, i + 1, (d - 1) as nat)
        };
        let rest = sp_bin_rest(toks, lv, level_node(op, acc, e.expr), e.i, (d - 1) as nat);
        PExpr { expr: rest.expr, errs: e.errs + rest.errs, i: rest.i }
    } else {
        PExpr { expr: acc, errs: Seq::empty(), i }
    }
}

/// An assignment, or anything looser: `IDENTIFIER "=" assignment`
/// (right-associative) over the `or` chain; a left-hand side that is
/// not a bare variable is an `InvalidAssignment` diagnostic, not a
/// crash.
pub open spec fn sp_assignment(toks: Seq<TokenV>, i: int, d: nat) -> PExpr
    decreases d,
{
    if d == 0 {
        too_deep_expr(toks, i)
    } else {
        let e = sp_binary(toks, 0, i, (d - 1) as nat);
        if at_kind(toks, e.i, TokenType::Equal) {
            let rhs = sp_assignment(toks, e.i + 1, (d - 1) as nat);
            match e.expr {
                ExprV::Variable(name) => PExpr {
                    expr: ExprV::Assign(name, Box::new(rhs.expr)),
                    errs: e.errs + rhs.errs,
                    i: rhs.i,
                },
                _ => PExpr {
                    expr: ExprV::Assign(Seq::empty(), Box::new(rhs.expr)),
                    errs: e.errs + rhs.errs + seq![
                        perr(toks, rhs.i, ParserErrorType::InvalidAssignment),
                    ],
                    i: sp_recovery(toks, rhs.i),
                },
            }
        } else {
            e
        }
    }
}

/// A declaration: a function declaration, a variable declaration, or a
/// statement.
pub open spec fn sp_declaration(toks: Seq<TokenV>, i: int, d: nat) -> PStmt
    decreases d,
{
    if d == 0 {
        too_deep_stmt(toks, i)
    } else if at_kind(toks, i, TokenType::Fun) {
        sp_function(toks, i + 1, (d - 1) as nat)
    } else if at_kind(toks, i, TokenType::Var) {
        sp_var_decl(toks, i + 1, (d - 1) as nat)
    } else {
        sp_statement(toks, i, (d - 1) as nat)
    }
}

/// `var IDENTIFIER ("=" expression)? ";"`; a missing initializer means
/// `nil`.
pub open spec fn sp_var_decl(toks: Seq<TokenV>, i: int, d: nat) -> PStmt
    decreases d,
{
    if d == 0 {
        too_deep_stmt(toks, i)
    } else {
        let (name, errs0, i1): (Seq<u8>, Seq<PErrV>, int) = if at_kind(toks, i, TokenType::Identifier) {
            (toks[i].lexeme, Seq::empty(), i + 1)
        } else {
            (
                Seq::empty(),
                seq![perr(toks, i, ParserErrorType::MissingIdentifier)],
                sp_recovery(toks, i),
            )
        };
        let (init, errs1, i2): (ExprV, Seq<PErrV>, int) = if at_kind(toks, i1, TokenType::Equal) {
            let e = sp_assignment(toks, i1 + 1, (d - 1) as nat);
            (e.expr, e.errs, e.i)
        } else {
            (ExprV::Literal(LitV::Nil), Seq::empty(), i1)
        };
        let c = sp_consume(toks, i2, TokenType::Semicolon, ParserErrorType::MissingSemicolon);
        PStmt { stmt: StmtV::VarDecl(name, init), errs: errs0 + errs1 + c.0, i: c.1 }
    }
}

/// A statement: a conditional, a loop, a block, a `for` (desugared at
/// parse time), a `return`, or an expression statement.
pub open spec fn sp_statement(toks: Seq<TokenV>, i: int, d: nat) -> PStmt
    decreases d,
{
    if d == 0 {
        too_deep_stmt(toks, i)
    } else if at_kind(toks, i, TokenType::If) {
        sp_if(toks, i + 1, (d - 1) as nat)
    } else if at_kind(toks, i, TokenType::While) {
        sp_while_stmt(toks, i + 1, (d - 1) as nat)
    } else if at_kind(toks, i, TokenType::LeftBrace) {
        sp_block(toks, i + 1, (d - 1) as nat)
    } else if at_kind(toks, i, TokenType::For) {
        sp_for(toks, i + 1, (d - 1) as nat)
    } else if at_kind(toks, i, TokenType::Return) {
        sp_return(toks, i + 1, (d - 1) as nat)
    } else {
        sp_expr_stmt(toks, i, (d - 1) as nat)
    }
}

/// `expression ";"`.
pub open spec fn sp_expr_stmt(toks: Seq<TokenV>, i: int, d: nat) -> PStmt
    decreases d,
{
    if d == 0 {
        too_deep_stmt(toks, i)
    } else {
        let e = sp_assignment(toks, i, (d - 1) as nat);
        let c = sp_consume(toks, e.i, TokenType::Semicolon, ParserErrorType::MissingSemicolon);
        PStmt { stmt: StmtV::Expression(e.expr), errs: e.errs + c.0, i: c.1 }
    }
}

/// The declarations of a block, up to the closing brace or the end of
/// the file.
pub open spec fn sp_block_list(toks: Seq<TokenV>, i: int, d: nat) -> PStmts
    decreases d,
{
    if at_kind(toks, i, TokenType::RightBrace) || at_eof(toks, i) {
        PStmts { stmts: Seq::empty(), errs: Seq::empty(), i }
    } else if d == 0 {
        PStmts {
            stmts: Seq::empty(),
            errs: seq![perr(toks, i, ParserErrorType::NestingTooDeep)],
            i,
        }
    } else {
        let s = sp_declaration(toks, i, (d - 1) as nat);
        let rest = sp_block_list(toks, s.i, (d - 1) as nat);
        PStmts { stmts: seq![s.stmt] + rest.stmts, errs: s.errs + rest.errs, i: rest.i }
    }
}

/// `{ declaration* }`: a scope boundary.
pub open spec fn sp_block(toks: Seq<TokenV>, i: int, d: nat) -> PStmt
    decreases d,
{
    if d == 0 {
        too_deep_stmt(toks, i)
    } else {
        let l = sp_block_list(toks, i, (d - 1) as nat);
        let c = sp_consume(toks, l.i, TokenType::RightBrace, ParserErrorType::MissingRightBrace);
        PStmt { stmt: StmtV::Block(l.stmts), errs: l.errs + c.0, i: c.1 }
    }
}

/// `if "(" expression ")" statement ("else" statement)?`.
pub open spec fn sp_if(toks: Seq<TokenV>, i: int, d: nat) -> PStmt
    decreases d,
{
    if d == 0 {
        too_deep_stmt(toks, i)
    } else {
        let c0 = sp_consume(toks, i, TokenType::LeftParen, ParserErrorType::MissingLeftParen);
        let e = sp_assignment(toks, c0.1, (d - 1) as nat);
        let c1 = sp_consume(toks, e.i, TokenType::RightParen, ParserErrorType::MissingRightParen);
        let t = sp_statement(toks, c1.1, (d - 1) as nat);
        if at_kind(toks, t.i, TokenType::Else) {
            let el = sp_statement(toks, t.i + 1, (d - 1) as nat);
            PStmt {
                stmt: StmtV::If(e.expr, Box::new(t.stmt), Some(Box::new(el.stmt))),
                errs: c0.0 + e.errs + c1.0 + t.errs + el.errs,
                i: el.i,
            }
        } else {
            PStmt {
                stmt: StmtV::If(e.expr, Box::new(t.stmt), None),
                errs: c0.0 + e.errs + c1.0 + t.errs,
                i: t.i,
            }
        }
    }
}

/// `while "(" expression ")" statement`.
pub open spec fn sp_while_stmt(toks: Seq<TokenV>, i: int, d: nat) -> PStmt
    decreases d,
{
    if d == 0 {
        too_deep_stmt(toks, i)
    } else {
        let c0 = sp_consume(toks, i, TokenType::LeftParen, ParserErrorType::MissingLeftParen);
        let e = sp_assignment(toks, c0.1, (d - 1) as nat);
        let c1 = sp_consume(toks, e.i, TokenType::RightParen, ParserErrorType::MissingRightParen);
        let b = sp_statement(toks, c1.1, (d - 1) as nat);
        PStmt {
            stmt: StmtV::While(e.expr, Box::new(b.stmt)),
            errs: c0.0 + e.errs + c1.0 + b.errs,
            i: b.i,
        }
    }
}

/// `return expression ";"`.
pub open spec fn sp_return(toks: Seq<TokenV>, i: int, d: nat) -> PStmt
    decreases d,
{
    if d == 0 {
        too_deep_stmt(toks, i)
    } else {
        let e = sp_assignment(toks, i, (d - 1) as nat);
        let c = sp_consume(toks, e.i, TokenType::Semicolon, ParserErrorType::MissingSemicolon);
        PStmt { stmt: StmtV::Return(e.expr), errs: e.errs + c.0, i: c.1 }
    }
}

/// What the initializer clause of a `for` yields.
pub struct PForInit {
    pub init: Option<StmtV>,
    pub errs: Seq<PErrV>,
    pub i: int,
}

/// What the condition clause of a `for` yields.
pub struct PForCond {
    pub cond: ExprV,
    pub errs: Seq<PErrV>,
    pub i: int,
}

/// What the increment clause of a `for` yields.
pub struct PForInc {
    pub inc: Option<ExprV>,
    pub errs: Seq<PErrV>,
    pub i: int,
}

/// What the head of a `for` yields: everything between the
/// parentheses.
pub struct PForHead {
    pub init: Option<StmtV>,
    pub cond: ExprV,
    pub inc: Option<ExprV>,
    pub errs: Seq<PErrV>,
    pub i: int,
}

/// `"(" (varDecl | exprStmt | ";")`.
pub open spec fn sp_for_init(toks: Seq<TokenV>, i: int, d: nat) -> PForInit
    decreases d,
{
    if d == 0 {
        PForInit { init: None, errs: seq![perr(toks, i, ParserErrorType::NestingTooDeep)], i }
    } else {
        let c0 = sp_consume(toks, i, TokenType::LeftParen, ParserErrorType::MissingLeftParen);
        if at_kind(toks, c0.1, TokenType::Semicolon) {
            PForInit { init: None, errs: c0.0, i: c0.1 + 1 }
        } else if at_kind(toks, c0.1, TokenType::Var) {
            let v = sp_var_decl(toks, c0.1 + 1, (d - 1) as nat);
            PForInit { init: Some(v.stmt), errs: c0.0 + v.errs, i: v.i }
        } else {
            let es = sp_expr_stmt(toks, c0.1, (d - 1) as nat);
            PForInit { init: Some(es.stmt), errs: c0.0 + es.errs, i: es.i }
        }
    }
}

/// `expression? ";"`; a missing condition means `true`.
pub open spec fn sp_for_cond(toks: Seq<TokenV>, i: int, d: nat) -> PForCond
    decreases d,
{
    if d == 0 {
        PForCond {
            cond: ExprV::Literal(LitV::True),
            errs: seq![perr(toks, i, ParserErrorType::NestingTooDeep)],
            i,
        }
    } else {
        let (cond, errs, j): (ExprV, Seq<PErrV>, int) = if at_kind(toks, i, TokenType::Semicolon) {
            (ExprV::Literal(LitV::True), Seq::empty(), i)
        } else {
            let e = sp_assignment(toks, i, (d - 1) as nat);
            (e.expr, e.errs, e.i)
        };
        let c1 = sp_consume(toks, j, TokenType::Semicolon, ParserErrorType::MissingSemicolon);
        PForCond { cond, errs: errs + c1.0, i: c1.1 }
    }
}

/// `expression? ")"`.
pub open spec fn sp_for_inc(toks: Seq<TokenV>, i: int, d: nat) -> PForInc
    decreases d,
{
    if d == 0 {
        PForInc { inc: None, errs: seq![perr(toks, i, ParserErrorType::NestingTooDeep)], i }
    } else {
        let (inc, errs, j): (Option<ExprV>, Seq<PErrV>, int) = if at_kind(
            toks,
            i,
            TokenType::RightParen,
        ) {
            (None, Seq::empty(), i)
        } else {
            let e = sp_assignment(toks, i, (d - 1) as nat);
            (Some(e.expr), e.errs, e.i)
        };
        let c2 = sp_consume(toks, j, TokenType::RightParen, ParserErrorType::MissingRightParen);
        PForInc { inc, errs: errs + c2.0, i: c2.1 }
    }
}

/// The clauses of a `for` statement, between the parentheses.
pub open spec fn sp_for_head(toks: Seq<TokenV>, i: int, d: nat) -> PForHead
    decreases d,
{
    if d == 0 {
        PForHead {
            init: None,
            cond: ExprV::Literal(LitV::True),
            inc: None,
            errs: seq![perr(toks, i, ParserErrorType::NestingTooDeep)],
            i,
        }
    } else {
        let a = sp_for_init(toks, i, (d - 1) as nat);
        let b = sp_for_cond(toks, a.i, (d - 1) as nat);
        let c = sp_for_inc(toks, b.i, (d - 1) as nat);
        PForHead { init: a.init, cond: b.cond, inc: c.inc, errs: a.errs + b.errs + c.errs, i: c.i }
    }
}

/// `for "(" clauses ")" statement`, desugared at parse time: the
/// initializer comes first, then a `while` whose body runs the original
/// body and then the increment, all inside a block.
pub open spec fn sp_for(toks: Seq<TokenV>, i: int, d: nat) -> PStmt
    decreases d,
{
    if d == 0 {
        too_deep_stmt(toks, i)
    } else {
        let h = sp_for_head(toks, i, (d - 1) as nat);
        let b = sp_statement(toks, h.i, (d - 1) as nat);
        let while_body: Seq<StmtV> = match h.inc {
            Some(e) => seq![b.stmt, StmtV::Expression(e)],
            None => seq![b.stmt],
        };
        let w = StmtV::While(h.cond, Box::new(StmtV::Block(while_body)));
        let outer: Seq<StmtV> = match h.init {
            Some(s) => seq![s, w],
            None => seq![w],
        };
        PStmt { stmt: StmtV::Block(outer), errs: h.errs + b.errs, i: b.i }
    }
}

/// The comma-separated parameter names of a function declaration.
pub open spec fn sp_params(toks: Seq<TokenV>, i: int, d: nat) -> PParams
    decreases d,
{
    if d == 0 {
        PParams {
            params: Seq::empty(),
            errs: seq![perr(toks, i, ParserErrorType::NestingTooDeep)],
            i,
        }
    } else {
        let (p, errs0, i1): (Seq<u8>, Seq<PErrV>, int) = if at_kind(toks, i, TokenType::Identifier) {
            (toks[i].lexeme, Seq::empty(), i + 1)
        } else {
            (
                Seq::empty(),
                seq![perr(toks, i, ParserErrorType::MissingIdentifier)],
                sp_recovery(toks, i),
            )
        };
        if at_kind(toks, i1, TokenType::Comma) {
            let rest = sp_params(toks, i1 + 1, (d - 1) as nat);
            PParams { params: seq![p] + rest.params, errs: errs0 + rest.errs, i: rest.i }
        } else {
            PParams { params: seq![p], errs: errs0, i: i1 }
        }
    }
}

/// What the head of a function declaration yields: the name and the
/// parameter list, through the opening brace.
pub struct PFunHead {
    pub name: Seq<u8>,
    pub params: Seq<Seq<u8>>,
    pub errs: Seq<PErrV>,
    pub i: int,
}

/// `IDENTIFIER "(" parameters? ")" "{"`.
pub open spec fn sp_function_head(toks: Seq<TokenV>, i: int, d: nat) -> PFunHead
    decreases d,
{
    if d == 0 {
        PFunHead {
            name: Seq::empty(),
            params: Seq::empty(),
            errs: seq![perr(toks, i, ParserErrorType::NestingTooDeep)],
            i,
        }
    } else {
        let (name, errs0, i1): (Seq<u8>, Seq<PErrV>, int) = if at_kind(toks, i, TokenType::Identifier) {
            (toks[i].lexeme, Seq::empty(), i + 1)
        } else {
            (
                Seq::empty(),
                seq![perr(toks, i, ParserErrorType::MissingIdentifier)],
                sp_recovery(toks, i),
            )
        };
        let c0 = sp_consume(toks, i1, TokenType::LeftParen, ParserErrorType::MissingLeftParen);
        let (params, errs1, i2): (Seq<Seq<u8>>, Seq<PErrV>, int) = if at_kind(
            toks,
            c0.1,
            TokenType::RightParen,
        ) {
            (Seq::empty(), Seq::empty(), c0.1)
        } else {
            let ps = sp_params(toks, c0.1, (d - 1) as nat);
            (ps.params, ps.errs, ps.i)
        };
        let c1 = sp_consume(toks, i2, TokenType::RightParen, ParserErrorType::MissingRightParen);
        let c2 = sp_consume(toks, c1.1, TokenType::LeftBrace, ParserErrorType::MissingLeftBrace);
        PFunHead { name, params, errs: errs0 + c0.0 + errs1 + c1.0 + c2.0, i: c2.1 }
    }
}

/// `fun IDENTIFIER "(" parameters? ")" "{" declaration* "}"`.
pub open spec fn sp_function(toks: Seq<TokenV>, i: int, d: nat) -> PStmt
    decreases d,
{
    if d == 0 {
        too_deep_stmt(toks, i)
    } else {
        let h = sp_function_head(toks, i, (d - 1) as nat);
        let l = sp_block_list(toks, h.i, (d - 1) as nat);
        let c3 = sp_consume(toks, l.i, TokenType::RightBrace, ParserErrorType::MissingRightBrace);
        PStmt {
            stmt: StmtV::Function(h.name, h.params, l.stmts),
            errs: h.errs + l.errs + c3.0,
            i: c3.1,
        }
    }
}

/// `program -> declaration* EOF`.
pub open spec fn sp_program(toks: Seq<TokenV>, i: int, d: nat) -> PStmts
    decreases d,
{
    if at_eof(toks, i) {
        PStmts { stmts: Seq::empty(), errs: Seq::empty(), i }
    } else if d == 0 {
        PStmts {
            stmts: Seq::empty(),
            errs: seq![perr(toks, i, ParserErrorType::NestingTooDeep)],
            i,
        }
    } else {
        let s = sp_declaration(toks, i, (d - 1) as nat);
        let rest = sp_program(toks, s.i, (d - 1) as nat);
        PStmts { stmts: seq![s.stmt] + rest.stmts, errs: s.errs + rest.errs, i: rest.i }
    }
}

/// The budget the parser allots itself: generous for every input, since
/// the deepest grammar chain spends well under sixteen units per token.
pub open spec fn parse_budget(n: nat) -> nat {
    if 16 * n + 64 <= u64::MAX {
        (16 * n + 64) as nat
    } else {
        u64::MAX as nat
    }
}

/// The whole parse of a token sequence.
pub open spec fn sp_parse(toks: Seq<TokenV>) -> PStmts {
    sp_program(toks, 0, parse_budget(toks.len()))
}


/// Whether the token at `i` exists and is of kind `k`.
fn p_at(toks: &Vec<Token>, i: usize, k: TokenType) -> (r: bool)
    ensures
        r == at_kind(view_tokens(toks@), i as int, k),
        toks@.len() <= usize::MAX,
        view_tokens(toks@).len() == toks@.len(),
{
    proof {
        crate::scanner::lemma_view_tokens(toks@);
    }
    i < toks.len() && toks[i].match_token(k)
}

/// The token at `i`, or the placeholder.
fn cur_token(toks: &Vec<Token>, i: usize) -> (r: Token)
    ensures
        r.view() == cur_or_err(view_tokens(toks@), i as int),
{
    proof {
        crate::scanner::lemma_view_tokens(toks@);
    }
    if i < toks.len() {
        toks[i].dup()
    } else {
        let t = Token::err_token();
        proof {
            assert(t.view().lexeme =~= err_token_v().lexeme);
            assert(t.view() == err_token_v());
        }
        t
    }
}

/// Records a diagnostic of kind `et` at position `i`.
fn push_err(errs: &mut Vec<ParserError>, toks: &Vec<Token>, i: usize, et: ParserErrorType)
    ensures
        view_perrs(final(errs)@) == view_perrs(old(errs)@) + seq![
            perr(view_tokens(toks@), i as int, et),
        ],
{
    let pe = ParserError { pos: cur_token(toks, i), error_type: et };
    let ghost e0 = errs@;
    let ghost pev = pe.view();
    errs.push(pe);
    proof {
        lemma_view_perrs(errs@);
        lemma_view_perrs(e0);
        assert forall|k: int|
            0 <= k < errs@.len() implies view_perrs(errs@)[k] == (view_perrs(e0) + seq![pev])[k] by {
            assert(view_perrs(errs@)[k] == errs@[k].view());
            if k < e0.len() {
                assert(errs@[k] == e0[k]);
                assert(view_perrs(e0)[k] == e0[k].view());
            }
        }
        assert(view_perrs(errs@) =~= view_perrs(e0) + seq![pev]);
        assert(pev == perr(view_tokens(toks@), i as int, et));
    }
}

/// Whether the token at `j` stops synchronization: a statement keyword,
/// a brace, the end of the file, or a semicolon.
fn p_sync_stop(toks: &Vec<Token>, j: usize) -> (r: bool)
    requires
        j < toks@.len(),
    ensures
        ({
            let k = view_tokens(toks@)[j as int].kind;
            r == (k == TokenType::LeftBrace || k == TokenType::While || k == TokenType::Var || k
                == TokenType::For || k == TokenType::If || k == TokenType::Eof || k
                == TokenType::Semicolon)
        }),
{
    proof {
        crate::scanner::lemma_view_tokens(toks@);
    }
    let k = toks[j].get_type();
    k == TokenType::LeftBrace || k == TokenType::While || k == TokenType::Var || k
        == TokenType::For || k == TokenType::If || k == TokenType::Eof || k
        == TokenType::Semicolon
}

/// Synchronization, executably.
fn p_recovery(toks: &Vec<Token>, i: usize) -> (r: usize)
    requires
        i <= toks@.len(),
    ensures
        r as int == sp_recovery(view_tokens(toks@), i as int),
        i <= r <= toks@.len(),
{
    let ghost tv = view_tokens(toks@);
    proof {
        crate::scanner::lemma_view_tokens(toks@);
    }
    let n = toks.len();
    let mut j: usize = i;
    while j < n && !p_sync_stop(toks, j)
        invariant
            i <= j <= n,
            n == toks@.len(),
            tv == view_tokens(toks@),
            tv.len() == n,
            forall|q: int| 0 <= q < n ==> tv[q] == #[trigger] toks@[q].view(),
            sp_recovery(tv, i as int) == sp_recovery(tv, j as int),
        decreases n - j,
    {
        j += 1;
    }
    if j < n && toks[j].get_type() == TokenType::Semicolon {
        j + 1
    } else {
        j
    }
}

/// Consumes an expected token, or records the diagnostic and
/// synchronizes.
fn p_consume(
    toks: &Vec<Token>,
    i: usize,
    k: TokenType,
    et: ParserErrorType,
    errs: &mut Vec<ParserError>,
) -> (r: usize)
    requires
        i <= toks@.len(),
    ensures
        ({
            let c = sp_consume(view_tokens(toks@), i as int, k, et);
            r as int == c.1 && view_perrs(final(errs)@) == view_perrs(old(errs)@) + c.0 && r
                <= toks@.len()
        }),
{
    if p_at(toks, i, k) {
        proof {
            assert(view_perrs(errs@) =~= view_perrs(errs@) + Seq::<PErrV>::empty());
        }
        i + 1
    } else {
        push_err(errs, toks, i, et);
        p_recovery(toks, i)
    }
}

/// A primary expression, executably.
fn p_primary(toks: &Vec<Token>, i: usize, d: u64, errs: &mut Vec<ParserError>) -> (r: (Expr, usize))
    requires
        i <= toks@.len(),
    ensures
        ({
            let o = sp_primary(view_tokens(toks@), i as int, d as nat);
            o.expr == r.0.view() && o.i == r.1 as int && r.1 <= toks@.len() && view_perrs(
                final(errs)@,
            ) == view_perrs(old(errs)@) + o.errs
        }),
    decreases d,
{
    let ghost tv = view_tokens(toks@);
    proof {
        crate::scanner::lemma_view_tokens(toks@);
    }
    if d == 0 {
        push_err(errs, toks, i, ParserErrorType::NestingTooDeep);
        return (Expr::Literal(Lit::Nil), i);
    }
    if p_at(toks, i, TokenType::True) {
        proof {
            assert(view_perrs(errs@) =~= view_perrs(errs@) + Seq::<PErrV>::empty());
        }
        (Expr::Literal(Lit::True), i + 1)
    } else if p_at(toks, i, TokenType::False) {
        proof {
            assert(view_perrs(errs@) =~= view_perrs(errs@) + Seq::<PErrV>::empty());
        }
        (Expr::Literal(Lit::False), i + 1)
    } else if p_at(toks, i, TokenType::Nil) {
        proof {
            assert(view_perrs(errs@) =~= view_perrs(errs@) + Seq::<PErrV>::empty());
        }
        (Expr::Literal(Lit::Nil), i + 1)
    } else if p_at(toks, i, TokenType::Number) {
        let v = crate::number::parse_number(toks[i].as_bytes().as_slice());
        proof {
            assert(view_perrs(errs@) =~= view_perrs(errs@) + Seq::<PErrV>::empty());
        }
        (Expr::Literal(Lit::Number(v)), i + 1)
    } else if p_at(toks, i, TokenType::StringLiteral) {
        let text = crate::lox_object::clone_bytes(toks[i].as_bytes());
        proof {
            assert(view_perrs(errs@) =~= view_perrs(errs@) + Seq::<PErrV>::empty());
        }
        (Expr::Literal(Lit::Text(text)), i + 1)
    } else if p_at(toks, i, TokenType::Identifier) {
        let name = crate::lox_object::clone_bytes(toks[i].as_bytes());
        proof {
            assert(view_perrs(errs@) =~= view_perrs(errs@) + Seq::<PErrV>::empty());
        }
        (Expr::Variable(name), i + 1)
    } else if p_at(toks, i, TokenType::LeftParen) {
        let ghost e0 = errs@;
        let (e, j) = p_assignment(toks, i + 1, d - 1, errs);
        if p_at(toks, j, TokenType::RightParen) {
            (Expr::Grouping(Box::new(e)), j + 1)
        } else {
            let ghost e1 = errs@;
            push_err(errs, toks, j, ParserErrorType::MissingRightParen);
            let j2 = p_recovery(toks, j);
            proof {
                let o = sp_primary(tv, i as int, d as nat);
                assert(view_perrs(errs@) =~= view_perrs(e0) + o.errs);
            }
            (Expr::Grouping(Box::new(e)), j2)
        }
    } else {
        push_err(errs, toks, i, ParserErrorType::MissingValue);
        let j = p_recovery(toks, i);
        (Expr::Literal(Lit::Nil), j)
    }
}

/// A call chain, executably.
fn p_call(toks: &Vec<Token>, i: usize, d: u64, errs: &mut Vec<ParserError>) -> (r: (Expr, usize))
    requires
        i <= toks@.len(),
    ensures
        ({
            let o = sp_call(view_tokens(toks@), i as int, d as nat);
            o.expr == r.0.view() && o.i == r.1 as int && r.1 <= toks@.len() && view_perrs(
                final(errs)@,
            ) == view_perrs(old(errs)@) + o.errs
        }),
    decreases d,
{
    let ghost tv = view_tokens(toks@);
    if d == 0 {
        push_err(errs, toks, i, ParserErrorType::NestingTooDeep);
        return (Expr::Literal(Lit::Nil), i);
    }
    let ghost e0 = errs@;
    let (e, j) = p_primary(toks, i, d - 1, errs);
    let (e2, j2) = p_call_rest(toks, e, j, d - 1, errs);
    proof {
        let o = sp_call(tv, i as int, d as nat);
        assert(view_perrs(errs@) =~= view_perrs(e0) + o.errs);
    }
    (e2, j2)
}

/// The `(...)` tails of a call chain, executably.
fn p_call_rest(toks: &Vec<Token>, callee: Expr, i: usize, d: u64, errs: &mut Vec<ParserError>) -> (r:
    (Expr, usize))
    requires
        i <= toks@.len(),
    ensures
        ({
            let o = sp_call_rest(view_tokens(toks@), callee.view(), i as int, d as nat);
            o.expr == r.0.view() && o.i == r.1 as int && r.1 <= toks@.len() && view_perrs(
                final(errs)@,
            ) == view_perrs(old(errs)@) + o.errs
        }),
    decreases d,
{
    let ghost tv = view_tokens(toks@);
    if d == 0 {
        push_err(errs, toks, i, ParserErrorType::NestingTooDeep);
        return (callee, i);
    }
    let ghost cv = callee.view();
    if p_at(toks, i, TokenType::LeftParen) {
        let ghost e0 = errs@;
        let (fc, j) = p_finish_call(toks, callee, i + 1, d - 1, errs);
        let (e2, j2) = p_call_rest(toks, fc, j, d - 1, errs);
        proof {
            let o = sp_call_rest(tv, cv, i as int, d as nat);
            assert(view_perrs(errs@) =~= view_perrs(e0) + o.errs);
        }
        (e2, j2)
    } else {
        proof {
            assert(view_perrs(errs@) =~= view_perrs(errs@) + Seq::<PErrV>::empty());
        }
        (callee, i)
    }
}

/// One argument list and its closing parenthesis, executably.
fn p_finish_call(toks: &Vec<Token>, callee: Expr, i: usize, d: u64, errs: &mut Vec<ParserError>) -> (r: (Expr, usize))
    requires
        i <= toks@.len(),
    ensures
        ({
            let o = sp_finish_call(view_tokens(toks@), callee.view(), i as int, d as nat);
            o.expr == r.0.view() && o.i == r.1 as int && r.1 <= toks@.len() && view_perrs(
                final(errs)@,
            ) == view_perrs(old(errs)@) + o.errs
        }),
    decreases d,
{
    let ghost tv = view_tokens(toks@);
    let ghost cv = callee.view();
    if d == 0 {
        push_err(errs, toks, i, ParserErrorType::NestingTooDeep);
        return (callee, i);
    }
    if p_at(toks, i, TokenType::RightParen) {
        let empty_args: Vec<Expr> = Vec::new();
        proof {
            assert(view_perrs(errs@) =~= view_perrs(errs@) + Seq::<PErrV>::empty());
            assert(view_exprs(empty_args@) =~= Seq::<ExprV>::empty());
        }
        (Expr::Call(Box::new(callee), empty_args), i + 1)
    } else {
        let ghost e0 = errs@;
        let (args, j) = p_arguments(toks, i, d - 1, errs);
        let j2 = p_consume(toks, j, TokenType::RightParen, ParserErrorType::MissingRightParen, errs);
        proof {
            let o = sp_finish_call(tv, cv, i as int, d as nat);
            assert(view_perrs(errs@) =~= view_perrs(e0) + o.errs);
        }
        (Expr::Call(Box::new(callee), args), j2)
    }
}

/// A comma-separated argument list, executably.
fn p_arguments(toks: &Vec<Token>, i: usize, d: u64, errs: &mut Vec<ParserError>) -> (r: (
    Vec<Expr>,
    usize,
))
    requires
        i <= toks@.len(),
    ensures
        ({
            let o = sp_arguments(view_tokens(toks@), i as int, d as nat);
            o.args == view_exprs(r.0@) && o.i == r.1 as int && r.1 <= toks@.len() && view_perrs(
                final(errs)@,
            ) == view_perrs(old(errs)@) + o.errs
        }),
    decreases d,
{
    let ghost tv = view_tokens(toks@);
    if d == 0 {
        push_err(errs, toks, i, ParserErrorType::NestingTooDeep);
        let mut out: Vec<Expr> = Vec::new();
        out.push(Expr::Literal(Lit::Nil));
        proof {
            crate::ast::lemma_view_exprs(out@);
            assert(out@[0].view() == ExprV::Literal(LitV::Nil));
            assert(view_exprs(out@) =~= seq![ExprV::Literal(LitV::Nil)]);
        }
        return (out, i);
    }
    let ghost e0 = errs@;
    let (e, j) = p_assignment(toks, i, d - 1, errs);
    let ghost ev = e.view();
    if p_at(toks, j, TokenType::Comma) {
        let (mut rest, j2) = p_arguments(toks, j + 1, d - 1, errs);
        let ghost rest0 = rest@;
        rest.insert(0, e);
        proof {
            crate::ast::lemma_view_exprs(rest@);
            crate::ast::lemma_view_exprs(rest0);
            assert(rest@.len() == rest0.len() + 1);
            assert(rest@[0] == rest[0]);
            assert forall|k: int|
                0 <= k < rest@.len() implies view_exprs(rest@)[k] == (seq![ev] + view_exprs(
                rest0,
            ))[k] by {
                assert(view_exprs(rest@)[k] == rest@[k].view());
                if k > 0 {
                    assert(rest@[k] == rest0[k - 1]);
                    assert(view_exprs(rest0)[k - 1] == rest0[k - 1].view());
                }
            }
            assert(view_exprs(rest@) =~= seq![ev] + view_exprs(rest0));
            let o = sp_arguments(tv, i as int, d as nat);
            assert(view_perrs(errs@) =~= view_perrs(e0) + o.errs);
        }
        (rest, j2)
    } else {
        let mut out: Vec<Expr> = Vec::new();
        out.push(e);
        proof {
            crate::ast::lemma_view_exprs(out@);
            assert(out@[0].view() == ev);
            assert(view_exprs(out@) =~= seq![ev]);
        }
        (out, j)
    }
}

/// A unary chain, executably.
fn p_unary(toks: &Vec<Token>, i: usize, d: u64, errs: &mut Vec<ParserError>) -> (r: (Expr, usize))
    requires
        i <= toks@.len(),
    ensures
        ({
            let o = sp_unary(view_tokens(toks@), i as int, d as nat);
            o.expr == r.0.view() && o.i == r.1 as int && r.1 <= toks@.len() && view_perrs(
                final(errs)@,
            ) == view_perrs(old(errs)@) + o.errs
        }),
    decreases d,
{
    if d == 0 {
        push_err(errs, toks, i, ParserErrorType::NestingTooDeep);
        return (Expr::Literal(Lit::Nil), i);
    }
    if p_at(toks, i, TokenType::Bang) {
        let (e, j) = p_unary(toks, i + 1, d - 1, errs);
        (Expr::Unary(UnaryOp::Not, Box::new(e)), j)
    } else if p_at(toks, i, TokenType::Minus) {
        let (e, j) = p_unary(toks, i + 1, d - 1, errs);
        (Expr::Unary(UnaryOp::Negative, Box::new(e)), j)
    } else {
        p_call(toks, i, d - 1, errs)
    }
}

/// Which operator of level `lv` the kind `k` is, executably.
fn p_level_op(lv: u8, k: TokenType) -> (r: Option<Result<LogicalOp, BinOp>>)
    ensures
        r == level_op(lv as int, k),
{
    if lv == 0 && k == TokenType::Or {
        Some(Ok(LogicalOp::Or))
    } else if lv == 1 && k == TokenType::And {
        Some(Ok(LogicalOp::And))
    } else if lv == 2 && k == TokenType::EqualEqual {
        Some(Err(BinOp::Equal))
    } else if lv == 2 && k == TokenType::BangEqual {
        Some(Err(BinOp::NotEqual))
    } else if lv == 3 && k == TokenType::Greater {
        Some(Err(BinOp::Greater))
    } else if lv == 3 && k == TokenType::GreaterEqual {
        Some(Err(BinOp::GreaterEqual))
    } else if lv == 3 && k == TokenType::Less {
        Some(Err(BinOp::Less))
    } else if lv == 3 && k == TokenType::LessEqual {
        Some(Err(BinOp::LessEqual))
    } else if lv == 4 && k == TokenType::Plus {
        Some(Err(BinOp::Add))
    } else if lv == 4 && k == TokenType::Minus {
        Some(Err(BinOp::Sub))
    } else if lv == 5 && k == TokenType::Star {
        Some(Err(BinOp::Mul))
    } else if lv == 5 && k == TokenType::Slash {
        Some(Err(BinOp::Div))
    } else {
        None
    }
}

/// One binary precedence level, executably.
fn p_binary(toks: &Vec<Token>, lv: u8, i: usize, d: u64, errs: &mut Vec<ParserError>) -> (r: (
    Expr,
    usize,
))
    requires
        i <= toks@.len(),
    ensures
        ({
            let o = sp_binary(view_tokens(toks@), lv as int, i as int, d as nat);
            o.expr == r.0.view() && o.i == r.1 as int && r.1 <= toks@.len() && view_perrs(
                final(errs)@,
            ) == view_perrs(old(errs)@) + o.errs
        }),
    decreases d,
{
    let ghost tv = view_tokens(toks@);
    if d == 0 {
        push_err(errs, toks, i, ParserErrorType::NestingTooDeep);
        return (Expr::Literal(Lit::Nil), i);
    }
    let ghost e0 = errs@;
    let (e, j) = if lv >= 5 {
        p_unary(toks, i, d - 1, errs)
    } else {
        p_binary(toks, lv + 1, i, d - 1, errs)
    };
    let (e2, j2) = p_bin_rest(toks, lv, e, j, d - 1, errs);
    proof {
        let o = sp_binary(tv, lv as int, i as int, d as nat);
        assert(view_perrs(errs@) =~= view_perrs(e0) + o.errs);
    }
    (e2, j2)
}

/// The operator tail of one precedence level, executably.
fn p_bin_rest(toks: &Vec<Token>, lv: u8, acc: Expr, i: usize, d: u64, errs: &mut Vec<ParserError>) -> (r: (
    Expr,
    usize,
))
    requires
        i <= toks@.len(),
    ensures
        ({
            let o = sp_bin_rest(view_tokens(toks@), lv as int, acc.view(), i as int, d as nat);
            o.expr == r.0.view() && o.i == r.1 as int && r.1 <= toks@.len() && view_perrs(
                final(errs)@,
            ) == view_perrs(old(errs)@) + o.errs
        }),
    decreases d,
{
    let ghost tv = view_tokens(toks@);
    let ghost av = acc.view();
    if d == 0 {
        push_err(errs, toks, i, ParserErrorType::NestingTooDeep);
        return (acc, i);
    }
    proof {
        crate::scanner::lemma_view_tokens(toks@);
    }
    let opx: Option<Result<LogicalOp, BinOp>> = if i < toks.len() {
        p_level_op(lv, toks[i].get_type())
    } else {
        None
    };
    match opx {
        Some(op) => {
            let ghost e0 = errs@;
            let (e, j) = if lv >= 5 {
                p_unary(toks, i + 1, d - 1, errs)
            } else {
                p_binary(toks, lv + 1, i + 1, d - 1, errs)
            };
            let combined = match op {
                Ok(lop) => Expr::Logical(Box::new(acc), lop, Box::new(e)),
                Err(bop) => Expr::Binary(Box::new(acc), bop, Box::new(e)),
            };
            let (e2, j2) = p_bin_rest(toks, lv, combined, j, d - 1, errs);
            proof {
                let o = sp_bin_rest(tv, lv as int, av, i as int, d as nat);
                assert(view_perrs(errs@) =~= view_perrs(e0) + o.errs);
            }
            (e2, j2)
        },
        None => {
            proof {
                assert(view_perrs(errs@) =~= view_perrs(errs@) + Seq::<PErrV>::empty());
            }
            (acc, i)
        },
    }
}

/// An assignment, or anything looser, executably.
fn p_assignment(toks: &Vec<Token>, i: usize, d: u64, errs: &mut Vec<ParserError>) -> (r: (
    Expr,
    usize,
))
    requires
        i <= toks@.len(),
    ensures
        ({
            let o = sp_assignment(view_tokens(toks@), i as int, d as nat);
            o.expr == r.0.view() && o.i == r.1 as int && r.1 <= toks@.len() && view_perrs(
                final(errs)@,
            ) == view_perrs(old(errs)@) + o.errs
        }),
    decreases d,
{
    let ghost tv = view_tokens(toks@);
    if d == 0 {
        push_err(errs, toks, i, ParserErrorType::NestingTooDeep);
        return (Expr::Literal(Lit::Nil), i);
    }
    let ghost e0 = errs@;
    let (e, j) = p_binary(toks, 0, i, d - 1, errs);
    if p_at(toks, j, TokenType::Equal) {
        let ghost ev = e.view();
        let (rhs, j2) = p_assignment(toks, j + 1, d - 1, errs);
        match e {
            Expr::Variable(name) => {
                proof {
                    let o = sp_assignment(tv, i as int, d as nat);
                    assert(view_perrs(errs@) =~= view_perrs(e0) + o.errs);
                }
                (Expr::Assign(name, Box::new(rhs)), j2)
            },
            _ => {
                push_err(errs, toks, j2, ParserErrorType::InvalidAssignment);
                let j3 = p_recovery(toks, j2);
                let empty_name: Vec<u8> = Vec::new();
                proof {
                    let o = sp_assignment(tv, i as int, d as nat);
                    assert(empty_name@ =~= Seq::<u8>::empty());
                    assert(view_perrs(errs@) =~= view_perrs(e0) + o.errs);
                }
                (Expr::Assign(empty_name, Box::new(rhs)), j3)
            },
        }
    } else {
        (e, j)
    }
}

/// A declaration, executably.
fn p_declaration(toks: &Vec<Token>, i: usize, d: u64, errs: &mut Vec<ParserError>) -> (r: (
    Stmt,
    usize,
))
    requires
        i <= toks@.len(),
    ensures
        ({
            let o = sp_declaration(view_tokens(toks@), i as int, d as nat);
            o.stmt == r.0.view() && o.i == r.1 as int && r.1 <= toks@.len() && view_perrs(
                final(errs)@,
            ) == view_perrs(old(errs)@) + o.errs
        }),
    decreases d,
{
    if d == 0 {
        push_err(errs, toks, i, ParserErrorType::NestingTooDeep);
        return (Stmt::Expression(Expr::Literal(Lit::Nil)), i);
    }
    if p_at(toks, i, TokenType::Fun) {
        p_function(toks, i + 1, d - 1, errs)
    } else if p_at(toks, i, TokenType::Var) {
        p_var_decl(toks, i + 1, d - 1, errs)
    } else {
        p_statement(toks, i, d - 1, errs)
    }
}

/// A variable declaration, executably.
fn p_var_decl(toks: &Vec<Token>, i: usize, d: u64, errs: &mut Vec<ParserError>) -> (r: (Stmt, usize))
    requires
        i <= toks@.len(),
    ensures
        ({
            let o = sp_var_decl(view_tokens(toks@), i as int, d as nat);
            o.stmt == r.0.view() && o.i == r.1 as int && r.1 <= toks@.len() && view_perrs(
                final(errs)@,
            ) == view_perrs(old(errs)@) + o.errs
        }),
    decreases d,
{
    let ghost tv = view_tokens(toks@);
    if d == 0 {
        push_err(errs, toks, i, ParserErrorType::NestingTooDeep);
        return (Stmt::Expression(Expr::Literal(Lit::Nil)), i);
    }
    let ghost e0 = errs@;
    proof {
        crate::scanner::lemma_view_tokens(toks@);
    }
    let (name, i1): (Vec<u8>, usize) = if p_at(toks, i, TokenType::Identifier) {
        (crate::lox_object::clone_bytes(toks[i].as_bytes()), i + 1)
    } else {
        push_err(errs, toks, i, ParserErrorType::MissingIdentifier);
        let j = p_recovery(toks, i);
        let empty_name: Vec<u8> = Vec::new();
        proof {
            assert(empty_name@ =~= Seq::<u8>::empty());
        }
        (empty_name, j)
    };
    let (init, i2): (Expr, usize) = if p_at(toks, i1, TokenType::Equal) {
        p_assignment(toks, i1 + 1, d - 1, errs)
    } else {
        (Expr::Literal(Lit::Nil), i1)
    };
    let i3 = p_consume(toks, i2, TokenType::Semicolon, ParserErrorType::MissingSemicolon, errs);
    proof {
        let o = sp_var_decl(tv, i as int, d as nat);
        assert(view_perrs(errs@) =~= view_perrs(e0) + o.errs);
    }
    (Stmt::VarDecl(name, init), i3)
}

/// A statement, executably.
fn p_statement(toks: &Vec<Token>, i: usize, d: u64, errs: &mut Vec<ParserError>) -> (r: (
    Stmt,
    usize,
))
    requires
        i <= toks@.len(),
    ensures
        ({
            let o = sp_statement(view_tokens(toks@), i as int, d as nat);
            o.stmt == r.0.view() && o.i == r.1 as int && r.1 <= toks@.len() && view_perrs(
                final(errs)@,
            ) == view_perrs(old(errs)@) + o.errs
        }),
    decreases d,
{
    if d == 0 {
        push_err(errs, toks, i, ParserErrorType::NestingTooDeep);
        return (Stmt::Expression(Expr::Literal(Lit::Nil)), i);
    }
    if p_at(toks, i, TokenType::If) {
        p_if(toks, i + 1, d - 1, errs)
    } else if p_at(toks, i, TokenType::While) {
        p_while_stmt(toks, i + 1, d - 1, errs)
    } else if p_at(toks, i, TokenType::LeftBrace) {
        p_block(toks, i + 1, d - 1, errs)
    } else if p_at(toks, i, TokenType::For) {
        p_for(toks, i + 1, d - 1, errs)
    } else if p_at(toks, i, TokenType::Return) {
        p_return(toks, i + 1, d - 1, errs)
    } else {
        p_expr_stmt(toks, i, d - 1, errs)
    }
}

/// An expression statement, executably.
fn p_expr_stmt(toks: &Vec<Token>, i: usize, d: u64, errs: &mut Vec<ParserError>) -> (r: (
    Stmt,
    usize,
))
    requires
        i <= toks@.len(),
    ensures
        ({
            let o = sp_expr_stmt(view_tokens(toks@), i as int, d as nat);
            o.stmt == r.0.view() && o.i == r.1 as int && r.1 <= toks@.len() && view_perrs(
                final(errs)@,
            ) == view_perrs(old(errs)@) + o.errs
        }),
    decreases d,
{
    let ghost tv = view_tokens(toks@);
    if d == 0 {
        push_err(errs, toks, i, ParserErrorType::NestingTooDeep);
        return (Stmt::Expression(Expr::Literal(Lit::Nil)), i);
    }
    let ghost e0 = errs@;
    let (e, j) = p_assignment(toks, i, d - 1, errs);
    let j2 = p_consume(toks, j, TokenType::Semicolon, ParserErrorType::MissingSemicolon, errs);
    proof {
        let o = sp_expr_stmt(tv, i as int, d as nat);
        assert(view_perrs(errs@) =~= view_perrs(e0) + o.errs);
    }
    (Stmt::Expression(e), j2)
}

/// The declarations of a block, executably.
fn p_block_list(toks: &Vec<Token>, i: usize, d: u64, errs: &mut Vec<ParserError>) -> (r: (
    Vec<Stmt>,
    usize,
))
    requires
        i <= toks@.len(),
    ensures
        ({
            let o = sp_block_list(view_tokens(toks@), i as int, d as nat);
            o.stmts == view_stmts(r.0@) && o.i == r.1 as int && r.1 <= toks@.len() && view_perrs(
                final(errs)@,
            ) == view_perrs(old(errs)@) + o.errs
        }),
    decreases d,
{
    let ghost tv = view_tokens(toks@);
    proof {
        crate::scanner::lemma_view_tokens(toks@);
    }
    if p_at(toks, i, TokenType::RightBrace) || i >= toks.len() || toks[i].match_token(
        TokenType::Eof,
    ) {
        let out: Vec<Stmt> = Vec::new();
        proof {
            assert(view_stmts(out@) =~= Seq::<StmtV>::empty());
            assert(view_perrs(errs@) =~= view_perrs(errs@) + Seq::<PErrV>::empty());
        }
        return (out, i);
    }
    if d == 0 {
        push_err(errs, toks, i, ParserErrorType::NestingTooDeep);
        let out: Vec<Stmt> = Vec::new();
        proof {
            assert(view_stmts(out@) =~= Seq::<StmtV>::empty());
        }
        return (out, i);
    }
    let ghost e0 = errs@;
    let (s, j) = p_declaration(toks, i, d - 1, errs);
    let ghost sv = s.view();
    let (mut rest, j2) = p_block_list(toks, j, d - 1, errs);
    let ghost rest0 = rest@;
    rest.insert(0, s);
    proof {
        crate::ast::lemma_view_stmts(rest@);
        crate::ast::lemma_view_stmts(rest0);
        assert(rest@[0].view() == sv);
        assert forall|k: int|
            0 <= k < rest@.len() implies view_stmts(rest@)[k] == (seq![sv] + view_stmts(rest0))[k] by {
            assert(view_stmts(rest@)[k] == rest@[k].view());
            if k > 0 {
                assert(rest@[k] == rest0[k - 1]);
                assert(view_stmts(rest0)[k - 1] == rest0[k - 1].view());
            }
        }
        assert(view_stmts(rest@) =~= seq![sv] + view_stmts(rest0));
        let o = sp_block_list(tv, i as int, d as nat);
        assert(view_perrs(errs@) =~= view_perrs(e0) + o.errs);
    }
    (rest, j2)
}

/// A block, executably.
fn p_block(toks: &Vec<Token>, i: usize, d: u64, errs: &mut Vec<ParserError>) -> (r: (Stmt, usize))
    requires
        i <= toks@.len(),
    ensures
        ({
            let o = sp_block(view_tokens(toks@), i as int, d as nat);
            o.stmt == r.0.view() && o.i == r.1 as int && r.1 <= toks@.len() && view_perrs(
                final(errs)@,
            ) == view_perrs(old(errs)@) + o.errs
        }),
    decreases d,
{
    let ghost tv = view_tokens(toks@);
    if d == 0 {
        push_err(errs, toks, i, ParserErrorType::NestingTooDeep);
        return (Stmt::Expression(Expr::Literal(Lit::Nil)), i);
    }
    let ghost e0 = errs@;
    let (body, j) = p_block_list(toks, i, d - 1, errs);
    let j2 = p_consume(toks, j, TokenType::RightBrace, ParserErrorType::MissingRightBrace, errs);
    proof {
        let o = sp_block(tv, i as int, d as nat);
        assert(view_perrs(errs@) =~= view_perrs(e0) + o.errs);
    }
    (Stmt::Block(body), j2)
}

/// A conditional, executably.
#[verifier::rlimit(80)]
fn p_if(toks: &Vec<Token>, i: usize, d: u64, errs: &mut Vec<ParserError>) -> (r: (Stmt, usize))
    requires
        i <= toks@.len(),
    ensures
        ({
            let o = sp_if(view_tokens(toks@), i as int, d as nat);
            o.stmt == r.0.view() && o.i == r.1 as int && r.1 <= toks@.len() && view_perrs(
                final(errs)@,
            ) == view_perrs(old(errs)@) + o.errs
        }),
    decreases d,
{
    let ghost tv = view_tokens(toks@);
    if d == 0 {
        push_err(errs, toks, i, ParserErrorType::NestingTooDeep);
        return (Stmt::Expression(Expr::Literal(Lit::Nil)), i);
    }
    let ghost e0 = errs@;
    let i1 = p_consume(toks, i, TokenType::LeftParen, ParserErrorType::MissingLeftParen, errs);
    let (c, j) = p_assignment(toks, i1, d - 1, errs);
    let i2 = p_consume(toks, j, TokenType::RightParen, ParserErrorType::MissingRightParen, errs);
    let (th, j2) = p_statement(toks, i2, d - 1, errs);
    if p_at(toks, j2, TokenType::Else) {
        let (el, j3) = p_statement(toks, j2 + 1, d - 1, errs);
        proof {
            let o = sp_if(tv, i as int, d as nat);
            assert(view_perrs(errs@) =~= view_perrs(e0) + o.errs);
        }
        (Stmt::If(c, Box::new(th), Some(Box::new(el))), j3)
    } else {
        proof {
            let o = sp_if(tv, i as int, d as nat);
            assert(view_perrs(errs@) =~= view_perrs(e0) + o.errs);
        }
        (Stmt::If(c, Box::new(th), None), j2)
    }
}

/// A loop, executably.
fn p_while_stmt(toks: &Vec<Token>, i: usize, d: u64, errs: &mut Vec<ParserError>) -> (r: (
    Stmt,
    usize,
))
    requires
        i <= toks@.len(),
    ensures
        ({
            let o = sp_while_stmt(view_tokens(toks@), i as int, d as nat);
            o.stmt == r.0.view() && o.i == r.1 as int && r.1 <= toks@.len() && view_perrs(
                final(errs)@,
            ) == view_perrs(old(errs)@) + o.errs
        }),
    decreases d,
{
    let ghost tv = view_tokens(toks@);
    if d == 0 {
        push_err(errs, toks, i, ParserErrorType::NestingTooDeep);
        return (Stmt::Expression(Expr::Literal(Lit::Nil)), i);
    }
    let ghost e0 = errs@;
    let i1 = p_consume(toks, i, TokenType::LeftParen, ParserErrorType::MissingLeftParen, errs);
    let (c, j) = p_assignment(toks, i1, d - 1, errs);
    let i2 = p_consume(toks, j, TokenType::RightParen, ParserErrorType::MissingRightParen, errs);
    let (b, j2) = p_statement(toks, i2, d - 1, errs);
    proof {
        let o = sp_while_stmt(tv, i as int, d as nat);
        assert(view_perrs(errs@) =~= view_perrs(e0) + o.errs);
    }
    (Stmt::While(c, Box::new(b)), j2)
}

/// A `return` statement, executably.
fn p_return(toks: &Vec<Token>, i: usize, d: u64, errs: &mut Vec<ParserError>) -> (r: (Stmt, usize))
    requires
        i <= toks@.len(),
    ensures
        ({
            let o = sp_return(view_tokens(toks@), i as int, d as nat);
            o.stmt == r.0.view() && o.i == r.1 as int && r.1 <= toks@.len() && view_perrs(
                final(errs)@,
            ) == view_perrs(old(errs)@) + o.errs
        }),
    decreases d,
{
    let ghost tv = view_tokens(toks@);
    if d == 0 {
        push_err(errs, toks, i, ParserErrorType::NestingTooDeep);
        return (Stmt::Expression(Expr::Literal(Lit::Nil)), i);
    }
    let ghost e0 = errs@;
    let (e, j) = p_assignment(toks, i, d - 1, errs);
    let j2 = p_consume(toks, j, TokenType::Semicolon, ParserErrorType::MissingSemicolon, errs);
    proof {
        let o = sp_return(tv, i as int, d as nat);
        assert(view_perrs(errs@) =~= view_perrs(e0) + o.errs);
    }
    (Stmt::Return(e), j2)
}

/// The initializer clause of a `for`, executably.
fn p_for_init(toks: &Vec<Token>, i: usize, d: u64, errs: &mut Vec<ParserError>) -> (r: (
    Option<Stmt>,
    usize,
))
    requires
        i <= toks@.len(),
    ensures
        ({
            let o = sp_for_init(view_tokens(toks@), i as int, d as nat);
            o.init == (match r.0 {
                Some(s) => Some(s.view()),
                None => None::<StmtV>,
            }) && o.i == r.1 as int && r.1 <= toks@.len() && view_perrs(final(errs)@) == view_perrs(
                old(errs)@,
            ) + o.errs
        }),
    decreases d,
{
    let ghost tv = view_tokens(toks@);
    if d == 0 {
        push_err(errs, toks, i, ParserErrorType::NestingTooDeep);
        return (None, i);
    }
    let ghost e0 = errs@;
    let i0 = p_consume(toks, i, TokenType::LeftParen, ParserErrorType::MissingLeftParen, errs);
    if p_at(toks, i0, TokenType::Semicolon) {
        (None, i0 + 1)
    } else if p_at(toks, i0, TokenType::Var) {
        let (v, j) = p_var_decl(toks, i0 + 1, d - 1, errs);
        proof {
            let o = sp_for_init(tv, i as int, d as nat);
            assert(view_perrs(errs@) =~= view_perrs(e0) + o.errs);
        }
        (Some(v), j)
    } else {
        let (es, j) = p_expr_stmt(toks, i0, d - 1, errs);
        proof {
            let o = sp_for_init(tv, i as int, d as nat);
            assert(view_perrs(errs@) =~= view_perrs(e0) + o.errs);
        }
        (Some(es), j)
    }
}

/// The condition clause of a `for`, executably.
fn p_for_cond(toks: &Vec<Token>, i: usize, d: u64, errs: &mut Vec<ParserError>) -> (r: (
    Expr,
    usize,
))
    requires
        i <= toks@.len(),
    ensures
        ({
            let o = sp_for_cond(view_tokens(toks@), i as int, d as nat);
            o.cond == r.0.view() && o.i == r.1 as int && r.1 <= toks@.len() && view_perrs(
                final(errs)@,
            ) == view_perrs(old(errs)@) + o.errs
        }),
    decreases d,
{
    let ghost tv = view_tokens(toks@);
    if d == 0 {
        push_err(errs, toks, i, ParserErrorType::NestingTooDeep);
        return (Expr::Literal(Lit::True), i);
    }
    let ghost e0 = errs@;
    let (cond, j): (Expr, usize) = if p_at(toks, i, TokenType::Semicolon) {
        (Expr::Literal(Lit::True), i)
    } else {
        p_assignment(toks, i, d - 1, errs)
    };
    let j2 = p_consume(toks, j, TokenType::Semicolon, ParserErrorType::MissingSemicolon, errs);
    proof {
        let o = sp_for_cond(tv, i as int, d as nat);
        assert(view_perrs(errs@) =~= view_perrs(e0) + o.errs);
    }
    (cond, j2)
}

/// The increment clause of a `for`, executably.
fn p_for_inc(toks: &Vec<Token>, i: usize, d: u64, errs: &mut Vec<ParserError>) -> (r: (
    Option<Expr>,
    usize,
))
    requires
        i <= toks@.len(),
    ensures
        ({
            let o = sp_for_inc(view_tokens(toks@), i as int, d as nat);
            o.inc == (match r.0 {
                Some(e) => Some(e.view()),
                None => None::<ExprV>,
            }) && o.i == r.1 as int && r.1 <= toks@.len() && view_perrs(final(errs)@) == view_perrs(
                old(errs)@,
            ) + o.errs
        }),
    decreases d,
{
    let ghost tv = view_tokens(toks@);
    if d == 0 {
        push_err(errs, toks, i, ParserErrorType::NestingTooDeep);
        return (None, i);
    }
    let ghost e0 = errs@;
    let (inc, j): (Option<Expr>, usize) = if p_at(toks, i, TokenType::RightParen) {
        (None, i)
    } else {
        let (e, j) = p_assignment(toks, i, d - 1, errs);
        (Some(e), j)
    };
    let j2 = p_consume(toks, j, TokenType::RightParen, ParserErrorType::MissingRightParen, errs);
    proof {
        let o = sp_for_inc(tv, i as int, d as nat);
        assert(view_perrs(errs@) =~= view_perrs(e0) + o.errs);
    }
    (inc, j2)
}

/// The clauses of a `for` statement, executably.
fn p_for_head(toks: &Vec<Token>, i: usize, d: u64, errs: &mut Vec<ParserError>) -> (r: (
    Option<Stmt>,
    Expr,
    Option<Expr>,
    usize,
))
    requires
        i <= toks@.len(),
    ensures
        ({
            let o = sp_for_head(view_tokens(toks@), i as int, d as nat);
            o.init == (match r.0 {
                Some(s) => Some(s.view()),
                None => None::<StmtV>,
            }) && o.cond == r.1.view() && o.inc == (match r.2 {
                Some(e) => Some(e.view()),
                None => None::<ExprV>,
            }) && o.i == r.3 as int && r.3 <= toks@.len() && view_perrs(final(errs)@) == view_perrs(
                old(errs)@,
            ) + o.errs
        }),
    decreases d,
{
    let ghost tv = view_tokens(toks@);
    if d == 0 {
        push_err(errs, toks, i, ParserErrorType::NestingTooDeep);
        return (None, Expr::Literal(Lit::True), None, i);
    }
    let ghost e0 = errs@;
    let (init, i1) = p_for_init(toks, i, d - 1, errs);
    let (cond, i2) = p_for_cond(toks, i1, d - 1, errs);
    let (inc, i3) = p_for_inc(toks, i2, d - 1, errs);
    proof {
        let o = sp_for_head(tv, i as int, d as nat);
        assert(view_perrs(errs@) =~= view_perrs(e0) + o.errs);
    }
    (init, cond, inc, i3)
}

/// A `for` statement, desugared at parse time, executably.
#[verifier::rlimit(100)]
fn p_for(toks: &Vec<Token>, i: usize, d: u64, errs: &mut Vec<ParserError>) -> (r: (Stmt, usize))
    requires
        i <= toks@.len(),
    ensures
        ({
            let o = sp_for(view_tokens(toks@), i as int, d as nat);
            o.stmt == r.0.view() && o.i == r.1 as int && r.1 <= toks@.len() && view_perrs(
                final(errs)@,
            ) == view_perrs(old(errs)@) + o.errs
        }),
    decreases d,
{
    let ghost tv = view_tokens(toks@);
    if d == 0 {
        push_err(errs, toks, i, ParserErrorType::NestingTooDeep);
        return (Stmt::Expression(Expr::Literal(Lit::Nil)), i);
    }
    let ghost e0 = errs@;
    let (init, cond, inc, i1) = p_for_head(toks, i, d - 1, errs);
    let ghost condv = cond.view();
    let (b, j2) = p_statement(toks, i1, d - 1, errs);
    let ghost bv = b.view();
    let mut while_body: Vec<Stmt> = Vec::new();
    while_body.push(b);
    let ghost incv: Option<ExprV> = match inc {
        Some(ref e) => Some(e.view()),
        None => None,
    };
    match inc {
        Some(e) => {
            while_body.push(Stmt::Expression(e));
        },
        None => {},
    }
    proof {
        crate::ast::lemma_view_stmts(while_body@);
        match incv {
            Some(ev) => {
                assert(while_body@[0].view() == bv);
                assert(while_body@[1].view() == StmtV::Expression(ev));
                assert(view_stmts(while_body@) =~= seq![bv, StmtV::Expression(ev)]);
            },
            None => {
                assert(while_body@[0].view() == bv);
                assert(view_stmts(while_body@) =~= seq![bv]);
            },
        }
    }
    let ghost wbv = view_stmts(while_body@);
    let inner = Stmt::Block(while_body);
    let ghost innerv = inner.view();
    proof {
        assert(innerv == StmtV::Block(wbv));
    }
    let w = Stmt::While(cond, Box::new(inner));
    let ghost wv = w.view();
    let mut outer: Vec<Stmt> = Vec::new();
    let ghost initv: Option<StmtV> = match init {
        Some(ref s) => Some(s.view()),
        None => None,
    };
    match init {
        Some(s) => {
            outer.push(s);
        },
        None => {},
    }
    outer.push(w);
    proof {
        crate::ast::lemma_view_stmts(outer@);
        match initv {
            Some(sv2) => {
                assert(outer@[0].view() == sv2);
                assert(outer@[1].view() == wv);
                assert(view_stmts(outer@) =~= seq![sv2, wv]);
            },
            None => {
                assert(outer@[0].view() == wv);
                assert(view_stmts(outer@) =~= seq![wv]);
            },
        }
        let o = sp_for(tv, i as int, d as nat);
        let h = sp_for_head(tv, i as int, (d - 1) as nat);
        assert(h.init == initv);
        assert(h.cond == condv);
        assert(h.inc == incv);
        assert(wv == StmtV::While(condv, Box::new(innerv)));
        assert(o.stmt == StmtV::Block(view_stmts(outer@)));
        assert(view_perrs(errs@) =~= view_perrs(e0) + o.errs);
    }
    (Stmt::Block(outer), j2)
}

/// A parameter list, executably.
fn p_params(toks: &Vec<Token>, i: usize, d: u64, errs: &mut Vec<ParserError>) -> (r: (
    Vec<Vec<u8>>,
    usize,
))
    requires
        i <= toks@.len(),
    ensures
        ({
            let o = sp_params(view_tokens(toks@), i as int, d as nat);
            o.params == view_names(r.0@) && o.i == r.1 as int && r.1 <= toks@.len() && view_perrs(
                final(errs)@,
            ) == view_perrs(old(errs)@) + o.errs
        }),
    decreases d,
{
    let ghost tv = view_tokens(toks@);
    proof {
        crate::scanner::lemma_view_tokens(toks@);
    }
    if d == 0 {
        push_err(errs, toks, i, ParserErrorType::NestingTooDeep);
        let out: Vec<Vec<u8>> = Vec::new();
        proof {
            assert(view_names(out@) =~= Seq::<Seq<u8>>::empty());
        }
        return (out, i);
    }
    let ghost e0 = errs@;
    let (p, i1): (Vec<u8>, usize) = if p_at(toks, i, TokenType::Identifier) {
        (crate::lox_object::clone_bytes(toks[i].as_bytes()), i + 1)
    } else {
        push_err(errs, toks, i, ParserErrorType::MissingIdentifier);
        let j = p_recovery(toks, i);
        let empty_name: Vec<u8> = Vec::new();
        proof {
            assert(empty_name@ =~= Seq::<u8>::empty());
        }
        (empty_name, j)
    };
    let ghost pv = p@;
    if p_at(toks, i1, TokenType::Comma) {
        let (mut rest, j2) = p_params(toks, i1 + 1, d - 1, errs);
        let ghost rest0 = rest@;
        rest.insert(0, p);
        proof {
            assert(view_names(rest@) =~= seq![pv] + view_names(rest0));
            let o = sp_params(tv, i as int, d as nat);
            assert(view_perrs(errs@) =~= view_perrs(e0) + o.errs);
        }
        (rest, j2)
    } else {
        let mut out: Vec<Vec<u8>> = Vec::new();
        out.push(p);
        proof {
            assert(view_names(out@) =~= seq![pv]);
        }
        (out, i1)
    }
}

/// The head of a function declaration, executably.
#[verifier::rlimit(100)]
fn p_function_head(toks: &Vec<Token>, i: usize, d: u64, errs: &mut Vec<ParserError>) -> (r: (
    Vec<u8>,
    Vec<Vec<u8>>,
    usize,
))
    requires
        i <= toks@.len(),
    ensures
        ({
            let o = sp_function_head(view_tokens(toks@), i as int, d as nat);
            o.name == r.0@ && o.params == view_names(r.1@) && o.i == r.2 as int && r.2
                <= toks@.len() && view_perrs(final(errs)@) == view_perrs(old(errs)@) + o.errs
        }),
    decreases d,
{
    let ghost tv = view_tokens(toks@);
    proof {
        crate::scanner::lemma_view_tokens(toks@);
    }
    if d == 0 {
        push_err(errs, toks, i, ParserErrorType::NestingTooDeep);
        let empty_name: Vec<u8> = Vec::new();
        let empty_params: Vec<Vec<u8>> = Vec::new();
        proof {
            assert(empty_name@ =~= Seq::<u8>::empty());
            assert(view_names(empty_params@) =~= Seq::<Seq<u8>>::empty());
        }
        return (empty_name, empty_params, i);
    }
    let ghost e0 = errs@;
    let (name, i1): (Vec<u8>, usize) = if p_at(toks, i, TokenType::Identifier) {
        (crate::lox_object::clone_bytes(toks[i].as_bytes()), i + 1)
    } else {
        push_err(errs, toks, i, ParserErrorType::MissingIdentifier);
        let j = p_recovery(toks, i);
        let empty_name: Vec<u8> = Vec::new();
        proof {
            assert(empty_name@ =~= Seq::<u8>::empty());
        }
        (empty_name, j)
    };
    let i2 = p_consume(toks, i1, TokenType::LeftParen, ParserErrorType::MissingLeftParen, errs);
    let (params, i3): (Vec<Vec<u8>>, usize) = if p_at(toks, i2, TokenType::RightParen) {
        let out: Vec<Vec<u8>> = Vec::new();
        proof {
            assert(view_names(out@) =~= Seq::<Seq<u8>>::empty());
        }
        (out, i2)
    } else {
        p_params(toks, i2, d - 1, errs)
    };
    let ghost eb = errs@;
    let i4 = p_consume(toks, i3, TokenType::RightParen, ParserErrorType::MissingRightParen, errs);
    let i5 = p_consume(toks, i4, TokenType::LeftBrace, ParserErrorType::MissingLeftBrace, errs);
    proof {
        let o = sp_function_head(tv, i as int, d as nat);
        let sc1 = sp_consume(tv, i3 as int, TokenType::RightParen, ParserErrorType::MissingRightParen);
        let sc2 = sp_consume(tv, i4 as int, TokenType::LeftBrace, ParserErrorType::MissingLeftBrace);
        assert(view_perrs(errs@) =~= view_perrs(eb) + (sc1.0 + sc2.0));
        assert(view_perrs(errs@) =~= view_perrs(e0) + o.errs);
    }
    (name, params, i5)
}

/// A function declaration, executably.
fn p_function(toks: &Vec<Token>, i: usize, d: u64, errs: &mut Vec<ParserError>) -> (r: (
    Stmt,
    usize,
))
    requires
        i <= toks@.len(),
    ensures
        ({
            let o = sp_function(view_tokens(toks@), i as int, d as nat);
            o.stmt == r.0.view() && o.i == r.1 as int && r.1 <= toks@.len() && view_perrs(
                final(errs)@,
            ) == view_perrs(old(errs)@) + o.errs
        }),
    decreases d,
{
    let ghost tv = view_tokens(toks@);
    if d == 0 {
        push_err(errs, toks, i, ParserErrorType::NestingTooDeep);
        return (Stmt::Expression(Expr::Literal(Lit::Nil)), i);
    }
    let ghost e0 = errs@;
    let (name, params, i1) = p_function_head(toks, i, d - 1, errs);
    let (body, i2) = p_block_list(toks, i1, d - 1, errs);
    let i3 = p_consume(toks, i2, TokenType::RightBrace, ParserErrorType::MissingRightBrace, errs);
    proof {
        let o = sp_function(tv, i as int, d as nat);
        assert(view_perrs(errs@) =~= view_perrs(e0) + o.errs);
    }
    (Stmt::Function(name, params, std::rc::Rc::new(body)), i3)
}

/// The whole program, executably.
fn p_program(toks: &Vec<Token>, i: usize, d: u64, errs: &mut Vec<ParserError>) -> (r: (
    Vec<Stmt>,
    usize,
))
    requires
        i <= toks@.len(),
    ensures
        ({
            let o = sp_program(view_tokens(toks@), i as int, d as nat);
            o.stmts == view_stmts(r.0@) && o.i == r.1 as int && r.1 <= toks@.len() && view_perrs(
                final(errs)@,
            ) == view_perrs(old(errs)@) + o.errs
        }),
    decreases d,
{
    let ghost tv = view_tokens(toks@);
    proof {
        crate::scanner::lemma_view_tokens(toks@);
    }
    if i >= toks.len() || toks[i].match_token(TokenType::Eof) {
        let out: Vec<Stmt> = Vec::new();
        proof {
            assert(view_stmts(out@) =~= Seq::<StmtV>::empty());
            assert(view_perrs(errs@) =~= view_perrs(errs@) + Seq::<PErrV>::empty());
        }
        return (out, i);
    }
    if d == 0 {
        push_err(errs, toks, i, ParserErrorType::NestingTooDeep);
        let out: Vec<Stmt> = Vec::new();
        proof {
            assert(view_stmts(out@) =~= Seq::<StmtV>::empty());
        }
        return (out, i);
    }
    let ghost e0 = errs@;
    let (s, j) = p_declaration(toks, i, d - 1, errs);
    let ghost sv = s.view();
    let (mut rest, j2) = p_program(toks, j, d - 1, errs);
    let ghost rest0 = rest@;
    rest.insert(0, s);
    proof {
        crate::ast::lemma_view_stmts(rest@);
        crate::ast::lemma_view_stmts(rest0);
        assert(rest@[0].view() == sv);
        assert forall|k: int|
            0 <= k < rest@.len() implies view_stmts(rest@)[k] == (seq![sv] + view_stmts(rest0))[k] by {
            assert(view_stmts(rest@)[k] == rest@[k].view());
            if k > 0 {
                assert(rest@[k] == rest0[k - 1]);
                assert(view_stmts(rest0)[k - 1] == rest0[k - 1].view());
            }
        }
        assert(view_stmts(rest@) =~= seq![sv] + view_stmts(rest0));
        let o = sp_program(tv, i as int, d as nat);
        assert(view_perrs(errs@) =~= view_perrs(e0) + o.errs);
    }
    (rest, j2)
}

/// The parser over one token sequence.
pub struct Parser {
    tokens: Vec<Token>,
    index: usize,
    errors: Vec<ParserError>,
}

impl Parser {
    /// The token sequence being parsed.
    pub closed spec fn toks(&self) -> Seq<TokenV> {
        view_tokens(self.tokens@)
    }

    /// A parser at the start of `tokens`.
    pub fn new(tokens: Vec<Token>) -> (r: Self)
        ensures
            r.toks() == view_tokens(tokens@),
    {
        Parser { tokens, index: 0, errors: Vec::new() }
    }

    /// Parses the whole program: the statement list when the source is
    /// clean, the full diagnostic list when it is not — exactly what the
    /// specification parser says of the token sequence.
    pub fn parse(&mut self) -> (r: Result<Vec<Stmt>, Errors<ParserError>>)
        ensures
            match r {
                Ok(stmts) => sp_parse(old(self).toks()).errs.len() == 0 && view_stmts(stmts@)
                    == sp_parse(old(self).toks()).stmts,
                Err(e) => view_perrs(e.items@) == sp_parse(old(self).toks()).errs && sp_parse(
                    old(self).toks(),
                ).errs.len() > 0,
            },
    {
        let n: u64 = self.tokens.len() as u64;
        let d: u64 = if n <= 1_152_921_504_606_846_971u64 {
            16 * n + 64
        } else {
            u64::MAX
        };
        proof {
            crate::scanner::lemma_view_tokens(self.tokens@);
            assert(d as nat == parse_budget(self.toks().len()));
        }
        let mut errs: Vec<ParserError> = Vec::new();
        let ghost errs0 = errs@;
        let (stmts, j) = p_program(&self.tokens, 0, d, &mut errs);
        self.index = j;
        proof {
            lemma_view_perrs(errs@);
            assert(view_perrs(errs0) =~= Seq::<PErrV>::empty());
            assert(view_perrs(errs@) =~= sp_parse(self.toks()).errs);
        }
        if errs.len() == 0 {
            proof {
                assert(sp_parse(self.toks()).errs.len() == 0);
            }
            Ok(stmts)
        } else {
            Err(Errors::from_vec(errs))
        }
    }
}
} // verus!
