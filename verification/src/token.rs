//! Tokens as the command parser sees them. Interpolated expressions arrive
//! already parsed by the surrounding expression parser, carried inside their
//! token.

use vstd::prelude::*;
use crate::ast::Expr;
use std::rc::Rc;

verus! {

pub enum TokenKind {
    /// A plain run of word text; the token's lexeme holds it.
    Text,
    /// A quoted string; the token's lexeme holds its contents.
    Quoted,
    /// A brace-delimited interpolated expression, parsed by the
    /// surrounding expression parser.
    Interp(Rc<Expr>),
    Space,
    Newline,
    Pipe,
    StarPipe,
    AmperPipe,
    PipePipe,
    AmperAmper,
    Great,
    StarGreat,
    AmperGreat,
    Less,
    StarLess,
    AmperLess,
}

pub struct Token {
    pub kind: TokenKind,
    pub lexeme: String,
}

/// The binding powers of the command operators: redirections bind tightest,
/// then pipes, then `&&`, then `||`. A left power one below the right power
/// makes every operator left-associative with itself.
pub open spec fn spec_binding_power(op: TokenKind) -> Option<(u8, u8)> {
    match op {
        TokenKind::Great | TokenKind::StarGreat | TokenKind::AmperGreat => Some((7u8, 8u8)),
        TokenKind::Less | TokenKind::StarLess | TokenKind::AmperLess => Some((7u8, 8u8)),
        TokenKind::Pipe | TokenKind::StarPipe | TokenKind::AmperPipe => Some((5u8, 6u8)),
        TokenKind::AmperAmper => Some((3u8, 4u8)),
        TokenKind::PipePipe => Some((1u8, 2u8)),
        _ => None,
    }
}

pub fn binding_power(op: &TokenKind) -> (r: Option<(u8, u8)>)
    ensures
        r == spec_binding_power(*op),
{
    match op {
        TokenKind::Great | TokenKind::StarGreat | TokenKind::AmperGreat => Some((7u8, 8u8)),
        TokenKind::Less | TokenKind::StarLess | TokenKind::AmperLess => Some((7u8, 8u8)),
        TokenKind::Pipe | TokenKind::StarPipe | TokenKind::AmperPipe => Some((5u8, 6u8)),
        TokenKind::AmperAmper => Some((3u8, 4u8)),
        TokenKind::PipePipe => Some((1u8, 2u8)),
        _ => None,
    }
}

impl Token {
    pub open spec fn spec_is_cmd_op(&self) -> bool {
        spec_binding_power(self.kind) is Some
    }

    pub fn is_cmd_op(&self) -> (r: bool)
        ensures
            r == self.spec_is_cmd_op(),
    {
        binding_power(&self.kind).is_some()
    }
}

} // verus!
