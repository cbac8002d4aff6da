//! The token model the engine reads.
//!
//! A surface occurrence reaches the engine as a flat sequence of these
//! tokens. Expressions, nested patterns, declared types and function bodies
//! are opaque to the engine: each is a single token carrying a payload
//! handle, to be resolved by whatever lexed the occurrence.

use vstd::prelude::*;

verus! {

/// One token of a surface occurrence.
#[derive(Clone, Debug, PartialEq)]
pub enum Token {
    /// An identifier, as the bytes of its text.
    Ident(Vec<u8>),
    Colon,
    Comma,
    /// The `=` between a destructure pattern and its scrutinee.
    Equals,
    /// The `->` before a declared return type.
    RArrow,
    KwLet,
    KwFn,
    KwRef,
    KwMut,
    KwSelf,
    /// The wildcard-discard pattern `_`.
    Underscore,
    LBrace,
    RBrace,
    LParen,
    RParen,
    /// An opaque expression payload.
    Expr(u64),
    /// An opaque nested-pattern payload.
    Pat(u64),
    /// An opaque type payload.
    Ty(u64),
    /// An opaque function-body payload.
    Body(u64),
}

} // verus!
