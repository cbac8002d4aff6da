//! Field bindings: one entry per field occurrence in a field list.
//!
//! The four surface forms parse to three binding shapes: `name: expr` for
//! construct lists and call-argument lists, `[ref] [mut] name [: target]`
//! for destructure patterns, and `name: type` for named-parameter lists.

use vstd::prelude::*;

use crate::order::lex_lt;
use crate::order::name_clone;
use crate::order::name_eq;
use crate::order::name_lt;

verus! {

/// A binding `name: expr` of a construct list or call-argument list.
#[derive(Clone, Debug, PartialEq)]
pub struct BasicBind {
    pub name: Vec<u8>,
    pub expr: u64,
}

/// What a destructured field binds to.
#[derive(Clone, Debug, PartialEq)]
pub enum Target {
    /// Bind the field's own name.
    Plain,
    /// Bind another name in place of the field's own (`name: other`).
    Alias(Vec<u8>),
    /// Consume or borrow the field but name nothing (`name: _`).
    Wildcard,
    /// Bind through an opaque nested pattern (`name: pattern`).
    Nested(u64),
}

/// How a destructured field's payload is extracted.
#[derive(Clone, Copy, Debug, PartialEq, Eq, Structural)]
pub enum Mode {
    /// Consume the carrier and move the value out.
    ByValue,
    /// Bind a reference to the still-owned value.
    ByRef,
    /// Bind a mutable reference to the still-owned value.
    ByMutRef,
}

/// One field of a destructure-pattern list.
#[derive(Clone, Debug, PartialEq)]
pub struct DestructField {
    pub by_ref: bool,
    pub by_mut: bool,
    pub name: Vec<u8>,
    pub target: Target,
}

/// A whole destructure-pattern list, in source order.
#[derive(Clone, Debug, PartialEq)]
pub struct DestructFields {
    pub fields: Vec<DestructField>,
}

/// One entry `name: type` of a named-parameter list.
#[derive(Clone, Debug, PartialEq)]
pub struct Param {
    pub name: Vec<u8>,
    pub ty: u64,
}

/// The effective reference mode of one destructured field: mutable if the
/// field asks for mutability, a plain reference if the field or the whole
/// list asks for one, otherwise a move.
pub open spec fn spec_effective_mode(list_ref: bool, f: DestructField) -> Mode {
    if f.by_mut {
        Mode::ByMutRef
    } else if f.by_ref || list_ref {
        Mode::ByRef
    } else {
        Mode::ByValue
    }
}

/// Decides the effective reference mode of one field (see
/// [`spec_effective_mode`]). A field is either moved or referenced, never
/// both.
pub fn effective_mode(list_ref: bool, f: &DestructField) -> (m: Mode)
    ensures
        m == spec_effective_mode(list_ref, *f),
{
    if f.by_mut {
        Mode::ByMutRef
    } else if f.by_ref || list_ref {
        Mode::ByRef
    } else {
        Mode::ByValue
    }
}

/// Anything that carries a field name: what the canonicalizer sorts by.
pub trait Keyed: Sized {
    /// The field name this entry is keyed by.
    spec fn key(&self) -> Seq<u8>;

    /// Strict canonical-order comparison by key.
    fn key_lt(&self, other: &Self) -> (r: bool)
        ensures
            r == lex_lt(self.key(), other.key()),
    ;

    /// Key equality.
    fn key_eq(&self, other: &Self) -> (r: bool)
        ensures
            r == (self.key() == other.key()),
    ;

    /// A copy of the key.
    fn key_vec(&self) -> (r: Vec<u8>)
        ensures
            r@ == self.key(),
    ;
}

impl Keyed for Vec<u8> {
    open spec fn key(&self) -> Seq<u8> {
        self@
    }

    fn key_lt(&self, other: &Self) -> (r: bool) {
        name_lt(self, other)
    }

    fn key_eq(&self, other: &Self) -> (r: bool) {
        name_eq(self, other)
    }

    fn key_vec(&self) -> (r: Vec<u8>) {
        name_clone(self)
    }
}

impl Keyed for BasicBind {
    open spec fn key(&self) -> Seq<u8> {
        self.name@
    }

    fn key_lt(&self, other: &Self) -> (r: bool) {
        name_lt(&self.name, &other.name)
    }

    fn key_eq(&self, other: &Self) -> (r: bool) {
        name_eq(&self.name, &other.name)
    }

    fn key_vec(&self) -> (r: Vec<u8>) {
        name_clone(&self.name)
    }
}

impl Keyed for DestructField {
    open spec fn key(&self) -> Seq<u8> {
        self.name@
    }

    fn key_lt(&self, other: &Self) -> (r: bool) {
        name_lt(&self.name, &other.name)
    }

    fn key_eq(&self, other: &Self) -> (r: bool) {
        name_eq(&self.name, &other.name)
    }

    fn key_vec(&self) -> (r: Vec<u8>) {
        name_clone(&self.name)
    }
}

impl Keyed for Param {
    open spec fn key(&self) -> Seq<u8> {
        self.name@
    }

    fn key_lt(&self, other: &Self) -> (r: bool) {
        name_lt(&self.name, &other.name)
    }

    fn key_eq(&self, other: &Self) -> (r: bool) {
        name_eq(&self.name, &other.name)
    }

    fn key_vec(&self) -> (r: Vec<u8>) {
        name_clone(&self.name)
    }
}

} // verus!
