//! Device identifiers and network addresses.
//!
//! The registry accepts either a numeric or an opaque string identifier, so
//! identifiers are a tagged union compared by value, never by coercing one
//! form into the other.

use vstd::prelude::*;

verus! {

/// An IPv4 address, held as its four octets.
#[derive(Clone, Copy, PartialEq, Eq, Structural, Debug)]
pub struct Ipv4 {
    pub a: u8,
    pub b: u8,
    pub c: u8,
    pub d: u8,
}

/// A device identifier: either numeric or an opaque string.
#[derive(Debug, PartialEq, Eq)]
pub enum Identifier {
    Numeric(i64),
    Opaque(String),
}

/// Value equality of identifiers: same tag and same payload.
pub open spec fn id_eq(x: Identifier, y: Identifier) -> bool {
    match (x, y) {
        (Identifier::Numeric(a), Identifier::Numeric(b)) => a == b,
        (Identifier::Opaque(a), Identifier::Opaque(b)) => a@ == b@,
        _ => false,
    }
}

impl Identifier {
    /// Decides whether two identifiers denote the same device key.
    pub fn same_as(&self, other: &Identifier) -> (r: bool)
        ensures
            r == id_eq(*self, *other),
    {
        match (self, other) {
            (Identifier::Numeric(a), Identifier::Numeric(b)) => *a == *b,
            (Identifier::Opaque(a), Identifier::Opaque(b)) => *a == *b,
            _ => false,
        }
    }
}

impl Clone for Identifier {
    fn clone(&self) -> (r: Self)
        ensures
            id_eq(r, *self),
    {
        match self {
            Identifier::Numeric(n) => Identifier::Numeric(*n),
            Identifier::Opaque(s) => Identifier::Opaque(s.clone()),
        }
    }
}

} // verus!
