//! Identity types: numeric user and group ids and a resolved user record.
//!
//! The numeric values come from the operating system; the caller resolves
//! them (via the C library) and hands them in as plain integers.

use vstd::prelude::*;

verus! {

/// A numeric user id.
#[derive(Debug, Clone, Copy, PartialEq, Eq, Structural, PartialOrd, Ord)]
pub struct Uid(u32);

/// A numeric group id.
#[derive(Debug, Clone, Copy, PartialEq, Eq, Structural, PartialOrd, Ord)]
pub struct Gid(u32);

/// A resolved user record: the fields of a password-database entry that the
/// surrounding program consults.
#[derive(Debug, Clone)]
pub struct User {
    pub name: String,
    pub uid: Uid,
    pub gid: Gid,
    pub shell: String,
    pub dir: String,
}

impl Uid {
    /// The numeric value of this id.
    pub closed spec fn value(self) -> u32 {
        self.0
    }

    pub fn new(id: u32) -> (r: Self)
        ensures
            r.value() == id,
    {
        Self(id)
    }

    pub fn as_raw(&self) -> (r: u32)
        ensures
            r == self.value(),
    {
        self.0
    }

    /// Whether this is the superuser id.
    pub fn is_root(&self) -> (r: bool)
        ensures
            r == (self.value() == 0),
    {
        self.0 == 0
    }
}

impl Gid {
    /// The numeric value of this id.
    pub closed spec fn value(self) -> u32 {
        self.0
    }

    pub fn new(id: u32) -> (r: Self)
        ensures
            r.value() == id,
    {
        Self(id)
    }

    pub fn as_raw(&self) -> (r: u32)
        ensures
            r == self.value(),
    {
        self.0
    }
}

} // verus!
