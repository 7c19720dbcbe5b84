//! Mutable storage references: a 32-byte address plus an optional permission
//! set, the payload of the reference variant of a key.

use vstd::prelude::*;

verus! {

/// A permission set attached to a reference: one of the seven non-empty
/// combinations of the read, write and add capabilities.
#[allow(non_camel_case_types)]
#[derive(PartialEq, Eq, PartialOrd, Ord, Clone, Copy, Hash, Debug)]
pub enum AccessRights {
    READ,
    WRITE,
    ADD,
    READ_ADD,
    READ_WRITE,
    ADD_WRITE,
    READ_ADD_WRITE,
}

/// Whether the permission set grants the read capability.
pub open spec fn spec_is_readable(r: AccessRights) -> bool {
    match r {
        AccessRights::READ => true,
        AccessRights::READ_ADD => true,
        AccessRights::READ_WRITE => true,
        AccessRights::READ_ADD_WRITE => true,
        _ => false,
    }
}

/// Whether the permission set grants the write capability.
pub open spec fn spec_is_writeable(r: AccessRights) -> bool {
    match r {
        AccessRights::WRITE => true,
        AccessRights::READ_WRITE => true,
        AccessRights::ADD_WRITE => true,
        AccessRights::READ_ADD_WRITE => true,
        _ => false,
    }
}

/// Whether the permission set grants the add capability.
pub open spec fn spec_is_addable(r: AccessRights) -> bool {
    match r {
        AccessRights::ADD => true,
        AccessRights::READ_ADD => true,
        AccessRights::ADD_WRITE => true,
        AccessRights::READ_ADD_WRITE => true,
        _ => false,
    }
}

/// The canonical one-byte encoding of a permission set: bit 0 is read,
/// bit 1 is write, bit 2 is add.
pub open spec fn rights_byte(r: AccessRights) -> u8 {
    match r {
        AccessRights::READ => 1,
        AccessRights::WRITE => 2,
        AccessRights::ADD => 4,
        AccessRights::READ_ADD => 5,
        AccessRights::READ_WRITE => 3,
        AccessRights::ADD_WRITE => 6,
        AccessRights::READ_ADD_WRITE => 7,
    }
}

/// The human-readable rendering of a permission set.
pub open spec fn rights_text(r: AccessRights) -> Seq<char> {
    match r {
        AccessRights::READ => "READ"@,
        AccessRights::WRITE => "WRITE"@,
        AccessRights::ADD => "ADD"@,
        AccessRights::READ_ADD => "READ_ADD"@,
        AccessRights::READ_WRITE => "READ_WRITE"@,
        AccessRights::ADD_WRITE => "ADD_WRITE"@,
        AccessRights::READ_ADD_WRITE => "READ_ADD_WRITE"@,
    }
}

impl AccessRights {
    /// Whether the permission set grants the read capability.
    pub fn is_readable(&self) -> (r: bool)
        ensures
            r == spec_is_readable(*self),
    {
        matches!(*self,
            AccessRights::READ
            | AccessRights::READ_ADD
            | AccessRights::READ_WRITE
            | AccessRights::READ_ADD_WRITE)
    }

    /// Whether the permission set grants the write capability.
    pub fn is_writeable(&self) -> (r: bool)
        ensures
            r == spec_is_writeable(*self),
    {
        matches!(*self,
            AccessRights::WRITE
            | AccessRights::READ_WRITE
            | AccessRights::ADD_WRITE
            | AccessRights::READ_ADD_WRITE)
    }

    /// Whether the permission set grants the add capability.
    pub fn is_addable(&self) -> (r: bool)
        ensures
            r == spec_is_addable(*self),
    {
        matches!(*self,
            AccessRights::ADD
            | AccessRights::READ_ADD
            | AccessRights::ADD_WRITE
            | AccessRights::READ_ADD_WRITE)
    }

    /// The canonical one-byte encoding of this permission set.
    pub fn tag_byte(&self) -> (b: u8)
        ensures
            b == rights_byte(*self),
    {
        match *self {
            AccessRights::READ => 1,
            AccessRights::WRITE => 2,
            AccessRights::ADD => 4,
            AccessRights::READ_ADD => 5,
            AccessRights::READ_WRITE => 3,
            AccessRights::ADD_WRITE => 6,
            AccessRights::READ_ADD_WRITE => 7,
        }
    }

    /// Recovers a permission set from its canonical one-byte encoding.
    /// Exactly the bytes 1 through 7 are valid.
    pub fn from_tag_byte(b: u8) -> (r: Option<AccessRights>)
        ensures
            r is Some <==> 1 <= b <= 7,
            r matches Some(a) ==> rights_byte(a) == b,
    {
        match b {
            1 => Some(AccessRights::READ),
            2 => Some(AccessRights::WRITE),
            3 => Some(AccessRights::READ_WRITE),
            4 => Some(AccessRights::ADD),
            5 => Some(AccessRights::READ_ADD),
            6 => Some(AccessRights::ADD_WRITE),
            7 => Some(AccessRights::READ_ADD_WRITE),
            _ => None,
        }
    }

    /// The human-readable rendering of this permission set.
    pub fn as_text(&self) -> (s: &'static str)
        ensures
            s@ == rights_text(*self),
    {
        match *self {
            AccessRights::READ => "READ",
            AccessRights::WRITE => "WRITE",
            AccessRights::ADD => "ADD",
            AccessRights::READ_ADD => "READ_ADD",
            AccessRights::READ_WRITE => "READ_WRITE",
            AccessRights::ADD_WRITE => "ADD_WRITE",
            AccessRights::READ_ADD_WRITE => "READ_ADD_WRITE",
        }
    }
}

/// A mutable storage reference: an opaque 32-byte address together with the
/// permission set it was obtained under, if any.  Two references differing
/// only in the permission set are distinct values.
#[derive(PartialEq, Eq, PartialOrd, Ord, Clone, Copy, Hash, Debug)]
pub struct URef {
    pub addr: [u8; 32],
    pub access_rights: Option<AccessRights>,
}

/// The canonical byte encoding of a reference: the 32 address bytes, then
/// either a single 0 for an absent permission set, or a 1 followed by the
/// permission set's one-byte encoding.
pub open spec fn uref_bytes(u: URef) -> Seq<u8> {
    match u.access_rights {
        None => u.addr@ + seq![0u8],
        Some(r) => u.addr@ + seq![1u8, rights_byte(r)],
    }
}

impl URef {
    /// Builds a reference carrying the given permission set.
    pub fn new(addr: [u8; 32], access_rights: AccessRights) -> (u: URef)
        ensures
            u == (URef { addr, access_rights: Some(access_rights) }),
    {
        URef { addr, access_rights: Some(access_rights) }
    }

    /// The 32-byte address of this reference.
    pub fn addr(&self) -> (a: [u8; 32])
        ensures
            a == self.addr,
    {
        self.addr
    }

    /// The permission set this reference carries, if any.
    pub fn access_rights(&self) -> (r: Option<AccessRights>)
        ensures
            r == self.access_rights,
    {
        self.access_rights
    }

    /// A copy of this reference with the permission set cleared, comparable
    /// for identity regardless of how the original was obtained.
    pub fn remove_access_rights(self) -> (u: URef)
        ensures
            u == (URef { addr: self.addr, access_rights: None }),
    {
        URef { addr: self.addr, access_rights: None }
    }
}

} // verus!
