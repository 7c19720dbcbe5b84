//! Typed storage pointers obtained by down-casting a key: a validated
//! reference pointer, or a pointer to a hash-identified contract entry.

use core::marker::PhantomData;

use vstd::prelude::*;

use crate::uref::AccessRights;
use crate::uref::URef;

verus! {

/// A validated pointer to a mutable storage entry: the address and the
/// permission set of a reference that was checked to carry one.  The type
/// parameter records what the entry is expected to hold.
#[verifier::reject_recursive_types(T)]
#[derive(PartialEq, Eq, Debug)]
pub struct UPointer<T> {
    pub addr: [u8; 32],
    pub access_rights: AccessRights,
    pub marker: PhantomData<T>,
}

impl<T> UPointer<T> {
    /// Validates a reference into a pointer: succeeds exactly when the
    /// reference carries a permission set.
    pub fn from_uref(uref: URef) -> (r: Option<UPointer<T>>)
        ensures
            r is Some <==> uref.access_rights is Some,
            r matches Some(p) ==> p.addr == uref.addr && Some(p.access_rights)
                == uref.access_rights,
    {
        match uref.access_rights {
            Some(access_rights) => Some(
                UPointer { addr: uref.addr, access_rights, marker: PhantomData },
            ),
            None => None,
        }
    }
}

/// A pointer to a contract entry: either a validated reference pointer or
/// the 32-byte hash that identifies the entry.
#[derive(PartialEq, Eq, Debug)]
pub enum ContractPointer {
    Hash([u8; 32]),
    URef(UPointer<()>),
}

} // verus!
