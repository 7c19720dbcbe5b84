//! Addressing keys for a content-addressed global state store.
//!
//! A [`key::Key`] names an entry in the store: a plain account address, a
//! content-hash address, a mutable reference carrying an optional permission
//! set, or a two-part contract-local address.  The crate gives each variant a
//! canonical byte encoding (the wire and storage contract), a decoder that
//! rejects anything outside that contract, and hexadecimal text parsing and
//! formatting.

pub mod bytesrepr;
pub mod hex;
pub mod key;
pub mod pointers;
pub mod uref;

pub use bytesrepr::Error;
pub use key::Key;
pub use pointers::ContractPointer;
pub use pointers::UPointer;
pub use uref::AccessRights;
pub use uref::URef;
