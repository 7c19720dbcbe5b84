//! The error surface of the canonical byte codec.

use vstd::prelude::*;

verus! {

/// Failure of a canonical-bytes decode.  Decoding is all-or-nothing: an
/// unrecognized tag byte, a payload shorter than its fixed size, or a
/// malformed nested reference all collapse into this one kind, and the whole
/// input must be treated as unusable.
#[derive(PartialEq, Eq, Clone, Copy, Debug)]
pub enum Error {
    FormattingError,
}

} // verus!
