//! What a client may ask for along with its credentials.

use vstd::prelude::*;

verus! {

/// A request of the client that bears on the address its connections come from.
#[derive(Clone, Copy, Debug, PartialEq, Eq)]
pub enum Extensions {
    /// Nothing is asked for: every connection gets an address of its own.
    Absent,
    /// All connections of the session with this 128-bit identifier come from one address. The
    /// identifier is given as its high and its low half.
    Session((u64, u64)),
}

} // verus!
