//! The plain values that nodes exchange.

use vstd::prelude::*;

verus! {

/// The network address of a node, as peers dial it. The empty address
/// stands for "not yet known".
pub type Address = String;

/// The identifier under which a value is stored.
pub type Key = [u8; 32];

/// A stored value.
pub type Value = Vec<u8>;

/// A point in time, in seconds since the Unix epoch.
pub type ExpirationDate = u64;

} // verus!
