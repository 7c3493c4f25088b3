use vstd::prelude::*;

pub mod encoding;
pub mod hashable;
pub mod digest_set;
pub mod transaction;
pub mod block;
pub mod hex_text;
pub mod blockchain;

verus! {

/// A 32-byte digest, also read as a big-endian proof-of-work score.
pub type Hash = Vec<u8>;

/// The name of an output's recipient.
pub type Address = String;

} // verus!
