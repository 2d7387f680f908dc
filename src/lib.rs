//! Client-side building blocks for talking to local daemon services: fixed-size
//! identifiers with their text codec and XOR metric, length-prefixed message
//! framing, the peer-listing response stream and the layered error types.
use vstd::prelude::*;

pub mod codec;
pub mod error;
pub mod framing;
pub mod hashcode;
pub mod peerinfo;

verus! {

} // verus!
