//! Reliable one-to-many file delivery over an unreliable, unordered datagram
//! transport. A sender turns a file into a stream of self-describing encoded
//! fragments by driving a rateless erasure coder; receivers reconstruct the
//! file from any sufficiently large subset of fragments, in any order.
#![allow(unused_imports)]
use vstd::prelude::*;

pub mod types;
pub mod digest;
pub mod frame;
pub mod coder;
pub mod shuffle;
pub mod sender;
pub mod receiver;

pub use types::{Meta, TransferConfig, Fragment};
pub use frame::FrameError;
pub use sender::{Sender, SendSession};
pub use receiver::{Receiver, RecvOutcome};

verus! {

/// Maximum per-fragment payload size, a protocol-level constant shared by
/// sender and receiver.
pub const MTU: u16 = 1200;

} // verus!
