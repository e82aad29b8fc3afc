//! Suspend/resume correlation between callers and an external responder.
//!
//! The library holds the state that the host keeps between calls: which
//! correlation tokens are outstanding and for which content key, and, in the
//! retry-capable dispatcher, the answer cache. Creating and resuming
//! suspensions is left to the host; every decision about the stores is made
//! and proved here.
use vstd::prelude::*;

pub mod table;
pub mod payload;
pub mod basic;
pub mod numbered;
pub mod retry;

verus! {

/// A correlation token handed out by the host when a call suspends.
pub type Token = [u8; 32];

/// The report that a suspension ended without an answer: its deadline passed.
#[derive(Debug, PartialEq, Eq, Structural)]
pub struct TimedOut;

/// What the host is to do next: resume the suspension of `token` with
/// `payload`.
#[derive(Debug, Clone, PartialEq, Eq)]
pub struct Resume {
    pub token: Token,
    pub payload: Vec<u8>,
}

} // verus!
