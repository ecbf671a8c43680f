//! The core's built-in messages and the conversion into a message type.
use vstd::prelude::*;

verus! {

/// Conversion of a value into the message type `M` that carries it.
pub trait ToMessage<M> {
    fn to_message(self) -> M;
}

/// Acknowledges the envelope that carried `nonce`.
#[derive(Clone, Copy, Debug, PartialEq, Eq, Structural)]
pub struct Ack {
    pub nonce: u32,
}

/// Asks the receiving actor to stop.
#[derive(Clone, Copy, Debug, PartialEq, Eq, Structural)]
pub struct PoisonPill {}

/// The acknowledgement of the envelope that carried `nonce`.
pub fn ack(nonce: u32) -> (r: Ack)
    ensures
        r.nonce == nonce,
{
    Ack { nonce }
}

} // verus!
