//! Per-actor state kept by the runtime: the state bits and the ack counter.
use vstd::prelude::*;

verus! {

/// Bit mask of an actor cell's state.
pub type CellState = u8;

/// The state bit that marks a cell as shutting down.
pub const SHUTDOWN: u8 = 1;

/// True iff the shutdown bit is set.
pub fn is_shutdown(state: CellState) -> (r: bool)
    ensures
        r == (state & SHUTDOWN == SHUTDOWN),
{
    state & SHUTDOWN == SHUTDOWN
}

/// Sets the shutdown bit, keeping the others. There is no way back.
pub fn set_shutdown(state: &mut CellState)
    ensures
        *final(state) == *old(state) | SHUTDOWN,
        *final(state) & SHUTDOWN == SHUTDOWN,
{
    let o = *state;
    *state = o | SHUTDOWN;
    assert((o | 1u8) & 1u8 == 1u8) by (bit_vector);
}

/// Takes the next acknowledgement nonce: the counter goes up by one and the new
/// value is the nonce.
pub fn next_ack_nonce(counter: &mut u32) -> (r: u32)
    requires
        *old(counter) < u32::MAX,
    ensures
        *final(counter) == *old(counter) + 1,
        r == *final(counter),
{
    *counter = *counter + 1;
    *counter
}

} // verus!
