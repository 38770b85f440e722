//! Per-connection state.
//!
//! A `Client` is one accepted socket together with its owned buffer slot,
//! its never-reused id, and the one operation currently outstanding for it.
//! The state machine never has more than one operation in flight per
//! connection: a read is answered by a write of the same bytes, and only a
//! fully confirmed write is followed by the next read. All transitions are
//! driven externally, by the reactor delivering a matching completion.

use crate::buffer::Guard;
use crate::common::Id;
use vstd::prelude::*;

verus! {

/// The one operation outstanding for a connection. `AwaitingWrite` remembers
/// the byte length the write completion must confirm exactly.
#[derive(Clone, Copy, Debug, PartialEq, Eq, Structural)]
pub enum ClientState {
    AwaitingRead,
    AwaitingWrite { expected: u32 },
}

/// One live connection: its socket (an opaque descriptor the reactor only
/// hands back to the unverified I/O shell), its buffer guard, and its state.
pub struct Client {
    pub id: Id,
    pub socket: i32,
    pub buffer: Guard,
    pub state: ClientState,
}

impl Client {
    /// A freshly accepted connection starts by awaiting its first read.
    pub fn new(id: Id, socket: i32, buffer: Guard) -> (client: Client)
        ensures
            client.id == id,
            client.socket == socket,
            client.buffer == buffer,
            client.state == ClientState::AwaitingRead,
    {
        Client { id, socket, buffer, state: ClientState::AwaitingRead }
    }
}

/// Response-producing collaborator: invoked once per completed read with
/// exactly the received bytes, it returns the bytes to send back. This
/// server echoes, so the response is the input verbatim — in particular it
/// never exceeds one buffer slot's worth of output.
pub fn produce_response(received: &Vec<u8>) -> (response: Vec<u8>)
    ensures
        response@ == received@,
{
    let mut response: Vec<u8> = Vec::new();
    let mut i: usize = 0;
    while i < received.len()
        invariant
            i <= received@.len(),
            response@ =~= received@.take(i as int),
        decreases received@.len() - i,
    {
        response.push(received[i]);
        i = i + 1;
    }
    proof {
        assert(response@ =~= received@);
    }
    response
}

} // verus!
