//! A small network transport core: a unified read/write endpoint over
//! stream and datagram sockets, a connection multiplexer that services a
//! growable peer set through a FIFO handoff, a datagram echo step, and an
//! interactive relay that chunks input lines for transmission.
//!
//! All I/O (sockets, threads, logging) lives outside this crate; the types
//! and functions here are the pure decision and buffering logic, each with
//! a contract.

pub mod addr;
pub mod chunk;
pub mod datagram;
pub mod multiplexer;
pub mod protocol;
pub mod relay;

use vstd::prelude::*;

verus! {

/// Copy the valid prefix `buffer[..size]` of a read buffer: the bytes a
/// service loop echoes back are exactly the bytes it read, in order.
pub fn echo_reply(buffer: &Vec<u8>, size: usize) -> (r: Vec<u8>)
    requires
        size <= buffer@.len(),
    ensures
        r@ == buffer@.subrange(0, size as int),
{
    let mut out: Vec<u8> = Vec::new();
    let mut i: usize = 0;
    while i < size
        invariant
            i <= size,
            size <= buffer@.len(),
            out@ == buffer@.subrange(0, i as int),
        decreases size - i,
    {
        out.push(buffer[i]);
        proof {
            assert(out@ =~= buffer@.subrange(0, i + 1 as int));
        }
        i = i + 1;
    }
    out
}

} // verus!
