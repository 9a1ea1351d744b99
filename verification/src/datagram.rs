//! The datagram endpoint's reassembly buffer: repeated small reads drain
//! one received datagram before the caller asks the socket for the next.
//!
//! The stream variant of an endpoint passes reads straight through to its
//! connection; the datagram variant needs this state because one receive
//! yields a whole datagram while the caller may only have room for part of
//! it.  The buffer tracks `(cursor, filled_length, raw_buffer)` and never
//! hands out a byte from one datagram before the previous one is drained.

use crate::addr::PeerAddr;
use vstd::math::min;
use vstd::prelude::*;

verus! {

/// The largest payload a UDP datagram can carry.
pub const DATAGRAM_CAPACITY: usize = 65507;

/// Reassembly state of a datagram endpoint: `raw[cursor..filled]` is the
/// not-yet-delivered rest of the most recently received datagram.
pub struct DatagramBuffer {
    cursor: usize,
    filled: usize,
    raw: Vec<u8>,
}

impl DatagramBuffer {
    /// Internal invariant: the cursor never passes the filled length, and
    /// the filled length never passes the allocated capacity.
    pub closed spec fn wf(self) -> bool {
        self.cursor <= self.filled <= self.raw@.len()
    }

    /// The fixed size of the raw receive buffer.
    pub closed spec fn capacity(self) -> int {
        self.raw@.len() as int
    }

    /// The bytes of the current datagram not yet delivered to any caller.
    pub closed spec fn pending(self) -> Seq<u8> {
        self.raw@.subrange(self.cursor as int, self.filled as int)
    }

    /// A fresh, drained buffer of the given capacity.
    pub fn new(capacity: usize) -> (r: Self)
        ensures
            r.wf(),
            r.capacity() == capacity,
            r.pending() == Seq::<u8>::empty(),
    {
        let r = DatagramBuffer { cursor: 0, filled: 0, raw: vec![0u8; capacity] };
        proof {
            assert(r.pending() =~= Seq::<u8>::empty());
        }
        r
    }

    /// Report the internal invariant, so an unverified caller can test it
    /// before relying on it.  Every constructor and method keeps it true.
    pub fn is_well_formed(&self) -> (r: bool)
        ensures
            r == self.wf(),
    {
        self.cursor <= self.filled && self.filled <= self.raw.len()
    }

    /// True when the current datagram is fully drained, so the next read
    /// must perform a fresh receive before it can return data.
    pub fn needs_receive(&self) -> (r: bool)
        requires
            self.wf(),
        ensures
            r == (self.pending().len() == 0),
    {
        self.cursor >= self.filled
    }

    /// Store one freshly received datagram, resetting the cursor to zero.
    /// A payload longer than the capacity is truncated: the bytes past the
    /// capacity are dropped, never delivered later.
    pub fn accept_datagram(&mut self, payload: &[u8])
        requires
            old(self).wf(),
        ensures
            final(self).wf(),
            final(self).capacity() == old(self).capacity(),
            final(self).pending() == payload@.take(
                min(payload@.len() as int, old(self).capacity()),
            ),
    {
        self.cursor = 0;
        let n: usize = if payload.len() < self.raw.len() {
            payload.len()
        } else {
            self.raw.len()
        };
        let mut i: usize = 0;
        while i < n
            invariant
                i <= n,
                self.cursor == 0,
                n <= payload@.len(),
                n <= self.raw@.len(),
                self.raw@.len() == old(self).raw@.len(),
                forall|j: int| 0 <= j < i ==> self.raw@[j] == payload@[j],
            decreases n - i,
        {
            self.raw[i] = payload[i];
            i = i + 1;
        }
        self.filled = n;
        proof {
            assert(self.pending() =~= payload@.take(
                min(payload@.len() as int, old(self).capacity()),
            ));
        }
    }

    /// Drain pending bytes into the prefix of `dst`: exactly
    /// `min(pending, dst.len())` bytes are written, all from the current
    /// datagram, and the cursor advances past them.  The rest of `dst` is
    /// untouched.  Several calls may be needed to drain one datagram when
    /// `dst` is smaller than the datagram.
    pub fn read_into(&mut self, dst: &mut Vec<u8>) -> (n: usize)
        requires
            old(self).wf(),
        ensures
            final(self).wf(),
            n == min(old(self).pending().len() as int, old(dst)@.len() as int),
            final(self).capacity() == old(self).capacity(),
            final(self).pending() == old(self).pending().skip(n as int),
            final(dst)@.len() == old(dst)@.len(),
            forall|j: int| 0 <= j < n ==> final(dst)@[j] == old(self).pending()[j],
            forall|j: int| n <= j < final(dst)@.len() ==> final(dst)@[j] == old(dst)@[j],
    {
        let remaining: usize = self.filled - self.cursor;
        let n: usize = if remaining < dst.len() {
            remaining
        } else {
            dst.len()
        };
        let mut i: usize = 0;
        while i < n
            invariant
                i <= n,
                *self == *old(self),
                self.wf(),
                n <= self.filled - self.cursor,
                n <= dst@.len(),
                dst@.len() == old(dst)@.len(),
                forall|j: int| 0 <= j < i ==> dst@[j] == old(self).pending()[j],
                forall|j: int| i <= j < dst@.len() ==> dst@[j] == old(dst)@[j],
            decreases n - i,
        {
            dst[i] = self.raw[self.cursor + i];
            i = i + 1;
        }
        self.cursor = self.cursor + n;
        proof {
            assert(self.pending() =~= old(self).pending().skip(n as int));
        }
        n
    }
}

/// One step of the datagram echo loop: a datagram of `amt` bytes sitting
/// in the front of `buffer` arrived from `source`; the reply carries the
/// identical payload and goes back to that same source and to no one
/// else.
pub fn datagram_echo_step(buffer: &Vec<u8>, amt: usize, source: PeerAddr) -> (r: (Vec<u8>, PeerAddr))
    requires
        amt <= buffer@.len(),
    ensures
        r.0@ == buffer@.subrange(0, amt as int),
        r.1 == source,
{
    (crate::echo_reply(buffer, amt), source)
}

} // verus!
