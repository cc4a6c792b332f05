//! A connection as the library sees it: the bytes that the peer has sent,
//! how far they have been read, and the bytes written to the peer.

use vstd::prelude::*;
use vstd::slice::*;

verus! {

/// The ceiling on a packet's declared length that a connection starts with.
pub const DEFAULT_MAX_PACKET_LENGTH: u32 = 35000;

/// One side's view of an established connection.
///
/// Reading never waits: what has not arrived when a field is asked for is
/// missing, and the read fails as truncated.
pub struct Connection {
    inbound: Inbound,
    sent: Vec<u8>,
    max_packet_length: u32,
}

/// The bytes that have arrived, and how many of them have been read.
struct Inbound {
    received: Vec<u8>,
    position: usize,
}

impl Inbound {
    #[verifier::type_invariant]
    spec fn consistent(self) -> bool {
        self.position <= self.received@.len()
    }

    spec fn unread(self) -> Seq<u8> {
        self.received@.skip(self.position as int)
    }

    fn remaining(&self) -> (bytes: &[u8])
        ensures
            bytes@ == self.unread(),
    {
        proof {
            use_type_invariant(self);
        }
        slice_subrange(self.received.as_slice(), self.position, self.received.len())
    }

    fn advance(&mut self, count: usize)
        requires
            count <= old(self).unread().len(),
        ensures
            final(self).unread() == old(self).unread().skip(count as int),
    {
        proof {
            use_type_invariant(&*self);
        }
        let total = self.received.len();
        assert(self.unread().len() == total - self.position);
        self.position = self.position + count;
        assert(self.unread() =~= old(self).unread().skip(count as int));
    }
}

impl Connection {
    /// The bytes that have arrived and have not been read yet.
    pub closed spec fn unread(self) -> Seq<u8> {
        self.inbound.unread()
    }

    /// Everything written to the peer so far.
    pub closed spec fn sent(self) -> Seq<u8> {
        self.sent@
    }

    /// The largest length that a packet may declare.
    pub closed spec fn max_packet_length(self) -> u32 {
        self.max_packet_length
    }

    /// A connection on which `received` has arrived and nothing was read or
    /// written yet, with the default ceiling on packet lengths.
    pub fn new(received: Vec<u8>) -> (conn: Connection)
        ensures
            conn.unread() == received@,
            conn.sent() == Seq::<u8>::empty(),
            conn.max_packet_length() == DEFAULT_MAX_PACKET_LENGTH,
    {
        Connection::with_max_packet_length(received, DEFAULT_MAX_PACKET_LENGTH)
    }

    /// As [`Connection::new`], with a ceiling of the caller's choice.
    pub fn with_max_packet_length(received: Vec<u8>, max_packet_length: u32) -> (conn: Connection)
        ensures
            conn.unread() == received@,
            conn.sent() == Seq::<u8>::empty(),
            conn.max_packet_length() == max_packet_length,
    {
        let inbound = Inbound { received, position: 0 };
        assert(inbound.unread() =~= received@);
        Connection { inbound, sent: Vec::new(), max_packet_length }
    }

    /// The bytes that have not been read yet.
    pub fn remaining(&self) -> (bytes: &[u8])
        ensures
            bytes@ == self.unread(),
    {
        self.inbound.remaining()
    }

    /// Everything written to the peer so far.
    pub fn written(&self) -> (bytes: &[u8])
        ensures
            bytes@ == self.sent(),
    {
        self.sent.as_slice()
    }

    /// The largest length that a packet may declare.
    pub fn packet_limit(&self) -> (limit: u32)
        ensures
            limit == self.max_packet_length(),
    {
        self.max_packet_length
    }

    /// Steps over the next `count` unread bytes.
    pub(crate) fn advance(&mut self, count: usize)
        requires
            count <= old(self).unread().len(),
        ensures
            final(self).unread() == old(self).unread().skip(count as int),
            final(self).sent() == old(self).sent(),
            final(self).max_packet_length() == old(self).max_packet_length(),
    {
        self.inbound.advance(count);
    }

    /// Writes `bytes` to the peer.
    pub fn send(&mut self, bytes: &[u8])
        ensures
            final(self).unread() == old(self).unread(),
            final(self).sent() == old(self).sent() + bytes@,
            final(self).max_packet_length() == old(self).max_packet_length(),
    {
        self.sent.extend_from_slice(bytes);
    }
}

} // verus!
