//! The binary packet that frames every SSH message before encryption starts:
//! a length, then as many bytes as it says, the first of which counts the
//! padding at the end.

use vstd::prelude::*;
use vstd::slice::*;
use crate::connection::Connection;
use crate::error::ProtocolError;
use crate::wire::{be_u32, lemma_be_u32_round_trip, read_u32, u32_be_bytes};

verus! {

/// One binary packet as it was read off the wire.
///
/// No MAC is negotiated before the first key exchange, so `mac` is empty in
/// every packet that the reader hands out.
#[derive(Clone, Debug, PartialEq, Eq)]
pub struct BinaryPacket {
    pub packet_length: u32,
    pub padding_length: u8,
    pub payload: Vec<u8>,
    pub padding: Vec<u8>,
    pub mac: Vec<u8>,
}

/// A [`BinaryPacket`] with its byte strings as sequences.
pub struct PacketContent {
    pub packet_length: u32,
    pub padding_length: u8,
    pub payload: Seq<u8>,
    pub padding: Seq<u8>,
    pub mac: Seq<u8>,
}

impl View for BinaryPacket {
    type V = PacketContent;

    open spec fn view(&self) -> PacketContent {
        PacketContent {
            packet_length: self.packet_length,
            padding_length: self.padding_length,
            payload: self.payload@,
            padding: self.padding@,
            mac: self.mac@,
        }
    }
}

impl PacketContent {
    /// The lengths of a packet fit together: the declared length counts the
    /// byte that holds the padding length, the payload and the padding.
    pub open spec fn consistent(self) -> bool {
        &&& self.padding_length < self.packet_length
        &&& self.padding.len() == self.padding_length
        &&& self.payload.len() == self.packet_length - 1 - self.padding_length
        &&& self.mac.len() == 0
    }
}

/// The packet at the start of `stream` and the number of bytes it takes up,
/// or the reason why there is none. `limit` is the largest length that a
/// packet may declare; a larger one is refused before its body is looked at.
pub open spec fn packet_in(stream: Seq<u8>, limit: u32) -> Result<
    (PacketContent, int),
    ProtocolError,
> {
    if stream.len() < 4 {
        Err(ProtocolError::Truncated)
    } else {
        let length = be_u32(stream.take(4));
        if length > limit {
            Err(ProtocolError::OversizedPacket)
        } else if stream.len() < 4 + length {
            Err(ProtocolError::Truncated)
        } else if length == 0 || stream[4] >= length {
            Err(ProtocolError::Malformed)
        } else {
            Ok(
                (
                    PacketContent {
                        packet_length: length as u32,
                        padding_length: stream[4],
                        payload: stream.subrange(5, 4 + length - stream[4]),
                        padding: stream.subrange(4 + length - stream[4], 4 + length),
                        mac: Seq::empty(),
                    },
                    4 + length,
                ),
            )
        }
    }
}

/// The bytes of the packet that carries `payload` followed by `padding`.
pub open spec fn packet_bytes(payload: Seq<u8>, padding: Seq<u8>) -> Seq<u8>
    recommends
        padding.len() <= u8::MAX,
        1 + payload.len() + padding.len() <= u32::MAX,
{
    u32_be_bytes(1 + payload.len() as int + padding.len()) + seq![padding.len() as u8] + payload
        + padding
}

/// Reads one packet from the connection.
///
/// On success exactly the packet's bytes have been read. On failure nothing
/// has been read.
pub fn read_single_packet(conn: &mut Connection) -> (result: Result<BinaryPacket, ProtocolError>)
    ensures
        match packet_in(old(conn).unread(), old(conn).max_packet_length()) {
            Ok((packet, used)) => result matches Ok(pkt) && pkt@ == packet && final(conn).unread()
                == old(conn).unread().skip(used),
            Err(e) => result == Err::<BinaryPacket, ProtocolError>(e) && final(conn).unread()
                == old(conn).unread(),
        },
        final(conn).sent() == old(conn).sent(),
        final(conn).max_packet_length() == old(conn).max_packet_length(),
{
    let stream = conn.remaining();
    let packet_length = match read_u32(stream, 0) {
        Some(length) => length,
        None => {
            return Err(ProtocolError::Truncated);
        },
    };
    assert(stream@.subrange(0, 4) == stream@.take(4));
    if packet_length > conn.packet_limit() {
        return Err(ProtocolError::OversizedPacket);
    }
    let length = packet_length as usize;
    if stream.len() - 4 < length {
        return Err(ProtocolError::Truncated);
    }
    if length == 0 {
        return Err(ProtocolError::Malformed);
    }
    let padding_length = stream[4];
    if padding_length as usize >= length {
        return Err(ProtocolError::Malformed);
    }
    let padding_start = 4 + length - padding_length as usize;
    let payload = slice_to_vec(slice_subrange(stream, 5, padding_start));
    let padding = slice_to_vec(slice_subrange(stream, padding_start, 4 + length));
    conn.advance(4 + length);
    Ok(BinaryPacket { packet_length, padding_length, payload, padding, mac: Vec::new() })
}

/// What [`packet_in`] accepts is a packet whose lengths fit together.
pub proof fn lemma_packet_consistent(stream: Seq<u8>, limit: u32)
    requires
        packet_in(stream, limit) is Ok,
    ensures
        packet_in(stream, limit)->Ok_0.0.consistent(),
        packet_in(stream, limit)->Ok_0.0.packet_length <= limit,
        packet_in(stream, limit)->Ok_0.1 == 4 + packet_in(stream, limit)->Ok_0.0.packet_length,
        packet_in(stream, limit)->Ok_0.1 <= stream.len(),
{
}

/// A packet that was written out is read back as it was: the payload, the
/// padding and its length come out again, and exactly the packet's bytes are
/// taken, whatever follows them.
pub proof fn lemma_packet_round_trip(
    payload: Seq<u8>,
    padding: Seq<u8>,
    following: Seq<u8>,
    limit: u32,
)
    requires
        padding.len() <= u8::MAX,
        1 + payload.len() + padding.len() <= limit,
    ensures
        packet_in(packet_bytes(payload, padding) + following, limit) == Ok::<
            (PacketContent, int),
            ProtocolError,
        >(
            (
                PacketContent {
                    packet_length: (1 + payload.len() + padding.len()) as u32,
                    padding_length: padding.len() as u8,
                    payload,
                    padding,
                    mac: Seq::empty(),
                },
                packet_bytes(payload, padding).len() as int,
            ),
        ),
{
    let length: int = 1 + payload.len() as int + padding.len();
    let stream = packet_bytes(payload, padding) + following;
    lemma_be_u32_round_trip(length);
    assert(stream.take(4) =~= u32_be_bytes(length));
    assert(stream[4] == padding.len() as u8);
    assert(stream.subrange(5, 4 + length - padding.len()) =~= payload);
    assert(stream.subrange(4 + length - padding.len(), 4 + length) =~= padding);
}

/// Once a packet is settled, bytes that arrive later change nothing: only a
/// stream that is found truncated can still turn out otherwise.
pub proof fn lemma_packet_settled(stream: Seq<u8>, later: Seq<u8>, limit: u32)
    requires
        packet_in(stream, limit) != Err::<(PacketContent, int), ProtocolError>(
            ProtocolError::Truncated,
        ),
    ensures
        packet_in(stream + later, limit) == packet_in(stream, limit),
{
    let longer = stream + later;
    assert(longer.take(4) =~= stream.take(4));
    if packet_in(stream, limit) is Ok {
        let length = be_u32(stream.take(4));
        assert(longer[4] == stream[4]);
        assert(longer.subrange(5, 4 + length - stream[4]) =~= stream.subrange(
            5,
            4 + length - stream[4],
        ));
        assert(longer.subrange(4 + length - stream[4], 4 + length) =~= stream.subrange(
            4 + length - stream[4],
            4 + length,
        ));
    } else if packet_in(stream, limit) == Err::<(PacketContent, int), ProtocolError>(
        ProtocolError::Malformed,
    ) {
        let length = be_u32(stream.take(4));
        if length > 0 {
            assert(longer[4] == stream[4]);
        }
    }
}

/// A declared length above the ceiling is refused, however many bytes follow.
pub proof fn lemma_oversized_refused(stream: Seq<u8>, limit: u32)
    requires
        stream.len() >= 4,
        be_u32(stream.take(4)) > limit,
    ensures
        packet_in(stream, limit) == Err::<(PacketContent, int), ProtocolError>(
            ProtocolError::OversizedPacket,
        ),
{
}

} // verus!
