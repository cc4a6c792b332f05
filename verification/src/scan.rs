//! One scan from the first byte to the report: the banners, the packets up
//! to the peer's `SSH_MSG_KEXINIT`, and the findings.

use vstd::prelude::*;
use vstd::string::*;
use crate::banner::{
    banner_in, exchange_banners, lemma_banner_bounds, lemma_banner_settled, LOCAL_BANNER,
};
use crate::connection::Connection;
use crate::error::ProtocolError;
use crate::kex_init::{kex_init_of, parse_kex_init, KexInitContent, SshMsgKexInit, SSH_MSG_KEXINIT};
use crate::packet::{lemma_packet_consistent, lemma_packet_settled, packet_in, read_single_packet};
use crate::report::{assessment, Report, ReportContent, ScanMode};

verus! {

/// Whether a payload announces itself as `SSH_MSG_KEXINIT`.
pub open spec fn is_kex_init(payload: Seq<u8>) -> bool {
    payload.len() > 0 && payload[0] == SSH_MSG_KEXINIT
}

/// What reading packets from `stream` up to the first `SSH_MSG_KEXINIT`
/// gives, and how many bytes are read on the way.
///
/// Packets that carry another message are read and dropped. The packet that
/// carries the `SSH_MSG_KEXINIT` is read whether or not its payload can be
/// decoded; a packet that cannot be framed is not read.
pub open spec fn kex_init_in(stream: Seq<u8>, limit: u32) -> (Result<KexInitContent, ProtocolError>, int)
    decreases stream.len(),
{
    match packet_in(stream, limit) {
        Err(e) => (Err(e), 0),
        Ok((packet, used)) => if is_kex_init(packet.payload) {
            (kex_init_of(packet.payload), used)
        } else {
            let (outcome, more) = kex_init_in(stream.skip(used), limit);
            (outcome, used + more)
        },
    }
}

/// What a scan of a peer that has sent `stream` gives, and how many bytes
/// of `stream` are read for it.
pub open spec fn scan_of(
    address: Seq<char>,
    scan_mode: ScanMode,
    stream: Seq<u8>,
    limit: u32,
) -> (Result<ReportContent, ProtocolError>, int) {
    match banner_in(stream) {
        Err(e) => (Err(e), 0),
        Ok((banner, used)) => {
            let (outcome, more) = kex_init_in(stream.skip(used), limit);
            (
                match outcome {
                    Ok(kex_init) => Ok(assessment(address, scan_mode, banner, kex_init)),
                    Err(e) => Err(e),
                },
                used + more,
            )
        },
    }
}

/// Reads packets until one carries `SSH_MSG_KEXINIT`, and decodes that one.
pub fn receive_remote_kex_init(conn: &mut Connection) -> (result: Result<
    SshMsgKexInit,
    ProtocolError,
>)
    ensures
        final(conn).sent() == old(conn).sent(),
        final(conn).max_packet_length() == old(conn).max_packet_length(),
        final(conn).unread() == old(conn).unread().skip(
            kex_init_in(old(conn).unread(), old(conn).max_packet_length()).1,
        ),
        match kex_init_in(old(conn).unread(), old(conn).max_packet_length()).0 {
            Ok(content) => result matches Ok(kex_init) && kex_init@ == content,
            Err(e) => result == Err::<SshMsgKexInit, ProtocolError>(e),
        },
{
    let ghost stream = conn.unread();
    let ghost limit = conn.max_packet_length();
    let ghost mut read: int = 0;
    proof {
        assert(stream.skip(0) =~= stream);
    }
    loop
        invariant
            0 <= read <= stream.len(),
            stream == old(conn).unread(),
            limit == old(conn).max_packet_length(),
            conn.unread() == stream.skip(read),
            conn.sent() == old(conn).sent(),
            conn.max_packet_length() == limit,
            kex_init_in(stream, limit) == (
                kex_init_in(conn.unread(), limit).0,
                read + kex_init_in(conn.unread(), limit).1,
            ),
        decreases stream.len() - read,
    {
        let ghost here = conn.unread();
        match read_single_packet(conn) {
            Err(e) => {
                proof {
                    assert(stream.skip(read + 0) =~= stream.skip(read));
                }
                return Err(e);
            },
            Ok(pkt) => {
                let ghost used = packet_in(here, limit)->Ok_0.1;
                proof {
                    lemma_packet_consistent(here, limit);
                    assert(stream.skip(read).skip(used) =~= stream.skip(read + used));
                }
                if pkt.payload.len() > 0 && pkt.payload[0] == SSH_MSG_KEXINIT {
                    return parse_kex_init(&pkt);
                }
                proof {
                    read = read + used;
                }
            },
        }
    }
}

/// Scans the peer at the other end of `conn`: exchanges banners, reads up
/// to the peer's `SSH_MSG_KEXINIT` and derives the findings from it.
pub fn scan(address: &str, scan_mode: ScanMode, conn: &mut Connection) -> (result: Result<
    Report,
    ProtocolError,
>)
    ensures
        final(conn).sent() == old(conn).sent() + LOCAL_BANNER.spec_bytes(),
        final(conn).max_packet_length() == old(conn).max_packet_length(),
        final(conn).unread() == old(conn).unread().skip(
            scan_of(address@, scan_mode, old(conn).unread(), old(conn).max_packet_length()).1,
        ),
        match scan_of(address@, scan_mode, old(conn).unread(), old(conn).max_packet_length()).0 {
            Ok(content) => result matches Ok(report) && report@ == content,
            Err(e) => result == Err::<Report, ProtocolError>(e),
        },
{
    let ghost stream = conn.unread();
    let remote_banner = match exchange_banners(conn) {
        Ok(banner) => banner,
        Err(e) => {
            proof {
                assert(stream.skip(0) =~= stream);
            }
            return Err(e);
        },
    };
    let ghost used = banner_in(stream)->Ok_0.1;
    let ghost more = kex_init_in(stream.skip(used), conn.max_packet_length()).1;
    let outcome = receive_remote_kex_init(conn);
    proof {
        lemma_banner_bounds(stream);
        lemma_kex_init_bounds(stream.skip(used), conn.max_packet_length());
        assert(stream.skip(used).skip(more) =~= stream.skip(used + more));
    }
    let remote_kex_init = outcome?;
    Ok(Report::evaluate(address, scan_mode, remote_banner, &remote_kex_init))
}

/// Reading up to the `SSH_MSG_KEXINIT` never reads past the end.
pub proof fn lemma_kex_init_bounds(stream: Seq<u8>, limit: u32)
    ensures
        0 <= kex_init_in(stream, limit).1 <= stream.len(),
    decreases stream.len(),
{
    if packet_in(stream, limit) is Ok {
        lemma_packet_consistent(stream, limit);
        let (packet, used) = packet_in(stream, limit)->Ok_0;
        if !is_kex_init(packet.payload) {
            lemma_kex_init_bounds(stream.skip(used), limit);
        }
    }
}

/// Once the search for the `SSH_MSG_KEXINIT` is settled, bytes that arrive
/// later change nothing: only a search that ends as truncated can still turn
/// out otherwise.
pub proof fn lemma_kex_init_settled(stream: Seq<u8>, later: Seq<u8>, limit: u32)
    requires
        kex_init_in(stream, limit).0 != Err::<KexInitContent, ProtocolError>(
            ProtocolError::Truncated,
        ),
    ensures
        kex_init_in(stream + later, limit) == kex_init_in(stream, limit),
    decreases stream.len(),
{
    lemma_packet_settled(stream, later, limit);
    if packet_in(stream, limit) is Ok {
        lemma_packet_consistent(stream, limit);
        let (packet, used) = packet_in(stream, limit)->Ok_0;
        if !is_kex_init(packet.payload) {
            assert((stream + later).skip(used) =~= stream.skip(used) + later);
            lemma_kex_init_settled(stream.skip(used), later, limit);
        }
    }
}

/// Once a scan is settled, bytes that arrive later change nothing. A scan can
/// therefore be tried on what has arrived so far, and tried again with more
/// only where it ends as truncated.
pub proof fn lemma_scan_settled(
    address: Seq<char>,
    scan_mode: ScanMode,
    stream: Seq<u8>,
    later: Seq<u8>,
    limit: u32,
)
    requires
        scan_of(address, scan_mode, stream, limit).0 != Err::<ReportContent, ProtocolError>(
            ProtocolError::Truncated,
        ),
    ensures
        scan_of(address, scan_mode, stream + later, limit) == scan_of(
            address,
            scan_mode,
            stream,
            limit,
        ),
{
    lemma_banner_settled(stream, later);
    if banner_in(stream) is Ok {
        lemma_banner_bounds(stream);
        let used = banner_in(stream)->Ok_0.1;
        assert((stream + later).skip(used) =~= stream.skip(used) + later);
        lemma_kex_init_settled(stream.skip(used), later, limit);
    }
}

} // verus!
