//! The exchange of identification lines that opens every SSH connection.

use vstd::prelude::*;
use vstd::slice::*;
use vstd::string::*;
use vstd::utf8::{decode_utf8, valid_utf8};
use crate::connection::Connection;
use crate::error::ProtocolError;
use crate::split::{index_of_first, lemma_index_of_first, lemma_index_of_first_bounds};
use crate::text::{has_prefix, trim_end, trimmed};

verus! {

/// The line by which the scanner identifies itself.
pub const LOCAL_BANNER: &'static str = "SSH-2.0-TerrapinVulnerabilityScanner\r\n";

/// How the identification line of a peer that speaks version 2 begins.
pub const VERSION_2_PREFIX: &'static str = "SSH-2.0";

/// How the identification line of a version 2 peer that also speaks
/// version 1 begins.
pub const VERSION_1_99_PREFIX: &'static str = "SSH-1.99";

/// The byte that ends a line.
pub const LINE_FEED: u8 = 0x0a;

/// Whether `line` is an identification line: only its beginning is looked at.
pub open spec fn is_identification(line: Seq<char>) -> bool {
    VERSION_1_99_PREFIX@.is_prefix_of(line) || VERSION_2_PREFIX@.is_prefix_of(line)
}

/// The peer's banner in `stream` and the number of bytes up to the end of
/// its line, or the reason why there is none.
///
/// A line ends with its line feed; what follows the last line feed is not a
/// line yet. The banner is the first line that is an identification line,
/// without the white space at its end. Lines before it are passed over, but
/// each of them has to be valid UTF-8.
pub open spec fn banner_in(stream: Seq<u8>) -> Result<(Seq<char>, int), ProtocolError>
    decreases stream.len(),
{
    let end = index_of_first(stream, LINE_FEED);
    if 0 <= end < stream.len() {
        let line = stream.take(end + 1);
        if !valid_utf8(line) {
            Err(ProtocolError::Encoding)
        } else if is_identification(decode_utf8(line)) {
            Ok((trimmed(decode_utf8(line)), end + 1))
        } else {
            behind(end + 1, banner_in(stream.skip(end + 1)))
        }
    } else {
        Err(ProtocolError::Truncated)
    }
}

/// A result found after `skipped` bytes, counted from before them.
pub open spec fn behind<T>(skipped: int, found: Result<(T, int), ProtocolError>) -> Result<
    (T, int),
    ProtocolError,
> {
    match found {
        Ok((value, used)) => Ok((value, skipped + used)),
        Err(e) => Err(e),
    }
}

/// A banner that is found ends inside the stream.
pub proof fn lemma_banner_bounds(stream: Seq<u8>)
    requires
        banner_in(stream) is Ok,
    ensures
        0 < banner_in(stream)->Ok_0.1 <= stream.len(),
    decreases stream.len(),
{
    let end = index_of_first(stream, LINE_FEED);
    lemma_index_of_first_bounds(stream, LINE_FEED);
    let line = stream.take(end + 1);
    if !is_identification(decode_utf8(line)) {
        lemma_banner_bounds(stream.skip(end + 1));
    }
}

/// Whether `line` is one line: it ends with a line feed and holds no other.
pub open spec fn is_line(line: Seq<u8>) -> bool {
    &&& line.len() >= 1
    &&& line.last() == LINE_FEED
    &&& forall|j: int| 0 <= j < line.len() - 1 ==> line[j] != LINE_FEED
}

/// A line of text that is no identification line is passed over: the banner
/// is the one that is found in what follows.
pub proof fn lemma_line_passed_over(line: Seq<u8>, following: Seq<u8>)
    requires
        is_line(line),
        valid_utf8(line),
        !is_identification(decode_utf8(line)),
    ensures
        banner_in(line + following) == behind(line.len() as int, banner_in(following)),
{
    let stream = line + following;
    assert forall|j: int| 0 <= j < line.len() - 1 implies stream[j] != LINE_FEED by {
        assert(stream[j] == line[j]);
    }
    assert(stream[line.len() - 1] == line.last());
    lemma_index_of_first(stream, LINE_FEED, line.len() - 1);
    assert(stream.take(line.len() as int) =~= line);
    assert(stream.skip(line.len() as int) =~= following);
}

/// The first identification line is the banner, whatever follows it: the
/// line without the white space at its end.
pub proof fn lemma_identification_line_found(line: Seq<u8>, following: Seq<u8>)
    requires
        is_line(line),
        valid_utf8(line),
        is_identification(decode_utf8(line)),
    ensures
        banner_in(line + following) == Ok::<(Seq<char>, int), ProtocolError>(
            (trimmed(decode_utf8(line)), line.len() as int),
        ),
{
    let stream = line + following;
    assert forall|j: int| 0 <= j < line.len() - 1 implies stream[j] != LINE_FEED by {
        assert(stream[j] == line[j]);
    }
    assert(stream[line.len() - 1] == line.last());
    lemma_index_of_first(stream, LINE_FEED, line.len() - 1);
    assert(stream.take(line.len() as int) =~= line);
}

/// Once the banner is settled, bytes that arrive later change nothing: only
/// a stream that is found truncated can still turn out otherwise.
pub proof fn lemma_banner_settled(stream: Seq<u8>, later: Seq<u8>)
    requires
        banner_in(stream) != Err::<(Seq<char>, int), ProtocolError>(ProtocolError::Truncated),
    ensures
        banner_in(stream + later) == banner_in(stream),
    decreases stream.len(),
{
    let longer = stream + later;
    let end = index_of_first(stream, LINE_FEED);
    lemma_index_of_first_bounds(stream, LINE_FEED);
    assert forall|j: int| 0 <= j < end implies longer[j] != LINE_FEED by {
        assert(longer[j] == stream[j]);
    }
    assert(longer[end] == stream[end]);
    lemma_index_of_first(longer, LINE_FEED, end);
    assert(longer.take(end + 1) =~= stream.take(end + 1));
    assert(longer.skip(end + 1) =~= stream.skip(end + 1) + later);
    let line = stream.take(end + 1);
    if valid_utf8(line) && !is_identification(decode_utf8(line)) {
        lemma_banner_settled(stream.skip(end + 1), later);
    }
}

/// Sends the scanner's identification line, then reads lines until one is
/// the peer's identification line, and returns that line without the white
/// space at its end.
///
/// On success the banner's line and the lines before it have been read. On
/// failure nothing has been read. The scanner's line is written either way.
pub fn exchange_banners(conn: &mut Connection) -> (result: Result<String, ProtocolError>)
    ensures
        final(conn).sent() == old(conn).sent() + LOCAL_BANNER.spec_bytes(),
        final(conn).max_packet_length() == old(conn).max_packet_length(),
        match banner_in(old(conn).unread()) {
            Ok((banner, used)) => {
                &&& result matches Ok(line) && line@ == banner
                &&& final(conn).unread() == old(conn).unread().skip(used)
            },
            Err(e) => {
                &&& result == Err::<String, ProtocolError>(e)
                &&& final(conn).unread() == old(conn).unread()
            },
        },
{
    conn.send(LOCAL_BANNER.as_bytes());
    let stream = conn.remaining();
    let total = stream.len();
    let mut start: usize = 0;
    proof {
        assert(stream@.skip(0) =~= stream@);
    }
    loop
        invariant
            start <= total == stream@.len(),
            banner_in(stream@) == behind(start as int, banner_in(stream@.skip(start as int))),
            stream@ == old(conn).unread(),
            stream@ == conn.unread(),
            conn.sent() == old(conn).sent() + LOCAL_BANNER.spec_bytes(),
            conn.max_packet_length() == old(conn).max_packet_length(),
        decreases stream@.len() - start,
    {
        let mut end: usize = start;
        while end < total && stream[end] != LINE_FEED
            invariant
                start <= end <= total == stream@.len(),
                forall|j: int| start <= j < end ==> stream@[j] != LINE_FEED,
            decreases stream@.len() - end,
        {
            end += 1;
        }
        let ghost rest = stream@.skip(start as int);
        proof {
            assert forall|j: int| 0 <= j < end - start implies rest[j] != LINE_FEED by {
                assert(rest[j] == stream@[start + j]);
            }
            lemma_index_of_first(rest, LINE_FEED, end - start);
        }
        if end == total {
            return Err(ProtocolError::Truncated);
        }
        proof {
            assert(rest.take(end - start + 1) =~= stream@.subrange(start as int, end + 1));
            assert(rest.skip(end - start + 1) =~= stream@.skip(end + 1));
        }
        let line = match String::from_utf8(slice_to_vec(slice_subrange(stream, start, end + 1))) {
            Ok(line) => line,
            Err(_) => {
                return Err(ProtocolError::Encoding);
            },
        };
        if has_prefix(line.as_str(), VERSION_1_99_PREFIX) || has_prefix(
            line.as_str(),
            VERSION_2_PREFIX,
        ) {
            let banner = trim_end(line.as_str());
            conn.advance(end + 1);
            return Ok(banner);
        }
        start = end + 1;
    }
}

} // verus!
