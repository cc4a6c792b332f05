//! The name-list: a length, then that many bytes of comma-separated names.

use vstd::prelude::*;
use vstd::slice::*;
use vstd::utf8::{
    decode_utf8, encode_utf8, encode_utf8_decode_utf8, encode_utf8_valid_utf8, valid_utf8,
};
use crate::error::ProtocolError;
use crate::packet::BinaryPacket;
use crate::split::{
    joined, lemma_index_of_first, lemma_split_joined, lemma_split_on_nonempty, lemma_split_utf8,
    split_on, COMMA,
};
use crate::text::names;
use crate::wire::{be_u32, lemma_be_u32_round_trip, read_u32, u32_be_bytes};

verus! {

/// The names in the body of a name-list: its text, split at every comma.
/// An empty body holds one name, the empty one.
pub open spec fn names_in(body: Seq<u8>) -> Seq<Seq<char>>
    recommends
        valid_utf8(body),
{
    split_on(decode_utf8(body), ',')
}

/// What decoding the name-list at `offset` of `payload` gives: the names and
/// the number of bytes that the field takes up, or the reason why there is
/// no name-list there.
pub open spec fn name_list_at(payload: Seq<u8>, offset: int) -> Result<
    (Seq<Seq<char>>, int),
    ProtocolError,
> {
    if payload.len() < offset + 4 {
        Err(ProtocolError::Truncated)
    } else {
        let length = be_u32(payload.subrange(offset, offset + 4));
        if payload.len() < offset + 4 + length {
            Err(ProtocolError::Truncated)
        } else {
            let body = payload.subrange(offset + 4, offset + 4 + length);
            if !valid_utf8(body) {
                Err(ProtocolError::Encoding)
            } else {
                Ok((names_in(body), 4 + length))
            }
        }
    }
}

/// A name-list that can be decoded lies inside the payload and takes up its
/// length field at least.
pub proof fn lemma_name_list_bounds(payload: Seq<u8>, offset: int)
    requires
        0 <= offset,
        name_list_at(payload, offset) is Ok,
    ensures
        4 <= name_list_at(payload, offset)->Ok_0.1,
        offset + name_list_at(payload, offset)->Ok_0.1 <= payload.len(),
        name_list_at(payload, offset)->Ok_0.0.len() >= 1,
{
}

/// The bytes of the name-list that holds `list`: the length of the body,
/// then the names with a comma between neighbours, in UTF-8.
pub open spec fn name_list_bytes(list: Seq<Seq<char>>) -> Seq<u8>
    recommends
        list.len() >= 1,
        encode_utf8(joined(list, ',')).len() <= u32::MAX,
{
    let body = encode_utf8(joined(list, ','));
    u32_be_bytes(body.len() as int) + body
}

/// A name-list that was written out is decoded to the names that went in,
/// and takes up exactly the bytes that were written, wherever in a payload
/// it stands. The names must hold no comma, and there is at least one.
pub proof fn lemma_name_list_round_trip(list: Seq<Seq<char>>, before: Seq<u8>, after: Seq<u8>)
    requires
        list.len() >= 1,
        forall|k: int, j: int| 0 <= k < list.len() && 0 <= j < list[k].len() ==> list[k][j] != ',',
        encode_utf8(joined(list, ',')).len() <= u32::MAX,
    ensures
        name_list_at(before + name_list_bytes(list) + after, before.len() as int) == Ok::<
            (Seq<Seq<char>>, int),
            ProtocolError,
        >((list, name_list_bytes(list).len() as int)),
{
    let text = joined(list, ',');
    let body = encode_utf8(text);
    let payload = before + name_list_bytes(list) + after;
    let offset = before.len() as int;
    lemma_be_u32_round_trip(body.len() as int);
    assert(payload.subrange(offset, offset + 4) =~= u32_be_bytes(body.len() as int));
    assert(payload.subrange(offset + 4, offset + 4 + body.len()) =~= body);
    encode_utf8_valid_utf8(text);
    encode_utf8_decode_utf8(text);
    lemma_split_joined(list, ',');
}

/// A name-list of length zero holds one name, the empty one.
pub proof fn lemma_empty_name_list(payload: Seq<u8>, offset: int)
    requires
        0 <= offset,
        offset + 4 <= payload.len(),
        be_u32(payload.subrange(offset, offset + 4)) == 0,
    ensures
        name_list_at(payload, offset) == Ok::<(Seq<Seq<char>>, int), ProtocolError>(
            (seq![Seq::<char>::empty()], 4),
        ),
{
    let body = payload.subrange(offset + 4, offset + 4);
    assert(body =~= Seq::<u8>::empty());
    assert(valid_utf8(body));
    assert(decode_utf8(body) =~= Seq::<char>::empty());
    assert(names_in(body) =~= seq![Seq::<char>::empty()]);
}

/// A name-list is decoded from its own bytes alone: cutting the payload
/// off behind the field changes nothing, and cutting it off inside the field
/// leaves a truncated one.
pub proof fn lemma_name_list_of_prefix(payload: Seq<u8>, offset: int, kept: int)
    requires
        0 <= offset <= kept <= payload.len(),
        name_list_at(payload, offset) is Ok,
    ensures
        kept >= offset + name_list_at(payload, offset)->Ok_0.1 ==> name_list_at(
            payload.take(kept),
            offset,
        ) == name_list_at(payload, offset),
        kept < offset + name_list_at(payload, offset)->Ok_0.1 ==> name_list_at(
            payload.take(kept),
            offset,
        ) == Err::<(Seq<Seq<char>>, int), ProtocolError>(ProtocolError::Truncated),
{
    let cut = payload.take(kept);
    if kept >= offset + 4 {
        assert(cut.subrange(offset, offset + 4) =~= payload.subrange(offset, offset + 4));
        let length = be_u32(payload.subrange(offset, offset + 4));
        if kept >= offset + 4 + length {
            assert(cut.subrange(offset + 4, offset + 4 + length) =~= payload.subrange(
                offset + 4,
                offset + 4 + length,
            ));
        }
    }
}

/// The names in `body`, or `Encoding` where `body` is not valid UTF-8.
pub fn split_names(body: &[u8]) -> (result: Result<Vec<String>, ProtocolError>)
    ensures
        result is Ok <==> valid_utf8(body@),
        result matches Ok(list) ==> names(list@) == names_in(body@),
        result matches Err(e) ==> e == ProtocolError::Encoding,
{
    let ghost pieces = split_on(body@, COMMA);
    let mut list: Vec<String> = Vec::new();
    let mut start: usize = 0;
    proof {
        assert(body@.skip(0) =~= body@);
    }
    loop
        invariant
            start <= body@.len(),
            pieces == split_on(body@, COMMA),
            list@.len() < pieces.len(),
            pieces =~= pieces.take(list@.len() as int) + split_on(body@.skip(start as int), COMMA),
            forall|k: int|
                0 <= k < list@.len() ==> valid_utf8(#[trigger] pieces[k]) && list@[k]@
                    == decode_utf8(pieces[k]),
        decreases body@.len() - start,
    {
        let mut end: usize = start;
        while end < body.len() && body[end] != COMMA
            invariant
                start <= end <= body@.len(),
                forall|j: int| start <= j < end ==> body@[j] != COMMA,
            decreases body@.len() - end,
        {
            end += 1;
        }
        let ghost rest = body@.skip(start as int);
        let ghost done = list@.len() as int;
        proof {
            assert forall|j: int| 0 <= j < end - start implies rest[j] != COMMA by {
                assert(rest[j] == body@[start + j]);
            }
            lemma_index_of_first(rest, COMMA, end - start);
            assert(rest.take(end - start) =~= body@.subrange(start as int, end as int));
            assert(pieces[done] == (pieces.take(done) + split_on(rest, COMMA))[done]);
            assert(pieces[done] == body@.subrange(start as int, end as int));
            lemma_split_utf8(body@);
        }
        match String::from_utf8(slice_to_vec(slice_subrange(body, start, end))) {
            Ok(name) => {
                list.push(name);
            },
            Err(_) => {
                return Err(ProtocolError::Encoding);
            },
        }
        if end == body.len() {
            proof {
                assert(list@.len() == pieces.len());
                assert(names(list@) =~= pieces.map_values(|piece: Seq<u8>| decode_utf8(piece)));
            }
            return Ok(list);
        }
        proof {
            let later = split_on(body@.skip(end + 1), COMMA);
            assert(rest.skip(end - start + 1) =~= body@.skip(end + 1));
            assert(split_on(rest, COMMA) =~= seq![pieces[done]] + later);
            lemma_split_on_nonempty(body@.skip(end + 1), COMMA);
            assert(pieces.take(done + 1) =~= pieces.take(done) + seq![pieces[done]]);
            assert(pieces =~= pieces.take(done + 1) + later);
        }
        start = end + 1;
    }
}

/// Decodes the name-list that starts at `offset` of the packet's payload.
///
/// Returns the names in the order of the wire, and the number of bytes that
/// the field takes up, so that the caller can step over it.
pub fn parse_name_list(pkt: &BinaryPacket, offset: usize) -> (result: Result<
    (Vec<String>, usize),
    ProtocolError,
>)
    ensures
        match name_list_at(pkt.payload@, offset as int) {
            Ok((expected, length)) => result matches Ok((list, used)) && names(list@) == expected
                && used == length,
            Err(e) => result == Err::<(Vec<String>, usize), ProtocolError>(e),
        },
{
    let payload = pkt.payload.as_slice();
    let length = match read_u32(payload, offset) {
        Some(length) => length as usize,
        None => {
            return Err(ProtocolError::Truncated);
        },
    };
    if length > payload.len() - offset - 4 {
        return Err(ProtocolError::Truncated);
    }
    let list = split_names(slice_subrange(payload, offset + 4, offset + 4 + length))?;
    Ok((list, 4 + length))
}

} // verus!
