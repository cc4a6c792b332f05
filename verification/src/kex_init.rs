//! The `SSH_MSG_KEXINIT` message: the algorithms a side is willing to use.

use vstd::prelude::*;
use vstd::slice::*;
use crate::error::ProtocolError;
use crate::name_list::{
    lemma_name_list_bounds, lemma_name_list_of_prefix, name_list_at, parse_name_list,
};
use crate::packet::BinaryPacket;
use crate::text::names;
use crate::wire::{be_u32, read_u32};

verus! {

/// The message number of `SSH_MSG_KEXINIT`.
pub const SSH_MSG_KEXINIT: u8 = 20;

/// The length of the random cookie that follows the message number.
pub const COOKIE_LENGTH: usize = 16;

/// How many name-lists the message carries.
pub const NAME_LIST_COUNT: usize = 10;

/// A decoded `SSH_MSG_KEXINIT`. Each list keeps the order of the wire, in
/// which earlier names are preferred.
#[derive(Clone, Debug, PartialEq, Eq)]
pub struct SshMsgKexInit {
    pub msg_type: u8,
    pub cookie: Vec<u8>,
    pub kex_algorithms: Vec<String>,
    pub server_host_key_algorithms: Vec<String>,
    pub encryption_algorithms_client_to_server: Vec<String>,
    pub encryption_algorithms_server_to_client: Vec<String>,
    pub mac_algorithms_client_to_server: Vec<String>,
    pub mac_algorithms_server_to_client: Vec<String>,
    pub compression_algorithms_client_to_server: Vec<String>,
    pub compression_algorithms_server_to_client: Vec<String>,
    pub languages_client_to_server: Vec<String>,
    pub languages_server_to_client: Vec<String>,
    pub first_kex_packet_follows: bool,
    pub flags: u32,
}

/// The content of a `SSH_MSG_KEXINIT` as mathematical values: the ten
/// name-lists in the order of the wire, each a sequence of names.
pub struct KexInitContent {
    pub msg_type: u8,
    pub cookie: Seq<u8>,
    pub name_lists: Seq<Seq<Seq<char>>>,
    pub first_kex_packet_follows: bool,
    pub flags: u32,
}

impl KexInitContent {
    pub open spec fn kex_algorithms(self) -> Seq<Seq<char>> {
        self.name_lists[0]
    }

    pub open spec fn encryption_algorithms_client_to_server(self) -> Seq<Seq<char>> {
        self.name_lists[2]
    }

    pub open spec fn encryption_algorithms_server_to_client(self) -> Seq<Seq<char>> {
        self.name_lists[3]
    }

    pub open spec fn mac_algorithms_client_to_server(self) -> Seq<Seq<char>> {
        self.name_lists[4]
    }

    pub open spec fn mac_algorithms_server_to_client(self) -> Seq<Seq<char>> {
        self.name_lists[5]
    }
}

impl View for SshMsgKexInit {
    type V = KexInitContent;

    open spec fn view(&self) -> KexInitContent {
        KexInitContent {
            msg_type: self.msg_type,
            cookie: self.cookie@,
            name_lists: seq![
                names(self.kex_algorithms@),
                names(self.server_host_key_algorithms@),
                names(self.encryption_algorithms_client_to_server@),
                names(self.encryption_algorithms_server_to_client@),
                names(self.mac_algorithms_client_to_server@),
                names(self.mac_algorithms_server_to_client@),
                names(self.compression_algorithms_client_to_server@),
                names(self.compression_algorithms_server_to_client@),
                names(self.languages_client_to_server@),
                names(self.languages_server_to_client@),
            ],
            first_kex_packet_follows: self.first_kex_packet_follows,
            flags: self.flags,
        }
    }
}

/// The first `count` name-lists that follow one another from `start` of
/// `payload`, and the offset behind the last of them; or the reason why the
/// first of them that cannot be decoded cannot.
pub open spec fn name_lists_at(payload: Seq<u8>, start: int, count: nat) -> Result<
    (Seq<Seq<Seq<char>>>, int),
    ProtocolError,
>
    decreases count,
{
    if count == 0 {
        Ok((Seq::empty(), start))
    } else {
        match name_lists_at(payload, start, (count - 1) as nat) {
            Err(e) => Err(e),
            Ok((lists, offset)) => match name_list_at(payload, offset) {
                Err(e) => Err(e),
                Ok((list, used)) => Ok((lists.push(list), offset + used)),
            },
        }
    }
}

/// What decoding `payload` as `SSH_MSG_KEXINIT` gives. The fields follow one
/// another without gaps and fill the payload: the message number, the
/// cookie, ten name-lists, one byte that is a flag, four reserved bytes.
pub open spec fn kex_init_of(payload: Seq<u8>) -> Result<KexInitContent, ProtocolError> {
    if payload.len() < 1 {
        Err(ProtocolError::Truncated)
    } else if payload[0] != SSH_MSG_KEXINIT {
        Err(ProtocolError::UnexpectedMessageType)
    } else if payload.len() < 1 + COOKIE_LENGTH {
        Err(ProtocolError::Truncated)
    } else {
        match name_lists_at(payload, 1 + COOKIE_LENGTH, NAME_LIST_COUNT as nat) {
            Err(e) => Err(e),
            Ok((name_lists, offset)) => if payload.len() < offset + 5 {
                Err(ProtocolError::Truncated)
            } else if payload.len() > offset + 5 {
                Err(ProtocolError::Malformed)
            } else {
                Ok(
                    KexInitContent {
                        msg_type: payload[0],
                        cookie: payload.subrange(1, 1 + COOKIE_LENGTH),
                        name_lists,
                        first_kex_packet_follows: payload[offset] != 0,
                        flags: be_u32(payload.subrange(offset + 1, offset + 5)) as u32,
                    },
                )
            },
        }
    }
}

/// Once one name-list of a run cannot be decoded, a longer run fails in the
/// same way.
pub proof fn lemma_name_lists_error_stays(payload: Seq<u8>, start: int, count: nat, more: nat)
    requires
        name_lists_at(payload, start, count) is Err,
        count <= more,
    ensures
        name_lists_at(payload, start, more) == name_lists_at(payload, start, count),
    decreases more,
{
    if count < more {
        lemma_name_lists_error_stays(payload, start, count, (more - 1) as nat);
    }
}

/// A run of name-lists that can be decoded lies inside the payload, and
/// holds as many lists as were asked for.
pub proof fn lemma_name_lists_bounds(payload: Seq<u8>, start: int, count: nat)
    requires
        0 <= start <= payload.len(),
        name_lists_at(payload, start, count) is Ok,
    ensures
        name_lists_at(payload, start, count)->Ok_0.0.len() == count,
        start + 4 * count <= name_lists_at(payload, start, count)->Ok_0.1 <= payload.len(),
        forall|fewer: nat| fewer <= count ==> #[trigger] name_lists_at(payload, start, fewer) is Ok,
    decreases count,
{
    if count > 0 {
        lemma_name_lists_bounds(payload, start, (count - 1) as nat);
    }
}

/// A run of name-lists is decoded from its own bytes alone: cutting the
/// payload off behind the run changes nothing, and cutting it off inside the
/// run leaves a truncated one.
pub proof fn lemma_name_lists_of_prefix(payload: Seq<u8>, start: int, count: nat, kept: int)
    requires
        0 <= start <= kept <= payload.len(),
        name_lists_at(payload, start, count) is Ok,
    ensures
        kept >= name_lists_at(payload, start, count)->Ok_0.1 ==> name_lists_at(
            payload.take(kept),
            start,
            count,
        ) == name_lists_at(payload, start, count),
        kept < name_lists_at(payload, start, count)->Ok_0.1 ==> name_lists_at(
            payload.take(kept),
            start,
            count,
        ) == Err::<(Seq<Seq<Seq<char>>>, int), ProtocolError>(ProtocolError::Truncated),
    decreases count,
{
    if count > 0 {
        let fewer = (count - 1) as nat;
        lemma_name_lists_bounds(payload, start, fewer);
        lemma_name_lists_of_prefix(payload, start, fewer, kept);
        let offset = name_lists_at(payload, start, fewer)->Ok_0.1;
        if kept >= offset {
            lemma_name_list_of_prefix(payload, offset, kept);
        }
    }
}

/// A payload that is decoded is filled by its fields: the message number is
/// that of `SSH_MSG_KEXINIT`, the cookie has its sixteen bytes, and the ten
/// name-lists end five bytes before the end of the payload.
pub proof fn lemma_kex_init_fills_payload(payload: Seq<u8>)
    requires
        kex_init_of(payload) is Ok,
    ensures
        kex_init_of(payload)->Ok_0.msg_type == SSH_MSG_KEXINIT,
        kex_init_of(payload)->Ok_0.cookie.len() == COOKIE_LENGTH,
        kex_init_of(payload)->Ok_0.name_lists.len() == NAME_LIST_COUNT,
        name_lists_at(payload, 1 + COOKIE_LENGTH, NAME_LIST_COUNT as nat) == Ok::<
            (Seq<Seq<Seq<char>>>, int),
            ProtocolError,
        >((kex_init_of(payload)->Ok_0.name_lists, payload.len() - 5)),
{
    lemma_name_lists_bounds(payload, 1 + COOKIE_LENGTH, NAME_LIST_COUNT as nat);
}

/// What is left of a well-formed payload after any cut is truncated: no
/// proper prefix of it is decoded, and none fails in another way.
pub proof fn lemma_kex_init_prefix_truncated(payload: Seq<u8>, kept: int)
    requires
        kex_init_of(payload) is Ok,
        0 <= kept < payload.len(),
    ensures
        kex_init_of(payload.take(kept)) == Err::<KexInitContent, ProtocolError>(
            ProtocolError::Truncated,
        ),
{
    let start = 1 + COOKIE_LENGTH as int;
    if kept >= start {
        lemma_name_lists_bounds(payload, start, NAME_LIST_COUNT as nat);
        lemma_name_lists_of_prefix(payload, start, NAME_LIST_COUNT as nat, kept);
    }
}

/// Decodes the payload of a packet as `SSH_MSG_KEXINIT`.
pub fn parse_kex_init(pkt: &BinaryPacket) -> (result: Result<SshMsgKexInit, ProtocolError>)
    ensures
        match kex_init_of(pkt.payload@) {
            Ok(content) => result matches Ok(kex_init) && kex_init@ == content,
            Err(e) => result == Err::<SshMsgKexInit, ProtocolError>(e),
        },
{
    let payload = pkt.payload.as_slice();
    if payload.len() < 1 {
        return Err(ProtocolError::Truncated);
    }
    let msg_type = payload[0];
    if msg_type != SSH_MSG_KEXINIT {
        return Err(ProtocolError::UnexpectedMessageType);
    }
    if payload.len() < 1 + COOKIE_LENGTH {
        return Err(ProtocolError::Truncated);
    }
    let cookie = slice_to_vec(slice_subrange(payload, 1, 1 + COOKIE_LENGTH));
    let ghost start = 1 + COOKIE_LENGTH as int;
    let mut offset: usize = 1 + COOKIE_LENGTH;
    let mut lists: Vec<Vec<String>> = Vec::new();
    assert(lists@.map_values(|list: Vec<String>| names(list@)) =~= Seq::empty());
    while lists.len() < NAME_LIST_COUNT
        invariant
            payload@ == pkt.payload@,
            1 + COOKIE_LENGTH <= payload@.len() <= usize::MAX,
            payload@[0] == SSH_MSG_KEXINIT,
            start == 1 + COOKIE_LENGTH,
            lists@.len() <= NAME_LIST_COUNT,
            offset <= payload@.len(),
            name_lists_at(payload@, start, lists@.len() as nat) == Ok::<
                (Seq<Seq<Seq<char>>>, int),
                ProtocolError,
            >((lists@.map_values(|list: Vec<String>| names(list@)), offset as int)),
        decreases NAME_LIST_COUNT - lists@.len(),
    {
        let ghost done = lists@.len() as nat;
        let ghost next = name_list_at(payload@, offset as int);
        assert(name_lists_at(payload@, start, done + 1) == match next {
            Err(e) => Err(e),
            Ok((list, used)) => Ok(
                (
                    lists@.map_values(|list: Vec<String>| names(list@)).push(list),
                    offset + used,
                ),
            ),
        });
        match parse_name_list(pkt, offset) {
            Ok((list, used)) => {
                proof {
                    lemma_name_list_bounds(payload@, offset as int);
                    assert(lists@.push(list).map_values(|list: Vec<String>| names(list@))
                        =~= lists@.map_values(|list: Vec<String>| names(list@)).push(
                        names(list@),
                    ));
                }
                lists.push(list);
                offset = offset + used;
            },
            Err(e) => {
                proof {
                    lemma_name_lists_error_stays(
                        payload@,
                        start,
                        done + 1,
                        NAME_LIST_COUNT as nat,
                    );
                }
                return Err(e);
            },
        }
    }
    if payload.len() - offset < 5 {
        return Err(ProtocolError::Truncated);
    }
    if payload.len() - offset > 5 {
        return Err(ProtocolError::Malformed);
    }
    let first_kex_packet_follows = payload[offset] != 0;
    let flags = match read_u32(payload, offset + 1) {
        Some(flags) => flags,
        None => {
            return Err(ProtocolError::Truncated);
        },
    };
    let ghost views = lists@.map_values(|list: Vec<String>| names(list@));
    let languages_server_to_client = take_last(&mut lists);
    let languages_client_to_server = take_last(&mut lists);
    let compression_algorithms_server_to_client = take_last(&mut lists);
    let compression_algorithms_client_to_server = take_last(&mut lists);
    let mac_algorithms_server_to_client = take_last(&mut lists);
    let mac_algorithms_client_to_server = take_last(&mut lists);
    let encryption_algorithms_server_to_client = take_last(&mut lists);
    let encryption_algorithms_client_to_server = take_last(&mut lists);
    let server_host_key_algorithms = take_last(&mut lists);
    let kex_algorithms = take_last(&mut lists);
    let kex_init = SshMsgKexInit {
        msg_type,
        cookie,
        kex_algorithms,
        server_host_key_algorithms,
        encryption_algorithms_client_to_server,
        encryption_algorithms_server_to_client,
        mac_algorithms_client_to_server,
        mac_algorithms_server_to_client,
        compression_algorithms_client_to_server,
        compression_algorithms_server_to_client,
        languages_client_to_server,
        languages_server_to_client,
        first_kex_packet_follows,
        flags,
    };
    assert(kex_init@.name_lists =~= views);
    Ok(kex_init)
}

/// Takes the last list off `lists`.
fn take_last(lists: &mut Vec<Vec<String>>) -> (list: Vec<String>)
    requires
        old(lists)@.len() > 0,
    ensures
        list == old(lists)@.last(),
        final(lists)@ == old(lists)@.drop_last(),
{
    match lists.pop() {
        Some(list) => list,
        None => Vec::new(),
    }
}

} // verus!
