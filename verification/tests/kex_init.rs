use terrapin::error::ProtocolError;
use terrapin::kex_init::{parse_kex_init, SshMsgKexInit, COOKIE_LENGTH, SSH_MSG_KEXINIT};
use terrapin::packet::BinaryPacket;

fn packet(payload: Vec<u8>) -> BinaryPacket {
    BinaryPacket {
        packet_length: payload.len() as u32 + 1,
        padding_length: 0,
        payload,
        padding: Vec::new(),
        mac: Vec::new(),
    }
}

fn payload_of(lists: &[&str; 10], follows: u8, flags: u32) -> Vec<u8> {
    let mut bytes = vec![20];
    bytes.extend_from_slice(&[
        0, 1, 2, 3, 4, 5, 6, 7, 8, 9, 10, 11, 12, 13, 14, 15,
    ]);
    for list in lists {
        bytes.extend_from_slice(&(list.len() as u32).to_be_bytes());
        bytes.extend_from_slice(list.as_bytes());
    }
    bytes.push(follows);
    bytes.extend_from_slice(&flags.to_be_bytes());
    bytes
}

fn strings(names: &[&str]) -> Vec<String> {
    names.iter().map(|name| name.to_string()).collect()
}

const LISTS: [&str; 10] = [
    "curve25519-sha256,kex-strict-s-v00@openssh.com",
    "ssh-ed25519,rsa-sha2-512",
    "chacha20-poly1305@openssh.com,aes128-ctr",
    "aes256-gcm@openssh.com",
    "hmac-sha2-256-etm@openssh.com",
    "hmac-sha2-256",
    "none,zlib@openssh.com",
    "none",
    "",
    "en,de",
];

#[test]
fn kex_init_is_decoded_field_by_field() {
    assert_eq!(SSH_MSG_KEXINIT, 20);
    assert_eq!(COOKIE_LENGTH, 16);
    let kex_init = parse_kex_init(&packet(payload_of(&LISTS, 1, 0x0102_0304))).unwrap();
    let expected = SshMsgKexInit {
        msg_type: 20,
        cookie: (0..16).collect(),
        kex_algorithms: strings(&["curve25519-sha256", "kex-strict-s-v00@openssh.com"]),
        server_host_key_algorithms: strings(&["ssh-ed25519", "rsa-sha2-512"]),
        encryption_algorithms_client_to_server: strings(&[
            "chacha20-poly1305@openssh.com",
            "aes128-ctr",
        ]),
        encryption_algorithms_server_to_client: strings(&["aes256-gcm@openssh.com"]),
        mac_algorithms_client_to_server: strings(&["hmac-sha2-256-etm@openssh.com"]),
        mac_algorithms_server_to_client: strings(&["hmac-sha2-256"]),
        compression_algorithms_client_to_server: strings(&["none", "zlib@openssh.com"]),
        compression_algorithms_server_to_client: strings(&["none"]),
        languages_client_to_server: strings(&[""]),
        languages_server_to_client: strings(&["en", "de"]),
        first_kex_packet_follows: true,
        flags: 0x0102_0304,
    };
    assert_eq!(kex_init, expected);
}

#[test]
fn kex_init_flag_is_true_for_any_nonzero_byte() {
    for (byte, expected) in [(0u8, false), (1, true), (2, true), (0xff, true)] {
        let kex_init = parse_kex_init(&packet(payload_of(&LISTS, byte, 0))).unwrap();
        assert_eq!(kex_init.first_kex_packet_follows, expected);
        assert_eq!(kex_init.flags, 0);
    }
    let kex_init = parse_kex_init(&packet(payload_of(&LISTS, 0, u32::MAX))).unwrap();
    assert_eq!(kex_init.flags, u32::MAX);
}

#[test]
fn kex_init_with_empty_lists() {
    let payload = payload_of(&[""; 10], 0, 0);
    assert_eq!(payload.len(), 1 + 16 + 10 * 4 + 1 + 4);
    let kex_init = parse_kex_init(&packet(payload)).unwrap();
    assert_eq!(kex_init.kex_algorithms, vec![String::new()]);
    assert_eq!(kex_init.languages_server_to_client, vec![String::new()]);
}

#[test]
fn every_proper_prefix_of_a_kex_init_is_truncated() {
    let whole = payload_of(&LISTS, 0, 0);
    assert!(parse_kex_init(&packet(whole.clone())).is_ok());
    for kept in 0..whole.len() {
        let result = parse_kex_init(&packet(whole[..kept].to_vec()));
        assert_eq!(result, Err(ProtocolError::Truncated), "{}", kept);
    }
}

#[test]
fn kex_init_with_bytes_left_over_is_malformed() {
    let mut payload = payload_of(&LISTS, 0, 0);
    payload.push(0);
    assert_eq!(parse_kex_init(&packet(payload.clone())), Err(ProtocolError::Malformed));
    payload.extend_from_slice(&[1, 2, 3]);
    assert_eq!(parse_kex_init(&packet(payload)), Err(ProtocolError::Malformed));
}

#[test]
fn other_message_is_no_kex_init() {
    let mut payload = payload_of(&LISTS, 0, 0);
    payload[0] = 21;
    assert_eq!(parse_kex_init(&packet(payload)), Err(ProtocolError::UnexpectedMessageType));
    assert_eq!(parse_kex_init(&packet(vec![2])), Err(ProtocolError::UnexpectedMessageType));
    assert_eq!(parse_kex_init(&packet(vec![20])), Err(ProtocolError::Truncated));
    assert_eq!(parse_kex_init(&packet(vec![])), Err(ProtocolError::Truncated));
}

#[test]
fn kex_init_with_a_list_that_is_no_text_is_refused() {
    let mut payload = payload_of(&LISTS, 0, 0);
    // the first byte of the first list's body
    payload[17 + 4] = 0xff;
    assert_eq!(parse_kex_init(&packet(payload)), Err(ProtocolError::Encoding));
}

#[test]
fn kex_init_with_a_list_that_overruns_is_truncated() {
    let mut payload = payload_of(&LISTS, 0, 0);
    // the length of the first list, made larger than the payload
    payload[17] = 0x7f;
    assert_eq!(parse_kex_init(&packet(payload)), Err(ProtocolError::Truncated));
}
