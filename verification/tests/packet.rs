use terrapin::connection::{Connection, DEFAULT_MAX_PACKET_LENGTH};
use terrapin::error::ProtocolError;
use terrapin::packet::read_single_packet;

fn encode(payload: &[u8], padding: &[u8]) -> Vec<u8> {
    let length = (1 + payload.len() + padding.len()) as u32;
    let mut bytes = length.to_be_bytes().to_vec();
    bytes.push(padding.len() as u8);
    bytes.extend_from_slice(payload);
    bytes.extend_from_slice(padding);
    bytes
}

#[test]
fn packet_round_trips() {
    let payloads: [&[u8]; 4] = [&[], &[20], &[1, 2, 3, 4, 5], &[0xff; 300]];
    let paddings: [&[u8]; 4] = [&[], &[0], &[9, 8, 7, 6], &[0xaa; 255]];
    for payload in payloads {
        for padding in paddings {
            let mut conn = Connection::new(encode(payload, padding));
            let pkt = read_single_packet(&mut conn).unwrap();
            assert_eq!(pkt.payload, payload);
            assert_eq!(pkt.padding, padding);
            assert_eq!(pkt.padding_length as usize, padding.len());
            assert_eq!(pkt.packet_length as usize, 1 + payload.len() + padding.len());
            assert!(pkt.mac.is_empty());
            assert!(conn.remaining().is_empty());
        }
    }
}

#[test]
fn packet_reader_takes_exactly_the_packet() {
    let mut stream = encode(&[20, 1, 2], &[0, 0, 0, 0]);
    stream.extend_from_slice(&[0xde, 0xad, 0xbe, 0xef]);
    let mut conn = Connection::new(stream);
    let pkt = read_single_packet(&mut conn).unwrap();
    assert_eq!(pkt.packet_length, 8);
    assert_eq!(pkt.padding_length, 4);
    assert_eq!(pkt.payload, vec![20, 1, 2]);
    assert_eq!(pkt.padding, vec![0, 0, 0, 0]);
    assert_eq!(conn.remaining(), &[0xde, 0xad, 0xbe, 0xef]);
    assert!(conn.written().is_empty());
}

#[test]
fn packet_reader_reads_packets_in_turn() {
    let mut stream = encode(&[1], &[5, 5]);
    stream.extend_from_slice(&encode(&[2, 2], &[]));
    let mut conn = Connection::new(stream);
    assert_eq!(read_single_packet(&mut conn).unwrap().payload, vec![1]);
    assert_eq!(read_single_packet(&mut conn).unwrap().payload, vec![2, 2]);
    assert_eq!(read_single_packet(&mut conn), Err(ProtocolError::Truncated));
}

#[test]
fn packet_above_the_ceiling_is_refused() {
    assert_eq!(DEFAULT_MAX_PACKET_LENGTH, 35000);
    // 35001 declared, nothing behind it
    let mut conn = Connection::new(vec![0, 0, 0x88, 0xb9]);
    assert_eq!(read_single_packet(&mut conn), Err(ProtocolError::OversizedPacket));
    assert_eq!(conn.remaining().len(), 4);
    // 35001 declared, and all of it there
    let mut stream = vec![0, 0, 0x88, 0xb9];
    stream.extend_from_slice(&vec![0u8; 35001]);
    let mut conn = Connection::new(stream);
    assert_eq!(read_single_packet(&mut conn), Err(ProtocolError::OversizedPacket));
    assert_eq!(conn.remaining().len(), 35005);
    let mut conn = Connection::new(vec![0xff, 0xff, 0xff, 0xff, 0, 0]);
    assert_eq!(read_single_packet(&mut conn), Err(ProtocolError::OversizedPacket));
}

#[test]
fn packet_at_the_ceiling_is_read() {
    let mut stream = vec![0, 0, 0x88, 0xb8];
    stream.push(3);
    stream.extend_from_slice(&vec![7u8; 34999]);
    let mut conn = Connection::new(stream);
    let pkt = read_single_packet(&mut conn).unwrap();
    assert_eq!(pkt.packet_length, 35000);
    assert_eq!(pkt.payload.len(), 35000 - 1 - 3);
    assert_eq!(pkt.padding, vec![7, 7, 7]);
}

#[test]
fn ceiling_can_be_chosen() {
    let stream = encode(&[1, 2, 3, 4], &[0, 0]);
    let mut conn = Connection::with_max_packet_length(stream.clone(), 6);
    assert_eq!(conn.packet_limit(), 6);
    assert_eq!(read_single_packet(&mut conn), Err(ProtocolError::OversizedPacket));
    let mut conn = Connection::with_max_packet_length(stream, 7);
    assert_eq!(read_single_packet(&mut conn).unwrap().payload, vec![1, 2, 3, 4]);
    let mut conn = Connection::with_max_packet_length(vec![0, 0, 0, 0], 0);
    assert_eq!(read_single_packet(&mut conn), Err(ProtocolError::Malformed));
}

#[test]
fn short_length_field_is_truncated() {
    for stream in [vec![], vec![0], vec![0, 0], vec![0, 0, 0]] {
        let mut conn = Connection::new(stream.clone());
        assert_eq!(read_single_packet(&mut conn), Err(ProtocolError::Truncated));
        assert_eq!(conn.remaining(), stream.as_slice());
    }
}

#[test]
fn short_body_is_truncated() {
    let whole = encode(&[20, 1, 2, 3], &[0, 0]);
    for kept in 4..whole.len() {
        let mut conn = Connection::new(whole[..kept].to_vec());
        assert_eq!(read_single_packet(&mut conn), Err(ProtocolError::Truncated), "{}", kept);
        assert_eq!(conn.remaining().len(), kept);
    }
}

#[test]
fn inconsistent_lengths_are_malformed() {
    // no room for the padding length
    let mut conn = Connection::new(vec![0, 0, 0, 0]);
    assert_eq!(read_single_packet(&mut conn), Err(ProtocolError::Malformed));
    // padding as long as the packet
    let mut conn = Connection::new(vec![0, 0, 0, 3, 3, 0, 0]);
    assert_eq!(read_single_packet(&mut conn), Err(ProtocolError::Malformed));
    // padding longer than the packet
    let mut conn = Connection::new(vec![0, 0, 0, 3, 200, 0, 0]);
    assert_eq!(read_single_packet(&mut conn), Err(ProtocolError::Malformed));
    assert_eq!(conn.remaining().len(), 7);
    // padding that leaves an empty payload
    let mut conn = Connection::new(vec![0, 0, 0, 3, 2, 8, 9]);
    let pkt = read_single_packet(&mut conn).unwrap();
    assert!(pkt.payload.is_empty());
    assert_eq!(pkt.padding, vec![8, 9]);
}
