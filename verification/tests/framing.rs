use mcping::errors::FormatError;
use mcping::packet::{Packet, PacketDecoder, PacketEncoder};

#[test]
fn write_test_packet() {
    let mut buffer: Vec<u8> = Vec::new();
    let encoder = PacketEncoder;
    encoder.encode(Packet { id: 0, data: vec![1, 2, 3] }, &mut buffer);
    assert_eq!(buffer, [4, 0, 1, 2, 3]);
}

#[test]
fn read_test_packet() {
    let mut buffer = vec![4, 0, 1, 2, 3];
    let decoder = PacketDecoder;
    let packet = decoder.decode(&mut buffer).unwrap();
    assert_eq!(packet, Some(Packet { id: 0, data: vec![1, 2, 3] }));
    assert!(buffer.is_empty());
}

#[test]
fn frame_round_trip_keeps_id_and_data() {
    let decoder = PacketDecoder;
    let encoder = PacketEncoder;
    let cases: [(i32, Vec<u8>); 4] = [
        (0, vec![]),
        (1, vec![0, 0, 0, 0, 0, 0, 3, 232]),
        (127, vec![9, 9, 9]),
        (-1, vec![42]),
    ];
    for (id, data) in cases.iter() {
        let mut wire: Vec<u8> = Vec::new();
        encoder.encode(Packet { id: *id, data: data.clone() }, &mut wire);
        let mut buffer = wire.clone();
        let packet = decoder.decode(&mut buffer).unwrap().unwrap();
        assert_eq!(packet.id, *id);
        assert_eq!(&packet.data, data);
        assert!(buffer.is_empty());
    }
}

#[test]
fn frame_decodes_across_any_two_chunks() {
    let encoder = PacketEncoder;
    let decoder = PacketDecoder;
    let mut wire: Vec<u8> = Vec::new();
    encoder.encode(Packet { id: 1, data: vec![10, 20, 30, 40] }, &mut wire);
    for split in 0..wire.len() {
        let mut buffer: Vec<u8> = wire[..split].to_vec();
        let first = decoder.decode(&mut buffer).unwrap();
        assert_eq!(first, None);
        assert_eq!(buffer, wire[..split].to_vec());
        buffer.extend_from_slice(&wire[split..]);
        let second = decoder.decode(&mut buffer).unwrap();
        assert_eq!(second, Some(Packet { id: 1, data: vec![10, 20, 30, 40] }));
        assert!(buffer.is_empty());
    }
}

#[test]
fn decoder_leaves_following_bytes_alone() {
    let decoder = PacketDecoder;
    let mut buffer = vec![4, 0, 1, 2, 3, 9, 9];
    let packet = decoder.decode(&mut buffer).unwrap();
    assert_eq!(packet, Some(Packet { id: 0, data: vec![1, 2, 3] }));
    assert_eq!(buffer, [9, 9]);
}

#[test]
fn decoder_rejects_oversized_length_varint() {
    let decoder = PacketDecoder;
    let mut buffer = vec![255, 255, 255, 255, 255, 0];
    assert_eq!(decoder.decode(&mut buffer), Err(FormatError::TooLong));
    assert_eq!(buffer, [255, 255, 255, 255, 255, 0]);
}

#[test]
fn decoder_waits_on_length_too_small_for_id() {
    let decoder = PacketDecoder;
    let mut buffer = vec![0, 0];
    assert_eq!(decoder.decode(&mut buffer), Ok(None));
    assert_eq!(buffer, [0, 0]);
}
