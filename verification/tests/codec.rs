//! The integrity codec.

use aggligator::io::codec::{IntegrityCodec, IntegrityError};
use bytes::{Bytes, BytesMut};

fn encode(codec: &mut IntegrityCodec, data: &[u8]) -> BytesMut {
    let mut buf = BytesMut::new();
    codec.encode(Bytes::copy_from_slice(data), &mut buf).unwrap();
    buf
}

#[test]
fn frame_has_exact_encoding() {
    let mut codec = IntegrityCodec::new();
    // The checksum of the digits is the check value of CRC-32/BZIP2.
    let frame = encode(&mut codec, b"123456789");
    assert_eq!(&frame[..10], &[0, 0, 0, 9, 0, 0, 0xfc, 0x89, 0x19, 0x18]);
    assert_eq!(&frame[10..], b"123456789");
    let frame = encode(&mut codec, b"");
    assert_eq!(&frame[..], &[0, 0, 0, 0, 0, 1, 0, 0, 0, 0]);
}

#[test]
fn packets_survive_the_codec() {
    let mut tx = IntegrityCodec::new();
    let mut rx = IntegrityCodec::default();
    let mut buf = BytesMut::new();
    let packets: Vec<Vec<u8>> = (0..300usize).map(|n| (0..n).map(|i| i as u8).collect()).collect();
    for packet in &packets {
        tx.encode(Bytes::from(packet.clone()), &mut buf).unwrap();
    }
    for packet in &packets {
        assert_eq!(&rx.decode(&mut buf).unwrap().unwrap()[..], &packet[..]);
    }
    assert!(rx.decode(&mut buf).unwrap().is_none());
    assert!(buf.is_empty());
}

#[test]
fn packets_may_arrive_in_parts() {
    let mut tx = IntegrityCodec::new();
    let mut rx = IntegrityCodec::new();
    let frame = encode(&mut tx, b"in parts");
    let mut buf = BytesMut::new();
    for (i, byte) in frame.iter().enumerate() {
        buf.extend_from_slice(&[*byte]);
        let packet = rx.decode(&mut buf).unwrap();
        if i + 1 < frame.len() {
            assert!(packet.is_none());
        } else {
            assert_eq!(&packet.unwrap()[..], b"in parts");
        }
    }
}

#[test]
fn sequence_wraps_around() {
    let mut tx = IntegrityCodec { encode_seq: 0xffff, ..IntegrityCodec::new() };
    let mut rx = IntegrityCodec { decode_seq: 0xffff, ..IntegrityCodec::new() };
    for _ in 0..3 {
        let mut frame = encode(&mut tx, b"x");
        assert_eq!(&rx.decode(&mut frame).unwrap().unwrap()[..], b"x");
    }
    assert_eq!((tx.encode_seq, rx.decode_seq), (2, 2));
}

#[test]
fn skipped_packet_is_detected() {
    let mut tx = IntegrityCodec::new();
    let mut rx = IntegrityCodec::new();
    let _ = encode(&mut tx, b"lost");
    let mut frame = encode(&mut tx, b"next");
    assert_eq!(rx.decode(&mut frame).unwrap_err(), IntegrityError::SeqSkipped);
}

#[test]
fn corrupted_packet_is_detected() {
    let mut tx = IntegrityCodec::new();
    let mut rx = IntegrityCodec::new();
    let mut frame = encode(&mut tx, b"data");
    frame[12] ^= 1;
    assert_eq!(rx.decode(&mut frame).unwrap_err(), IntegrityError::DataCorrupted);
}

#[test]
fn big_packets_are_rejected() {
    let mut codec = IntegrityCodec::new();
    assert_eq!(codec.max_packet_size(), 8_388_608);
    codec.set_max_packet_size(4);
    assert_eq!(codec.max_packet_size(), 4);
    let mut buf = BytesMut::new();
    let err = codec.encode(Bytes::from_static(b"12345"), &mut buf).unwrap_err();
    assert_eq!(err, IntegrityError::PacketTooBig);
    assert!(buf.is_empty());
    codec.encode(Bytes::from_static(b"1234"), &mut buf).unwrap();

    let mut frame = encode(&mut IntegrityCodec::new(), b"12345");
    assert_eq!(codec.decode(&mut frame).unwrap_err(), IntegrityError::PacketTooBig);
}

#[test]
fn codec_errors_are_described() {
    assert_eq!(IntegrityError::PacketTooBig.text(), "packet too big");
    assert_eq!(IntegrityError::SeqSkipped.text(), "sequence number skipped");
    assert_eq!(IntegrityError::DataCorrupted.text(), "data corrupted");
}

#[test]
fn chunks_do_not_matter() {
    let packets: Vec<Vec<u8>> = vec![vec![], vec![1], vec![2; 300], vec![3, 4, 5]];
    let mut encoder = IntegrityCodec::new();
    let mut bytes = Vec::new();
    for packet in &packets {
        bytes.extend_from_slice(&encode(&mut encoder, packet));
    }
    for size in [1usize, 3, 10, 11, 64, 1000] {
        let mut decoder = IntegrityCodec::new();
        let mut buf = BytesMut::new();
        let mut decoded: Vec<Vec<u8>> = Vec::new();
        for chunk in bytes.chunks(size) {
            buf.extend_from_slice(chunk);
            while let Some(packet) = decoder.decode(&mut buf).unwrap() {
                decoded.push(packet.to_vec());
            }
        }
        assert_eq!(decoded, packets);
        assert!(buf.is_empty());
    }
}
