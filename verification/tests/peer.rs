use bittorrent::error::NetworkError;
use bittorrent::peer::{
    build_handshake, frame_body_length, push_be32, read_be32, read_handshake, PeerMessage,
};

#[test]
fn numbers_are_written_most_significant_byte_first() {
    let mut out = vec![9];
    push_be32(&mut out, 0);
    push_be32(&mut out, 1);
    push_be32(&mut out, 0x01020304);
    push_be32(&mut out, u32::MAX);
    assert_eq!(
        out,
        vec![9, 0, 0, 0, 0, 0, 0, 0, 1, 1, 2, 3, 4, 255, 255, 255, 255]
    );
    assert_eq!(read_be32(&out, 1), 0);
    assert_eq!(read_be32(&out, 5), 1);
    assert_eq!(read_be32(&out, 9), 0x01020304);
    assert_eq!(read_be32(&out, 13), u32::MAX);
    assert_eq!(read_be32(&[0, 0, 0x40, 0], 0), 16384);
}

#[test]
fn the_length_prefix_tells_how_much_follows() {
    assert_eq!(frame_body_length([0, 0, 0, 0]), 0);
    assert_eq!(frame_body_length([0, 0, 0, 13]), 13);
    assert_eq!(frame_body_length([0, 0, 0x40, 0x09]), 16393);
    assert_eq!(frame_body_length([0x80, 0, 0, 0]), 0x8000_0000);
}

#[test]
fn messages_without_payload_are_five_bytes() {
    assert_eq!(PeerMessage::Choke.as_bytes(), vec![0, 0, 0, 1, 0]);
    assert_eq!(PeerMessage::Unchoke.as_bytes(), vec![0, 0, 0, 1, 1]);
    assert_eq!(PeerMessage::Interested.as_bytes(), vec![0, 0, 0, 1, 2]);
    assert_eq!(PeerMessage::NotInterested.as_bytes(), vec![0, 0, 0, 1, 3]);
}

#[test]
fn messages_with_payload_have_the_layout_of_their_tag() {
    assert_eq!(
        PeerMessage::Have { piece_index: 0x0a0b0c0d }.as_bytes(),
        vec![0, 0, 0, 5, 4, 0x0a, 0x0b, 0x0c, 0x0d]
    );
    assert_eq!(
        PeerMessage::Bitfield { bits: vec![0xff, 0x80] }.as_bytes(),
        vec![0, 0, 0, 3, 5, 0xff, 0x80]
    );
    assert_eq!(
        PeerMessage::Bitfield { bits: vec![] }.as_bytes(),
        vec![0, 0, 0, 1, 5]
    );
    assert_eq!(
        PeerMessage::Request { piece_index: 1, begin: 16384, length: 16384 }.as_bytes(),
        vec![0, 0, 0, 13, 6, 0, 0, 0, 1, 0, 0, 0x40, 0, 0, 0, 0x40, 0]
    );
    assert_eq!(
        PeerMessage::PieceBlock { piece_index: 2, begin: 3, block: vec![7, 8, 9] }.as_bytes(),
        vec![0, 0, 0, 12, 7, 0, 0, 0, 2, 0, 0, 0, 3, 7, 8, 9]
    );
    assert_eq!(
        PeerMessage::Cancel { piece_index: 1, begin: 2, length: 3 }.as_bytes(),
        vec![0, 0, 0, 13, 8, 0, 0, 0, 1, 0, 0, 0, 2, 0, 0, 0, 3]
    );
}

#[test]
fn a_frame_is_read_back_as_its_message() {
    let messages = vec![
        PeerMessage::Choke,
        PeerMessage::Unchoke,
        PeerMessage::Interested,
        PeerMessage::NotInterested,
        PeerMessage::Have { piece_index: u32::MAX },
        PeerMessage::Bitfield { bits: vec![] },
        PeerMessage::Bitfield { bits: vec![1, 2, 3, 4, 5] },
        PeerMessage::Request { piece_index: 7, begin: 32768, length: 100 },
        PeerMessage::PieceBlock { piece_index: 7, begin: 0, block: vec![] },
        PeerMessage::PieceBlock { piece_index: 0, begin: 16384, block: vec![0xaa; 16384] },
        PeerMessage::Cancel { piece_index: 0, begin: 0, length: 0 },
    ];
    for message in messages {
        let frame = message.as_bytes();
        assert_eq!(PeerMessage::read_message(&frame), Ok(Some(message)));
    }
}

#[test]
fn a_keep_alive_holds_nothing() {
    assert_eq!(PeerMessage::read_message(&[0, 0, 0, 0]), Ok(None));
}

#[test]
fn a_frame_with_fewer_or_more_bytes_than_announced_is_truncated() {
    let truncated = Err(NetworkError::TruncatedFrame);
    assert_eq!(PeerMessage::read_message(&[]), truncated);
    assert_eq!(PeerMessage::read_message(&[0, 0, 0]), truncated);
    assert_eq!(PeerMessage::read_message(&[0, 0, 0, 1]), truncated);
    assert_eq!(PeerMessage::read_message(&[0, 0, 0, 5, 4, 0, 0]), truncated);
    assert_eq!(PeerMessage::read_message(&[0, 0, 0, 1, 2, 0]), truncated);
    assert_eq!(PeerMessage::read_message(&[0, 0, 0, 0, 0]), truncated);
    assert_eq!(
        PeerMessage::read_message(&[0xff, 0xff, 0xff, 0xff, 0]),
        truncated
    );
}

#[test]
fn a_tag_that_names_no_message_is_malformed() {
    let malformed = Err(NetworkError::MalformedMessage);
    assert_eq!(PeerMessage::read_message(&[0, 0, 0, 1, 9]), malformed);
    assert_eq!(PeerMessage::read_message(&[0, 0, 0, 1, 20]), malformed);
    assert_eq!(PeerMessage::read_message(&[0, 0, 0, 2, 255, 0]), malformed);
}

#[test]
fn a_payload_that_does_not_fit_its_tag_is_malformed() {
    let malformed = Err(NetworkError::MalformedMessage);
    assert_eq!(PeerMessage::read_message(&[0, 0, 0, 2, 0, 0]), malformed);
    assert_eq!(PeerMessage::read_message(&[0, 0, 0, 2, 1, 0]), malformed);
    assert_eq!(PeerMessage::read_message(&[0, 0, 0, 2, 2, 0]), malformed);
    assert_eq!(PeerMessage::read_message(&[0, 0, 0, 2, 3, 0]), malformed);
    assert_eq!(PeerMessage::read_message(&[0, 0, 0, 1, 4]), malformed);
    assert_eq!(
        PeerMessage::read_message(&[0, 0, 0, 4, 4, 0, 0, 0]),
        malformed
    );
    assert_eq!(
        PeerMessage::read_message(&[0, 0, 0, 6, 4, 0, 0, 0, 0, 0]),
        malformed
    );
    assert_eq!(
        PeerMessage::read_message(&[0, 0, 0, 12, 6, 0, 0, 0, 1, 0, 0, 0, 2, 0, 0, 0]),
        malformed
    );
    assert_eq!(
        PeerMessage::read_message(&[0, 0, 0, 8, 7, 0, 0, 0, 1, 0, 0, 0]),
        malformed
    );
    assert_eq!(
        PeerMessage::read_message(&[0, 0, 0, 14, 8, 0, 0, 0, 1, 0, 0, 0, 2, 0, 0, 0, 3, 0]),
        malformed
    );
}

#[test]
fn a_piece_message_carries_its_block() {
    let frame = [0, 0, 0, 11, 7, 0, 0, 0, 5, 0, 0, 0x40, 0, 0xde, 0xad];
    assert_eq!(
        PeerMessage::read_message(&frame),
        Ok(Some(PeerMessage::PieceBlock {
            piece_index: 5,
            begin: 16384,
            block: vec![0xde, 0xad]
        }))
    );
}

#[test]
fn the_handshake_is_built_from_hash_and_id() {
    let hash: [u8; 20] = [7; 20];
    let id: [u8; 20] = [9; 20];
    let message = build_handshake(&hash, &id);
    let mut expected = vec![19];
    expected.extend_from_slice(b"BitTorrent protocol");
    expected.extend_from_slice(&[0; 8]);
    expected.extend_from_slice(&hash);
    expected.extend_from_slice(&id);
    assert_eq!(message, expected);
    assert_eq!(message.len(), 68);
}

#[test]
fn a_reply_is_read_for_its_peer_id() {
    let hash: [u8; 20] = [7; 20];
    let mut id = [0u8; 20];
    for i in 0..20 {
        id[i] = i as u8;
    }
    let reply = build_handshake(&hash, &id);
    assert_eq!(read_handshake(&reply, &hash), Ok(id));
    let mut longer = reply.clone();
    longer.extend_from_slice(&[1, 2, 3]);
    assert_eq!(read_handshake(&longer, &hash), Ok(id));
}

#[test]
fn a_reply_for_another_torrent_is_a_mismatch() {
    let hash: [u8; 20] = [7; 20];
    let id: [u8; 20] = [9; 20];
    for at in [28usize, 37, 47] {
        let mut reply = build_handshake(&hash, &id);
        reply[at] = 8;
        assert_eq!(
            read_handshake(&reply, &hash),
            Err(NetworkError::ProtocolMismatch)
        );
    }
    let mut other = build_handshake(&hash, &id);
    other[27] = 1;
    other[48] = 1;
    let mut changed = id;
    changed[0] = 1;
    assert_eq!(read_handshake(&other, &hash), Ok(changed));
}

#[test]
fn a_reply_of_fewer_than_68_bytes_means_the_connection_closed() {
    let hash: [u8; 20] = [7; 20];
    let id: [u8; 20] = [9; 20];
    let reply = build_handshake(&hash, &id);
    for length in [0usize, 1, 28, 48, 67] {
        assert_eq!(
            read_handshake(&reply[..length], &hash),
            Err(NetworkError::ConnectionClosed)
        );
    }
    let mut wrong = build_handshake(&[8; 20], &id);
    wrong.truncate(60);
    assert_eq!(
        read_handshake(&wrong, &hash),
        Err(NetworkError::ConnectionClosed)
    );
}
