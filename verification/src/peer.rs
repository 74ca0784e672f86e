//! The peer wire protocol: the handshake of 68 bytes, and the messages that
//! follow it, each in a frame with a length prefix of four bytes.

use vstd::prelude::*;
use vstd::slice::{slice_subrange, slice_to_vec};
use crate::error::NetworkError;
use crate::text::{ascii, ascii_bytes};

verus! {

/// The four bytes that write `value`, the most significant first.
pub open spec fn be32(value: u32) -> Seq<u8> {
    seq![
        (value / 0x100_0000) as u8,
        (value / 0x1_0000 % 0x100) as u8,
        (value / 0x100 % 0x100) as u8,
        (value % 0x100) as u8,
    ]
}

/// The number that the first four bytes of `bytes` write, the most
/// significant first.
pub open spec fn from_be32(bytes: Seq<u8>) -> u32 {
    (bytes[0] * 0x100_0000 + bytes[1] * 0x1_0000 + bytes[2] * 0x100 + bytes[3]) as u32
}

/// Four bytes read as a number write that number.
pub proof fn lemma_be32_inverts(value: u32)
    ensures
        from_be32(be32(value)) == value,
        be32(value).len() == 4,
{
}

/// Appends to `out` the four bytes that write `value`.
pub fn push_be32(out: &mut Vec<u8>, value: u32)
    ensures
        final(out)@ == old(out)@ + be32(value),
{
    out.push((value / 0x100_0000) as u8);
    out.push((value / 0x1_0000 % 0x100) as u8);
    out.push((value / 0x100 % 0x100) as u8);
    out.push((value % 0x100) as u8);
    assert(final(out)@ =~= old(out)@ + be32(value));
}

/// Reads the number that the four bytes at `at` in `bytes` write.
pub fn read_be32(bytes: &[u8], at: usize) -> (value: u32)
    requires
        at + 4 <= bytes.len(),
    ensures
        value == from_be32(bytes@.skip(at as int)),
{
    (bytes[at] as u32) * 0x100_0000 + (bytes[at + 1] as u32) * 0x1_0000 + (bytes[at + 2] as u32)
        * 0x100 + bytes[at + 3] as u32
}

/// How many bytes follow a length prefix: what is left to read after the
/// four bytes of the prefix to have the whole frame.
pub fn frame_body_length(prefix: [u8; 4]) -> (length: u32)
    ensures
        length == from_be32(prefix@),
{
    assert(prefix@.skip(0) =~= prefix@);
    read_be32(prefix.as_slice(), 0)
}

/// The handshake: the length of the protocol's name, the name, eight
/// reserved bytes that are zero, the info hash and the sender's peer id.
pub open spec fn handshake(info_hash: Seq<u8>, peer_id: Seq<u8>) -> Seq<u8> {
    seq![19u8] + ascii("BitTorrent protocol"@) + Seq::new(8, |i: int| 0u8) + info_hash + peer_id
}

/// What a peer's reply to the handshake yields: the peer's id, which is the
/// last twenty of its 68 bytes, where the reply is complete and repeats the
/// info hash at bytes 28 to 47.
pub open spec fn handshake_reply(reply: Seq<u8>, info_hash: Seq<u8>) -> Result<
    Seq<u8>,
    NetworkError,
> {
    if reply.len() < 68 {
        Err(NetworkError::ConnectionClosed)
    } else if reply.subrange(28, 48) != info_hash {
        Err(NetworkError::ProtocolMismatch)
    } else {
        Ok(reply.subrange(48, 68))
    }
}

/// A handshake is 68 bytes long, and read as a reply for the same torrent
/// it yields the sender's peer id.
pub proof fn lemma_handshake_is_accepted(info_hash: Seq<u8>, peer_id: Seq<u8>)
    requires
        info_hash.len() == 20,
        peer_id.len() == 20,
    ensures
        handshake(info_hash, peer_id).len() == 68,
        handshake_reply(handshake(info_hash, peer_id), info_hash) == Ok::<Seq<u8>, NetworkError>(
            peer_id,
        ),
{
    reveal_strlit("BitTorrent protocol");
    let message = handshake(info_hash, peer_id);
    assert(message.subrange(28, 48) =~= info_hash);
    assert(message.subrange(48, 68) =~= peer_id);
}

/// The handshake that a client with the id `peer_id` sends for the torrent
/// with the hash `info_hash`.
pub fn build_handshake(info_hash: &[u8; 20], peer_id: &[u8; 20]) -> (message: Vec<u8>)
    ensures
        message@ == handshake(info_hash@, peer_id@),
        message.len() == 68,
{
    let mut message: Vec<u8> = Vec::with_capacity(68);
    message.push(19);
    proof {
        reveal_strlit("BitTorrent protocol");
    }
    message.extend_from_slice(ascii_bytes("BitTorrent protocol"));
    let mut i: usize = 0;
    while i < 8
        invariant
            i <= 8,
            message@ == seq![19u8] + ascii("BitTorrent protocol"@) + Seq::new(
                i as nat,
                |i: int| 0u8,
            ),
        decreases 8 - i,
    {
        message.push(0);
        i += 1;
        assert(message@ =~= seq![19u8] + ascii("BitTorrent protocol"@) + Seq::new(
            i as nat,
            |i: int| 0u8,
        ));
    }
    message.extend_from_slice(info_hash.as_slice());
    message.extend_from_slice(peer_id.as_slice());
    assert(message@ =~= handshake(info_hash@, peer_id@));
    message
}

/// Reads a peer's reply to the handshake for the torrent with the hash
/// `info_hash`, and returns the peer's id.
pub fn read_handshake(reply: &[u8], info_hash: &[u8; 20]) -> (r: Result<[u8; 20], NetworkError>)
    ensures
        match handshake_reply(reply@, info_hash@) {
            Ok(id) => r matches Ok(peer_id) && peer_id@ == id,
            Err(e) => r matches Err(x) && x == e,
        },
{
    if reply.len() < 68 {
        return Err(NetworkError::ConnectionClosed);
    }
    let mut peer_id = [0u8; 20];
    let mut i: usize = 0;
    while i < 20
        invariant
            i <= 20,
            reply.len() >= 68,
            forall|j: int| 0 <= j < i ==> reply[28 + j] == info_hash[j],
            forall|j: int| 0 <= j < i ==> peer_id[j] == reply[48 + j],
        decreases 20 - i,
    {
        if reply[28 + i] != info_hash[i] {
            assert(reply@.subrange(28, 48)[i as int] != info_hash@[i as int]);
            return Err(NetworkError::ProtocolMismatch);
        }
        peer_id[i] = reply[48 + i];
        i += 1;
    }
    assert(reply@.subrange(28, 48) =~= info_hash@);
    assert(peer_id@ =~= reply@.subrange(48, 68));
    Ok(peer_id)
}

/// A message of the peer wire protocol as a mathematical object.
pub enum MessageView {
    /// The sender will not answer requests.
    Choke,
    /// The sender will answer requests.
    Unchoke,
    /// The sender wants to request pieces.
    Interested,
    /// The sender does not want to request pieces.
    NotInterested,
    /// The sender has the piece.
    Have { piece_index: u32 },
    /// Which pieces the sender has, one bit for each piece.
    Bitfield { bits: Seq<u8> },
    /// The sender asks for a block of a piece.
    Request { piece_index: u32, begin: u32, length: u32 },
    /// A block of a piece.
    PieceBlock { piece_index: u32, begin: u32, block: Seq<u8> },
    /// The sender withdraws a request.
    Cancel { piece_index: u32, begin: u32, length: u32 },
}

/// A message of the peer wire protocol.
#[derive(Debug, Clone, PartialEq, Eq)]
pub enum PeerMessage {
    /// The sender will not answer requests.
    Choke,
    /// The sender will answer requests.
    Unchoke,
    /// The sender wants to request pieces.
    Interested,
    /// The sender does not want to request pieces.
    NotInterested,
    /// The sender has the piece.
    Have { piece_index: u32 },
    /// Which pieces the sender has, one bit for each piece. The library
    /// hands the bits on as they came.
    Bitfield { bits: Vec<u8> },
    /// The sender asks for a block of a piece.
    Request { piece_index: u32, begin: u32, length: u32 },
    /// A block of a piece.
    PieceBlock { piece_index: u32, begin: u32, block: Vec<u8> },
    /// The sender withdraws a request.
    Cancel { piece_index: u32, begin: u32, length: u32 },
}

impl View for PeerMessage {
    type V = MessageView;

    open spec fn view(&self) -> MessageView {
        match self {
            PeerMessage::Choke => MessageView::Choke,
            PeerMessage::Unchoke => MessageView::Unchoke,
            PeerMessage::Interested => MessageView::Interested,
            PeerMessage::NotInterested => MessageView::NotInterested,
            PeerMessage::Have { piece_index } => MessageView::Have { piece_index: *piece_index },
            PeerMessage::Bitfield { bits } => MessageView::Bitfield { bits: bits@ },
            PeerMessage::Request { piece_index, begin, length } => MessageView::Request {
                piece_index: *piece_index,
                begin: *begin,
                length: *length,
            },
            PeerMessage::PieceBlock { piece_index, begin, block } => MessageView::PieceBlock {
                piece_index: *piece_index,
                begin: *begin,
                block: block@,
            },
            PeerMessage::Cancel { piece_index, begin, length } => MessageView::Cancel {
                piece_index: *piece_index,
                begin: *begin,
                length: *length,
            },
        }
    }
}

/// The byte that tells which message a frame holds.
pub open spec fn tag_of(message: MessageView) -> u8 {
    match message {
        MessageView::Choke => 0,
        MessageView::Unchoke => 1,
        MessageView::Interested => 2,
        MessageView::NotInterested => 3,
        MessageView::Have { .. } => 4,
        MessageView::Bitfield { .. } => 5,
        MessageView::Request { .. } => 6,
        MessageView::PieceBlock { .. } => 7,
        MessageView::Cancel { .. } => 8,
    }
}

/// What follows the tag in a frame.
pub open spec fn payload_of(message: MessageView) -> Seq<u8> {
    match message {
        MessageView::Choke => Seq::empty(),
        MessageView::Unchoke => Seq::empty(),
        MessageView::Interested => Seq::empty(),
        MessageView::NotInterested => Seq::empty(),
        MessageView::Have { piece_index } => be32(piece_index),
        MessageView::Bitfield { bits } => bits,
        MessageView::Request { piece_index, begin, length } => be32(piece_index) + be32(begin)
            + be32(length),
        MessageView::PieceBlock { piece_index, begin, block } => be32(piece_index) + be32(begin)
            + block,
        MessageView::Cancel { piece_index, begin, length } => be32(piece_index) + be32(begin)
            + be32(length),
    }
}

/// Whether a frame can hold `message`: the length prefix counts the tag and
/// the payload in 32 bits.
pub open spec fn fits_frame(message: MessageView) -> bool {
    1 + payload_of(message).len() <= u32::MAX
}

/// The frame that carries `message`: the length of what follows in four
/// bytes, the tag, and the payload.
pub open spec fn frame_of(message: MessageView) -> Seq<u8> {
    be32((1 + payload_of(message).len()) as u32) + seq![tag_of(message)] + payload_of(message)
}

/// The frame that carries nothing: a length prefix of zero.
pub open spec fn keep_alive() -> Seq<u8> {
    be32(0)
}

/// The message with the tag `tag` and the payload `payload`. A tag that
/// names no message, or a payload that does not have the layout of its tag,
/// is a `MalformedMessage`.
pub open spec fn message_of(tag: u8, payload: Seq<u8>) -> Result<MessageView, NetworkError> {
    if tag == 0 && payload.len() == 0 {
        Ok(MessageView::Choke)
    } else if tag == 1 && payload.len() == 0 {
        Ok(MessageView::Unchoke)
    } else if tag == 2 && payload.len() == 0 {
        Ok(MessageView::Interested)
    } else if tag == 3 && payload.len() == 0 {
        Ok(MessageView::NotInterested)
    } else if tag == 4 && payload.len() == 4 {
        Ok(MessageView::Have { piece_index: from_be32(payload) })
    } else if tag == 5 {
        Ok(MessageView::Bitfield { bits: payload })
    } else if tag == 6 && payload.len() == 12 {
        Ok(
            MessageView::Request {
                piece_index: from_be32(payload),
                begin: from_be32(payload.skip(4)),
                length: from_be32(payload.skip(8)),
            },
        )
    } else if tag == 7 && payload.len() >= 8 {
        Ok(
            MessageView::PieceBlock {
                piece_index: from_be32(payload),
                begin: from_be32(payload.skip(4)),
                block: payload.skip(8),
            },
        )
    } else if tag == 8 && payload.len() == 12 {
        Ok(
            MessageView::Cancel {
                piece_index: from_be32(payload),
                begin: from_be32(payload.skip(4)),
                length: from_be32(payload.skip(8)),
            },
        )
    } else {
        Err(NetworkError::MalformedMessage)
    }
}

/// What a frame holds, given all the bytes of it that arrived: nothing for
/// a keep-alive, and a message otherwise. Where the bytes behind the prefix
/// are not as many as the prefix says, the frame is a `TruncatedFrame`.
pub open spec fn parse_frame(frame: Seq<u8>) -> Result<Option<MessageView>, NetworkError> {
    if frame.len() < 4 || frame.len() - 4 != from_be32(frame) {
        Err(NetworkError::TruncatedFrame)
    } else if frame.len() == 4 {
        Ok(None)
    } else {
        match message_of(frame[4], frame.skip(5)) {
            Ok(message) => Ok(Some(message)),
            Err(e) => Err(e),
        }
    }
}

/// The frame of a message is read back as that message.
pub proof fn lemma_frame_round_trip(message: MessageView)
    requires
        fits_frame(message),
    ensures
        parse_frame(frame_of(message)) == Ok::<Option<MessageView>, NetworkError>(Some(message)),
{
    let payload = payload_of(message);
    let frame = frame_of(message);
    let length = (1 + payload.len()) as u32;
    lemma_be32_inverts(length);
    assert(from_be32(frame) == from_be32(be32(length)));
    assert(frame.skip(5) =~= payload);
    assert(frame[4] == tag_of(message));
    match message {
        MessageView::Have { piece_index } => {
            lemma_be32_inverts(piece_index);
        },
        MessageView::Request { piece_index, begin, length } => {
            lemma_be32_inverts(piece_index);
            lemma_be32_inverts(begin);
            lemma_be32_inverts(length);
            assert(from_be32(payload) == from_be32(be32(piece_index)));
            assert(payload.skip(4) =~= be32(begin) + be32(length));
            assert(from_be32(payload.skip(4)) == from_be32(be32(begin)));
            assert(payload.skip(8) =~= be32(length));
        },
        MessageView::PieceBlock { piece_index, begin, block } => {
            lemma_be32_inverts(piece_index);
            lemma_be32_inverts(begin);
            assert(from_be32(payload) == from_be32(be32(piece_index)));
            assert(payload.skip(4) =~= be32(begin) + block);
            assert(from_be32(payload.skip(4)) == from_be32(be32(begin)));
            assert(payload.skip(8) =~= block);
        },
        MessageView::Cancel { piece_index, begin, length } => {
            lemma_be32_inverts(piece_index);
            lemma_be32_inverts(begin);
            lemma_be32_inverts(length);
            assert(from_be32(payload) == from_be32(be32(piece_index)));
            assert(payload.skip(4) =~= be32(begin) + be32(length));
            assert(from_be32(payload.skip(4)) == from_be32(be32(begin)));
            assert(payload.skip(8) =~= be32(length));
        },
        _ => {},
    }
}

/// The keep-alive frame is read as a frame that holds nothing.
pub proof fn lemma_keep_alive_is_tolerated()
    ensures
        parse_frame(keep_alive()) == Ok::<Option<MessageView>, NetworkError>(None),
{
    lemma_be32_inverts(0);
}

impl PeerMessage {
    /// The frame that carries this message.
    pub fn as_bytes(&self) -> (frame: Vec<u8>)
        requires
            fits_frame(self@),
        ensures
            frame@ == frame_of(self@),
    {
        let mut frame: Vec<u8> = Vec::new();
        match self {
            PeerMessage::Choke => {
                push_be32(&mut frame, 1);
                frame.push(0);
            },
            PeerMessage::Unchoke => {
                push_be32(&mut frame, 1);
                frame.push(1);
            },
            PeerMessage::Interested => {
                push_be32(&mut frame, 1);
                frame.push(2);
            },
            PeerMessage::NotInterested => {
                push_be32(&mut frame, 1);
                frame.push(3);
            },
            PeerMessage::Have { piece_index } => {
                push_be32(&mut frame, 5);
                frame.push(4);
                push_be32(&mut frame, *piece_index);
            },
            PeerMessage::Bitfield { bits } => {
                push_be32(&mut frame, (1 + bits.len()) as u32);
                frame.push(5);
                frame.extend_from_slice(bits.as_slice());
            },
            PeerMessage::Request { piece_index, begin, length } => {
                push_be32(&mut frame, 13);
                frame.push(6);
                push_be32(&mut frame, *piece_index);
                push_be32(&mut frame, *begin);
                push_be32(&mut frame, *length);
            },
            PeerMessage::PieceBlock { piece_index, begin, block } => {
                push_be32(&mut frame, (9 + block.len()) as u32);
                frame.push(7);
                push_be32(&mut frame, *piece_index);
                push_be32(&mut frame, *begin);
                frame.extend_from_slice(block.as_slice());
            },
            PeerMessage::Cancel { piece_index, begin, length } => {
                push_be32(&mut frame, 13);
                frame.push(8);
                push_be32(&mut frame, *piece_index);
                push_be32(&mut frame, *begin);
                push_be32(&mut frame, *length);
            },
        }
        assert(frame@ =~= frame_of(self@));
        frame
    }

    /// Reads what a frame holds, given all the bytes of it that arrived,
    /// the length prefix included: nothing for a keep-alive, and a message
    /// otherwise.
    pub fn read_message(frame: &[u8]) -> (r: Result<Option<PeerMessage>, NetworkError>)
        ensures
            match parse_frame(frame@) {
                Ok(Some(message)) => r matches Ok(Some(m)) && m@ == message,
                Ok(None) => r matches Ok(None),
                Err(e) => r matches Err(x) && x == e,
            },
    {
        if frame.len() < 4 {
            return Err(NetworkError::TruncatedFrame);
        }
        assert(frame@.skip(0) =~= frame@);
        let declared = read_be32(frame, 0);
        if (frame.len() - 4) as u64 != declared as u64 {
            return Err(NetworkError::TruncatedFrame);
        }
        if frame.len() == 4 {
            return Ok(None);
        }
        let tag = frame[4];
        let size: usize = frame.len() - 5;
        let ghost payload = frame@.skip(5);
        proof {
            if size >= 4 {
                assert(payload.take(4) =~= frame@.skip(5).take(4));
            }
            if size >= 8 {
                assert(payload.skip(4) =~= frame@.skip(9));
            }
            if size >= 12 {
                assert(payload.skip(8) =~= frame@.skip(13));
            }
        }
        if tag == 0 && size == 0 {
            Ok(Some(PeerMessage::Choke))
        } else if tag == 1 && size == 0 {
            Ok(Some(PeerMessage::Unchoke))
        } else if tag == 2 && size == 0 {
            Ok(Some(PeerMessage::Interested))
        } else if tag == 3 && size == 0 {
            Ok(Some(PeerMessage::NotInterested))
        } else if tag == 4 && size == 4 {
            Ok(Some(PeerMessage::Have { piece_index: read_be32(frame, 5) }))
        } else if tag == 5 {
            let bits = slice_to_vec(slice_subrange(frame, 5, frame.len()));
            assert(bits@ =~= payload);
            Ok(Some(PeerMessage::Bitfield { bits }))
        } else if tag == 6 && size == 12 {
            Ok(
                Some(
                    PeerMessage::Request {
                        piece_index: read_be32(frame, 5),
                        begin: read_be32(frame, 9),
                        length: read_be32(frame, 13),
                    },
                ),
            )
        } else if tag == 7 && size >= 8 {
            let block = slice_to_vec(slice_subrange(frame, 13, frame.len()));
            assert(block@ =~= payload.skip(8));
            Ok(
                Some(
                    PeerMessage::PieceBlock {
                        piece_index: read_be32(frame, 5),
                        begin: read_be32(frame, 9),
                        block,
                    },
                ),
            )
        } else if tag == 8 && size == 12 {
            Ok(
                Some(
                    PeerMessage::Cancel {
                        piece_index: read_be32(frame, 5),
                        begin: read_be32(frame, 9),
                        length: read_be32(frame, 13),
                    },
                ),
            )
        } else {
            Err(NetworkError::MalformedMessage)
        }
    }
}

} // verus!
