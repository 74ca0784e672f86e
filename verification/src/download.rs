//! The engine that downloads one piece from one peer.
//!
//! The engine does no I/O. It is a state machine: a caller that owns the
//! connection performs the action that the engine names, and hands back what
//! came of it as an event. What the engine decides is stated by `next` and
//! `action_of`.

use vstd::prelude::*;
use vstd::slice::slice_to_vec;
use crate::digest::{sha1, sha1_digest};
use crate::error::{DownloadError, IntegrityError};
use crate::peer::{
    build_handshake, frame_of, handshake, handshake_reply, parse_frame, read_handshake,
    MessageView, PeerMessage,
};

verus! {

/// The size of the blocks in which a piece is requested: 16 KiB. The last
/// block of a piece may be shorter.
pub const BLOCK_SIZE: u32 = 16384;

/// Where the download of a piece stands.
#[derive(Clone, Copy, Debug, PartialEq, Eq, Structural)]
pub enum DownloadState {
    /// The handshake is to be sent, and the peer's reply to be read.
    Connecting,
    /// The peer's handshake was accepted; its first message is awaited.
    HandshakeSent,
    /// The peer's first message arrived; `Interested` is to be sent.
    AwaitingBitfield,
    /// `Interested` was sent; `Unchoke` is awaited.
    InterestedSent,
    /// The peer unchoked; the first block is to be requested.
    AwaitingUnchoke,
    /// A block was requested; it is awaited.
    Requesting,
    /// A block arrived and the piece is not complete; the next block is to
    /// be requested.
    Assembling,
    /// The piece is complete and has the recorded digest.
    Verified,
    /// The download ended without the piece.
    Failed(DownloadError),
}

/// The download of a piece as a mathematical object.
pub struct DownloadView {
    /// Where the download stands.
    pub state: DownloadState,
    /// The info hash of the torrent.
    pub info_hash: Seq<u8>,
    /// The id under which this client introduces itself.
    pub peer_id: Seq<u8>,
    /// Which piece is downloaded.
    pub piece_index: u32,
    /// The size of the piece.
    pub expected_length: u32,
    /// Where in the piece the next block starts that has not arrived yet.
    pub next_block_offset: u32,
    /// The payloads of the blocks that arrived, in the order of arrival.
    pub accumulated_bytes: Seq<u8>,
    /// The recorded digest of the piece.
    pub expected_hash: Seq<u8>,
}

/// The download of one piece from one peer.
#[derive(Debug)]
pub struct PieceDownload {
    state: DownloadState,
    info_hash: [u8; 20],
    peer_id: [u8; 20],
    piece_index: u32,
    expected_length: u32,
    next_block_offset: u32,
    accumulated_bytes: Vec<u8>,
    expected_hash: [u8; 20],
}

/// What came of the action that the engine named last.
#[derive(Debug, Clone, PartialEq, Eq)]
pub enum Event {
    /// The handshake was sent, and these bytes of the peer's reply arrived
    /// before 68 were read or the connection closed.
    HandshakeReply(Vec<u8>),
    /// The bytes to send were sent.
    Sent,
    /// These bytes of a frame arrived, the length prefix included, before
    /// the frame was complete or the connection closed.
    Frame(Vec<u8>),
}

/// What the caller is to do next, as a mathematical object.
pub enum ActionView {
    /// Send these bytes, read 68 bytes, and report `HandshakeReply`.
    SendHandshake(Seq<u8>),
    /// Send these bytes, and report `Sent`.
    Send(Seq<u8>),
    /// Read one frame, and report `Frame`.
    Receive,
    /// The download is over: these are the bytes of the piece.
    Deliver(Seq<u8>),
    /// The download is over: it failed.
    Abort(DownloadError),
}

/// What the caller is to do next.
#[derive(Debug, Clone, PartialEq, Eq)]
pub enum Action {
    /// Send these bytes, read 68 bytes, and report `HandshakeReply`.
    SendHandshake(Vec<u8>),
    /// Send these bytes, and report `Sent`.
    Send(Vec<u8>),
    /// Read one frame, and report `Frame`.
    Receive,
    /// The download is over: these are the bytes of the piece.
    Deliver(Vec<u8>),
    /// The download is over: it failed.
    Abort(DownloadError),
}

impl View for Action {
    type V = ActionView;

    open spec fn view(&self) -> ActionView {
        match self {
            Action::SendHandshake(bytes) => ActionView::SendHandshake(bytes@),
            Action::Send(bytes) => ActionView::Send(bytes@),
            Action::Receive => ActionView::Receive,
            Action::Deliver(bytes) => ActionView::Deliver(bytes@),
            Action::Abort(error) => ActionView::Abort(*error),
        }
    }
}

/// The download of the piece `piece_index` before anything was done.
pub open spec fn initial(
    info_hash: Seq<u8>,
    peer_id: Seq<u8>,
    piece_index: u32,
    expected_length: u32,
    expected_hash: Seq<u8>,
) -> DownloadView {
    DownloadView {
        state: DownloadState::Connecting,
        info_hash,
        peer_id,
        piece_index,
        expected_length,
        next_block_offset: 0,
        accumulated_bytes: Seq::empty(),
        expected_hash,
    }
}

/// What holds of a download at every moment: the block that is due lies in
/// the piece and starts at a multiple of the block size; nothing has arrived
/// before the first request; and a piece that counts as verified is
/// complete and has the recorded digest.
pub open spec fn consistent(d: DownloadView) -> bool {
    &&& d.info_hash.len() == 20
    &&& d.peer_id.len() == 20
    &&& d.expected_hash.len() == 20
    &&& 0 < d.expected_length
    &&& d.next_block_offset <= d.expected_length
    &&& d.next_block_offset % BLOCK_SIZE == 0 || d.next_block_offset == d.expected_length
    &&& match d.state {
        DownloadState::Connecting
        | DownloadState::HandshakeSent
        | DownloadState::AwaitingBitfield
        | DownloadState::InterestedSent
        | DownloadState::AwaitingUnchoke => d.next_block_offset == 0 && d.accumulated_bytes.len()
            == 0,
        DownloadState::Requesting | DownloadState::Assembling => d.next_block_offset
            < d.expected_length,
        DownloadState::Verified => d.next_block_offset == d.expected_length && sha1_digest(
            d.accumulated_bytes,
        ) == d.expected_hash,
        DownloadState::Failed(_) => true,
    }
}

/// The size of the block that is due: the block size, or what is left of
/// the piece where that is less.
pub open spec fn block_length(d: DownloadView) -> u32 {
    if d.expected_length - d.next_block_offset < BLOCK_SIZE {
        (d.expected_length - d.next_block_offset) as u32
    } else {
        BLOCK_SIZE
    }
}

/// The request for the block that is due.
pub open spec fn request_of(d: DownloadView) -> MessageView {
    MessageView::Request {
        piece_index: d.piece_index,
        begin: d.next_block_offset,
        length: block_length(d),
    }
}

/// The download after the payload `block` of the block that was due has
/// arrived. With the last block the piece is judged: it is verified where
/// the digest of all that arrived is the recorded one. The engine takes the
/// payload as it comes, whatever its size.
pub open spec fn after_block(d: DownloadView, block: Seq<u8>) -> DownloadView {
    let accumulated_bytes = d.accumulated_bytes + block;
    let next_block_offset = (d.next_block_offset + block_length(d)) as u32;
    let state = if next_block_offset < d.expected_length {
        DownloadState::Assembling
    } else if sha1_digest(accumulated_bytes) == d.expected_hash {
        DownloadState::Verified
    } else {
        DownloadState::Failed(DownloadError::Integrity(IntegrityError::PieceHashMismatch))
    };
    DownloadView { state, next_block_offset, accumulated_bytes, ..d }
}

/// The download after `message` has arrived. The first message after the
/// handshake moves the download on whatever it is. After `Interested` only
/// `Unchoke` does. After a request only a block of the piece that is
/// downloaded does. Every other message is ignored.
pub open spec fn after_message(d: DownloadView, message: MessageView) -> DownloadView {
    match d.state {
        DownloadState::HandshakeSent => DownloadView {
            state: DownloadState::AwaitingBitfield,
            ..d
        },
        DownloadState::InterestedSent => if message is Unchoke {
            DownloadView { state: DownloadState::AwaitingUnchoke, ..d }
        } else {
            d
        },
        DownloadState::Requesting => match message {
            MessageView::PieceBlock { piece_index, begin, block } => if piece_index
                == d.piece_index {
                after_block(d, block)
            } else {
                d
            },
            _ => d,
        },
        _ => d,
    }
}

/// The download after the bytes `reply` of the peer's reply to the
/// handshake arrived: the reply is accepted, or it ends the download.
pub open spec fn after_handshake_reply(d: DownloadView, reply: Seq<u8>) -> DownloadView {
    if d.state is Connecting {
        match handshake_reply(reply, d.info_hash) {
            Ok(_) => DownloadView { state: DownloadState::HandshakeSent, ..d },
            Err(e) => DownloadView { state: DownloadState::Failed(DownloadError::Network(e)), ..d },
        }
    } else {
        d
    }
}

/// The download after the bytes to send were sent.
pub open spec fn after_sent(d: DownloadView) -> DownloadView {
    match d.state {
        DownloadState::AwaitingBitfield => DownloadView {
            state: DownloadState::InterestedSent,
            ..d
        },
        DownloadState::AwaitingUnchoke => DownloadView { state: DownloadState::Requesting, ..d },
        DownloadState::Assembling => DownloadView { state: DownloadState::Requesting, ..d },
        _ => d,
    }
}

/// The download after the bytes `frame` of a frame arrived. What is no
/// frame ends the download; a keep-alive changes nothing; a message is
/// dealt with by `after_message`.
pub open spec fn after_frame(d: DownloadView, frame: Seq<u8>) -> DownloadView {
    match d.state {
        DownloadState::HandshakeSent
        | DownloadState::InterestedSent
        | DownloadState::Requesting => match parse_frame(frame) {
            Err(e) => DownloadView { state: DownloadState::Failed(DownloadError::Network(e)), ..d },
            Ok(None) => d,
            Ok(Some(message)) => after_message(d, message),
        },
        _ => d,
    }
}

/// The download after `event`. An event that the state does not wait for
/// changes nothing.
pub open spec fn next(d: DownloadView, event: Event) -> DownloadView {
    match event {
        Event::HandshakeReply(reply) => after_handshake_reply(d, reply@),
        Event::Sent => after_sent(d),
        Event::Frame(frame) => after_frame(d, frame@),
    }
}

/// What the caller is to do in the state of `d`.
pub open spec fn action_of(d: DownloadView) -> ActionView {
    match d.state {
        DownloadState::Connecting => ActionView::SendHandshake(handshake(d.info_hash, d.peer_id)),
        DownloadState::HandshakeSent => ActionView::Receive,
        DownloadState::AwaitingBitfield => ActionView::Send(frame_of(MessageView::Interested)),
        DownloadState::InterestedSent => ActionView::Receive,
        DownloadState::AwaitingUnchoke => ActionView::Send(frame_of(request_of(d))),
        DownloadState::Requesting => ActionView::Receive,
        DownloadState::Assembling => ActionView::Send(frame_of(request_of(d))),
        DownloadState::Verified => ActionView::Deliver(d.accumulated_bytes),
        DownloadState::Failed(error) => ActionView::Abort(error),
    }
}

/// The block that a consistent download asks for is not empty, is no larger
/// than the block size, and lies in the piece.
pub proof fn lemma_request_lies_in_piece(d: DownloadView)
    requires
        consistent(d),
        d.state is AwaitingUnchoke || d.state is Assembling || d.state is Requesting,
    ensures
        0 < block_length(d) <= BLOCK_SIZE,
        d.next_block_offset + block_length(d) <= d.expected_length,
        block_length(d) < BLOCK_SIZE ==> d.next_block_offset + block_length(d)
            == d.expected_length,
{
}

/// No event leads a consistent download to one that is not.
pub proof fn lemma_next_keeps_consistent(d: DownloadView, event: Event)
    requires
        consistent(d),
    ensures
        consistent(next(d, event)),
{
}

/// Once a download is verified or has failed, no event changes it.
pub proof fn lemma_terminal_states_stay(d: DownloadView, event: Event)
    requires
        d.state is Verified || d.state is Failed,
    ensures
        next(d, event) == d,
{
}

/// Judges the digest of an assembled piece against the recorded one.
pub fn check_piece_digest(digest: &[u8; 20], expected: &[u8; 20]) -> (r: Result<
    (),
    IntegrityError,
>)
    ensures
        match r {
            Ok(_) => digest@ == expected@,
            Err(e) => digest@ != expected@ && e == IntegrityError::PieceHashMismatch,
        },
{
    let mut i: usize = 0;
    while i < 20
        invariant
            i <= 20,
            forall|j: int| 0 <= j < i ==> digest[j] == expected[j],
        decreases 20 - i,
    {
        if digest[i] != expected[i] {
            assert(digest@[i as int] != expected@[i as int]);
            return Err(IntegrityError::PieceHashMismatch);
        }
        i += 1;
    }
    assert(digest@ =~= expected@);
    Ok(())
}

impl View for PieceDownload {
    type V = DownloadView;

    closed spec fn view(&self) -> DownloadView {
        DownloadView {
            state: self.state,
            info_hash: self.info_hash@,
            peer_id: self.peer_id@,
            piece_index: self.piece_index,
            expected_length: self.expected_length,
            next_block_offset: self.next_block_offset,
            accumulated_bytes: self.accumulated_bytes@,
            expected_hash: self.expected_hash@,
        }
    }
}

impl PieceDownload {
    #[verifier::type_invariant]
    spec fn is_consistent(&self) -> bool {
        consistent(self@)
    }

    /// The download of the piece `piece_index`, which is `expected_length`
    /// bytes long and has the digest `expected_hash`, before anything was
    /// done. There is none for an empty piece.
    pub fn new(
        info_hash: [u8; 20],
        peer_id: [u8; 20],
        piece_index: u32,
        expected_length: u32,
        expected_hash: [u8; 20],
    ) -> (r: Option<PieceDownload>)
        ensures
            match r {
                Some(download) => expected_length > 0 && download@ == initial(
                    info_hash@,
                    peer_id@,
                    piece_index,
                    expected_length,
                    expected_hash@,
                ) && consistent(download@),
                None => expected_length == 0,
            },
    {
        if expected_length == 0 {
            return None;
        }
        Some(
            PieceDownload {
                state: DownloadState::Connecting,
                info_hash,
                peer_id,
                piece_index,
                expected_length,
                next_block_offset: 0,
                accumulated_bytes: Vec::new(),
                expected_hash,
            },
        )
    }

    /// Where the download stands.
    pub fn state(&self) -> (state: DownloadState)
        ensures
            state == self@.state,
            consistent(self@),
    {
        proof {
            use_type_invariant(self);
        }
        self.state
    }

    /// Which piece is downloaded.
    pub fn piece_index(&self) -> (piece_index: u32)
        ensures
            piece_index == self@.piece_index,
    {
        self.piece_index
    }

    /// The size of the piece.
    pub fn expected_length(&self) -> (expected_length: u32)
        ensures
            expected_length == self@.expected_length,
    {
        self.expected_length
    }

    /// Where in the piece the next block starts that has not arrived yet.
    pub fn next_block_offset(&self) -> (next_block_offset: u32)
        ensures
            next_block_offset == self@.next_block_offset,
    {
        self.next_block_offset
    }

    /// The payloads of the blocks that arrived, in the order of arrival.
    pub fn accumulated_bytes(&self) -> (accumulated_bytes: &[u8])
        ensures
            accumulated_bytes@ == self@.accumulated_bytes,
    {
        self.accumulated_bytes.as_slice()
    }

    /// The recorded digest of the piece.
    pub fn expected_hash(&self) -> (expected_hash: [u8; 20])
        ensures
            expected_hash@ == self@.expected_hash,
    {
        self.expected_hash
    }

    /// What the caller is to do next.
    pub fn action(&self) -> (action: Action)
        ensures
            action@ == action_of(self@),
            action matches Action::Deliver(piece) ==> sha1_digest(piece@) == self@.expected_hash,
    {
        proof {
            use_type_invariant(self);
        }
        match self.state {
            DownloadState::Connecting => Action::SendHandshake(
                build_handshake(&self.info_hash, &self.peer_id),
            ),
            DownloadState::HandshakeSent => Action::Receive,
            DownloadState::AwaitingBitfield => Action::Send(PeerMessage::Interested.as_bytes()),
            DownloadState::InterestedSent => Action::Receive,
            DownloadState::AwaitingUnchoke | DownloadState::Assembling => {
                let left: u32 = self.expected_length - self.next_block_offset;
                let length: u32 = if left < BLOCK_SIZE {
                    left
                } else {
                    BLOCK_SIZE
                };
                let request = PeerMessage::Request {
                    piece_index: self.piece_index,
                    begin: self.next_block_offset,
                    length,
                };
                Action::Send(request.as_bytes())
            },
            DownloadState::Requesting => Action::Receive,
            DownloadState::Verified => Action::Deliver(
                slice_to_vec(self.accumulated_bytes.as_slice()),
            ),
            DownloadState::Failed(error) => Action::Abort(error),
        }
    }

    /// Takes in what came of the last action, and names the next one.
    pub fn step(self, event: Event) -> (r: (PieceDownload, Action))
        ensures
            r.0@ == next(self@, event),
            r.1@ == action_of(next(self@, event)),
            r.1 matches Action::Deliver(piece) ==> sha1_digest(piece@) == self@.expected_hash,
            consistent(r.0@),
    {
        proof {
            use_type_invariant(&self);
            lemma_next_keeps_consistent(self@, event);
        }
        let after = match event {
            Event::HandshakeReply(reply) => self.take_handshake_reply(reply.as_slice()),
            Event::Sent => self.take_sent(),
            Event::Frame(frame) => self.take_frame(frame.as_slice()),
        };
        let action = after.action();
        (after, action)
    }

    /// The download with another state and all else as it is.
    fn moved(self, state: DownloadState) -> (after: PieceDownload)
        requires
            consistent(DownloadView { state, ..self@ }),
        ensures
            after@ == (DownloadView { state, ..self@ }),
    {
        PieceDownload {
            state,
            info_hash: self.info_hash,
            peer_id: self.peer_id,
            piece_index: self.piece_index,
            expected_length: self.expected_length,
            next_block_offset: self.next_block_offset,
            accumulated_bytes: self.accumulated_bytes,
            expected_hash: self.expected_hash,
        }
    }

    /// The download that has failed with `error`.
    fn failed(self, error: DownloadError) -> (after: PieceDownload)
        ensures
            after@ == (DownloadView { state: DownloadState::Failed(error), ..self@ }),
    {
        proof {
            use_type_invariant(&self);
        }
        self.moved(DownloadState::Failed(error))
    }

    /// The download after the peer's reply to the handshake.
    fn take_handshake_reply(self, reply: &[u8]) -> (after: PieceDownload)
        ensures
            after@ == after_handshake_reply(self@, reply@),
    {
        proof {
            use_type_invariant(&self);
        }
        match self.state {
            DownloadState::Connecting => match read_handshake(reply, &self.info_hash) {
                Ok(_) => self.moved(DownloadState::HandshakeSent),
                Err(e) => self.failed(DownloadError::Network(e)),
            },
            _ => self,
        }
    }

    /// The download after the bytes to send were sent.
    fn take_sent(self) -> (after: PieceDownload)
        ensures
            after@ == next(self@, Event::Sent),
    {
        proof {
            use_type_invariant(&self);
        }
        match self.state {
            DownloadState::AwaitingBitfield => self.moved(DownloadState::InterestedSent),
            DownloadState::AwaitingUnchoke => self.moved(DownloadState::Requesting),
            DownloadState::Assembling => self.moved(DownloadState::Requesting),
            _ => self,
        }
    }

    /// The download after the bytes of a frame arrived.
    fn take_frame(self, frame: &[u8]) -> (after: PieceDownload)
        ensures
            after@ == after_frame(self@, frame@),
    {
        proof {
            use_type_invariant(&self);
        }
        match self.state {
            DownloadState::HandshakeSent
            | DownloadState::InterestedSent
            | DownloadState::Requesting => match PeerMessage::read_message(frame) {
                Err(e) => self.failed(DownloadError::Network(e)),
                Ok(None) => self,
                Ok(Some(message)) => self.take_message(message),
            },
            _ => self,
        }
    }

    /// The download after a message arrived.
    fn take_message(self, message: PeerMessage) -> (after: PieceDownload)
        ensures
            after@ == after_message(self@, message@),
    {
        proof {
            use_type_invariant(&self);
        }
        match self.state {
            DownloadState::HandshakeSent => self.moved(DownloadState::AwaitingBitfield),
            DownloadState::InterestedSent => match message {
                PeerMessage::Unchoke => self.moved(DownloadState::AwaitingUnchoke),
                _ => self,
            },
            DownloadState::Requesting => match message {
                PeerMessage::PieceBlock { piece_index, begin, block } => {
                    if piece_index == self.piece_index {
                        self.take_block(block)
                    } else {
                        self
                    }
                },
                _ => self,
            },
            _ => self,
        }
    }

    /// The download after the payload of the block that was due arrived.
    fn take_block(self, block: Vec<u8>) -> (after: PieceDownload)
        requires
            self@.state is Requesting,
        ensures
            after@ == after_block(self@, block@),
    {
        proof {
            use_type_invariant(&self);
        }
        let left: u32 = self.expected_length - self.next_block_offset;
        let length: u32 = if left < BLOCK_SIZE {
            left
        } else {
            BLOCK_SIZE
        };
        let next_block_offset: u32 = self.next_block_offset + length;
        let mut accumulated_bytes = self.accumulated_bytes;
        let mut block = block;
        accumulated_bytes.append(&mut block);
        let state = if next_block_offset < self.expected_length {
            DownloadState::Assembling
        } else {
            let digest = sha1(accumulated_bytes.as_slice());
            match check_piece_digest(&digest, &self.expected_hash) {
                Ok(_) => DownloadState::Verified,
                Err(e) => DownloadState::Failed(DownloadError::Integrity(e)),
            }
        };
        PieceDownload {
            state,
            info_hash: self.info_hash,
            peer_id: self.peer_id,
            piece_index: self.piece_index,
            expected_length: self.expected_length,
            next_block_offset,
            accumulated_bytes,
            expected_hash: self.expected_hash,
        }
    }
}

} // verus!
