//! The failures that the library reports, one type for each layer.

use vstd::prelude::*;

verus! {

/// Why a byte string is not a bencoded value.
#[derive(Clone, Copy, Debug, PartialEq, Eq, Structural)]
pub enum CodecError {
    /// The digits of a string's length are not followed by `:`.
    MalformedLength,
    /// An integer has no digits, holds another byte than a digit, has no
    /// closing `e`, or does not fit in 64 bits.
    MalformedInteger,
    /// A value starts with a byte that begins none of the four forms.
    UnknownTag,
    /// A dictionary key is a value other than a byte string.
    NonStringKey,
    /// The input ends before the value does.
    TruncatedInput,
}

/// Why a bencoded value is not the metadata that was asked for.
#[derive(Clone, Copy, Debug, PartialEq, Eq, Structural)]
pub enum ModelError {
    /// A required key is absent.
    MissingField,
    /// A required key holds a value of the wrong form.
    TypeMismatch,
}

/// Why the exchange with a peer cannot go on.
#[derive(Clone, Copy, Debug, PartialEq, Eq, Structural)]
pub enum NetworkError {
    /// The peer closed the connection before its whole handshake arrived.
    ConnectionClosed,
    /// Not as many bytes arrived as the length prefix of a frame announced.
    TruncatedFrame,
    /// The peer's handshake names another torrent than the one asked for.
    ProtocolMismatch,
    /// A frame has a tag that names no message, or a payload that does not
    /// have the layout of its tag.
    MalformedMessage,
}

/// Why downloaded content is not accepted.
#[derive(Clone, Copy, Debug, PartialEq, Eq, Structural)]
pub enum IntegrityError {
    /// The digest of the assembled piece is not the recorded one.
    PieceHashMismatch,
}

/// Why bytes are not a torrent's metadata.
#[derive(Clone, Copy, Debug, PartialEq, Eq, Structural)]
pub enum TorrentError {
    /// The bytes are not a bencoded value.
    Codec(CodecError),
    /// The value lacks a field, or holds one of the wrong form.
    Model(ModelError),
}

/// Why bytes are not a tracker's answer.
#[derive(Clone, Copy, Debug, PartialEq, Eq, Structural)]
pub enum TrackerError {
    /// The bytes are not a bencoded value.
    Codec(CodecError),
    /// The value lacks a field, or holds one of the wrong form.
    Model(ModelError),
    /// The compact peer list is not a whole number of six-byte records.
    TruncatedPeerList,
}

/// Why the download of a piece ended without the piece.
#[derive(Clone, Copy, Debug, PartialEq, Eq, Structural)]
pub enum DownloadError {
    /// The exchange with the peer failed.
    Network(NetworkError),
    /// The piece arrived and is not the recorded one.
    Integrity(IntegrityError),
}

} // verus!
