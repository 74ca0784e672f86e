//! The core of a BitTorrent client: the bencode codec, the torrent metadata
//! model with its info hash, the tracker announce exchange, the peer wire
//! protocol, and the engine that downloads and verifies one piece.

pub mod decimal;
pub mod decoder;
pub mod digest;
pub mod download;
pub mod encoder;
pub mod error;
pub mod peer;
pub mod percent;
pub mod roundtrip;
pub mod text;
pub mod torrent;
pub mod tracker;
pub mod value;
