//! A torrent's metadata: its typed form, how it is read out of a bencoded
//! value, and the info hash that names the torrent to trackers and peers.

use vstd::prelude::*;
use vstd::slice::slice_to_vec;
use vstd::string::StringExecFns;
use vstd::utf8::{decode_utf8, encode_utf8, valid_utf8};
use vstd::utf8::{encode_utf8_decode_utf8, encode_utf8_valid_utf8};
use crate::decoder::{parse_value, tail, BencodedValue};
use crate::digest::{hex_encode, hex_lower, sha1, sha1_digest};
use crate::download::{initial, DownloadView, PieceDownload};
use crate::encoder::bencode;
use crate::error::{ModelError, NetworkError, TorrentError, TrackerError};
use crate::peer::{build_handshake, handshake, handshake_reply, read_handshake};
use crate::roundtrip::lemma_bencode_injective;
use crate::percent::{lemma_percent_of_hex, percent_encoded, percent_prefix};
use crate::text::{ascii, ascii_bytes, text_from_utf8};
use crate::tracker::{
    announce_query, first_request, is_peer_list, response_from_bytes, Peer, TrackerRequest,
    TrackerResponse,
};
use crate::value::{lookup, model, Bencode, Value};

verus! {

/// The id under which this client introduces itself to trackers and peers:
/// the text `00112233445566778899`.
pub const PEER_ID: [u8; 20] = [
    0x30, 0x30, 0x31, 0x31, 0x32, 0x32, 0x33, 0x33, 0x34, 0x34, 0x35, 0x35, 0x36, 0x36, 0x37, 0x37,
    0x38, 0x38, 0x39, 0x39,
];

/// The fixed id is the text under which the first announce goes out.
pub proof fn lemma_peer_id_is_text()
    ensures
        PEER_ID@ == ascii("00112233445566778899"@),
        PEER_ID@ == encode_utf8(first_request(0).peer_id),
{
    reveal_strlit("00112233445566778899");
    assert(PEER_ID@ =~= ascii("00112233445566778899"@));
    vstd::utf8::is_ascii_chars_encode_utf8("00112233445566778899"@);
    assert(PEER_ID@ =~= encode_utf8("00112233445566778899"@));
}

/// What a torrent says of its content, as a mathematical object.
pub struct InfoView {
    /// The suggested name of the file.
    pub name: Seq<char>,
    /// The size of the content in bytes.
    pub length: nat,
    /// The size of each piece but possibly the last.
    pub piece_length: nat,
    /// The SHA-1 digests of the pieces, twenty bytes each, in piece order.
    pub pieces: Seq<u8>,
}

/// A torrent's metadata as a mathematical object.
pub struct TorrentView {
    /// The URL of the tracker.
    pub announce: Seq<char>,
    /// What the torrent says of its content.
    pub info: InfoView,
}

/// A torrent's metadata.
#[derive(Clone, Debug, PartialEq, Eq)]
pub struct Torrent {
    /// The URL of the tracker.
    pub announce: String,
    /// What the torrent says of its content.
    pub info: Info,
}

/// What a torrent says of its content: a single file, cut into pieces.
#[derive(Clone, Debug, PartialEq, Eq)]
pub struct Info {
    /// The suggested name of the file.
    pub name: String,
    /// The size of the content in bytes.
    pub length: usize,
    /// The size of each piece but possibly the last.
    pub piece_length: usize,
    /// The SHA-1 digests of the pieces, twenty bytes each, in piece order.
    pub pieces: Vec<u8>,
}

impl View for Info {
    type V = InfoView;

    open spec fn view(&self) -> InfoView {
        InfoView {
            name: self.name@,
            length: self.length as nat,
            piece_length: self.piece_length as nat,
            pieces: self.pieces@,
        }
    }
}

impl View for Torrent {
    type V = TorrentView;

    open spec fn view(&self) -> TorrentView {
        TorrentView { announce: self.announce@, info: self.info@ }
    }
}

/// What a dictionary holds under `key`. A value that is no dictionary has
/// the wrong form; a dictionary without the key lacks the field.
pub open spec fn field_of(value: Bencode, key: Seq<u8>) -> Result<Bencode, ModelError> {
    match value {
        Bencode::Dictionary(entries) => match lookup(entries, key) {
            Some(found) => Ok(found),
            None => Err(ModelError::MissingField),
        },
        _ => Err(ModelError::TypeMismatch),
    }
}

/// The byte string under `key`.
pub open spec fn bytes_of(value: Bencode, key: Seq<u8>) -> Result<Seq<u8>, ModelError> {
    match field_of(value, key) {
        Ok(Bencode::ByteString(bytes)) => Ok(bytes),
        Ok(_) => Err(ModelError::TypeMismatch),
        Err(e) => Err(e),
    }
}

/// The text under `key`: a byte string that is valid UTF-8.
pub open spec fn text_of(value: Bencode, key: Seq<u8>) -> Result<Seq<char>, ModelError> {
    match bytes_of(value, key) {
        Ok(bytes) => if valid_utf8(bytes) {
            Ok(decode_utf8(bytes))
        } else {
            Err(ModelError::TypeMismatch)
        },
        Err(e) => Err(e),
    }
}

/// The size under `key`: an integer that is not negative and fits a `usize`.
pub open spec fn size_of(value: Bencode, key: Seq<u8>) -> Result<nat, ModelError> {
    match field_of(value, key) {
        Ok(Bencode::Integer(number)) => if 0 <= number <= usize::MAX {
            Ok(number as nat)
        } else {
            Err(ModelError::TypeMismatch)
        },
        Ok(_) => Err(ModelError::TypeMismatch),
        Err(e) => Err(e),
    }
}

/// The `info` dictionary of a torrent in typed form. The fields are read in
/// the order `name`, `length`, `piece length`, `pieces`, and the first one
/// that fails decides the error. Other keys are ignored.
pub open spec fn info_of(value: Bencode) -> Result<InfoView, ModelError> {
    match text_of(value, ascii("name"@)) {
        Err(e) => Err(e),
        Ok(name) => match size_of(value, ascii("length"@)) {
            Err(e) => Err(e),
            Ok(length) => match size_of(value, ascii("piece length"@)) {
                Err(e) => Err(e),
                Ok(piece_length) => match bytes_of(value, ascii("pieces"@)) {
                    Err(e) => Err(e),
                    Ok(pieces) => Ok(InfoView { name, length, piece_length, pieces }),
                },
            },
        },
    }
}

/// A torrent's metadata in typed form: `announce` is read first, then
/// `info` and its fields.
pub open spec fn torrent_of(value: Bencode) -> Result<TorrentView, ModelError> {
    match text_of(value, ascii("announce"@)) {
        Err(e) => Err(e),
        Ok(announce) => match field_of(value, ascii("info"@)) {
            Err(e) => Err(e),
            Ok(info) => match info_of(info) {
                Err(e) => Err(e),
                Ok(info) => Ok(TorrentView { announce, info }),
            },
        },
    }
}

/// The metadata that the bytes of a torrent file write. Bytes behind the
/// bencoded value are ignored.
pub open spec fn torrent_from_bytes(bytes: Seq<u8>) -> Result<TorrentView, TorrentError> {
    match parse_value(bytes) {
        Err(e) => Err(TorrentError::Codec(e)),
        Ok((value, _)) => match torrent_of(value) {
            Err(e) => Err(TorrentError::Model(e)),
            Ok(torrent) => Ok(torrent),
        },
    }
}

/// The `info` dictionary that writes `info`: its four fields with the keys
/// in ascending order, which is the canonical order of bencoding.
pub open spec fn info_value(info: InfoView) -> Bencode {
    Bencode::Dictionary(
        seq![
            (ascii("length"@), Bencode::Integer(info.length as i64)),
            (ascii("name"@), Bencode::ByteString(encode_utf8(info.name))),
            (ascii("piece length"@), Bencode::Integer(info.piece_length as i64)),
            (ascii("pieces"@), Bencode::ByteString(info.pieces)),
        ],
    )
}

/// Whether both sizes of `info` fit the 64-bit signed integers of
/// bencoding. What was read out of a bencoded value always does.
pub open spec fn encodable(info: InfoView) -> bool {
    info.length <= i64::MAX && info.piece_length <= i64::MAX
}

/// The bytes that are hashed for the info hash: the encoding of the `info`
/// dictionary.
pub open spec fn info_bytes(info: InfoView) -> Seq<u8> {
    bencode(info_value(info))
}

/// The info hash: the SHA-1 digest of the encoded `info` dictionary.
pub open spec fn info_hash(info: InfoView) -> Seq<u8> {
    sha1_digest(info_bytes(info))
}

/// How many pieces the digests of `info` stand for.
pub open spec fn piece_count(info: InfoView) -> nat {
    info.pieces.len() / 20
}

/// How many pieces of `piece_length` bytes it takes to hold `length` bytes,
/// the last one possibly shorter: the quotient, rounded up.
pub open spec fn pieces_needed(length: nat, piece_length: nat) -> nat {
    if piece_length == 0 {
        0
    } else if length % piece_length == 0 {
        length / piece_length
    } else {
        length / piece_length + 1
    }
}

/// The number of pieces needed is the least that holds the content.
pub proof fn lemma_pieces_needed_is_least(length: nat, piece_length: nat)
    requires
        piece_length > 0,
    ensures
        pieces_needed(length, piece_length) * piece_length >= length,
        length > 0 ==> (pieces_needed(length, piece_length) - 1) * piece_length < length,
        length == 0 ==> pieces_needed(length, piece_length) == 0,
{
    let l = length as int;
    let p = piece_length as int;
    let q = l / p;
    vstd::arithmetic::div_mod::lemma_fundamental_div_mod(l, p);
    vstd::arithmetic::div_mod::lemma_mod_bound(l, p);
    assert(q * p == p * q) by (nonlinear_arith);
    assert((q + 1) * p == p * q + p) by (nonlinear_arith);
    assert((q - 1) * p == p * q - p) by (nonlinear_arith);
    if l == 0 {
        assert(q == 0) by (nonlinear_arith)
            requires
                p > 0,
                0 == p * q + (0int % p),
                0 <= 0int % p < p,
        ;
    }
}

/// Whether `info` is consistent: pieces are not empty, the digests are
/// whole records of twenty bytes, and there are as many as the content
/// needs.
pub open spec fn well_formed(info: InfoView) -> bool {
    &&& info.piece_length > 0
    &&& info.pieces.len() % 20 == 0
    &&& piece_count(info) == pieces_needed(info.length, info.piece_length)
}

/// The size of the piece `index`: `piece_length` for every piece but the
/// last, and for the last what is left of the content, which is a whole
/// piece where the content is a multiple of `piece_length`.
pub open spec fn piece_size(info: InfoView, index: nat) -> nat {
    if index + 1 < piece_count(info) {
        info.piece_length
    } else if info.length % info.piece_length == 0 {
        info.piece_length
    } else {
        info.length % info.piece_length
    }
}

/// The recorded digest of the piece `index`.
pub open spec fn piece_digest(info: InfoView, index: nat) -> Seq<u8> {
    info.pieces.subrange(20 * index as int, 20 * index as int + 20)
}

/// The pieces of consistent metadata make up the content: all pieces before
/// the last are full, and with the last they hold `length` bytes.
pub proof fn lemma_pieces_cover_content(info: InfoView)
    requires
        well_formed(info),
        piece_count(info) > 0,
    ensures
        (piece_count(info) - 1) * info.piece_length + piece_size(
            info,
            (piece_count(info) - 1) as nat,
        ) == info.length,
        0 < piece_size(info, (piece_count(info) - 1) as nat) <= info.piece_length,
{
    let length = info.length as int;
    let piece_length = info.piece_length as int;
    let quotient = length / piece_length;
    vstd::arithmetic::div_mod::lemma_fundamental_div_mod(length, piece_length);
    vstd::arithmetic::div_mod::lemma_mod_bound(length, piece_length);
    if length % piece_length == 0 {
        assert((quotient - 1) * piece_length + piece_length == piece_length * quotient)
            by (nonlinear_arith);
    } else {
        assert(quotient * piece_length == piece_length * quotient) by (nonlinear_arith);
    }
}

/// The URL of the first announce for `torrent`: the tracker's URL, `?`, and
/// the query of a client that has all of the content left to download.
pub open spec fn announce_url(torrent: TorrentView) -> Seq<char> {
    torrent.announce + "?"@ + announce_query(
        info_hash(torrent.info),
        first_request(torrent.info.length),
    )
}

/// The download of the piece `index` of `torrent` before anything was done,
/// for a client with the id `peer_id`. There is none where the sizes of the
/// metadata do not fit bencoding, where pieces are empty, where there is no
/// such piece, or where the piece is too large for the 32-bit offsets of the
/// wire protocol.
pub open spec fn download_of(torrent: TorrentView, peer_id: Seq<u8>, index: u32) -> Option<
    DownloadView,
> {
    if encodable(torrent.info) && torrent.info.piece_length > 0 && index < piece_count(
        torrent.info,
    ) && piece_size(torrent.info, index as nat) <= u32::MAX {
        Some(
            initial(
                info_hash(torrent.info),
                peer_id,
                index,
                piece_size(torrent.info, index as nat) as u32,
                piece_digest(torrent.info, index as nat),
            ),
        )
    } else {
        None
    }
}

/// The info hash is a function of the bytes of the torrent file: metadata
/// read twice out of the same bytes has the same info hash.
pub proof fn lemma_info_hash_is_reproducible(bytes: Seq<u8>, first: TorrentView, second: TorrentView)
    requires
        torrent_from_bytes(bytes) == Ok::<TorrentView, TorrentError>(first),
        torrent_from_bytes(bytes) == Ok::<TorrentView, TorrentError>(second),
    ensures
        info_hash(first.info) == info_hash(second.info),
{
}

/// Metadata that differs in any field, the name included, is hashed from
/// different bytes. Whether the digests then differ is up to SHA-1, of
/// which the library states nothing.
pub proof fn lemma_info_bytes_differ(a: InfoView, b: InfoView)
    requires
        encodable(a),
        encodable(b),
        a != b,
    ensures
        info_bytes(a) != info_bytes(b),
{
    if info_bytes(a) == info_bytes(b) {
        lemma_bencode_injective(info_value(a), info_value(b));
        let x = info_value(a)->Dictionary_0;
        let y = info_value(b)->Dictionary_0;
        assert(x[0] == y[0]);
        assert(x[1] == y[1]);
        assert(x[2] == y[2]);
        assert(x[3] == y[3]);
        encode_utf8_decode_utf8(a.name);
        encode_utf8_decode_utf8(b.name);
        assert(a.name == b.name);
        assert(a.length == b.length);
        assert(a.piece_length == b.piece_length);
        assert(a.pieces == b.pieces);
    }
}

/// The `info` dictionary that writes metadata is read back as that
/// metadata.
pub proof fn lemma_info_round_trip(info: InfoView)
    requires
        info.length <= usize::MAX,
        info.piece_length <= usize::MAX,
        encodable(info),
    ensures
        info_of(info_value(info)) == Ok::<InfoView, ModelError>(info),
{
    reveal_strlit("name");
    reveal_strlit("length");
    reveal_strlit("piece length");
    reveal_strlit("pieces");
    let entries = info_value(info)->Dictionary_0;
    let from_name = entries.drop_first();
    let from_piece_length = from_name.drop_first();
    let from_pieces = from_piece_length.drop_first();
    assert(ascii("length"@)[0] != ascii("pieces"@)[0]);
    assert(ascii("length"@)[0] != ascii("name"@)[0]);
    assert(ascii("name"@)[0] != ascii("pieces"@)[0]);
    assert(ascii("name"@)[0] != ascii("piece length"@)[0]);
    assert(ascii("piece length"@).len() != ascii("pieces"@).len());
    assert(ascii("piece length"@).len() != ascii("length"@).len());
    assert(lookup(from_pieces, ascii("pieces"@)) == Some(from_pieces[0].1));
    assert(lookup(from_piece_length, ascii("pieces"@)) == Some(from_pieces[0].1));
    assert(lookup(from_piece_length, ascii("piece length"@)) == Some(from_piece_length[0].1));
    assert(lookup(from_name, ascii("pieces"@)) == Some(from_pieces[0].1));
    assert(lookup(from_name, ascii("piece length"@)) == Some(from_piece_length[0].1));
    assert(lookup(from_name, ascii("name"@)) == Some(from_name[0].1));
    assert(lookup(entries, ascii("pieces"@)) == Some(entries[3].1));
    assert(lookup(entries, ascii("piece length"@)) == Some(entries[2].1));
    assert(lookup(entries, ascii("name"@)) == Some(entries[1].1));
    assert(lookup(entries, ascii("length"@)) == Some(entries[0].1));
    encode_utf8_valid_utf8(info.name);
    encode_utf8_decode_utf8(info.name);
}

/// Reads what the dictionary `value` holds under `key`.
pub fn read_field<'a>(value: &'a Value, key: &[u8]) -> (r: Result<&'a Value, ModelError>)
    ensures
        match field_of(value@, key@) {
            Ok(found) => r matches Ok(v) && v@ == found,
            Err(e) => r matches Err(x) && x == e,
        },
{
    match value {
        Value::Dictionary(_) => match value.get(key) {
            Some(found) => Ok(found),
            None => Err(ModelError::MissingField),
        },
        _ => Err(ModelError::TypeMismatch),
    }
}

/// Reads the byte string that the dictionary `value` holds under `key`.
pub fn read_bytes(value: &Value, key: &[u8]) -> (r: Result<Vec<u8>, ModelError>)
    ensures
        match bytes_of(value@, key@) {
            Ok(bytes) => r matches Ok(b) && b@ == bytes,
            Err(e) => r matches Err(x) && x == e,
        },
{
    match read_field(value, key) {
        Ok(Value::ByteString(bytes)) => Ok(slice_to_vec(bytes.as_slice())),
        Ok(_) => Err(ModelError::TypeMismatch),
        Err(e) => Err(e),
    }
}

/// Reads the text that the dictionary `value` holds under `key`.
pub fn read_text(value: &Value, key: &[u8]) -> (r: Result<String, ModelError>)
    ensures
        match text_of(value@, key@) {
            Ok(text) => r matches Ok(t) && t@ == text,
            Err(e) => r matches Err(x) && x == e,
        },
{
    match read_bytes(value, key) {
        Ok(bytes) => match text_from_utf8(bytes) {
            Some(text) => Ok(text),
            None => Err(ModelError::TypeMismatch),
        },
        Err(e) => Err(e),
    }
}

/// Reads the size that the dictionary `value` holds under `key`.
pub fn read_size(value: &Value, key: &[u8]) -> (r: Result<usize, ModelError>)
    ensures
        match size_of(value@, key@) {
            Ok(size) => r matches Ok(n) && n == size,
            Err(e) => r matches Err(x) && x == e,
        },
{
    match read_field(value, key) {
        Ok(Value::Integer(number)) => {
            if *number < 0 || *number as u64 > usize::MAX as u64 {
                Err(ModelError::TypeMismatch)
            } else {
                Ok(*number as usize)
            }
        },
        Ok(_) => Err(ModelError::TypeMismatch),
        Err(e) => Err(e),
    }
}

impl Info {
    /// Reads an `info` dictionary into its typed form.
    pub fn from_value(value: &Value) -> (r: Result<Info, ModelError>)
        ensures
            match info_of(value@) {
                Ok(info) => r matches Ok(i) && i@ == info,
                Err(e) => r matches Err(x) && x == e,
            },
    {
        proof {
            reveal_strlit("name");
            reveal_strlit("length");
            reveal_strlit("piece length");
            reveal_strlit("pieces");
        }
        let name = match read_text(value, ascii_bytes("name")) {
            Ok(name) => name,
            Err(e) => {
                return Err(e);
            },
        };
        let length = match read_size(value, ascii_bytes("length")) {
            Ok(length) => length,
            Err(e) => {
                return Err(e);
            },
        };
        let piece_length = match read_size(value, ascii_bytes("piece length")) {
            Ok(piece_length) => piece_length,
            Err(e) => {
                return Err(e);
            },
        };
        let pieces = match read_bytes(value, ascii_bytes("pieces")) {
            Ok(pieces) => pieces,
            Err(e) => {
                return Err(e);
            },
        };
        Ok(Info { name, length, piece_length, pieces })
    }

    /// The `info` dictionary that writes this metadata, unless one of the
    /// sizes is too large for a bencoded integer.
    pub fn to_value(&self) -> (r: Result<Value, ModelError>)
        ensures
            match r {
                Ok(value) => encodable(self@) && value@ == info_value(self@),
                Err(e) => !encodable(self@) && e == ModelError::TypeMismatch,
            },
    {
        if self.length as u64 > 0x7fff_ffff_ffff_ffff || self.piece_length as u64
            > 0x7fff_ffff_ffff_ffff {
            return Err(ModelError::TypeMismatch);
        }
        proof {
            reveal_strlit("name");
            reveal_strlit("length");
            reveal_strlit("piece length");
            reveal_strlit("pieces");
        }
        let mut entries: Vec<(Vec<u8>, Value)> = Vec::new();
        entries.push((slice_to_vec(ascii_bytes("length")), Value::Integer(self.length as i64)));
        entries.push(
            (
                slice_to_vec(ascii_bytes("name")),
                Value::ByteString(slice_to_vec(self.name.as_str().as_bytes())),
            ),
        );
        entries.push(
            (
                slice_to_vec(ascii_bytes("piece length")),
                Value::Integer(self.piece_length as i64),
            ),
        );
        entries.push(
            (
                slice_to_vec(ascii_bytes("pieces")),
                Value::ByteString(slice_to_vec(self.pieces.as_slice())),
            ),
        );
        let value = Value::Dictionary(entries);
        proof {
            reveal_with_fuel(model, 2);
            assert(value@->Dictionary_0 =~= info_value(self@)->Dictionary_0);
        }
        Ok(value)
    }

    /// How many pieces the digests stand for.
    pub fn piece_count(&self) -> (count: usize)
        ensures
            count == piece_count(self@),
    {
        self.pieces.len() / 20
    }

    /// Whether this metadata is consistent.
    pub fn is_well_formed(&self) -> (ok: bool)
        ensures
            ok == well_formed(self@),
    {
        if self.piece_length == 0 || self.pieces.len() % 20 != 0 {
            return false;
        }
        let count = self.pieces.len() / 20;
        let quotient = self.length / self.piece_length;
        if self.length % self.piece_length == 0 {
            count == quotient
        } else {
            count > 0 && count - 1 == quotient
        }
    }

    /// The size of the piece `index`, where there is such a piece and
    /// pieces are not empty.
    pub fn piece_size(&self, index: usize) -> (size: Option<usize>)
        ensures
            match size {
                Some(n) => self.piece_length > 0 && index < piece_count(self@) && n == piece_size(
                    self@,
                    index as nat,
                ),
                None => self.piece_length == 0 || index >= piece_count(self@),
            },
    {
        if self.piece_length == 0 || index >= self.pieces.len() / 20 {
            return None;
        }
        if index + 1 < self.pieces.len() / 20 {
            return Some(self.piece_length);
        }
        let remainder = self.length % self.piece_length;
        if remainder == 0 {
            Some(self.piece_length)
        } else {
            Some(remainder)
        }
    }

    /// The recorded digest of the piece `index`, where there is such a
    /// piece.
    pub fn piece_digest(&self, index: usize) -> (digest: Option<[u8; 20]>)
        ensures
            match digest {
                Some(d) => index < piece_count(self@) && d@ == piece_digest(self@, index as nat),
                None => index >= piece_count(self@),
            },
    {
        if index >= self.pieces.len() / 20 {
            return None;
        }
        let start: usize = index * 20;
        let mut digest = [0u8; 20];
        let mut i: usize = 0;
        while i < 20
            invariant
                i <= 20,
                start == index * 20,
                start + 20 <= self.pieces.len(),
                forall|j: int| 0 <= j < i ==> digest[j] == self.pieces[start + j],
            decreases 20 - i,
        {
            digest[i] = self.pieces[start + i];
            i += 1;
        }
        assert(digest@ =~= piece_digest(self@, index as nat));
        Some(digest)
    }
}

impl Torrent {
    /// The info hash as twenty bytes.
    pub fn info_hash_bytes(&self) -> (hash: [u8; 20])
        requires
            encodable(self@.info),
        ensures
            hash@ == info_hash(self@.info),
    {
        match self.info.to_value() {
            Ok(value) => {
                let bytes = value.encode();
                sha1(bytes.as_slice())
            },
            Err(_) => [0u8; 20],
        }
    }

    /// The info hash as forty lowercase hexadecimal digits. Fails with
    /// `TypeMismatch` where a size is too large for a bencoded integer.
    pub fn info_hash_hex(&self) -> (r: Result<String, ModelError>)
        ensures
            match r {
                Ok(hex) => encodable(self@.info) && hex@ == hex_lower(info_hash(self@.info)),
                Err(e) => !encodable(self@.info) && e == ModelError::TypeMismatch,
            },
    {
        let value = match self.info.to_value() {
            Ok(value) => value,
            Err(e) => {
                return Err(e);
            },
        };
        let bytes = value.encode();
        let hash = sha1(bytes.as_slice());
        Ok(hex_encode(hash.as_slice()))
    }

    /// The info hash as a tracker takes it in a URL: each of its bytes as
    /// `%` and two lowercase hexadecimal digits. Fails with `TypeMismatch`
    /// where a size is too large for a bencoded integer.
    pub fn info_hash_url_encoded(&self) -> (r: Result<String, ModelError>)
        ensures
            match r {
                Ok(url_encoded) => encodable(self@.info) && url_encoded@ == percent_encoded(
                    info_hash(self@.info),
                ),
                Err(e) => !encodable(self@.info) && e == ModelError::TypeMismatch,
            },
    {
        let hash = match self.info_hash_hex() {
            Ok(hash) => hash,
            Err(e) => {
                return Err(e);
            },
        };
        proof {
            lemma_percent_of_hex(info_hash(self@.info));
        }
        Ok(percent_prefix(hash.as_str()))
    }

    /// The URL of the first announce: the tracker's URL, `?`, and the query
    /// of a client that has all of the content left to download. Fails with
    /// `TypeMismatch` where a size is too large for a bencoded integer.
    pub fn announce_url(&self) -> (r: Result<String, ModelError>)
        ensures
            match r {
                Ok(url) => encodable(self@.info) && url@ == announce_url(self@),
                Err(e) => !encodable(self@.info) && e == ModelError::TypeMismatch,
            },
    {
        let value = match self.info.to_value() {
            Ok(value) => value,
            Err(e) => {
                return Err(e);
            },
        };
        let hash = sha1(value.encode().as_slice());
        let request = TrackerRequest::new(self.info.length);
        let mut url = self.announce.clone();
        url.append("?");
        url.append(request.query(hash.as_slice()).as_str());
        Ok(url)
    }

    /// The peers that a tracker's reply to the announce lists, in its
    /// order.
    pub fn discover_peers(&self, response: &[u8]) -> (r: Result<Vec<Peer>, TrackerError>)
        ensures
            match response_from_bytes(response@) {
                Ok(answer) => r matches Ok(list) && is_peer_list(answer.peers, list@),
                Err(e) => r matches Err(x) && x == e,
            },
    {
        match TrackerResponse::from_bytes(response) {
            Ok(decoded) => decoded.all_peers(),
            Err(e) => Err(e),
        }
    }

    /// The handshake that this client sends for this torrent under the id
    /// `peer_id`.
    pub fn make_handshake(&self, peer_id: [u8; 20]) -> (message: Vec<u8>)
        requires
            encodable(self@.info),
        ensures
            message@ == handshake(info_hash(self@.info), peer_id@),
            message.len() == 68,
    {
        let hash = self.info_hash_bytes();
        build_handshake(&hash, &peer_id)
    }

    /// Reads a peer's reply to the handshake for this torrent, and returns
    /// the peer's id in lowercase hexadecimal digits. Fails with
    /// `ConnectionClosed` where fewer than 68 bytes arrived, and with
    /// `ProtocolMismatch` where the reply names another torrent.
    pub fn peer_handshake(&self, reply: &[u8]) -> (r: Result<String, NetworkError>)
        requires
            encodable(self@.info),
        ensures
            match handshake_reply(reply@, info_hash(self@.info)) {
                Ok(id) => r matches Ok(hex) && hex@ == hex_lower(id),
                Err(e) => r matches Err(x) && x == e,
            },
    {
        let hash = self.info_hash_bytes();
        match read_handshake(reply, &hash) {
            Ok(id) => Ok(hex_encode(id.as_slice())),
            Err(e) => Err(e),
        }
    }

    /// Starts the download of the piece `piece_index` under this client's
    /// fixed id. There is no download where the sizes of the metadata do not
    /// fit bencoding, where pieces are empty, where there is no such piece,
    /// or where the piece is too large for the 32-bit offsets of the wire
    /// protocol.
    pub fn download_piece(&self, piece_index: u32) -> (r: Option<PieceDownload>)
        ensures
            match download_of(self@, PEER_ID@, piece_index) {
                Some(download) => r matches Some(d) && d@ == download,
                None => r is None,
            },
    {
        if self.info.length as u64 > 0x7fff_ffff_ffff_ffff || self.info.piece_length as u64
            > 0x7fff_ffff_ffff_ffff {
            return None;
        }
        if piece_index as u64 > usize::MAX as u64 {
            return None;
        }
        let index = piece_index as usize;
        let size = match self.info.piece_size(index) {
            Some(size) => size,
            None => {
                return None;
            },
        };
        if size as u64 > 0xffff_ffff {
            return None;
        }
        let expected_hash = match self.info.piece_digest(index) {
            Some(digest) => digest,
            None => {
                return None;
            },
        };
        let info_hash = self.info_hash_bytes();
        PieceDownload::new(info_hash, PEER_ID, piece_index, size as u32, expected_hash)
    }

    /// Reads a torrent's metadata out of the bytes of a torrent file.
    pub fn new(bytes: &[u8]) -> (r: Result<Torrent, TorrentError>)
        ensures
            match torrent_from_bytes(bytes@) {
                Ok(torrent) => r matches Ok(t) && t@ == torrent,
                Err(e) => r matches Err(x) && x == e,
            },
    {
        assert(tail(bytes@, 0) =~= bytes@);
        let value = match BencodedValue::decode_bencoded_value(bytes, 0) {
            Ok((value, _)) => value,
            Err(e) => {
                return Err(TorrentError::Codec(e));
            },
        };
        match Torrent::from_value(&value) {
            Ok(torrent) => Ok(torrent),
            Err(e) => Err(TorrentError::Model(e)),
        }
    }

    /// Reads a torrent's metadata out of the value that a torrent file
    /// holds.
    pub fn from_value(value: &Value) -> (r: Result<Torrent, ModelError>)
        ensures
            match torrent_of(value@) {
                Ok(torrent) => r matches Ok(t) && t@ == torrent,
                Err(e) => r matches Err(x) && x == e,
            },
    {
        proof {
            reveal_strlit("announce");
            reveal_strlit("info");
        }
        let announce = match read_text(value, ascii_bytes("announce")) {
            Ok(announce) => announce,
            Err(e) => {
                return Err(e);
            },
        };
        let info = match read_field(value, ascii_bytes("info")) {
            Ok(info) => info,
            Err(e) => {
                return Err(e);
            },
        };
        match Info::from_value(info) {
            Ok(info) => Ok(Torrent { announce, info }),
            Err(e) => Err(e),
        }
    }
}

} // verus!
