//! The exchange with the tracker: the query of an announce request, and the
//! compact list of peers in the tracker's answer.

use vstd::prelude::*;
use vstd::string::StringExecFns;
use vstd::utf8::encode_utf8;
use crate::decoder::{parse_value, tail, BencodedValue};
use crate::error::{ModelError, TrackerError};
use crate::percent::{percent_encode, percent_encoded};
use crate::text::{append_decimal, ascii, ascii_bytes, decimal_text};
use crate::torrent::{bytes_of, read_bytes, read_size, size_of};
use crate::value::Bencode;

verus! {

/// The parameters of an announce request, but for the info hash, as a
/// mathematical object.
pub struct TrackerRequestView {
    /// The identity under which this client announces itself.
    pub peer_id: Seq<char>,
    /// The port on which this client listens.
    pub port: nat,
    /// How many bytes were uploaded so far.
    pub uploaded: nat,
    /// How many bytes were downloaded so far.
    pub downloaded: nat,
    /// How many bytes are still to be downloaded.
    pub left: nat,
    /// Whether the tracker is to answer with the compact peer list.
    pub compact: bool,
}

/// The parameters of an announce request, but for the info hash.
#[derive(Debug, Clone)]
pub struct TrackerRequest {
    peer_id: String,
    port: u16,
    uploaded: usize,
    downloaded: usize,
    left: usize,
    compact: bool,
}

impl View for TrackerRequest {
    type V = TrackerRequestView;

    closed spec fn view(&self) -> TrackerRequestView {
        TrackerRequestView {
            peer_id: self.peer_id@,
            port: self.port as nat,
            uploaded: self.uploaded as nat,
            downloaded: self.downloaded as nat,
            left: self.left as nat,
            compact: self.compact,
        }
    }
}

/// The query of an announce request. The info hash and the peer id go in
/// byte for byte, percent-encoded; the numbers in decimal; `compact` as `1`
/// or `0`.
pub open spec fn announce_query(info_hash: Seq<u8>, request: TrackerRequestView) -> Seq<char> {
    "info_hash="@ + percent_encoded(info_hash) + "&peer_id="@ + percent_encoded(
        encode_utf8(request.peer_id),
    ) + "&port="@ + decimal_text(request.port) + "&uploaded="@ + decimal_text(request.uploaded)
        + "&downloaded="@ + decimal_text(request.downloaded) + "&left="@ + decimal_text(
        request.left,
    ) + "&compact="@ + if request.compact {
        "1"@
    } else {
        "0"@
    }
}

/// The request of a client that has transferred nothing yet and has `left`
/// bytes to download, with this client's fixed identity and port, asking
/// for the compact peer list.
pub open spec fn first_request(left: nat) -> TrackerRequestView {
    TrackerRequestView {
        peer_id: "00112233445566778899"@,
        port: 6881,
        uploaded: 0,
        downloaded: 0,
        left,
        compact: true,
    }
}

impl TrackerRequest {
    /// The request of a client that has transferred nothing yet and has
    /// `left` bytes to download, with this client's fixed identity and
    /// port, asking for the compact peer list.
    pub fn new(left: usize) -> (request: Self)
        ensures
            request@ == first_request(left as nat),
    {
        Self {
            peer_id: String::from_str("00112233445566778899"),
            port: 6881,
            uploaded: 0,
            downloaded: 0,
            left,
            compact: true,
        }
    }

    /// A request with every parameter given.
    pub fn with_parameters(
        peer_id: String,
        port: u16,
        uploaded: usize,
        downloaded: usize,
        left: usize,
        compact: bool,
    ) -> (request: Self)
        ensures
            request@ == (TrackerRequestView {
                peer_id: peer_id@,
                port: port as nat,
                uploaded: uploaded as nat,
                downloaded: downloaded as nat,
                left: left as nat,
                compact,
            }),
    {
        Self { peer_id, port, uploaded, downloaded, left, compact }
    }

    /// The query of this request for the torrent with the hash `info_hash`.
    pub fn query(&self, info_hash: &[u8]) -> (query: String)
        ensures
            query@ == announce_query(info_hash@, self@),
    {
        let mut query = String::from_str("info_hash=");
        query.append(percent_encode(info_hash).as_str());
        query.append("&peer_id=");
        query.append(percent_encode(self.peer_id.as_str().as_bytes()).as_str());
        query.append("&port=");
        append_decimal(&mut query, self.port as u64);
        query.append("&uploaded=");
        append_decimal(&mut query, self.uploaded as u64);
        query.append("&downloaded=");
        append_decimal(&mut query, self.downloaded as u64);
        query.append("&left=");
        append_decimal(&mut query, self.left as u64);
        query.append("&compact=");
        if self.compact {
            query.append("1");
        } else {
            query.append("0");
        }
        query
    }
}

/// The address of a peer: an IPv4 address and a port.
#[derive(Debug, Clone, Copy, PartialEq, Eq)]
pub struct Peer {
    /// The four bytes of the IPv4 address, in network order.
    pub ip: [u8; 4],
    /// The port.
    pub port: u16,
}

impl Peer {
    /// The address and the port.
    pub fn addr(&self) -> (addr: ([u8; 4], u16))
        ensures
            addr == (self.ip, self.port),
    {
        (self.ip, self.port)
    }
}

/// Whether `peer` is what the six bytes at `6 * index` in the compact list
/// `peers` write: four bytes of address, then the port, high byte first.
pub open spec fn is_compact_peer(peers: Seq<u8>, index: int, peer: Peer) -> bool {
    &&& peer.ip@ == peers.subrange(6 * index, 6 * index + 4)
    &&& peer.port == peers[6 * index + 4] * 256 + peers[6 * index + 5]
}

/// Whether `list` holds the peers of the compact list `peers`, one for each
/// record of six bytes and in the same order.
pub open spec fn is_peer_list(peers: Seq<u8>, list: Seq<Peer>) -> bool {
    &&& peers.len() == 6 * list.len()
    &&& forall|i: int| 0 <= i < list.len() ==> is_compact_peer(peers, i, #[trigger] list[i])
}

/// A tracker's answer as a mathematical object.
pub struct TrackerResponseView {
    /// After how many seconds the client should announce again.
    pub interval: nat,
    /// The peers, six bytes each.
    pub peers: Seq<u8>,
}

/// A tracker's answer to an announce request.
#[derive(Debug, Clone, PartialEq, Eq)]
pub struct TrackerResponse {
    /// After how many seconds the client should announce again.
    pub interval: usize,
    /// The peers, six bytes each.
    pub peers: Vec<u8>,
}

impl View for TrackerResponse {
    type V = TrackerResponseView;

    open spec fn view(&self) -> TrackerResponseView {
        TrackerResponseView { interval: self.interval as nat, peers: self.peers@ }
    }
}

/// A tracker's answer in typed form: `interval` is read first, then `peers`,
/// which must be the compact byte string.
pub open spec fn response_of(value: Bencode) -> Result<TrackerResponseView, ModelError> {
    match size_of(value, ascii("interval"@)) {
        Err(e) => Err(e),
        Ok(interval) => match bytes_of(value, ascii("peers"@)) {
            Err(e) => Err(e),
            Ok(peers) => Ok(TrackerResponseView { interval, peers }),
        },
    }
}

/// The answer that the bytes of a tracker's reply write. A peer list that
/// is not a whole number of records is refused.
pub open spec fn response_from_bytes(bytes: Seq<u8>) -> Result<TrackerResponseView, TrackerError> {
    match parse_value(bytes) {
        Err(e) => Err(TrackerError::Codec(e)),
        Ok((value, _)) => match response_of(value) {
            Err(e) => Err(TrackerError::Model(e)),
            Ok(response) => if response.peers.len() % 6 != 0 {
                Err(TrackerError::TruncatedPeerList)
            } else {
                Ok(response)
            },
        },
    }
}

impl TrackerResponse {
    /// Reads a tracker's answer out of the bytes of its reply.
    pub fn from_bytes(bytes: &[u8]) -> (r: Result<TrackerResponse, TrackerError>)
        ensures
            match response_from_bytes(bytes@) {
                Ok(response) => r matches Ok(x) && x@ == response,
                Err(e) => r matches Err(x) && x == e,
            },
    {
        assert(tail(bytes@, 0) =~= bytes@);
        let value = match BencodedValue::decode_bencoded_value(bytes, 0) {
            Ok((value, _)) => value,
            Err(e) => {
                return Err(TrackerError::Codec(e));
            },
        };
        proof {
            reveal_strlit("interval");
            reveal_strlit("peers");
        }
        let interval = match read_size(&value, ascii_bytes("interval")) {
            Ok(interval) => interval,
            Err(e) => {
                return Err(TrackerError::Model(e));
            },
        };
        let peers = match read_bytes(&value, ascii_bytes("peers")) {
            Ok(peers) => peers,
            Err(e) => {
                return Err(TrackerError::Model(e));
            },
        };
        if peers.len() % 6 != 0 {
            return Err(TrackerError::TruncatedPeerList);
        }
        Ok(TrackerResponse { interval, peers })
    }

    /// The peers of the compact list, in its order. Fails with
    /// `TruncatedPeerList` where the list is not a whole number of records.
    pub fn all_peers(&self) -> (r: Result<Vec<Peer>, TrackerError>)
        ensures
            match r {
                Ok(list) => is_peer_list(self.peers@, list@),
                Err(e) => self.peers.len() % 6 != 0 && e == TrackerError::TruncatedPeerList,
            },
    {
        if self.peers.len() % 6 != 0 {
            return Err(TrackerError::TruncatedPeerList);
        }
        let count: usize = self.peers.len() / 6;
        let mut peers: Vec<Peer> = Vec::new();
        let mut i: usize = 0;
        while i < count
            invariant
                i <= count,
                self.peers.len() == 6 * count,
                peers.len() == i,
                forall|j: int| 0 <= j < i ==> is_compact_peer(self.peers@, j, #[trigger] peers[j]),
            decreases count - i,
        {
            let at: usize = 6 * i;
            let ip: [u8; 4] = [
                self.peers[at],
                self.peers[at + 1],
                self.peers[at + 2],
                self.peers[at + 3],
            ];
            let port: u16 = (self.peers[at + 4] as u16) * 256 + self.peers[at + 5] as u16;
            assert(ip@ =~= self.peers@.subrange(6 * i, 6 * i + 4));
            peers.push(Peer { ip, port });
            i += 1;
        }
        Ok(peers)
    }
}

} // verus!
