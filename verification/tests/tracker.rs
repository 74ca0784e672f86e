use bittorrent::error::{CodecError, ModelError, TrackerError};
use bittorrent::percent::{percent_encode, percent_prefix};
use bittorrent::text::{append_decimal, ascii_bytes};
use bittorrent::tracker::{Peer, TrackerRequest, TrackerResponse};

#[test]
fn the_first_request_has_the_fixed_parameters() {
    let request = TrackerRequest::new(1000000);
    assert_eq!(
        request.query(&[0x00, 0x12, 0xab, 0xff]),
        "info_hash=%00%12%ab%ff&peer_id=%30%30%31%31%32%32%33%33%34%34%35%35%36%36%37%37%38%38%39%39&port=6881&uploaded=0&downloaded=0&left=1000000&compact=1"
    );
}

#[test]
fn every_parameter_goes_into_the_query() {
    let request =
        TrackerRequest::with_parameters("-X/é".to_string(), 65535, 12, 3456, 0, false);
    assert_eq!(
        request.query(&[]),
        "info_hash=&peer_id=%2d%58%2f%c3%a9&port=65535&uploaded=12&downloaded=3456&left=0&compact=0"
    );
}

#[test]
fn percent_encoding_writes_every_byte_as_two_digits() {
    assert_eq!(percent_encode(&[]), "");
    assert_eq!(percent_encode(&[0]), "%00");
    assert_eq!(percent_encode(b"a~ "), "%61%7e%20");
    assert_eq!(percent_encode(&[0x0f, 0xf0, 0x9a, 0xbc, 0xde]), "%0f%f0%9a%bc%de");
}

#[test]
fn percent_prefix_goes_before_every_pair() {
    assert_eq!(percent_prefix(""), "");
    assert_eq!(percent_prefix("ab"), "%ab");
    assert_eq!(percent_prefix("abcd"), "%ab%cd");
    assert_eq!(percent_prefix("abc"), "%ab%c");
    assert_eq!(percent_prefix("a"), "%a");
}

#[test]
fn decimal_text_is_canonical() {
    let mut text = String::from("n=");
    append_decimal(&mut text, 0);
    text.push(',');
    append_decimal(&mut text, 9);
    text.push(',');
    append_decimal(&mut text, 10);
    text.push(',');
    append_decimal(&mut text, 6881);
    text.push(',');
    append_decimal(&mut text, u64::MAX);
    assert_eq!(text, "n=0,9,10,6881,18446744073709551615");
}

#[test]
fn ascii_bytes_are_the_bytes_of_the_text() {
    assert_eq!(ascii_bytes("piece length"), b"piece length");
    assert_eq!(ascii_bytes(""), b"");
}

fn response(interval: &str, peers: &[u8]) -> Vec<u8> {
    let mut bytes = format!("d8:intervali{}e5:peers{}:", interval, peers.len()).into_bytes();
    bytes.extend_from_slice(peers);
    bytes.push(b'e');
    bytes
}

#[test]
fn reads_a_tracker_answer() {
    let peers = [178, 62, 82, 89, 0xc9, 0x0e, 165, 232, 33, 77, 0xc9, 0x0b];
    let decoded = TrackerResponse::from_bytes(&response("60", &peers)).unwrap();
    assert_eq!(decoded, TrackerResponse { interval: 60, peers: peers.to_vec() });
    assert_eq!(
        decoded.all_peers(),
        Ok(vec![
            Peer { ip: [178, 62, 82, 89], port: 51470 },
            Peer { ip: [165, 232, 33, 77], port: 51467 },
        ])
    );
}

#[test]
fn the_port_is_read_high_byte_first() {
    let list = TrackerResponse { interval: 0, peers: vec![1, 2, 3, 4, 0x01, 0x02] };
    assert_eq!(list.all_peers(), Ok(vec![Peer { ip: [1, 2, 3, 4], port: 258 }]));
    let top = TrackerResponse { interval: 0, peers: vec![255, 255, 255, 255, 255, 255] };
    assert_eq!(
        top.all_peers(),
        Ok(vec![Peer { ip: [255, 255, 255, 255], port: 65535 }])
    );
}

#[test]
fn an_empty_peer_list_has_no_peers() {
    let decoded = TrackerResponse::from_bytes(&response("1800", &[])).unwrap();
    assert_eq!(decoded.interval, 1800);
    assert_eq!(decoded.all_peers(), Ok(vec![]));
}

#[test]
fn a_peer_list_that_is_no_whole_number_of_records_is_truncated() {
    for length in [1usize, 5, 7, 11] {
        let peers = vec![9u8; length];
        assert_eq!(
            TrackerResponse::from_bytes(&response("60", &peers)),
            Err(TrackerError::TruncatedPeerList)
        );
        let list = TrackerResponse { interval: 60, peers };
        assert_eq!(list.all_peers(), Err(TrackerError::TruncatedPeerList));
    }
}

#[test]
fn an_answer_that_lacks_a_field_is_reported() {
    assert_eq!(
        TrackerResponse::from_bytes(b"de"),
        Err(TrackerError::Model(ModelError::MissingField))
    );
    assert_eq!(
        TrackerResponse::from_bytes(b"d8:intervali60ee"),
        Err(TrackerError::Model(ModelError::MissingField))
    );
    assert_eq!(
        TrackerResponse::from_bytes(b"d5:peers0:e"),
        Err(TrackerError::Model(ModelError::MissingField))
    );
    assert_eq!(
        TrackerResponse::from_bytes(b"d14:failure reason4:nopee"),
        Err(TrackerError::Model(ModelError::MissingField))
    );
}

#[test]
fn an_answer_with_a_field_of_the_wrong_form_is_reported() {
    assert_eq!(
        TrackerResponse::from_bytes(b"d8:interval2:605:peers0:e"),
        Err(TrackerError::Model(ModelError::TypeMismatch))
    );
    assert_eq!(
        TrackerResponse::from_bytes(b"d8:intervali-1e5:peers0:e"),
        Err(TrackerError::Model(ModelError::TypeMismatch))
    );
    assert_eq!(
        TrackerResponse::from_bytes(b"d8:intervali60e5:peersld2:ip1:x4:porti1eeee"),
        Err(TrackerError::Model(ModelError::TypeMismatch))
    );
    assert_eq!(
        TrackerResponse::from_bytes(b"i60e"),
        Err(TrackerError::Model(ModelError::TypeMismatch))
    );
}

#[test]
fn an_answer_that_is_no_value_fails_as_the_codec_does() {
    assert_eq!(
        TrackerResponse::from_bytes(b""),
        Err(TrackerError::Codec(CodecError::TruncatedInput))
    );
    assert_eq!(
        TrackerResponse::from_bytes(b"d8:intervali60e5:peers6:abc"),
        Err(TrackerError::Codec(CodecError::TruncatedInput))
    );
    assert_eq!(
        TrackerResponse::from_bytes(b"d8:intervali60"),
        Err(TrackerError::Codec(CodecError::MalformedInteger))
    );
}

#[test]
fn the_address_of_a_peer_is_its_ip_and_port() {
    let peer = Peer { ip: [127, 0, 0, 1], port: 6881 };
    assert_eq!(peer.addr(), ([127, 0, 0, 1], 6881));
}
