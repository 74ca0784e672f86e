use bittorrent::decimal::{parse_digits, push_decimal};
use bittorrent::decoder::BencodedValue;
use bittorrent::encoder::{encode_bytes, encode_integer};
use bittorrent::error::CodecError;
use bittorrent::value::{same_bytes, Value};
use std::collections::HashMap;

fn text(s: &str) -> Value {
    Value::ByteString(s.as_bytes().to_vec())
}

fn decode(input: &[u8]) -> Result<(Value, usize), CodecError> {
    BencodedValue::decode_bencoded_value(input, 0)
}

#[test]
fn decodes_a_byte_string() {
    assert_eq!(decode(b"5:hello"), Ok((text("hello"), 7)));
}

#[test]
fn decodes_an_integer() {
    assert_eq!(decode(b"i52e"), Ok((Value::Integer(52), 4)));
}

#[test]
fn decodes_a_list() {
    let expected = Value::List(vec![text("hello"), Value::Integer(52)]);
    assert_eq!(decode(b"l5:helloi52ee"), Ok((expected, 13)));
}

#[test]
fn decodes_a_dictionary() {
    let expected = Value::Dictionary(vec![(b"foo".to_vec(), text("bar"))]);
    assert_eq!(decode(b"d3:foo3:bare"), Ok((expected, 12)));
}

#[test]
fn decodes_nested_values() {
    let expected = Value::Dictionary(vec![
        (b"foo".to_vec(), text("bar")),
        (b"hello".to_vec(), Value::Integer(52)),
        (
            b"l".to_vec(),
            Value::List(vec![Value::List(vec![]), Value::Dictionary(vec![])]),
        ),
    ]);
    assert_eq!(
        decode(b"d3:foo3:bar5:helloi52e1:llledeee"),
        Ok((expected, 32))
    );
}

#[test]
fn decodes_empty_containers_and_the_empty_string() {
    assert_eq!(decode(b"le"), Ok((Value::List(vec![]), 2)));
    assert_eq!(decode(b"de"), Ok((Value::Dictionary(vec![]), 2)));
    assert_eq!(decode(b"0:"), Ok((text(""), 2)));
}

#[test]
fn a_short_byte_string_is_truncated() {
    assert_eq!(decode(b"5:hi"), Err(CodecError::TruncatedInput));
}

#[test]
fn a_key_without_a_value_fails() {
    assert_eq!(decode(b"d3:fooe"), Err(CodecError::UnknownTag));
}

#[test]
fn empty_input_is_truncated() {
    assert_eq!(decode(b""), Err(CodecError::TruncatedInput));
    assert_eq!(
        BencodedValue::decode(""),
        Err(CodecError::TruncatedInput)
    );
}

#[test]
fn an_offset_at_or_behind_the_end_is_truncated() {
    assert_eq!(
        BencodedValue::decode_bencoded_value(b"i1e", 3),
        Err(CodecError::TruncatedInput)
    );
    assert_eq!(
        BencodedValue::decode_bencoded_value(b"i1e", 100),
        Err(CodecError::TruncatedInput)
    );
}

#[test]
fn decodes_from_an_offset() {
    assert_eq!(
        BencodedValue::decode_bencoded_value(b"xx5:helloi1e", 2),
        Ok((text("hello"), 7))
    );
    assert_eq!(
        BencodedValue::decode_bencoded_value(b"xx5:helloi1e", 9),
        Ok((Value::Integer(1), 3))
    );
}

#[test]
fn trailing_bytes_are_left_to_the_caller() {
    assert_eq!(decode(b"i52etrailing"), Ok((Value::Integer(52), 4)));
    let decoded = BencodedValue::decode("i52etrailing").unwrap();
    assert_eq!(decoded.value, Value::Integer(52));
}

#[test]
fn decode_gives_the_value_of_decode_bencoded_value() {
    let decoded = BencodedValue::decode("l5:helloi52ee").unwrap();
    assert_eq!(
        decoded,
        BencodedValue {
            value: Value::List(vec![text("hello"), Value::Integer(52)])
        }
    );
    assert_eq!(
        BencodedValue::decode("5:hi"),
        Err(CodecError::TruncatedInput)
    );
}

#[test]
fn a_length_without_colon_is_malformed() {
    assert_eq!(decode(b"5"), Err(CodecError::MalformedLength));
    assert_eq!(decode(b"12"), Err(CodecError::MalformedLength));
    assert_eq!(decode(b"5hello"), Err(CodecError::MalformedLength));
    assert_eq!(decode(b"5a:hello"), Err(CodecError::MalformedLength));
    assert_eq!(decode(b"5-:hello"), Err(CodecError::MalformedLength));
}

#[test]
fn a_length_beyond_every_machine_word_is_truncated() {
    assert_eq!(
        decode(b"99999999999999999999999999999999:x"),
        Err(CodecError::TruncatedInput)
    );
    assert_eq!(
        decode(b"18446744073709551615:x"),
        Err(CodecError::TruncatedInput)
    );
}

#[test]
fn leading_zeros_in_a_length_are_accepted() {
    assert_eq!(decode(b"05:hello"), Ok((text("hello"), 8)));
    assert_eq!(decode(b"000:"), Ok((text(""), 4)));
}

#[test]
fn malformed_integers_are_refused() {
    assert_eq!(decode(b"ie"), Err(CodecError::MalformedInteger));
    assert_eq!(decode(b"i-e"), Err(CodecError::MalformedInteger));
    assert_eq!(decode(b"i"), Err(CodecError::MalformedInteger));
    assert_eq!(decode(b"i-"), Err(CodecError::MalformedInteger));
    assert_eq!(decode(b"i52"), Err(CodecError::MalformedInteger));
    assert_eq!(decode(b"i5x2e"), Err(CodecError::MalformedInteger));
    assert_eq!(decode(b"i+5e"), Err(CodecError::MalformedInteger));
    assert_eq!(decode(b"i--5e"), Err(CodecError::MalformedInteger));
    assert_eq!(decode(b"i5-e"), Err(CodecError::MalformedInteger));
    assert_eq!(decode(b"i 5e"), Err(CodecError::MalformedInteger));
}

#[test]
fn integers_outside_64_bits_are_refused() {
    assert_eq!(
        decode(b"i9223372036854775807e"),
        Ok((Value::Integer(i64::MAX), 21))
    );
    assert_eq!(
        decode(b"i9223372036854775808e"),
        Err(CodecError::MalformedInteger)
    );
    assert_eq!(
        decode(b"i-9223372036854775808e"),
        Ok((Value::Integer(i64::MIN), 22))
    );
    assert_eq!(
        decode(b"i-9223372036854775809e"),
        Err(CodecError::MalformedInteger)
    );
    assert_eq!(
        decode(b"i99999999999999999999999999e"),
        Err(CodecError::MalformedInteger)
    );
}

#[test]
fn leading_zeros_and_minus_zero_are_accepted() {
    assert_eq!(decode(b"i007e"), Ok((Value::Integer(7), 5)));
    assert_eq!(decode(b"i-0e"), Ok((Value::Integer(0), 4)));
    assert_eq!(decode(b"i-007e"), Ok((Value::Integer(-7), 6)));
    assert_eq!(decode(b"i0e"), Ok((Value::Integer(0), 3)));
    let padded = b"i0000000000000000000000000000001e";
    assert_eq!(decode(padded), Ok((Value::Integer(1), padded.len())));
}

#[test]
fn an_unknown_leading_byte_is_refused() {
    assert_eq!(decode(b"x"), Err(CodecError::UnknownTag));
    assert_eq!(decode(b"e"), Err(CodecError::UnknownTag));
    assert_eq!(decode(b"-5:hello"), Err(CodecError::UnknownTag));
    assert_eq!(decode(b"lxe"), Err(CodecError::UnknownTag));
}

#[test]
fn a_key_that_is_no_byte_string_is_refused() {
    assert_eq!(decode(b"di1e3:fooe"), Err(CodecError::NonStringKey));
    assert_eq!(decode(b"dle3:fooe"), Err(CodecError::NonStringKey));
    assert_eq!(decode(b"dde3:fooe"), Err(CodecError::NonStringKey));
}

#[test]
fn a_key_that_is_malformed_fails_as_the_key_does() {
    assert_eq!(decode(b"di1"), Err(CodecError::MalformedInteger));
    assert_eq!(decode(b"d3:fo"), Err(CodecError::TruncatedInput));
}

#[test]
fn unterminated_containers_are_truncated() {
    assert_eq!(decode(b"l"), Err(CodecError::TruncatedInput));
    assert_eq!(decode(b"l5:hello"), Err(CodecError::TruncatedInput));
    assert_eq!(decode(b"d"), Err(CodecError::TruncatedInput));
    assert_eq!(decode(b"d3:foo"), Err(CodecError::TruncatedInput));
    assert_eq!(decode(b"d3:foo3:bar"), Err(CodecError::TruncatedInput));
    assert_eq!(decode(b"lli1e"), Err(CodecError::TruncatedInput));
}

#[test]
fn repeated_keys_are_kept_in_order() {
    let expected = Value::Dictionary(vec![
        (b"a".to_vec(), Value::Integer(1)),
        (b"a".to_vec(), Value::Integer(2)),
    ]);
    assert_eq!(decode(b"d1:ai1e1:ai2ee"), Ok((expected, 14)));
}

#[test]
fn binary_bytes_are_kept_as_they_are() {
    let input = [b'3', b':', 0x00, 0xff, 0x80];
    assert_eq!(
        decode(&input),
        Ok((Value::ByteString(vec![0x00, 0xff, 0x80]), 5))
    );
}

#[test]
fn encodes_each_form() {
    assert_eq!(text("hello").encode(), b"5:hello".to_vec());
    assert_eq!(text("").encode(), b"0:".to_vec());
    assert_eq!(Value::Integer(52).encode(), b"i52e".to_vec());
    assert_eq!(Value::Integer(0).encode(), b"i0e".to_vec());
    assert_eq!(Value::Integer(-7).encode(), b"i-7e".to_vec());
    assert_eq!(
        Value::Integer(i64::MAX).encode(),
        b"i9223372036854775807e".to_vec()
    );
    assert_eq!(
        Value::Integer(i64::MIN).encode(),
        b"i-9223372036854775808e".to_vec()
    );
    assert_eq!(
        Value::List(vec![text("hello"), Value::Integer(52)]).encode(),
        b"l5:helloi52ee".to_vec()
    );
    assert_eq!(
        Value::Dictionary(vec![(b"foo".to_vec(), text("bar"))]).encode(),
        b"d3:foo3:bare".to_vec()
    );
    assert_eq!(Value::List(vec![]).encode(), b"le".to_vec());
    assert_eq!(Value::Dictionary(vec![]).encode(), b"de".to_vec());
}

#[test]
fn encodes_a_length_of_several_digits() {
    assert_eq!(
        text("hello world!").encode(),
        b"12:hello world!".to_vec()
    );
    let long = vec![b'a'; 1000];
    let mut expected = b"1000:".to_vec();
    expected.extend_from_slice(&long);
    assert_eq!(Value::ByteString(long).encode(), expected);
}

#[test]
fn encodes_entries_in_the_order_given() {
    let value = Value::Dictionary(vec![
        (b"zebra".to_vec(), Value::Integer(1)),
        (b"apple".to_vec(), Value::Integer(2)),
    ]);
    assert_eq!(value.encode(), b"d5:zebrai1e5:applei2ee".to_vec());
}

#[test]
fn encode_into_appends() {
    let mut out = b"prefix".to_vec();
    Value::Integer(5).encode_into(&mut out);
    text("ab").encode_into(&mut out);
    assert_eq!(out, b"prefixi5e2:ab".to_vec());
    encode_bytes(b"xyz", &mut out);
    encode_integer(-12, &mut out);
    assert_eq!(out, b"prefixi5e2:ab3:xyzi-12e".to_vec());
}

#[test]
fn decoding_inverts_encoding() {
    let values = vec![
        text(""),
        text("hello"),
        Value::ByteString(vec![0, 1, 2, 255, b'e', b':', b'i']),
        Value::Integer(0),
        Value::Integer(-1),
        Value::Integer(i64::MIN),
        Value::Integer(i64::MAX),
        Value::List(vec![]),
        Value::Dictionary(vec![]),
        Value::List(vec![
            Value::Integer(1),
            Value::List(vec![text("e"), Value::Dictionary(vec![])]),
        ]),
        Value::Dictionary(vec![
            (b"b".to_vec(), Value::List(vec![Value::Integer(-5)])),
            (b"a".to_vec(), text("x")),
            (b"a".to_vec(), Value::Dictionary(vec![(vec![], Value::Integer(3))])),
        ]),
    ];
    for value in values {
        let bytes = value.encode();
        let consumed = bytes.len();
        assert_eq!(decode(&bytes), Ok((value, consumed)));
    }
}

#[test]
fn decoding_inverts_encoding_before_other_bytes() {
    let value = Value::List(vec![text("spam"), Value::Integer(-3)]);
    let mut bytes = value.encode();
    let consumed = bytes.len();
    bytes.extend_from_slice(b"i1e5:other");
    assert_eq!(decode(&bytes), Ok((value, consumed)));
}

#[test]
fn encoding_a_decoded_value_writes_the_canonical_form() {
    let (value, _) = decode(b"li007ei-0e03:abce").unwrap();
    assert_eq!(value.encode(), b"li7ei0e3:abce".to_vec());
}

#[test]
fn get_finds_the_first_entry_with_the_key() {
    let value = Value::Dictionary(vec![
        (b"a".to_vec(), Value::Integer(1)),
        (b"b".to_vec(), Value::Integer(2)),
        (b"a".to_vec(), Value::Integer(3)),
    ]);
    assert_eq!(value.get(b"a"), Some(&Value::Integer(1)));
    assert_eq!(value.get(b"b"), Some(&Value::Integer(2)));
    assert_eq!(value.get(b"c"), None);
    assert_eq!(value.get(b""), None);
    assert_eq!(Value::Integer(1).get(b"a"), None);
    assert_eq!(Value::List(vec![text("a")]).get(b"a"), None);
}

#[test]
fn same_bytes_compares_contents() {
    assert!(same_bytes(b"", b""));
    assert!(same_bytes(b"abc", b"abc"));
    assert!(!same_bytes(b"abc", b"abd"));
    assert!(!same_bytes(b"abc", b"ab"));
    assert!(!same_bytes(b"", b"a"));
}

#[test]
fn push_decimal_writes_the_canonical_form() {
    let mut out = Vec::new();
    push_decimal(&mut out, 0);
    out.push(b',');
    push_decimal(&mut out, 7);
    out.push(b',');
    push_decimal(&mut out, 10);
    out.push(b',');
    push_decimal(&mut out, 1234567890);
    out.push(b',');
    push_decimal(&mut out, u64::MAX);
    assert_eq!(out, b"0,7,10,1234567890,18446744073709551615".to_vec());
}

#[test]
fn parse_digits_reads_up_to_the_limit() {
    assert_eq!(parse_digits(b"x0123y", 1, 5, 1000), Some(123));
    assert_eq!(parse_digits(b"123", 0, 3, 123), Some(123));
    assert_eq!(parse_digits(b"123", 0, 3, 122), None);
    assert_eq!(parse_digits(b"123", 1, 1, 0), Some(0));
    assert_eq!(parse_digits(b"000", 0, 3, 0), Some(0));
    assert_eq!(
        parse_digits(b"18446744073709551615", 0, 20, u64::MAX),
        Some(u64::MAX)
    );
    assert_eq!(parse_digits(b"18446744073709551616", 0, 20, u64::MAX), None);
    assert_eq!(parse_digits(b"9", 0, 1, 8), None);
}

fn outside(value: &Value) -> serde_bencode::value::Value {
    match value {
        Value::ByteString(bytes) => serde_bencode::value::Value::Bytes(bytes.clone()),
        Value::Integer(number) => serde_bencode::value::Value::Int(*number),
        Value::List(items) => serde_bencode::value::Value::List(items.iter().map(outside).collect()),
        Value::Dictionary(entries) => {
            let mut map = HashMap::new();
            for (key, value) in entries {
                map.insert(key.clone(), outside(value));
            }
            serde_bencode::value::Value::Dict(map)
        }
    }
}

#[test]
fn encodes_as_serde_bencode_does_where_keys_ascend() {
    let value = Value::Dictionary(vec![
        (b"info".to_vec(), Value::Dictionary(vec![
            (b"length".to_vec(), Value::Integer(1000000)),
            (b"name".to_vec(), text("sample.txt")),
            (b"piece length".to_vec(), Value::Integer(262144)),
            (b"pieces".to_vec(), Value::ByteString((0u8..80).collect())),
        ])),
        (b"list".to_vec(), Value::List(vec![Value::Integer(-1), text("")])),
    ]);
    let expected = serde_bencode::to_bytes(&outside(&value)).unwrap();
    assert_eq!(value.encode(), expected);
}

#[test]
fn decodes_what_serde_bencode_decodes() {
    let input = b"d4:infod6:lengthi12e4:name1:x12:piece lengthi4e6:pieces0:e4:listli-1e0:ee";
    let (value, consumed) = decode(input).unwrap();
    assert_eq!(consumed, input.len());
    let expected: serde_bencode::value::Value = serde_bencode::from_bytes(input).unwrap();
    assert_eq!(outside(&value), expected);
}

#[test]
fn a_clone_is_the_same_value() {
    let value = Value::Dictionary(vec![
        (b"k".to_vec(), Value::List(vec![Value::Integer(1), text("x")])),
        (b"".to_vec(), Value::Dictionary(vec![])),
    ]);
    assert_eq!(value.clone(), value);
    let decoded = BencodedValue { value };
    assert_eq!(decoded.clone(), decoded);
}
