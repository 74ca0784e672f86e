//! What encoding and decoding have to do with each other.

use vstd::prelude::*;
use crate::decimal::{decimal, is_digit, lemma_decimal_is_digits, lemma_digit_run_is};
use crate::decoder::{parse_entries, parse_integer, parse_items, parse_string, parse_value};
use crate::encoder::{bencode, bencode_bytes, bencode_entries, bencode_integer, bencode_items};
use crate::error::CodecError;
use crate::value::Bencode;

verus! {

/// What writes a value is not empty and starts with a digit, `i`, `l` or
/// `d`: never with the `e` that closes a list or a dictionary.
pub proof fn lemma_bencode_first_byte(value: Bencode)
    ensures
        bencode(value).len() >= 1,
        bencode(value)[0] != 0x65,
{
    match value {
        Bencode::ByteString(bytes) => {
            lemma_decimal_is_digits(bytes.len());
            assert(bencode(value)[0] == decimal(bytes.len())[0]);
        },
        Bencode::Integer(number) => {},
        Bencode::List(items) => {},
        Bencode::Dictionary(entries) => {},
    }
}

/// A byte string that was written is read back, whatever follows it.
pub proof fn lemma_parse_string_written(bytes: Seq<u8>, rest: Seq<u8>)
    ensures
        parse_string(bencode_bytes(bytes) + rest) == Ok::<(Bencode, nat), CodecError>(
            (Bencode::ByteString(bytes), bencode_bytes(bytes).len()),
        ),
        is_digit((bencode_bytes(bytes) + rest)[0]),
{
    let length = decimal(bytes.len());
    let s = bencode_bytes(bytes) + rest;
    let colon = length.len() as int;
    lemma_decimal_is_digits(bytes.len());
    assert forall|i: int| 0 <= i < colon implies is_digit(#[trigger] s[i]) by {
        assert(s[i] == length[i]);
    }
    assert(s[colon] == 0x3a);
    lemma_digit_run_is(s, colon);
    assert(s.take(colon) =~= length);
    assert(s.subrange(colon + 1, colon + 1 + bytes.len()) =~= bytes);
}

/// An integer that was written is read back, whatever follows it.
pub proof fn lemma_parse_integer_written(number: i64, rest: Seq<u8>)
    ensures
        parse_integer(bencode_integer(number) + rest) == Ok::<(Bencode, nat), CodecError>(
            (Bencode::Integer(number), bencode_integer(number).len()),
        ),
        (bencode_integer(number) + rest)[0] == 0x69,
{
    let s = bencode_integer(number) + rest;
    let negative = number < 0;
    let magnitude: nat = if negative {
        (-number) as nat
    } else {
        number as nat
    };
    let written = decimal(magnitude);
    let start: int = if negative {
        2
    } else {
        1
    };
    lemma_decimal_is_digits(magnitude);
    assert(s.len() > 1);
    assert(s[1] == 0x2d <==> negative) by {
        if !negative {
            assert(s[1] == written[0]);
        }
    }
    let digits = s.skip(start);
    let k = written.len() as int;
    assert forall|i: int| 0 <= i < k implies is_digit(#[trigger] digits[i]) by {
        assert(digits[i] == written[i]);
    }
    assert(digits[k] == 0x65);
    lemma_digit_run_is(digits, k);
    assert(s.subrange(start, start + k) =~= written);
    assert(s[start + k] == 0x65);
}

/// A value that was written is read back, whatever follows it, and as many
/// bytes are read as were written.
pub proof fn lemma_parse_value_written(value: Bencode, rest: Seq<u8>)
    ensures
        parse_value(bencode(value) + rest) == Ok::<(Bencode, nat), CodecError>(
            (value, bencode(value).len()),
        ),
    decreases value,
{
    let s = bencode(value) + rest;
    match value {
        Bencode::ByteString(bytes) => {
            lemma_parse_string_written(bytes, rest);
        },
        Bencode::Integer(number) => {
            lemma_parse_integer_written(number, rest);
        },
        Bencode::List(items) => {
            lemma_parse_items_written(items, rest);
            assert(s[0] == 0x6c);
            assert(s.skip(1) =~= bencode_items(items) + seq![0x65u8] + rest);
        },
        Bencode::Dictionary(entries) => {
            lemma_parse_entries_written(entries, rest);
            assert(s[0] == 0x64);
            assert(s.skip(1) =~= bencode_entries(entries) + seq![0x65u8] + rest);
        },
    }
}

/// The items of a list that were written are read back up to the closing `e`.
pub proof fn lemma_parse_items_written(items: Seq<Bencode>, rest: Seq<u8>)
    ensures
        parse_items(bencode_items(items) + seq![0x65u8] + rest) == Ok::<
            (Seq<Bencode>, nat),
            CodecError,
        >((items, bencode_items(items).len() + 1)),
    decreases items,
{
    let s = bencode_items(items) + seq![0x65u8] + rest;
    if items.len() == 0 {
        assert(s[0] == 0x65);
        assert(items =~= Seq::<Bencode>::empty());
    } else {
        let first = bencode(items[0]);
        let others = items.drop_first();
        let behind = bencode_items(others) + seq![0x65u8] + rest;
        lemma_bencode_first_byte(items[0]);
        assert(s =~= first + behind);
        assert(s[0] == first[0]);
        lemma_parse_value_written(items[0], behind);
        assert(s.skip(first.len() as int) =~= behind);
        lemma_parse_items_written(others, rest);
        assert(seq![items[0]] + others =~= items);
    }
}

/// The entries of a dictionary that were written are read back up to the
/// closing `e`.
pub proof fn lemma_parse_entries_written(entries: Seq<(Seq<u8>, Bencode)>, rest: Seq<u8>)
    ensures
        parse_entries(bencode_entries(entries) + seq![0x65u8] + rest) == Ok::<
            (Seq<(Seq<u8>, Bencode)>, nat),
            CodecError,
        >((entries, bencode_entries(entries).len() + 1)),
    decreases entries,
{
    let s = bencode_entries(entries) + seq![0x65u8] + rest;
    if entries.len() == 0 {
        assert(s[0] == 0x65);
        assert(entries =~= Seq::<(Seq<u8>, Bencode)>::empty());
    } else {
        let key = bencode_bytes(entries[0].0);
        let value = bencode(entries[0].1);
        let others = entries.drop_first();
        let behind = bencode_entries(others) + seq![0x65u8] + rest;
        lemma_parse_string_written(entries[0].0, value + behind);
        assert(s =~= key + (value + behind));
        assert(s[0] != 0x65);
        assert(parse_value(s) == parse_string(s));
        assert(s.skip(key.len() as int) =~= value + behind);
        lemma_parse_value_written(entries[0].1, behind);
        assert(s.skip((key.len() + value.len()) as int) =~= behind);
        lemma_parse_entries_written(others, rest);
        assert(seq![(entries[0].0, entries[0].1)] + others =~= entries);
    }
}

/// Decoding inverts encoding: the bytes that write any value decode to that
/// value, and all of them are read.
pub proof fn lemma_decode_inverts_encode(value: Bencode)
    ensures
        parse_value(bencode(value)) == Ok::<(Bencode, nat), CodecError>(
            (value, bencode(value).len()),
        ),
{
    lemma_parse_value_written(value, Seq::empty());
    assert(bencode(value) + Seq::<u8>::empty() =~= bencode(value));
}

/// Two values that are written alike are the same value.
pub proof fn lemma_bencode_injective(a: Bencode, b: Bencode)
    requires
        bencode(a) == bencode(b),
    ensures
        a == b,
{
    lemma_decode_inverts_encode(a);
    lemma_decode_inverts_encode(b);
}

} // verus!
