//! Decoding: from bytes to the value that they write.
//!
//! The grammar is stated by `parse_value` and its helpers, as functions on a
//! sequence of bytes. The executable decoder returns what they define.

use vstd::prelude::*;
use vstd::slice::slice_subrange;
use vstd::slice::slice_to_vec;
use vstd::string::StringSliceAdditionalSpecFns;
use crate::decimal::{digit_run, digits_value, is_digit, lemma_digit_run_is, parse_digits};
use crate::error::CodecError;
use crate::value::{Bencode, Value};

verus! {

/// What is left of `s` from `offset` on; nothing where `offset` lies behind
/// the end.
pub open spec fn tail(s: Seq<u8>, offset: int) -> Seq<u8> {
    if 0 <= offset <= s.len() {
        s.skip(offset)
    } else {
        Seq::empty()
    }
}

/// A byte string at the front of `s`, which starts with a digit: the digits
/// up to `:` give the length, and as many bytes follow. Leading zeros in the
/// length are accepted.
pub open spec fn parse_string(s: Seq<u8>) -> Result<(Bencode, nat), CodecError> {
    let colon = digit_run(s) as int;
    let length = digits_value(s.take(colon)) as int;
    if colon >= s.len() || s[colon] != 0x3a {
        Err(CodecError::MalformedLength)
    } else if s.len() - colon - 1 < length {
        Err(CodecError::TruncatedInput)
    } else {
        Ok(
            (
                Bencode::ByteString(s.subrange(colon + 1, colon + 1 + length)),
                (colon + 1 + length) as nat,
            ),
        )
    }
}

/// An integer at the front of `s`, which starts with `i`: an optional `-`,
/// at least one digit, and `e`. Leading zeros and `-0` are accepted; a
/// number outside 64 bits is not.
pub open spec fn parse_integer(s: Seq<u8>) -> Result<(Bencode, nat), CodecError> {
    let negative = s.len() > 1 && s[1] == 0x2d;
    let start: int = if negative {
        2
    } else {
        1
    };
    let end = start + digit_run(s.skip(start));
    let magnitude = digits_value(s.subrange(start, end)) as int;
    let number = if negative {
        -magnitude
    } else {
        magnitude
    };
    if end == start || end >= s.len() || s[end] != 0x65 || number < i64::MIN || number
        > i64::MAX {
        Err(CodecError::MalformedInteger)
    } else {
        Ok((Bencode::Integer(number as i64), (end + 1) as nat))
    }
}

/// The value at the front of `s`, with the number of bytes that write it.
/// Bytes behind the value are not looked at.
pub open spec fn parse_value(s: Seq<u8>) -> Result<(Bencode, nat), CodecError>
    decreases s.len(), 0nat,
{
    if s.len() == 0 {
        Err(CodecError::TruncatedInput)
    } else if is_digit(s[0]) {
        parse_string(s)
    } else if s[0] == 0x69 {
        parse_integer(s)
    } else if s[0] == 0x6c {
        match parse_items(s.skip(1)) {
            Ok((items, n)) => Ok((Bencode::List(items), n + 1)),
            Err(e) => Err(e),
        }
    } else if s[0] == 0x64 {
        match parse_entries(s.skip(1)) {
            Ok((entries, n)) => Ok((Bencode::Dictionary(entries), n + 1)),
            Err(e) => Err(e),
        }
    } else {
        Err(CodecError::UnknownTag)
    }
}

/// The items of a list up to its closing `e`, with the number of bytes read,
/// the `e` included.
///
/// The tests on `n` are there for the recursion to end. They always hold: a
/// value takes at least one byte and no more than there are
/// (`lemma_parse_consumes`).
pub open spec fn parse_items(s: Seq<u8>) -> Result<(Seq<Bencode>, nat), CodecError>
    decreases s.len(), 1nat,
{
    if s.len() == 0 {
        Err(CodecError::TruncatedInput)
    } else if s[0] == 0x65 {
        Ok((Seq::empty(), 1))
    } else {
        match parse_value(s) {
            Err(e) => Err(e),
            Ok((item, n)) => if 0 < n <= s.len() {
                match parse_items(s.skip(n as int)) {
                    Err(e) => Err(e),
                    Ok((rest, m)) => Ok((seq![item] + rest, n + m)),
                }
            } else {
                Err(CodecError::TruncatedInput)
            },
        }
    }
}

/// The entries of a dictionary up to its closing `e`, with the number of
/// bytes read, the `e` included. A key is read as a value and must turn out
/// to be a byte string.
///
/// The tests on `n` and `m` are there for the recursion to end, as in
/// `parse_items`.
pub open spec fn parse_entries(s: Seq<u8>) -> Result<(Seq<(Seq<u8>, Bencode)>, nat), CodecError>
    decreases s.len(), 1nat,
{
    if s.len() == 0 {
        Err(CodecError::TruncatedInput)
    } else if s[0] == 0x65 {
        Ok((Seq::empty(), 1))
    } else {
        match parse_value(s) {
            Err(e) => Err(e),
            Ok((Bencode::ByteString(key), n)) => if 0 < n <= s.len() {
                match parse_value(s.skip(n as int)) {
                    Err(e) => Err(e),
                    Ok((value, m)) => if n + m <= s.len() {
                        match parse_entries(s.skip((n + m) as int)) {
                            Err(e) => Err(e),
                            Ok((rest, r)) => Ok((seq![(key, value)] + rest, n + m + r)),
                        }
                    } else {
                        Err(CodecError::TruncatedInput)
                    },
                }
            } else {
                Err(CodecError::TruncatedInput)
            },
            Ok(_) => Err(CodecError::NonStringKey),
        }
    }
}

/// Whatever is read takes at least one byte and no more than there are.
pub proof fn lemma_parse_consumes(s: Seq<u8>)
    ensures
        parse_value(s) matches Ok((_, n)) ==> 0 < n <= s.len(),
        parse_items(s) matches Ok((_, n)) ==> 0 < n <= s.len(),
        parse_entries(s) matches Ok((_, n)) ==> 0 < n <= s.len(),
    decreases s.len(),
{
    if s.len() > 0 {
        lemma_parse_consumes(s.skip(1));
        if s[0] != 0x65 {
            if let Ok((_, n)) = parse_value(s) {
                if 0 < n <= s.len() {
                    lemma_parse_consumes(s.skip(n as int));
                    if let Ok((_, m)) = parse_value(s.skip(n as int)) {
                        if n + m <= s.len() {
                            lemma_parse_consumes(s.skip((n + m) as int));
                        }
                    }
                }
            }
        }
    }
}

/// Whether the decoder's result `r` is what the grammar defines.
pub open spec fn decoded(
    r: Result<(Value, usize), CodecError>,
    expected: Result<(Bencode, nat), CodecError>,
) -> bool {
    match expected {
        Ok((value, n)) => r matches Ok((v, consumed)) && v@ == value && consumed == n,
        Err(e) => r matches Err(x) && x == e,
    }
}

/// The mathematical values that the values `items` stand for.
spec fn models(items: Seq<Value>) -> Seq<Bencode> {
    Seq::new(items.len(), |i: int| items[i]@)
}

/// The mathematical entries that the entries `entries` stand for.
spec fn entry_models(entries: Seq<(Vec<u8>, Value)>) -> Seq<(Seq<u8>, Bencode)> {
    Seq::new(entries.len(), |i: int| (entries[i].0@, entries[i].1@))
}

/// What has been read before, followed by what the rest gives.
spec fn after<T>(
    seen: Seq<T>,
    read: nat,
    rest: Result<(Seq<T>, nat), CodecError>,
) -> Result<(Seq<T>, nat), CodecError> {
    match rest {
        Ok((more, n)) => Ok((seen + more, read + n)),
        Err(e) => Err(e),
    }
}

/// A decoded value.
#[derive(Debug, Clone, PartialEq, Eq)]
pub struct BencodedValue {
    /// The value that the input writes.
    pub value: Value,
}

impl BencodedValue {
    /// Decodes the value at the front of `encoded_value`. Bytes behind the
    /// value are ignored; `decode_bencoded_value` tells how many were read.
    pub fn decode(encoded_value: &str) -> (r: Result<BencodedValue, CodecError>)
        ensures
            match parse_value(encoded_value.spec_bytes()) {
                Ok((value, _)) => r matches Ok(decoded) && decoded.value@ == value,
                Err(e) => r matches Err(x) && x == e,
            },
    {
        let bytes = encoded_value.as_bytes();
        assert(tail(bytes@, 0) =~= bytes@);
        match Self::decode_bencoded_value(bytes, 0) {
            Ok((value, _)) => Ok(BencodedValue { value }),
            Err(e) => Err(e),
        }
    }

    /// Decodes the value that starts at `offset` in `input`, and tells how
    /// many bytes write it. An `offset` at or behind the end of the input
    /// gives `TruncatedInput`.
    pub fn decode_bencoded_value(input: &[u8], offset: usize) -> (r: Result<
        (Value, usize),
        CodecError,
    >)
        ensures
            decoded(r, parse_value(tail(input@, offset as int))),
        decreases input.len() - offset, 1nat,
    {
        if offset >= input.len() {
            return Err(CodecError::TruncatedInput);
        }
        let ghost s = input@.skip(offset as int);
        assert(s[0] == input[offset as int]);
        assert(s.skip(1) =~= input@.skip(offset + 1));
        let tag = input[offset];
        if tag >= 0x30 && tag <= 0x39 {
            Self::decode_bencoded_string(input, offset)
        } else if tag == 0x69 {
            Self::decode_bencoded_interger(input, offset)
        } else if tag == 0x6c {
            Self::decode_bencoded_array(input, offset)
        } else if tag == 0x64 {
            Self::decode_bencoded_dictionary(input, offset)
        } else {
            Err(CodecError::UnknownTag)
        }
    }

    /// Decodes the byte string that starts with the digit at `offset`.
    fn decode_bencoded_string(input: &[u8], offset: usize) -> (r: Result<
        (Value, usize),
        CodecError,
    >)
        requires
            offset < input.len(),
            is_digit(input[offset as int]),
        ensures
            decoded(r, parse_string(input@.skip(offset as int))),
    {
        let ghost s = input@.skip(offset as int);
        let mut colon: usize = offset;
        while colon < input.len() && input[colon] >= 0x30 && input[colon] <= 0x39
            invariant
                offset <= colon <= input.len(),
                forall|j: int| offset <= j < colon ==> is_digit(#[trigger] input[j]),
            decreases input.len() - colon,
        {
            colon += 1;
        }
        proof {
            assert forall|j: int| 0 <= j < colon - offset implies is_digit(#[trigger] s[j]) by {
                assert(s[j] == input[offset + j]);
            }
            if colon < input.len() {
                assert(s[colon - offset] == input[colon as int]);
            }
            lemma_digit_run_is(s, colon - offset);
            assert(s.take(colon - offset) =~= input@.subrange(offset as int, colon as int));
        }
        if colon >= input.len() || input[colon] != 0x3a {
            return Err(CodecError::MalformedLength);
        }
        let available: usize = input.len() - colon - 1;
        match parse_digits(input, offset, colon, available as u64) {
            None => Err(CodecError::TruncatedInput),
            Some(length) => {
                let start: usize = colon + 1;
                let end: usize = start + length as usize;
                let bytes = slice_to_vec(slice_subrange(input, start, end));
                assert(bytes@ =~= s.subrange(
                    colon - offset + 1,
                    colon - offset + 1 + length as int,
                ));
                Ok((Value::ByteString(bytes), end - offset))
            },
        }
    }

    /// Decodes the integer that starts with the `i` at `offset`.
    fn decode_bencoded_interger(input: &[u8], offset: usize) -> (r: Result<
        (Value, usize),
        CodecError,
    >)
        requires
            offset < input.len(),
            input[offset as int] == 0x69,
        ensures
            decoded(r, parse_integer(input@.skip(offset as int))),
    {
        let ghost s = input@.skip(offset as int);
        assert(s.len() > 1 ==> s[1] == input[offset + 1]);
        let negative = offset + 1 < input.len() && input[offset + 1] == 0x2d;
        let start: usize = if negative {
            offset + 2
        } else {
            offset + 1
        };
        let ghost digits = s.skip(start - offset);
        assert(digits =~= input@.skip(start as int));
        let mut end: usize = start;
        while end < input.len() && input[end] >= 0x30 && input[end] <= 0x39
            invariant
                start <= end <= input.len(),
                forall|j: int| start <= j < end ==> is_digit(#[trigger] input[j]),
            decreases input.len() - end,
        {
            end += 1;
        }
        proof {
            assert forall|j: int| 0 <= j < end - start implies is_digit(#[trigger] digits[j]) by {
                assert(digits[j] == input[start + j]);
            }
            if end < input.len() {
                assert(digits[end - start] == input[end as int]);
                assert(s[end - offset] == input[end as int]);
            }
            lemma_digit_run_is(digits, end - start);
            assert(s.subrange(start - offset, end - offset) =~= input@.subrange(
                start as int,
                end as int,
            ));
        }
        if end == start || end >= input.len() || input[end] != 0x65 {
            return Err(CodecError::MalformedInteger);
        }
        let limit: u64 = if negative {
            0x8000_0000_0000_0000
        } else {
            0x7fff_ffff_ffff_ffff
        };
        match parse_digits(input, start, end, limit) {
            None => Err(CodecError::MalformedInteger),
            Some(magnitude) => {
                let number: i64 = if !negative {
                    magnitude as i64
                } else if magnitude == 0x8000_0000_0000_0000 {
                    i64::MIN
                } else {
                    -(magnitude as i64)
                };
                Ok((Value::Integer(number), end + 1 - offset))
            },
        }
    }

    /// Decodes the list that starts with the `l` at `offset`.
    fn decode_bencoded_array(input: &[u8], offset: usize) -> (r: Result<
        (Value, usize),
        CodecError,
    >)
        requires
            offset < input.len(),
            input[offset as int] == 0x6c,
        ensures
            decoded(
                r,
                match parse_items(input@.skip(offset + 1)) {
                    Ok((items, n)) => Ok((Bencode::List(items), n + 1)),
                    Err(e) => Err(e),
                },
            ),
        decreases input.len() - offset, 0nat,
    {
        let ghost whole = parse_items(input@.skip(offset + 1));
        let mut result: Vec<Value> = Vec::new();
        let mut read: usize = offset + 1;
        proof {
            match whole {
                Ok((items, n)) => {
                    assert(models(result@) + items =~= items);
                },
                Err(e) => {},
            }
        }
        loop
            invariant
                offset < read <= input.len(),
                whole == parse_items(input@.skip(offset + 1)),
                whole == after(
                    models(result@),
                    (read - offset - 1) as nat,
                    parse_items(input@.skip(read as int)),
                ),
            decreases input.len() - read,
        {
            let ghost s = input@.skip(read as int);
            if read >= input.len() {
                return Err(CodecError::TruncatedInput);
            }
            assert(s[0] == input[read as int]);
            if input[read] == 0x65 {
                proof {
                    assert(models(result@) + Seq::<Bencode>::empty() =~= models(result@));
                    assert(Value::List(result)@->List_0 =~= models(result@));
                }
                return Ok((Value::List(result), read + 1 - offset));
            }
            match Self::decode_bencoded_value(input, read) {
                Err(e) => {
                    return Err(e);
                },
                Ok((value, size)) => {
                    proof {
                        lemma_parse_consumes(s);
                        assert(s.skip(size as int) =~= input@.skip(read + size));
                        let ghost before = models(result@);
                        let ghost now = models(result@.push(value));
                        match parse_items(input@.skip(read + size)) {
                            Ok((rest, m)) => {
                                assert(before + (seq![value@] + rest) =~= now + rest);
                            },
                            Err(e) => {},
                        }
                    }
                    result.push(value);
                    read += size;
                },
            }
        }
    }

    /// Decodes the dictionary that starts with the `d` at `offset`.
    fn decode_bencoded_dictionary(input: &[u8], offset: usize) -> (r: Result<
        (Value, usize),
        CodecError,
    >)
        requires
            offset < input.len(),
            input[offset as int] == 0x64,
        ensures
            decoded(
                r,
                match parse_entries(input@.skip(offset + 1)) {
                    Ok((entries, n)) => Ok((Bencode::Dictionary(entries), n + 1)),
                    Err(e) => Err(e),
                },
            ),
        decreases input.len() - offset, 0nat,
    {
        let ghost whole = parse_entries(input@.skip(offset + 1));
        let mut map: Vec<(Vec<u8>, Value)> = Vec::new();
        let mut read: usize = offset + 1;
        proof {
            match whole {
                Ok((entries, n)) => {
                    assert(entry_models(map@) + entries =~= entries);
                },
                Err(e) => {},
            }
        }
        loop
            invariant
                offset < read <= input.len(),
                whole == parse_entries(input@.skip(offset + 1)),
                whole == after(
                    entry_models(map@),
                    (read - offset - 1) as nat,
                    parse_entries(input@.skip(read as int)),
                ),
            decreases input.len() - read,
        {
            let ghost s = input@.skip(read as int);
            if read >= input.len() {
                return Err(CodecError::TruncatedInput);
            }
            assert(s[0] == input[read as int]);
            if input[read] == 0x65 {
                proof {
                    assert(entry_models(map@) + Seq::<(Seq<u8>, Bencode)>::empty()
                        =~= entry_models(map@));
                    assert(Value::Dictionary(map)@->Dictionary_0 =~= entry_models(map@));
                }
                return Ok((Value::Dictionary(map), read + 1 - offset));
            }
            let (key, key_size) = match Self::decode_bencoded_value(input, read) {
                Err(e) => {
                    return Err(e);
                },
                Ok((Value::ByteString(key), size)) => (key, size),
                Ok(_) => {
                    return Err(CodecError::NonStringKey);
                },
            };
            proof {
                lemma_parse_consumes(s);
                assert(s.skip(key_size as int) =~= input@.skip(read + key_size));
                assert(tail(input@, read + key_size) == input@.skip(read + key_size));
            }
            read += key_size;
            let (value, size) = match Self::decode_bencoded_value(input, read) {
                Err(e) => {
                    return Err(e);
                },
                Ok(found) => found,
            };
            proof {
                lemma_parse_consumes(input@.skip(read as int));
                assert(s.skip(key_size + size) =~= input@.skip(read + size));
                let ghost before = entry_models(map@);
                let ghost now = entry_models(map@.push((key, value)));
                match parse_entries(input@.skip(read + size)) {
                    Ok((rest, m)) => {
                        assert(before + (seq![(key@, value@)] + rest) =~= now + rest);
                    },
                    Err(e) => {},
                }
            }
            map.push((key, value));
            read += size;
        }
    }
}

} // verus!
