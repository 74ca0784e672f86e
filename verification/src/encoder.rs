//! Encoding: from a value to the bytes that write it.

use vstd::prelude::*;
use crate::decimal::{decimal, push_decimal};
use crate::value::{Bencode, Value};

verus! {

/// A byte string is written as its length in decimal, `:`, and its bytes.
pub open spec fn bencode_bytes(bytes: Seq<u8>) -> Seq<u8> {
    decimal(bytes.len()) + seq![0x3au8] + bytes
}

/// An integer is written as `i`, `-` where it is negative, its magnitude in
/// decimal, and `e`.
pub open spec fn bencode_integer(number: i64) -> Seq<u8> {
    if number < 0 {
        seq![0x69u8, 0x2du8] + decimal((-number) as nat) + seq![0x65u8]
    } else {
        seq![0x69u8] + decimal(number as nat) + seq![0x65u8]
    }
}

/// The bytes that write a value. A list is `l`, its items and `e`; a
/// dictionary is `d`, each key followed by its value, and `e`, the entries in
/// the order in which the value holds them.
pub open spec fn bencode(value: Bencode) -> Seq<u8>
    decreases value,
{
    match value {
        Bencode::ByteString(bytes) => bencode_bytes(bytes),
        Bencode::Integer(number) => bencode_integer(number),
        Bencode::List(items) => seq![0x6cu8] + bencode_items(items) + seq![0x65u8],
        Bencode::Dictionary(entries) => seq![0x64u8] + bencode_entries(entries) + seq![0x65u8],
    }
}

/// The items of a list, each written after the other.
pub open spec fn bencode_items(items: Seq<Bencode>) -> Seq<u8>
    decreases items,
{
    if items.len() == 0 {
        Seq::empty()
    } else {
        bencode(items[0]) + bencode_items(items.drop_first())
    }
}

/// The entries of a dictionary, each key written before its value.
pub open spec fn bencode_entries(entries: Seq<(Seq<u8>, Bencode)>) -> Seq<u8>
    decreases entries,
{
    if entries.len() == 0 {
        Seq::empty()
    } else {
        bencode_bytes(entries[0].0) + bencode(entries[0].1) + bencode_entries(
            entries.drop_first(),
        )
    }
}

/// Writing one more item after a list writes the list and then the item.
pub proof fn lemma_bencode_items_push(items: Seq<Bencode>, item: Bencode)
    ensures
        bencode_items(items.push(item)) == bencode_items(items) + bencode(item),
    decreases items.len(),
{
    let all = items.push(item);
    if items.len() == 0 {
        assert(all.drop_first() =~= Seq::<Bencode>::empty());
        assert(bencode_items(all.drop_first()) =~= Seq::<u8>::empty());
        assert(bencode_items(all) =~= bencode(item));
        assert(bencode_items(items) + bencode(item) =~= bencode(item));
    } else {
        lemma_bencode_items_push(items.drop_first(), item);
        assert(all.drop_first() =~= items.drop_first().push(item));
        assert(bencode_items(all) =~= bencode_items(items) + bencode(item));
    }
}

/// Writing one more entry after others writes the others and then the entry.
pub proof fn lemma_bencode_entries_push(
    entries: Seq<(Seq<u8>, Bencode)>,
    key: Seq<u8>,
    value: Bencode,
)
    ensures
        bencode_entries(entries.push((key, value))) == bencode_entries(entries) + bencode_bytes(
            key,
        ) + bencode(value),
    decreases entries.len(),
{
    let all = entries.push((key, value));
    if entries.len() == 0 {
        assert(all.drop_first() =~= Seq::<(Seq<u8>, Bencode)>::empty());
        assert(bencode_entries(all.drop_first()) =~= Seq::<u8>::empty());
        assert(bencode_entries(all) =~= bencode_bytes(key) + bencode(value));
        assert(bencode_entries(entries) + bencode_bytes(key) + bencode(value) =~= bencode_bytes(
            key,
        ) + bencode(value));
    } else {
        lemma_bencode_entries_push(entries.drop_first(), key, value);
        assert(all.drop_first() =~= entries.drop_first().push((key, value)));
        assert(bencode_entries(all) =~= bencode_entries(entries) + bencode_bytes(key) + bencode(
            value,
        ));
    }
}

/// Appends to `out` the bytes that write the byte string `bytes`.
pub fn encode_bytes(bytes: &[u8], out: &mut Vec<u8>)
    ensures
        final(out)@ == old(out)@ + bencode_bytes(bytes@),
{
    push_decimal(out, bytes.len() as u64);
    out.push(0x3a);
    out.extend_from_slice(bytes);
    assert(final(out)@ =~= old(out)@ + bencode_bytes(bytes@));
}

/// Appends to `out` the bytes that write the integer `number`.
pub fn encode_integer(number: i64, out: &mut Vec<u8>)
    ensures
        final(out)@ == old(out)@ + bencode_integer(number),
{
    out.push(0x69);
    if number < 0 {
        out.push(0x2d);
        let magnitude: u64 = if number == i64::MIN {
            0x8000_0000_0000_0000u64
        } else {
            (-number) as u64
        };
        push_decimal(out, magnitude);
    } else {
        push_decimal(out, number as u64);
    }
    out.push(0x65);
    assert(final(out)@ =~= old(out)@ + bencode_integer(number));
}

impl Value {
    /// Appends to `out` the bytes that write this value.
    pub fn encode_into(&self, out: &mut Vec<u8>)
        ensures
            final(out)@ == old(out)@ + bencode(self@),
        decreases self,
    {
        match self {
            Value::ByteString(bytes) => {
                encode_bytes(bytes.as_slice(), out);
            },
            Value::Integer(number) => {
                encode_integer(*number, out);
            },
            Value::List(items) => {
                out.push(0x6c);
                let ghost start = out@;
                let mut i: usize = 0;
                while i < items.len()
                    invariant
                        i <= items.len(),
                        self@ == Bencode::List(self@->List_0),
                        self@->List_0.len() == items.len(),
                        forall|j: int| 0 <= j < items.len() ==> self@->List_0[j] == items[j]@,
                        forall|j: int| 0 <= j < items.len() ==> decreases_to!(self => items[j]),
                        out@ == start + bencode_items(self@->List_0.take(i as int)),
                    decreases items.len() - i,
                {
                    proof {
                        let seen = self@->List_0.take(i as int);
                        lemma_bencode_items_push(seen, items[i as int]@);
                        assert(seen.push(items[i as int]@) =~= self@->List_0.take(i + 1));
                    }
                    items[i].encode_into(out);
                    i += 1;
                }
                out.push(0x65);
                proof {
                    assert(self@->List_0.take(items.len() as int) =~= self@->List_0);
                    assert(final(out)@ =~= old(out)@ + bencode(self@));
                }
            },
            Value::Dictionary(entries) => {
                out.push(0x64);
                let ghost start = out@;
                let mut i: usize = 0;
                while i < entries.len()
                    invariant
                        i <= entries.len(),
                        self@ == Bencode::Dictionary(self@->Dictionary_0),
                        self@->Dictionary_0.len() == entries.len(),
                        forall|j: int|
                            0 <= j < entries.len() ==> self@->Dictionary_0[j] == (
                                entries[j].0@,
                                entries[j].1@,
                            ),
                        forall|j: int|
                            0 <= j < entries.len() ==> decreases_to!(self => entries[j].1),
                        out@ == start + bencode_entries(self@->Dictionary_0.take(i as int)),
                    decreases entries.len() - i,
                {
                    proof {
                        let seen = self@->Dictionary_0.take(i as int);
                        lemma_bencode_entries_push(
                            seen,
                            entries[i as int].0@,
                            entries[i as int].1@,
                        );
                        assert(seen.push((entries[i as int].0@, entries[i as int].1@))
                            =~= self@->Dictionary_0.take(i + 1));
                    }
                    encode_bytes(entries[i].0.as_slice(), out);
                    entries[i].1.encode_into(out);
                    i += 1;
                }
                out.push(0x65);
                proof {
                    assert(self@->Dictionary_0.take(entries.len() as int) =~= self@->Dictionary_0);
                    assert(final(out)@ =~= old(out)@ + bencode(self@));
                }
            },
        }
    }

    /// The bytes that write this value.
    pub fn encode(&self) -> (bytes: Vec<u8>)
        ensures
            bytes@ == bencode(self@),
    {
        let mut out: Vec<u8> = Vec::new();
        self.encode_into(&mut out);
        assert(out@ =~= bencode(self@));
        out
    }
}

} // verus!
