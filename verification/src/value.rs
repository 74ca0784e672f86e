//! Bencoded values: the executable type and the mathematical value it stands for.

use vstd::prelude::*;
use vstd::slice::slice_to_vec;

verus! {

/// A bencoded value as a mathematical object. Contracts speak of this type.
pub enum Bencode {
    /// A string of bytes.
    ByteString(Seq<u8>),
    /// A signed 64-bit integer.
    Integer(i64),
    /// A sequence of values.
    List(Seq<Bencode>),
    /// Keys with their values, in the order in which they were written.
    Dictionary(Seq<(Seq<u8>, Bencode)>),
}

/// A bencoded value. The codec reads nothing into keys or values: a
/// dictionary keeps its entries as they were written, repeated keys included.
#[derive(Debug, PartialEq, Eq)]
pub enum Value {
    /// A string of bytes.
    ByteString(Vec<u8>),
    /// A signed 64-bit integer.
    Integer(i64),
    /// A sequence of values.
    List(Vec<Value>),
    /// Keys with their values, in the order in which they were written.
    Dictionary(Vec<(Vec<u8>, Value)>),
}

/// The mathematical value that `value` stands for.
pub open spec fn model(value: Value) -> Bencode
    decreases value,
{
    match value {
        Value::ByteString(bytes) => Bencode::ByteString(bytes@),
        Value::Integer(number) => Bencode::Integer(number),
        Value::List(items) => Bencode::List(
            Seq::new(
                items.len() as nat,
                |i: int|
                    if 0 <= i < items.len() {
                        model(items[i])
                    } else {
                        arbitrary()
                    },
            ),
        ),
        Value::Dictionary(entries) => Bencode::Dictionary(
            Seq::new(
                entries.len() as nat,
                |i: int|
                    if 0 <= i < entries.len() {
                        (entries[i].0@, model(entries[i].1))
                    } else {
                        arbitrary()
                    },
            ),
        ),
    }
}

impl View for Value {
    type V = Bencode;

    open spec fn view(&self) -> Bencode {
        model(*self)
    }
}

/// The value of the first entry with the key `key`, if there is one.
pub open spec fn lookup(entries: Seq<(Seq<u8>, Bencode)>, key: Seq<u8>) -> Option<Bencode>
    decreases entries.len(),
{
    if entries.len() == 0 {
        None
    } else if entries[0].0 == key {
        Some(entries[0].1)
    } else {
        lookup(entries.drop_first(), key)
    }
}

/// No entry before the `n`th has the key, so the search goes on from there.
pub proof fn lemma_lookup_skips(entries: Seq<(Seq<u8>, Bencode)>, key: Seq<u8>, n: int)
    requires
        0 <= n <= entries.len(),
        forall|i: int| 0 <= i < n ==> (#[trigger] entries[i]).0 != key,
    ensures
        lookup(entries, key) == lookup(entries.skip(n), key),
    decreases n,
{
    if n == 0 {
        assert(entries.skip(0) =~= entries);
    } else {
        let rest = entries.drop_first();
        assert(entries[0].0 != key);
        assert forall|i: int| 0 <= i < n - 1 implies (#[trigger] rest[i]).0 != key by {
            assert(rest[i] == entries[i + 1]);
        }
        lemma_lookup_skips(rest, key, n - 1);
        assert(rest.skip(n - 1) =~= entries.skip(n));
    }
}

/// Whether two strings of bytes are the same.
pub fn same_bytes(a: &[u8], b: &[u8]) -> (same: bool)
    ensures
        same == (a@ == b@),
{
    if a.len() != b.len() {
        return false;
    }
    let mut i: usize = 0;
    while i < a.len()
        invariant
            i <= a.len(),
            a.len() == b.len(),
            forall|j: int| 0 <= j < i ==> a[j] == b[j],
        decreases a.len() - i,
    {
        if a[i] != b[i] {
            return false;
        }
        i += 1;
    }
    assert(a@ =~= b@);
    true
}

impl Value {
    /// The value under `key`: that of the first entry with this key where
    /// this value is a dictionary that has one, and nothing otherwise.
    pub fn get(&self, key: &[u8]) -> (found: Option<&Value>)
        ensures
            match self@ {
                Bencode::Dictionary(entries) => match lookup(entries, key@) {
                    Some(value) => found matches Some(v) && v@ == value,
                    None => found is None,
                },
                _ => found is None,
            },
    {
        match self {
            Value::Dictionary(entries) => {
                let ghost all = self@->Dictionary_0;
                let mut i: usize = 0;
                while i < entries.len()
                    invariant
                        i <= entries.len(),
                        self@ == Bencode::Dictionary(all),
                        all.len() == entries.len(),
                        forall|j: int|
                            0 <= j < entries.len() ==> #[trigger] all[j] == (
                                entries[j].0@,
                                entries[j].1@,
                            ),
                        forall|j: int| 0 <= j < i ==> (#[trigger] all[j]).0 != key@,
                    decreases entries.len() - i,
                {
                    if same_bytes(entries[i].0.as_slice(), key) {
                        proof {
                            lemma_lookup_skips(all, key@, i as int);
                            let rest = all.skip(i as int);
                            assert(rest[0] == all[i as int]);
                            assert(rest[0].0 == key@);
                            assert(lookup(rest, key@) == Some(rest[0].1));
                        }
                        return Some(&entries[i].1);
                    }
                    i += 1;
                }
                proof {
                    lemma_lookup_skips(all, key@, all.len() as int);
                }
                None
            },
            _ => None,
        }
    }
}

impl Clone for Value {
    /// A copy that stands for the same value.
    fn clone(&self) -> (copy: Value)
        ensures
            copy@ == self@,
        decreases self,
    {
        match self {
            Value::ByteString(bytes) => Value::ByteString(slice_to_vec(bytes.as_slice())),
            Value::Integer(number) => Value::Integer(*number),
            Value::List(items) => {
                let mut copies: Vec<Value> = Vec::new();
                let mut i: usize = 0;
                while i < items.len()
                    invariant
                        i <= items.len(),
                        copies.len() == i,
                        forall|j: int| 0 <= j < i ==> copies[j]@ == items[j]@,
                        forall|j: int| 0 <= j < items.len() ==> decreases_to!(self => items[j]),
                    decreases items.len() - i,
                {
                    copies.push(items[i].clone());
                    i += 1;
                }
                let copy = Value::List(copies);
                assert(copy@->List_0 =~= self@->List_0);
                copy
            },
            Value::Dictionary(entries) => {
                let mut copies: Vec<(Vec<u8>, Value)> = Vec::new();
                let mut i: usize = 0;
                while i < entries.len()
                    invariant
                        i <= entries.len(),
                        copies.len() == i,
                        forall|j: int|
                            0 <= j < i ==> copies[j].0@ == entries[j].0@ && copies[j].1@
                                == entries[j].1@,
                        forall|j: int|
                            0 <= j < entries.len() ==> decreases_to!(self => entries[j].1),
                    decreases entries.len() - i,
                {
                    copies.push((slice_to_vec(entries[i].0.as_slice()), entries[i].1.clone()));
                    i += 1;
                }
                let copy = Value::Dictionary(copies);
                assert(copy@->Dictionary_0 =~= self@->Dictionary_0);
                copy
            },
        }
    }
}

} // verus!
