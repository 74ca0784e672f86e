//! Text and bytes: ASCII keys, UTF-8 fields and decimal numbers in a `String`.

use vstd::prelude::*;
use vstd::string::{is_ascii_spec_bytes, StrSliceExecFns, StringExecFns};
use vstd::utf8::{decode_utf8, is_ascii_chars, valid_utf8};
use crate::decimal::{decimal, lemma_decimal_is_digits};

verus! {

/// The bytes of a text, one for each character, for a text that holds
/// nothing but ASCII.
pub open spec fn ascii(text: Seq<char>) -> Seq<u8> {
    Seq::new(text.len(), |i: int| text[i] as u8)
}

/// The characters of a string of bytes, one for each byte.
pub open spec fn latin(bytes: Seq<u8>) -> Seq<char> {
    Seq::new(bytes.len(), |i: int| bytes[i] as char)
}

/// The canonical decimal form of `n` as text.
pub open spec fn decimal_text(n: nat) -> Seq<char> {
    latin(decimal(n))
}

/// The bytes of a text that holds nothing but ASCII.
pub fn ascii_bytes(text: &str) -> (bytes: &[u8])
    requires
        is_ascii_chars(text@),
    ensures
        bytes@ == ascii(text@),
{
    proof {
        is_ascii_spec_bytes(text);
    }
    text.as_bytes()
}

/// Calls `String::from_utf8` of std. Trusted: that it succeeds on the bytes
/// that are valid UTF-8 and on no others, and that the text then holds the
/// characters that those bytes write.
#[verifier::external_body]
pub(crate) fn text_from_utf8(bytes: Vec<u8>) -> (text: Option<String>)
    ensures
        match text {
            Some(t) => valid_utf8(bytes@) && t@ == decode_utf8(bytes@),
            None => !valid_utf8(bytes@),
        },
{
    String::from_utf8(bytes).ok()
}

/// Appends the canonical decimal form of `n` to `text`.
pub fn append_decimal(text: &mut String, n: u64)
    ensures
        final(text)@ == old(text)@ + decimal_text(n as nat),
    decreases n,
{
    if n >= 10 {
        append_decimal(text, n / 10);
    }
    let digit: usize = (n % 10) as usize;
    proof {
        reveal_strlit("0123456789");
    }
    let written = "0123456789".substring_char(digit, digit + 1);
    text.append(written);
    proof {
        lemma_decimal_is_digits(n as nat / 10);
        assert(written@ =~= seq![((0x30 + digit) as u8) as char]);
        assert(final(text)@ =~= old(text)@ + decimal_text(n as nat));
    }
}

} // verus!
