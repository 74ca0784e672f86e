//! Percent-encoding of raw bytes for a URL: every byte becomes `%` and two
//! hexadecimal digits, whatever the byte is.

use vstd::prelude::*;
use vstd::string::{StrSliceExecFns, StringExecFns};
use crate::digest::{hex_digit, hex_encode, hex_lower};

verus! {

/// `text` with a `%` before its first character and before every second
/// one after that.
pub open spec fn with_percent(text: Seq<char>) -> Seq<char> {
    Seq::new(
        text.len() + (text.len() + 1) / 2,
        |j: int|
            if j % 3 == 0 {
                '%'
            } else {
                text[j - j / 3 - 1]
            },
    )
}

/// Each byte of `data` as `%` and its two lowercase hexadecimal digits.
pub open spec fn percent_encoded(data: Seq<u8>) -> Seq<char> {
    Seq::new(
        3 * data.len(),
        |j: int|
            if j % 3 == 0 {
                '%'
            } else if j % 3 == 1 {
                hex_digit(data[j / 3] as int / 16)
            } else {
                hex_digit(data[j / 3] as int % 16)
            },
    )
}

/// A `%` before each pair of hexadecimal digits is the percent-encoding of
/// the bytes that the digits write.
pub proof fn lemma_percent_of_hex(data: Seq<u8>)
    ensures
        with_percent(hex_lower(data)) == percent_encoded(data),
{
    let hex = hex_lower(data);
    let a = with_percent(hex);
    let b = percent_encoded(data);
    assert(a.len() == b.len());
    assert forall|j: int| 0 <= j < a.len() implies a[j] == b[j] by {
        if j % 3 != 0 {
            let i = j - j / 3 - 1;
            assert(0 <= i < hex.len());
            assert(i / 2 == j / 3);
            assert(i % 2 == 0 <==> j % 3 == 1);
        }
    }
    assert(a =~= b);
}

/// Puts a `%` before the first character of `hex` and before every second
/// one after that.
pub fn percent_prefix(hex: &str) -> (url_encoded: String)
    ensures
        url_encoded@ == with_percent(hex@),
{
    let mut url_encoded = String::new();
    let n = hex.unicode_len();
    let mut i: usize = 0;
    proof {
        reveal_strlit("%");
        assert(url_encoded@ =~= with_percent(hex@.take(0)));
    }
    while i < n
        invariant
            i <= n,
            n == hex@.len(),
            "%"@ == seq!['%'],
            url_encoded@ == with_percent(hex@.take(i as int)),
        decreases n - i,
    {
        let ghost before = url_encoded@;
        if i % 2 == 0 {
            url_encoded.append("%");
        }
        url_encoded.append(hex.substring_char(i, i + 1));
        proof {
            let seen = hex@.take(i as int);
            let next = hex@.take(i + 1);
            let target = with_percent(next);
            assert(hex@.subrange(i as int, i + 1) =~= seq![hex@[i as int]]);
            assert(url_encoded@.len() == target.len());
            assert forall|j: int| 0 <= j < target.len() implies url_encoded@[j] == target[j] by {
                if j < before.len() {
                    assert(before[j] == with_percent(seen)[j]);
                    if j % 3 != 0 {
                        assert(seen[j - j / 3 - 1] == next[j - j / 3 - 1]);
                    }
                }
            }
            assert(url_encoded@ =~= target);
        }
        i += 1;
    }
    assert(hex@.take(n as int) =~= hex@);
    url_encoded
}

/// The percent-encoding of `data`, in lowercase hexadecimal digits.
pub fn percent_encode(data: &[u8]) -> (url_encoded: String)
    ensures
        url_encoded@ == percent_encoded(data@),
{
    let hex = hex_encode(data);
    proof {
        lemma_percent_of_hex(data@);
    }
    percent_prefix(hex.as_str())
}

} // verus!
