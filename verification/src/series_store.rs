//! Names on disk: the subdirectory of a series is the SHA-1 digest of its name,
//! in lowercase hexadecimal.

use sha1::{Digest, Sha1};
use vstd::prelude::*;
use vstd::string::*;
use vstd::utf8::encode_utf8;

verus! {

/// The SHA-1 digest of a byte string.
pub uninterp spec fn sha1_digest(data: Seq<u8>) -> Seq<u8>;

/// `Sha1::digest`: the SHA-1 digest of `data`, which is 20 bytes long.
#[verifier::external_body]
fn sha1_of(data: &[u8]) -> (digest: Vec<u8>)
    ensures
        digest@ == sha1_digest(data@),
        digest@.len() == 20,
{
    Sha1::digest(data).to_vec()
}

/// The sixteen hexadecimal digits, lowercase.
pub open spec fn hex_digits() -> Seq<char> {
    seq!['0', '1', '2', '3', '4', '5', '6', '7', '8', '9', 'a', 'b', 'c', 'd', 'e', 'f']
}

/// Two digits for each byte, the high half first.
pub open spec fn hex_of(bytes: Seq<u8>) -> Seq<char> {
    Seq::new(
        2 * bytes.len(),
        |i: int|
            if i % 2 == 0 {
                hex_digits()[bytes[i / 2] as int / 16]
            } else {
                hex_digits()[bytes[i / 2] as int % 16]
            },
    )
}

/// The name of the subdirectory of the series called `series_name`.
pub open spec fn series_dir_name(series_name: Seq<char>) -> Seq<char> {
    hex_of(sha1_digest(encode_utf8(series_name)))
}

/// Renders `bytes` in lowercase hexadecimal.
pub fn hex(bytes: &[u8]) -> (text: String)
    ensures
        text@ == hex_of(bytes@),
{
    let digits = "0123456789abcdef";
    proof {
        reveal_strlit("0123456789abcdef");
    }
    assert(digits@ =~= hex_digits());
    assert(digits.is_ascii());
    let mut text = String::new();
    let mut at: usize = 0;
    while at < bytes.len()
        invariant
            at <= bytes@.len(),
            digits@ == hex_digits(),
            digits.is_ascii(),
            text@ == hex_of(bytes@.take(at as int)),
        decreases bytes@.len() - at,
    {
        let byte = bytes[at];
        let high: usize = (byte / 16) as usize;
        let low: usize = (byte % 16) as usize;
        let ghost before = text@;
        text.append(digits.substring_ascii(high, high + 1));
        text.append(digits.substring_ascii(low, low + 1));
        assert(text@ =~= before + seq![hex_digits()[high as int], hex_digits()[low as int]]);
        assert(text@ =~= hex_of(bytes@.take(at + 1))) by {
            let longer = bytes@.take(at + 1);
            assert(text@.len() == 2 * longer.len());
            assert forall|i: int| 0 <= i < text@.len() implies text@[i] == hex_of(longer)[i] by {
                if i < 2 * at {
                    assert(text@[i] == hex_of(bytes@.take(at as int))[i]);
                    assert(longer[i / 2] == bytes@.take(at as int)[i / 2]);
                } else {
                    assert(i / 2 == at);
                    assert(longer[i / 2] == byte);
                }
            }
        }
        at += 1;
    }
    assert(bytes@.take(at as int) =~= bytes@);
    text
}

/// The subdirectory of the series called `k`: the SHA-1 digest of the name's
/// UTF-8 bytes, as 40 lowercase hexadecimal digits.
pub fn fmt_key(k: String) -> (name: String)
    ensures
        name@ == series_dir_name(k@),
        name@.len() == 40,
{
    let digest = sha1_of(k.as_str().as_bytes());
    hex(digest.as_slice())
}

} // verus!
