//! Content digests used as cache keys.
//!
//! Cache entries are addressed by the SHA-1 digest of the cache-relevant
//! input bytes, rendered as forty lowercase hex digits.  The hash itself is
//! computed by the `sha1` crate; the hex rendering is verified here.

use vstd::prelude::*;
use sha1::Digest;

verus! {

/// The SHA-1 digest of a byte sequence; the result depends on the bytes
/// alone.
pub uninterp spec fn sha1_of(bytes: Seq<u8>) -> Seq<u8>;

/// Relies on `sha1::Sha1` (through the `digest` crate's `Digest` trait):
/// hashing is a pure function of the input bytes, and a SHA-1 digest is
/// twenty bytes long.
#[verifier::external_body]
fn sha1_bytes(bytes: &[u8]) -> (r: Vec<u8>)
    ensures
        r@ == sha1_of(bytes@),
        r@.len() == 20,
{
    sha1::Sha1::digest(bytes).to_vec()
}

/// The lowercase hex digit for a nibble.
pub open spec fn hex_digit(n: int) -> char {
    if n < 10 {
        ((48 + n) as u8) as char
    } else {
        ((87 + n) as u8) as char
    }
}

/// The lowercase hex rendering of a byte sequence, two digits per byte.
pub open spec fn hex_of(bytes: Seq<u8>) -> Seq<char>
    decreases bytes.len(),
{
    if bytes.len() == 0 {
        Seq::<char>::empty()
    } else {
        hex_of(bytes.drop_last()) + seq![
            hex_digit(bytes.last() as int / 16),
            hex_digit(bytes.last() as int % 16),
        ]
    }
}

/// The cache key for a byte sequence: its SHA-1 digest in lowercase hex.
pub open spec fn digest_of(bytes: Seq<u8>) -> Seq<char> {
    hex_of(sha1_of(bytes))
}

fn hex_digit_exec(n: u8) -> (c: char)
    requires
        n < 16,
    ensures
        c == hex_digit(n as int),
{
    if n < 10 {
        (48 + n) as char
    } else {
        (87 + n) as char
    }
}

/// Renders a byte vector as lowercase hex.
pub fn hex_string(bytes: &Vec<u8>) -> (r: Vec<char>)
    ensures
        r@ == hex_of(bytes@),
{
    let mut r: Vec<char> = Vec::new();
    let mut i: usize = 0;
    while i < bytes.len()
        invariant
            i <= bytes@.len(),
            r@ == hex_of(bytes@.take(i as int)),
        decreases bytes@.len() - i,
    {
        let b = bytes[i];
        r.push(hex_digit_exec(b / 16));
        r.push(hex_digit_exec(b % 16));
        i = i + 1;
        proof {
            let pre = bytes@.take(i as int);
            assert(pre.drop_last() =~= bytes@.take(i - 1));
            assert(pre.last() == bytes@[i - 1]);
            assert(r@ =~= hex_of(pre.drop_last()) + seq![
                hex_digit(pre.last() as int / 16),
                hex_digit(pre.last() as int % 16),
            ]);
        }
    }
    assert(bytes@.take(bytes@.len() as int) =~= bytes@);
    r
}

/// Computes the cache key for a byte slice: the lowercase hex rendering of
/// its SHA-1 digest.
pub fn digest_hex(bytes: &[u8]) -> (r: String)
    ensures
        r@ == digest_of(bytes@),
        r@.len() == 40,
{
    let d = sha1_bytes(bytes);
    proof {
        lemma_hex_of_len(d@);
    }
    let h = hex_string(&d);
    crate::text::chars_string(&h)
}

/// Two hex digits stand for each byte.
proof fn lemma_hex_of_len(bytes: Seq<u8>)
    ensures
        hex_of(bytes).len() == 2 * bytes.len(),
    decreases bytes.len(),
{
    if bytes.len() > 0 {
        lemma_hex_of_len(bytes.drop_last());
    }
}

} // verus!
