use vstd::prelude::*;

use vstd::string::StringSliceAdditionalSpecFns;

use crate::loader::hex_digit_char;
use crate::text::string_of;

verus! {

/// The SHA-256 digest of a byte string, as `sha2` computes it.
pub uninterp spec fn sha256(bytes: Seq<u8>) -> Seq<u8>;

/// Calls `sha2::Sha256::digest` (the `digest::Digest` trait) on `bytes`.
/// Claimed: the result is the SHA-256 digest of exactly these bytes, and the
/// output size of `Sha256` is 32 bytes.
#[verifier::external_body]
fn sha256_digest(bytes: &[u8]) -> (r: Vec<u8>)
    ensures
        r@ == sha256(bytes@),
        r@.len() == 32,
{
    <sha2::Sha256 as sha2::Digest>::digest(bytes).to_vec()
}

/// Each byte as two lower-case hexadecimal digits, in order.
pub open spec fn hex_text(bytes: Seq<u8>) -> Seq<char>
    decreases bytes.len(),
{
    if bytes.len() == 0 {
        Seq::empty()
    } else {
        hex_text(bytes.drop_last()) + seq![
            hex_digit_char((bytes.last() / 16) as nat),
            hex_digit_char((bytes.last() % 16) as nat),
        ]
    }
}

fn hex_digit(d: u8) -> (c: char)
    requires
        d < 16,
    ensures
        c == hex_digit_char(d as nat),
{
    if d < 10 {
        ((48u8 + d) as char)
    } else {
        ((87u8 + d) as char)
    }
}

/// The bytes in lower-case hexadecimal, two digits each.
pub fn hex(bytes: &[u8]) -> (r: String)
    ensures
        r@ == hex_text(bytes@),
{
    let mut out: Vec<char> = Vec::new();
    let mut i: usize = 0;
    while i < bytes.len()
        invariant
            i <= bytes.len(),
            out@ == hex_text(bytes@.take(i as int)),
        decreases bytes.len() - i,
    {
        let b = bytes[i];
        let ghost next = bytes@.take(i + 1);
        assert(next.drop_last() =~= bytes@.take(i as int));
        assert(next.last() == b);
        out.push(hex_digit(b / 16));
        out.push(hex_digit(b % 16));
        assert(out@ =~= hex_text(next));
        i = i + 1;
    }
    assert(bytes@.take(bytes.len() as int) =~= bytes@);
    string_of(&out)
}

/// Fingerprints text and files with SHA-256.
#[derive(Clone, Copy, Debug, Default)]
pub struct Sha256Fingerprinter;

impl Sha256Fingerprinter {
    /// The digest of a text's UTF-8 bytes, in hexadecimal.
    pub fn digest(&self, text: &str) -> (r: String)
        ensures
            r@ == hex_text(sha256(text.spec_bytes())),
            r@.len() == 64,
    {
        digest_bytes(text.as_bytes())
    }
}

/// The digest of some bytes, in hexadecimal: what a file's fingerprint is
/// made of once the file was read.
pub fn digest_bytes(bytes: &[u8]) -> (r: String)
    ensures
        r@ == hex_text(sha256(bytes@)),
        r@.len() == 64,
{
    let d = sha256_digest(bytes);
    let r = hex(&d);
    proof {
        lemma_hex_len(d@);
    }
    r
}

/// Two digits per byte.
pub proof fn lemma_hex_len(bytes: Seq<u8>)
    ensures
        hex_text(bytes).len() == 2 * bytes.len(),
    decreases bytes.len(),
{
    if bytes.len() > 0 {
        lemma_hex_len(bytes.drop_last());
    }
}

} // verus!
