use sha2::{Digest, Sha256};
use vstd::prelude::*;

verus! {

/// The SHA-256 digest of `data`: 32 bytes.
pub uninterp spec fn sha256_of(data: Seq<u8>) -> Seq<u8>;

/// `Sha256::digest` (sha2): the 32-byte SHA-256 digest of `data`.  The
/// contract names the digest and gives its length; nothing else of it.
#[verifier::external_body]
pub(crate) fn sha256_digest(data: &[u8]) -> (r: Vec<u8>)
    ensures
        r@ == sha256_of(data@),
        r@.len() == 32,
{
    Sha256::digest(data).to_vec()
}

/// The lowercase hexadecimal digit for `d` (below 16).
pub open spec fn hex_digit(d: u8) -> char {
    if d < 10 {
        (d + 48) as char
    } else {
        (d + 87) as char
    }
}

/// `bytes` written as lowercase hexadecimal, two digits per byte, as `{:x}`
/// writes a digest.
pub open spec fn hex_of(bytes: Seq<u8>) -> Seq<char>
    decreases bytes.len(),
{
    if bytes.len() == 0 {
        Seq::empty()
    } else {
        hex_of(bytes.drop_last()) + seq![hex_digit(bytes.last() / 16), hex_digit(bytes.last() % 16)]
    }
}

fn hex_char(d: u8) -> (r: char)
    requires
        d < 16,
    ensures
        r == hex_digit(d),
{
    if d < 10 {
        (d + 48) as char
    } else {
        (d + 87) as char
    }
}

/// `bytes` as lowercase hexadecimal text.
pub fn hex_lower(bytes: &[u8]) -> (r: String)
    ensures
        r@ == hex_of(bytes@),
        r@.len() == 2 * bytes@.len(),
{
    let mut out = String::new();
    let mut i: usize = 0;
    while i < bytes.len()
        invariant
            i <= bytes@.len(),
            out@ == hex_of(bytes@.take(i as int)),
            out@.len() == 2 * i,
        decreases bytes@.len() - i,
    {
        let b = bytes[i];
        crate::text::push_char(&mut out, hex_char(b / 16));
        crate::text::push_char(&mut out, hex_char(b % 16));
        proof {
            let s = bytes@.take(i + 1);
            assert(s.drop_last() =~= bytes@.take(i as int));
            assert(s.last() == b);
        }
        i = i + 1;
    }
    assert(bytes@.take(i as int) =~= bytes@);
    out
}

/// The lowercase hexadecimal SHA-256 digest of bytes, as a manifest's or a
/// file's hash is written.
pub fn sha256_hex(data: &[u8]) -> (r: String)
    ensures
        r@ == hex_of(sha256_of(data@)),
        r@.len() == 64,
{
    let digest = sha256_digest(data);
    hex_lower(digest.as_slice())
}

/// The SHA-256 digest of a text's UTF-8 bytes, in lowercase hexadecimal.
pub open spec fn text_digest(s: Seq<char>) -> Seq<char> {
    hex_of(sha256_of(vstd::utf8::encode_utf8(s)))
}

/// The lowercase hexadecimal SHA-256 digest of a text's UTF-8 bytes.
pub fn sha256_text(value: &str) -> (r: String)
    ensures
        r@ == text_digest(value@),
        r@.len() == 64,
{
    let digest = sha256_digest(value.as_bytes());
    hex_lower(digest.as_slice())
}

// ---------------------------------------------------------------------------
// Digests fed piece by piece.
// ---------------------------------------------------------------------------

/// A SHA-256 digest being computed over bytes fed piece by piece, as a file
/// is read or received.  It holds sha2's `Sha256` hasher.
#[verifier::external_body]
pub struct StreamDigest {
    hasher: Sha256,
}

/// The bytes fed to a digest so far, in the order fed.
pub uninterp spec fn digest_fed(d: StreamDigest) -> Seq<u8>;

/// `Sha256::new` (sha2, through `Digest`): a hasher that has been fed
/// nothing.
#[verifier::external_body]
fn hasher_new() -> (r: StreamDigest)
    ensures
        digest_fed(r) == Seq::<u8>::empty(),
{
    StreamDigest { hasher: Sha256::new() }
}

/// `Digest::update` on a `Sha256`: feeds `chunk` after all that was fed
/// before.
#[verifier::external_body]
fn hasher_update(d: &mut StreamDigest, chunk: &[u8])
    ensures
        digest_fed(*final(d)) == digest_fed(*old(d)) + chunk@,
{
    d.hasher.update(chunk);
}

/// `Digest::finalize` on a `Sha256`: the 32-byte SHA-256 digest of all the
/// bytes fed, the same digest `Sha256::digest` gives of them at once.
#[verifier::external_body]
fn hasher_finish(d: StreamDigest) -> (r: Vec<u8>)
    ensures
        r@ == sha256_of(digest_fed(d)),
        r@.len() == 32,
{
    d.hasher.finalize().to_vec()
}

impl StreamDigest {
    /// A digest that has been fed nothing yet.
    pub fn new() -> (r: StreamDigest)
        ensures
            digest_fed(r) == Seq::<u8>::empty(),
    {
        hasher_new()
    }

    /// Feeds the next piece of the bytes.
    pub fn update(&mut self, chunk: &[u8])
        ensures
            digest_fed(*final(self)) == digest_fed(*old(self)) + chunk@,
    {
        hasher_update(self, chunk);
    }

    /// The lowercase hexadecimal SHA-256 digest of all the bytes fed.
    pub fn finish_hex(self) -> (r: String)
        ensures
            r@ == hex_of(sha256_of(digest_fed(self))),
            r@.len() == 64,
    {
        let digest = hasher_finish(self);
        hex_lower(digest.as_slice())
    }
}

} // verus!
