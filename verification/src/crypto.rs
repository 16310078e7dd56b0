use crate::digest::{sha256_digest, sha256_of};
use crate::text::{is_white_space, trim, trimmed};
use aes_gcm::aead::{Aead, KeyInit};
use aes_gcm::{Aes256Gcm, Key, Nonce};
use base64::engine::general_purpose::STANDARD;
use base64::Engine;
use rand::Rng;
use vstd::prelude::*;
use vstd::string::StringExecFns;
use vstd::utf8::{decode_utf8, encode_utf8, valid_utf8};
use x25519_dalek::{PublicKey, StaticSecret};

verus! {

/// Bytes in an X25519 key, secret or public.
pub const KEY_LEN: usize = 32;

/// Bytes in an AES-GCM nonce.
pub const NONCE_LEN: usize = 12;

/// The most plaintext bytes AES-256-GCM seals in one message (2^36).
pub const MAX_SEALED_LEN: u64 = 68719476736;

// ---------------------------------------------------------------------------
// What the outside primitives return.
// ---------------------------------------------------------------------------

/// The X25519 public key of a 32-byte secret.
pub uninterp spec fn x25519_public_of(secret: Seq<u8>) -> Seq<u8>;

/// The X25519 shared secret of a 32-byte secret and a 32-byte public key.
pub uninterp spec fn x25519_shared_of(secret: Seq<u8>, public: Seq<u8>) -> Seq<u8>;

/// AES-256-GCM's ciphertext (with its tag) of `plaintext` under `key` and `nonce`.
pub uninterp spec fn aes_gcm_seal_of(key: Seq<u8>, nonce: Seq<u8>, plaintext: Seq<u8>) -> Seq<u8>;

/// What AES-256-GCM opens `ciphertext` to under `key` and `nonce`, or `None`
/// when it does not authenticate.
pub uninterp spec fn aes_gcm_open_of(key: Seq<u8>, nonce: Seq<u8>, ciphertext: Seq<u8>) -> Option<
    Seq<u8>,
>;

/// The standard, padded base64 text of `data`.
pub uninterp spec fn base64_of(data: Seq<u8>) -> Seq<char>;

/// What the standard base64 engine decodes `text` to, or the text of its error.
pub uninterp spec fn base64_decode_of(text: Seq<char>) -> Result<Seq<u8>, Seq<char>>;

/// The text of the error that `String::from_utf8` gives for bytes that are not UTF-8.
pub uninterp spec fn utf8_error_of(bytes: Seq<u8>) -> Seq<char>;

/// A character of the standard base64 alphabet, padding included.
pub open spec fn is_base64_symbol(c: char) -> bool {
    ||| ('A' <= c && c <= 'Z')
    ||| ('a' <= c && c <= 'z')
    ||| ('0' <= c && c <= '9')
    ||| c == '+'
    ||| c == '/'
    ||| c == '='
}

/// Text made only of base64 symbols.
pub open spec fn is_base64_text(s: Seq<char>) -> bool {
    forall|i: int| 0 <= i < s.len() ==> is_base64_symbol(#[trigger] s[i])
}

/// `PublicKey::from(&StaticSecret::from(secret))` (x25519-dalek): the public
/// key of a secret.  The contract names it and gives its length.
#[verifier::external_body]
fn x25519_public(secret: &[u8]) -> (r: Vec<u8>)
    requires
        secret@.len() == 32,
    ensures
        r@ == x25519_public_of(secret@),
        r@.len() == 32,
{
    let bytes: [u8; 32] = secret.try_into().unwrap();
    PublicKey::from(&StaticSecret::from(bytes)).to_bytes().to_vec()
}

/// `StaticSecret::diffie_hellman` (x25519-dalek): the shared secret of our
/// secret and their public key.  Besides naming it, the contract states the
/// agreement that the crate documents: when `public` is the public key of
/// some `other` secret, the owner of `other` computes the same shared secret
/// against our public key.
#[verifier::external_body]
fn x25519_shared(secret: &[u8], public: &[u8]) -> (r: Vec<u8>)
    requires
        secret@.len() == 32,
        public@.len() == 32,
    ensures
        r@ == x25519_shared_of(secret@, public@),
        r@.len() == 32,
        forall|other: Seq<u8>|
            other.len() == 32 && #[trigger] x25519_public_of(other) == public@ ==> r@
                == x25519_shared_of(other, x25519_public_of(secret@)),
{
    let ours: [u8; 32] = secret.try_into().unwrap();
    let theirs: [u8; 32] = public.try_into().unwrap();
    StaticSecret::from(ours).diffie_hellman(&PublicKey::from(theirs)).to_bytes().to_vec()
}

/// `Aead::encrypt` of `Aes256Gcm` (aes-gcm): seals `plaintext` under a 32-byte
/// key and a 12-byte nonce, giving the ciphertext with the 16-byte tag
/// appended, so 16 bytes longer than the plaintext.  It fails, with the error
/// text "aead::Error", exactly when the plaintext is longer than 2^36 bytes.
#[verifier::external_body]
fn aes_gcm_seal(key: &[u8], nonce: &[u8], plaintext: &[u8]) -> (r: Result<Vec<u8>, String>)
    requires
        key@.len() == 32,
        nonce@.len() == 12,
    ensures
        match r {
            Ok(c) => plaintext@.len() <= MAX_SEALED_LEN && c@ == aes_gcm_seal_of(
                key@,
                nonce@,
                plaintext@,
            ) && c@.len() == plaintext@.len() + 16,
            Err(e) => plaintext@.len() > MAX_SEALED_LEN && e@ == "aead::Error"@,
        },
{
    let cipher = Aes256Gcm::new(Key::<Aes256Gcm>::from_slice(key));
    cipher.encrypt(Nonce::from_slice(nonce), plaintext).map_err(|err| err.to_string())
}

/// `Aead::decrypt` of `Aes256Gcm` (aes-gcm): opens `ciphertext` under a
/// 32-byte key and a 12-byte nonce.  Besides naming the outcome, the contract
/// states that what was sealed under the same key and nonce opens to the
/// plaintext it was sealed from.
#[verifier::external_body]
fn aes_gcm_open(key: &[u8], nonce: &[u8], ciphertext: &[u8]) -> (r: Option<Vec<u8>>)
    requires
        key@.len() == 32,
        nonce@.len() == 12,
    ensures
        r is None <==> aes_gcm_open_of(key@, nonce@, ciphertext@) is None,
        r matches Some(p) ==> aes_gcm_open_of(key@, nonce@, ciphertext@) == Some(p@),
        forall|p: Seq<u8>|
            p.len() <= MAX_SEALED_LEN && ciphertext@ == #[trigger] aes_gcm_seal_of(key@, nonce@, p)
                ==> r is Some && r->0@ == p,
{
    let cipher = Aes256Gcm::new(Key::<Aes256Gcm>::from_slice(key));
    cipher.decrypt(Nonce::from_slice(nonce), ciphertext).ok()
}

/// `Engine::encode` of base64's `STANDARD` engine: padded base64 text, made of
/// the standard alphabet, four symbols for every three bytes begun (as
/// `encoded_len` with padding gives), which the same engine decodes back to
/// `data`.
#[verifier::external_body]
fn base64_encode(data: &[u8]) -> (r: String)
    ensures
        r@ == base64_of(data@),
        r@.len() == 4 * ((data@.len() + 2) / 3),
        is_base64_text(r@),
        base64_decode_of(r@) is Ok && base64_decode_of(r@)->Ok_0 == data@,
{
    STANDARD.encode(data)
}

/// `Engine::decode` of base64's `STANDARD` engine, its error written as text.
/// Text that the engine encoded from some bytes decodes to those bytes.
#[verifier::external_body]
fn base64_decode(text: &str) -> (r: Result<Vec<u8>, String>)
    ensures
        r matches Ok(v) ==> base64_decode_of(text@) is Ok && base64_decode_of(text@)->Ok_0 == v@,
        r matches Err(e) ==> base64_decode_of(text@) is Err && base64_decode_of(text@)->Err_0 == e@,
        forall|d: Seq<u8>| #[trigger] base64_of(d) == text@ ==> r is Ok && r->Ok_0@ == d,
{
    STANDARD.decode(text).map_err(|err| err.to_string())
}

/// `String::from_utf8`: the text that `bytes` encode when they are UTF-8,
/// else the text of its error.
#[verifier::external_body]
fn utf8_string(bytes: Vec<u8>) -> (r: Result<String, String>)
    ensures
        match r {
            Ok(s) => valid_utf8(bytes@) && s@ == decode_utf8(bytes@),
            Err(e) => !valid_utf8(bytes@) && e@ == utf8_error_of(bytes@),
        },
{
    String::from_utf8(bytes).map_err(|err| err.to_string())
}

/// `Rng::fill` on `rand::thread_rng()`: `n` random bytes; nothing is known
/// of them but their number.
#[verifier::external_body]
fn random_bytes(n: usize) -> (r: Vec<u8>)
    ensures
        r@.len() == n,
{
    let mut bytes = vec![0u8; n];
    rand::thread_rng().fill(&mut bytes[..]);
    bytes
}

// ---------------------------------------------------------------------------
// The envelope and what sealing and opening compute.
// ---------------------------------------------------------------------------

/// A chat message sealed for one peer: the sender's public key, the nonce and
/// the ciphertext, each in base64.
#[derive(Debug, Clone)]
pub struct EncryptedEnvelope {
    pub v: u8,
    pub encrypted: bool,
    pub sender_public_key: String,
    pub nonce: String,
    pub ciphertext: String,
}

pub struct EnvelopeModel {
    pub v: u8,
    pub encrypted: bool,
    pub sender_public_key: Seq<char>,
    pub nonce: Seq<char>,
    pub ciphertext: Seq<char>,
}

impl View for EncryptedEnvelope {
    type V = EnvelopeModel;

    open spec fn view(&self) -> EnvelopeModel {
        EnvelopeModel {
            v: self.v,
            encrypted: self.encrypted,
            sender_public_key: self.sender_public_key@,
            nonce: self.nonce@,
            ciphertext: self.ciphertext@,
        }
    }
}

/// The three texts of an envelope are base64 text.
pub open spec fn envelope_texts_ok(e: EnvelopeModel) -> bool {
    is_base64_text(e.sender_public_key) && is_base64_text(e.nonce) && is_base64_text(e.ciphertext)
}

/// The sizes an envelope sealing `plaintext` has: its nonce decodes to 12
/// bytes, its ciphertext to the plaintext's UTF-8 bytes and a 16-byte tag,
/// and the ciphertext text is longer than the plaintext.
pub open spec fn envelope_sizes(e: EnvelopeModel, plaintext: Seq<char>) -> bool {
    &&& base64_decode_of(e.nonce) is Ok
    &&& base64_decode_of(e.nonce)->Ok_0.len() == 12
    &&& base64_decode_of(e.ciphertext) is Ok
    &&& base64_decode_of(e.ciphertext)->Ok_0.len() == encode_utf8(plaintext).len() + 16
    &&& e.ciphertext.len() > plaintext.len()
}

/// A text's UTF-8 bytes are at least as many as its characters.
proof fn lemma_utf8_len(s: Seq<char>)
    ensures
        encode_utf8(s).len() >= s.len(),
    decreases s.len(),
{
    if s.len() > 0 {
        lemma_utf8_len(s.drop_first());
    }
}

/// The bytes mixed into every session key.
pub open spec fn key_domain() -> Seq<u8> {
    encode_utf8("quicklan-chat-v1"@)
}

/// The AES-256 session key drawn from an X25519 shared secret.
pub open spec fn session_key_of(shared: Seq<u8>) -> Seq<u8> {
    sha256_of(shared + key_domain())
}

/// The public key that a base64 text holds, or the error for it.
pub open spec fn public_key_of_text(text: Seq<char>) -> Result<Seq<u8>, Seq<char>> {
    match base64_decode_of(trim(text)) {
        Err(e) => Err("公钥格式无效: "@ + e),
        Ok(bytes) => if bytes.len() != 32 {
            Err("公钥长度无效"@)
        } else {
            Ok(bytes)
        },
    }
}

/// The envelope that a sender with `secret` and `public` seals `plaintext`
/// in, for the peer whose public key `peer` holds, with `nonce`; or the error.
pub open spec fn sealed(
    secret: Seq<u8>,
    public: Seq<u8>,
    peer: Seq<char>,
    plaintext: Seq<char>,
    nonce: Seq<u8>,
) -> Result<EnvelopeModel, Seq<char>> {
    match public_key_of_text(peer) {
        Err(e) => Err(e),
        Ok(peer_key) => {
            let bytes = encode_utf8(plaintext);
            if bytes.len() > MAX_SEALED_LEN {
                Err("加密聊天消息失败: "@ + "aead::Error"@)
            } else {
                let key = session_key_of(x25519_shared_of(secret, peer_key));
                Ok(
                    EnvelopeModel {
                        v: 1,
                        encrypted: true,
                        sender_public_key: base64_of(public),
                        nonce: base64_of(nonce),
                        ciphertext: base64_of(aes_gcm_seal_of(key, nonce, bytes)),
                    },
                )
            }
        },
    }
}

/// What the holder of `secret` opens an envelope to, or the error.
pub open spec fn opened(secret: Seq<u8>, e: EnvelopeModel) -> Result<Seq<char>, Seq<char>> {
    match public_key_of_text(e.sender_public_key) {
        Err(err) => Err(err),
        Ok(sender) => match base64_decode_of(trim(e.nonce)) {
            Err(err) => Err("随机数无效: "@ + err),
            Ok(nonce) => if nonce.len() != 12 {
                Err("随机数长度无效"@)
            } else {
                match base64_decode_of(trim(e.ciphertext)) {
                    Err(err) => Err("密文无效: "@ + err),
                    Ok(ct) => match aes_gcm_open_of(
                        session_key_of(x25519_shared_of(secret, sender)),
                        nonce,
                        ct,
                    ) {
                        None => Err("解密聊天消息失败"@),
                        Some(p) => if valid_utf8(p) {
                            Ok(decode_utf8(p))
                        } else {
                            Err("解密内容非法: "@ + utf8_error_of(p))
                        },
                    },
                }
            },
        },
    }
}

/// The view of an envelope result.
pub open spec fn envelope_result(r: Result<EncryptedEnvelope, String>) -> Result<
    EnvelopeModel,
    Seq<char>,
> {
    match r {
        Ok(e) => Ok(e@),
        Err(e) => Err(e@),
    }
}

/// The view of a text result.
pub open spec fn text_result(r: Result<String, String>) -> Result<Seq<char>, Seq<char>> {
    match r {
        Ok(s) => Ok(s@),
        Err(e) => Err(e@),
    }
}

proof fn lemma_base64_text_untrimmed(s: Seq<char>)
    requires
        is_base64_text(s),
    ensures
        trim(s) == s,
{
    if s.len() > 0 {
        assert(!is_white_space(s[0]));
        assert(!is_white_space(s.last()));
        assert(s.last() == s[s.len() - 1]);
    }
}

fn prefixed(prefix: &str, rest: &str) -> (r: String)
    ensures
        r@ == prefix@ + rest@,
{
    let mut out = prefix.to_string();
    out.append(rest);
    out
}

/// Decodes a base64 public key, trimmed, that must hold 32 bytes.
fn decode_public_key(encoded: &str) -> (r: Result<Vec<u8>, String>)
    ensures
        match r {
            Ok(k) => public_key_of_text(encoded@) == Ok::<Seq<u8>, Seq<char>>(k@),
            Err(e) => public_key_of_text(encoded@) == Err::<Seq<u8>, Seq<char>>(e@),
        },
        forall|k: Seq<u8>|
            k.len() == 32 && #[trigger] base64_of(k) == trim(encoded@) ==> (r matches Ok(v) && v@
                == k),
{
    let text = trimmed(encoded);
    match base64_decode(text.as_str()) {
        Err(err) => Err(prefixed("公钥格式无效: ", err.as_str())),
        Ok(bytes) => {
            if bytes.len() != KEY_LEN {
                Err("公钥长度无效".to_string())
            } else {
                Ok(bytes)
            }
        },
    }
}

/// The AES-256 session key drawn from a shared secret.
fn session_key(shared: &[u8]) -> (r: Vec<u8>)
    ensures
        r@ == session_key_of(shared@),
        r@.len() == 32,
{
    let mut material = vstd::slice::slice_to_vec(shared);
    let domain = "quicklan-chat-v1".as_bytes();
    let mut i: usize = 0;
    while i < domain.len()
        invariant
            i <= domain@.len(),
            domain@ == key_domain(),
            material@ == shared@ + domain@.take(i as int),
        decreases domain@.len() - i,
    {
        material.push(domain[i]);
        assert(domain@.take(i + 1) =~= domain@.take(i as int).push(domain@[i as int]));
        i = i + 1;
    }
    assert(domain@.take(i as int) =~= domain@);
    sha256_digest(material.as_slice())
}

/// Seals `plaintext` for the peer whose base64 public key is given, with the
/// sender's key pair and the given 12-byte nonce.
pub fn seal_envelope(
    sender_secret: &[u8],
    sender_public: &[u8],
    peer_public_key_b64: &str,
    plaintext: &str,
    nonce: &[u8],
) -> (r: Result<EncryptedEnvelope, String>)
    requires
        sender_secret@.len() == 32,
        nonce@.len() == 12,
    ensures
        envelope_result(r) == sealed(
            sender_secret@,
            sender_public@,
            peer_public_key_b64@,
            plaintext@,
            nonce@,
        ),
        r matches Ok(e) ==> envelope_texts_ok(e@),
        r matches Ok(e) ==> envelope_sizes(e@, plaintext@),
{
    let peer = match decode_public_key(peer_public_key_b64) {
        Ok(k) => k,
        Err(e) => {
            return Err(e);
        },
    };
    let shared = x25519_shared(sender_secret, peer.as_slice());
    let key = session_key(shared.as_slice());
    let bytes = plaintext.as_bytes();
    let ciphertext = match aes_gcm_seal(key.as_slice(), nonce, bytes) {
        Ok(c) => c,
        Err(err) => {
            return Err(prefixed("加密聊天消息失败: ", err.as_str()));
        },
    };
    let sealed_text = base64_encode(ciphertext.as_slice());
    proof {
        let n = plaintext@.len();
        let c = ciphertext@.len();
        lemma_utf8_len(plaintext@);
        assert(4 * ((c + 2) / 3) > n) by (nonlinear_arith)
            requires
                c >= n + 16,
                n >= 0,
        {
            assert(3 * ((c + 2) / 3) >= c);
        }
    }
    Ok(
        EncryptedEnvelope {
            v: 1,
            encrypted: true,
            sender_public_key: base64_encode(sender_public),
            nonce: base64_encode(nonce),
            ciphertext: sealed_text,
        },
    )
}

/// Seals `plaintext` for a peer with the sender's key pair and a fresh
/// random nonce.
pub fn encrypt_with_keys(
    sender_secret: &[u8],
    sender_public: &[u8],
    peer_public_key_b64: &str,
    plaintext: &str,
) -> (r: Result<EncryptedEnvelope, String>)
    requires
        sender_secret@.len() == 32,
    ensures
        exists|nonce: Seq<u8>|
            nonce.len() == 12 && #[trigger] sealed(
                sender_secret@,
                sender_public@,
                peer_public_key_b64@,
                plaintext@,
                nonce,
            ) == envelope_result(r),
        r matches Ok(e) ==> envelope_texts_ok(e@),
        r matches Ok(e) ==> envelope_sizes(e@, plaintext@),
{
    let nonce = random_bytes(NONCE_LEN);
    seal_envelope(sender_secret, sender_public, peer_public_key_b64, plaintext, nonce.as_slice())
}

/// `e` is the envelope that the key pair `sender`, `sender_public` sealed
/// `plaintext` in with `nonce`, for the peer whose public key `peer` holds,
/// and that peer is the holder of `receiver`.
pub open spec fn sealed_for(
    e: EnvelopeModel,
    receiver: Seq<u8>,
    sender: Seq<u8>,
    sender_public: Seq<u8>,
    peer: Seq<char>,
    plaintext: Seq<char>,
    nonce: Seq<u8>,
) -> bool {
    &&& sender.len() == 32
    &&& sender_public.len() == 32
    &&& sender_public == x25519_public_of(sender)
    &&& nonce.len() == 12
    &&& public_key_of_text(peer) == Ok::<Seq<u8>, Seq<char>>(x25519_public_of(receiver))
    &&& sealed(sender, sender_public, peer, plaintext, nonce) == Ok::<EnvelopeModel, Seq<char>>(e)
    &&& envelope_texts_ok(e)
}

proof fn lemma_sealed_parts(
    e: EnvelopeModel,
    receiver: Seq<u8>,
    sender: Seq<u8>,
    sender_public: Seq<u8>,
    peer: Seq<char>,
    plaintext: Seq<char>,
    nonce: Seq<u8>,
)
    requires
        sealed_for(e, receiver, sender, sender_public, peer, plaintext, nonce),
    ensures
        trim(e.sender_public_key) == base64_of(sender_public),
        trim(e.nonce) == base64_of(nonce),
        encode_utf8(plaintext).len() <= MAX_SEALED_LEN,
        trim(e.ciphertext) == base64_of(
            aes_gcm_seal_of(
                session_key_of(x25519_shared_of(sender, x25519_public_of(receiver))),
                nonce,
                encode_utf8(plaintext),
            ),
        ),
{
    lemma_base64_text_untrimmed(e.sender_public_key);
    lemma_base64_text_untrimmed(e.nonce);
    lemma_base64_text_untrimmed(e.ciphertext);
}

/// Opens an envelope with the receiver's secret.  An envelope that a key
/// pair sealed for the public key of this secret opens to the plaintext it
/// was sealed from.
pub fn decrypt_with_key(receiver_secret: &[u8], envelope: &EncryptedEnvelope) -> (r: Result<
    String,
    String,
>)
    requires
        receiver_secret@.len() == 32,
    ensures
        text_result(r) == opened(receiver_secret@, envelope@),
        forall|
            sender: Seq<u8>,
            sender_public: Seq<u8>,
            peer: Seq<char>,
            plaintext: Seq<char>,
            nonce: Seq<u8>,
        |
            #[trigger] sealed_for(
                envelope@,
                receiver_secret@,
                sender,
                sender_public,
                peer,
                plaintext,
                nonce,
            ) ==> text_result(r) == Ok::<Seq<char>, Seq<char>>(plaintext),
{
    let ghost e = envelope@;
    let ghost receiver = receiver_secret@;
    let sender = match decode_public_key(envelope.sender_public_key.as_str()) {
        Ok(k) => k,
        Err(err) => {
            proof {
                assert forall|s: Seq<u8>, sp: Seq<u8>, peer: Seq<char>, p: Seq<char>, n: Seq<u8>|
                    #[trigger] sealed_for(e, receiver, s, sp, peer, p, n) implies false by {
                    lemma_sealed_parts(e, receiver, s, sp, peer, p, n);
                };
            }
            return Err(err);
        },
    };
    let shared = x25519_shared(receiver_secret, sender.as_slice());
    let key = session_key(shared.as_slice());
    let nonce_text = trimmed(envelope.nonce.as_str());
    let nonce = match base64_decode(nonce_text.as_str()) {
        Ok(n) => n,
        Err(err) => {
            proof {
                assert forall|s: Seq<u8>, sp: Seq<u8>, peer: Seq<char>, p: Seq<char>, n: Seq<u8>|
                    #[trigger] sealed_for(e, receiver, s, sp, peer, p, n) implies false by {
                    lemma_sealed_parts(e, receiver, s, sp, peer, p, n);
                };
            }
            return Err(prefixed("随机数无效: ", err.as_str()));
        },
    };
    if nonce.len() != NONCE_LEN {
        proof {
            assert forall|s: Seq<u8>, sp: Seq<u8>, peer: Seq<char>, p: Seq<char>, n: Seq<u8>|
                #[trigger] sealed_for(e, receiver, s, sp, peer, p, n) implies false by {
                lemma_sealed_parts(e, receiver, s, sp, peer, p, n);
            };
        }
        return Err("随机数长度无效".to_string());
    }
    let ct_text = trimmed(envelope.ciphertext.as_str());
    let ciphertext = match base64_decode(ct_text.as_str()) {
        Ok(c) => c,
        Err(err) => {
            proof {
                assert forall|s: Seq<u8>, sp: Seq<u8>, peer: Seq<char>, p: Seq<char>, n: Seq<u8>|
                    #[trigger] sealed_for(e, receiver, s, sp, peer, p, n) implies false by {
                    lemma_sealed_parts(e, receiver, s, sp, peer, p, n);
                };
            }
            return Err(prefixed("密文无效: ", err.as_str()));
        },
    };
    let opened_bytes = aes_gcm_open(key.as_slice(), nonce.as_slice(), ciphertext.as_slice());
    proof {
        assert forall|s: Seq<u8>, sp: Seq<u8>, peer: Seq<char>, p: Seq<char>, n: Seq<u8>|
            #[trigger] sealed_for(e, receiver, s, sp, peer, p, n) implies (opened_bytes matches Some(
            v,
        ) && v@ == encode_utf8(p)) by {
            lemma_sealed_parts(e, receiver, s, sp, peer, p, n);
            assert(sender@ == sp);
            assert(nonce@ == n);
            assert(shared@ == x25519_shared_of(s, x25519_public_of(receiver)));
        };
    }
    let plain = match opened_bytes {
        Some(p) => p,
        None => {
            return Err("解密聊天消息失败".to_string());
        },
    };
    proof {
        broadcast use vstd::utf8::encode_utf8_valid_utf8, vstd::utf8::encode_utf8_decode_utf8;

    }
    match utf8_string(plain) {
        Ok(text) => Ok(text),
        Err(err) => Err(prefixed("解密内容非法: ", err.as_str())),
    }
}

// ---------------------------------------------------------------------------
// A device's key pair.
// ---------------------------------------------------------------------------

/// This device's X25519 key pair.
pub struct DeviceKeys {
    secret: Vec<u8>,
    public: Vec<u8>,
}

impl View for DeviceKeys {
    /// The secret and the public key.
    type V = (Seq<u8>, Seq<u8>);

    closed spec fn view(&self) -> (Seq<u8>, Seq<u8>) {
        (self.secret@, self.public@)
    }
}

impl DeviceKeys {
    #[verifier::type_invariant]
    spec fn keys_match(self) -> bool {
        self.secret@.len() == 32 && self.public@ == x25519_public_of(self.secret@)
            && self.public@.len() == 32
    }

    /// The key pair of a 32-byte secret.
    pub fn from_secret(secret: &[u8]) -> (r: Option<DeviceKeys>)
        ensures
            match r {
                Some(k) => secret@.len() == 32 && k@ == (secret@, x25519_public_of(secret@)),
                None => secret@.len() != 32,
            },
    {
        if secret.len() != KEY_LEN {
            return None;
        }
        let public = x25519_public(secret);
        Some(DeviceKeys { secret: vstd::slice::slice_to_vec(secret), public })
    }

    /// A key pair with a fresh random secret.
    pub fn generate() -> (r: DeviceKeys)
        ensures
            r@.0.len() == 32,
            r@.1 == x25519_public_of(r@.0),
    {
        let secret = random_bytes(KEY_LEN);
        let public = x25519_public(secret.as_slice());
        DeviceKeys { secret, public }
    }

    /// The key pair kept as the base64 text of its secret, as written by
    /// `stored_form`; `None` when the text does not hold 32 bytes.
    pub fn from_stored(encoded: &str) -> (r: Option<DeviceKeys>)
        ensures
            match r {
                Some(k) => base64_decode_of(trim(encoded@)) == Ok::<Seq<u8>, Seq<char>>(k@.0)
                    && k@.0.len() == 32 && k@.1 == x25519_public_of(k@.0),
                None => !(base64_decode_of(trim(encoded@)) matches Ok(b) && b.len() == 32),
            },
    {
        let text = trimmed(encoded);
        match base64_decode(text.as_str()) {
            Ok(bytes) => DeviceKeys::from_secret(bytes.as_slice()),
            Err(_) => None,
        }
    }

    /// The base64 text of the secret, from which `from_stored` gives the
    /// same key pair back.
    pub fn stored_form(&self) -> (r: String)
        ensures
            r@ == base64_of(self@.0),
            base64_decode_of(trim(r@)) == Ok::<Seq<u8>, Seq<char>>(self@.0),
    {
        let r = base64_encode(self.secret.as_slice());
        proof {
            lemma_base64_text_untrimmed(r@);
        }
        r
    }

    /// The secret key's bytes.
    pub fn secret(&self) -> (r: &[u8])
        ensures
            r@ == self@.0,
            r@.len() == 32,
            self@.1 == x25519_public_of(r@),
    {
        proof {
            use_type_invariant(self);
        }
        self.secret.as_slice()
    }

    /// The public key's bytes.
    pub fn public(&self) -> (r: &[u8])
        ensures
            r@ == self@.1,
            r@.len() == 32,
            self@.0.len() == 32,
            r@ == x25519_public_of(self@.0),
    {
        proof {
            use_type_invariant(self);
        }
        self.public.as_slice()
    }

    /// The public key in base64, as devices announce it.
    pub fn public_key_b64(&self) -> (r: String)
        ensures
            r@ == base64_of(self@.1),
            public_key_of_text(r@) == Ok::<Seq<u8>, Seq<char>>(self@.1),
            self@.0.len() == 32,
            self@.1.len() == 32,
            self@.1 == x25519_public_of(self@.0),
    {
        proof {
            use_type_invariant(self);
        }
        let r = base64_encode(self.public.as_slice());
        proof {
            lemma_base64_text_untrimmed(r@);
        }
        r
    }
}

/// Seals `plaintext` with this device's keys for the peer whose base64
/// public key is given.
pub fn encrypt_for_peer(keys: &DeviceKeys, peer_public_key_b64: &str, plaintext: &str) -> (r:
    Result<EncryptedEnvelope, String>)
    ensures
        exists|nonce: Seq<u8>|
            nonce.len() == 12 && #[trigger] sealed(
                keys@.0,
                keys@.1,
                peer_public_key_b64@,
                plaintext@,
                nonce,
            ) == envelope_result(r),
        r matches Ok(e) ==> envelope_texts_ok(e@),
        r matches Ok(e) ==> envelope_sizes(e@, plaintext@),
{
    encrypt_with_keys(keys.secret(), keys.public(), peer_public_key_b64, plaintext)
}

/// Opens an envelope with this device's secret.  An envelope that another
/// key pair sealed for this device's public key opens to its plaintext.
pub fn decrypt_envelope(keys: &DeviceKeys, envelope: &EncryptedEnvelope) -> (r: Result<
    String,
    String,
>)
    ensures
        text_result(r) == opened(keys@.0, envelope@),
        forall|
            sender: Seq<u8>,
            sender_public: Seq<u8>,
            peer: Seq<char>,
            plaintext: Seq<char>,
            nonce: Seq<u8>,
        |
            #[trigger] sealed_for(envelope@, keys@.0, sender, sender_public, peer, plaintext, nonce)
                ==> text_result(r) == Ok::<Seq<char>, Seq<char>>(plaintext),
{
    let secret = keys.secret();
    decrypt_with_key(secret, envelope)
}

} // verus!
