use base64::engine::general_purpose::STANDARD as B64;
use base64::Engine;
use quicklan::crypto::{
    decrypt_envelope, decrypt_with_key, encrypt_for_peer, encrypt_with_keys, seal_envelope,
    DeviceKeys, EncryptedEnvelope,
};
use rand::Rng;
use x25519_dalek::{PublicKey, StaticSecret};

fn keypair() -> ([u8; 32], [u8; 32]) {
    let mut bytes = [0u8; 32];
    rand::thread_rng().fill(&mut bytes);
    let secret = StaticSecret::from(bytes);
    let public = PublicKey::from(&secret);
    (bytes, public.to_bytes())
}

#[test]
fn roundtrip_between_two_devices() {
    let (alice_secret, alice_public) = keypair();
    let (bob_secret, bob_public) = keypair();
    let bob_pub_b64 = B64.encode(bob_public);
    let message = "你好 QuickLAN，这是一条端到端加密的中文消息！🔒";

    let envelope = encrypt_with_keys(&alice_secret, &alice_public, &bob_pub_b64, message).unwrap();
    assert!(envelope.encrypted);
    assert_eq!(envelope.v, 1);
    assert_ne!(envelope.ciphertext, message);

    let decrypted = decrypt_with_key(&bob_secret, &envelope).unwrap();
    assert_eq!(decrypted, message);
}

#[test]
fn third_party_cannot_decrypt() {
    let (alice_secret, alice_public) = keypair();
    let (_bob_secret, bob_public) = keypair();
    let (mallory_secret, _) = keypair();
    let bob_pub_b64 = B64.encode(bob_public);

    let envelope =
        encrypt_with_keys(&alice_secret, &alice_public, &bob_pub_b64, "secret payload").unwrap();
    assert!(decrypt_with_key(&mallory_secret, &envelope).is_err());
}

#[test]
fn tampered_ciphertext_fails() {
    let (alice_secret, alice_public) = keypair();
    let (bob_secret, bob_public) = keypair();
    let bob_pub_b64 = B64.encode(bob_public);

    let mut envelope = encrypt_with_keys(&alice_secret, &alice_public, &bob_pub_b64, "hello").unwrap();
    let mut raw = B64.decode(&envelope.ciphertext).unwrap();
    raw[0] ^= 0xFF;
    envelope.ciphertext = B64.encode(raw);

    assert!(decrypt_with_key(&bob_secret, &envelope).is_err());
}

// The envelope's serde form belongs to the application crate: the library
// type carries no serde derive, and tests cannot reach the application. These
// two helpers write the same field names by hand, so the test below checks
// the JSON shape of an envelope, not the application's own serializer.
fn envelope_json(envelope: &EncryptedEnvelope) -> serde_json::Value {
    let mut map = serde_json::Map::new();
    map.insert("v".to_string(), serde_json::Value::from(envelope.v));
    map.insert("encrypted".to_string(), serde_json::Value::from(envelope.encrypted));
    map.insert(
        "sender_public_key".to_string(),
        serde_json::Value::from(envelope.sender_public_key.clone()),
    );
    map.insert("nonce".to_string(), serde_json::Value::from(envelope.nonce.clone()));
    map.insert("ciphertext".to_string(), serde_json::Value::from(envelope.ciphertext.clone()));
    serde_json::Value::Object(map)
}

fn envelope_from_json(value: &serde_json::Value) -> EncryptedEnvelope {
    EncryptedEnvelope {
        v: value["v"].as_u64().unwrap() as u8,
        encrypted: value["encrypted"].as_bool().unwrap(),
        sender_public_key: value["sender_public_key"].as_str().unwrap().to_string(),
        nonce: value["nonce"].as_str().unwrap().to_string(),
        ciphertext: value["ciphertext"].as_str().unwrap().to_string(),
    }
}

#[test]
fn envelope_serializes_as_json() {
    let (alice_secret, alice_public) = keypair();
    let (_bob_secret, bob_public) = keypair();
    let bob_pub_b64 = B64.encode(bob_public);

    let envelope = encrypt_with_keys(&alice_secret, &alice_public, &bob_pub_b64, "payload").unwrap();
    let json = serde_json::to_string(&envelope_json(&envelope)).unwrap();
    assert!(json.contains("\"encrypted\":true"));
    let parsed = envelope_from_json(&serde_json::from_str::<serde_json::Value>(&json).unwrap());
    assert!(parsed.encrypted);
}

#[test]
fn device_keys_roundtrip_through_their_public_keys() {
    let alice = DeviceKeys::generate();
    let bob = DeviceKeys::generate();
    let envelope = encrypt_for_peer(&alice, &bob.public_key_b64(), "设备之间的消息").unwrap();
    assert_eq!(envelope.sender_public_key, alice.public_key_b64());
    assert_eq!(decrypt_envelope(&bob, &envelope).unwrap(), "设备之间的消息");
    assert!(decrypt_envelope(&alice, &envelope).is_err());
}

#[test]
fn stored_keys_come_back() {
    let keys = DeviceKeys::generate();
    let stored = keys.stored_form();
    let back = DeviceKeys::from_stored(&format!("  {stored}\n")).unwrap();
    assert_eq!(back.public(), keys.public());
    assert_eq!(back.secret(), keys.secret());
    assert!(DeviceKeys::from_stored("not base64!").is_none());
    assert!(DeviceKeys::from_stored(&B64.encode([1u8; 16])).is_none());
    assert!(DeviceKeys::from_secret(&[7u8; 31]).is_none());
}

#[test]
fn public_key_matches_x25519() {
    let (secret, public) = keypair();
    let keys = DeviceKeys::from_secret(&secret).unwrap();
    assert_eq!(keys.public(), &public[..]);
    assert_eq!(keys.public_key_b64(), B64.encode(public));
}

#[test]
fn sealing_is_fixed_by_the_nonce() {
    let (alice_secret, alice_public) = keypair();
    let (_, bob_public) = keypair();
    let peer = B64.encode(bob_public);
    let nonce = [9u8; 12];
    let a = seal_envelope(&alice_secret, &alice_public, &peer, "same", &nonce).unwrap();
    let b = seal_envelope(&alice_secret, &alice_public, &peer, "same", &nonce).unwrap();
    assert_eq!(a.ciphertext, b.ciphertext);
    assert_eq!(a.nonce, B64.encode(nonce));
    // 4 bytes of text and a 16-byte tag
    assert_eq!(B64.decode(&a.ciphertext).unwrap().len(), 20);
}

#[test]
fn bad_peer_keys_are_refused() {
    let (alice_secret, alice_public) = keypair();
    let err = encrypt_with_keys(&alice_secret, &alice_public, "@@@", "x").unwrap_err();
    assert!(err.starts_with("公钥格式无效: "));
    let short = B64.encode([1u8; 31]);
    let err = encrypt_with_keys(&alice_secret, &alice_public, &short, "x").unwrap_err();
    assert_eq!(err, "公钥长度无效");
}

#[test]
fn broken_envelopes_are_refused_with_their_reason() {
    let (alice_secret, alice_public) = keypair();
    let (bob_secret, bob_public) = keypair();
    let peer = B64.encode(bob_public);
    let good = encrypt_with_keys(&alice_secret, &alice_public, &peer, "x").unwrap();

    let mut e = good.clone();
    e.nonce = "%%%".to_string();
    assert!(decrypt_with_key(&bob_secret, &e).unwrap_err().starts_with("随机数无效: "));

    let mut e = good.clone();
    e.nonce = B64.encode([0u8; 8]);
    assert_eq!(decrypt_with_key(&bob_secret, &e).unwrap_err(), "随机数长度无效");

    let mut e = good.clone();
    e.ciphertext = "%%%".to_string();
    assert!(decrypt_with_key(&bob_secret, &e).unwrap_err().starts_with("密文无效: "));

    let mut e = good.clone();
    e.sender_public_key = B64.encode([3u8; 5]);
    assert_eq!(decrypt_with_key(&bob_secret, &e).unwrap_err(), "公钥长度无效");

    let mut e = good;
    e.ciphertext = B64.encode([1u8; 40]);
    assert_eq!(decrypt_with_key(&bob_secret, &e).unwrap_err(), "解密聊天消息失败");
}

#[test]
fn envelopes_carry_a_twelve_byte_nonce_and_a_tagged_ciphertext() {
    let alice = DeviceKeys::generate();
    let bob = DeviceKeys::generate();
    let message = "加密 QuickLAN";
    let envelope = encrypt_for_peer(&alice, &bob.public_key_b64(), message).unwrap();
    assert_eq!(B64.decode(&envelope.nonce).unwrap().len(), 12);
    assert_eq!(B64.decode(&envelope.ciphertext).unwrap().len(), message.len() + 16);
    assert!(envelope.ciphertext.chars().count() > message.chars().count());
}
