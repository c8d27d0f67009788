//! Identifiers and key exchange.

use aggligator::id::{ConnId, EncryptedConnId, LinkId, ServerId};
use aggligator::key::SecretKey;

#[test]
fn identifiers_are_written_as_hexadecimal() {
    assert_eq!(ConnId(0xab).text(), "00000000000000ab");
    assert_eq!(LinkId(0x1234_5678_9abc_def0).text(), "123456789abcdef0");
    assert_eq!(ServerId(0x1_0000_0000_0000_0000).text(), "10000000000000000");
    assert_eq!(ConnId(0).text(), "0000000000000000");
    assert_eq!(ConnId(u128::MAX).text(), "ffffffffffffffffffffffffffffffff");
}

#[test]
fn generated_identifiers_differ() {
    assert_ne!(ConnId::generate(), ConnId::generate());
    assert_ne!(LinkId::generate(), LinkId::generate());
    let server_id = ServerId::generate();
    assert_ne!(server_id, ServerId::generate());
    assert_ne!(server_id.0, 0);
}

#[test]
fn connection_identifier_is_encrypted() {
    let mut secret = [0u8; 32];
    for (i, byte) in secret.iter_mut().enumerate() {
        *byte = i as u8;
    }
    let encrypted = EncryptedConnId::new(ConnId(0xff), &secret);
    assert_eq!(encrypted.0, 0x0001_0203_0405_0607_0809_0a0b_0c0d_0ef0);
    assert_eq!(encrypted.decrypt(&secret), ConnId(0xff));
    secret[15] = 0;
    assert_ne!(encrypted.decrypt(&secret), ConnId(0xff));
    secret[15] = 15;
    secret[16] = 0;
    assert_eq!(encrypted.decrypt(&secret), ConnId(0xff));
}

#[test]
fn public_key_is_that_of_the_secret_key() {
    let mut bytes = [0u8; 32];
    bytes[0] = 9;
    let key = SecretKey::from_bytes(bytes);
    let expected: Vec<u8> = vec![
        0x42, 0x2c, 0x8e, 0x7a, 0x62, 0x27, 0xd7, 0xbc, 0xa1, 0x35, 0x0b, 0x3e, 0x2b, 0xb7, 0x27, 0x9f, 0x78, 0x97,
        0xb8, 0x7b, 0xb6, 0x85, 0x4b, 0x78, 0x3c, 0x60, 0xe8, 0x03, 0x11, 0xae, 0x30, 0x79,
    ];
    assert_eq!(key.public_key().to_vec(), expected);
}

#[test]
fn both_endpoints_obtain_the_same_secret() {
    let alice = SecretKey::generate();
    let bob = SecretKey::generate();
    assert_ne!(alice.public_key(), bob.public_key());
    let secret = alice.shared_secret(&bob.public_key());
    assert_eq!(secret, bob.shared_secret(&alice.public_key()));
    assert_ne!(secret, bob.public_key());
    let eve = SecretKey::generate();
    assert_ne!(secret, eve.shared_secret(&alice.public_key()));
}
