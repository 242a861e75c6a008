use chacha20poly1305::aead::Aead;
use chacha20poly1305::KeyInit;
use pser::crypt::{EncryptData, NONCE_LEN, SALT_LEN, SEALABLE_MAX, TAG_LEN};
use pser::digest::{passwd_sha512, same_bytes};
use pser::error::Error;

fn salt() -> Vec<u8> {
    vec![1, 2, 3, 4, 5, 6, 7, 8]
}

fn nonce() -> Vec<u8> {
    vec![9, 8, 7, 6, 5, 4, 3, 2, 1, 0, 1, 2]
}

#[test]
fn m() {
    let data = (
        "fkdlasd".to_string(),
        "longshuai".to_string(),
        "192.168.100.111".to_string(),
    );
    let plain = bincode::serialize(&data).unwrap();

    let passwd = "thisiskey";
    let enc_data = EncryptData::encrypt(&plain, passwd).unwrap();
    let opened = EncryptData::decrypt(&enc_data, passwd);
    println!("enc_str: {:?}", enc_data);
    println!("ss: {:?}", opened);
    let ss: (String, String, String) = bincode::deserialize(&opened.unwrap()).unwrap();
    assert_eq!(ss, data);
}

#[test]
fn what_was_sealed_comes_back() {
    for plain in [&b""[..], &b"some longer text \x00\xff with odd bytes"[..]] {
        for passwd in ["", "hunter2", "密码"] {
            let blob = EncryptData::encrypt(plain, passwd).unwrap();
            assert_eq!(EncryptData::decrypt(&blob, passwd), Ok(plain.to_vec()));
        }
    }
}

#[test]
fn two_sealings_differ() {
    let a = EncryptData::encrypt(b"same", "p").unwrap();
    let b = EncryptData::encrypt(b"same", "p").unwrap();
    assert_ne!(a, b);
    assert_eq!(a.len(), b.len());
}

#[test]
fn envelope_has_the_stored_layout() {
    let plain = b"hello";
    let blob = EncryptData::encrypt_with(plain, "p", salt(), nonce()).unwrap();
    // Three runs of bytes, each behind its length in eight little-endian bytes.
    assert_eq!(TAG_LEN, 16);
    assert_eq!(SEALABLE_MAX, 64 * (u32::MAX as u64 - 1));
    assert_eq!(blob.len(), 8 + SALT_LEN + 8 + NONCE_LEN + 8 + plain.len() + TAG_LEN);
    assert_eq!(&blob[0..8], &[8, 0, 0, 0, 0, 0, 0, 0]);
    assert_eq!(&blob[8..16], &salt()[..]);
    assert_eq!(&blob[16..24], &[12, 0, 0, 0, 0, 0, 0, 0]);
    assert_eq!(&blob[24..36], &nonce()[..]);
    assert_eq!(&blob[36..44], &[21, 0, 0, 0, 0, 0, 0, 0]);
    let parts: (Vec<u8>, Vec<u8>, Vec<u8>) = bincode::deserialize(&blob).unwrap();
    assert_eq!(parts.0, salt());
    assert_eq!(parts.1, nonce());
    assert_eq!(parts.2.len(), 21);
    assert_ne!(&parts.2[..5], &plain[..]);
}

#[test]
fn sealing_depends_on_its_inputs_alone() {
    let a = EncryptData::encrypt_with(b"hello", "p", salt(), nonce()).unwrap();
    let b = EncryptData::encrypt_with(b"hello", "p", salt(), nonce()).unwrap();
    assert_eq!(a, b);
    let other_passwd = EncryptData::encrypt_with(b"hello", "q", salt(), nonce()).unwrap();
    assert_ne!(a, other_passwd);
    let mut salt2 = salt();
    salt2[0] = 0;
    let other_salt = EncryptData::encrypt_with(b"hello", "p", salt2, nonce()).unwrap();
    assert_ne!(a[44..], other_salt[44..]);
    assert_eq!(EncryptData::decrypt(&a, "p"), Ok(b"hello".to_vec()));
}

#[test]
fn sealed_text_matches_the_cipher() {
    // The key is the Argon2id key of passphrase and salt; the sealed text is
    // what ChaCha20-Poly1305 makes of the plain text under it.
    let blob = EncryptData::encrypt_with(b"hello", "p", salt(), nonce()).unwrap();
    let config = argon2::Config { hash_length: 32, ..argon2::Config::default() };
    let key = argon2::hash_raw(b"p", &salt(), &config).unwrap();
    assert_eq!(key.len(), 32);
    let cipher = chacha20poly1305::ChaCha20Poly1305::new(chacha20poly1305::Key::from_slice(&key));
    let sealed = cipher
        .encrypt(chacha20poly1305::Nonce::from_slice(&nonce()), &b"hello"[..])
        .unwrap();
    assert_eq!(&blob[44..], &sealed[..]);
}

#[test]
fn short_salt_is_refused() {
    let r = EncryptData::encrypt_with(b"hello", "p", vec![1, 2, 3, 4, 5, 6, 7], nonce());
    assert_eq!(r, Err(Error::EncryptionFailure));
}

#[test]
fn misshaped_nonce_is_refused() {
    let r = EncryptData::encrypt_with(b"hello", "p", salt(), vec![0; 11]);
    assert_eq!(r, Err(Error::EncryptionFailure));
    let r = EncryptData::encrypt_with(b"hello", "p", salt(), vec![0; 13]);
    assert_eq!(r, Err(Error::EncryptionFailure));
}

#[test]
fn any_changed_byte_is_detected() {
    let plain = b"dawn";
    let blob = EncryptData::encrypt(plain, "hunter2").unwrap();
    assert_eq!(blob.len(), 64);
    // The nonce lies at 24..36, the sealed text behind its length at 44.. .
    let mut places: Vec<usize> = (24..36).collect();
    places.extend(44..blob.len());
    for at in places {
        let bit = if at % 2 == 0 { 0x01u8 } else { 0x80u8 };
        let mut changed = blob.clone();
        changed[at] ^= bit;
        assert_eq!(
            EncryptData::decrypt(&changed, "hunter2"),
            Err(Error::DecryptionFailure),
            "byte {} changed by {:#x}",
            at,
            bit
        );
    }
}

#[test]
fn changed_salt_is_detected() {
    let blob = EncryptData::encrypt(b"attack at dawn", "hunter2").unwrap();
    for at in [8, 11, 15] {
        let mut changed = blob.clone();
        changed[at] ^= 0x01;
        assert_eq!(EncryptData::decrypt(&changed, "hunter2"), Err(Error::DecryptionFailure));
    }
}

#[test]
fn wrong_passphrase_does_not_open() {
    let blob = EncryptData::encrypt(b"attack at dawn", "hunter2").unwrap();
    for wrong in ["", "hunter", "hunter22", "Hunter2", "wrong", "hunter2 "] {
        assert_eq!(EncryptData::decrypt(&blob, wrong), Err(Error::DecryptionFailure));
    }
}

#[test]
fn what_is_no_envelope_does_not_open() {
    assert_eq!(EncryptData::decrypt(b"", "p"), Err(Error::DecryptionFailure));
    assert_eq!(EncryptData::decrypt(&[0; 23], "p"), Err(Error::DecryptionFailure));
    assert_eq!(EncryptData::decrypt(&[0xff; 64], "p"), Err(Error::DecryptionFailure));
    // An envelope whose salt is too short for the key derivation.
    let short_salt = bincode::serialize(&(vec![1u8; 7], vec![0u8; 12], vec![0u8; 16])).unwrap();
    assert_eq!(EncryptData::decrypt(&short_salt, "p"), Err(Error::DecryptionFailure));
    // An envelope whose nonce is out of shape.
    let odd_nonce = bincode::serialize(&(vec![1u8; 8], vec![0u8; 5], vec![0u8; 16])).unwrap();
    assert_eq!(EncryptData::decrypt(&odd_nonce, "p"), Err(Error::DecryptionFailure));
    // An envelope whose sealed text is shorter than a tag.
    let no_tag = bincode::serialize(&(vec![1u8; 8], vec![0u8; 12], vec![0u8; 3])).unwrap();
    assert_eq!(EncryptData::decrypt(&no_tag, "p"), Err(Error::DecryptionFailure));
}

#[test]
fn bytes_behind_an_envelope_are_let_stand() {
    let mut blob = EncryptData::encrypt(b"hello", "p").unwrap();
    blob.extend_from_slice(b"trailing");
    assert_eq!(EncryptData::decrypt(&blob, "p"), Ok(b"hello".to_vec()));
}

#[test]
fn digest_is_sha512_of_the_utf8_bytes() {
    let expected: [u8; 64] = [
        0xdd, 0xaf, 0x35, 0xa1, 0x93, 0x61, 0x7a, 0xba, 0xcc, 0x41, 0x73, 0x49, 0xae, 0x20, 0x41,
        0x31, 0x12, 0xe6, 0xfa, 0x4e, 0x89, 0xa9, 0x7e, 0xa2, 0x0a, 0x9e, 0xee, 0xe6, 0x4b, 0x55,
        0xd3, 0x9a, 0x21, 0x92, 0x99, 0x2a, 0x27, 0x4f, 0xc1, 0xa8, 0x36, 0xba, 0x3c, 0x23, 0xa3,
        0xfe, 0xeb, 0xbd, 0x45, 0x4d, 0x44, 0x23, 0x64, 0x3c, 0xe8, 0x0e, 0x2a, 0x9a, 0xc9, 0x4f,
        0xa5, 0x4c, 0xa4, 0x9f,
    ];
    assert_eq!(passwd_sha512("abc"), expected.to_vec());
    assert_eq!(passwd_sha512("").len(), 64);
    assert_ne!(passwd_sha512("abc"), passwd_sha512("abd"));
}

#[test]
fn same_bytes_compares_whole_runs() {
    assert!(same_bytes(b"", b""));
    assert!(same_bytes(b"abc", b"abc"));
    assert!(!same_bytes(b"abc", b"abd"));
    assert!(!same_bytes(b"abc", b"ab"));
    assert!(!same_bytes(b"", b"a"));
}
