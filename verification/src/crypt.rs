//! The encrypted envelope: bytes sealed under a key that is derived from a
//! passphrase and a salt, and stored with the salt and the nonce that opened
//! them again.
//!
//! The key is derived anew for every sealing and every opening. Nothing but
//! the passphrase outlives a call.

use chacha20poly1305::aead::rand_core::RngCore;
use chacha20poly1305::aead::{Aead, OsRng};
use chacha20poly1305::{ChaCha20Poly1305, KeyInit};
use vstd::prelude::*;
use vstd::string::StringSliceAdditionalSpecFns;
use vstd::utf8::encode_utf8;

use crate::codec::{read_envelope, write_envelope};
use crate::error::Error;
use crate::wire::{envelope_bytes, lemma_envelope_bytes_unique};

verus! {

/// The length of a salt, in bytes.
pub const SALT_LEN: usize = 8;

/// The length of a nonce, in bytes.
pub const NONCE_LEN: usize = 12;

/// The longest passphrase or salt, in bytes, that the key derivation takes.
pub const KDF_INPUT_MAX: usize = 0xFFFF_FFFF;

/// The length of the tag that the cipher puts behind a sealed text, in
/// bytes.
pub const TAG_LEN: usize = 16;

/// The longest text, in bytes, that the cipher seals under one nonce: 64
/// bytes for each value of its 32-bit block counter but the first, which
/// makes the key of the tag, and the last, which it does not reach.
pub const SEALABLE_MAX: u64 = 274_877_906_816;

/// The 32-byte Argon2id key that `argon2::hash_raw` derives from a
/// passphrase and a salt, under the crate's default cost settings.
pub uninterp spec fn argon2_key(passwd: Seq<u8>, salt: Seq<u8>) -> Seq<u8>;

/// What ChaCha20-Poly1305 makes of a text under a key and a nonce, without
/// associated data: the encrypted text with its tag behind it.
pub uninterp spec fn chacha20poly1305_sealed(key: Seq<u8>, nonce: Seq<u8>, plain: Seq<u8>) -> Seq<
    u8,
>;

/// What ChaCha20-Poly1305 recovers from a sealed text under a key and a
/// nonce, without associated data; `None` where the tag does not hold.
pub uninterp spec fn chacha20poly1305_opened(key: Seq<u8>, nonce: Seq<u8>, sealed: Seq<u8>) -> Option<
    Seq<u8>,
>;

/// The key for `passwd` and `salt`, where the key derivation takes them: the
/// salt has at least eight bytes, and neither is longer than
/// [`KDF_INPUT_MAX`].
pub open spec fn derived_key(passwd: Seq<char>, salt: Seq<u8>) -> Option<Seq<u8>> {
    if SALT_LEN <= salt.len() <= KDF_INPUT_MAX && encode_utf8(passwd).len() <= KDF_INPUT_MAX {
        Some(argon2_key(encode_utf8(passwd), salt))
    } else {
        None
    }
}

/// The cipher takes a text of this length.
pub open spec fn sealable(len: nat) -> bool {
    len <= SEALABLE_MAX
}

/// An envelope, as plain values.
pub struct EnvelopeView {
    pub salt: Seq<u8>,
    pub nonce: Seq<u8>,
    pub ciphertext: Seq<u8>,
}

impl EnvelopeView {
    /// The stored form of the envelope.
    pub open spec fn bytes(self) -> Seq<u8> {
        envelope_bytes(self.salt, self.nonce, self.ciphertext)
    }

    /// `data` begins with the stored form of this envelope.
    pub open spec fn stored_in(self, data: Seq<u8>) -> bool {
        &&& self.salt.len() <= u64::MAX
        &&& self.nonce.len() <= u64::MAX
        &&& self.ciphertext.len() <= u64::MAX
        &&& self.bytes().is_prefix_of(data)
    }

    /// The text that the envelope gives back under `passwd`, or `None` where
    /// it gives none: the salt or the nonce is out of shape, the sealed text
    /// is longer than the cipher makes one, or the tag does not hold under
    /// the key for `passwd`.
    pub open spec fn opened(self, passwd: Seq<char>) -> Option<Seq<u8>> {
        match derived_key(passwd, self.salt) {
            Some(key) => if self.nonce.len() == NONCE_LEN && self.ciphertext.len() <= SEALABLE_MAX
                + TAG_LEN {
                chacha20poly1305_opened(key, self.nonce, self.ciphertext)
            } else {
                None
            },
            None => None,
        }
    }
}

/// `sealed` is what the cipher makes of `plain` under `key` and `nonce`: the
/// encrypted text with its tag, [`TAG_LEN`] bytes longer than `plain`.
pub open spec fn is_sealed_text(key: Seq<u8>, nonce: Seq<u8>, plain: Seq<u8>, sealed: Seq<u8>) -> bool {
    sealed == chacha20poly1305_sealed(key, nonce, plain) && sealed.len() == plain.len() + TAG_LEN
}

/// The envelope that holds `plain` under `passwd`, made with the given salt
/// and nonce; `None` where none can be made with them. Its sealed text is
/// [`TAG_LEN`] bytes longer than `plain`.
pub open spec fn sealed(plain: Seq<u8>, passwd: Seq<char>, salt: Seq<u8>, nonce: Seq<u8>) -> Option<
    EnvelopeView,
> {
    match derived_key(passwd, salt) {
        Some(key) => {
            let ciphertext = chacha20poly1305_sealed(key, nonce, plain);
            if nonce.len() == NONCE_LEN && sealable(plain.len()) && is_sealed_text(
                key,
                nonce,
                plain,
                ciphertext,
            ) {
                Some(EnvelopeView { salt, nonce, ciphertext })
            } else {
                None
            }
        },
        None => None,
    }
}

/// The stored form of the envelope that holds `plain` under `passwd`, made
/// with the given salt and nonce.
pub open spec fn sealed_blob(
    plain: Seq<u8>,
    passwd: Seq<char>,
    salt: Seq<u8>,
    nonce: Seq<u8>,
) -> Option<Seq<u8>> {
    match sealed(plain, passwd, salt, nonce) {
        Some(e) => Some(e.bytes()),
        None => None,
    }
}

/// The envelope that `data` begins with, if it begins with one.
pub open spec fn stored_envelope(data: Seq<u8>) -> Option<EnvelopeView> {
    if exists|e: EnvelopeView| e.stored_in(data) {
        Some(choose|e: EnvelopeView| e.stored_in(data))
    } else {
        None
    }
}

/// The text that a stored envelope gives back under `passwd`.
pub open spec fn opened_blob(data: Seq<u8>, passwd: Seq<char>) -> Option<Seq<u8>> {
    match stored_envelope(data) {
        Some(e) => e.opened(passwd),
        None => None,
    }
}

/// The stored form of an envelope is 24 bytes longer than its three parts
/// together.
pub proof fn lemma_envelope_len(e: EnvelopeView)
    ensures
        e.bytes().len() == 24 + e.salt.len() + e.nonce.len() + e.ciphertext.len(),
{
    crate::wire::lemma_le_bytes_len(e.salt.len(), 8);
    crate::wire::lemma_le_bytes_len(e.nonce.len(), 8);
    crate::wire::lemma_le_bytes_len(e.ciphertext.len(), 8);
}

/// An envelope that is written and read back is the same envelope.
pub proof fn lemma_envelope_round_trip(e: EnvelopeView)
    requires
        e.salt.len() <= u64::MAX,
        e.nonce.len() <= u64::MAX,
        e.ciphertext.len() <= u64::MAX,
    ensures
        stored_envelope(e.bytes()) == Some(e),
{
    assert(e.stored_in(e.bytes()));
    let c = choose|c: EnvelopeView| c.stored_in(e.bytes());
    lemma_envelope_bytes_unique(
        e.salt,
        e.nonce,
        e.ciphertext,
        c.salt,
        c.nonce,
        c.ciphertext,
        e.bytes(),
    );
}

/// Asks the operating system for `len` random bytes, through
/// `OsRng.try_fill_bytes`. Gives `None` where the system has none to give.
/// Of the bytes nothing is known but their number.
#[verifier::external_body]
fn random_bytes(len: usize) -> (r: Option<Vec<u8>>)
    ensures
        r matches Some(v) ==> v@.len() == len,
{
    let mut bytes = vec![0u8; len];
    match OsRng.try_fill_bytes(&mut bytes) {
        Ok(()) => Some(bytes),
        Err(_) => None,
    }
}

/// `ChaCha20Poly1305::encrypt` under a 32-byte key and a 12-byte nonce, on a
/// text of at most [`SEALABLE_MAX`] bytes. On such a text the call does not
/// fail (a failure would be handed on as `None`). It returns the encrypted
/// text with the tag behind it, [`TAG_LEN`] bytes longer than the text, and
/// what it returns depends on key, nonce and text alone. On a longer text the
/// cipher runs out of key stream, which is why such a text is left out.
#[verifier::external_body]
fn seal(key: &[u8], nonce: &[u8], plain: &[u8]) -> (r: Option<Vec<u8>>)
    requires
        key@.len() == 32,
        nonce@.len() == NONCE_LEN,
        sealable(plain@.len()),
    ensures
        match r {
            Some(c) => is_sealed_text(key@, nonce@, plain@, c@),
            None => false,
        },
{
    let cipher = ChaCha20Poly1305::new(chacha20poly1305::Key::from_slice(key));
    cipher.encrypt(chacha20poly1305::Nonce::from_slice(nonce), plain).ok()
}

/// `ChaCha20Poly1305::decrypt` under a 32-byte key and a 12-byte nonce, on a
/// sealed text no longer than [`seal`] makes one. The call gives the text
/// back where the tag at the end of `sealed` holds, and fails where it does
/// not (handed on as `None`); the outcome depends on key, nonce and sealed
/// text alone. What [`seal`] made under the same key and nonce is opened to
/// the text that was sealed. On a longer sealed text the cipher runs out of
/// key stream, which is why such a text is left out.
#[verifier::external_body]
fn open(key: &[u8], nonce: &[u8], sealed: &[u8]) -> (r: Option<Vec<u8>>)
    requires
        key@.len() == 32,
        nonce@.len() == NONCE_LEN,
        sealed@.len() <= SEALABLE_MAX + TAG_LEN,
    ensures
        match r {
            Some(p) => chacha20poly1305_opened(key@, nonce@, sealed@) == Some(p@) && forall|
                plain: Seq<u8>,
            |
                sealable(plain.len()) && sealed@ == #[trigger] chacha20poly1305_sealed(
                    key@,
                    nonce@,
                    plain,
                ) ==> p@ == plain,
            None => chacha20poly1305_opened(key@, nonce@, sealed@) is None && forall|
                plain: Seq<u8>,
            |
                sealable(plain.len()) ==> sealed@ != #[trigger] chacha20poly1305_sealed(
                    key@,
                    nonce@,
                    plain,
                ),
        },
{
    let cipher = ChaCha20Poly1305::new(chacha20poly1305::Key::from_slice(key));
    cipher.decrypt(chacha20poly1305::Nonce::from_slice(nonce), sealed).ok()
}

/// `argon2::hash_raw` on a passphrase and a salt, with the crate's default
/// settings and an output of 32 bytes. The call fails where the salt is
/// shorter than eight bytes, or where the salt or the passphrase is longer
/// than [`KDF_INPUT_MAX`] bytes, and nowhere else; its failure is handed on
/// as `None`. The key depends on passphrase and salt alone.
#[verifier::external_body]
fn argon2_hash(passwd: &[u8], salt: &[u8]) -> (r: Option<Vec<u8>>)
    ensures
        match r {
            Some(key) => key@ == argon2_key(passwd@, salt@) && key@.len() == 32 && SALT_LEN
                <= salt@.len() <= KDF_INPUT_MAX && passwd@.len() <= KDF_INPUT_MAX,
            None => salt@.len() < SALT_LEN || salt@.len() > KDF_INPUT_MAX || passwd@.len()
                > KDF_INPUT_MAX,
        },
{
    let config = argon2::Config { hash_length: 32, ..argon2::Config::default() };
    argon2::hash_raw(passwd, salt, &config).ok()
}

/// Bytes sealed under a passphrase, with what is needed to open them again.
pub struct EncryptData {
    /// The salt from which the key was derived.
    s: Vec<u8>,
    /// The nonce under which the data was sealed.
    n: Vec<u8>,
    /// The sealed data, its tag behind it.
    d: Vec<u8>,
}

impl View for EncryptData {
    type V = EnvelopeView;

    closed spec fn view(&self) -> EnvelopeView {
        EnvelopeView { salt: self.s@, nonce: self.n@, ciphertext: self.d@ }
    }
}

impl EncryptData {
    /// Seals `data` under `passwd` and gives the stored form of the envelope.
    /// A fresh salt and a fresh nonce go into every call, so two calls on the
    /// same input give different bytes. [`EncryptData::encrypt_with`] says
    /// what the bytes are for each salt and nonce.
    pub fn encrypt(data: &[u8], passwd: &str) -> (r: Result<Vec<u8>, Error>)
        ensures
            match r {
                Ok(blob) => exists|salt: Seq<u8>, nonce: Seq<u8>|
                    salt.len() == SALT_LEN && nonce.len() == NONCE_LEN && #[trigger] sealed_blob(
                        data@,
                        passwd@,
                        salt,
                        nonce,
                    ) == Some(blob@),
                Err(e) => e == Error::EncryptionFailure,
            },
            !sealable(data@.len()) || encode_utf8(passwd@).len() > KDF_INPUT_MAX ==> r is Err,
    {
        match Self::inner_encrypt(data, passwd) {
            Ok(envelope) => {
                let blob = envelope.to_bytes();
                assert(sealed_blob(data@, passwd@, envelope@.salt, envelope@.nonce) == Some(
                    blob@,
                ));
                Ok(blob)
            },
            Err(e) => Err(e),
        }
    }

    /// Seals `data` under `passwd` with the given salt and nonce, and gives
    /// the stored form of the envelope.
    pub fn encrypt_with(data: &[u8], passwd: &str, salt: Vec<u8>, nonce: Vec<u8>) -> (r: Result<
        Vec<u8>,
        Error,
    >)
        ensures
            match r {
                Ok(blob) => sealed_blob(data@, passwd@, salt@, nonce@) == Some(blob@),
                Err(e) => e == Error::EncryptionFailure && sealed_blob(
                    data@,
                    passwd@,
                    salt@,
                    nonce@,
                ) is None,
            },
    {
        match Self::seal_with(data, passwd, salt, nonce) {
            Ok(envelope) => Ok(envelope.to_bytes()),
            Err(e) => Err(e),
        }
    }

    /// Opens a stored envelope under `passwd` and gives the bytes that were
    /// sealed. It fails where `enc_data` does not begin with an envelope,
    /// and where the envelope does not open under `passwd`: the passphrase is
    /// another one, or the envelope was changed. What was sealed under
    /// `passwd` is always given back as it was.
    pub fn decrypt(enc_data: &[u8], passwd: &str) -> (r: Result<Vec<u8>, Error>)
        ensures
            match r {
                Ok(plain) => opened_blob(enc_data@, passwd@) == Some(plain@),
                Err(e) => e == Error::DecryptionFailure && opened_blob(enc_data@, passwd@) is None,
            },
            forall|plain: Seq<u8>, salt: Seq<u8>, nonce: Seq<u8>|
                #[trigger] sealed_blob(plain, passwd@, salt, nonce) == Some(enc_data@) ==> r is Ok
                    && r->Ok_0@ == plain,
    {
        let blob_len: usize = enc_data.len();
        match read_envelope(enc_data) {
            Ok(fields) => {
                let envelope = EncryptData { s: fields.0, n: fields.1, d: fields.2 };
                let lens: (usize, usize, usize) = (
                    envelope.s.len(),
                    envelope.n.len(),
                    envelope.d.len(),
                );
                proof {
                    assert(envelope@.stored_in(enc_data@));
                    let c = choose|c: EnvelopeView| c.stored_in(enc_data@);
                    lemma_envelope_bytes_unique(
                        envelope@.salt,
                        envelope@.nonce,
                        envelope@.ciphertext,
                        c.salt,
                        c.nonce,
                        c.ciphertext,
                        enc_data@,
                    );
                    assert(stored_envelope(enc_data@) == Some(envelope@));
                }
                let r = envelope.inner_decrypt(passwd);
                proof {
                    assert forall|plain: Seq<u8>, salt: Seq<u8>, nonce: Seq<u8>|
                        #[trigger] sealed_blob(plain, passwd@, salt, nonce) == Some(
                            enc_data@,
                        ) implies r is Ok && r->Ok_0@ == plain by {
                        let e = sealed(plain, passwd@, salt, nonce)->0;
                        lemma_envelope_len(e);
                        lemma_envelope_round_trip(e);
                    }
                }
                r
            },
            Err(_) => {
                proof {
                    assert forall|e: EnvelopeView| !e.stored_in(enc_data@) by {
                        if e.salt.len() <= u64::MAX && e.nonce.len() <= u64::MAX
                            && e.ciphertext.len() <= u64::MAX {
                            assert(!envelope_bytes(e.salt, e.nonce, e.ciphertext).is_prefix_of(
                                enc_data@,
                            ));
                        }
                    }
                    assert forall|plain: Seq<u8>, salt: Seq<u8>, nonce: Seq<u8>|
                        #[trigger] sealed_blob(plain, passwd@, salt, nonce) != Some(enc_data@) by {
                        if sealed(plain, passwd@, salt, nonce) is Some {
                            let e = sealed(plain, passwd@, salt, nonce)->0;
                            if enc_data@ == e.bytes() {
                                lemma_envelope_len(e);
                                assert(e.stored_in(enc_data@));
                            }
                        }
                    }
                }
                Err(Error::DecryptionFailure)
            },
        }
    }

    /// A fresh nonce of [`NONCE_LEN`] bytes.
    fn gen_nonce() -> (r: Option<Vec<u8>>)
        ensures
            r matches Some(v) ==> v@.len() == NONCE_LEN,
    {
        random_bytes(NONCE_LEN)
    }

    /// A fresh salt of [`SALT_LEN`] bytes.
    fn gen_salt() -> (r: Option<Vec<u8>>)
        ensures
            r matches Some(v) ==> v@.len() == SALT_LEN,
    {
        random_bytes(SALT_LEN)
    }

    /// The key for `passwd` and `salt`.
    fn gen_passwd(passwd: &str, salt: &[u8]) -> (r: Option<Vec<u8>>)
        ensures
            match r {
                Some(key) => derived_key(passwd@, salt@) == Some(key@) && key@.len() == 32,
                None => derived_key(passwd@, salt@) is None,
            },
    {
        argon2_hash(passwd.as_bytes(), salt)
    }

    /// Seals `data` under `passwd` with a fresh salt and a fresh nonce.
    fn inner_encrypt(data: &[u8], passwd: &str) -> (r: Result<Self, Error>)
        ensures
            match r {
                Ok(envelope) => envelope@.salt.len() == SALT_LEN && envelope@.nonce.len()
                    == NONCE_LEN && sealed(data@, passwd@, envelope@.salt, envelope@.nonce)
                    == Some(envelope@),
                Err(e) => e == Error::EncryptionFailure,
            },
            !sealable(data@.len()) || encode_utf8(passwd@).len() > KDF_INPUT_MAX ==> r is Err,
    {
        let salt = match Self::gen_salt() {
            Some(salt) => salt,
            None => { return Err(Error::EncryptionFailure); },
        };
        let nonce = match Self::gen_nonce() {
            Some(nonce) => nonce,
            None => { return Err(Error::EncryptionFailure); },
        };
        Self::seal_with(data, passwd, salt, nonce)
    }

    /// Seals `data` under `passwd` with the given salt and nonce.
    fn seal_with(data: &[u8], passwd: &str, salt: Vec<u8>, nonce: Vec<u8>) -> (r: Result<
        Self,
        Error,
    >)
        ensures
            match r {
                Ok(envelope) => sealed(data@, passwd@, salt@, nonce@) == Some(envelope@),
                Err(e) => e == Error::EncryptionFailure && sealed(
                    data@,
                    passwd@,
                    salt@,
                    nonce@,
                ) is None,
            },
    {
        let key = match Self::gen_passwd(passwd, salt.as_slice()) {
            Some(key) => key,
            None => { return Err(Error::EncryptionFailure); },
        };
        if nonce.len() != NONCE_LEN || data.len() as u64 > SEALABLE_MAX {
            return Err(Error::EncryptionFailure);
        }
        match seal(key.as_slice(), nonce.as_slice(), data) {
            Some(ciphertext) => Ok(EncryptData { s: salt, n: nonce, d: ciphertext }),
            None => Err(Error::EncryptionFailure),
        }
    }

    /// Opens the envelope under `passwd`.
    fn inner_decrypt(&self, passwd: &str) -> (r: Result<Vec<u8>, Error>)
        ensures
            match r {
                Ok(plain) => self@.opened(passwd@) == Some(plain@),
                Err(e) => e == Error::DecryptionFailure && self@.opened(passwd@) is None,
            },
            forall|plain: Seq<u8>|
                #[trigger] sealed(plain, passwd@, self@.salt, self@.nonce) == Some(self@) ==> r is Ok
                    && r->Ok_0@ == plain,
    {
        let key = match Self::gen_passwd(passwd, self.s.as_slice()) {
            Some(key) => key,
            None => { return Err(Error::DecryptionFailure); },
        };
        if self.n.len() != NONCE_LEN || self.d.len() as u64 > SEALABLE_MAX + TAG_LEN as u64 {
            return Err(Error::DecryptionFailure);
        }
        match open(key.as_slice(), self.n.as_slice(), self.d.as_slice()) {
            Some(plain) => Ok(plain),
            None => Err(Error::DecryptionFailure),
        }
    }

    /// The stored form of the envelope.
    fn to_bytes(&self) -> (r: Vec<u8>)
        ensures
            r@ == self@.bytes(),
    {
        write_envelope(&self.s, &self.n, &self.d)
    }
}

} // verus!
