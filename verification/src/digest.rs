//! SHA-512, as the `sha2` crate computes it.

use sha2::{Digest, Sha512};
use vstd::prelude::*;
use vstd::string::StringSliceAdditionalSpecFns;

verus! {

/// The SHA-512 digest of `data`.
pub uninterp spec fn sha512(data: Seq<u8>) -> Seq<u8>;

/// The digest by which a passphrase is recognised: the SHA-512 digest of its
/// UTF-8 bytes.
pub open spec fn passwd_digest(passwd: Seq<char>) -> Seq<u8> {
    sha512(vstd::utf8::encode_utf8(passwd))
}

/// Feeds `data` to a fresh `sha2::Sha512` hasher and takes what `finalize`
/// gives: the SHA-512 digest of `data`, which has 64 bytes and depends on
/// `data` alone.
#[verifier::external_body]
pub(crate) fn sha512_of(data: &[u8]) -> (r: Vec<u8>)
    ensures
        r@ == sha512(data@),
        r@.len() == 64,
{
    let mut hasher = Sha512::new();
    hasher.update(data);
    hasher.finalize().to_vec()
}

/// The digest by which `plain_passwd` is recognised.
pub fn passwd_sha512(plain_passwd: &str) -> (r: Vec<u8>)
    ensures
        r@ == passwd_digest(plain_passwd@),
        r@.len() == 64,
{
    sha512_of(plain_passwd.as_bytes())
}

/// Whether two runs of bytes are the same.
pub fn same_bytes(a: &[u8], b: &[u8]) -> (r: bool)
    ensures
        r == (a@ == b@),
{
    if a.len() != b.len() {
        return false;
    }
    let mut i: usize = 0;
    while i < a.len()
        invariant
            i <= a.len(),
            a.len() == b.len(),
            forall|k: int| 0 <= k < i ==> a@[k] == b@[k],
        decreases a.len() - i,
    {
        if a[i] != b[i] {
            return false;
        }
        i += 1;
    }
    assert(a@ =~= b@);
    true
}

} // verus!
