//! The calls into `bincode` that bring the header and the envelope into and
//! out of their stored forms.

use vstd::prelude::*;

use crate::wire::{envelope_bytes, header_bytes};

verus! {

/// What went wrong inside `bincode`.
#[verifier::external_type_specification]
#[verifier::external_body]
pub struct ExBincodeErrorKind(bincode::ErrorKind);

/// `bincode::serialize` on the three fields of a header, taken as a tuple.
/// With the fixed-width little-endian layout that this function uses, the
/// fields follow one another: the `i64` in eight bytes, the `u16` in two, the
/// byte vector behind its length in eight bytes. Writing into memory without
/// a size limit, the call has no way to fail.
#[verifier::external_body]
pub(crate) fn write_header(window_start: i64, attempt_count: u16, digest: &Vec<u8>) -> (r: Vec<u8>)
    ensures
        r@ == header_bytes(window_start, attempt_count, digest@),
{
    bincode::serialize(&(window_start, attempt_count, digest)).expect("can't serialize VerifyHeader")
}

/// `bincode::deserialize` into the three fields of a header. It reads the
/// fields from the front of `data` in the layout of [`write_header`], lets
/// bytes behind them stand, and fails where `data` ends before the fields do.
#[verifier::external_body]
pub(crate) fn read_header(data: &[u8]) -> (r: Result<(i64, u16, Vec<u8>), Box<bincode::ErrorKind>>)
    ensures
        match r {
            Ok(h) => header_bytes(h.0, h.1, h.2@).is_prefix_of(data@),
            Err(_) => forall|t: i64, c: u16, d: Seq<u8>|
                d.len() <= u64::MAX ==> !(#[trigger] header_bytes(t, c, d)).is_prefix_of(data@),
        },
{
    bincode::deserialize::<(i64, u16, Vec<u8>)>(data)
}

/// `bincode::serialize` on the three fields of an envelope, taken as a tuple:
/// each byte vector behind its length in eight little-endian bytes. Writing
/// into memory without a size limit, the call has no way to fail.
#[verifier::external_body]
pub(crate) fn write_envelope(salt: &Vec<u8>, nonce: &Vec<u8>, ciphertext: &Vec<u8>) -> (r: Vec<u8>)
    ensures
        r@ == envelope_bytes(salt@, nonce@, ciphertext@),
{
    bincode::serialize(&(salt, nonce, ciphertext)).unwrap()
}

/// `bincode::deserialize` into the three fields of an envelope. It reads the
/// fields from the front of `data` in the layout of [`write_envelope`], lets
/// bytes behind them stand, and fails where `data` ends before the fields do.
#[verifier::external_body]
pub(crate) fn read_envelope(data: &[u8]) -> (r: Result<
    (Vec<u8>, Vec<u8>, Vec<u8>),
    Box<bincode::ErrorKind>,
>)
    ensures
        match r {
            Ok(e) => envelope_bytes(e.0@, e.1@, e.2@).is_prefix_of(data@),
            Err(_) => forall|s: Seq<u8>, n: Seq<u8>, d: Seq<u8>|
                s.len() <= u64::MAX && n.len() <= u64::MAX && d.len() <= u64::MAX ==> !(
                #[trigger] envelope_bytes(s, n, d)).is_prefix_of(data@),
        },
{
    bincode::deserialize::<(Vec<u8>, Vec<u8>, Vec<u8>)>(data)
}

} // verus!
