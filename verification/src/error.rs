//! The ways in which an operation on the store can fail.

use vstd::prelude::*;
use vstd::string::StringExecFns;

verus! {

/// Why an operation on the store failed.
#[derive(Debug, Clone, Copy, PartialEq, Eq)]
pub enum Error {
    /// The stored header cannot be read back, or is missing beside stored
    /// data. The store is taken to be corrupt.
    HeaderError,
    /// The cipher refused to encrypt.
    EncryptionFailure,
    /// The stored data did not decrypt: its authentication tag does not hold
    /// under this passphrase, or what came out is no record collection. A
    /// wrong passphrase and damaged data are not told apart.
    DecryptionFailure,
    /// The header turned the passphrase down: it is wrong, or too many
    /// attempts fell into the current minute.
    AuthenticationRejected,
    /// The two copies of the store differ. One of them has to be removed by
    /// hand before the store can be opened again.
    ConsistencyDivergence,
}

impl Error {
    /// The text that describes each kind of failure.
    pub open spec fn text(self) -> Seq<char> {
        match self {
            Error::HeaderError => "invalid header"@,
            Error::EncryptionFailure => "encrypt error"@,
            Error::DecryptionFailure => "decrypt error"@,
            Error::AuthenticationRejected => "wrong passphrase, or too many attempts"@,
            Error::ConsistencyDivergence => "the two copies of the store differ"@,
        }
    }

    /// A one-line description of the failure.
    pub fn message(&self) -> (r: String)
        ensures
            r@ == self.text(),
    {
        match self {
            Error::HeaderError => String::from_str("invalid header"),
            Error::EncryptionFailure => String::from_str("encrypt error"),
            Error::DecryptionFailure => String::from_str("decrypt error"),
            Error::AuthenticationRejected => String::from_str(
                "wrong passphrase, or too many attempts",
            ),
            Error::ConsistencyDivergence => String::from_str("the two copies of the store differ"),
        }
    }
}

} // verus!
