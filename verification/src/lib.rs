//! A local, single-user store of credential records, kept encrypted under
//! one main passphrase.
//!
//! The library holds the record model ([`pser`]), the encrypted envelope
//! ([`crypt`]), the verification header with its attempt limit
//! ([`verify_header`]), and the store manager that ties them together
//! ([`db_file`]). Around them stand the requests of a caller ([`opts`]), the
//! import of records from a table ([`import`]) and the password generator
//! ([`gen_rand`]).
//!
//! The library reads and writes no file: every operation takes what was read
//! and returns what is to be written.

pub mod clock;
pub mod codec;
pub mod crypt;
pub mod db_file;
pub mod digest;
pub mod error;
pub mod gen_rand;
pub mod import;
pub mod opts;
pub mod pser;
pub mod records;
pub mod text;
pub mod url;
pub mod verify_header;
pub mod wire;

pub use crypt::EncryptData;
