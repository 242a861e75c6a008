//! The store manager: the header, the passphrase and the record collection
//! of an open store, and the bytes that each operation hands over for
//! writing.
//!
//! A store is kept in two copies. Each copy holds two entries: the header
//! under [`HEADER_KEY`], and the encrypted record collection under
//! [`DATA_KEY`]. Nothing here reads or writes a copy. An operation takes what
//! was read as an argument and returns what is to be written, and whoever
//! calls it writes that to both copies.

use vstd::prelude::*;

use crate::clock::{cur_min_timestamp, is_minute_start};
use crate::crypt::{opened_blob, sealed_blob, EncryptData, NONCE_LEN, SALT_LEN};
use crate::digest::{same_bytes, sha512, sha512_of};
use crate::error::Error;
use crate::pser::{Pser, PserView, Psers};
use crate::records::{
    from_rows, read_records, records_decoding, records_encoding, rows_map, rows_view, to_rows,
    write_records, Row,
};
use crate::text::{chars_of, starts_with, unicode_lower};
use crate::verify_header::{stored_header, HeaderView, VerifyHeader};

verus! {

/// The entry of a copy that holds the header.
pub const HEADER_KEY: &'static str = "header";

/// The entry of a copy that holds the encrypted record collection.
pub const DATA_KEY: &'static str = "data";

/// The bytes that were read, or `None` where there was nothing to read.
pub open spec fn entry_view(entry: Option<&[u8]>) -> Option<Seq<u8>> {
    match entry {
        Some(bytes) => Some(bytes@),
        None => None,
    }
}

/// What is done to the two copies of a store before they are opened.
#[derive(Debug, Clone, Copy, PartialEq, Eq)]
pub enum OpenPlan {
    /// Neither copy exists: both are made anew.
    CreateBoth,
    /// The working copy is written over with the durable one.
    CopyHomeToCur,
    /// The durable copy is missing and is made from the working one.
    CopyCurToHome,
}

/// What is done to two copies with the given digests, each `None` where the
/// copy does not exist. Two copies with different digests are left alone and
/// the store is not opened.
pub open spec fn plan_for_digests(home: Option<Seq<u8>>, cur: Option<Seq<u8>>) -> Result<
    OpenPlan,
    Error,
> {
    match (home, cur) {
        (Some(h), Some(c)) => if h == c {
            Ok(OpenPlan::CopyHomeToCur)
        } else {
            Err(Error::ConsistencyDivergence)
        },
        (Some(_), None) => Ok(OpenPlan::CopyHomeToCur),
        (None, Some(_)) => Ok(OpenPlan::CopyCurToHome),
        (None, None) => Ok(OpenPlan::CreateBoth),
    }
}

/// The digest of a copy, or `None` where there is no copy.
pub open spec fn copy_digest(copy: Option<Seq<u8>>) -> Option<Seq<u8>> {
    match copy {
        Some(bytes) => Some(sha512(bytes)),
        None => None,
    }
}

/// The SHA-512 digest of the contents of a copy.
pub fn file_sha2(contents: &[u8]) -> (r: Vec<u8>)
    ensures
        r@ == sha512(contents@),
{
    sha512_of(contents)
}

/// Whether the two copies hold the same contents, as far as their digests
/// tell.
pub fn check_db_sha2(home: &[u8], cur: &[u8]) -> (r: bool)
    ensures
        r == (sha512(home@) == sha512(cur@)),
{
    let home_sha2 = file_sha2(home);
    let cur_sha2 = file_sha2(cur);
    same_bytes(home_sha2.as_slice(), cur_sha2.as_slice())
}

/// Decides what is done to two copies with the given digests, each `None`
/// where the copy does not exist.
pub fn plan_for(home_sha2: Option<&[u8]>, cur_sha2: Option<&[u8]>) -> (r: Result<OpenPlan, Error>)
    ensures
        r == plan_for_digests(entry_view(home_sha2), entry_view(cur_sha2)),
{
    match (home_sha2, cur_sha2) {
        (Some(h), Some(c)) => {
            if same_bytes(h, c) {
                Ok(OpenPlan::CopyHomeToCur)
            } else {
                Err(Error::ConsistencyDivergence)
            }
        },
        (Some(_), None) => Ok(OpenPlan::CopyHomeToCur),
        (None, Some(_)) => Ok(OpenPlan::CopyCurToHome),
        (None, None) => Ok(OpenPlan::CreateBoth),
    }
}

/// The word that two copies were compared and may be opened. It is given
/// by [`plan_open`] and by nothing else, and [`PserDB::new`] asks for it: no
/// store is opened, and nothing that a store holds is handed to it, where the
/// copies were found to differ.
#[derive(Debug)]
pub struct Reconciled {
    plan: OpenPlan,
}

impl Reconciled {
    /// What is to be done to the copies before they are opened.
    pub closed spec fn plan_view(&self) -> OpenPlan {
        self.plan
    }

    /// What is to be done to the copies before they are opened.
    pub fn plan(&self) -> (r: OpenPlan)
        ensures
            r == self.plan_view(),
    {
        self.plan
    }
}

/// The plan that the comparison of two copies gave, or why it gave none.
pub open spec fn reconciled_view(r: Result<Reconciled, Error>) -> Result<OpenPlan, Error> {
    match r {
        Ok(copies) => Ok(copies.plan_view()),
        Err(e) => Err(e),
    }
}

/// Compares the two copies and decides what is done to them before they are
/// opened, from the contents of each, `None` where the copy does not exist.
/// Copies that differ are not opened.
pub fn plan_open(home: Option<&[u8]>, cur: Option<&[u8]>) -> (r: Result<Reconciled, Error>)
    ensures
        reconciled_view(r) == plan_for_digests(
            copy_digest(entry_view(home)),
            copy_digest(entry_view(cur)),
        ),
{
    let plan = match (home, cur) {
        (Some(h), Some(c)) => {
            let home_sha2 = file_sha2(h);
            let cur_sha2 = file_sha2(c);
            plan_for(Some(home_sha2.as_slice()), Some(cur_sha2.as_slice()))
        },
        (Some(_), None) => Ok(OpenPlan::CopyHomeToCur),
        (None, Some(_)) => Ok(OpenPlan::CopyCurToHome),
        (None, None) => Ok(OpenPlan::CreateBoth),
    };
    match plan {
        Ok(plan) => Ok(Reconciled { plan }),
        Err(e) => Err(e),
    }
}

/// `c` is a digit, or a letter from `a` to `f`.
pub open spec fn is_lower_hex(c: char) -> bool {
    ('0' <= c && c <= '9') || ('a' <= c && c <= 'f')
}

/// `s` has the shape of a record identifier: 32 hexadecimal digits, the
/// letters among them in lower case.
pub open spec fn is_simple_id(s: Seq<char>) -> bool {
    s.len() == 32 && forall|i: int| 0 <= i < 32 ==> is_lower_hex(#[trigger] s[i])
}

/// A random 128-bit identifier from `Uuid::new_v4`, in the text form that
/// its `Simple` format gives: 32 hexadecimal digits in lower case, without
/// hyphens. Of which identifier it is nothing is known.
#[verifier::external_body]
fn fresh_id() -> (r: String)
    ensures
        is_simple_id(r@),
{
    uuid::Uuid::new_v4().as_simple().to_string()
}

/// `list` names, each once, exactly the records of `psers` that `keep`
/// picks, each with its identifier.
pub open spec fn lists_exactly(
    list: Seq<(Seq<char>, PserView)>,
    psers: Map<Seq<char>, PserView>,
    keep: spec_fn(Seq<char>, PserView) -> bool,
) -> bool {
    &&& forall|i: int|
        0 <= i < list.len() ==> psers.contains_key(#[trigger] list[i].0) && psers[list[i].0]
            == list[i].1 && keep(list[i].0, list[i].1)
    &&& forall|id: Seq<char>|
        psers.contains_key(id) && keep(id, psers[id]) ==> exists|i: int|
            0 <= i < list.len() && #[trigger] list[i].0 == id
    &&& forall|i: int, j: int| 0 <= i < j < list.len() ==> list[i].0 != list[j].0
}

/// A list of records with their identifiers, as plain values.
pub open spec fn listed(list: Seq<(&String, &Pser)>) -> Seq<(Seq<char>, PserView)> {
    Seq::new(list.len(), |i: int| (list[i].0@, list[i].1@))
}

/// An open store, as plain values.
pub struct DbView {
    /// The main passphrase.
    pub passwd: Seq<char>,
    pub header: HeaderView,
    pub psers: Map<Seq<char>, PserView>,
}

/// The record collection that stored data gives back under `passwd`; `None`
/// where the data does not open under `passwd`, or opens to something that is
/// no record collection.
pub open spec fn loaded(data: Seq<u8>, passwd: Seq<char>) -> Option<Map<Seq<char>, PserView>> {
    match opened_blob(data, passwd) {
        Some(plain) => match records_decoding(plain) {
            Some(rows) => Some(rows_map(rows)),
            None => None,
        },
        None => None,
    }
}

/// `data` is a stored form of `psers` under `passwd`: some listing of the
/// records, sealed with some salt and some nonce.
pub open spec fn holds(data: Seq<u8>, passwd: Seq<char>, psers: Map<Seq<char>, PserView>) -> bool {
    exists|rows: Vec<Row>, salt: Seq<u8>, nonce: Seq<u8>|
        rows_map(rows_view(rows@)) == psers && salt.len() == SALT_LEN && nonce.len() == NONCE_LEN
            && #[trigger] sealed_blob(records_encoding(rows_view(rows@)), passwd, salt, nonce)
            == Some(data)
}

/// How an attempt to open a store ends.
pub struct Opening {
    /// The header to write to both copies, whether or not the store opened.
    pub header: Option<Seq<u8>>,
    /// The open store, or why it did not open.
    pub store: Result<DbView, Error>,
}

/// How an attempt to open a store ends, in the minute that starts at
/// `cur_min`, for the passphrase and for what the two entries of the store
/// hold, each `None` where the entry is missing.
///
/// A store without entries is new: it gets a header bound to `passwd` and an
/// empty collection. Data without a header, and a header that cannot be
/// read, make the store corrupt. Else the attempt is counted in the header,
/// which is to be written back whatever follows. A passphrase that the
/// header turns down ends the attempt. One that it lets through opens the
/// data, if there is any; without data the collection is empty.
pub open spec fn opening(
    passwd: Seq<char>,
    header: Option<Seq<u8>>,
    data: Option<Seq<u8>>,
    cur_min: i64,
) -> Opening {
    match header {
        None => if data is None {
            let fresh = HeaderView {
                window_start: cur_min,
                attempt_count: 0,
                digest: crate::digest::passwd_digest(passwd),
            };
            Opening {
                header: Some(fresh.bytes()),
                store: Ok(DbView { passwd, header: fresh, psers: Map::empty() }),
            }
        } else {
            Opening { header: None, store: Err(Error::HeaderError) }
        },
        Some(bytes) => match stored_header(bytes) {
            None => Opening { header: None, store: Err(Error::HeaderError) },
            Some(h) => {
                let counted = h.advanced(cur_min);
                Opening {
                    header: Some(counted.bytes()),
                    store: if !counted.accepts(passwd) {
                        Err(Error::AuthenticationRejected)
                    } else {
                        match data {
                            None => Ok(
                                DbView { passwd, header: counted, psers: Map::empty() },
                            ),
                            Some(blob) => match loaded(blob, passwd) {
                                Some(psers) => Ok(DbView { passwd, header: counted, psers }),
                                None => Err(Error::DecryptionFailure),
                            },
                        }
                    },
                }
            },
        },
    }
}

/// An attempt on a store whose header can be read is always counted: the
/// header that is to be written back is the stored one after one more
/// attempt, whether the passphrase is let through or not, and whether the
/// data opens or not.
pub proof fn lemma_attempt_is_counted(
    passwd: Seq<char>,
    header: Seq<u8>,
    data: Option<Seq<u8>>,
    cur_min: i64,
)
    requires
        stored_header(header) is Some,
    ensures
        opening(passwd, Some(header), data, cur_min).header == Some(
            stored_header(header)->0.advanced(cur_min).bytes(),
        ),
        stored_header(header)->0.advanced(cur_min).throttled() ==> opening(
            passwd,
            Some(header),
            data,
            cur_min,
        ).store == Err::<DbView, Error>(Error::AuthenticationRejected),
{
}

/// An open store.
pub struct PserDB {
    /// The main passphrase, under which the records are sealed.
    main_passwd: String,
    /// The header, which tells whether a passphrase is the main one.
    header: VerifyHeader,
    /// The records.
    psers: Psers,
}

impl View for PserDB {
    type V = DbView;

    closed spec fn view(&self) -> DbView {
        DbView { passwd: self.main_passwd@, header: self.header@, psers: self.psers@ }
    }
}

/// How an attempt to open a store ended.
pub struct Opened {
    /// The header to write to both copies, whether or not the store opened.
    pub header: Option<Vec<u8>>,
    /// The open store, or why it did not open.
    pub db: Result<PserDB, Error>,
}

impl View for Opened {
    type V = Opening;

    open spec fn view(&self) -> Opening {
        Opening {
            header: match self.header {
                Some(bytes) => Some(bytes@),
                None => None,
            },
            store: match self.db {
                Ok(db) => Ok(db@),
                Err(e) => Err(e),
            },
        }
    }
}

impl PserDB {
    /// Opens the store, or makes a new one, in the minute that starts at
    /// `cur_min`. `copies` says that the two copies were compared. `header`
    /// and `data` are what the two entries of the store hold, each `None`
    /// where the entry is missing.
    ///
    /// Data that [`PserDB::sync_psers`] made of a collection under the same
    /// passphrase opens to that collection.
    #[allow(unused_variables)]
    pub fn new_at(
        copies: &Reconciled,
        main_passwd: &str,
        header: Option<&[u8]>,
        data: Option<&[u8]>,
        cur_min: i64,
    ) -> (r: Opened)
        ensures
            r@ == opening(
                main_passwd@,
                entry_view(header),
                entry_view(data),
                cur_min,
            ),
            forall|m: Map<Seq<char>, PserView>|
                data is Some && #[trigger] holds(data->Some_0@, main_passwd@, m) ==> match r@.store {
                    Ok(store) => store.psers == m,
                    Err(e) => e != Error::DecryptionFailure,
                },
    {
        let stored = match header {
            Some(stored) => stored,
            None => {
                if data.is_some() {
                    return Opened { header: None, db: Err(Error::HeaderError) };
                }
                let s = PserDB {
                    main_passwd: main_passwd.to_owned(),
                    header: VerifyHeader::new_at(main_passwd, cur_min),
                    psers: Psers::new(),
                };
                return Opened { header: Some(s.sync_header()), db: Ok(s) };
            },
        };
        let header = match Self::load_header(Some(stored)) {
            Ok(Some(header)) => header,
            _ => { return Opened { header: None, db: Err(Error::HeaderError) }; },
        };
        let mut s = PserDB { main_passwd: main_passwd.to_owned(), header, psers: Psers::new() };
        let verify_flag = s.header.verify_header_at(main_passwd, cur_min);
        let counted = s.sync_header();
        if !verify_flag {
            return Opened { header: Some(counted), db: Err(Error::AuthenticationRejected) };
        }
        match s.load_psers(data) {
            Ok(Some(psers)) => {
                s.psers = psers;
                Opened { header: Some(counted), db: Ok(s) }
            },
            Ok(None) => Opened { header: Some(counted), db: Ok(s) },
            Err(e) => Opened { header: Some(counted), db: Err(e) },
        }
    }

    /// Opens the store, or makes a new one, now. [`PserDB::new_at`] says how
    /// the attempt ends for each minute.
    pub fn new(
        copies: &Reconciled,
        main_passwd: &str,
        header: Option<&[u8]>,
        data: Option<&[u8]>,
    ) -> (r: Opened)
        ensures
            exists|cur_min: i64|
                is_minute_start(cur_min) && r@ == #[trigger] opening(
                    main_passwd@,
                    entry_view(header),
                    entry_view(data),
                    cur_min,
                ),
            forall|m: Map<Seq<char>, PserView>|
                data is Some && #[trigger] holds(data->Some_0@, main_passwd@, m) ==> match r@.store {
                    Ok(store) => store.psers == m,
                    Err(e) => e != Error::DecryptionFailure,
                },
    {
        Self::new_at(copies, main_passwd, header, data, cur_min_timestamp())
    }

    /// Reads the header from what the header entry holds; `Ok(None)` where
    /// the entry is missing.
    pub fn load_header(stored: Option<&[u8]>) -> (r: Result<Option<VerifyHeader>, Error>)
        ensures
            match stored {
                None => r matches Ok(None),
                Some(bytes) => match stored_header(bytes@) {
                    Some(h) => r matches Ok(Some(header)) && header@ == h,
                    None => r matches Err(Error::HeaderError),
                },
            },
    {
        match stored {
            Some(bytes) => match VerifyHeader::decode(bytes) {
                Ok(header) => Ok(Some(header)),
                Err(e) => Err(e),
            },
            None => Ok(None),
        }
    }

    /// The stored form of the header, to be written to the header entry.
    pub fn sync_header(&self) -> (r: Vec<u8>)
        ensures
            r@ == self@.header.bytes(),
    {
        self.header.encode()
    }

    /// Opens what the data entry holds under the main passphrase; `Ok(None)`
    /// where the entry is missing. What [`PserDB::sync_psers`] made of a
    /// collection under the same passphrase is read back as that collection.
    pub fn load_psers(&self, stored: Option<&[u8]>) -> (r: Result<Option<Psers>, Error>)
        ensures
            match stored {
                None => r matches Ok(None),
                Some(blob) => match loaded(blob@, self@.passwd) {
                    Some(m) => r matches Ok(Some(psers)) && psers@ == m,
                    None => r matches Err(Error::DecryptionFailure),
                },
            },
            forall|m: Map<Seq<char>, PserView>|
                stored is Some && #[trigger] holds(stored->Some_0@, self@.passwd, m) ==> (
                r matches Ok(Some(psers)) && psers@ == m),
    {
        let blob = match stored {
            Some(blob) => blob,
            None => { return Ok(None); },
        };
        let plain = match EncryptData::decrypt(blob, self.main_passwd.as_str()) {
            Ok(plain) => plain,
            Err(_) => {
                return Err(Error::DecryptionFailure);
            },
        };
        match read_records(plain.as_slice()) {
            Some(rows) => Ok(Some(from_rows(&rows))),
            None => Err(Error::DecryptionFailure),
        }
    }

    /// Seals the whole collection under the main passphrase; the result is
    /// to be written to the data entry. Every call takes a fresh salt and a
    /// fresh nonce, so no two results are the same.
    pub fn sync_psers(&self) -> (r: Result<Vec<u8>, Error>)
        ensures
            match r {
                Ok(blob) => holds(blob@, self@.passwd, self@.psers),
                Err(e) => e == Error::EncryptionFailure,
            },
    {
        let rows = to_rows(&self.psers);
        let plain = write_records(&rows);
        let r = EncryptData::encrypt(plain.as_slice(), self.main_passwd.as_str());
        proof {
            if r is Ok {
                let blob = r->Ok_0;
                let (salt, nonce) = choose|salt: Seq<u8>, nonce: Seq<u8>|
                    salt.len() == SALT_LEN && nonce.len() == NONCE_LEN && #[trigger] sealed_blob(
                        plain@,
                        self@.passwd,
                        salt,
                        nonce,
                    ) == Some(blob@);
                assert(sealed_blob(records_encoding(rows_view(rows@)), self@.passwd, salt, nonce)
                    == Some(blob@));
            }
        }
        r
    }

    /// Binds the store to another main passphrase: makes a new header for
    /// `plain_passwd`, for the minute that starts at `cur_min`, and seals the
    /// whole collection under `plain_passwd`. Returns the header, to be
    /// written first, and the sealed collection, to be written behind it.
    pub fn change_passwd_at(&mut self, plain_passwd: &str, cur_min: i64) -> (r: (
        Vec<u8>,
        Result<Vec<u8>, Error>,
    ))
        ensures
            final(self)@ == (DbView {
                passwd: plain_passwd@,
                header: HeaderView {
                    window_start: cur_min,
                    attempt_count: 0,
                    digest: crate::digest::passwd_digest(plain_passwd@),
                },
                psers: old(self)@.psers,
            }),
            r.0@ == final(self)@.header.bytes(),
            match r.1 {
                Ok(blob) => holds(blob@, plain_passwd@, old(self)@.psers),
                Err(e) => e == Error::EncryptionFailure,
            },
    {
        self.header = VerifyHeader::new_at(plain_passwd, cur_min);
        self.main_passwd = plain_passwd.to_owned();
        let header = self.sync_header();
        (header, self.sync_psers())
    }

    /// Binds the store to another main passphrase, as of now.
    /// [`PserDB::change_passwd_at`] says what becomes of the store for each
    /// minute.
    pub fn change_passwd(&mut self, plain_passwd: &str) -> (r: (Vec<u8>, Result<Vec<u8>, Error>))
        ensures
            final(self)@.passwd == plain_passwd@,
            final(self)@.psers == old(self)@.psers,
            is_minute_start(final(self)@.header.window_start),
            final(self)@.header.attempt_count == 0,
            final(self)@.header.digest == crate::digest::passwd_digest(plain_passwd@),
            r.0@ == final(self)@.header.bytes(),
            match r.1 {
                Ok(blob) => holds(blob@, plain_passwd@, old(self)@.psers),
                Err(e) => e == Error::EncryptionFailure,
            },
    {
        self.change_passwd_at(plain_passwd, cur_min_timestamp())
    }

    /// Adds `pser` under a fresh random identifier and seals the collection.
    /// Returns the identifier and the sealed collection. Should the
    /// identifier be one that is in use, the record under it is replaced.
    pub fn insert(&mut self, pser: Pser) -> (r: (String, Result<Vec<u8>, Error>))
        ensures
            is_simple_id(r.0@),
            final(self)@ == (DbView {
                psers: old(self)@.psers.insert(r.0@, pser@),
                ..old(self)@
            }),
            match r.1 {
                Ok(blob) => holds(blob@, final(self)@.passwd, final(self)@.psers),
                Err(e) => e == Error::EncryptionFailure,
            },
    {
        let id = fresh_id();
        let sealed = self.update(id.as_str(), pser);
        (id, sealed)
    }

    /// Puts `pser` under `uuid`, in place of what was there, if anything was,
    /// and seals the collection.
    pub fn update(&mut self, uuid: &str, pser: Pser) -> (r: Result<Vec<u8>, Error>)
        ensures
            final(self)@ == (DbView {
                psers: old(self)@.psers.insert(uuid@, pser@),
                ..old(self)@
            }),
            match r {
                Ok(blob) => holds(blob@, final(self)@.passwd, final(self)@.psers),
                Err(e) => e == Error::EncryptionFailure,
            },
    {
        self.psers.insert(uuid.to_owned(), pser);
        self.sync_psers()
    }

    /// Every record with its identifier, in no particular order.
    pub fn all_pser(&self) -> (r: Vec<(&String, &Pser)>)
        ensures
            lists_exactly(listed(r@), self@.psers, |id: Seq<char>, p: PserView| true),
    {
        self.select(Pick::All)
    }

    /// Every record that `str` names, with its identifier, in no particular
    /// order. A record is named where the lower-case form of `str` stands in
    /// the lower-case form of its site or of its description.
    pub fn query(&self, str: &str) -> (r: Vec<(&String, &Pser)>)
        ensures
            lists_exactly(
                listed(r@),
                self@.psers,
                |id: Seq<char>, p: PserView| p.mentions(unicode_lower(str@)),
            ),
    {
        let needle = str.to_lowercase();
        self.query_lowered(needle.as_str())
    }

    /// Every record that `needle`, already in lower case, names.
    pub fn query_lowered(&self, needle: &str) -> (r: Vec<(&String, &Pser)>)
        ensures
            lists_exactly(
                listed(r@),
                self@.psers,
                |id: Seq<char>, p: PserView| p.mentions(needle@),
            ),
    {
        self.select(Pick::Named(needle))
    }

    /// Every identifier that begins with `uuid_prefix`, in no particular
    /// order. Upper and lower case are told apart.
    pub fn uuid_by_prefix(&self, uuid_prefix: &str) -> (r: Vec<String>)
        ensures
            forall|i: int|
                0 <= i < r@.len() ==> self@.psers.contains_key(#[trigger] r@[i]@)
                    && uuid_prefix@.is_prefix_of(r@[i]@),
            forall|id: Seq<char>|
                self@.psers.contains_key(id) && uuid_prefix@.is_prefix_of(id) ==> exists|i: int|
                    0 <= i < r@.len() && #[trigger] r@[i]@ == id,
            forall|i: int, j: int| 0 <= i < j < r@.len() ==> r@[i]@ != r@[j]@,
    {
        let found = self.select(Pick::Prefixed(uuid_prefix));
        let mut out: Vec<String> = Vec::new();
        let mut i: usize = 0;
        while i < found.len()
            invariant
                i <= found@.len(),
                out@.len() == i,
                forall|j: int| 0 <= j < i ==> out@[j]@ == listed(found@)[j].0,
            decreases found@.len() - i,
        {
            out.push(found[i].0.clone());
            i += 1;
        }
        proof {
            let keep = |id: Seq<char>, p: PserView| uuid_prefix@.is_prefix_of(id);
            assert forall|id: Seq<char>|
                self@.psers.contains_key(id) && uuid_prefix@.is_prefix_of(id) implies exists|
                i: int,
            |
                0 <= i < out@.len() && #[trigger] out@[i]@ == id by {
                assert(keep(id, self@.psers[id]));
                let i = choose|i: int|
                    0 <= i < listed(found@).len() && #[trigger] listed(found@)[i].0 == id;
                assert(out@[i]@ == id);
            }
            assert forall|i: int| 0 <= i < out@.len() implies self@.psers.contains_key(
                #[trigger] out@[i]@,
            ) && uuid_prefix@.is_prefix_of(out@[i]@) by {
                assert(keep(listed(found@)[i].0, listed(found@)[i].1));
            }
            assert forall|i: int, j: int| 0 <= i < j < out@.len() implies out@[i]@ != out@[j]@ by {
                assert(listed(found@)[i].0 != listed(found@)[j].0);
            }
        }
        out
    }

    /// Takes away the record under `uuid`, if there is one, and seals the
    /// collection.
    pub fn remove(&mut self, uuid: &str) -> (r: Result<Vec<u8>, Error>)
        ensures
            final(self)@ == (DbView { psers: old(self)@.psers.remove(uuid@), ..old(self)@ }),
            match r {
                Ok(blob) => holds(blob@, final(self)@.passwd, final(self)@.psers),
                Err(e) => e == Error::EncryptionFailure,
            },
    {
        self.psers.remove(uuid);
        self.sync_psers()
    }

    /// Takes away every record and seals the empty collection.
    pub fn clear(&mut self) -> (r: Result<Vec<u8>, Error>)
        ensures
            final(self)@ == (DbView { psers: Map::empty(), ..old(self)@ }),
            match r {
                Ok(blob) => holds(blob@, final(self)@.passwd, final(self)@.psers),
                Err(e) => e == Error::EncryptionFailure,
            },
    {
        self.psers.clear();
        self.sync_psers()
    }

    /// The record under `uuid`, if there is one.
    pub fn get_pser(&self, uuid: &str) -> (r: Option<&Pser>)
        ensures
            match r {
                Some(p) => self@.psers.contains_key(uuid@) && self@.psers[uuid@] == p@,
                None => !self@.psers.contains_key(uuid@),
            },
    {
        self.psers.get(uuid)
    }

    /// The record under `uuid`, to be changed in place, if there is one. The
    /// store then holds the changed record; nothing is sealed until the next
    /// operation that seals.
    pub fn get_pser_mut(&mut self, uuid: &str) -> (r: Option<&mut Pser>)
        ensures
            match r {
                Some(p) => old(self)@.psers.contains_key(uuid@) && p@ == old(self)@.psers[uuid@]
                    && final(self)@ == (DbView {
                    psers: old(self)@.psers.insert(uuid@, final(p)@),
                    ..old(self)@
                }),
                None => !old(self)@.psers.contains_key(uuid@) && final(self)@ == old(self)@,
            },
    {
        self.psers.get_mut(uuid)
    }

    /// The records that `pick` picks, each with its identifier.
    fn select(&self, pick: Pick<'_>) -> (r: Vec<(&String, &Pser)>)
        ensures
            lists_exactly(listed(r@), self@.psers, pick.keeps()),
    {
        let entries = self.psers.inner();
        let mut out: Vec<(&String, &Pser)> = Vec::new();
        let ghost keep = pick.keeps();
        let ghost mut from: Seq<int> = Seq::empty();
        let mut i: usize = 0;
        while i < entries.len()
            invariant
                i <= entries@.len(),
                keep == pick.keeps(),
                from.len() == out@.len(),
                forall|k: int|
                    0 <= k < from.len() ==> 0 <= #[trigger] from[k] < i && out@[k].0
                        == entries@[from[k]].0 && out@[k].1 == entries@[from[k]].1 && keep(
                        entries@[from[k]].0@,
                        entries@[from[k]].1@,
                    ),
                forall|a: int, b: int| 0 <= a < b < from.len() ==> from[a] < from[b],
                forall|j: int|
                    0 <= j < i && keep(#[trigger] entries@[j].0@, entries@[j].1@) ==> exists|
                        k: int,
                    | 0 <= k < from.len() && from[k] == j,
            decreases entries@.len() - i,
        {
            let entry = entries[i];
            if pick.picks(entry.0, entry.1) {
                out.push((entry.0, entry.1));
                proof {
                    let ghost before = from;
                    from = from.push(i as int);
                    assert forall|j: int|
                        0 <= j < i + 1 && keep(
                            #[trigger] entries@[j].0@,
                            entries@[j].1@,
                        ) implies exists|k: int| 0 <= k < from.len() && from[k] == j by {
                        if j < i {
                            let k = choose|k: int| 0 <= k < before.len() && before[k] == j;
                            assert(from[k] == j);
                        } else {
                            assert(from[before.len() as int] == j);
                        }
                    }
                }
            }
            i += 1;
        }
        proof {
            let e = crate::pser::entries_of(entries@);
            let list = listed(out@);
            assert forall|k: int| 0 <= k < list.len() implies self@.psers.contains_key(
                #[trigger] list[k].0,
            ) && self@.psers[list[k].0] == list[k].1 && keep(list[k].0, list[k].1) by {
                crate::pser::lemma_entry_in_map(e, from[k]);
            }
            assert forall|id: Seq<char>|
                self@.psers.contains_key(id) && keep(id, self@.psers[id]) implies exists|k: int|
                0 <= k < list.len() && #[trigger] list[k].0 == id by {
                let j = choose|j: int| crate::pser::id_at(e, id, j);
                crate::pser::lemma_entry_in_map(e, j);
                assert(keep(entries@[j].0@, entries@[j].1@));
                let k = choose|k: int| 0 <= k < from.len() && from[k] == j;
                assert(list[k].0 == id);
            }
            assert forall|a: int, b: int| 0 <= a < b < list.len() implies list[a].0
                != list[b].0 by {
                assert(from[a] < from[b]);
                assert(list[a].0 == e[from[a]].0@ && list[b].0 == e[from[b]].0@);
            }
        }
        out
    }
}

/// Which records a listing takes.
enum Pick<'a> {
    /// Every record.
    All,
    /// The records that this text, already in lower case, names.
    Named(&'a str),
    /// The records whose identifier begins with this text.
    Prefixed(&'a str),
}

impl<'a> Pick<'a> {
    /// What the choice takes, as a predicate on identifier and record.
    spec fn keeps(self) -> spec_fn(Seq<char>, PserView) -> bool {
        match self {
            Pick::All => |id: Seq<char>, p: PserView| true,
            Pick::Named(needle) => |id: Seq<char>, p: PserView| p.mentions(needle@),
            Pick::Prefixed(prefix) => |id: Seq<char>, p: PserView| prefix@.is_prefix_of(id),
        }
    }

    /// Whether the choice takes `pser`, which stands under `id`.
    fn picks(&self, id: &String, pser: &Pser) -> (r: bool)
        ensures
            r == (self.keeps())(id@, pser@),
    {
        match self {
            Pick::All => true,
            Pick::Named(needle) => pser.matches_lowered(needle),
            Pick::Prefixed(prefix) => starts_with(&chars_of(id.as_str()), &chars_of(prefix)),
        }
    }
}

} // verus!
