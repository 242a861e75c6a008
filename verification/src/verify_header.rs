//! The verification header: a small unencrypted record that tells a right
//! passphrase from a wrong one without touching the encrypted data, and
//! that limits how many attempts one minute may hold.

use vstd::prelude::*;

use crate::clock::{cur_min_timestamp, is_minute_start};
use crate::codec::{read_header, write_header};
use crate::digest::{passwd_digest, passwd_sha512, same_bytes};
use crate::error::Error;
use crate::wire::{header_bytes, lemma_header_bytes_unique};

verus! {

/// The number of attempts from which on a window is closed.
pub const MAX_TRY: u16 = 200;

/// What a header holds, as plain values.
pub struct HeaderView {
    /// The first second of the minute in which the last attempt fell.
    pub window_start: i64,
    /// The attempts counted in that minute.
    pub attempt_count: u16,
    /// The digest of the right passphrase.
    pub digest: Seq<u8>,
}

impl HeaderView {
    /// The header after one more attempt, made in the minute that starts at
    /// `cur_min`. An attempt in the minute already on record is counted (the
    /// count stays where it is once it has reached the top of its range); an
    /// attempt in any other minute opens that minute with a count of zero.
    pub open spec fn advanced(self, cur_min: i64) -> HeaderView {
        if self.window_start == cur_min {
            HeaderView {
                attempt_count: if self.attempt_count < u16::MAX {
                    (self.attempt_count + 1) as u16
                } else {
                    u16::MAX
                },
                ..self
            }
        } else {
            HeaderView { window_start: cur_min, attempt_count: 0, ..self }
        }
    }

    /// The minute on record holds as many attempts as it may.
    pub open spec fn throttled(self) -> bool {
        self.attempt_count >= MAX_TRY
    }

    /// The header, as it stands, lets `passwd` through.
    pub open spec fn accepts(self, passwd: Seq<char>) -> bool {
        !self.throttled() && self.digest == passwd_digest(passwd)
    }

    /// The header after `n` attempts in a row, all in the minute that starts
    /// at `cur_min`.
    pub open spec fn advanced_times(self, cur_min: i64, n: nat) -> HeaderView
        decreases n,
    {
        if n == 0 {
            self
        } else {
            self.advanced_times(cur_min, (n - 1) as nat).advanced(cur_min)
        }
    }

    /// The stored form of the header.
    pub open spec fn bytes(self) -> Seq<u8> {
        header_bytes(self.window_start, self.attempt_count, self.digest)
    }

    /// `data` begins with the stored form of this header.
    pub open spec fn stored_in(self, data: Seq<u8>) -> bool {
        self.digest.len() <= u64::MAX && self.bytes().is_prefix_of(data)
    }
}

/// The header that `data` begins with, if it begins with one. Bytes behind
/// the header are let stand.
pub open spec fn stored_header(data: Seq<u8>) -> Option<HeaderView> {
    if exists|h: HeaderView| h.stored_in(data) {
        Some(choose|h: HeaderView| h.stored_in(data))
    } else {
        None
    }
}

/// The verification header of a store.
#[derive(Debug)]
pub struct VerifyHeader {
    /// The first second of the minute in which the last attempt fell.
    timestamp: i64,
    /// The attempts counted in that minute.
    try_count: u16,
    /// The SHA-512 digest of the main passphrase.
    verify_data: Vec<u8>,
}

impl View for VerifyHeader {
    type V = HeaderView;

    closed spec fn view(&self) -> HeaderView {
        HeaderView {
            window_start: self.timestamp,
            attempt_count: self.try_count,
            digest: self.verify_data@,
        }
    }
}

impl VerifyHeader {
    /// A header bound to `main_passwd`, with no attempt counted, for the
    /// minute that starts at `cur_min`.
    pub fn new_at(main_passwd: &str, cur_min: i64) -> (r: Self)
        ensures
            r@ == (HeaderView {
                window_start: cur_min,
                attempt_count: 0,
                digest: passwd_digest(main_passwd@),
            }),
    {
        VerifyHeader { timestamp: cur_min, try_count: 0, verify_data: passwd_sha512(main_passwd) }
    }

    /// A header bound to `main_passwd`, with no attempt counted, for the
    /// current minute.
    pub fn new(main_passwd: &str) -> (r: Self)
        ensures
            is_minute_start(r@.window_start),
            r@.attempt_count == 0,
            r@.digest == passwd_digest(main_passwd@),
    {
        Self::new_at(main_passwd, cur_min_timestamp())
    }

    /// Counts one attempt made in the minute that starts at `cur_min`, and
    /// says whether that minute is now closed.
    pub fn update_header_status_at(&mut self, cur_min: i64) -> (r: bool)
        ensures
            final(self)@ == old(self)@.advanced(cur_min),
            r == final(self)@.throttled(),
    {
        if self.timestamp == cur_min {
            if self.try_count < u16::MAX {
                self.try_count = self.try_count + 1;
            }
        } else {
            self.timestamp = cur_min;
            self.try_count = 0;
        }
        self.try_count >= MAX_TRY
    }

    /// Counts one attempt made now, and says whether the current minute is
    /// now closed. [`VerifyHeader::update_header_status_at`] says what
    /// becomes of the header for each minute.
    pub fn update_header_status(&mut self) -> (r: bool)
        ensures
            exists|cur_min: i64|
                is_minute_start(cur_min) && final(self)@ == old(self)@.advanced(cur_min),
            r == final(self)@.throttled(),
    {
        let cur_min = cur_min_timestamp();
        self.update_header_status_at(cur_min)
    }

    /// Counts one attempt made in the minute that starts at `cur_min`, then
    /// says whether a passphrase with the given digest is let through: the
    /// minute must not be closed, and the digest must be the one on record.
    /// The attempt is counted whatever the answer.
    pub fn verify_digest_at(&mut self, digest: &[u8], cur_min: i64) -> (r: bool)
        ensures
            final(self)@ == old(self)@.advanced(cur_min),
            r == (!final(self)@.throttled() && final(self)@.digest == digest@),
    {
        let try_wait = self.update_header_status_at(cur_min);
        let same = same_bytes(self.verify_data.as_slice(), digest);
        !try_wait && same
    }

    /// Counts one attempt made in the minute that starts at `cur_min`, then
    /// says whether `main_passwd` is let through: the minute must not be
    /// closed, and the passphrase must be the one the header is bound to.
    /// The attempt is counted whatever the answer.
    pub fn verify_header_at(&mut self, main_passwd: &str, cur_min: i64) -> (r: bool)
        ensures
            final(self)@ == old(self)@.advanced(cur_min),
            r == final(self)@.accepts(main_passwd@),
    {
        let digest = passwd_sha512(main_passwd);
        self.verify_digest_at(digest.as_slice(), cur_min)
    }

    /// Counts one attempt made now, then says whether `main_passwd` is let
    /// through. [`VerifyHeader::verify_header_at`] says what becomes of the
    /// header, and what the answer is, for each minute.
    pub fn verify_header(&mut self, main_passwd: &str) -> (r: bool)
        ensures
            exists|cur_min: i64|
                is_minute_start(cur_min) && final(self)@ == old(self)@.advanced(cur_min),
            r == final(self)@.accepts(main_passwd@),
    {
        let cur_min = cur_min_timestamp();
        self.verify_header_at(main_passwd, cur_min)
    }

    /// The stored form of the header. [`VerifyHeader::decode`] reads it back
    /// as this header.
    pub fn encode(&self) -> (r: Vec<u8>)
        ensures
            r@ == self@.bytes(),
            stored_header(r@) == Some(self@),
    {
        let digest_len: usize = self.verify_data.len();
        proof {
            assert(digest_len <= u64::MAX);
            lemma_header_round_trip(self@);
        }
        write_header(self.timestamp, self.try_count, &self.verify_data)
    }

    /// Reads a header from the front of `data`.
    pub fn decode(data: &[u8]) -> (r: Result<Self, Error>)
        ensures
            match r {
                Ok(h) => stored_header(data@) == Some(h@),
                Err(e) => e == Error::HeaderError && stored_header(data@) is None,
            },
    {
        match read_header(data) {
            Ok(fields) => {
                let h = VerifyHeader {
                    timestamp: fields.0,
                    try_count: fields.1,
                    verify_data: fields.2,
                };
                let digest_len: usize = h.verify_data.len();
                proof {
                    assert(digest_len <= u64::MAX);
                    assert(h@.stored_in(data@));
                    let c = choose|c: HeaderView| c.stored_in(data@);
                    lemma_header_bytes_unique(
                        h@.window_start,
                        h@.attempt_count,
                        h@.digest,
                        c.window_start,
                        c.attempt_count,
                        c.digest,
                        data@,
                    );
                }
                Ok(h)
            },
            Err(_) => {
                proof {
                    assert forall|h: HeaderView| !h.stored_in(data@) by {
                        if h.digest.len() <= u64::MAX {
                            assert(!header_bytes(
                                h.window_start,
                                h.attempt_count,
                                h.digest,
                            ).is_prefix_of(data@));
                        }
                    }
                }
                Err(Error::HeaderError)
            },
        }
    }
}

/// A header that is written and read back is the same header.
pub proof fn lemma_header_round_trip(h: HeaderView)
    requires
        h.digest.len() <= u64::MAX,
    ensures
        stored_header(h.bytes()) == Some(h),
{
    assert(h.stored_in(h.bytes()));
    let c = choose|c: HeaderView| c.stored_in(h.bytes());
    lemma_header_bytes_unique(
        h.window_start,
        h.attempt_count,
        h.digest,
        c.window_start,
        c.attempt_count,
        c.digest,
        h.bytes(),
    );
}

/// After `n` attempts in one minute, a header that began that minute without
/// any counts `n` of them, as far as its count reaches.
pub proof fn lemma_attempts_counted(h: HeaderView, n: nat)
    requires
        h.attempt_count == 0,
    ensures
        h.advanced_times(h.window_start, n).window_start == h.window_start,
        h.advanced_times(h.window_start, n).digest == h.digest,
        h.advanced_times(h.window_start, n).attempt_count == if n <= u16::MAX {
            n
        } else {
            u16::MAX as nat
        },
    decreases n,
{
    if n > 0 {
        lemma_attempts_counted(h, (n - 1) as nat);
    }
}

/// Within one minute the first 199 attempts with the right passphrase are let
/// through, and from the 200th on every attempt is turned down, whatever the
/// passphrase.
pub proof fn lemma_throttle_within_window(h: HeaderView, n: nat, passwd: Seq<char>)
    requires
        h.attempt_count == 0,
        n >= 1,
    ensures
        h.advanced_times(h.window_start, n).accepts(passwd) <==> n < MAX_TRY && h.digest
            == passwd_digest(passwd),
{
    lemma_attempts_counted(h, n);
}

/// Once the minute on record holds 200 attempts, one more attempt in that
/// minute is turned down, even with the right passphrase.
pub proof fn lemma_closed_window_rejects(h: HeaderView, passwd: Seq<char>)
    requires
        h.attempt_count >= MAX_TRY,
    ensures
        !h.advanced(h.window_start).accepts(passwd),
{
}

/// The first attempt in another minute is let through with the right
/// passphrase, however many attempts the minute before held.
pub proof fn lemma_new_window_accepts(h: HeaderView, cur_min: i64, passwd: Seq<char>)
    requires
        cur_min != h.window_start,
        h.digest == passwd_digest(passwd),
    ensures
        h.advanced(cur_min).accepts(passwd),
        h.advanced(cur_min).attempt_count == 0,
{
}

} // verus!
