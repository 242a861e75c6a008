//! What a caller asks for when a record is added or changed, or when
//! passwords are generated, and how a request is carried out.

use vstd::prelude::*;
use vstd::string::StringExecFns;

use crate::clock::now_timestamp;
use crate::gen_rand::{charset, gen_passwd, picked};
use crate::pser::{Pser, PserView};
use crate::text::{chars_of, string_of};
use crate::url::url_domain;

verus! {

/// A request to add a record, or to change the one that `uuid` names. A
/// field that is `None` is left as it is.
#[derive(Debug, Clone)]
pub struct InsertCmd {
    /// The identifier of the record to change, or a beginning of it; `None`
    /// to add a record.
    pub uuid: Option<String>,
    /// Account or user name.
    pub user: Option<String>,
    /// The site the account belongs to.
    pub url: Option<String>,
    /// What the account is for.
    pub desc: Option<String>,
    /// The email address. With a `+` in front, the rest is added behind
    /// the address on record, after a comma.
    pub email: Option<String>,
    /// The phone number. With a `+` in front, the rest is added behind the
    /// number on record, after a comma.
    pub phone: Option<String>,
    /// The password, or a comma-separated mnemonic.
    pub passwd: Option<String>,
    /// Notes. With a `+` in front, the rest is added behind the notes on
    /// record.
    pub comment: Option<String>,
}

/// A request for random passwords.
#[derive(Debug, Clone, Copy)]
pub struct GenPasswdCmd {
    /// Draw from the capital letters.
    pub up: bool,
    /// Draw from the small letters.
    pub down: bool,
    /// Draw from the digits.
    pub num: bool,
    /// Draw from the signs `)(*&^%$#@!~`.
    pub punc: bool,
    /// How many passwords to make.
    pub cnt: usize,
    /// The length of each password.
    pub len: u8,
}

/// A text that may be missing, as a plain value.
pub open spec fn opt_text(o: Option<String>) -> Option<Seq<char>> {
    match o {
        Some(s) => Some(s@),
        None => None,
    }
}

/// A request to add or change a record, as plain values.
pub struct InsertView {
    pub uuid: Option<Seq<char>>,
    pub user: Option<Seq<char>>,
    pub url: Option<Seq<char>>,
    pub desc: Option<Seq<char>>,
    pub email: Option<Seq<char>>,
    pub phone: Option<Seq<char>>,
    pub passwd: Option<Seq<char>>,
    pub comment: Option<Seq<char>>,
}

impl View for InsertCmd {
    type V = InsertView;

    open spec fn view(&self) -> InsertView {
        InsertView {
            uuid: opt_text(self.uuid),
            user: opt_text(self.user),
            url: opt_text(self.url),
            desc: opt_text(self.desc),
            email: opt_text(self.email),
            phone: opt_text(self.phone),
            passwd: opt_text(self.passwd),
            comment: opt_text(self.comment),
        }
    }
}

/// `given` asks for an addition: it begins with `+`.
pub open spec fn is_addition(given: Seq<char>) -> bool {
    given.len() > 0 && given[0] == '+'
}

/// A field of several entries after `given` is applied to it: an addition
/// goes behind what is there, after a comma; anything else takes its place.
pub open spec fn amended(old: Seq<char>, given: Seq<char>) -> Seq<char> {
    if is_addition(given) {
        old + seq![','] + given.skip(1)
    } else {
        given
    }
}

impl InsertView {
    /// Every site that the request names can be read as a URL.
    pub open spec fn well_formed(self) -> bool {
        self.url matches Some(u) ==> url_domain(u) is Some
    }
}

impl PserView {
    /// The record after `opt` is applied to it at second `now`. The fields
    /// are taken in the order name, site, description, email, phone,
    /// password, notes. An addition to the notes goes straight behind the
    /// notes on record and puts a comma behind the phone number.
    pub open spec fn updated(self, opt: InsertView, now: i64) -> PserView {
        let p = PserView {
            username: match opt.user {
                Some(u) => u,
                None => self.username,
            },
            url: match opt.url {
                Some(u) => url_domain(u)->0,
                None => self.url,
            },
            desc: match opt.desc {
                Some(d) => d,
                None => self.desc,
            },
            email: match opt.email {
                Some(e) => amended(self.email, e),
                None => self.email,
            },
            phone: match opt.phone {
                Some(t) => amended(self.phone, t),
                None => self.phone,
            },
            ..self
        };
        let p = match opt.passwd {
            Some(w) => p.with_passwd(w, now),
            None => p,
        };
        match opt.comment {
            Some(c) => if is_addition(c) {
                PserView { phone: p.phone + seq![','], comment: p.comment + c.skip(1), ..p }
            } else {
                PserView { comment: c, ..p }
            },
            None => p,
        }
    }
}

/// What stands behind the `+` of an addition; `None` for anything else.
fn addition(given: &str) -> (r: Option<String>)
    ensures
        match r {
            Some(rest) => is_addition(given@) && rest@ == given@.skip(1),
            None => !is_addition(given@),
        },
{
    let v = chars_of(given);
    if v.len() > 0 && v[0] == '+' {
        let rest = string_of(&v, 1, v.len());
        assert(v@.subrange(1, v@.len() as int) =~= v@.skip(1));
        Some(rest)
    } else {
        None
    }
}

/// Applies `given` to a field of several entries.
fn amend(field: &mut String, given: &str)
    ensures
        final(field)@ == amended(old(field)@, given@),
{
    match addition(given) {
        Some(rest) => {
            field.push(',');
            field.append(rest.as_str());
            assert(field@ =~= old(field)@ + seq![','] + given@.skip(1));
        },
        None => {
            *field = given.to_owned();
        },
    }
}

/// Applies `opt` to `pser` at second `now`.
pub fn update_pser_at(pser: &mut Pser, opt: &InsertCmd, now: i64)
    requires
        opt@.well_formed(),
    ensures
        final(pser)@ == old(pser)@.updated(opt@, now),
{
    if let Some(user) = &opt.user {
        pser.set_username(user.as_str());
    }
    if let Some(url) = &opt.url {
        pser.set_url(url.as_str());
    }
    if let Some(desc) = &opt.desc {
        pser.set_desc(desc.as_str());
    }
    if let Some(email) = &opt.email {
        amend(&mut pser.email, email.as_str());
    }
    if let Some(phone) = &opt.phone {
        amend(&mut pser.phone, phone.as_str());
    }
    if let Some(passwd) = &opt.passwd {
        pser.set_passwd_at(passwd.as_str(), now);
    }
    if let Some(comment) = &opt.comment {
        match addition(comment.as_str()) {
            Some(rest) => {
                pser.phone.push(',');
                pser.comment.append(rest.as_str());
            },
            None => {
                pser.set_comment(comment.as_str());
            },
        }
    }
    assert(pser@ =~~= old(pser)@.updated(opt@, now));
}

/// Applies `opt` to `pser` as of now. [`update_pser_at`] says what becomes
/// of the record for each second.
pub fn update_pser(pser: &mut Pser, opt: &InsertCmd)
    requires
        opt@.well_formed(),
    ensures
        exists|now: i64| final(pser)@ == old(pser)@.updated(opt@, now),
{
    update_pser_at(pser, opt, now_timestamp());
}

/// A password of `len` characters drawn from the chosen classes.
pub open spec fn is_drawn(text: Seq<char>, opt: GenPasswdCmd) -> bool {
    exists|picks: Seq<usize>|
        picks.len() == opt.len && (forall|i: int|
            0 <= i < picks.len() ==> picks[i] < charset(
                opt.up,
                opt.down,
                opt.num,
                opt.punc,
            ).len()) && text == picked(charset(opt.up, opt.down, opt.num, opt.punc), picks)
}

/// Makes the passwords that `opt` asks for: `cnt` of them, each of `len`
/// characters drawn from the chosen classes. None is made where `len` is 0
/// or no class is chosen.
pub fn gen(opt: &GenPasswdCmd) -> (r: Vec<String>)
    ensures
        opt.len == 0 || charset(opt.up, opt.down, opt.num, opt.punc).len() == 0 ==> r@.len() == 0,
        opt.len > 0 && charset(opt.up, opt.down, opt.num, opt.punc).len() > 0 ==> r@.len()
            == opt.cnt,
        forall|i: int| 0 <= i < r@.len() ==> is_drawn(#[trigger] r@[i]@, *opt),
{
    let len = opt.len as usize;
    let mut out: Vec<String> = Vec::new();
    let mut i: usize = 0;
    while i < opt.cnt
        invariant
            i <= opt.cnt,
            len == opt.len,
            opt.len == 0 || charset(opt.up, opt.down, opt.num, opt.punc).len() == 0 ==> out@.len()
                == 0,
            opt.len > 0 && charset(opt.up, opt.down, opt.num, opt.punc).len() > 0 ==> out@.len()
                == i,
            forall|k: int| 0 <= k < out@.len() ==> is_drawn(#[trigger] out@[k]@, *opt),
        decreases opt.cnt - i,
    {
        let password = gen_passwd(opt.up, opt.down, opt.num, opt.punc, len);
        if !password.as_str().is_empty() {
            out.push(password);
        }
        i += 1;
    }
    out
}

} // verus!
