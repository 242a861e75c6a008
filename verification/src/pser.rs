//! The credential record and the collection that holds all records.

use std::collections::HashMap;
use vstd::prelude::*;
use vstd::std_specs::hash::*;
use vstd::std_specs::iter::IteratorSpec;

use vstd::string::StringExecFns;

use crate::clock::{datetime_string, datetime_text, now_timestamp, EAST8_SECS};
use crate::text::{chars_of, contains, contains_text, unicode_lower};
use crate::url::{domain_from_url, ends_host, lemma_domain_is_bare, url_domain};

verus! {

broadcast use group_hash_axioms;

/// What a record holds, as plain mathematical values.
#[verifier::ext_equal]
pub struct PserView {
    pub username: Seq<char>,
    pub url: Seq<char>,
    pub desc: Seq<char>,
    pub email: Seq<char>,
    pub phone: Seq<char>,
    pub passwd: Seq<char>,
    pub comment: Seq<char>,
    /// Earlier passwords, each under the second at which it was replaced.
    pub history: Map<i64, Seq<char>>,
}

/// One credential entry. Any text field may be empty.
#[derive(Debug, Clone)]
pub struct Pser {
    /// Account or user name.
    pub username: String,
    /// The site the account belongs to, kept as a bare domain.
    pub url: String,
    /// What the account is for; may stand beside `url` or in its place.
    pub desc: String,
    pub email: String,
    pub phone: String,
    /// The current password, or a comma-separated mnemonic.
    pub passwd: String,
    /// Free-text notes.
    pub comment: String,
    /// Earlier passwords, each under the second (since the epoch) at which it
    /// was replaced.
    pub history: HashMap<i64, String>,
}

/// The texts of a password history.
pub open spec fn history_view(h: Map<i64, String>) -> Map<i64, Seq<char>> {
    Map::new(|k: i64| h.contains_key(k), |k: i64| h[k]@)
}

impl View for Pser {
    type V = PserView;

    open spec fn view(&self) -> PserView {
        PserView {
            username: self.username@,
            url: self.url@,
            desc: self.desc@,
            email: self.email@,
            phone: self.phone@,
            passwd: self.passwd@,
            comment: self.comment@,
            history: history_view(self.history@),
        }
    }
}

/// How the moment of a password change is shown: as date and time eight
/// hours east of Greenwich, or as nothing where the second has no date.
pub open spec fn change_time_text(secs: i64) -> Seq<char> {
    match datetime_text(secs, EAST8_SECS) {
        Some(text) => text,
        None => Seq::empty(),
    }
}

/// `list` shows each entry of `history` once: the moment of the change and
/// the password that was replaced then.
pub open spec fn shows_history(list: Seq<(String, String)>, history: Map<i64, Seq<char>>) -> bool {
    exists|seconds: Seq<i64>|
        {
            &&& seconds.len() == list.len()
            &&& seconds.no_duplicates()
            &&& forall|k: i64| history.contains_key(k) <==> seconds.contains(k)
            &&& forall|i: int|
                0 <= i < list.len() ==> (#[trigger] list[i]).0@ == change_time_text(seconds[i])
                    && list[i].1@ == history[seconds[i]]
        }
}

/// `label` and `value` in one piece, or nothing where `value` is empty.
pub open spec fn labelled(label: Seq<char>, value: Seq<char>) -> Seq<char> {
    if value.len() > 0 {
        label + value
    } else {
        Seq::empty()
    }
}

/// A line of `label` and `value`, or nothing where `value` is empty.
pub open spec fn labelled_line(label: Seq<char>, value: Seq<char>) -> Seq<char> {
    if value.len() > 0 {
        label + value + "\n"@
    } else {
        Seq::empty()
    }
}

/// `s` with every `,` and `;` turned into a line break.
pub open spec fn broken_at_separators(s: Seq<char>) -> Seq<char> {
    Seq::new(s.len(), |i: int| if s[i] == ',' || s[i] == ';' { '\n' } else { s[i] })
}

/// `needle` stands in one of the two texts, as they are.
pub open spec fn stands_in_either(url: Seq<char>, desc: Seq<char>, needle: Seq<char>) -> bool {
    contains_text(url, needle) || contains_text(desc, needle)
}

impl PserView {
    /// Whether the record is named by `needle`: whether `needle` stands in
    /// the lower-case form of the site or of the description.
    pub open spec fn mentions(self, needle: Seq<char>) -> bool {
        stands_in_either(unicode_lower(self.url), unicode_lower(self.desc), needle)
    }

    /// The one-line summary: site, account name and password, each left out
    /// where empty, then the identifier where one is given.
    pub open spec fn simple_text(self, uuid: Option<Seq<char>>) -> Seq<char> {
        labelled("url:"@, self.url) + labelled("|账户名:"@, self.username) + labelled(
            "|密码:"@,
            self.passwd,
        ) + match uuid {
            Some(u) => "|UUID:"@ + u,
            None => Seq::empty(),
        }
    }

    /// The full listing: a heading with the identifier where one is given,
    /// then one line for each field that is not empty. In the notes every
    /// `,` and `;` starts a new line.
    pub open spec fn vertical_text(self, uuid: Option<Seq<char>>) -> Seq<char> {
        (match uuid {
            Some(u) => "-[ UUID: "@ + u + " ]----------------------\n"@,
            None => Seq::empty(),
        }) + labelled_line("账户名(account): "@, self.username) + labelled_line(
            "所属(desc): "@,
            self.desc,
        ) + labelled_line("所属网站(url): "@, self.url) + labelled_line(
            "邮箱(email): "@,
            self.email,
        ) + labelled_line("联系方式(phone): "@, self.phone) + labelled_line(
            "密码(passwd): "@,
            self.passwd,
        ) + labelled_line("备注(comment): "@, broken_at_separators(self.comment))
    }

    /// The record with every field empty and no history.
    pub open spec fn empty() -> PserView {
        PserView {
            username: Seq::empty(),
            url: Seq::empty(),
            desc: Seq::empty(),
            email: Seq::empty(),
            phone: Seq::empty(),
            passwd: Seq::empty(),
            comment: Seq::empty(),
            history: Map::empty(),
        }
    }

    /// The record after its password is replaced by `passwd` at second `now`:
    /// a non-empty old password moves into the history under `now`.
    pub open spec fn with_passwd(self, passwd: Seq<char>, now: i64) -> PserView {
        PserView {
            passwd: passwd,
            history: if self.passwd.len() > 0 {
                self.history.insert(now, self.passwd)
            } else {
                self.history
            },
            ..self
        }
    }
}

impl Pser {
    /// A record with every field empty and no history.
    pub fn new() -> (r: Self)
        ensures
            r@ == PserView::empty(),
    {
        let r = Pser {
            username: String::new(),
            url: String::new(),
            desc: String::new(),
            email: String::new(),
            phone: String::new(),
            passwd: String::new(),
            comment: String::new(),
            history: HashMap::new(),
        };
        assert(r@.history =~= Map::empty());
        r
    }

    /// Sets the account name.
    pub fn set_username(&mut self, username: &str) -> (ret: &mut Self)
        ensures
            *final(self) == *final(ret),
            ret@ == (PserView { username: username@, ..old(self)@ }),
    {
        self.username = username.to_owned();
        self
    }

    /// Sets the site to the bare host of `url`, which holds no `/`, no `?`
    /// and no line break.
    pub fn set_url(&mut self, url: &str) -> (ret: &mut Self)
        requires
            url_domain(url@) is Some,
        ensures
            *final(self) == *final(ret),
            ret@ == (PserView { url: url_domain(url@)->0, ..old(self)@ }),
            forall|i: int| 0 <= i < ret@.url.len() ==> !ends_host(ret@.url[i]),
    {
        proof {
            lemma_domain_is_bare(url@);
        }
        match domain_from_url(url) {
            Some(domain) => {
                self.url = domain;
            },
            None => {},
        }
        self
    }

    /// Sets the description.
    pub fn set_desc(&mut self, desc: &str) -> (ret: &mut Self)
        ensures
            *final(self) == *final(ret),
            ret@ == (PserView { desc: desc@, ..old(self)@ }),
    {
        self.desc = desc.to_owned();
        self
    }

    /// Sets the email address.
    pub fn set_email(&mut self, email: &str) -> (ret: &mut Self)
        ensures
            *final(self) == *final(ret),
            ret@ == (PserView { email: email@, ..old(self)@ }),
    {
        self.email = email.to_owned();
        self
    }

    /// Sets the phone number.
    pub fn set_phone(&mut self, phone: &str) -> (ret: &mut Self)
        ensures
            *final(self) == *final(ret),
            ret@ == (PserView { phone: phone@, ..old(self)@ }),
    {
        self.phone = phone.to_owned();
        self
    }

    /// Sets the notes.
    pub fn set_comment(&mut self, comment: &str) -> (ret: &mut Self)
        ensures
            *final(self) == *final(ret),
            ret@ == (PserView { comment: comment@, ..old(self)@ }),
    {
        self.comment = comment.to_owned();
        self
    }

    /// Replaces the password as of now. What is known of the moment is only
    /// that it is some second `now`; [`Pser::set_passwd_at`] says what
    /// becomes of the record for each.
    pub fn set_passwd(&mut self, passwd: &str) -> (ret: &mut Self)
        ensures
            *final(self) == *final(ret),
            exists|now: i64| ret@ == old(self)@.with_passwd(passwd@, now),
    {
        let now = now_timestamp();
        self.set_passwd_at(passwd, now);
        self
    }

    /// Replaces the password as of second `now`. A non-empty old password is
    /// kept in the history under `now`; an empty one leaves no trace.
    pub fn set_passwd_at(&mut self, passwd: &str, now: i64)
        ensures
            final(self)@ == old(self)@.with_passwd(passwd@, now),
    {
        let mut old_passwd = passwd.to_owned();
        std::mem::swap(&mut self.passwd, &mut old_passwd);
        if !old_passwd.as_str().is_empty() {
            self.history.insert(now, old_passwd);
            assert(history_view(self.history@) =~= history_view(old(self).history@).insert(
                now,
                old(self).passwd@,
            ));
        }
    }

    /// Every earlier password with the moment at which it was replaced, in
    /// no particular order.
    pub fn history_passwds(&self) -> (r: Vec<(String, String)>)
        ensures
            shows_history(r@, self@.history),
    {
        let mut out: Vec<(String, String)> = Vec::new();
        let iter = self.history.iter();
        let ghost pairs = iter.remaining();
        for pair in it: iter
            invariant
                it.seq() == pairs,
                out@.len() == it.index(),
                forall|j: int|
                    0 <= j < out@.len() ==> (#[trigger] out@[j]).0@ == change_time_text(
                        *pairs[j].0,
                    ) && out@[j].1@ == (*pairs[j].1)@,
        {
            let (k, v) = pair;
            let when = match datetime_string(*k, EAST8_SECS) {
                Some(text) => text,
                None => String::new(),
            };
            out.push((when, v.clone()));
        }
        proof {
            let h = self.history@;
            let seconds = Seq::new(pairs.len(), |i: int| *pairs[i].0);
            assert forall|i: int, j: int|
                0 <= i < seconds.len() && 0 <= j < seconds.len() && i != j implies seconds[i]
                != seconds[j] by {
                if seconds[i] == seconds[j] {
                    assert(h[*pairs[i].0] == *pairs[i].1);
                    assert(h[*pairs[j].0] == *pairs[j].1);
                    assert(pairs[i] == pairs[j]);
                }
            }
            assert forall|k: i64| self@.history.contains_key(k) <==> seconds.contains(k) by {
                if h.contains_key(k) {
                    assert(pairs.contains((&k, &h[k])));
                    let i = choose|i: int| 0 <= i < pairs.len() && pairs[i] == (&k, &h[k]);
                    assert(seconds[i] == k);
                }
                if seconds.contains(k) {
                    let i = choose|i: int| 0 <= i < seconds.len() && seconds[i] == k;
                    assert(h.contains_key(*pairs[i].0));
                }
            }
            assert forall|i: int| 0 <= i < out@.len() implies (#[trigger] out@[i]).0@
                == change_time_text(seconds[i]) && out@[i].1@ == self@.history[seconds[i]] by {
                assert(h[*pairs[i].0] == *pairs[i].1);
            }
            assert(seconds.len() == out@.len());
            assert(seconds.no_duplicates());
        }
        out
    }

    /// Whether `needle`, already in lower case, names this record: whether it
    /// stands in the lower-case form of the site or of the description.
    pub fn matches_lowered(&self, needle: &str) -> (r: bool)
        ensures
            r == self@.mentions(needle@),
    {
        let url = self.url.as_str().to_lowercase();
        let desc = self.desc.as_str().to_lowercase();
        found_in_either(url.as_str(), desc.as_str(), needle)
    }

    /// Whether `str` names this record, whatever its case: whether its
    /// lower-case form stands in the lower-case form of the site or of the
    /// description. A record is always named by its own site and by its own
    /// description.
    pub fn is_me(&self, str: &str) -> (r: bool)
        ensures
            r == self@.mentions(unicode_lower(str@)),
    {
        let needle = str.to_lowercase();
        self.matches_lowered(needle.as_str())
    }

    /// The record on one line: site, account name and password, then the
    /// identifier where one is given.
    pub fn simple_display(&self, uuid: Option<&str>) -> (r: String)
        ensures
            r@ == self@.simple_text(
                match uuid {
                    Some(u) => Some(u@),
                    None => None,
                },
            ),
    {
        let mut out = String::new();
        put(&mut out, "url:", self.url.as_str());
        put(&mut out, "|账户名:", self.username.as_str());
        put(&mut out, "|密码:", self.passwd.as_str());
        if let Some(u) = uuid {
            out.append("|UUID:");
            out.append(u);
        }
        out
    }

    /// The record in full, one field on each line, under a heading with the
    /// identifier where one is given.
    pub fn verical_display(&self, uuid: Option<&str>) -> (r: String)
        ensures
            r@ == self@.vertical_text(
                match uuid {
                    Some(u) => Some(u@),
                    None => None,
                },
            ),
    {
        let mut out = String::new();
        if let Some(u) = uuid {
            out.append("-[ UUID: ");
            out.append(u);
            out.append(" ]----------------------\n");
        }
        put_line(&mut out, "账户名(account): ", self.username.as_str());
        put_line(&mut out, "所属(desc): ", self.desc.as_str());
        put_line(&mut out, "所属网站(url): ", self.url.as_str());
        put_line(&mut out, "邮箱(email): ", self.email.as_str());
        put_line(&mut out, "联系方式(phone): ", self.phone.as_str());
        put_line(&mut out, "密码(passwd): ", self.passwd.as_str());
        let notes = break_at_separators(self.comment.as_str());
        put_line(&mut out, "备注(comment): ", notes.as_str());
        out
    }
}

/// Whether `needle` stands in `url` or in `desc`, as they are.
pub fn found_in_either(url: &str, desc: &str, needle: &str) -> (r: bool)
    ensures
        r == stands_in_either(url@, desc@, needle@),
{
    let needle = chars_of(needle);
    if contains(&chars_of(url), &needle) {
        return true;
    }
    contains(&chars_of(desc), &needle)
}

/// A record is named by its own site and by its own description, in
/// whatever case they are written: a text always stands in itself.
pub proof fn lemma_named_by_own_texts(p: PserView)
    ensures
        p.mentions(unicode_lower(p.url)),
        p.mentions(unicode_lower(p.desc)),
{
    let url = unicode_lower(p.url);
    let desc = unicode_lower(p.desc);
    assert(url.subrange(0, url.len() as int) =~= url);
    assert(crate::text::occurs_at(url, url, 0));
    assert(desc.subrange(0, desc.len() as int) =~= desc);
    assert(crate::text::occurs_at(desc, desc, 0));
}

/// Appends `label` and `value` to `out`, unless `value` is empty.
fn put(out: &mut String, label: &str, value: &str)
    ensures
        final(out)@ == old(out)@ + labelled(label@, value@),
{
    if !value.is_empty() {
        out.append(label);
        out.append(value);
    }
}

/// Appends a line of `label` and `value` to `out`, unless `value` is empty.
fn put_line(out: &mut String, label: &str, value: &str)
    ensures
        final(out)@ == old(out)@ + labelled_line(label@, value@),
{
    if !value.is_empty() {
        out.append(label);
        out.append(value);
        out.append("\n");
    }
}

/// Turns every `,` and `;` of `s` into a line break.
fn break_at_separators(s: &str) -> (r: String)
    ensures
        r@ == broken_at_separators(s@),
{
    let v = chars_of(s);
    let mut out = String::new();
    let mut i: usize = 0;
    while i < v.len()
        invariant
            i <= v.len(),
            v@ == s@,
            out@ == broken_at_separators(s@).take(i as int),
        decreases v.len() - i,
    {
        let c = v[i];
        if c == ',' || c == ';' {
            out.push('\n');
        } else {
            out.push(c);
        }
        i += 1;
    }
    out
}

/// No identifier heads two entries of `e`.
pub open spec fn distinct_ids(e: Seq<(String, Pser)>) -> bool {
    forall|i: int, j: int| 0 <= i < j < e.len() ==> e[i].0@ != e[j].0@
}

/// `id` heads the entry at position `i` of `e`.
pub open spec fn id_at(e: Seq<(String, Pser)>, id: Seq<char>, i: int) -> bool {
    0 <= i < e.len() && e[i].0@ == id
}

/// The mapping that a list of entries with distinct identifiers stands for.
pub open spec fn entries_map(e: Seq<(String, Pser)>) -> Map<Seq<char>, PserView> {
    Map::new(
        |id: Seq<char>| exists|i: int| id_at(e, id, i),
        |id: Seq<char>| e[choose|i: int| id_at(e, id, i)].1@,
    )
}

/// In a list with distinct identifiers, the entry at `i` is what the mapping
/// holds under its identifier.
pub proof fn lemma_entry_in_map(e: Seq<(String, Pser)>, i: int)
    requires
        distinct_ids(e),
        0 <= i < e.len(),
    ensures
        entries_map(e).contains_key(e[i].0@),
        entries_map(e)[e[i].0@] == e[i].1@,
{
    let id = e[i].0@;
    assert(id_at(e, id, i));
    let j = choose|j: int| id_at(e, id, j);
    assert(j == i);
}

/// Where the record of an entry is replaced and its identifier kept, the
/// identifiers stay distinct, and the mapping holds the new record under that
/// identifier and is otherwise as before.
pub proof fn lemma_entry_replaced(e: Seq<(String, Pser)>, after: Seq<(String, Pser)>, i: int)
    requires
        distinct_ids(e),
        0 <= i < e.len(),
        after.len() == e.len(),
        forall|j: int| 0 <= j < e.len() ==> after[j].0@ == e[j].0@,
        forall|j: int| 0 <= j < e.len() && j != i ==> after[j].1@ == e[j].1@,
    ensures
        distinct_ids(after),
        entries_map(after) == entries_map(e).insert(e[i].0@, after[i].1@),
{
    let id = e[i].0@;
    let x = after[i].1@;
    assert forall|k: Seq<char>|
        entries_map(after).contains_key(k) <==> entries_map(e).insert(id, x).contains_key(k) by {
        if entries_map(after).contains_key(k) {
            let j = choose|j: int| id_at(after, k, j);
            assert(id_at(e, k, j));
        }
        if entries_map(e).contains_key(k) {
            let j = choose|j: int| id_at(e, k, j);
            assert(id_at(after, k, j));
        }
        if k == id {
            assert(id_at(after, k, i));
        }
    }
    assert forall|k: Seq<char>| entries_map(after).contains_key(k) implies #[trigger] entries_map(
        after,
    )[k] == entries_map(e).insert(id, x)[k] by {
        let j = choose|j: int| id_at(after, k, j);
        lemma_entry_in_map(after, j);
        if j != i {
            assert(id_at(e, k, j));
            lemma_entry_in_map(e, j);
        }
    }
    assert(entries_map(after) =~= entries_map(e).insert(id, x));
}

/// Where an entry with a new identifier is put behind the others, the
/// identifiers stay distinct and the mapping gains that entry.
pub proof fn lemma_entry_added(e: Seq<(String, Pser)>, after: Seq<(String, Pser)>)
    requires
        distinct_ids(e),
        after.len() == e.len() + 1,
        forall|j: int| 0 <= j < e.len() ==> after[j].0@ == e[j].0@ && after[j].1@ == e[j].1@,
        !entries_map(e).contains_key(after.last().0@),
    ensures
        distinct_ids(after),
        entries_map(after) == entries_map(e).insert(after.last().0@, after.last().1@),
{
    let n = e.len() as int;
    let id = after[n].0@;
    let x = after[n].1@;
    assert forall|a: int, b: int| 0 <= a < b < after.len() implies after[a].0@ != after[b].0@ by {
        if b == n {
            assert(!id_at(e, id, a));
        }
    }
    assert forall|k: Seq<char>|
        entries_map(after).contains_key(k) <==> entries_map(e).insert(id, x).contains_key(k) by {
        if entries_map(after).contains_key(k) {
            let j = choose|j: int| id_at(after, k, j);
            if j < n {
                assert(id_at(e, k, j));
            }
        }
        if entries_map(e).contains_key(k) {
            let j = choose|j: int| id_at(e, k, j);
            assert(id_at(after, k, j));
        }
        if k == id {
            assert(id_at(after, k, n));
        }
    }
    assert forall|k: Seq<char>| entries_map(after).contains_key(k) implies #[trigger] entries_map(
        after,
    )[k] == entries_map(e).insert(id, x)[k] by {
        let j = choose|j: int| id_at(after, k, j);
        lemma_entry_in_map(after, j);
        if j < n {
            assert(id_at(e, k, j));
            lemma_entry_in_map(e, j);
        }
    }
    assert(entries_map(after) =~= entries_map(e).insert(id, x));
}

/// Where the entry at `i` is taken out, the identifiers stay distinct and
/// the mapping loses that entry.
pub proof fn lemma_entry_removed(e: Seq<(String, Pser)>, after: Seq<(String, Pser)>, i: int)
    requires
        distinct_ids(e),
        0 <= i < e.len(),
        after.len() == e.len() - 1,
        forall|j: int| 0 <= j < i ==> after[j].0@ == e[j].0@ && after[j].1@ == e[j].1@,
        forall|j: int|
            i <= j < after.len() ==> after[j].0@ == e[j + 1].0@ && after[j].1@ == e[j + 1].1@,
    ensures
        distinct_ids(after),
        entries_map(after) == entries_map(e).remove(e[i].0@),
{
    let id = e[i].0@;
    assert forall|a: int, b: int| 0 <= a < b < after.len() implies after[a].0@ != after[b].0@ by {
        let a0 = if a < i { a } else { a + 1 };
        let b0 = if b < i { b } else { b + 1 };
        assert(after[a].0@ == e[a0].0@ && after[b].0@ == e[b0].0@);
    }
    assert forall|k: Seq<char>|
        entries_map(after).contains_key(k) <==> entries_map(e).remove(id).contains_key(k) by {
        if entries_map(after).contains_key(k) {
            let j = choose|j: int| id_at(after, k, j);
            let j0 = if j < i { j } else { j + 1 };
            assert(id_at(e, k, j0));
        }
        if entries_map(e).contains_key(k) && k != id {
            let j = choose|j: int| id_at(e, k, j);
            let j1 = if j < i { j } else { j - 1 };
            assert(id_at(after, k, j1));
        }
    }
    assert forall|k: Seq<char>| entries_map(after).contains_key(k) implies #[trigger] entries_map(
        after,
    )[k] == entries_map(e).remove(id)[k] by {
        let j = choose|j: int| id_at(after, k, j);
        let j0 = if j < i { j } else { j + 1 };
        lemma_entry_in_map(after, j);
        assert(id_at(e, k, j0));
        lemma_entry_in_map(e, j0);
    }
    assert(entries_map(after) =~= entries_map(e).remove(id));
}

/// No text stands twice in `ids`.
pub open spec fn distinct_texts(ids: Seq<String>) -> bool {
    forall|i: int, j: int| 0 <= i < j < ids.len() ==> ids[i]@ != ids[j]@
}

/// The entries that a list of identifiers and a list of records of the same
/// length stand for: each identifier with the record at its place.
pub open spec fn paired(ids: Seq<String>, records: Seq<Pser>) -> Seq<(String, Pser)> {
    Seq::new(ids.len(), |i: int| (ids[i], records[i]))
}

/// A list of entries that are held elsewhere, as the entries themselves.
pub open spec fn entries_of(list: Seq<(&String, &Pser)>) -> Seq<(String, Pser)> {
    Seq::new(list.len(), |i: int| (*list[i].0, *list[i].1))
}

/// Identifiers that are distinct as the heads of entries are distinct as
/// texts.
proof fn lemma_distinct_texts(ids: Seq<String>, records: Seq<Pser>)
    requires
        ids.len() == records.len(),
        distinct_ids(paired(ids, records)),
    ensures
        distinct_texts(ids),
{
    let e = paired(ids, records);
    assert forall|i: int, j: int| 0 <= i < j < ids.len() implies ids[i]@ != ids[j]@ by {
        assert(e[i].0 == ids[i] && e[j].0 == ids[j]);
    }
}

/// The place of `id` in a list of identifiers, if it stands there.
fn position(ids: &Vec<String>, id: &str) -> (r: Option<usize>)
    ensures
        match r {
            Some(i) => i < ids@.len() && ids@[i as int]@ == id@,
            None => forall|k: int| 0 <= k < ids@.len() ==> ids@[k]@ != id@,
        },
{
    let mut i: usize = 0;
    while i < ids.len()
        invariant
            i <= ids@.len(),
            forall|k: int| 0 <= k < i ==> ids@[k]@ != id@,
        decreases ids@.len() - i,
    {
        if ids[i].as_str().eq(id) {
            return Some(i);
        }
        i += 1;
    }
    None
}

/// All records, each under its identifier. No identifier occurs twice; the
/// order of the entries carries no meaning.
///
/// Identifiers and records are kept in two lists of one length, not in a
/// hash map keyed by `String`: `vstd` has no key model for `String`, so
/// nothing could be proved of such a map. With the records in a list of
/// their own, a record can be handed out for change while the identifiers
/// stay as they are.
#[derive(Debug)]
pub struct Psers {
    /// The identifiers.
    ids: Vec<String>,
    /// For each identifier, at the same place, its record.
    records: Vec<Pser>,
}

impl View for Psers {
    type V = Map<Seq<char>, PserView>;

    closed spec fn view(&self) -> Map<Seq<char>, PserView> {
        entries_map(paired(self.ids@, self.records@))
    }
}

impl Psers {
    #[verifier::type_invariant]
    spec fn well_formed(&self) -> bool {
        self.ids@.len() == self.records@.len() && distinct_texts(self.ids@)
    }

    /// The empty collection.
    pub fn new() -> (r: Self)
        ensures
            r@ == Map::<Seq<char>, PserView>::empty(),
    {
        let r = Psers { ids: Vec::new(), records: Vec::new() };
        assert(r@ =~= Map::empty());
        r
    }

    /// The entries, in the order in which they are kept.
    pub fn inner(&self) -> (r: Vec<(&String, &Pser)>)
        ensures
            distinct_ids(entries_of(r@)),
            entries_map(entries_of(r@)) == self@,
    {
        proof {
            use_type_invariant(self);
        }
        assert(distinct_ids(paired(self.ids@, self.records@)));
        let mut out: Vec<(&String, &Pser)> = Vec::new();
        let mut i: usize = 0;
        while i < self.ids.len()
            invariant
                i <= self.ids@.len(),
                self.ids@.len() == self.records@.len(),
                out@.len() == i,
                forall|k: int|
                    0 <= k < i ==> *(#[trigger] out@[k]).0 == self.ids@[k] && *out@[k].1
                        == self.records@[k],
            decreases self.ids@.len() - i,
        {
            out.push((&self.ids[i], &self.records[i]));
            i += 1;
        }
        assert(entries_of(out@) =~= paired(self.ids@, self.records@));
        out
    }

    /// The number of records.
    pub fn len(&self) -> (r: usize)
        ensures
            r == self@.dom().len(),
            self@.dom().finite(),
    {
        proof {
            use_type_invariant(self);
            assert(distinct_ids(paired(self.ids@, self.records@)));
            lemma_entries_count(paired(self.ids@, self.records@));
        }
        self.ids.len()
    }

    /// The record under `id`, if there is one.
    pub fn get(&self, id: &str) -> (r: Option<&Pser>)
        ensures
            match r {
                Some(p) => self@.contains_key(id@) && self@[id@] == p@,
                None => !self@.contains_key(id@),
            },
    {
        proof {
            use_type_invariant(self);
        }
        let ghost e = paired(self.ids@, self.records@);
        assert(distinct_ids(e));
        match position(&self.ids, id) {
            Some(i) => {
                proof {
                    lemma_entry_in_map(e, i as int);
                }
                Some(&self.records[i])
            },
            None => {
                proof {
                    if entries_map(e).contains_key(id@) {
                        let j = choose|j: int| id_at(e, id@, j);
                        assert(self.ids@[j]@ == id@);
                    }
                }
                None
            },
        }
    }

    /// The record under `id`, to be changed in place, if there is one. The
    /// collection then holds the changed record under `id`.
    pub fn get_mut(&mut self, id: &str) -> (r: Option<&mut Pser>)
        ensures
            match r {
                Some(p) => old(self)@.contains_key(id@) && p@ == old(self)@[id@] && final(self)@
                    == old(self)@.insert(id@, final(p)@),
                None => !old(self)@.contains_key(id@) && final(self)@ == old(self)@,
            },
    {
        proof {
            use_type_invariant(&*self);
        }
        let ghost ids = self.ids@;
        let ghost records = self.records@;
        let ghost e = paired(ids, records);
        assert(distinct_ids(e));
        match position(&self.ids, id) {
            Some(i) => {
                proof {
                    lemma_entry_in_map(e, i as int);
                    assert forall|x: Pser| #[trigger]
                        entries_map(paired(ids, records.update(i as int, x))) == entries_map(
                            e,
                        ).insert(id@, x@) by {
                        lemma_entry_replaced(e, paired(ids, records.update(i as int, x)), i as int);
                    }
                }
                Some(&mut self.records[i])
            },
            None => {
                proof {
                    if entries_map(e).contains_key(id@) {
                        let j = choose|j: int| id_at(e, id@, j);
                        assert(ids[j]@ == id@);
                    }
                }
                None
            },
        }
    }

    /// Puts `pser` under `id`, in place of what was there, if anything was.
    pub fn insert(&mut self, id: String, pser: Pser)
        ensures
            final(self)@ == old(self)@.insert(id@, pser@),
    {
        proof {
            use_type_invariant(&*self);
        }
        let mut taken = Psers::new();
        std::mem::swap(self, &mut taken);
        let Psers { ids, records } = taken;
        let mut ids = ids;
        let mut records = records;
        let ghost e = paired(ids@, records@);
        assert(distinct_ids(e));
        match position(&ids, id.as_str()) {
            Some(i) => {
                records.set(i, pser);
                proof {
                    lemma_entry_replaced(e, paired(ids@, records@), i as int);
                }
            },
            None => {
                proof {
                    if entries_map(e).contains_key(id@) {
                        let j = choose|j: int| id_at(e, id@, j);
                        assert(ids@[j]@ == id@);
                    }
                }
                ids.push(id);
                records.push(pser);
                proof {
                    lemma_entry_added(e, paired(ids@, records@));
                }
            },
        }
        proof {
            lemma_distinct_texts(ids@, records@);
        }
        *self = Psers { ids, records };
    }

    /// Takes away the record under `id`, if there is one.
    pub fn remove(&mut self, id: &str)
        ensures
            final(self)@ == old(self)@.remove(id@),
    {
        proof {
            use_type_invariant(&*self);
        }
        let mut taken = Psers::new();
        std::mem::swap(self, &mut taken);
        let Psers { ids, records } = taken;
        let mut ids = ids;
        let mut records = records;
        let ghost e = paired(ids@, records@);
        assert(distinct_ids(e));
        match position(&ids, id) {
            Some(i) => {
                ids.remove(i);
                records.remove(i);
                proof {
                    lemma_entry_removed(e, paired(ids@, records@), i as int);
                }
            },
            None => {
                proof {
                    if entries_map(e).contains_key(id@) {
                        let j = choose|j: int| id_at(e, id@, j);
                        assert(e[j].0@ == id@);
                    }
                    assert(entries_map(e) =~= entries_map(e).remove(id@));
                }
            },
        }
        proof {
            lemma_distinct_texts(ids@, records@);
        }
        *self = Psers { ids, records };
    }

    /// Takes away every record.
    pub fn clear(&mut self)
        ensures
            final(self)@ == Map::<Seq<char>, PserView>::empty(),
    {
        *self = Psers::new();
    }
}

/// The identifiers that head the first `n` entries of `e`.
pub open spec fn ids_upto(e: Seq<(String, Pser)>, n: int) -> Set<Seq<char>> {
    Set::new(|id: Seq<char>| exists|i: int| id_at(e, id, i) && i < n)
}

/// A list with distinct identifiers stands for a mapping with as many keys
/// as the list has entries.
pub proof fn lemma_entries_count(e: Seq<(String, Pser)>)
    requires
        distinct_ids(e),
    ensures
        entries_map(e).dom().finite(),
        entries_map(e).dom().len() == e.len(),
{
    lemma_ids_upto_count(e, e.len() as int);
    assert(entries_map(e).dom() =~= ids_upto(e, e.len() as int));
}

/// The first `n` entries of a list with distinct identifiers carry `n`
/// identifiers.
proof fn lemma_ids_upto_count(e: Seq<(String, Pser)>, n: int)
    requires
        distinct_ids(e),
        0 <= n <= e.len(),
    ensures
        ids_upto(e, n).finite(),
        ids_upto(e, n).len() == n,
    decreases n,
{
    if n == 0 {
        assert(ids_upto(e, 0) =~= Set::empty());
    } else {
        lemma_ids_upto_count(e, n - 1);
        let id = e[n - 1].0@;
        assert(id_at(e, id, n - 1));
        assert(ids_upto(e, n) =~= ids_upto(e, n - 1).insert(id)) by {
            assert forall|k: Seq<char>| ids_upto(e, n).contains(k) implies ids_upto(
                e,
                n - 1,
            ).insert(id).contains(k) by {
                let i = choose|i: int| id_at(e, k, i) && i < n;
                if i < n - 1 {
                    assert(id_at(e, k, i) && i < n - 1);
                }
            }
        }
        assert(!ids_upto(e, n - 1).contains(id));
    }
}

/// A password that is set on a record without one leaves no trace in the
/// history. When it is replaced in turn, the history gains one entry: the
/// first password, under the second of the replacement.
pub proof fn lemma_history_accumulates(
    p: PserView,
    first: Seq<char>,
    second: Seq<char>,
    t1: i64,
    t2: i64,
)
    requires
        p.passwd.len() == 0,
        first.len() > 0,
    ensures
        p.with_passwd(first, t1).history == p.history,
        p.with_passwd(first, t1).with_passwd(second, t2).history == p.history.insert(t2, first),
        p.with_passwd(first, t1).with_passwd(second, t2).history[t2] == first,
        p.with_passwd(first, t1).with_passwd(second, t2).passwd == second,
{
}

/// The history only grows: a change of password takes no entry away, and
/// changes no entry but the one for the second of the change.
pub proof fn lemma_history_only_grows(p: PserView, passwd: Seq<char>, now: i64)
    ensures
        forall|k: i64|
            p.history.contains_key(k) ==> #[trigger] p.with_passwd(passwd, now).history.contains_key(
                k,
            ),
        forall|k: i64|
            p.history.contains_key(k) && k != now ==> #[trigger] p.with_passwd(
                passwd,
                now,
            ).history[k] == p.history[k],
{
}

/// Putting the same record under the same identifier twice is the same as
/// putting it there once: the collection holds one entry under the
/// identifier, and that entry is the record.
pub proof fn lemma_update_twice(psers: Map<Seq<char>, PserView>, id: Seq<char>, pser: PserView)
    ensures
        psers.insert(id, pser).insert(id, pser) == psers.insert(id, pser),
        psers.insert(id, pser).contains_key(id),
        psers.insert(id, pser)[id] == pser,
{
    assert(psers.insert(id, pser).insert(id, pser) =~= psers.insert(id, pser));
}

/// The collection after the records of `added` are put into it one after
/// the other, each under its identifier.
pub open spec fn after_inserts(
    psers: Map<Seq<char>, PserView>,
    added: Seq<(Seq<char>, PserView)>,
) -> Map<Seq<char>, PserView>
    decreases added.len(),
{
    if added.len() == 0 {
        psers
    } else {
        after_inserts(psers, added.drop_last()).insert(added.last().0, added.last().1)
    }
}

/// Records that are added under identifiers of which none is in use and no
/// two are the same all stay: the collection grows by their number.
pub proof fn lemma_fresh_ids_all_stay(
    psers: Map<Seq<char>, PserView>,
    added: Seq<(Seq<char>, PserView)>,
)
    requires
        psers.dom().finite(),
        forall|i: int| 0 <= i < added.len() ==> !psers.contains_key(#[trigger] added[i].0),
        forall|i: int, j: int| 0 <= i < j < added.len() ==> added[i].0 != added[j].0,
    ensures
        after_inserts(psers, added).dom().finite(),
        after_inserts(psers, added).dom().len() == psers.dom().len() + added.len(),
        forall|id: Seq<char>|
            after_inserts(psers, added).contains_key(id) <==> psers.contains_key(id) || exists|
                i: int,
            | 0 <= i < added.len() && #[trigger] added[i].0 == id,
    decreases added.len(),
{
    if added.len() > 0 {
        let init = added.drop_last();
        let last = added.last();
        lemma_fresh_ids_all_stay(psers, init);
        let before = after_inserts(psers, init);
        assert(!before.contains_key(last.0)) by {
            if before.contains_key(last.0) {
                let i = choose|i: int| 0 <= i < init.len() && #[trigger] init[i].0 == last.0;
                assert(added[i].0 == added[added.len() - 1].0);
            }
        }
        assert forall|id: Seq<char>|
            after_inserts(psers, added).contains_key(id) <==> psers.contains_key(id) || exists|
                i: int,
            | 0 <= i < added.len() && #[trigger] added[i].0 == id by {
            if before.contains_key(id) && !psers.contains_key(id) {
                let i = choose|i: int| 0 <= i < init.len() && #[trigger] init[i].0 == id;
                assert(added[i].0 == id);
            }
            if id == last.0 {
                assert(added[added.len() - 1].0 == id);
            }
            if exists|i: int| 0 <= i < added.len() && #[trigger] added[i].0 == id {
                let i = choose|i: int| 0 <= i < added.len() && #[trigger] added[i].0 == id;
                if i < added.len() - 1 {
                    assert(init[i].0 == id);
                }
            }
        }
    }
}

impl Default for Pser {
    /// A record with every field empty and no history.
    fn default() -> (r: Self)
        ensures
            r@ == PserView::empty(),
    {
        Pser::new()
    }
}

impl Default for Psers {
    /// The empty collection.
    fn default() -> (r: Self)
        ensures
            r@ == Map::<Seq<char>, PserView>::empty(),
    {
        Psers::new()
    }
}

} // verus!
