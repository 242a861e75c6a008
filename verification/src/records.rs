//! The stored form of the record collection.
//!
//! The collection is written as a list of rows, one for each record: the
//! identifier, the seven text fields, and the password history as a list of
//! pairs. A list that is read back may name an identifier, or a second of a
//! history, more than once; the last mention then counts.

use std::collections::HashMap;
use vstd::prelude::*;
use vstd::std_specs::hash::*;
use vstd::std_specs::iter::IteratorSpec;

use crate::pser::{
    entries_map, entries_of, history_view, lemma_entry_in_map, Pser, PserView, Psers,
};

verus! {

broadcast use group_hash_axioms;

/// The fields of a record in the order in which they are stored.
pub type Fields = (String, String, String, String, String, String, String, Vec<(i64, String)>);

/// A record with its identifier, as stored.
pub type Row = (String, Fields);

/// A row, as plain values.
pub struct RowView {
    pub id: Seq<char>,
    pub username: Seq<char>,
    pub url: Seq<char>,
    pub desc: Seq<char>,
    pub email: Seq<char>,
    pub phone: Seq<char>,
    pub passwd: Seq<char>,
    pub comment: Seq<char>,
    pub history: Seq<(i64, Seq<char>)>,
}

/// The pairs of a stored history, as plain values.
pub open spec fn history_rows_view(h: Seq<(i64, String)>) -> Seq<(i64, Seq<char>)> {
    Seq::new(h.len(), |i: int| (h[i].0, h[i].1@))
}

/// A row, as plain values.
pub open spec fn row_view(row: Row) -> RowView {
    RowView {
        id: row.0@,
        username: row.1.0@,
        url: row.1.1@,
        desc: row.1.2@,
        email: row.1.3@,
        phone: row.1.4@,
        passwd: row.1.5@,
        comment: row.1.6@,
        history: history_rows_view(row.1.7@),
    }
}

/// A list of rows, as plain values.
pub open spec fn rows_view(rows: Seq<Row>) -> Seq<RowView> {
    Seq::new(rows.len(), |i: int| row_view(rows[i]))
}

/// The history that a list of pairs stands for. Of two pairs for one second
/// the later counts.
pub open spec fn pairs_map(s: Seq<(i64, Seq<char>)>) -> Map<i64, Seq<char>>
    decreases s.len(),
{
    if s.len() == 0 {
        Map::empty()
    } else {
        pairs_map(s.drop_last()).insert(s.last().0, s.last().1)
    }
}

impl RowView {
    /// The record that the row holds.
    pub open spec fn record(self) -> PserView {
        PserView {
            username: self.username,
            url: self.url,
            desc: self.desc,
            email: self.email,
            phone: self.phone,
            passwd: self.passwd,
            comment: self.comment,
            history: pairs_map(self.history),
        }
    }
}

/// The collection that a list of rows stands for. Of two rows for one
/// identifier the later counts.
pub open spec fn rows_map(rows: Seq<RowView>) -> Map<Seq<char>, PserView>
    decreases rows.len(),
{
    if rows.len() == 0 {
        Map::empty()
    } else {
        rows_map(rows.drop_last()).insert(rows.last().id, rows.last().record())
    }
}

/// The bytes that `bincode::serialize` makes of a list of rows.
pub uninterp spec fn records_encoding(rows: Seq<RowView>) -> Seq<u8>;

/// What `bincode::deserialize` makes of bytes that are to hold a list of
/// rows; `None` where it reads no such list from them.
pub uninterp spec fn records_decoding(data: Seq<u8>) -> Option<Seq<RowView>>;

/// `bincode::serialize` on a list of rows. The bytes depend on the rows
/// alone. Writing into memory without a size limit, the call has no way to
/// fail.
#[verifier::external_body]
pub(crate) fn write_records(rows: &Vec<Row>) -> (r: Vec<u8>)
    ensures
        r@ == records_encoding(rows_view(rows@)),
{
    bincode::serialize(rows).unwrap()
}

/// `bincode::deserialize` into a list of rows; its failure is handed on as
/// `None`. The outcome depends on the bytes alone. What [`write_records`]
/// made of a list is read back as that list.
#[verifier::external_body]
pub(crate) fn read_records(data: &[u8]) -> (r: Option<Vec<Row>>)
    ensures
        match r {
            Some(rows) => records_decoding(data@) == Some(rows_view(rows@)) && forall|
                written: Vec<Row>,
            |
                data@ == #[trigger] records_encoding(rows_view(written@)) ==> rows_view(rows@)
                    == rows_view(written@),
            None => records_decoding(data@) is None && forall|written: Vec<Row>|
                data@ != #[trigger] records_encoding(rows_view(written@)),
        },
{
    bincode::deserialize::<Vec<Row>>(data).ok()
}

/// A second is named by some pair of `s`.
pub open spec fn names_second(s: Seq<(i64, Seq<char>)>, k: i64) -> bool {
    exists|i: int| 0 <= i < s.len() && s[i].0 == k
}

/// No second is named by two pairs of `s`.
pub open spec fn distinct_seconds(s: Seq<(i64, Seq<char>)>) -> bool {
    forall|i: int, j: int| 0 <= i < j < s.len() ==> s[i].0 != s[j].0
}

/// The history of a list of pairs holds the seconds that the pairs name.
pub proof fn lemma_pairs_map_keys(s: Seq<(i64, Seq<char>)>)
    ensures
        forall|k: i64| pairs_map(s).contains_key(k) <==> names_second(s, k),
    decreases s.len(),
{
    if s.len() > 0 {
        let init = s.drop_last();
        lemma_pairs_map_keys(init);
        assert forall|k: i64| pairs_map(s).contains_key(k) <==> names_second(s, k) by {
            if names_second(s, k) {
                let i = choose|i: int| 0 <= i < s.len() && s[i].0 == k;
                if i < s.len() - 1 {
                    assert(init[i].0 == k);
                    assert(names_second(init, k));
                }
            }
            if pairs_map(s).contains_key(k) && k != s.last().0 {
                assert(names_second(init, k));
                let i = choose|i: int| 0 <= i < init.len() && init[i].0 == k;
                assert(s[i].0 == k);
            }
            if k == s.last().0 {
                assert(s[s.len() - 1].0 == k);
            }
        }
    } else {
        assert forall|k: i64| pairs_map(s).contains_key(k) <==> names_second(s, k) by {}
    }
}

/// Where no second is named twice, the history holds each pair as it stands.
pub proof fn lemma_pairs_map_values(s: Seq<(i64, Seq<char>)>, i: int)
    requires
        distinct_seconds(s),
        0 <= i < s.len(),
    ensures
        pairs_map(s).contains_key(s[i].0),
        pairs_map(s)[s[i].0] == s[i].1,
    decreases s.len(),
{
    let init = s.drop_last();
    if i < s.len() - 1 {
        assert(init[i] == s[i]);
        lemma_pairs_map_values(init, i);
    }
}

/// Lists the pairs of a history, in no particular order.
pub fn history_rows(h: &HashMap<i64, String>) -> (r: Vec<(i64, String)>)
    ensures
        distinct_seconds(history_rows_view(r@)),
        pairs_map(history_rows_view(r@)) == history_view(h@),
{
    let mut out: Vec<(i64, String)> = Vec::new();
    let iter = h.iter();
    let ghost pairs = iter.remaining();
    for pair in it: iter
        invariant
            it.seq() == pairs,
            out@.len() == it.index(),
            forall|j: int|
                0 <= j < out@.len() ==> out@[j].0 == *pairs[j].0 && out@[j].1@ == (*pairs[j].1)@,
    {
        let (k, v) = pair;
        out.push((*k, v.clone()));
    }
    proof {
        let s = history_rows_view(out@);
        assert(s.len() == pairs.len());
        assert forall|i: int, j: int| 0 <= i < j < s.len() implies s[i].0 != s[j].0 by {
            if s[i].0 == s[j].0 {
                assert(h@[*pairs[i].0] == *pairs[i].1);
                assert(h@[*pairs[j].0] == *pairs[j].1);
                assert(pairs[i] == pairs[j]);
            }
        }
        lemma_pairs_map_keys(s);
        assert forall|k: i64| pairs_map(s).contains_key(k) <==> history_view(h@).contains_key(
            k,
        ) by {
            if names_second(s, k) {
                let i = choose|i: int| 0 <= i < s.len() && s[i].0 == k;
                assert(h@.contains_key(*pairs[i].0));
            }
            if h@.contains_key(k) {
                assert(pairs.contains((&k, &h@[k])));
                let i = choose|i: int| 0 <= i < pairs.len() && pairs[i] == (&k, &h@[k]);
                assert(s[i].0 == k);
            }
        }
        assert forall|k: i64| pairs_map(s).contains_key(k) implies #[trigger] pairs_map(s)[k]
            == history_view(h@)[k] by {
            assert(names_second(s, k));
            let i = choose|i: int| 0 <= i < s.len() && s[i].0 == k;
            lemma_pairs_map_values(s, i);
            assert(h@[*pairs[i].0] == *pairs[i].1);
        }
        assert(pairs_map(s) =~= history_view(h@));
    }
    out
}

/// Builds the history that a list of pairs stands for.
pub fn history_of(pairs: &Vec<(i64, String)>) -> (r: HashMap<i64, String>)
    ensures
        history_view(r@) == pairs_map(history_rows_view(pairs@)),
{
    let ghost all = history_rows_view(pairs@);
    let mut out: HashMap<i64, String> = HashMap::new();
    assert(history_view(out@) =~= pairs_map(all.take(0)));
    let mut i: usize = 0;
    while i < pairs.len()
        invariant
            i <= pairs@.len(),
            all == history_rows_view(pairs@),
            history_view(out@) == pairs_map(all.take(i as int)),
        decreases pairs@.len() - i,
    {
        let ghost before = out@;
        let text = pairs[i].1.clone();
        out.insert(pairs[i].0, text);
        proof {
            assert(all.take(i + 1).drop_last() =~= all.take(i as int));
            assert(all.take(i + 1).last() == all[i as int]);
            assert(history_view(out@) =~= history_view(before).insert(pairs@[i as int].0, text@));
        }
        i += 1;
    }
    assert(all.take(pairs@.len() as int) =~= all);
    out
}

/// An identifier heads some row of `rows`.
pub open spec fn names_id(rows: Seq<RowView>, id: Seq<char>) -> bool {
    exists|i: int| 0 <= i < rows.len() && rows[i].id == id
}

/// No identifier heads two rows of `rows`.
pub open spec fn distinct_row_ids(rows: Seq<RowView>) -> bool {
    forall|i: int, j: int| 0 <= i < j < rows.len() ==> rows[i].id != rows[j].id
}

/// The collection of a list of rows holds the identifiers that head the rows.
pub proof fn lemma_rows_map_keys(rows: Seq<RowView>)
    ensures
        forall|id: Seq<char>| rows_map(rows).contains_key(id) <==> names_id(rows, id),
    decreases rows.len(),
{
    if rows.len() > 0 {
        let init = rows.drop_last();
        lemma_rows_map_keys(init);
        assert forall|id: Seq<char>| rows_map(rows).contains_key(id) <==> names_id(rows, id) by {
            if names_id(rows, id) {
                let i = choose|i: int| 0 <= i < rows.len() && rows[i].id == id;
                if i < rows.len() - 1 {
                    assert(init[i].id == id);
                    assert(names_id(init, id));
                }
            }
            if rows_map(rows).contains_key(id) && id != rows.last().id {
                assert(names_id(init, id));
                let i = choose|i: int| 0 <= i < init.len() && init[i].id == id;
                assert(rows[i].id == id);
            }
            if id == rows.last().id {
                assert(rows[rows.len() - 1].id == id);
            }
        }
    } else {
        assert forall|id: Seq<char>| rows_map(rows).contains_key(id) <==> names_id(rows, id) by {}
    }
}

/// Where no identifier heads two rows, the collection holds the record of
/// each row as it stands.
pub proof fn lemma_rows_map_values(rows: Seq<RowView>, i: int)
    requires
        distinct_row_ids(rows),
        0 <= i < rows.len(),
    ensures
        rows_map(rows).contains_key(rows[i].id),
        rows_map(rows)[rows[i].id] == rows[i].record(),
    decreases rows.len(),
{
    let init = rows.drop_last();
    if i < rows.len() - 1 {
        assert(init[i] == rows[i]);
        lemma_rows_map_values(init, i);
    }
}

/// The row that holds `pser` under `id`.
fn row_of(id: &String, pser: &Pser) -> (r: Row)
    ensures
        row_view(r).id == id@,
        row_view(r).record() == pser@,
{
    (
        id.clone(),
        (
            pser.username.clone(),
            pser.url.clone(),
            pser.desc.clone(),
            pser.email.clone(),
            pser.phone.clone(),
            pser.passwd.clone(),
            pser.comment.clone(),
            history_rows(&pser.history),
        ),
    )
}

/// The record that `row` holds.
fn record_of(row: &Row) -> (r: Pser)
    ensures
        r@ == row_view(*row).record(),
{
    Pser {
        username: row.1.0.clone(),
        url: row.1.1.clone(),
        desc: row.1.2.clone(),
        email: row.1.3.clone(),
        phone: row.1.4.clone(),
        passwd: row.1.5.clone(),
        comment: row.1.6.clone(),
        history: history_of(&row.1.7),
    }
}

/// Lists the records of a collection as rows, one for each record.
pub fn to_rows(psers: &Psers) -> (r: Vec<Row>)
    ensures
        distinct_row_ids(rows_view(r@)),
        rows_map(rows_view(r@)) == psers@,
{
    let entries = psers.inner();
    let mut out: Vec<Row> = Vec::new();
    let mut i: usize = 0;
    while i < entries.len()
        invariant
            i <= entries@.len(),
            out@.len() == i,
            forall|j: int|
                0 <= j < i ==> row_view(out@[j]).id == entries@[j].0@ && row_view(
                    out@[j],
                ).record() == entries@[j].1@,
        decreases entries@.len() - i,
    {
        let row = row_of(entries[i].0, entries[i].1);
        out.push(row);
        i += 1;
    }
    proof {
        let rows = rows_view(out@);
        let e = entries_of(entries@);
        assert forall|a: int, b: int| 0 <= a < b < rows.len() implies rows[a].id != rows[b].id by {
            assert(rows[a].id == e[a].0@ && rows[b].id == e[b].0@);
        }
        lemma_rows_map_keys(rows);
        assert forall|id: Seq<char>| rows_map(rows).contains_key(id) <==> entries_map(
            e,
        ).contains_key(id) by {
            if names_id(rows, id) {
                let j = choose|j: int| 0 <= j < rows.len() && rows[j].id == id;
                assert(crate::pser::id_at(e, id, j));
            }
            if entries_map(e).contains_key(id) {
                let j = choose|j: int| crate::pser::id_at(e, id, j);
                assert(rows[j].id == id);
            }
        }
        assert forall|id: Seq<char>| rows_map(rows).contains_key(id) implies #[trigger] rows_map(
            rows,
        )[id] == entries_map(e)[id] by {
            assert(names_id(rows, id));
            let j = choose|j: int| 0 <= j < rows.len() && rows[j].id == id;
            lemma_rows_map_values(rows, j);
            lemma_entry_in_map(e, j);
        }
        assert(rows_map(rows) =~= entries_map(e));
    }
    out
}

/// Builds the collection that a list of rows stands for.
pub fn from_rows(rows: &Vec<Row>) -> (r: Psers)
    ensures
        r@ == rows_map(rows_view(rows@)),
{
    let ghost all = rows_view(rows@);
    let mut out = Psers::new();
    let mut i: usize = 0;
    assert(all.take(0) =~= Seq::empty());
    while i < rows.len()
        invariant
            i <= rows@.len(),
            all == rows_view(rows@),
            out@ == rows_map(all.take(i as int)),
        decreases rows@.len() - i,
    {
        let pser = record_of(&rows[i]);
        out.insert(rows[i].0.clone(), pser);
        proof {
            assert(all.take(i + 1).drop_last() =~= all.take(i as int));
            assert(all.take(i + 1).last() == all[i as int]);
        }
        i += 1;
    }
    assert(all.take(rows@.len() as int) =~= all);
    out
}

} // verus!
