//! Records from a table of comma-separated values, such as a browser writes
//! when it exports its saved passwords.
//!
//! The first line of the table names the columns. The columns `username`,
//! `url` and `password` must be there, `name` and `comment` may be; the
//! order is free and other columns are passed over. Every further line
//! gives one record. Where a line cannot be taken, the lines before it still
//! count and the rest is left.

use vstd::prelude::*;

use crate::pser::{Pser, PserView};
use crate::url::{domain_from_url, url_domain};

verus! {

/// A column that a table must have.
#[derive(Debug, Clone, Copy, PartialEq, Eq)]
pub enum Column {
    Username,
    Url,
    Password,
}

/// Why a table, or a line of it, could not be taken. Lines are counted from
/// the first line behind the column names, which is line 0.
#[derive(Debug, Clone, Copy, PartialEq, Eq)]
pub enum CsvFault {
    /// The line with the column names cannot be read.
    NoHeader,
    /// The column names lack this one.
    MissingColumn(Column),
    /// This line cannot be read as comma-separated values, or has another
    /// number of fields than the first line.
    BadRecord { record: usize },
    /// This line has no field in this column.
    MissingField { record: usize, column: Column },
    /// The site on this line cannot be read as a URL.
    BadUrl { record: usize },
}

/// The records that were taken from a table, and why the rest was not.
pub struct CsvImport {
    /// The records of the lines that were taken, in the order of the lines.
    pub psers: Vec<Pser>,
    /// Why the line behind them was not taken; `None` where every line was.
    pub fault: Option<CsvFault>,
}

/// A list of texts, as plain values.
pub open spec fn texts(v: Seq<String>) -> Seq<Seq<char>> {
    Seq::new(v.len(), |i: int| v[i]@)
}

/// The fields of the first line of a table, as the `csv` crate reads them
/// with its default settings; `None` where it cannot read the line.
pub uninterp spec fn csv_header(text: Seq<char>) -> Option<Seq<Seq<char>>>;

/// The lines behind the first line of a table, as the `csv` crate reads them
/// with its default settings: for each line its fields, or `None` where the
/// crate reports an error for the line.
pub uninterp spec fn csv_records(text: Seq<char>) -> Seq<Option<Seq<Seq<char>>>>;

/// What was read of a line, as plain values.
pub open spec fn record_texts(record: Option<Vec<String>>) -> Option<Seq<Seq<char>>> {
    match record {
        Some(fields) => Some(texts(fields@)),
        None => None,
    }
}

/// What was read of the lines of a table, as plain values.
pub open spec fn records_texts(records: Seq<Option<Vec<String>>>) -> Seq<Option<Seq<Seq<char>>>> {
    Seq::new(records.len(), |i: int| record_texts(records[i]))
}

/// `headers` of a `csv::Reader` over the text, made with `from_reader`: the
/// fields of the first line. An error of the reader is handed on as `None`.
/// The fields depend on the text alone.
#[verifier::external_body]
fn read_csv_header(text: &str) -> (r: Option<Vec<String>>)
    ensures
        record_texts(r) == csv_header(text@),
{
    let mut reader = csv::Reader::from_reader(text.as_bytes());
    let header = reader.headers().ok()?;
    Some(header.iter().map(String::from).collect())
}

/// `records` of a `csv::Reader` over the text, made with `from_reader`:
/// every line behind the first, with its fields, or with `None` where
/// the reader gives an error for it. What is read depends on the text alone.
#[verifier::external_body]
fn read_csv_records(text: &str) -> (r: Vec<Option<Vec<String>>>)
    ensures
        records_texts(r@) == csv_records(text@),
{
    csv::Reader::from_reader(text.as_bytes())
        .records()
        .map(|line| line.ok().map(|fields| fields.iter().map(String::from).collect()))
        .collect()
}

/// The first place at or behind `from` at which `name` stands in `header`.
pub open spec fn position_from(header: Seq<Seq<char>>, name: Seq<char>, from: int) -> Option<int>
    decreases header.len() - from,
{
    if from < 0 || from >= header.len() {
        None
    } else if header[from] == name {
        Some(from)
    } else {
        position_from(header, name, from + 1)
    }
}

/// Where the columns of a table stand.
pub struct ColumnsView {
    /// The column `name`, which gives the description.
    pub name: Option<int>,
    /// The column `comment`, which gives the notes.
    pub comment: Option<int>,
    pub username: int,
    pub url: int,
    pub passwd: int,
}

/// Where the columns stand in a line of column names, or which column is
/// missing: the first of `username`, `url` and `password` that is.
pub open spec fn columns_of(header: Seq<Seq<char>>) -> Result<ColumnsView, CsvFault> {
    match position_from(header, "username"@, 0) {
        None => Err(CsvFault::MissingColumn(Column::Username)),
        Some(username) => match position_from(header, "url"@, 0) {
            None => Err(CsvFault::MissingColumn(Column::Url)),
            Some(url) => match position_from(header, "password"@, 0) {
                None => Err(CsvFault::MissingColumn(Column::Password)),
                Some(passwd) => Ok(
                    ColumnsView {
                        name: position_from(header, "name"@, 0),
                        comment: position_from(header, "comment"@, 0),
                        username,
                        url,
                        passwd,
                    },
                ),
            },
        },
    }
}

/// The field of `row` in the column at `at`, if the row reaches that far.
pub open spec fn field_at(row: Seq<Seq<char>>, at: Option<int>) -> Option<Seq<char>> {
    match at {
        Some(i) => if 0 <= i < row.len() {
            Some(row[i])
        } else {
            None
        },
        None => None,
    }
}

/// A text that may be missing, or the empty text in its place.
pub open spec fn or_empty(text: Option<Seq<char>>) -> Seq<char> {
    match text {
        Some(t) => t,
        None => Seq::empty(),
    }
}

/// The record that line `record` of a table gives, or why it gives none.
/// The account name, the site and the password must be there, and the site
/// must read as a URL.
pub open spec fn record_of_line(
    cols: ColumnsView,
    line: Option<Seq<Seq<char>>>,
    record: usize,
) -> Result<PserView, CsvFault> {
    match line {
        None => Err(CsvFault::BadRecord { record }),
        Some(row) => if field_at(row, Some(cols.username)) is None {
            Err(CsvFault::MissingField { record, column: Column::Username })
        } else if field_at(row, Some(cols.url)) is None {
            Err(CsvFault::MissingField { record, column: Column::Url })
        } else if field_at(row, Some(cols.passwd)) is None {
            Err(CsvFault::MissingField { record, column: Column::Password })
        } else if url_domain(row[cols.url]) is None {
            Err(CsvFault::BadUrl { record })
        } else {
            Ok(
                PserView {
                    username: row[cols.username],
                    url: url_domain(row[cols.url])->0,
                    passwd: row[cols.passwd],
                    desc: or_empty(field_at(row, cols.name)),
                    comment: or_empty(field_at(row, cols.comment)),
                    ..PserView::empty()
                },
            )
        },
    }
}

/// `psers` and `fault` are what a table gives: nothing but the fault of its
/// column names; or else the records of its lines up to the first line that
/// gives none, and the fault of that line.
pub open spec fn is_import_of(
    psers: Seq<PserView>,
    fault: Option<CsvFault>,
    header: Option<Seq<Seq<char>>>,
    records: Seq<Option<Seq<Seq<char>>>>,
) -> bool {
    match header {
        None => psers.len() == 0 && fault == Some(CsvFault::NoHeader),
        Some(names) => match columns_of(names) {
            Err(f) => psers.len() == 0 && fault == Some(f),
            Ok(cols) => {
                &&& psers.len() <= records.len()
                &&& forall|i: int|
                    0 <= i < psers.len() ==> record_of_line(cols, records[i], i as usize) == Ok::<
                        PserView,
                        CsvFault,
                    >(#[trigger] psers[i])
                &&& psers.len() == records.len() ==> fault is None
                &&& psers.len() < records.len() ==> fault is Some && record_of_line(
                    cols,
                    records[psers.len() as int],
                    psers.len() as usize,
                ) == Err::<PserView, CsvFault>(fault->0)
            },
        },
    }
}

/// The records, as plain values.
pub open spec fn psers_view(psers: Seq<Pser>) -> Seq<PserView> {
    Seq::new(psers.len(), |i: int| psers[i]@)
}

/// Where the columns of a table stand.
struct Columns {
    name: Option<usize>,
    comment: Option<usize>,
    username: usize,
    url: usize,
    passwd: usize,
}

/// A place that may be missing, as a plain value.
pub open spec fn place_view(at: Option<usize>) -> Option<int> {
    match at {
        Some(i) => Some(i as int),
        None => None,
    }
}

impl View for Columns {
    type V = ColumnsView;

    closed spec fn view(&self) -> ColumnsView {
        ColumnsView {
            name: place_view(self.name),
            comment: place_view(self.comment),
            username: self.username as int,
            url: self.url as int,
            passwd: self.passwd as int,
        }
    }
}

/// The first place at which `name` stands in `header`.
pub fn column_position(header: &Vec<String>, name: &str) -> (r: Option<usize>)
    ensures
        place_view(r) == position_from(texts(header@), name@, 0),
{
    let mut i: usize = 0;
    while i < header.len()
        invariant
            i <= header@.len(),
            position_from(texts(header@), name@, 0) == position_from(
                texts(header@),
                name@,
                i as int,
            ),
        decreases header@.len() - i,
    {
        if header[i].as_str().eq(name) {
            return Some(i);
        }
        i += 1;
    }
    None
}

/// Finds the columns of a table in its line of column names.
fn find_columns(header: &Vec<String>) -> (r: Result<Columns, CsvFault>)
    ensures
        match r {
            Ok(cols) => columns_of(texts(header@)) == Ok::<ColumnsView, CsvFault>(cols@),
            Err(f) => columns_of(texts(header@)) == Err::<ColumnsView, CsvFault>(f),
        },
{
    let name = column_position(header, "name");
    let comment = column_position(header, "comment");
    let username = match column_position(header, "username") {
        Some(at) => at,
        None => { return Err(CsvFault::MissingColumn(Column::Username)); },
    };
    let url = match column_position(header, "url") {
        Some(at) => at,
        None => { return Err(CsvFault::MissingColumn(Column::Url)); },
    };
    let passwd = match column_position(header, "password") {
        Some(at) => at,
        None => { return Err(CsvFault::MissingColumn(Column::Password)); },
    };
    Ok(Columns { name, comment, username, url, passwd })
}

/// The field of `row` in the column at `at`, if the row reaches that far.
fn field<'a>(row: &'a Vec<String>, at: Option<usize>) -> (r: Option<&'a String>)
    ensures
        match r {
            Some(text) => field_at(texts(row@), place_view(at)) == Some(text@),
            None => field_at(texts(row@), place_view(at)) is None,
        },
{
    match at {
        Some(i) => if i < row.len() {
            Some(&row[i])
        } else {
            None
        },
        None => None,
    }
}

/// Makes the record that line `record` of a table gives.
fn record_from_line(cols: &Columns, line: &Option<Vec<String>>, record: usize) -> (r: Result<
    Pser,
    CsvFault,
>)
    ensures
        match r {
            Ok(pser) => record_of_line(cols@, record_texts(*line), record) == Ok::<
                PserView,
                CsvFault,
            >(pser@),
            Err(f) => record_of_line(cols@, record_texts(*line), record) == Err::<
                PserView,
                CsvFault,
            >(f),
        },
{
    let row = match line {
        Some(row) => row,
        None => { return Err(CsvFault::BadRecord { record }); },
    };
    let desc = field(row, cols.name);
    let comment = field(row, cols.comment);
    let username = match field(row, Some(cols.username)) {
        Some(text) => text,
        None => { return Err(CsvFault::MissingField { record, column: Column::Username }); },
    };
    let url = match field(row, Some(cols.url)) {
        Some(text) => text,
        None => { return Err(CsvFault::MissingField { record, column: Column::Url }); },
    };
    let passwd = match field(row, Some(cols.passwd)) {
        Some(text) => text,
        None => { return Err(CsvFault::MissingField { record, column: Column::Password }); },
    };
    if domain_from_url(url.as_str()).is_none() {
        return Err(CsvFault::BadUrl { record });
    }
    let mut pser = Pser::new();
    pser.set_username(username.as_str()).set_url(url.as_str());
    pser.set_passwd_at(passwd.as_str(), 0);
    if let Some(desc) = desc {
        pser.set_desc(desc.as_str());
    }
    if let Some(comment) = comment {
        pser.set_comment(comment.as_str());
    }
    assert(pser@ =~~= record_of_line(cols@, record_texts(*line), record)->Ok_0);
    Ok(pser)
}

/// Makes the records of a table from its line of column names and its
/// further lines, as they were read.
pub fn psers_from_table(header: Option<&Vec<String>>, records: &Vec<Option<Vec<String>>>) -> (r:
    CsvImport)
    ensures
        is_import_of(
            psers_view(r.psers@),
            r.fault,
            match header {
                Some(names) => Some(texts(names@)),
                None => None,
            },
            records_texts(records@),
        ),
{
    let mut psers: Vec<Pser> = Vec::new();
    let names = match header {
        Some(names) => names,
        None => { return CsvImport { psers, fault: Some(CsvFault::NoHeader) }; },
    };
    let cols = match find_columns(names) {
        Ok(cols) => cols,
        Err(f) => { return CsvImport { psers, fault: Some(f) }; },
    };
    let mut i: usize = 0;
    while i < records.len()
        invariant
            i <= records@.len(),
            psers@.len() == i,
            header == Some(names),
            columns_of(texts(names@)) == Ok::<ColumnsView, CsvFault>(cols@),
            forall|k: int|
                0 <= k < i ==> record_of_line(cols@, records_texts(records@)[k], k as usize) == Ok::<
                    PserView,
                    CsvFault,
                >(#[trigger] psers_view(psers@)[k]),
        decreases records@.len() - i,
    {
        let ghost before = psers_view(psers@);
        match record_from_line(&cols, &records[i], i) {
            Ok(pser) => {
                psers.push(pser);
                proof {
                    let after = psers_view(psers@);
                    assert forall|k: int| 0 <= k < i + 1 implies record_of_line(
                        cols@,
                        records_texts(records@)[k],
                        k as usize,
                    ) == Ok::<PserView, CsvFault>(#[trigger] after[k]) by {
                        if k < i {
                            assert(after[k] == before[k]);
                        }
                    }
                }
            },
            Err(f) => {
                assert(record_of_line(cols@, records_texts(records@)[i as int], i) == Err::<
                    PserView,
                    CsvFault,
                >(f));
                return CsvImport { psers, fault: Some(f) };
            },
        }
        i += 1;
    }
    CsvImport { psers, fault: None }
}

/// Makes the records of a table of comma-separated values.
pub fn import_from_csv(csv_str: &str) -> (r: CsvImport)
    ensures
        is_import_of(psers_view(r.psers@), r.fault, csv_header(csv_str@), csv_records(csv_str@)),
{
    let header = read_csv_header(csv_str);
    let records = read_csv_records(csv_str);
    match header {
        Some(names) => psers_from_table(Some(&names), &records),
        None => psers_from_table(None, &records),
    }
}

} // verus!
