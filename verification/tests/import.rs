use pser::import::{
    column_position, import_from_csv, psers_from_table, Column, CsvFault,
};

fn line(fields: &[&str]) -> Vec<String> {
    fields.iter().map(|f| f.to_string()).collect()
}

#[test]
fn table_gives_its_records() {
    let text = "name,url,username,password,comment\n\
                Google,https://accounts.google.com/signin,jma,p1,first\n\
                ,outlook.com,kex,\"p,2\",\n";
    let imported = import_from_csv(text);
    assert_eq!(imported.fault, None);
    assert_eq!(imported.psers.len(), 2);
    let first = &imported.psers[0];
    assert_eq!(first.desc, "Google");
    assert_eq!(first.url, "accounts.google.com");
    assert_eq!(first.username, "jma");
    assert_eq!(first.passwd, "p1");
    assert_eq!(first.comment, "first");
    assert_eq!(first.email, "");
    assert_eq!(first.phone, "");
    assert!(first.history.is_empty());
    let second = &imported.psers[1];
    assert_eq!(second.desc, "");
    assert_eq!(second.url, "outlook.com");
    assert_eq!(second.username, "kex");
    assert_eq!(second.passwd, "p,2");
    assert_eq!(second.comment, "");
}

#[test]
fn columns_come_in_any_order() {
    let text = "password,extra,username,url\nsecret,ignored,me,http://a.b/c\n";
    let imported = import_from_csv(text);
    assert_eq!(imported.fault, None);
    assert_eq!(imported.psers.len(), 1);
    let pser = &imported.psers[0];
    assert_eq!(
        (pser.username.as_str(), pser.url.as_str(), pser.passwd.as_str()),
        ("me", "a.b", "secret")
    );
    assert_eq!((pser.desc.as_str(), pser.comment.as_str()), ("", ""));
}

#[test]
fn table_without_lines_gives_nothing() {
    let imported = import_from_csv("username,url,password\n");
    assert_eq!(imported.fault, None);
    assert!(imported.psers.is_empty());
}

#[test]
fn missing_columns_are_named() {
    let fault = |text: &str| {
        let imported = import_from_csv(text);
        assert!(imported.psers.is_empty());
        imported.fault
    };
    assert_eq!(fault(""), Some(CsvFault::MissingColumn(Column::Username)));
    assert_eq!(fault("url,password\na,b\n"), Some(CsvFault::MissingColumn(Column::Username)));
    assert_eq!(fault("username,password\na,b\n"), Some(CsvFault::MissingColumn(Column::Url)));
    assert_eq!(fault("username,url\na,b\n"), Some(CsvFault::MissingColumn(Column::Password)));
    assert_eq!(
        fault("Username,url,password\na,b,c\n"),
        Some(CsvFault::MissingColumn(Column::Username))
    );
    assert_eq!(fault("name,comment\n"), Some(CsvFault::MissingColumn(Column::Username)));
}

#[test]
fn lines_before_a_bad_line_count() {
    let text = "username,url,password\n\
                a,a.com,1\n\
                b,b.com\n\
                c,c.com,3\n";
    let imported = import_from_csv(text);
    assert_eq!(imported.fault, Some(CsvFault::BadRecord { record: 1 }));
    assert_eq!(imported.psers.len(), 1);
    assert_eq!(imported.psers[0].username, "a");

    let text = "username,url,password\na,a.com,1\nb,\"b\nc\",2\nc,c.com,3\n";
    let imported = import_from_csv(text);
    assert_eq!(imported.fault, Some(CsvFault::BadUrl { record: 1 }));
    assert_eq!(imported.psers.len(), 1);
}

#[test]
fn lines_as_read_give_the_records() {
    let header = line(&["url", "username", "password", "name"]);
    let records = vec![
        Some(line(&["x://h/p", "u1", "p1", "d1"])),
        Some(line(&["h2", "u2", "p2"])),
        Some(line(&["h3", "u3"])),
        Some(line(&["h4", "u4", "p4", "d4"])),
    ];
    let imported = psers_from_table(Some(&header), &records);
    assert_eq!(
        imported.fault,
        Some(CsvFault::MissingField { record: 2, column: Column::Password })
    );
    assert_eq!(imported.psers.len(), 2);
    assert_eq!(imported.psers[0].url, "h");
    assert_eq!(imported.psers[0].desc, "d1");
    assert_eq!(imported.psers[1].passwd, "p2");
    assert_eq!(imported.psers[1].desc, "");

    let short = vec![Some(line(&[]))];
    assert_eq!(
        psers_from_table(Some(&line(&["password", "url", "username"])), &short).fault,
        Some(CsvFault::MissingField { record: 0, column: Column::Username })
    );
    let short = vec![Some(line(&["p"]))];
    assert_eq!(
        psers_from_table(Some(&line(&["password", "url", "username"])), &short).fault,
        Some(CsvFault::MissingField { record: 0, column: Column::Username })
    );
    assert_eq!(
        psers_from_table(Some(&line(&["username", "password", "url"])), &short).fault,
        Some(CsvFault::MissingField { record: 0, column: Column::Url })
    );
    let unread = vec![None, Some(line(&["u", "p", "h"]))];
    let imported = psers_from_table(Some(&line(&["username", "password", "url"])), &unread);
    assert_eq!(imported.fault, Some(CsvFault::BadRecord { record: 0 }));
    assert!(imported.psers.is_empty());
    let imported = psers_from_table(None, &unread);
    assert_eq!(imported.fault, Some(CsvFault::NoHeader));
    assert!(imported.psers.is_empty());
}

#[test]
fn first_column_of_a_name_counts() {
    let header = line(&["a", "b", "a", ""]);
    assert_eq!(column_position(&header, "a"), Some(0));
    assert_eq!(column_position(&header, "b"), Some(1));
    assert_eq!(column_position(&header, ""), Some(3));
    assert_eq!(column_position(&header, "c"), None);
    assert_eq!(column_position(&line(&[]), "a"), None);
    let imported = import_from_csv("url,username,password,username\nh,first,p,second\n");
    assert_eq!(imported.psers[0].username, "first");
}
