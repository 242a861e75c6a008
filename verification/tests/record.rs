use pser::opts::{update_pser_at, InsertCmd};
use pser::pser::Pser;
use pser::url::domain_from_url;

fn empty_cmd() -> InsertCmd {
    InsertCmd {
        uuid: None,
        user: None,
        url: None,
        desc: None,
        email: None,
        phone: None,
        passwd: None,
        comment: None,
    }
}

#[test]
fn main_tt() {
    let str = "skdflajs,d";
    let parts = str.split(",").collect::<Vec<_>>();
    println!("{:?}", parts);
    assert_eq!(parts, vec!["skdflajs", "d"]);
    let mut pser = Pser::new();
    pser.set_comment(str);
    assert_eq!(pser.verical_display(None), "备注(comment): skdflajs\nd\n");
}

#[test]
fn pser_tt() {
    let re = regex::Regex::new(r"^(?:.*://)?(?<domain>.*?)/").unwrap();
    let url = "http://id1.cloud.abc.com/a/b/c.html";
    let capt = re.captures(url).unwrap();
    let by_regex = capt.name("domain").and_then(|x| Some(x.as_str()));
    println!("{:?}", by_regex);
    assert_eq!(by_regex, Some("id1.cloud.abc.com"));
    assert_eq!(domain_from_url(url).as_deref(), by_regex);
}

#[test]
fn url_is_reduced_to_its_domain() {
    let mut pser = Pser::new();
    pser.set_url("https://sub.example.com/a/b?x=1");
    assert_eq!(pser.url, "sub.example.com");
}

#[test]
fn update_applies_every_field() {
    let mut pser = Pser::new();
    let mut cmd = empty_cmd();
    cmd.user = Some("peny".to_string());
    cmd.url = Some("google.com".to_string());
    cmd.desc = Some("google".to_string());
    cmd.email = Some("peny@qq.com".to_string());
    cmd.phone = Some("12343211234".to_string());
    cmd.passwd = Some("Pass@word".to_string());
    cmd.comment = Some("card:622218291928312".to_string());
    update_pser_at(&mut pser, &cmd, 1000);
    assert_eq!(pser.username, "peny");
    assert_eq!(pser.url, "google.com");
    assert_eq!(pser.desc, "google");
    assert_eq!(pser.email, "peny@qq.com");
    assert_eq!(pser.phone, "12343211234");
    assert_eq!(pser.passwd, "Pass@word");
    assert_eq!(pser.comment, "card:622218291928312");
    assert!(pser.history.is_empty());
}

#[test]
fn url_reading_agrees_with_the_pattern() {
    // Where a URL has at most one `://`, no `?` before its path and no line
    // break, the host is what the pattern takes as the domain.
    let re = regex::Regex::new(r"^(?:.*://)?(?<domain>.*?)(?:/|$)").unwrap();
    let urls = [
        "",
        "google.com",
        "google.com/",
        "/",
        "//",
        "://",
        "a://",
        "https://sub.example.com/a/b?x=1",
        "https://google.com/x",
        "http://id1.cloud.abc.com/a/b/c.html",
        "ftp://host",
        "a:/b",
        "a:///b",
        "host:8080/path",
        "user@host/p?q",
        "名://域名.中国/路径",
    ];
    for url in urls {
        let by_pattern = re
            .captures(url)
            .and_then(|capt| capt.name("domain").map(|m| m.as_str().to_string()));
        assert_eq!(domain_from_url(url), by_pattern, "url {:?}", url);
    }
}

#[test]
fn only_the_scheme_at_the_front_is_dropped() {
    let host = |url: &str| domain_from_url(url);
    assert_eq!(host("https://a.com/r?u=http://b.com/x").as_deref(), Some("a.com"));
    assert_eq!(host("http://a/b?u=http://c/d").as_deref(), Some("a"));
    assert_eq!(host("a.com/r?u=http://b.com/x").as_deref(), Some("a.com"));
    assert_eq!(host("a.com?u=http://b.com/x").as_deref(), Some("a.com"));
    assert_eq!(host("x://y://z/w").as_deref(), Some("y:"));
    assert_eq!(host("host/path://x/y").as_deref(), Some("host"));
    assert_eq!(host("a:b://c/d").as_deref(), Some("c"));
    assert_eq!(host("http:/a.com").as_deref(), Some("http:"));
}

#[test]
fn host_ends_at_the_query() {
    let host = |url: &str| domain_from_url(url);
    assert_eq!(host("https://example.com?x=1").as_deref(), Some("example.com"));
    assert_eq!(host("example.com?x=1").as_deref(), Some("example.com"));
    assert_eq!(host("https://example.com/?x=1").as_deref(), Some("example.com"));
    assert_eq!(host("https://example.com?x=/y").as_deref(), Some("example.com"));
    assert_eq!(host("?x=1").as_deref(), Some(""));
    assert_eq!(host("a?b://c").as_deref(), Some("a"));
    assert_eq!(host("s://?q").as_deref(), Some(""));
    let mut pser = Pser::new();
    pser.set_url("https://example.com?x=1");
    assert_eq!(pser.url, "example.com");
    pser.set_url("https://a.com/r?u=http://b.com/x");
    assert_eq!(pser.url, "a.com");
}

#[test]
fn host_stays_on_the_first_line() {
    let host = |url: &str| domain_from_url(url);
    assert_eq!(host("a\nb"), None);
    assert_eq!(host("a\n"), None);
    assert_eq!(host("\n"), None);
    assert_eq!(host("http://a\nb"), None);
    assert_eq!(host("x://a\nb/c"), None);
    assert_eq!(host("p://q\n"), None);
    assert_eq!(host("a\n/b"), None);
    assert_eq!(host("a.com/x\ny").as_deref(), Some("a.com"));
    assert_eq!(host("a.com?x\ny").as_deref(), Some("a.com"));
    assert_eq!(host("http://a.com/x\ny://z/").as_deref(), Some("a.com"));
    assert_eq!(host("p://q/\n").as_deref(), Some("q"));
    // A host is its own host.
    for url in ["https://sub.example.com/a", "x://y://z", "a?b", "plain"] {
        let once = host(url).unwrap();
        assert_eq!(host(&once), Some(once.clone()));
    }
}

#[test]
fn setters_fill_their_fields() {
    let mut pser = Pser::new();
    pser.set_username("juji")
        .set_url("google.com")
        .set_desc("google")
        .set_passwd("juji@ha124")
        .set_email("juji@hotmail.com")
        .set_phone("18812345678")
        .set_comment("card_num:9120837490102991");
    assert_eq!(pser.username, "juji");
    assert_eq!(pser.url, "google.com");
    assert_eq!(pser.desc, "google");
    assert_eq!(pser.passwd, "juji@ha124");
    assert_eq!(pser.email, "juji@hotmail.com");
    assert_eq!(pser.phone, "18812345678");
    assert_eq!(pser.comment, "card_num:9120837490102991");
    assert!(pser.history.is_empty());
    let fresh = Pser::default();
    assert_eq!(fresh.username, "");
    assert!(fresh.history.is_empty());
}

#[test]
fn replaced_passwords_go_into_the_history() {
    let mut pser = Pser::new();
    pser.set_passwd_at("a", 100);
    assert!(pser.history.is_empty());
    assert_eq!(pser.passwd, "a");
    pser.set_passwd_at("b", 200);
    assert_eq!(pser.passwd, "b");
    assert_eq!(pser.history.len(), 1);
    assert_eq!(pser.history.get(&200).map(|s| s.as_str()), Some("a"));
    pser.set_passwd_at("", 300);
    assert_eq!(pser.history.get(&300).map(|s| s.as_str()), Some("b"));
    pser.set_passwd_at("c", 400);
    assert_eq!(pser.history.len(), 2);
    // Two changes in one second: the later one stays.
    pser.set_passwd_at("d", 500);
    pser.set_passwd_at("e", 500);
    assert_eq!(pser.history.get(&500).map(|s| s.as_str()), Some("d"));
    assert_eq!(pser.history.len(), 3);
}

#[test]
fn password_set_now_is_kept_under_the_current_second() {
    let mut pser = Pser::new();
    pser.set_passwd("a");
    assert!(pser.history.is_empty());
    let before = pser::clock::cur_min_timestamp();
    pser.set_passwd("b");
    let after = pser::clock::cur_min_timestamp();
    assert_eq!(pser.passwd, "b");
    assert_eq!(pser.history.len(), 1);
    let (when, old) = pser.history.iter().next().unwrap();
    assert!(before <= *when && *when < after + 60);
    assert_eq!(old, "a");
}

#[test]
fn history_is_shown_with_its_times() {
    let mut pser = Pser::new();
    assert!(pser.history_passwds().is_empty());
    pser.set_passwd_at("a", 0);
    pser.set_passwd_at("b", 0);
    pser.set_passwd_at("c", 1_431_648_000);
    pser.set_passwd_at("d", i64::MAX);
    let mut shown = pser.history_passwds();
    shown.sort();
    assert_eq!(
        shown,
        vec![
            ("".to_string(), "c".to_string()),
            ("1970-01-01 08:00:00 +08:00".to_string(), "a".to_string()),
            ("2015-05-15 08:00:00 +08:00".to_string(), "b".to_string()),
        ]
    );
}

#[test]
fn records_are_found_whatever_the_case() {
    let mut pser = Pser::new();
    pser.set_url("https://Mail.Google.com/x").set_desc("Work Mail");
    assert_eq!(pser.url, "Mail.Google.com");
    assert!(pser.is_me("google"));
    assert!(pser.is_me("GOOGLE"));
    assert!(pser.is_me("GooGle.Com"));
    assert!(pser.is_me("work"));
    assert!(pser.is_me("k m"));
    assert!(pser.is_me(""));
    assert!(!pser.is_me("yahoo"));
    assert!(!pser.is_me("googles"));
    assert!(pser.matches_lowered("google"));
    assert!(!pser.matches_lowered("Google"));
    // Only the site and the description are looked at.
    pser.set_username("findme");
    pser.set_comment("findme");
    assert!(!pser.is_me("findme"));
}

#[test]
fn a_text_names_itself_in_any_case() {
    let mut pser = Pser::new();
    pser.set_desc("Äpfel");
    assert!(pser.is_me("Äpfel"));
    assert!(pser.is_me("äpfel"));
    assert!(pser.is_me("ÄPFEL"));
    assert!(pser.is_me("pfe"));
    assert!(!pser.is_me("Apfel"));
    assert!(pser.matches_lowered("äpfel"));
    assert!(!pser.matches_lowered("Äpfel"));
    pser.set_url("https://БАНК.рф/вход");
    assert_eq!(pser.url, "БАНК.рф");
    assert!(pser.is_me("банк"));
    assert!(pser.is_me("Банк.РФ"));
    for text in ["", "Plain", "ÀÉÎ õ", "ΟΔΟΣ", "İstanbul", "STRASSE ß"] {
        let mut pser = Pser::new();
        pser.set_desc(text);
        assert!(pser.is_me(text), "{:?}", text);
    }
    assert!(pser::pser::found_in_either("abc", "", "bc"));
    assert!(pser::pser::found_in_either("", "abc", "ab"));
    assert!(pser::pser::found_in_either("", "", ""));
    assert!(!pser::pser::found_in_either("abc", "abd", "bd "));
    assert!(!pser::pser::found_in_either("ABC", "abd", "abc"));
}

#[test]
fn one_line_summary() {
    let mut pser = Pser::new();
    assert_eq!(pser.simple_display(None), "");
    assert_eq!(pser.simple_display(Some("")), "|UUID:");
    pser.set_username("jma").set_url("google.com").set_passwd_at("p1", 1);
    pser.set_desc("not shown").set_email("not shown");
    assert_eq!(pser.simple_display(None), "url:google.com|账户名:jma|密码:p1");
    assert_eq!(
        pser.simple_display(Some("abc")),
        "url:google.com|账户名:jma|密码:p1|UUID:abc"
    );
    let mut bare = Pser::new();
    bare.set_passwd_at("only", 1);
    assert_eq!(bare.simple_display(None), "|密码:only");
}

#[test]
fn full_listing() {
    let mut pser = Pser::new();
    assert_eq!(pser.verical_display(None), "");
    assert_eq!(
        pser.verical_display(Some("abc")),
        "-[ UUID: abc ]----------------------\n"
    );
    pser.set_username("jma")
        .set_url("google.com")
        .set_desc("google")
        .set_email("jma@hotmail.com")
        .set_phone("18213812341")
        .set_comment("card:1,pin:2;x");
    pser.set_passwd_at("passwd", 1);
    assert_eq!(
        pser.verical_display(Some("abc")),
        "-[ UUID: abc ]----------------------\n\
         账户名(account): jma\n\
         所属(desc): google\n\
         所属网站(url): google.com\n\
         邮箱(email): jma@hotmail.com\n\
         联系方式(phone): 18213812341\n\
         密码(passwd): passwd\n\
         备注(comment): card:1\npin:2\nx\n"
    );
}

#[test]
fn additions_go_behind_what_is_there() {
    let mut pser = Pser::new();
    pser.set_email("a@x").set_phone("1").set_comment("note");
    let mut cmd = empty_cmd();
    cmd.email = Some("+b@y".to_string());
    cmd.phone = Some("+2".to_string());
    update_pser_at(&mut pser, &cmd, 5);
    assert_eq!(pser.email, "a@x,b@y");
    assert_eq!(pser.phone, "1,2");
    assert_eq!(pser.comment, "note");

    let mut cmd = empty_cmd();
    cmd.comment = Some("+more".to_string());
    update_pser_at(&mut pser, &cmd, 5);
    assert_eq!(pser.comment, "notemore");
    assert_eq!(pser.phone, "1,2,");

    let mut cmd = empty_cmd();
    cmd.email = Some("+".to_string());
    cmd.phone = Some("3".to_string());
    cmd.comment = Some("".to_string());
    update_pser_at(&mut pser, &cmd, 5);
    assert_eq!(pser.email, "a@x,b@y,");
    assert_eq!(pser.phone, "3");
    assert_eq!(pser.comment, "");
}

#[test]
fn update_leaves_missing_fields_alone() {
    let mut pser = Pser::new();
    pser.set_username("u").set_url("a.com").set_desc("d");
    pser.set_passwd_at("old", 1);
    let mut cmd = empty_cmd();
    cmd.uuid = Some("abc".to_string());
    cmd.passwd = Some("new".to_string());
    cmd.url = Some("https://b.org/path".to_string());
    update_pser_at(&mut pser, &cmd, 77);
    assert_eq!(pser.username, "u");
    assert_eq!(pser.url, "b.org");
    assert_eq!(pser.desc, "d");
    assert_eq!(pser.passwd, "new");
    assert_eq!(pser.history.get(&77).map(|s| s.as_str()), Some("old"));
    let before = pser.passwd.clone();
    pser::opts::update_pser(&mut pser, &empty_cmd());
    assert_eq!(pser.passwd, before);
    assert_eq!(pser.history.len(), 1);
}
