use pser::gen_rand::{charset_of, gen_passwd, passwd_from_picks};
use pser::opts::{gen, GenPasswdCmd};

#[test]
fn t() {
    let password = gen_passwd(false, true, true, true, 8);
    println!("{}", password);
    assert_eq!(password.len(), 8);
    let allowed = "abcdefghijklmnopqrstuvwxyz0123456789)(*&^%$#@!~";
    assert!(password.chars().all(|c| allowed.contains(c)));
}

#[test]
fn classes_follow_one_another() {
    assert_eq!(charset_of(false, false, false, false), b"".to_vec());
    assert_eq!(charset_of(true, false, false, false), b"ABCDEFGHIJKLMNOPQRSTUVWXYZ".to_vec());
    assert_eq!(charset_of(false, true, false, false), b"abcdefghijklmnopqrstuvwxyz".to_vec());
    assert_eq!(charset_of(false, false, true, false), b"0123456789".to_vec());
    assert_eq!(charset_of(false, false, false, true), b")(*&^%$#@!~".to_vec());
    assert_eq!(
        charset_of(true, true, true, true),
        b"ABCDEFGHIJKLMNOPQRSTUVWXYZabcdefghijklmnopqrstuvwxyz0123456789)(*&^%$#@!~".to_vec()
    );
}

#[test]
fn picks_choose_the_characters() {
    let chars = charset_of(true, false, true, false);
    assert_eq!(passwd_from_picks(&chars, &vec![]), "");
    assert_eq!(passwd_from_picks(&chars, &vec![0, 25, 26, 35, 1, 1]), "AZ09BB");
}

#[test]
fn passwords_are_drawn_from_the_chosen_classes() {
    for _ in 0..50 {
        let p = gen_passwd(true, false, false, false, 12);
        assert_eq!(p.len(), 12);
        assert!(p.chars().all(|c| c.is_ascii_uppercase()));
        let p = gen_passwd(false, false, true, false, 3);
        assert_eq!(p.len(), 3);
        assert!(p.chars().all(|c| c.is_ascii_digit()));
        let p = gen_passwd(false, false, false, true, 5);
        assert!(p.chars().all(|c| ")(*&^%$#@!~".contains(c)));
    }
    // Over many draws every character of a small class turns up.
    let long = gen_passwd(false, false, true, false, 2000);
    for digit in "0123456789".chars() {
        assert!(long.contains(digit));
    }
}

#[test]
fn nothing_is_drawn_from_nothing() {
    assert_eq!(gen_passwd(true, true, true, true, 0), "");
    assert_eq!(gen_passwd(false, false, false, false, 8), "");
}

#[test]
fn as_many_passwords_as_asked_for() {
    let opt = GenPasswdCmd { up: true, down: true, num: false, punc: false, cnt: 7, len: 9 };
    let made = gen(&opt);
    assert_eq!(made.len(), 7);
    for p in &made {
        assert_eq!(p.len(), 9);
        assert!(p.chars().all(|c| c.is_ascii_alphabetic()));
    }
    assert!(gen(&GenPasswdCmd { cnt: 0, ..opt }).is_empty());
    assert!(gen(&GenPasswdCmd { len: 0, ..opt }).is_empty());
    assert!(gen(&GenPasswdCmd { up: false, down: false, ..opt }).is_empty());
}
