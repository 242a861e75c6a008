use pser::clock::{cur_min_timestamp, minute_start, EAST8_SECS};
use pser::pser::Pser;
use pser::digest::passwd_sha512;
use pser::error::Error;
use pser::verify_header::{VerifyHeader, MAX_TRY};

#[test]
fn header_has_the_stored_layout() {
    let header = VerifyHeader::new_at("pw", 120);
    let bytes = header.encode();
    let mut expected = vec![120, 0, 0, 0, 0, 0, 0, 0];
    expected.extend_from_slice(&[0, 0]);
    expected.extend_from_slice(&[64, 0, 0, 0, 0, 0, 0, 0]);
    expected.extend_from_slice(&passwd_sha512("pw"));
    assert_eq!(bytes, expected);
    assert_eq!(bytes.len(), 82);
    assert_eq!(bytes, bincode::serialize(&(120i64, 0u16, passwd_sha512("pw"))).unwrap());
}

#[test]
fn negative_window_is_stored_in_twos_complement() {
    let header = VerifyHeader::new_at("pw", -60);
    let bytes = header.encode();
    assert_eq!(&bytes[0..8], &[0xc4, 0xff, 0xff, 0xff, 0xff, 0xff, 0xff, 0xff]);
    let mut back = VerifyHeader::decode(&bytes).unwrap();
    assert!(back.verify_header_at("pw", -60));
    assert_eq!(&back.encode()[8..10], &[1, 0]);
}

#[test]
fn header_is_read_back_as_written() {
    let mut header = VerifyHeader::new_at("pw", 600);
    assert!(header.verify_header_at("pw", 600));
    assert!(header.verify_header_at("pw", 600));
    let bytes = header.encode();
    assert_eq!(&bytes[0..8], &[0x58, 0x02, 0, 0, 0, 0, 0, 0]);
    assert_eq!(&bytes[8..10], &[2, 0]);
    let back = VerifyHeader::decode(&bytes).unwrap();
    assert_eq!(back.encode(), bytes);
    let mut longer = bytes.clone();
    longer.extend_from_slice(b"more");
    assert_eq!(VerifyHeader::decode(&longer).unwrap().encode(), bytes);
}

#[test]
fn header_that_ends_early_is_refused() {
    let bytes = VerifyHeader::new_at("pw", 600).encode();
    for len in [0, 1, 7, 8, 9, 10, 17, 18, 81] {
        match VerifyHeader::decode(&bytes[..len]) {
            Err(e) => assert_eq!(e, Error::HeaderError),
            Ok(_) => panic!("a header of {} bytes was read", len),
        }
    }
    assert_eq!(Error::HeaderError.message(), "invalid header");
}

#[test]
fn attempts_are_counted_within_a_minute() {
    let mut header = VerifyHeader::new_at("pw", 600);
    for n in 1..=5u16 {
        assert!(!header.update_header_status_at(600));
        assert_eq!(&header.encode()[8..10], &n.to_le_bytes());
    }
    assert!(!header.update_header_status_at(660));
    assert_eq!(&header.encode()[0..8], &660i64.to_le_bytes());
    assert_eq!(&header.encode()[8..10], &[0, 0]);
}

#[test]
fn two_hundredth_attempt_in_a_minute_is_turned_down() {
    assert_eq!(MAX_TRY, 200);
    let mut header = VerifyHeader::new_at("right", 600);
    for n in 1..200 {
        assert!(header.verify_header_at("right", 600), "attempt {}", n);
    }
    assert!(!header.verify_header_at("right", 600));
    assert!(!header.verify_header_at("right", 600));
    assert_eq!(&header.encode()[8..10], &201u16.to_le_bytes());
    // The next minute opens with the count at zero.
    assert!(header.verify_header_at("right", 660));
    assert_eq!(&header.encode()[8..10], &[0, 0]);
}

#[test]
fn wrong_passphrase_is_turned_down_and_counted() {
    let mut header = VerifyHeader::new_at("right", 600);
    assert!(!header.verify_header_at("wrong", 600));
    assert!(!header.verify_header_at("", 600));
    assert!(header.verify_header_at("right", 600));
    assert_eq!(&header.encode()[8..10], &[3, 0]);
}

#[test]
fn digest_on_record_decides() {
    let mut header = VerifyHeader::new_at("right", 600);
    assert!(header.verify_digest_at(&passwd_sha512("right"), 600));
    assert!(!header.verify_digest_at(&passwd_sha512("wrong"), 600));
    assert!(!header.verify_digest_at(b"right", 600));
}

#[test]
fn count_stays_at_the_top_of_its_range() {
    let stored = bincode::serialize(&(600i64, u16::MAX - 1, passwd_sha512("pw"))).unwrap();
    let mut header = VerifyHeader::decode(&stored).unwrap();
    assert!(header.update_header_status_at(600));
    assert_eq!(&header.encode()[8..10], &[0xff, 0xff]);
    assert!(header.update_header_status_at(600));
    assert_eq!(&header.encode()[8..10], &[0xff, 0xff]);
    assert!(!header.verify_header_at("pw", 600));
}

#[test]
fn header_made_now_lets_its_passphrase_through() {
    let mut header = VerifyHeader::new("pw");
    let start = i64::from_le_bytes(header.encode()[0..8].try_into().unwrap());
    assert_eq!(start % 60, 0);
    assert!((start - cur_min_timestamp()).abs() <= 60);
    assert_eq!(&header.encode()[8..10], &[0, 0]);
    let first = header.verify_header("pw");
    assert!(first);
    assert!(!header.verify_header("other"));
    let throttled = header.update_header_status();
    assert!(!throttled);
}

#[test]
fn minutes_start_at_multiples_of_sixty() {
    assert_eq!(minute_start(0), 0);
    assert_eq!(minute_start(59), 0);
    assert_eq!(minute_start(60), 60);
    assert_eq!(minute_start(61), 60);
    assert_eq!(minute_start(119), 60);
    assert_eq!(minute_start(-1), -60);
    assert_eq!(minute_start(-60), -60);
    assert_eq!(minute_start(-61), -120);
    assert_eq!(minute_start(1_700_000_123), 1_700_000_100);
    assert_eq!(minute_start(i64::MAX), i64::MAX - 7);
    assert_eq!(minute_start(i64::MIN), i64::MIN);
    assert_eq!(minute_start(i64::MIN + 59), i64::MIN);
    assert_eq!(minute_start(i64::MIN + 60), i64::MIN + 8);
}

#[test]
fn clock_runs_forward() {
    let a = cur_min_timestamp();
    let b = cur_min_timestamp();
    assert!(a > 1_600_000_000);
    assert!(a <= b);
    assert_eq!(a % 60, 0);
    assert_eq!(minute_start(a), a);
}

#[test]
fn times_are_shown_eight_hours_east() {
    assert_eq!(EAST8_SECS, 8 * 3600);
    let shown = |secs: i64| {
        let mut pser = Pser::new();
        pser.set_passwd_at("old", 0);
        pser.set_passwd_at("new", secs);
        pser.history_passwds()
    };
    assert_eq!(
        shown(0),
        vec![("1970-01-01 08:00:00 +08:00".to_string(), "old".to_string())]
    );
    assert_eq!(
        shown(1_431_648_000),
        vec![("2015-05-15 08:00:00 +08:00".to_string(), "old".to_string())]
    );
    assert_eq!(
        shown(-1),
        vec![("1970-01-01 07:59:59 +08:00".to_string(), "old".to_string())]
    );
    assert_eq!(shown(i64::MAX), vec![("".to_string(), "old".to_string())]);
    assert_eq!(shown(i64::MIN), vec![("".to_string(), "old".to_string())]);
}
