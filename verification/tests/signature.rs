use patchstack::oid::Oid;
use patchstack::signature::{parse_name_email, Signature, Time};

#[test]
fn time_is_written_in_the_format() {
    assert_eq!(
        Time::new(987654321, 360).format().as_deref(),
        Some("2001-04-19 10:25:21 +0600")
    );
    assert_eq!(
        Time::new(987654321, -60).format().as_deref(),
        Some("2001-04-19 03:25:21 -0100")
    );
    assert_eq!(
        Time::new(0, 0).format().as_deref(),
        Some("1970-01-01 00:00:00 +0000")
    );
    assert_eq!(
        Time::new(-1, 1439).format().as_deref(),
        Some("1970-01-01 23:58:59 +2359")
    );
}

#[test]
fn time_out_of_range_is_not_written() {
    assert_eq!(Time::new(i64::MAX, 0).format(), None);
    assert_eq!(Time::new(i64::MIN, 0).format(), None);
    assert_eq!(Time::new(0, 1440).format(), None);
    assert_eq!(Time::new(0, -1440).format(), None);
    assert_eq!(Time::new(0, i32::MAX).format(), None);
    assert_eq!(Time::new(0, i32::MIN).format(), None);
    assert_eq!(Time::new(0, 35791395).format(), None);
}

#[test]
fn time_is_read_in_the_format() {
    assert_eq!(
        Time::parse("2001-04-19 10:25:21 +0600"),
        Some(Time::new(987654321, 360))
    );
    assert_eq!(
        Time::parse("2001-04-19 03:25:21 -0100"),
        Some(Time::new(987654321, -60))
    );
    assert_eq!(Time::parse("2001/04/19 10:25:21 +0600"), None);
    assert_eq!(Time::parse("2001-04-19 10:25:21"), None);
    assert_eq!(Time::parse(""), None);
    assert_eq!(Time::parse("2001-04-19 10:25:21 +0600 x"), None);
}

#[test]
fn written_time_reads_back() {
    for time in [
        Time::new(0, 0),
        Time::new(987654321, 360),
        Time::new(-86400 * 366, -719),
        Time::new(4102444800, 1439),
    ] {
        let text = time.format().unwrap();
        assert_eq!(Time::parse(&text), Some(time));
    }
}

#[test]
fn offset_in_seconds_is_rounded_towards_zero() {
    assert_eq!(Time::from_offset_seconds(7, 3600), Time::new(7, 60));
    assert_eq!(Time::from_offset_seconds(7, -3600), Time::new(7, -60));
    assert_eq!(Time::from_offset_seconds(7, 90), Time::new(7, 1));
    assert_eq!(Time::from_offset_seconds(7, -90), Time::new(7, -1));
    assert_eq!(Time::from_offset_seconds(7, -59), Time::new(7, 0));
    assert_eq!(
        Time::from_offset_seconds(7, i32::MIN),
        Time::new(7, -35791394)
    );
    assert_eq!(Time::new(5, -7).seconds(), 5);
    assert_eq!(Time::new(5, -7).offset_minutes(), -7);
}

#[test]
fn signature_keeps_name_and_email_without_crud() {
    let time = Time::new(987654321, 360);
    let sig = Signature::new(" ;The Author,: ", "\t\"author@example.com'\\ ", &time).unwrap();
    assert_eq!(sig.name(), "The Author");
    assert_eq!(sig.email(), "author@example.com");
    assert_eq!(sig.when(), time);
    let sig = Signature::new(".A, B.", "\u{a0}e\u{a0}", &time).unwrap();
    assert_eq!(sig.name(), ".A, B.");
    assert_eq!(sig.email(), "\u{a0}e\u{a0}");
}

#[test]
fn signature_is_refused_by_git() {
    let time = Time::new(0, 0);
    assert!(Signature::new("", "a@b.c", &time).is_none());
    assert!(Signature::new("A", "", &time).is_none());
    assert!(Signature::new(" ,;: ", "a@b.c", &time).is_none());
    assert!(Signature::new("A", "\"'", &time).is_none());
    assert!(Signature::new("A <", "a@b.c", &time).is_none());
    assert!(Signature::new("A", "a>b", &time).is_none());
    assert!(Signature::new("A\0B", "a@b.c", &time).is_none());
    assert!(Signature::new("A", "a\0b", &time).is_none());
    assert!(Signature::now("", "a@b.c").is_none());
    assert!(Signature::now("A>", "a@b.c").is_none());
}

#[test]
fn signature_now_has_the_time_of_the_call() {
    let sig = Signature::now(" The Author ", "author@example.com").unwrap();
    assert_eq!(sig.name(), "The Author");
    assert_eq!(sig.email(), "author@example.com");
    assert!(sig.when().seconds() > 1_600_000_000);
    assert!(sig.when().offset_minutes() > -1440 && sig.when().offset_minutes() < 1440);
}

#[test]
fn author_value_splits_into_name_and_email() {
    let split = |text: &str| parse_name_email(text);
    assert_eq!(
        split("The Author <author@example.com>"),
        Some(("The Author".to_string(), "author@example.com".to_string()))
    );
    assert_eq!(
        split("  A  B  < b c >  "),
        Some(("A  B".to_string(), " b c ".to_string()))
    );
    assert_eq!(split("<b>"), Some((String::new(), "b".to_string())));
    assert_eq!(split("A <>"), Some(("A".to_string(), String::new())));
    assert_eq!(split("A <b<c>"), Some(("A".to_string(), "b<c".to_string())));
    assert_eq!(split("A> <b>"), Some(("A>".to_string(), "b".to_string())));
}

#[test]
fn author_value_that_does_not_split() {
    assert_eq!(parse_name_email(""), None);
    assert_eq!(parse_name_email("The Author"), None);
    assert_eq!(parse_name_email("A <b"), None);
    assert_eq!(parse_name_email("A b>"), None);
    assert_eq!(parse_name_email("A <b> c"), None);
    assert_eq!(parse_name_email("A <b>>"), None);
    assert_eq!(parse_name_email("A <b> <c>"), None);
}

#[test]
fn oid_reads_hexadecimal_digits() {
    let oid = Oid::from_str("0123456789abcdef0123456789ABCDEF01234567").unwrap();
    assert_eq!(
        oid.bytes,
        [
            0x01, 0x23, 0x45, 0x67, 0x89, 0xab, 0xcd, 0xef, 0x01, 0x23, 0x45, 0x67, 0x89, 0xab,
            0xcd, 0xef, 0x01, 0x23, 0x45, 0x67
        ]
    );
    assert_eq!(oid.to_string(), "0123456789abcdef0123456789abcdef01234567");
}

#[test]
fn oid_counts_missing_digits_as_zero() {
    let oid = Oid::from_str("abc").unwrap();
    let mut bytes = [0u8; 20];
    bytes[0] = 0xab;
    bytes[1] = 0xc0;
    assert_eq!(oid.bytes, bytes);
    assert_eq!(oid.to_string(), "abc0000000000000000000000000000000000000");
    assert!(oid.same_as(&Oid { bytes }));
    assert_eq!(oid, Oid { bytes });
}

#[test]
fn oid_refuses_what_spells_no_identifier() {
    assert!(Oid::from_str("").is_none());
    assert!(Oid::from_str("0123456789abcdef0123456789abcdef012345678").is_none());
    assert!(Oid::from_str("g").is_none());
    assert!(Oid::from_str("0123456789abcdef0123456789abcdef0123456 ").is_none());
    assert!(Oid::from_str("-1").is_none());
    assert!(Oid::from_str("\u{ff11}").is_none());
    assert!(Oid::from_str("0x12").is_none());
}

#[test]
fn oid_writes_what_it_reads() {
    for bytes in [[0u8; 20], [0xffu8; 20], [0x5au8; 20]] {
        let oid = Oid { bytes };
        let text = oid.to_string();
        assert_eq!(text.len(), 40);
        assert!(Oid::from_str(&text).unwrap().same_as(&oid));
    }
    assert!(!Oid { bytes: [0u8; 20] }.same_as(&Oid { bytes: [1u8; 20] }));
}

#[test]
fn time_at_the_ends_of_the_range() {
    assert!(Time::new(8210266876799, 0).format().is_some());
    assert!(Time::new(8210266876800, 0).format().is_none());
    assert!(Time::new(8210266876799, 1439).format().is_some());
    assert!(Time::new(8210266876799, -1439).format().is_some());
    assert!(Time::new(-8334601228800, 0).format().is_some());
    assert!(Time::new(-8334601228801, 0).format().is_none());
    assert!(Time::new(-8334601228800, -1439).format().is_some());
    assert!(Time::new(-8334601228800, 1439).format().is_some());
    assert_eq!(
        Time::new(253402300799, 0).format().as_deref(),
        Some("9999-12-31 23:59:59 +0000")
    );
}
