use patchstack::error::Error;
use patchstack::patchedit::description::{DiffBuffer, PatchDescription, _find};
use patchstack::patchedit::lines::line_end;
use patchstack::patchedit::scan::scan;
use patchstack::patchname::PatchName;
use patchstack::signature::{Signature, Time};

const HEADERS: &str = "Patch:  patch\n\
                       Author: The Author <author@example.com>\n\
                       Date:   2001-04-19 10:25:21 +0600\n";

fn document(rest: &str) -> Vec<u8> {
    let mut text = String::from(HEADERS);
    text.push_str(rest);
    text.into_bytes()
}

#[test]
fn scan_finds_headers_message_and_diff() {
    let doc = scan(&document("\nSubject\n\nBody\n---\ndiff --git\n")).unwrap();
    assert_eq!(doc.raw_patchname.as_deref(), Some("patch"));
    assert_eq!(
        doc.raw_author.as_deref(),
        Some("The Author <author@example.com>")
    );
    assert_eq!(doc.raw_authdate.as_deref(), Some("2001-04-19 10:25:21 +0600"));
    assert_eq!(doc.message, "Subject\n\nBody\n");
    assert_eq!(doc.diff, Some(b"diff --git\n".to_vec()));
}

#[test]
fn scan_of_nothing_finds_nothing() {
    let doc = scan(b"").unwrap();
    assert_eq!(doc.raw_patchname, None);
    assert_eq!(doc.raw_author, None);
    assert_eq!(doc.raw_authdate, None);
    assert_eq!(doc.message, "");
    assert_eq!(doc.diff, None);
}

#[test]
fn comment_at_index_zero_hides_patch_header() {
    let doc = scan(b"# comment\nPatch:  patch\n\nSubject\n").unwrap();
    assert_eq!(doc.raw_patchname, None);
    assert_eq!(doc.message, "Patch:  patch\n\nSubject\n");
}

#[test]
fn header_at_wrong_index_is_message_text() {
    let doc = scan(b"Author: A <a@b>\nPatch:  patch\n").unwrap();
    assert_eq!(doc.raw_patchname, None);
    assert_eq!(doc.raw_author, None);
    assert_eq!(doc.message, "Author: A <a@b>\nPatch:  patch\n");
}

#[test]
fn header_after_message_began_is_message_text() {
    let doc = scan(b"Subject\nAuthor: A <a@b>\nDate:   x\n").unwrap();
    assert_eq!(doc.raw_author, None);
    assert_eq!(doc.raw_authdate, None);
    assert_eq!(doc.message, "Subject\nAuthor: A <a@b>\nDate:   x\n");
}

#[test]
fn comment_between_headers_shifts_them() {
    let doc = scan(b"Patch:  patch\n# note\nAuthor: A <a@b>\n").unwrap();
    assert_eq!(doc.raw_patchname.as_deref(), Some("patch"));
    assert_eq!(doc.raw_author, None);
    assert_eq!(doc.message, "Author: A <a@b>\n");
}

#[test]
fn header_value_is_trimmed_and_split_at_first_colon() {
    let doc = scan(b"Patch: \t a:b \t\n").unwrap();
    assert_eq!(doc.raw_patchname.as_deref(), Some("a:b"));
    let doc = scan(b"Patch:\n").unwrap();
    assert_eq!(doc.raw_patchname.as_deref(), Some(""));
}

#[test]
fn header_key_must_match_exactly() {
    let doc = scan(b"patch: x\n").unwrap();
    assert_eq!(doc.raw_patchname, None);
    assert_eq!(doc.message, "patch: x\n");
    let doc = scan(b"Patch : x\n").unwrap();
    assert_eq!(doc.raw_patchname, None);
    assert_eq!(doc.message, "Patch : x\n");
}

#[test]
fn comments_after_the_headers_change_nothing() {
    let plain = scan(&document("\nSubject\n\nBody\n---\n# in diff\n")).unwrap();
    let noted = scan(&document(
        "# one\n\n# two\nSubject\n# three\n\n# four\nBody\n# five\n---\n# in diff\n",
    ))
    .unwrap();
    assert_eq!(noted.raw_patchname, plain.raw_patchname);
    assert_eq!(noted.raw_author, plain.raw_author);
    assert_eq!(noted.raw_authdate, plain.raw_authdate);
    assert_eq!(noted.message, plain.message);
    assert_eq!(noted.message, "Subject\n\nBody\n");
    assert_eq!(noted.diff, plain.diff);
    assert_eq!(noted.diff, Some(b"# in diff\n".to_vec()));
}

#[test]
fn three_blank_lines_collapse_to_one() {
    let doc = scan(&document("\n\n\nFirst\n\n\n\nSecond\n\n\n")).unwrap();
    assert_eq!(doc.message, "First\n\nSecond\n");
}

#[test]
fn lines_lose_trailing_whitespace_only() {
    let doc = scan(&document("\n  Subject \t\u{a0}\u{3000}\r\n \n\u{2003}\nBody\n")).unwrap();
    assert_eq!(doc.message, "  Subject\n\nBody\n");
}

#[test]
fn blank_message_is_empty() {
    let doc = scan(&document("\n \n\t\n")).unwrap();
    assert_eq!(doc.message, "");
}

#[test]
fn line_of_invalid_utf8_is_refused() {
    assert!(scan(b"Patch:  patch\n\xff\xfe\n").is_none());
    let result = PatchDescription::try_from(b"Patch:  patch\n\xff\xfe\n".as_slice());
    assert!(matches!(result, Err(Error::NonUtf8PatchDescription)));
}

#[test]
fn invalid_utf8_in_comment_or_diff_is_accepted() {
    let doc = scan(b"Patch:  patch\n#\xff\xfe\n\nSubject\n---\n\xff\xfe").unwrap();
    assert_eq!(doc.message, "Subject\n");
    assert_eq!(doc.diff, Some(b"\xff\xfe".to_vec()));
}

#[test]
fn sentinel_may_end_in_whitespace_but_not_begin_with_it() {
    let doc = scan(b"Subject\n--- \t\ndiff").unwrap();
    assert_eq!(doc.message, "Subject\n");
    assert_eq!(doc.diff, Some(b"diff".to_vec()));
    let doc = scan(b"Subject\n ---\ndiff").unwrap();
    assert_eq!(doc.message, "Subject\n ---\ndiff\n");
    assert_eq!(doc.diff, None);
}

#[test]
fn second_sentinel_belongs_to_the_diff() {
    let doc = scan(b"Subject\n---\na\n---\nb\n").unwrap();
    assert_eq!(doc.diff, Some(b"a\n---\nb\n".to_vec()));
}

#[test]
fn diff_of_ascii_whitespace_is_no_diff() {
    let doc = scan(b"Subject\n---\n \t\r\n\x0c\n").unwrap();
    assert_eq!(doc.diff, None);
    let doc = scan(b"Subject\n---\n \x0b \n").unwrap();
    assert_eq!(doc.diff, Some(b" \x0b \n".to_vec()));
    let doc = scan("Subject\n---\n\u{a0}\n".as_bytes()).unwrap();
    assert_eq!(doc.diff, Some("\u{a0}\n".as_bytes().to_vec()));
}

#[test]
fn abort_sentinel_alone() {
    let result = PatchDescription::try_from(b"---".as_slice());
    match result {
        Err(Error::Generic(message)) => {
            assert_eq!(message, "Aborting edit due to empty patch description")
        }
        _ => panic!("expected the abort error"),
    }
}

#[test]
fn abort_sentinel_with_line_feed() {
    let result = PatchDescription::try_from(b"---\n".as_slice());
    assert!(matches!(result, Err(Error::Generic(_))));
}

#[test]
fn abort_sentinel_with_spaces() {
    let result = PatchDescription::try_from(b"---    ".as_slice());
    assert!(matches!(result, Err(Error::Generic(_))));
}

#[test]
fn abort_sentinel_with_blank_diff() {
    let result = PatchDescription::try_from(b"---\n  \n".as_slice());
    assert!(matches!(result, Err(Error::Generic(_))));
}

#[test]
fn abort_on_empty_and_on_comments_alone() {
    assert!(matches!(
        PatchDescription::try_from(b"".as_slice()),
        Err(Error::Generic(_))
    ));
    assert!(matches!(
        PatchDescription::try_from(b"# Patch:  patch\n\n# nothing\n".as_slice()),
        Err(Error::Generic(_))
    ));
}

#[test]
fn diff_alone_does_not_save_an_empty_description() {
    let result = PatchDescription::try_from(b"---\ndiff --git\n".as_slice());
    assert!(matches!(result, Err(Error::Generic(_))));
}

#[test]
fn empty_patch_name_is_no_patch_name() {
    let pd = PatchDescription::try_from(b"Patch:  \n\nSubject\n".as_slice()).unwrap();
    assert_eq!(pd.patchname, None);
    assert_eq!(pd.message, "Subject\n");
    assert!(pd.author.is_none());
}

#[test]
fn patch_name_with_whitespace_is_refused() {
    let result = PatchDescription::try_from(b"Patch:  bad name\n\nSubject\n".as_slice());
    match result {
        Err(Error::InvalidPatchName(name)) => assert_eq!(name, "bad name"),
        _ => panic!("expected the error of the patch name"),
    }
}

#[test]
fn author_that_does_not_split_is_refused() {
    let result =
        PatchDescription::try_from(b"Patch:  patch\nAuthor: The Author\n\nSubject\n".as_slice());
    match result {
        Err(Error::InvalidNameEmail(text)) => assert_eq!(text, "The Author"),
        _ => panic!("expected the error of the author"),
    }
}

#[test]
fn author_that_git_refuses_is_refused() {
    let result =
        PatchDescription::try_from(b"Patch:  patch\nAuthor: <author@example.com>\n".as_slice());
    match result {
        Err(Error::InvalidNameEmail(text)) => assert_eq!(text, "<author@example.com>"),
        _ => panic!("expected the error of the author"),
    }
}

#[test]
fn date_that_does_not_follow_the_format_is_refused() {
    let result = PatchDescription::try_from(
        b"Patch:  patch\nAuthor: A <a@b.c>\nDate:   2001/04/19 10:25:21 +0600\n".as_slice(),
    );
    match result {
        Err(Error::InvalidDate(date, place)) => {
            assert_eq!(date, "2001/04/19 10:25:21 +0600");
            assert_eq!(place, "patch description");
        }
        _ => panic!("expected the error of the date"),
    }
}

#[test]
fn errors_come_in_order() {
    let result = PatchDescription::try_from(
        b"Patch:  bad name\nAuthor: nobody\nDate:   never\n".as_slice(),
    );
    assert!(matches!(result, Err(Error::InvalidPatchName(_))));
    let result =
        PatchDescription::try_from(b"Patch:  good\nAuthor: nobody\nDate:   never\n".as_slice());
    assert!(matches!(result, Err(Error::InvalidNameEmail(_))));
    let result =
        PatchDescription::try_from(b"Patch:  good\nAuthor: A <a@b>\nDate:   never\n".as_slice());
    assert!(matches!(result, Err(Error::InvalidDate(_, _))));
}

#[test]
fn date_without_author_is_ignored() {
    let pd = PatchDescription::try_from(b"Patch:  patch\n\nDate:   never\n".as_slice()).unwrap();
    assert!(pd.author.is_none());
    assert_eq!(pd.message, "Date:   never\n");
    let pd = PatchDescription::try_from(b"Patch:  patch\n# none\nDate:   never\n".as_slice())
        .unwrap();
    assert!(pd.author.is_none());
    assert_eq!(pd.message, "");
}

#[test]
fn parse_at_gives_the_time_to_an_author_without_date() {
    let now = Time::new(1234567890, -120);
    let pd = PatchDescription::parse_at(b"Patch:  patch\nAuthor: A <a@b.c>\n".as_slice(), &now)
        .unwrap();
    let author = pd.author.unwrap();
    assert_eq!(author.name(), "A");
    assert_eq!(author.email(), "a@b.c");
    assert_eq!(author.when(), now);
}

#[test]
fn parse_at_keeps_the_date_of_the_document() {
    let now = Time::new(1234567890, -120);
    let pd = PatchDescription::parse_at(&document("\nSubject\n"), &now).unwrap();
    assert_eq!(pd.author.unwrap().when(), Time::new(987654321, 360));
    assert_eq!(pd.instruction, None);
    assert_eq!(pd.diff_instruction, None);
}

#[test]
fn author_is_kept_as_git_keeps_it() {
    let now = Time::new(0, 0);
    let pd = PatchDescription::parse_at(b"Patch:  p\nAuthor: .A, B; <:a@b.c;>\n".as_slice(), &now)
        .unwrap();
    let author = pd.author.unwrap();
    assert_eq!(author.name(), ".A, B");
    assert_eq!(author.email(), "a@b.c");
}

#[test]
fn write_without_author_leaves_headers_empty() {
    let pd = PatchDescription {
        patchname: None,
        author: None,
        message: "Subject\n\n\n".to_string(),
        instruction: None,
        diff_instruction: Some("# unused\n"),
        diff: None,
    };
    let mut buf: Vec<u8> = b"kept".to_vec();
    pd.write(&mut buf).unwrap();
    assert_eq!(
        std::str::from_utf8(&buf).unwrap(),
        "keptPatch:  \nAuthor: \nDate:   \n\nSubject\n\n"
    );
}

#[test]
fn write_with_diff_and_without_instructions() {
    let pd = PatchDescription {
        patchname: Some(PatchName::new("p").unwrap()),
        author: None,
        message: String::new(),
        instruction: None,
        diff_instruction: None,
        diff: Some(DiffBuffer(b"\xffraw".to_vec())),
    };
    let mut buf: Vec<u8> = Vec::new();
    pd.write(&mut buf).unwrap();
    assert_eq!(buf, b"Patch:  p\nAuthor: \nDate:   \n\n\n\n---\n\xffraw".to_vec());
}

#[test]
fn write_dated_takes_the_date_as_it_is() {
    let pd = PatchDescription {
        patchname: Some(PatchName::new("p").unwrap()),
        author: Some(Signature::new("A", "a@b.c", &Time::new(0, 0)).unwrap()),
        message: "S\n".to_string(),
        instruction: None,
        diff_instruction: None,
        diff: None,
    };
    let mut buf: Vec<u8> = Vec::new();
    pd.write_dated("some day", &mut buf);
    assert_eq!(
        std::str::from_utf8(&buf).unwrap(),
        "Patch:  p\nAuthor: A <a@b.c>\nDate:   some day\n\nS\n\n"
    );
}

#[test]
fn write_fails_on_a_time_without_date() {
    let pd = PatchDescription {
        patchname: None,
        author: Some(Signature::new("A", "a@b.c", &Time::new(i64::MAX, 0)).unwrap()),
        message: String::new(),
        instruction: None,
        diff_instruction: None,
        diff: None,
    };
    let mut buf: Vec<u8> = b"kept".to_vec();
    match pd.write(&mut buf) {
        Err(Error::UnprintableTime(seconds, offset)) => {
            assert_eq!(seconds, i64::MAX);
            assert_eq!(offset, 0);
        }
        _ => panic!("expected the error of the time"),
    }
    assert_eq!(buf, b"kept".to_vec());
}

#[test]
fn default_description_is_empty() {
    let pd = PatchDescription::default();
    assert!(pd.patchname.is_none() && pd.author.is_none() && pd.diff.is_none());
    assert!(pd.instruction.is_none() && pd.diff_instruction.is_none());
    assert_eq!(pd.message, "");
}

#[test]
fn diff_buffer_hands_out_its_bytes() {
    let diff = DiffBuffer(vec![1, 2, 3]);
    assert_eq!(diff.as_ref(), &[1u8, 2, 3][..]);
    assert_eq!(diff, DiffBuffer(vec![1, 2, 3]));
    assert_ne!(diff, DiffBuffer(vec![1, 2]));
}

#[test]
fn line_end_stops_after_the_line_feed() {
    let buf = b"ab\n\ncd";
    assert_eq!(line_end(buf, 0), 3);
    assert_eq!(line_end(buf, 1), 3);
    assert_eq!(line_end(buf, 3), 4);
    assert_eq!(line_end(buf, 4), 6);
    assert_eq!(line_end(buf, 5), 6);
}

#[test]
fn find_gives_the_first_occurrence() {
    assert_eq!(_find(b"hello world", b"o"), Some(4));
    assert_eq!(_find(b"hello world", b"world"), Some(6));
    assert_eq!(_find(b"hello world", b"hello world"), Some(0));
    assert_eq!(_find(b"aaab", b"aab"), Some(1));
    assert_eq!(_find(b"hello", b""), Some(0));
    assert_eq!(_find(b"", b""), Some(0));
}

#[test]
fn find_gives_nothing_without_occurrence() {
    assert_eq!(_find(b"hello world", b"worlds"), None);
    assert_eq!(_find(b"hello", b"hello world"), None);
    assert_eq!(_find(b"", b"a"), None);
    assert_eq!(_find(b"abab", b"bb"), None);
}
