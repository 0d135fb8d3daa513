use patchstack::patchedit::description::{DiffBuffer, PatchDescription};
use patchstack::patchname::PatchName;
use patchstack::signature::{Signature, Time};

fn compare_patch_descs(pd0: &PatchDescription, pd1: &PatchDescription) {
    assert_eq!(pd0.patchname, pd1.patchname);
    if let (Some(author0), Some(author1)) = (pd0.author.as_ref(), pd1.author.as_ref()) {
        assert_eq!(author0.name(), author1.name());
        assert_eq!(author0.email(), author1.email());
        assert_eq!(author0.when().seconds(), author1.when().seconds());
        assert_eq!(
            author0.when().offset_minutes(),
            author1.when().offset_minutes()
        );
    } else {
        assert!(pd0.author.is_none() && pd1.author.is_none());
    }
    assert_eq!(pd0.message, pd1.message);
    if let (Some(diff0), Some(diff1)) = (&pd0.diff, &pd1.diff) {
        assert_eq!(
            std::str::from_utf8(diff0.0.as_slice()).unwrap(),
            std::str::from_utf8(diff1.0.as_slice()).unwrap(),
        )
    } else {
        assert!(
            pd0.diff == pd1.diff,
            "diffs differ pd0 is {} pd1 is {}",
            if pd0.diff.is_some() { "Some" } else { "None" },
            if pd1.diff.is_some() { "Some" } else { "None" },
        );
    }
}

fn the_author(seconds: i64, offset_minutes: i32) -> Signature {
    Signature::new(
        "The Author",
        "author@example.com",
        &Time::new(seconds, offset_minutes),
    )
    .unwrap()
}

#[test]
fn round_trip_no_message_no_diff() {
    let patch_desc = PatchDescription {
        patchname: Some("patch".parse::<PatchName>().unwrap()),
        author: Some(the_author(987654321, -60)),
        message: "".to_string(),
        instruction: Some("# Instruction\n"),
        diff_instruction: None,
        diff: None,
    };

    let mut buf: Vec<u8> = vec![];
    patch_desc.write(&mut buf).unwrap();

    assert_eq!(
        std::str::from_utf8(buf.as_slice()).unwrap(),
        "Patch:  patch\n\
         Author: The Author <author@example.com>\n\
         Date:   2001-04-19 03:25:21 -0100\n\
         \n\
         \n\
         \n\
         # Instruction\n",
    );

    let new_pd = PatchDescription::try_from(buf.as_slice()).unwrap();

    compare_patch_descs(&new_pd, &patch_desc);
}

#[test]
fn round_trip_one_line_message() {
    let patch_desc = PatchDescription {
        patchname: Some("patch".parse::<PatchName>().unwrap()),
        author: Some(the_author(987654321, 360)),
        message: "Subject\n".to_string(),
        instruction: Some("# Instruction\n"),
        diff_instruction: None,
        diff: None,
    };

    let mut buf: Vec<u8> = vec![];
    patch_desc.write(&mut buf).unwrap();

    assert_eq!(
        std::str::from_utf8(buf.as_slice()).unwrap(),
        "Patch:  patch\n\
         Author: The Author <author@example.com>\n\
         Date:   2001-04-19 10:25:21 +0600\n\
         \n\
         Subject\n\
         \n\
         # Instruction\n",
    );

    let new_pd = PatchDescription::try_from(buf.as_slice()).unwrap();

    compare_patch_descs(&new_pd, &patch_desc);
}

#[test]
fn round_trip_multi_line_message() {
    let patch_desc = PatchDescription {
        patchname: Some("patch".parse::<PatchName>().unwrap()),
        author: Some(the_author(987654321, 360)),
        message: "Subject\n\
                  \n\
                  Body of message.\n\
                  More body of message.\n\
                  \n\
                  With-a-trailer: yes\n\
                  "
        .to_string(),
        instruction: Some("# Instruction\n"),
        diff_instruction: None,
        diff: None,
    };

    let mut buf: Vec<u8> = vec![];
    patch_desc.write(&mut buf).unwrap();

    assert_eq!(
        std::str::from_utf8(buf.as_slice()).unwrap(),
        "Patch:  patch\n\
         Author: The Author <author@example.com>\n\
         Date:   2001-04-19 10:25:21 +0600\n\
         \n\
         Subject\n\
         \n\
         Body of message.\n\
         More body of message.\n\
         \n\
         With-a-trailer: yes\n\
         \n\
         # Instruction\n",
    );

    let new_pd = PatchDescription::try_from(buf.as_slice()).unwrap();

    compare_patch_descs(&new_pd, &patch_desc);
}

#[test]
fn with_diff() {
    let pd = PatchDescription {
        patchname: Some("patch".parse::<PatchName>().unwrap()),
        author: Some(the_author(987654321, 360)),
        message: "Subject\n".to_string(),
        instruction: Some("# Instruction\n"),
        diff_instruction: Some("# Diff instruction\n"),
        diff: Some(DiffBuffer(
            b"\n\
              Some stuff before first diff --git\n\
              \n\
              diff --git a/foo.txt b/foo.txt\n\
              index ce01362..a21e91b 100644\n\
              --- a/foo.txt\n\
              +++ b/foo.txt\n\
              @@ -1 +1 @@\n\
              -hello\n\
              +goodbye\n\
              \\ No newline at end of file\n"
                .to_vec(),
        )),
    };

    let mut buf: Vec<u8> = vec![];
    pd.write(&mut buf).unwrap();

    assert_eq!(
        std::str::from_utf8(buf.as_slice()).unwrap(),
        "Patch:  patch\n\
         Author: The Author <author@example.com>\n\
         Date:   2001-04-19 10:25:21 +0600\n\
         \n\
         Subject\n\
         \n\
         # Instruction\n\
         # Diff instruction\n\
         ---\n\
         \n\
         Some stuff before first diff --git\n\
         \n\
         diff --git a/foo.txt b/foo.txt\n\
         index ce01362..a21e91b 100644\n\
         --- a/foo.txt\n\
         +++ b/foo.txt\n\
         @@ -1 +1 @@\n\
         -hello\n\
         +goodbye\n\
         \\ No newline at end of file\n",
    );

    let new_pd = PatchDescription::try_from(buf.as_slice()).unwrap();

    compare_patch_descs(&new_pd, &pd);
}

#[test]
fn with_extra_comments() {
    let patch_desc = PatchDescription {
        patchname: Some("patch".parse::<PatchName>().unwrap()),
        author: Some(the_author(987654321, 360)),
        message: "Subject\n\
                  \n\
                  Body of message.\n   # Indented: not a comment.\n\
                  \n\
                  With-a-trailer: yes\n\
                  "
        .to_string(),
        instruction: Some("# Instruction\n"),
        diff_instruction: None,
        diff: None,
    };

    let mut buf: Vec<u8> = vec![];
    patch_desc.write(&mut buf).unwrap();

    assert_eq!(
        std::str::from_utf8(buf.as_slice()).unwrap(),
        "Patch:  patch\n\
         Author: The Author <author@example.com>\n\
         Date:   2001-04-19 10:25:21 +0600\n\
         \n\
         Subject\n\
         \n\
         Body of message.\n   # Indented: not a comment.\n\
         \n\
         With-a-trailer: yes\n\
         \n\
         # Instruction\n",
    );

    let updated = b"Patch:  patch\n\
                    Author: The Author <author@example.com>\n\
                    Date:   2001-04-19 10:25:21 +0600\n\
                    # Next line must be blank.\n\
                    \n\
                    # Subject is below\n\
                    Subject\n\
                    \n\
                    Body of message.\n   # Indented: not a comment.\n\
                    \n\
                    # Trailer is below\n\
                    With-a-trailer: yes\n\
                    \n\
                    # Instruction\n";

    let new_pd = PatchDescription::try_from(updated.as_slice()).unwrap();

    compare_patch_descs(&new_pd, &patch_desc);
}

#[test]
fn missing_patch_header() {
    let description = b"\
    # Patch:  patch\n\
    Author: The Author <author@example.com>\n\
    Date:   2001-04-19 10:25:21 +0600\n\
    \n\
    Subject\n\
    \n\
    # Instruction\n";

    let pd = PatchDescription::try_from(description.as_slice()).unwrap();

    let expected = PatchDescription {
        patchname: None,
        author: Some(the_author(987654321, 360)),
        message: "Subject\n".to_string(),
        instruction: Some("# Instruction\n"),
        diff_instruction: None,
        diff: None,
    };

    compare_patch_descs(&expected, &pd);
}

#[test]
fn missing_date_header() {
    let description = b"\
    Patch:  patch\n\
    Author: The Author <author@example.com>\n\
    # Date:   2001-04-19 10:25:21 +0600\n\
    \n\
    Subject\n\
    \n\
    # Instruction\n";

    let pd = PatchDescription::try_from(description.as_slice()).unwrap();

    let commented_time = Time::new(987654321, 360);
    assert!(pd.author.is_some());
    // Author date should be "now" if Author is present and Date is missing.
    // We just check that the commented-out time is not used.
    assert_ne!(pd.author.as_ref().unwrap().when(), commented_time);

    let expected = PatchDescription {
        patchname: Some("patch".parse::<PatchName>().unwrap()),
        author: Some(
            Signature::new(
                "The Author",
                "author@example.com",
                &pd.author.as_ref().unwrap().when(),
            )
            .unwrap(),
        ),
        message: "Subject\n".to_string(),
        instruction: None,
        diff_instruction: None,
        diff: None,
    };

    compare_patch_descs(&expected, &pd);
}

#[test]
fn extra_header() {
    let description = b"\
    Patch:  patch\n\
    Extra:  nope\n\
    Author: The Author <author@example.com>\n\
    Date:   2001-04-19 10:25:21 +0600\n\
    \n\
    Subject\n\
    \n\
    # Instruction\n";

    let pd = PatchDescription::try_from(description.as_slice()).unwrap();

    let expected = PatchDescription {
        patchname: Some("patch".parse::<PatchName>().unwrap()),
        author: None,
        message: "Extra:  nope\n\
                  Author: The Author <author@example.com>\n\
                  Date:   2001-04-19 10:25:21 +0600\n\
                  \n\
                  Subject\n"
            .to_string(),
        instruction: None,
        diff_instruction: None,
        diff: None,
    };

    compare_patch_descs(&expected, &pd);
}

#[test]
fn invalid_date() {
    let description = b"\
    Patch:  patch\n\
    Author: The Author <author@example.com>\n\
    Date:   2001/04/19 10:25:21 +0600\n\
    \n\
    Subject\n\
    \n\
    # Instruction\n";

    assert!(PatchDescription::try_from(description.as_slice()).is_err());
}

#[test]
fn no_blank_before_message() {
    let description = b"\
    Patch:  patch\n\
    Author: The Author <author@example.com>\n\
    Date:   2001-04-19 10:25:21 +0600\n\
    Subject\n\
    \n\
    # Instruction\n";

    let pd = PatchDescription::try_from(description.as_slice()).unwrap();
    assert_eq!(pd.message, "Subject\n");
}

#[test]
fn extra_blanks_before_message() {
    let description = b"\
    Patch:  patch\n\
    Author: The Author <author@example.com>\n\
    Date:   2001-04-19 10:25:21 +0600\n\
    \n\
    \n\
    \n\
    Subject\n\
    \n\
    # Instruction\n";

    let pd = PatchDescription::try_from(description.as_slice()).unwrap();

    assert_eq!(pd.message, "Subject\n");
}

#[test]
fn no_blank_before_end() {
    let description = b"\
    Patch:  patch\n\
    Author: The Author <author@example.com>\n\
    Date:   2001-04-19 10:25:21 +0600\n\
    \n\
    Subject\n\
    # Instruction\n";

    let pd = PatchDescription::try_from(description.as_slice()).unwrap();

    assert_eq!(pd.message, "Subject\n");
}

#[test]
fn no_eol_message() {
    let description = b"\
    Patch:  patch\n\
    Author: The Author <author@example.com>\n\
    Date:   2001-04-19 10:25:21 +0600\n\
    \n\
    Subject";

    let pd = PatchDescription::try_from(description.as_slice()).unwrap();

    assert_eq!(pd.message, "Subject\n");
}

#[test]
fn extra_blanks_in_message() {
    let description = b"\
    Patch:  patch\n\
    Author: The Author <author@example.com>\n\
    Date:   2001-04-19 10:25:21 +0600\n\
    \n\
    Subject\n\
    \n\
    \n\
    body\n\
    \n\
    \n  \
    \n\
    more body\n\
    \n\t\
    \n\
    # Instruction\n\
    \n";

    let pd = PatchDescription::try_from(description.as_slice()).unwrap();

    assert_eq!(
        pd.message,
        "Subject\n\
         \n\
         body\n\
         \n\
         more body\n"
    );
}

#[test]
fn empty_diff() {
    for description in [
        b"---".as_slice(),
        b"---\n",
        b"---    ",
        b"---  \n",
        b"---\n  \n",
        b"---\n  \n",
    ] {
        let result = PatchDescription::try_from(description);
        assert!(result.is_err());
    }
}
