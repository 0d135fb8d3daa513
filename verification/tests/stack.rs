use patchstack::error::Error;
use patchstack::oid::Oid;
use patchstack::patchname::PatchName;
use patchstack::stack::schema::{
    PatchRecord, RawStackState, StackState, StateDocument, SCHEMA_VERSION,
};
use patchstack::stack::table::{PatchEntry, PatchTable};

const OID1: &str = "1111111111111111111111111111111111111111";
const OID2: &str = "2222222222222222222222222222222222222222";
const OID3: &str = "3333333333333333333333333333333333333333";
const HEAD: &str = "00000000000000000000000000000000000000aa";
const PREV: &str = "00000000000000000000000000000000000000bb";

fn name(text: &str) -> PatchName {
    PatchName::new(text).unwrap()
}

fn oid(text: &str) -> Oid {
    Oid::from_str(text).unwrap()
}

fn record(name: &str, oid: &str) -> PatchRecord {
    PatchRecord {
        name: name.to_string(),
        oid: oid.to_string(),
    }
}

fn strings(texts: &[&str]) -> Vec<String> {
    texts.iter().map(|t| t.to_string()).collect()
}

fn names_of(names: &[PatchName]) -> Vec<String> {
    names.iter().map(|n| n.as_str().to_string()).collect()
}

fn sample() -> StateDocument {
    StateDocument {
        version: 5,
        prev: Some(PREV.to_string()),
        head: HEAD.to_string(),
        applied: strings(&["a", "b"]),
        unapplied: Vec::new(),
        hidden: strings(&["c"]),
        patches: vec![record("a", OID1), record("b", OID2), record("c", OID3)],
    }
}

#[test]
fn document_of_the_supported_version_is_read() {
    assert_eq!(SCHEMA_VERSION, 5);
    let state = RawStackState::deserialize(&sample()).unwrap();
    assert_eq!(state.prev, Some(oid(PREV)));
    assert_eq!(state.head, oid(HEAD));
    assert_eq!(names_of(&state.applied), strings(&["a", "b"]));
    assert!(state.unapplied.is_empty());
    assert_eq!(names_of(&state.hidden), strings(&["c"]));
    assert_eq!(state.patches.len(), 3);
    assert_eq!(state.patches.get(&name("a")), Some(oid(OID1)));
    assert_eq!(state.patches.get(&name("b")), Some(oid(OID2)));
    assert_eq!(state.patches.get(&name("c")), Some(oid(OID3)));
    assert_eq!(state.patches.get(&name("d")), None);
}

#[test]
fn document_without_prev_is_read() {
    let mut doc = sample();
    doc.prev = None;
    let state = RawStackState::deserialize(&doc).unwrap();
    assert_eq!(state.prev, None);
}

#[test]
fn version_four_is_refused() {
    let mut doc = sample();
    doc.version = 4;
    match RawStackState::deserialize(&doc) {
        Err(Error::UnsupportedVersion(found, expected)) => {
            assert_eq!(found, 4);
            assert_eq!(expected, 5);
        }
        _ => panic!("expected the error of the version"),
    }
}

#[test]
fn other_versions_are_refused() {
    for version in [i64::MIN, -5, 0, 6, i64::MAX] {
        let mut doc = sample();
        doc.version = version;
        assert!(matches!(
            RawStackState::deserialize(&doc),
            Err(Error::UnsupportedVersion(found, 5)) if found == version
        ));
    }
}

#[test]
fn bad_head_is_named() {
    let mut doc = sample();
    doc.head = "not-an-oid".to_string();
    match RawStackState::deserialize(&doc) {
        Err(Error::InvalidHeadOid(text)) => assert_eq!(text, "not-an-oid"),
        _ => panic!("expected the error of the head"),
    }
}

#[test]
fn bad_prev_is_named() {
    let mut doc = sample();
    doc.prev = Some(String::new());
    doc.head = "also bad".to_string();
    match RawStackState::deserialize(&doc) {
        Err(Error::InvalidPrevOid(text)) => assert_eq!(text, ""),
        _ => panic!("expected the error of prev"),
    }
}

#[test]
fn bad_patch_oid_is_named_with_its_patch() {
    let mut doc = sample();
    doc.patches[1].oid = "xyz".to_string();
    doc.patches[2].oid = "uvw".to_string();
    match RawStackState::deserialize(&doc) {
        Err(Error::InvalidPatchOid(patch, text)) => {
            assert_eq!(patch, "b");
            assert_eq!(text, "xyz");
        }
        _ => panic!("expected the error of the patch"),
    }
}

#[test]
fn bad_patch_name_is_named() {
    let mut doc = sample();
    doc.version = 4;
    doc.hidden = strings(&["c", "not a name"]);
    match RawStackState::deserialize(&doc) {
        Err(Error::InvalidPatchName(text)) => assert_eq!(text, "not a name"),
        _ => panic!("expected the error of the patch name"),
    }
    let mut doc = sample();
    doc.patches.push(record("", OID1));
    assert!(matches!(
        RawStackState::deserialize(&doc),
        Err(Error::InvalidPatchName(text)) if text.is_empty()
    ));
}

#[test]
fn version_is_checked_before_identifiers() {
    let mut doc = sample();
    doc.version = 4;
    doc.head = "bad".to_string() + "!";
    assert!(matches!(
        RawStackState::deserialize(&doc),
        Err(Error::UnsupportedVersion(4, 5))
    ));
}

#[test]
fn patches_of_a_document_are_put_in_order() {
    let mut doc = sample();
    doc.patches = vec![
        record("b", OID2),
        record("c", OID3),
        record("a", OID1),
        record("b", OID3),
    ];
    let state = RawStackState::deserialize(&doc).unwrap();
    assert_eq!(state.patches.len(), 3);
    assert_eq!(state.patches.entry(0).name.as_str(), "a");
    assert_eq!(state.patches.entry(1).name.as_str(), "b");
    assert_eq!(state.patches.entry(1).oid, oid(OID3));
    assert_eq!(state.patches.entry(2).name.as_str(), "c");
}

fn live() -> StackState {
    StackState {
        prev: None,
        head: oid(HEAD),
        applied: vec![name("a"), name("b")],
        unapplied: Vec::new(),
        hidden: vec![name("c")],
        patches: vec![
            PatchEntry { name: name("c"), oid: oid(OID3) },
            PatchEntry { name: name("a"), oid: oid(OID1) },
            PatchEntry { name: name("b"), oid: oid(OID2) },
        ],
    }
}

#[test]
fn state_is_written_with_version_and_ordered_patches() {
    let doc = live().serialize();
    assert_eq!(doc.version, 5);
    assert_eq!(doc.prev, None);
    assert_eq!(doc.head, HEAD);
    assert_eq!(doc.applied, strings(&["a", "b"]));
    assert!(doc.unapplied.is_empty());
    assert_eq!(doc.hidden, strings(&["c"]));
    let written: Vec<(&str, &str)> = doc
        .patches
        .iter()
        .map(|r| (r.name.as_str(), r.oid.as_str()))
        .collect();
    assert_eq!(written, vec![("a", OID1), ("b", OID2), ("c", OID3)]);
}

#[test]
fn order_of_written_patches_is_not_stack_order() {
    let mut state = live();
    state.applied = vec![name("zz"), name("b")];
    state.hidden = vec![name("Z")];
    state.patches = vec![
        PatchEntry { name: name("zz"), oid: oid(OID1) },
        PatchEntry { name: name("b"), oid: oid(OID2) },
        PatchEntry { name: name("Z"), oid: oid(OID3) },
    ];
    state.prev = Some(oid("ABCDEF"));
    let doc = state.serialize();
    assert_eq!(doc.applied, strings(&["zz", "b"]));
    let written: Vec<&str> = doc.patches.iter().map(|r| r.name.as_str()).collect();
    assert_eq!(written, vec!["Z", "b", "zz"]);
    assert_eq!(
        doc.prev.as_deref(),
        Some("abcdef0000000000000000000000000000000000")
    );
}

#[test]
fn encode_decode_inverse() {
    let state = live();
    let back = RawStackState::deserialize(&state.serialize()).unwrap();
    assert_eq!(back.prev, state.prev);
    assert_eq!(back.head, state.head);
    assert_eq!(back.applied, state.applied);
    assert_eq!(back.unapplied, state.unapplied);
    assert_eq!(back.hidden, state.hidden);
    assert_eq!(back.patches.len(), 3);
    for entry in &state.patches {
        assert_eq!(back.patches.get(&entry.name), Some(entry.oid));
    }
}

#[test]
fn table_keeps_the_order_of_names_and_the_later_entry() {
    let table = PatchTable::new();
    assert_eq!(table.len(), 0);
    assert_eq!(table.get(&name("a")), None);
    let table = table
        .insert(name("m"), oid(OID1))
        .insert(name("a"), oid(OID2))
        .insert(name("z"), oid(OID3))
        .insert(name("m"), oid(OID3));
    assert_eq!(table.len(), 3);
    assert_eq!(table.entry(0).name.as_str(), "a");
    assert_eq!(table.entry(1).name.as_str(), "m");
    assert_eq!(table.entry(2).name.as_str(), "z");
    assert_eq!(table.get(&name("m")), Some(oid(OID3)));
    assert_eq!(table.get(&name("a")), Some(oid(OID2)));
    assert_eq!(table.get(&name("b")), None);
    assert_eq!(table.get(&name("zz")), None);
}

#[test]
fn errors_of_a_document_in_words() {
    assert_eq!(
        Error::UnsupportedVersion(4, 5).message(),
        "invalid value: integer `4`, expected 5"
    );
    assert_eq!(
        Error::UnsupportedVersion(i64::MIN, -10).message(),
        "invalid value: integer `-9223372036854775808`, expected -10"
    );
    assert_eq!(
        Error::UnsupportedVersion(i64::MAX, 0).message(),
        "invalid value: integer `9223372036854775807`, expected 0"
    );
    assert_eq!(
        Error::InvalidPrevOid("xyz".to_string()).message(),
        "invalid `prev` oid 'xyz'"
    );
    assert_eq!(
        Error::InvalidHeadOid(String::new()).message(),
        "invalid `head` oid ''"
    );
    assert_eq!(
        Error::InvalidPatchOid("p1".to_string(), "xyz".to_string()).message(),
        "invalid oid for patch `p1`: 'xyz'"
    );
    let mut doc = sample();
    doc.version = 4;
    assert_eq!(
        RawStackState::deserialize(&doc).unwrap_err().message(),
        "invalid value: integer `4`, expected 5"
    );
}

#[test]
fn errors_of_a_description_in_words() {
    assert_eq!(
        Error::NonUtf8PatchDescription.message(),
        "patch description is not UTF-8"
    );
    assert_eq!(Error::Generic("as it is".to_string()).message(), "as it is");
    assert_eq!(
        Error::InvalidPatchName("a b".to_string()).message(),
        "invalid patch name `a b`"
    );
    assert_eq!(
        Error::InvalidNameEmail("nobody".to_string()).message(),
        "invalid name and email `nobody`"
    );
    assert_eq!(
        Error::InvalidDate("never".to_string(), "patch description".to_string()).message(),
        "invalid date `never` in patch description"
    );
    assert_eq!(
        Error::UnprintableTime(-7, 1440).message(),
        "no date for time -7 at offset 1440"
    );
}
