//! The document of a stack state, and the passage between the document and
//! the state: reading checks the schema version, the patch names and the
//! object identifiers; writing stamps the version and orders the patches by
//! name.

use crate::error::{Error, ErrorView};
use crate::oid::{hex_id_bytes, hex_text, is_hex_id, Oid};
use crate::patchname::{is_patch_name, PatchName};
use crate::stack::table::{
    ascending, entries_of, table_of, Entry, PatchEntry, PatchTable,
};
use vstd::prelude::*;

verus! {

/// The one schema version that is read and written.
pub const SCHEMA_VERSION: i64 = 5;

/// A patch of the document: its name, and the identifier of its object as
/// text.
#[derive(Debug)]
pub struct PatchRecord {
    pub name: String,
    pub oid: String,
}

/// The document of a stack state, with every identifier as text.
#[derive(Debug)]
pub struct StateDocument {
    pub version: i64,
    pub prev: Option<String>,
    pub head: String,
    pub applied: Vec<String>,
    pub unapplied: Vec<String>,
    pub hidden: Vec<String>,
    pub patches: Vec<PatchRecord>,
}

/// A patch of the document, with text as characters.
pub struct Record {
    pub name: Seq<char>,
    pub oid: Seq<char>,
}

/// A document, with text as characters.
pub struct DocumentView {
    pub version: i64,
    pub prev: Option<Seq<char>>,
    pub head: Seq<char>,
    pub applied: Seq<Seq<char>>,
    pub unapplied: Seq<Seq<char>>,
    pub hidden: Seq<Seq<char>>,
    pub patches: Seq<Record>,
}

/// A stack state, with names as characters and identifiers as bytes.
pub struct StateView {
    pub prev: Option<Seq<u8>>,
    pub head: Seq<u8>,
    pub applied: Seq<Seq<char>>,
    pub unapplied: Seq<Seq<char>>,
    pub hidden: Seq<Seq<char>>,
    pub patches: Seq<Entry>,
}

impl View for PatchRecord {
    type V = Record;

    open spec fn view(&self) -> Record {
        Record { name: self.name@, oid: self.oid@ }
    }
}

/// The strings of `v` as characters.
pub open spec fn texts_of(v: Seq<String>) -> Seq<Seq<char>> {
    Seq::new(v.len(), |i: int| v[i]@)
}

/// The names of `v` as characters.
pub open spec fn names_of(v: Seq<PatchName>) -> Seq<Seq<char>> {
    Seq::new(v.len(), |i: int| v[i]@)
}

/// The records of `v`, with text as characters.
pub open spec fn records_of(v: Seq<PatchRecord>) -> Seq<Record> {
    Seq::new(v.len(), |i: int| v[i]@)
}

/// The identifier of an optional object, as bytes.
pub open spec fn opt_oid(o: Option<Oid>) -> Option<Seq<u8>> {
    match o {
        Some(oid) => Some(oid@),
        None => None,
    }
}

/// The characters of an optional string.
pub open spec fn opt_string(o: Option<String>) -> Option<Seq<char>> {
    match o {
        Some(s) => Some(s@),
        None => None,
    }
}

impl View for StateDocument {
    type V = DocumentView;

    open spec fn view(&self) -> DocumentView {
        DocumentView {
            version: self.version,
            prev: opt_string(self.prev),
            head: self.head@,
            applied: texts_of(self.applied@),
            unapplied: texts_of(self.unapplied@),
            hidden: texts_of(self.hidden@),
            patches: records_of(self.patches@),
        }
    }
}

/// The state of a stack as a document tells it: the patches stand in a
/// table, in the order of their names.
#[derive(Debug)]
pub struct RawStackState {
    pub prev: Option<Oid>,
    pub head: Oid,
    pub applied: Vec<PatchName>,
    pub unapplied: Vec<PatchName>,
    pub hidden: Vec<PatchName>,
    pub patches: PatchTable,
}

impl View for RawStackState {
    type V = StateView;

    open spec fn view(&self) -> StateView {
        StateView {
            prev: opt_oid(self.prev),
            head: self.head@,
            applied: names_of(self.applied@),
            unapplied: names_of(self.unapplied@),
            hidden: names_of(self.hidden@),
            patches: self.patches@,
        }
    }
}

/// The state of a stack as it lives: the patches stand with their objects in
/// any order.
#[derive(Debug)]
pub struct StackState {
    pub prev: Option<Oid>,
    pub head: Oid,
    pub applied: Vec<PatchName>,
    pub unapplied: Vec<PatchName>,
    pub hidden: Vec<PatchName>,
    pub patches: Vec<PatchEntry>,
}

impl View for StackState {
    type V = StateView;

    open spec fn view(&self) -> StateView {
        StateView {
            prev: opt_oid(self.prev),
            head: self.head@,
            applied: names_of(self.applied@),
            unapplied: names_of(self.unapplied@),
            hidden: names_of(self.hidden@),
            patches: entries_of(self.patches@),
        }
    }
}

/// The index of the first name of `names` that breaks the grammar, or the
/// length of `names`.
pub open spec fn first_invalid(names: Seq<Seq<char>>) -> int
    decreases names.len(),
{
    if names.len() == 0 || !is_patch_name(names[0]) {
        0
    } else {
        1 + first_invalid(names.drop_first())
    }
}

/// The first name of `names` that breaks the grammar, if there is one.
pub open spec fn invalid_name(names: Seq<Seq<char>>) -> Option<Seq<char>> {
    let i = first_invalid(names);
    if i < names.len() {
        Some(names[i])
    } else {
        None
    }
}

/// The index of the first record of `records` whose `oid` is no object
/// identifier, or the length of `records`.
pub open spec fn first_bad_oid(records: Seq<Record>) -> int
    decreases records.len(),
{
    if records.len() == 0 || !is_hex_id(records[0].oid) {
        0
    } else {
        1 + first_bad_oid(records.drop_first())
    }
}

/// The names of `records`.
pub open spec fn record_names(records: Seq<Record>) -> Seq<Seq<char>> {
    Seq::new(records.len(), |i: int| records[i].name)
}

/// The entries that `records` spell.
pub open spec fn read_entries(records: Seq<Record>) -> Seq<Entry> {
    Seq::new(
        records.len(),
        |i: int| Entry { name: records[i].name, oid: hex_id_bytes(records[i].oid) },
    )
}

/// The records that spell `entries`.
pub open spec fn write_records(entries: Seq<Entry>) -> Seq<Record> {
    Seq::new(
        entries.len(),
        |i: int| Record { name: entries[i].name, oid: hex_text(entries[i].oid) },
    )
}

/// The identifier that an optional text spells.
pub open spec fn read_prev(prev: Option<Seq<char>>) -> Option<Seq<u8>> {
    match prev {
        Some(text) => Some(hex_id_bytes(text)),
        None => None,
    }
}

/// The text that spells an optional identifier.
pub open spec fn write_prev(prev: Option<Seq<u8>>) -> Option<Seq<char>> {
    match prev {
        Some(bytes) => Some(hex_text(bytes)),
        None => None,
    }
}

/// The error of the first name of the document that breaks the grammar: the
/// names of `applied`, `unapplied`, `hidden` and `patches` are held to it,
/// in this order.
pub open spec fn name_error(doc: DocumentView) -> Option<ErrorView> {
    match invalid_name(doc.applied) {
        Some(name) => Some(ErrorView::InvalidPatchName(name)),
        None => match invalid_name(doc.unapplied) {
            Some(name) => Some(ErrorView::InvalidPatchName(name)),
            None => match invalid_name(doc.hidden) {
                Some(name) => Some(ErrorView::InvalidPatchName(name)),
                None => match invalid_name(record_names(doc.patches)) {
                    Some(name) => Some(ErrorView::InvalidPatchName(name)),
                    None => None,
                },
            },
        },
    }
}

/// The error of the first identifier of the document that is none: `prev`,
/// `head` and the patches are held to it, in this order.
pub open spec fn oid_error(doc: DocumentView) -> Option<ErrorView> {
    if doc.prev matches Some(text) && !is_hex_id(text) {
        Some(ErrorView::InvalidPrevOid(doc.prev->0))
    } else if !is_hex_id(doc.head) {
        Some(ErrorView::InvalidHeadOid(doc.head))
    } else {
        let i = first_bad_oid(doc.patches);
        if i < doc.patches.len() {
            Some(ErrorView::InvalidPatchOid(doc.patches[i].name, doc.patches[i].oid))
        } else {
            None
        }
    }
}

/// The state that the document `doc` tells, or the error it is refused
/// with: that of a patch name, of the version, or of an identifier, in this
/// order. The three sequences are kept as they are; the patches are put
/// into a table in the order of the document.
pub open spec fn decode_spec(doc: DocumentView) -> Result<StateView, ErrorView> {
    match name_error(doc) {
        Some(e) => Err(e),
        None => if doc.version != SCHEMA_VERSION {
            Err(ErrorView::UnsupportedVersion(doc.version, SCHEMA_VERSION))
        } else {
            match oid_error(doc) {
                Some(e) => Err(e),
                None => Ok(
                    StateView {
                        prev: read_prev(doc.prev),
                        head: hex_id_bytes(doc.head),
                        applied: doc.applied,
                        unapplied: doc.unapplied,
                        hidden: doc.hidden,
                        patches: table_of(read_entries(doc.patches)),
                    },
                ),
            }
        },
    }
}

/// The document of the state `s`: the version is stamped, every identifier
/// is spelled in its canonical form, the three sequences are kept as they
/// are, and the patches stand in the order of their names.
pub open spec fn encode_spec(s: StateView) -> DocumentView {
    DocumentView {
        version: SCHEMA_VERSION,
        prev: write_prev(s.prev),
        head: hex_text(s.head),
        applied: s.applied,
        unapplied: s.unapplied,
        hidden: s.hidden,
        patches: write_records(table_of(s.patches)),
    }
}

/// Before the first invalid name stand valid names.
pub proof fn lemma_first_invalid(names: Seq<Seq<char>>)
    ensures
        0 <= first_invalid(names) <= names.len(),
        forall|i: int| 0 <= i < first_invalid(names) ==> is_patch_name(#[trigger] names[i]),
        first_invalid(names) < names.len() ==> !is_patch_name(names[first_invalid(names)]),
    decreases names.len(),
{
    if names.len() == 0 || !is_patch_name(names[0]) {
    } else {
        let r = names.drop_first();
        lemma_first_invalid(r);
        assert forall|i: int| 0 <= i < first_invalid(names) implies is_patch_name(
            #[trigger] names[i],
        ) by {
            if i > 0 {
                assert(names[i] == r[i - 1]);
            }
        }
        if first_invalid(names) < names.len() {
            assert(names[first_invalid(names)] == r[first_invalid(r)]);
        }
    }
}

/// An index with valid names before it, and no valid name at it, is that of
/// the first invalid name.
pub proof fn lemma_first_invalid_is(names: Seq<Seq<char>>, k: int)
    requires
        0 <= k <= names.len(),
        forall|i: int| 0 <= i < k ==> is_patch_name(#[trigger] names[i]),
        k < names.len() ==> !is_patch_name(names[k]),
    ensures
        first_invalid(names) == k,
{
    lemma_first_invalid(names);
    let f = first_invalid(names);
    if f < k {
        assert(is_patch_name(names[f]));
    } else if k < f {
        assert(is_patch_name(names[k]));
    }
}

/// Before the first record with a bad identifier stand records with good
/// ones.
pub proof fn lemma_first_bad_oid(records: Seq<Record>)
    ensures
        0 <= first_bad_oid(records) <= records.len(),
        forall|i: int| 0 <= i < first_bad_oid(records) ==> is_hex_id((#[trigger] records[i]).oid),
        first_bad_oid(records) < records.len() ==> !is_hex_id(records[first_bad_oid(records)].oid),
    decreases records.len(),
{
    if records.len() == 0 || !is_hex_id(records[0].oid) {
    } else {
        let r = records.drop_first();
        lemma_first_bad_oid(r);
        assert forall|i: int| 0 <= i < first_bad_oid(records) implies is_hex_id(
            (#[trigger] records[i]).oid,
        ) by {
            if i > 0 {
                assert(records[i] == r[i - 1]);
            }
        }
        if first_bad_oid(records) < records.len() {
            assert(records[first_bad_oid(records)] == r[first_bad_oid(r)]);
        }
    }
}

/// An index with good identifiers before it, and no good one at it, is that
/// of the first bad identifier.
pub proof fn lemma_first_bad_oid_is(records: Seq<Record>, k: int)
    requires
        0 <= k <= records.len(),
        forall|i: int| 0 <= i < k ==> is_hex_id((#[trigger] records[i]).oid),
        k < records.len() ==> !is_hex_id(records[k].oid),
    ensures
        first_bad_oid(records) == k,
{
    lemma_first_bad_oid(records);
    let f = first_bad_oid(records);
    if f < k {
        assert(is_hex_id(records[f].oid));
    } else if k < f {
        assert(is_hex_id(records[k].oid));
    }
}

fn read_names(texts: &Vec<String>) -> (r: Result<Vec<PatchName>, Error>)
    ensures
        match r {
            Ok(names) => invalid_name(texts_of(texts@)) is None && names_of(names@) == texts_of(
                texts@,
            ),
            Err(e) => invalid_name(texts_of(texts@)) matches Some(name) && e@
                == ErrorView::InvalidPatchName(name),
        },
{
    let mut names: Vec<PatchName> = Vec::new();
    let mut i: usize = 0;
    while i < texts.len()
        invariant
            i <= texts@.len(),
            names@.len() == i,
            forall|j: int| 0 <= j < i ==> is_patch_name(#[trigger] texts_of(texts@)[j]),
            forall|j: int| 0 <= j < i ==> (#[trigger] names@[j])@ == texts@[j]@,
        decreases texts@.len() - i,
    {
        match PatchName::new(texts[i].as_str()) {
            Some(name) => {
                names.push(name);
            },
            None => {
                proof {
                    lemma_first_invalid_is(texts_of(texts@), i as int);
                }
                return Err(Error::InvalidPatchName(texts[i].clone()));
            },
        }
        i += 1;
    }
    proof {
        lemma_first_invalid_is(texts_of(texts@), i as int);
        assert(names_of(names@) =~= texts_of(texts@));
    }
    Ok(names)
}

fn read_record_names(records: &Vec<PatchRecord>) -> (r: Result<Vec<PatchName>, Error>)
    ensures
        match r {
            Ok(names) => invalid_name(record_names(records_of(records@))) is None && names_of(names@)
                == record_names(records_of(records@)),
            Err(e) => invalid_name(record_names(records_of(records@))) matches Some(name) && e@
                == ErrorView::InvalidPatchName(name),
        },
{
    let ghost all = record_names(records_of(records@));
    let mut names: Vec<PatchName> = Vec::new();
    let mut i: usize = 0;
    while i < records.len()
        invariant
            all == record_names(records_of(records@)),
            i <= records@.len(),
            names@.len() == i,
            forall|j: int| 0 <= j < i ==> is_patch_name(#[trigger] all[j]),
            forall|j: int| 0 <= j < i ==> (#[trigger] names@[j])@ == all[j],
        decreases records@.len() - i,
    {
        match PatchName::new(records[i].name.as_str()) {
            Some(name) => {
                names.push(name);
            },
            None => {
                proof {
                    lemma_first_invalid_is(all, i as int);
                }
                return Err(Error::InvalidPatchName(records[i].name.clone()));
            },
        }
        i += 1;
    }
    proof {
        lemma_first_invalid_is(all, i as int);
        assert(names_of(names@) =~= all);
    }
    Ok(names)
}

fn write_names(names: &Vec<PatchName>) -> (texts: Vec<String>)
    ensures
        texts_of(texts@) == names_of(names@),
{
    let mut texts: Vec<String> = Vec::new();
    let mut i: usize = 0;
    while i < names.len()
        invariant
            i <= names@.len(),
            texts@.len() == i,
            forall|j: int| 0 <= j < i ==> (#[trigger] texts@[j])@ == names@[j]@,
        decreases names@.len() - i,
    {
        texts.push(names[i].as_str().to_owned());
        i += 1;
    }
    assert(texts_of(texts@) =~= names_of(names@));
    texts
}

impl RawStackState {
    /// Reads the state that the document tells. The patch names, the
    /// version and the identifiers are held to the schema, in this order,
    /// and the first that fails is named.
    #[verifier::loop_isolation(false)]
    pub fn deserialize(doc: &StateDocument) -> (r: Result<RawStackState, Error>)
        ensures
            match r {
                Ok(state) => decode_spec(doc@) == Ok::<StateView, ErrorView>(state@),
                Err(e) => decode_spec(doc@) == Err::<StateView, ErrorView>(e@),
            },
            r matches Ok(state) ==> ascending(state@.patches),
    {
        let applied = match read_names(&doc.applied) {
            Ok(names) => names,
            Err(e) => {
                return Err(e);
            },
        };
        let unapplied = match read_names(&doc.unapplied) {
            Ok(names) => names,
            Err(e) => {
                return Err(e);
            },
        };
        let hidden = match read_names(&doc.hidden) {
            Ok(names) => names,
            Err(e) => {
                return Err(e);
            },
        };
        let keys = match read_record_names(&doc.patches) {
            Ok(names) => names,
            Err(e) => {
                return Err(e);
            },
        };
        if doc.version != SCHEMA_VERSION {
            return Err(Error::UnsupportedVersion(doc.version, SCHEMA_VERSION));
        }
        let prev = match &doc.prev {
            Some(text) => match Oid::from_str(text.as_str()) {
                Some(oid) => Some(oid),
                None => {
                    return Err(Error::InvalidPrevOid(text.clone()));
                },
            },
            None => None,
        };
        let head = match Oid::from_str(doc.head.as_str()) {
            Some(oid) => oid,
            None => {
                return Err(Error::InvalidHeadOid(doc.head.clone()));
            },
        };
        let ghost records = records_of(doc.patches@);
        let mut patches = PatchTable::new();
        let mut i: usize = 0;
        assert(read_entries(records).take(0) =~= Seq::<Entry>::empty());
        while i < doc.patches.len()
            invariant
                records == records_of(doc.patches@),
                names_of(keys@) == record_names(records),
                i <= doc.patches@.len(),
                forall|j: int| 0 <= j < i ==> is_hex_id((#[trigger] records[j]).oid),
                patches@ == table_of(read_entries(records).take(i as int)),
                ascending(patches@),
            decreases doc.patches@.len() - i,
        {
            let record = &doc.patches[i];
            let oid = match Oid::from_str(record.oid.as_str()) {
                Some(oid) => oid,
                None => {
                    proof {
                        lemma_first_bad_oid_is(records, i as int);
                    }
                    return Err(Error::InvalidPatchOid(record.name.clone(), record.oid.clone()));
                },
            };
            proof {
                let next = read_entries(records).take(i + 1);
                assert(next.drop_last() =~= read_entries(records).take(i as int));
                assert(names_of(keys@)[i as int] == record_names(records)[i as int]);
                assert(next.last() == Entry { name: keys@[i as int]@, oid: oid@ });
            }
            patches = patches.insert(keys[i].clone(), oid);
            i += 1;
        }
        proof {
            lemma_first_bad_oid_is(records, i as int);
            assert(read_entries(records).take(i as int) =~= read_entries(records));
        }
        Ok(RawStackState { prev, head, applied, unapplied, hidden, patches })
    }
}

impl StackState {
    /// The document of the state.
    pub fn serialize(&self) -> (doc: StateDocument)
        ensures
            doc@ == encode_spec(self@),
    {
        let prev = match &self.prev {
            Some(oid) => Some(oid.to_string()),
            None => None,
        };
        let head = self.head.to_string();
        let ghost entries = entries_of(self.patches@);
        let mut table = PatchTable::new();
        let mut i: usize = 0;
        assert(entries.take(0) =~= Seq::<Entry>::empty());
        while i < self.patches.len()
            invariant
                entries == entries_of(self.patches@),
                i <= self.patches@.len(),
                table@ == table_of(entries.take(i as int)),
            decreases self.patches@.len() - i,
        {
            proof {
                let next = entries.take(i + 1);
                assert(next.drop_last() =~= entries.take(i as int));
                assert(next.last() == self.patches@[i as int]@);
            }
            table = table.insert(self.patches[i].name.clone(), self.patches[i].oid);
            i += 1;
        }
        assert(entries.take(i as int) =~= entries);
        let mut patches: Vec<PatchRecord> = Vec::new();
        let mut k: usize = 0;
        let n = table.len();
        while k < n
            invariant
                n == table@.len(),
                k <= n,
                patches@.len() == k,
                forall|j: int| 0 <= j < k ==> (#[trigger] patches@[j])@ == write_records(table@)[j],
            decreases n - k,
        {
            let entry = table.entry(k);
            patches.push(
                PatchRecord { name: entry.name.as_str().to_owned(), oid: entry.oid.to_string() },
            );
            k += 1;
        }
        assert(records_of(patches@) =~= write_records(table@));
        StateDocument {
            version: SCHEMA_VERSION,
            prev,
            head,
            applied: write_names(&self.applied),
            unapplied: write_names(&self.unapplied),
            hidden: write_names(&self.hidden),
            patches,
        }
    }
}

} // verus!
