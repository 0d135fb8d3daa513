//! What holds of reading and writing the document of a stack state.

use crate::error::ErrorView;
use crate::oid::{is_hex_id, lemma_hex_round_trip, OID_BYTES};
use crate::patchname::is_patch_name;
use crate::stack::schema::{
    decode_spec, encode_spec, lemma_first_bad_oid_is, lemma_first_invalid_is, name_error,
    oid_error, read_entries, read_prev, record_names, DocumentView, StateView, SCHEMA_VERSION,
};
use crate::stack::table::{
    lemma_rank, lemma_table_of_ascending, lemma_table_of_table, put, rank, table_of, Entry,
};
use vstd::prelude::*;

verus! {

/// Whether the entry holds a patch name and the bytes of an identifier.
pub open spec fn sound(e: Entry) -> bool {
    is_patch_name(e.name) && e.oid.len() == OID_BYTES
}

/// Whether every entry of `s` is sound.
pub open spec fn all_sound(s: Seq<Entry>) -> bool {
    forall|i: int| 0 <= i < s.len() ==> sound(#[trigger] s[i])
}

/// Whether every name of `names` follows the grammar.
pub open spec fn all_names(names: Seq<Seq<char>>) -> bool {
    forall|i: int| 0 <= i < names.len() ==> is_patch_name(#[trigger] names[i])
}

impl StateView {
    /// Whether the state holds patch names where names stand, and twenty
    /// bytes where identifiers stand.
    pub open spec fn wf(self) -> bool {
        &&& self.prev matches Some(bytes) ==> bytes.len() == OID_BYTES
        &&& self.head.len() == OID_BYTES
        &&& all_names(self.applied)
        &&& all_names(self.unapplied)
        &&& all_names(self.hidden)
        &&& all_sound(self.patches)
    }
}

/// A table of sound entries stays sound when a sound entry is put.
pub proof fn lemma_put_sound(s: Seq<Entry>, e: Entry)
    requires
        all_sound(s),
        sound(e),
    ensures
        all_sound(put(s, e)),
{
    lemma_rank(s, e.name);
    let k = rank(s, e.name);
    let t = put(s, e);
    assert forall|i: int| 0 <= i < t.len() implies sound(#[trigger] t[i]) by {
        if k < s.len() && s[k].name == e.name {
            if i != k {
                assert(t[i] == s[i]);
            }
        } else {
            if i < k {
                assert(t[i] == s[i]);
            } else if i > k {
                assert(t[i] == s[i - 1]);
            }
        }
    }
}

/// The table of sound entries is sound.
pub proof fn lemma_table_of_sound(entries: Seq<Entry>)
    requires
        all_sound(entries),
    ensures
        all_sound(table_of(entries)),
    decreases entries.len(),
{
    if entries.len() > 0 {
        let front = entries.drop_last();
        assert forall|i: int| 0 <= i < front.len() implies sound(#[trigger] front[i]) by {
            assert(front[i] == entries[i]);
        }
        lemma_table_of_sound(front);
        assert(sound(entries[entries.len() - 1]));
        lemma_put_sound(table_of(front), entries.last());
    }
}

/// Reading the document of a state gives the state back: the three
/// sequences as they were, and the patches in the table that their names
/// order.
pub proof fn lemma_decode_encode(s: StateView)
    requires
        s.wf(),
    ensures
        decode_spec(encode_spec(s)) == Ok::<StateView, ErrorView>(
            StateView { patches: table_of(s.patches), ..s },
        ),
{
    let doc = encode_spec(s);
    let t = table_of(s.patches);
    lemma_table_of_sound(s.patches);
    lemma_table_of_ascending(s.patches);
    lemma_table_of_table(t);
    lemma_first_invalid_is(s.applied, s.applied.len() as int);
    lemma_first_invalid_is(s.unapplied, s.unapplied.len() as int);
    lemma_first_invalid_is(s.hidden, s.hidden.len() as int);
    let keys = record_names(doc.patches);
    assert forall|i: int| 0 <= i < keys.len() implies is_patch_name(#[trigger] keys[i]) by {
        assert(sound(t[i]));
    }
    lemma_first_invalid_is(keys, keys.len() as int);
    assert(name_error(doc) is None);
    match s.prev {
        Some(bytes) => {
            lemma_hex_round_trip(bytes);
        },
        None => {},
    }
    lemma_hex_round_trip(s.head);
    assert forall|i: int| 0 <= i < doc.patches.len() implies is_hex_id(
        (#[trigger] doc.patches[i]).oid,
    ) by {
        assert(sound(t[i]));
        lemma_hex_round_trip(t[i].oid);
    }
    lemma_first_bad_oid_is(doc.patches, doc.patches.len() as int);
    assert(oid_error(doc) is None);
    assert forall|i: int| 0 <= i < t.len() implies #[trigger] read_entries(doc.patches)[i]
        == t[i] by {
        assert(sound(t[i]));
        lemma_hex_round_trip(t[i].oid);
    }
    assert(read_entries(doc.patches) =~= t);
    assert(read_prev(doc.prev) == s.prev);
}

/// A document of another version than the supported one is refused, and the
/// error names the version found, unless a patch name is refused first.
pub proof fn lemma_version_mismatch(doc: DocumentView)
    requires
        doc.version != SCHEMA_VERSION,
        name_error(doc) is None,
    ensures
        decode_spec(doc) == Err::<StateView, ErrorView>(
            ErrorView::UnsupportedVersion(doc.version, SCHEMA_VERSION),
        ),
{
}

/// A document whose `head` is no identifier is refused, and the error names
/// the text of `head`, unless a patch name, the version or `prev` is
/// refused first.
pub proof fn lemma_bad_head(doc: DocumentView)
    requires
        name_error(doc) is None,
        doc.version == SCHEMA_VERSION,
        doc.prev matches Some(text) ==> is_hex_id(text),
        !is_hex_id(doc.head),
    ensures
        decode_spec(doc) == Err::<StateView, ErrorView>(ErrorView::InvalidHeadOid(doc.head)),
{
}

/// A document with a patch whose `oid` is no identifier is refused, and the
/// error names the first such patch and the text of its `oid`, unless a
/// patch name, the version, `prev` or `head` is refused first.
pub proof fn lemma_bad_patch_oid(doc: DocumentView, i: int)
    requires
        name_error(doc) is None,
        doc.version == SCHEMA_VERSION,
        doc.prev matches Some(text) ==> is_hex_id(text),
        is_hex_id(doc.head),
        0 <= i < doc.patches.len(),
        !is_hex_id(doc.patches[i].oid),
        forall|j: int| 0 <= j < i ==> is_hex_id((#[trigger] doc.patches[j]).oid),
    ensures
        decode_spec(doc) == Err::<StateView, ErrorView>(
            ErrorView::InvalidPatchOid(doc.patches[i].name, doc.patches[i].oid),
        ),
{
    lemma_first_bad_oid_is(doc.patches, i);
}

} // verus!
