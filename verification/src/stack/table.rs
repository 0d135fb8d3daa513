//! The table of the patches of a stack: each patch with the object it
//! stands for, in the order of the patch names.

use crate::oid::Oid;
use crate::patchname::{
    lemma_bytes_lt_irreflexive, lemma_bytes_lt_total, lemma_bytes_lt_transitive,
    lemma_same_bytes_same_name, name_lt, PatchName,
};
use vstd::prelude::*;
use vstd::utf8::encode_utf8;

verus! {

/// A patch and the bytes of the identifier of its object.
pub struct Entry {
    pub name: Seq<char>,
    pub oid: Seq<u8>,
}

/// Whether the names of `s` ascend strictly.
pub open spec fn ascending(s: Seq<Entry>) -> bool {
    forall|i: int, j: int| 0 <= i < j < s.len() ==> name_lt(#[trigger] s[i].name, #[trigger] s[j].name)
}

/// The number of entries at the front of `s` whose names come before
/// `name`.
pub open spec fn rank(s: Seq<Entry>, name: Seq<char>) -> int
    decreases s.len(),
{
    if s.len() == 0 || !name_lt(s[0].name, name) {
        0
    } else {
        1 + rank(s.drop_first(), name)
    }
}

/// The table `s` with the entry `e`: in the place of the entry of the same
/// name if there is one, and else at the place that its name gives it.
pub open spec fn put(s: Seq<Entry>, e: Entry) -> Seq<Entry> {
    let k = rank(s, e.name);
    if k < s.len() && s[k].name == e.name {
        s.update(k, e)
    } else {
        s.insert(k, e)
    }
}

/// The table that holds the entries of `entries`, put one after the other:
/// of two entries of one name the later one stays.
pub open spec fn table_of(entries: Seq<Entry>) -> Seq<Entry>
    decreases entries.len(),
{
    if entries.len() == 0 {
        Seq::empty()
    } else {
        put(table_of(entries.drop_last()), entries.last())
    }
}

/// The order of names is transitive.
pub proof fn lemma_name_lt_transitive(a: Seq<char>, b: Seq<char>, c: Seq<char>)
    requires
        name_lt(a, b),
        name_lt(b, c),
    ensures
        name_lt(a, c),
{
    lemma_bytes_lt_transitive(encode_utf8(a), encode_utf8(b), encode_utf8(c));
}

/// Of two names one comes first, or they are the same; no name comes before
/// itself.
pub proof fn lemma_name_lt_total(a: Seq<char>, b: Seq<char>)
    ensures
        name_lt(a, b) || name_lt(b, a) || a == b,
        !name_lt(a, a),
{
    lemma_bytes_lt_total(encode_utf8(a), encode_utf8(b));
    lemma_bytes_lt_irreflexive(encode_utf8(a));
    if encode_utf8(a) == encode_utf8(b) {
        lemma_same_bytes_same_name(a, b);
    }
}

/// Before the rank stand names that come before `name`, and the name at the
/// rank does not.
pub proof fn lemma_rank(s: Seq<Entry>, name: Seq<char>)
    ensures
        0 <= rank(s, name) <= s.len(),
        forall|i: int| 0 <= i < rank(s, name) ==> name_lt((#[trigger] s[i]).name, name),
        rank(s, name) < s.len() ==> !name_lt(s[rank(s, name)].name, name),
    decreases s.len(),
{
    if s.len() == 0 || !name_lt(s[0].name, name) {
    } else {
        let r = s.drop_first();
        lemma_rank(r, name);
        assert forall|i: int| 0 <= i < rank(s, name) implies name_lt(
            (#[trigger] s[i]).name,
            name,
        ) by {
            if i > 0 {
                assert(s[i] == r[i - 1]);
            }
        }
        if rank(s, name) < s.len() {
            assert(s[rank(s, name)] == r[rank(r, name)]);
        }
    }
}

/// An index with only earlier names before it, and no earlier name at it, is
/// the rank.
pub proof fn lemma_rank_is(s: Seq<Entry>, name: Seq<char>, k: int)
    requires
        0 <= k <= s.len(),
        forall|i: int| 0 <= i < k ==> name_lt((#[trigger] s[i]).name, name),
        k < s.len() ==> !name_lt(s[k].name, name),
    ensures
        rank(s, name) == k,
{
    lemma_rank(s, name);
    let r = rank(s, name);
    if r < k {
        assert(name_lt(s[r].name, name));
    } else if k < r {
        assert(name_lt(s[k].name, name));
    }
}

/// A table stays in order when an entry is put.
pub proof fn lemma_put_ascending(s: Seq<Entry>, e: Entry)
    requires
        ascending(s),
    ensures
        ascending(put(s, e)),
{
    lemma_rank(s, e.name);
    let k = rank(s, e.name);
    let t = put(s, e);
    if k < s.len() && s[k].name == e.name {
        assert forall|i: int, j: int| 0 <= i < j < t.len() implies name_lt(
            #[trigger] t[i].name,
            #[trigger] t[j].name,
        ) by {
            assert(t[i].name == s[i].name);
            assert(t[j].name == s[j].name);
        }
    } else {
        if k < s.len() {
            lemma_name_lt_total(s[k].name, e.name);
        }
        assert forall|i: int, j: int| 0 <= i < j < t.len() implies name_lt(
            #[trigger] t[i].name,
            #[trigger] t[j].name,
        ) by {
            if j < k {
                assert(t[i] == s[i] && t[j] == s[j]);
            } else if j == k {
                assert(t[i] == s[i]);
            } else if i == k {
                assert(t[j] == s[j - 1]);
                if j - 1 > k {
                    assert(name_lt(s[k].name, s[j - 1].name));
                    lemma_name_lt_transitive(e.name, s[k].name, s[j - 1].name);
                }
            } else if i < k {
                assert(t[i] == s[i] && t[j] == s[j - 1]);
            } else {
                assert(t[i] == s[i - 1] && t[j] == s[j - 1]);
            }
        }
    }
}

/// The table of any entries is in order.
pub proof fn lemma_table_of_ascending(entries: Seq<Entry>)
    ensures
        ascending(table_of(entries)),
    decreases entries.len(),
{
    if entries.len() > 0 {
        lemma_table_of_ascending(entries.drop_last());
        lemma_put_ascending(table_of(entries.drop_last()), entries.last());
    }
}

/// Entries that are in order are their own table.
pub proof fn lemma_table_of_table(s: Seq<Entry>)
    requires
        ascending(s),
    ensures
        table_of(s) == s,
    decreases s.len(),
{
    if s.len() > 0 {
        let front = s.drop_last();
        let e = s.last();
        assert forall|i: int, j: int| 0 <= i < j < front.len() implies name_lt(
            #[trigger] front[i].name,
            #[trigger] front[j].name,
        ) by {
            assert(front[i] == s[i] && front[j] == s[j]);
        }
        lemma_table_of_table(front);
        assert forall|i: int| 0 <= i < front.len() implies name_lt(
            (#[trigger] front[i]).name,
            e.name,
        ) by {
            assert(front[i] == s[i]);
            assert(e == s[s.len() - 1]);
        }
        lemma_rank_is(front, e.name, front.len() as int);
        assert(front.insert(front.len() as int, e) =~= s);
    } else {
        assert(table_of(s) =~= s);
    }
}

/// A patch with the identifier of its object.
#[derive(Debug)]
pub struct PatchEntry {
    pub name: PatchName,
    pub oid: Oid,
}

impl View for PatchEntry {
    type V = Entry;

    open spec fn view(&self) -> Entry {
        Entry { name: self.name@, oid: self.oid@ }
    }
}

/// The entries of `v`, with names as characters and identifiers as bytes.
pub open spec fn entries_of(v: Seq<PatchEntry>) -> Seq<Entry> {
    Seq::new(v.len(), |i: int| v[i]@)
}

/// The patches of a stack with their objects, kept in the order of the
/// patch names, each name once.
#[derive(Debug)]
pub struct PatchTable {
    entries: Vec<PatchEntry>,
}

impl View for PatchTable {
    type V = Seq<Entry>;

    closed spec fn view(&self) -> Seq<Entry> {
        entries_of(self.entries@)
    }
}

impl PatchTable {
    #[verifier::type_invariant]
    spec fn in_order(self) -> bool {
        ascending(entries_of(self.entries@))
    }

    /// The empty table.
    pub fn new() -> (table: PatchTable)
        ensures
            table@ == Seq::<Entry>::empty(),
    {
        let table = PatchTable { entries: Vec::new() };
        assert(table@ =~= Seq::<Entry>::empty());
        table
    }

    /// The number of patches.
    pub fn len(&self) -> (n: usize)
        ensures
            n == self@.len(),
            ascending(self@),
    {
        proof {
            use_type_invariant(self);
        }
        self.entries.len()
    }

    /// The entry at `i`, counted in the order of the names.
    pub fn entry(&self, i: usize) -> (e: &PatchEntry)
        requires
            i < self@.len(),
        ensures
            e@ == self@[i as int],
    {
        &self.entries[i]
    }

    /// The identifier of the object of the patch `name`, if the table holds
    /// that patch.
    pub fn get(&self, name: &PatchName) -> (found: Option<Oid>)
        ensures
            match found {
                Some(oid) => rank(self@, name@) < self@.len() && self@[rank(self@, name@)] == (Entry {
                    name: name@,
                    oid: oid@,
                }),
                None => forall|i: int| 0 <= i < self@.len() ==> (#[trigger] self@[i]).name != name@,
            },
    {
        proof {
            use_type_invariant(self);
        }
        let k = self.seek(name);
        if k < self.entries.len() && self.entries[k].name.same_as(name) {
            Some(self.entries[k].oid)
        } else {
            proof {
                let s = self@;
                lemma_rank(s, name@);
                assert forall|i: int| 0 <= i < s.len() implies (#[trigger] s[i]).name
                    != name@ by {
                    lemma_name_lt_total(name@, name@);
                    if i > k {
                        lemma_name_lt_total(s[k as int].name, name@);
                        assert(name_lt(s[k as int].name, s[i].name));
                        if s[i].name == name@ {
                            lemma_name_lt_transitive(name@, s[k as int].name, name@);
                        }
                    }
                }
            }
            None
        }
    }

    /// The rank of `name` in the table.
    fn seek(&self, name: &PatchName) -> (k: usize)
        ensures
            k == rank(self@, name@),
            k <= self@.len(),
    {
        let mut k: usize = 0;
        while k < self.entries.len() && self.entries[k].name.comes_before(name)
            invariant
                k <= self.entries@.len(),
                forall|i: int| 0 <= i < k ==> name_lt((#[trigger] self@[i]).name, name@),
            decreases self.entries@.len() - k,
        {
            k += 1;
        }
        proof {
            lemma_rank_is(self@, name@, k as int);
        }
        k
    }

    /// The table with the patch `name` and the object `oid`, in the place
    /// of an entry of the same name if there was one.
    pub fn insert(self, name: PatchName, oid: Oid) -> (table: PatchTable)
        ensures
            table@ == put(self@, Entry { name: name@, oid: oid@ }),
            ascending(table@),
    {
        proof {
            use_type_invariant(&self);
        }
        let ghost before = self@;
        let ghost e = Entry { name: name@, oid: oid@ };
        let k = self.seek(&name);
        proof {
            lemma_put_ascending(before, e);
        }
        let replace = k < self.entries.len() && self.entries[k].name.same_as(&name);
        let PatchTable { entries } = self;
        let mut entries = entries;
        if replace {
            entries[k] = PatchEntry { name, oid };
        } else {
            entries.insert(k, PatchEntry { name, oid });
        }
        assert(entries_of(entries@) =~= put(before, e));
        PatchTable { entries }
    }
}

} // verus!
