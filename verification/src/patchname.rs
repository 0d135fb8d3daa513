//! Patch names: validated identifiers with a total order.

use crate::error::{Error, ErrorView};
use crate::text::{char_is_whitespace, chars_of, is_whitespace};
use vstd::prelude::*;
use vstd::utf8::encode_utf8;

verus! {

/// The identifier grammar: a patch name is not empty and holds no
/// whitespace.
pub open spec fn is_patch_name(name: Seq<char>) -> bool {
    &&& name.len() > 0
    &&& forall|i: int| 0 <= i < name.len() ==> !is_whitespace(#[trigger] name[i])
}

/// Whether `a` comes before `b` byte by byte, a proper prefix first.
pub open spec fn bytes_lt(a: Seq<u8>, b: Seq<u8>) -> bool
    decreases a.len(),
{
    if b.len() == 0 {
        false
    } else if a.len() == 0 {
        true
    } else if a[0] != b[0] {
        a[0] < b[0]
    } else {
        bytes_lt(a.drop_first(), b.drop_first())
    }
}

/// The order of names: that of their UTF-8 bytes.
pub open spec fn name_lt(a: Seq<char>, b: Seq<char>) -> bool {
    bytes_lt(encode_utf8(a), encode_utf8(b))
}

/// No byte sequence comes before itself.
pub proof fn lemma_bytes_lt_irreflexive(a: Seq<u8>)
    ensures
        !bytes_lt(a, a),
    decreases a.len(),
{
    if a.len() > 0 {
        lemma_bytes_lt_irreflexive(a.drop_first());
    }
}

/// The byte order is transitive.
pub proof fn lemma_bytes_lt_transitive(a: Seq<u8>, b: Seq<u8>, c: Seq<u8>)
    requires
        bytes_lt(a, b),
        bytes_lt(b, c),
    ensures
        bytes_lt(a, c),
    decreases a.len(),
{
    if a.len() > 0 && a[0] == b[0] && b[0] == c[0] {
        lemma_bytes_lt_transitive(a.drop_first(), b.drop_first(), c.drop_first());
    }
}

/// Of two byte sequences one comes first, or they are the same.
pub proof fn lemma_bytes_lt_total(a: Seq<u8>, b: Seq<u8>)
    ensures
        bytes_lt(a, b) || bytes_lt(b, a) || a == b,
    decreases a.len(),
{
    if a.len() == 0 || b.len() == 0 {
        if a.len() == 0 && b.len() == 0 {
            assert(a =~= b);
        }
    } else if a[0] == b[0] {
        lemma_bytes_lt_total(a.drop_first(), b.drop_first());
        if a.drop_first() == b.drop_first() {
            assert(a =~= seq![a[0]] + a.drop_first());
            assert(b =~= seq![b[0]] + b.drop_first());
        }
    }
}

/// Two names with the same bytes are the same name.
pub proof fn lemma_same_bytes_same_name(a: Seq<char>, b: Seq<char>)
    requires
        encode_utf8(a) == encode_utf8(b),
    ensures
        a == b,
{
    vstd::utf8::encode_utf8_decode_utf8(a);
    vstd::utf8::encode_utf8_decode_utf8(b);
}

/// Whether `a` comes before `b` in the byte order.
pub fn precedes(a: &[u8], b: &[u8]) -> (r: bool)
    ensures
        r == bytes_lt(a@, b@),
{
    let mut i: usize = 0;
    assert(a@.skip(0) =~= a@ && b@.skip(0) =~= b@);
    while i < a.len() && i < b.len() && a[i] == b[i]
        invariant
            i <= a@.len(),
            i <= b@.len(),
            bytes_lt(a@, b@) == bytes_lt(a@.skip(i as int), b@.skip(i as int)),
        decreases a@.len() - i,
    {
        assert(a@.skip(i as int).drop_first() =~= a@.skip(i + 1));
        assert(b@.skip(i as int).drop_first() =~= b@.skip(i + 1));
        i += 1;
    }
    if i >= b.len() {
        false
    } else if i >= a.len() {
        true
    } else {
        a[i] < b[i]
    }
}

/// The name of a patch.
#[derive(Debug, PartialEq, Eq, PartialOrd, Ord, Hash)]
pub struct PatchName {
    name: String,
}

impl View for PatchName {
    type V = Seq<char>;

    closed spec fn view(&self) -> Seq<char> {
        self.name@
    }
}

impl PatchName {
    #[verifier::type_invariant]
    spec fn valid(self) -> bool {
        is_patch_name(self.name@)
    }

    /// The patch name that `name` spells, if it follows the grammar.
    pub fn new(name: &str) -> (made: Option<PatchName>)
        ensures
            made is Some <==> is_patch_name(name@),
            made matches Some(p) ==> p@ == name@,
    {
        let chars = chars_of(name);
        if chars.len() == 0 {
            return None;
        }
        let mut i: usize = 0;
        while i < chars.len()
            invariant
                chars@ == name@,
                i <= chars@.len(),
                forall|j: int| 0 <= j < i ==> !is_whitespace(#[trigger] chars@[j]),
            decreases chars@.len() - i,
        {
            if char_is_whitespace(chars[i]) {
                assert(is_whitespace(name@[i as int]));
                return None;
            }
            i += 1;
        }
        Some(PatchName { name: name.to_owned() })
    }

    /// The name as text; it follows the grammar.
    pub fn as_str(&self) -> (text: &str)
        ensures
            text@ == self@,
            is_patch_name(text@),
    {
        proof {
            use_type_invariant(self);
        }
        self.name.as_str()
    }

    /// Whether this name comes before `other`.
    pub fn comes_before(&self, other: &PatchName) -> (r: bool)
        ensures
            r == name_lt(self@, other@),
    {
        precedes(self.name.as_str().as_bytes(), other.name.as_str().as_bytes())
    }

    /// Whether this name and `other` are the same.
    pub fn same_as(&self, other: &PatchName) -> (r: bool)
        ensures
            r == (self@ == other@),
    {
        let a = self.name.as_str().as_bytes();
        let b = other.name.as_str().as_bytes();
        proof {
            lemma_bytes_lt_irreflexive(a@);
            if !bytes_lt(a@, b@) && !bytes_lt(b@, a@) {
                lemma_bytes_lt_total(a@, b@);
                lemma_same_bytes_same_name(self@, other@);
            }
        }
        !precedes(a, b) && !precedes(b, a)
    }

}

impl std::str::FromStr for PatchName {
    type Err = Error;

    /// The patch name that `name` spells, or the error that names `name`
    /// where it breaks the grammar.
    fn from_str(name: &str) -> (made: Result<PatchName, Error>)
        ensures
            made is Ok <==> is_patch_name(name@),
            made matches Ok(valid) ==> valid@ == name@,
            made matches Err(e) ==> e@ == ErrorView::InvalidPatchName(name@),
    {
        match PatchName::new(name) {
            Some(valid) => Ok(valid),
            None => Err(Error::InvalidPatchName(name.to_owned())),
        }
    }
}

impl Clone for PatchName {
    fn clone(&self) -> (copy: PatchName)
        ensures
            copy@ == self@,
    {
        proof {
            use_type_invariant(self);
        }
        PatchName { name: self.name.clone() }
    }
}

} // verus!
