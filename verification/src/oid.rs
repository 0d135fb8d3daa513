//! Object identifiers: twenty bytes, written as forty hexadecimal digits.

use vstd::prelude::*;

verus! {

/// The number of bytes of an object identifier.
pub const OID_BYTES: usize = 20;

/// The value of the hexadecimal digit `c`, in either case; -1 for any other
/// character.
pub open spec fn hex_value(c: char) -> int {
    let u = c as u32 as int;
    if 0x30 <= u <= 0x39 {
        u - 0x30
    } else if 0x41 <= u <= 0x46 {
        u - 0x41 + 10
    } else if 0x61 <= u <= 0x66 {
        u - 0x61 + 10
    } else {
        -1
    }
}

/// The lower-case hexadecimal digit of value `v`.
pub open spec fn hex_digit(v: int) -> char {
    if v < 10 {
        ((0x30 + v) as u8) as char
    } else {
        ((0x61 + v - 10) as u8) as char
    }
}

/// Whether `text` spells an object identifier: one to forty hexadecimal
/// digits.
pub open spec fn is_hex_id(text: Seq<char>) -> bool {
    &&& 1 <= text.len() <= 2 * OID_BYTES
    &&& forall|i: int| 0 <= i < text.len() ==> hex_value(#[trigger] text[i]) >= 0
}

/// The value of the digit at `i`; digits that `text` lacks count as zero.
pub open spec fn nibble(text: Seq<char>, i: int) -> int {
    if i < text.len() {
        hex_value(text[i])
    } else {
        0
    }
}

/// The bytes that `text` spells, two digits to a byte, the high one first.
pub open spec fn hex_id_bytes(text: Seq<char>) -> Seq<u8> {
    Seq::new(OID_BYTES as nat, |k: int| (16 * nibble(text, 2 * k) + nibble(text, 2 * k + 1)) as u8)
}

/// The forty lower-case digits that spell `bytes`.
pub open spec fn hex_text(bytes: Seq<u8>) -> Seq<char> {
    Seq::new(
        2 * OID_BYTES as nat,
        |i: int|
            hex_digit(
                if i % 2 == 0 {
                    bytes[i / 2] as int / 16
                } else {
                    bytes[i / 2] as int % 16
                },
            ),
    )
}

/// A digit has the value it was made from.
pub proof fn lemma_hex_digit_value(v: int)
    requires
        0 <= v < 16,
    ensures
        hex_value(hex_digit(v)) == v,
{
}

/// What `hex_text` writes, `hex_id_bytes` reads back.
pub proof fn lemma_hex_round_trip(bytes: Seq<u8>)
    requires
        bytes.len() == OID_BYTES,
    ensures
        is_hex_id(hex_text(bytes)),
        hex_id_bytes(hex_text(bytes)) == bytes,
{
    let text = hex_text(bytes);
    assert forall|i: int| 0 <= i < text.len() implies hex_value(#[trigger] text[i]) >= 0 by {
        let v = if i % 2 == 0 {
            bytes[i / 2] as int / 16
        } else {
            bytes[i / 2] as int % 16
        };
        lemma_hex_digit_value(v);
    }
    assert forall|k: int| 0 <= k < OID_BYTES implies #[trigger] hex_id_bytes(text)[k]
        == bytes[k] by {
        lemma_hex_digit_value(bytes[k] as int / 16);
        lemma_hex_digit_value(bytes[k] as int % 16);
        assert((2 * k) % 2 == 0 && (2 * k) / 2 == k);
        assert((2 * k + 1) % 2 == 1 && (2 * k + 1) / 2 == k);
        assert(text[2 * k] == hex_digit(bytes[k] as int / 16));
        assert(text[2 * k + 1] == hex_digit(bytes[k] as int % 16));
    }
    assert(hex_id_bytes(text) =~= bytes);
}

/// `git2::Oid::from_str`: the identifier that `text` spells, by its bytes
/// as `as_bytes` gives them. It is refused unless `text` is one to forty
/// hexadecimal digits; missing digits count as zero.
#[verifier::external_body]
fn git_oid_from_str(text: &str) -> (parsed: Option<[u8; 20]>)
    ensures
        parsed is Some <==> is_hex_id(text@),
        parsed matches Some(bytes) ==> bytes@ == hex_id_bytes(text@),
{
    match git2::Oid::from_str(text) {
        Ok(oid) => <[u8; 20]>::try_from(oid.as_bytes()).ok(),
        Err(_) => None,
    }
}

/// `git2::Oid`'s `to_string`, on the identifier that `git2::Oid::from_bytes`
/// makes of twenty bytes: the forty lower-case hexadecimal digits of these
/// bytes.
#[verifier::external_body]
fn git_oid_to_string(bytes: &[u8; 20]) -> (text: String)
    ensures
        text@ == hex_text(bytes@),
{
    match git2::Oid::from_bytes(bytes) {
        Ok(oid) => oid.to_string(),
        Err(_) => String::new(),
    }
}

/// The identifier of an object.
#[derive(Clone, Copy, Debug, PartialEq, Eq, Hash)]
pub struct Oid {
    pub bytes: [u8; 20],
}

impl View for Oid {
    type V = Seq<u8>;

    open spec fn view(&self) -> Seq<u8> {
        self.bytes@
    }
}

impl Oid {
    /// The identifier that `text` spells, if it spells one.
    pub fn from_str(text: &str) -> (parsed: Option<Oid>)
        ensures
            parsed is Some <==> is_hex_id(text@),
            parsed matches Some(oid) ==> oid@ == hex_id_bytes(text@),
    {
        match git_oid_from_str(text) {
            Some(bytes) => Some(Oid { bytes }),
            None => None,
        }
    }

    /// The identifier in its canonical form.
    pub fn to_string(&self) -> (text: String)
        ensures
            text@ == hex_text(self@),
    {
        git_oid_to_string(&self.bytes)
    }

    /// Whether this identifier and `other` are the same.
    pub fn same_as(&self, other: &Oid) -> (r: bool)
        ensures
            r == (self@ == other@),
    {
        let mut i: usize = 0;
        while i < 20
            invariant
                i <= 20,
                forall|j: int| 0 <= j < i ==> self.bytes@[j] == other.bytes@[j],
            decreases 20 - i,
        {
            if self.bytes[i] != other.bytes[i] {
                return false;
            }
            i += 1;
        }
        assert(self@ =~= other@);
        true
    }
}

} // verus!
