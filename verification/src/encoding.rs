//! Facts about UTF-8 that the line-oriented documents rest on: text is
//! encoded piece by piece, and an ASCII byte stands for its character alone.

use vstd::prelude::*;
use vstd::utf8::{
    char_is_scalar, decode_first_scalar, decode_utf8, decode_utf8_first_scalar, encode_scalar,
    encode_utf8, has_width_1_encoding, last_continuation_byte, leading_byte_width_1,
    leading_byte_width_2, leading_byte_width_3, leading_byte_width_4, length_of_first_scalar,
    pop_first_scalar, second_last_continuation_byte, take_first_scalar,
    third_last_continuation_byte, valid_utf8,
};

verus! {

proof fn lemma_width_1(s: u32)
    by (bit_vector)
    requires
        has_width_1_encoding(s),
    ensures
        leading_byte_width_1(s) == s as u8,
        leading_byte_width_1(s) < 0x80,
{
}

proof fn lemma_high_bytes(s: u32)
    by (bit_vector)
    ensures
        leading_byte_width_2(s) >= 0x80,
        leading_byte_width_3(s) >= 0x80,
        leading_byte_width_4(s) >= 0x80,
        last_continuation_byte(s) >= 0x80,
        second_last_continuation_byte(s) >= 0x80,
        third_last_continuation_byte(s) >= 0x80,
{
}

/// An ASCII character is encoded as the one byte of its code, and any other
/// character as bytes that are not ASCII.
pub proof fn lemma_scalar_bytes(c: char)
    ensures
        encode_scalar(c as u32).len() >= 1,
        (c as u32) < 0x80 ==> encode_scalar(c as u32) =~= seq![(c as u32) as u8],
        (c as u32) >= 0x80 ==> forall|k: int|
            0 <= k < encode_scalar(c as u32).len() ==> #[trigger] encode_scalar(c as u32)[k]
                >= 0x80,
{
    let s = c as u32;
    char_is_scalar(c);
    lemma_high_bytes(s);
    if has_width_1_encoding(s) {
        lemma_width_1(s);
    }
}

/// Text is encoded piece by piece.
pub proof fn lemma_encode_concat(a: Seq<char>, b: Seq<char>)
    ensures
        encode_utf8(a + b) == encode_utf8(a) + encode_utf8(b),
    decreases a.len(),
{
    if a.len() == 0 {
        assert(a + b =~= b);
        assert(encode_utf8(a) + encode_utf8(b) =~= encode_utf8(b));
    } else {
        lemma_encode_concat(a.drop_first(), b);
        assert((a + b).drop_first() =~= a.drop_first() + b);
        assert(encode_utf8(a + b) =~= encode_utf8(a) + encode_utf8(b));
    }
}

/// An ASCII byte that is the code of no character of `s` is no byte of the
/// encoding of `s`.
pub proof fn lemma_encode_avoids(s: Seq<char>, b: u8)
    requires
        b < 0x80,
        forall|i: int| 0 <= i < s.len() ==> (#[trigger] s[i]) as u32 != b as u32,
    ensures
        forall|k: int| 0 <= k < encode_utf8(s).len() ==> #[trigger] encode_utf8(s)[k] != b,
    decreases s.len(),
{
    if s.len() > 0 {
        let head = encode_scalar(s[0] as u32);
        let r = s.drop_first();
        lemma_scalar_bytes(s[0]);
        assert forall|i: int| 0 <= i < r.len() implies (#[trigger] r[i]) as u32 != b as u32 by {
            assert(r[i] == s[i + 1]);
        }
        lemma_encode_avoids(r, b);
        assert forall|k: int| 0 <= k < encode_utf8(s).len() implies #[trigger] encode_utf8(s)[k]
            != b by {
            assert(encode_utf8(s) == head + encode_utf8(r));
            if k < head.len() {
                assert(encode_utf8(s)[k] == head[k]);
                assert(s[0] as u32 != b as u32);
                if (s[0] as u32) < 0x80 {
                    assert(head[0] == (s[0] as u32) as u8);
                }
            } else {
                assert(encode_utf8(s)[k] == encode_utf8(r)[k - head.len()]);
            }
        }
    }
}

/// The first byte of the encoding of a text is an ASCII byte only where the
/// first character is the one with that code.
pub proof fn lemma_encode_first(s: Seq<char>, b: u8)
    requires
        s.len() > 0,
        b < 0x80,
    ensures
        encode_utf8(s).len() > 0,
        encode_utf8(s)[0] == b <==> s[0] as u32 == b as u32,
{
    lemma_scalar_bytes(s[0]);
    let head = encode_scalar(s[0] as u32);
    assert(encode_utf8(s) == head + encode_utf8(s.drop_first()));
    assert(encode_utf8(s)[0] == head[0]);
    if (s[0] as u32) < 0x80 {
        assert(head[0] == (s[0] as u32) as u8);
    }
}

/// The first character that valid UTF-8 encodes is an ASCII character only
/// where the first byte is its code.
pub proof fn lemma_decode_first(bytes: Seq<u8>, b: u8)
    requires
        valid_utf8(bytes),
        bytes.len() > 0,
        b < 0x80,
    ensures
        decode_utf8(bytes).len() > 0,
        decode_utf8(bytes)[0] as u32 == b as u32 ==> bytes[0] == b && length_of_first_scalar(bytes)
            == 1,
{
    let c = decode_first_scalar(bytes) as char;
    assert(decode_utf8(bytes)[0] == c);
    decode_utf8_first_scalar(bytes);
    lemma_scalar_bytes(c);
    if c as u32 == b as u32 {
        assert(take_first_scalar(bytes) =~= seq![(c as u32) as u8]);
        assert(take_first_scalar(bytes)[0] == bytes[0]);
        assert(take_first_scalar(bytes).len() == 1);
    }
}

/// Where `b`, an ASCII byte, stands at most at the end of valid UTF-8, the
/// character with that code stands at most at the end of the text.
pub proof fn lemma_decode_avoids(bytes: Seq<u8>, b: u8)
    requires
        valid_utf8(bytes),
        b < 0x80,
        forall|k: int| 0 <= k < bytes.len() - 1 ==> #[trigger] bytes[k] != b,
    ensures
        bytes.len() > 0 ==> decode_utf8(bytes).len() > 0,
        forall|i: int|
            0 <= i < decode_utf8(bytes).len() - 1 ==> (#[trigger] decode_utf8(bytes)[i]) as u32
                != b as u32,
        bytes.len() > 0 && bytes.last() != b ==> decode_utf8(bytes).last() as u32 != b as u32,
    decreases bytes.len(),
{
    if bytes.len() > 0 {
        let rest = pop_first_scalar(bytes);
        let n = length_of_first_scalar(bytes);
        let chars = decode_utf8(bytes);
        lemma_decode_first(bytes, b);
        decode_utf8_first_scalar(bytes);
        lemma_scalar_bytes(chars[0]);
        assert(take_first_scalar(bytes).len() == n);
        assert(1 <= n <= bytes.len());
        assert forall|k: int| 0 <= k < rest.len() - 1 implies #[trigger] rest[k] != b by {
            assert(rest[k] == bytes[n + k]);
        }
        lemma_decode_avoids(rest, b);
        assert(chars =~= seq![chars[0]] + decode_utf8(rest));
        assert forall|i: int| 0 <= i < chars.len() - 1 implies (#[trigger] chars[i]) as u32
            != b as u32 by {
            if i == 0 {
                if chars[0] as u32 == b as u32 {
                    assert(rest.len() > 0);
                    assert(bytes[0] != b);
                }
            } else {
                assert(chars[i] == decode_utf8(rest)[i - 1]);
            }
        }
        if bytes.last() != b {
            if rest.len() > 0 {
                assert(rest.last() == bytes.last());
                assert(chars.last() == decode_utf8(rest).last());
            } else {
                assert(n == bytes.len());
                if chars[0] as u32 == b as u32 {
                    assert(bytes[0] == b && n == 1);
                }
            }
        }
    }
}

} // verus!
