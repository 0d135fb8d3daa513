//! Physical lines of a byte buffer. A line runs up to and including its line
//! feed; the last line of a buffer may lack one.

use vstd::prelude::*;

verus! {

/// The line feed byte.
pub const LINE_FEED: u8 = 0x0a;

/// The length of the first physical line of `buf`, its line feed included.
pub open spec fn line_len(buf: Seq<u8>) -> int
    decreases buf.len(),
{
    if buf.len() == 0 {
        0
    } else if buf[0] == LINE_FEED {
        1
    } else {
        1 + line_len(buf.drop_first())
    }
}

/// The number of physical lines of `buf`.
pub open spec fn line_count(buf: Seq<u8>) -> nat
    decreases buf.len(),
    via line_count_decreases
{
    if buf.len() == 0 {
        0
    } else {
        1 + line_count(buf.skip(line_len(buf)))
    }
}

#[via_fn]
proof fn line_count_decreases(buf: Seq<u8>) {
    lemma_line_len(buf);
}

/// Whether `buf` ends where a line ends: it is empty or its last byte is a
/// line feed.
pub open spec fn ends_lines(buf: Seq<u8>) -> bool {
    buf.len() == 0 || buf.last() == LINE_FEED
}

/// The first line is not empty, holds no line feed before its last byte, and
/// ends in a line feed unless the buffer ends first.
pub proof fn lemma_line_len(buf: Seq<u8>)
    ensures
        0 <= line_len(buf) <= buf.len(),
        buf.len() > 0 ==> line_len(buf) > 0,
        forall|i: int| 0 <= i < line_len(buf) - 1 ==> #[trigger] buf[i] != LINE_FEED,
        line_len(buf) < buf.len() ==> buf[line_len(buf) - 1] == LINE_FEED,
    decreases buf.len(),
{
    if buf.len() == 0 || buf[0] == LINE_FEED {
    } else {
        let r = buf.drop_first();
        lemma_line_len(r);
        assert forall|i: int| 0 <= i < line_len(buf) - 1 implies #[trigger] buf[i]
            != LINE_FEED by {
            if i > 0 {
                assert(buf[i] == r[i - 1]);
            }
        }
        if line_len(buf) < buf.len() {
            assert(buf[line_len(buf) - 1] == r[line_len(r) - 1]);
        }
    }
}

/// A length that stops at the first line feed, or at the end of a buffer
/// without one, is the length of the first line.
pub proof fn lemma_line_len_is(buf: Seq<u8>, n: int)
    requires
        0 < n <= buf.len(),
        forall|i: int| 0 <= i < n - 1 ==> #[trigger] buf[i] != LINE_FEED,
        buf[n - 1] == LINE_FEED || n == buf.len(),
    ensures
        line_len(buf) == n,
    decreases buf.len(),
{
    if buf[0] == LINE_FEED {
        if n > 1 {
            assert(buf[0] != LINE_FEED);
        }
    } else if n == 1 {
        assert(buf.drop_first().len() == 0);
    } else {
        let r = buf.drop_first();
        assert forall|i: int| 0 <= i < n - 2 implies #[trigger] r[i] != LINE_FEED by {
            assert(r[i] == buf[i + 1]);
        }
        assert(r[n - 2] == buf[n - 1]);
        lemma_line_len_is(r, n - 1);
    }
}

/// The index just past the physical line that starts at `start`.
pub fn line_end(buf: &[u8], start: usize) -> (end: usize)
    requires
        start < buf@.len(),
    ensures
        start < end <= buf@.len(),
        end == start + line_len(buf@.skip(start as int)),
{
    let mut end: usize = start;
    while end < buf.len() && buf[end] != LINE_FEED
        invariant
            start <= end <= buf@.len(),
            forall|i: int| start <= i < end ==> #[trigger] buf@[i] != LINE_FEED,
        decreases buf@.len() - end,
    {
        end += 1;
    }
    if end < buf.len() {
        end += 1;
    }
    proof {
        let rest = buf@.skip(start as int);
        assert forall|i: int| 0 <= i < end - start - 1 implies #[trigger] rest[i] != LINE_FEED by {
            assert(rest[i] == buf@[start + i]);
        }
        lemma_line_len_is(rest, end - start);
    }
    end
}

} // verus!
