//! What holds of every scan of a description document.

use crate::encoding::{lemma_decode_avoids, lemma_decode_first};
use crate::patchedit::lines::{
    ends_lines, lemma_line_len, lemma_line_len_is, line_count, line_len, LINE_FEED,
};
use crate::patchedit::scan::{
    absorb, ends_with_blank_line, finish_message, header_at, initial_state, read_line, scan_rest,
    scan_spec, Line, ScanState, COMMENT_MARK,
};
use crate::text::{is_whitespace, lemma_trim_end, trim_end};
use vstd::prelude::*;
use vstd::utf8::{decode_utf8, valid_utf8};

verus! {

/// Whether `line` is one physical line: not empty, with no line feed before
/// its last byte.
pub open spec fn is_line(line: Seq<u8>) -> bool {
    &&& line.len() > 0
    &&& forall|k: int| 0 <= k < line.len() - 1 ==> #[trigger] line[k] != LINE_FEED
}

/// Whether `text` can be the text of a line of the message: it holds no
/// line feed, does not end in whitespace and does not begin with the comment
/// mark.
pub open spec fn is_line_text(text: Seq<char>) -> bool {
    &&& forall|i: int| 0 <= i < text.len() ==> #[trigger] text[i] != '\n'
    &&& text.len() > 0 ==> text[0] != '#' && !is_whitespace(text.last())
}

/// Whether `m` holds nowhere three line feeds in a row, that is, two blank
/// lines in a row.
pub open spec fn no_triple_feed(m: Seq<char>) -> bool {
    forall|i: int|
        0 <= i && i + 2 < m.len() ==> !(#[trigger] m[i] == '\n' && m[i + 1] == '\n' && m[i + 2]
            == '\n')
}

/// Whether no line of `m` begins with the comment mark.
pub open spec fn no_comment_line(m: Seq<char>) -> bool {
    &&& m.len() > 0 ==> m[0] != '#'
    &&& forall|i: int| 0 <= i && i + 1 < m.len() && #[trigger] m[i] == '\n' ==> m[i + 1] != '#'
}

/// Whether the blank lines of the message `m` are collapsed: `m` is empty,
/// or it ends with a line feed, begins with no blank line, ends with none
/// and holds no two in a row. No line of it is a comment.
pub open spec fn collapsed(m: Seq<char>) -> bool {
    &&& m.len() > 0 ==> m[0] != '\n' && m.last() == '\n'
    &&& !ends_with_blank_line(m)
    &&& no_triple_feed(m)
    &&& no_comment_line(m)
}

/// What holds of the state between two lines.
pub open spec fn tidy(st: ScanState) -> bool {
    &&& !st.in_message ==> st.message.len() == 0 && !st.after_blank
    &&& st.in_message && !st.after_blank ==> st.message.len() > 0
    &&& st.message.len() > 0 ==> st.message[0] != '\n' && st.message.last() == '\n'
    &&& !st.after_blank ==> !ends_with_blank_line(st.message)
    &&& no_triple_feed(st.message)
    &&& no_comment_line(st.message)
}

/// The text of a physical line that is no comment holds no line feed, does
/// not begin with the comment mark and does not end in whitespace.
pub proof fn lemma_line_text(line: Seq<u8>)
    requires
        is_line(line),
    ensures
        read_line(line) matches Line::Text(text) ==> is_line_text(text),
{
    if line[0] != COMMENT_MARK && valid_utf8(line) {
        let chars = decode_utf8(line);
        let text = trim_end(chars);
        lemma_decode_avoids(line, LINE_FEED);
        lemma_decode_first(line, COMMENT_MARK);
        lemma_trim_end(chars);
        assert forall|i: int| 0 <= i < text.len() implies #[trigger] text[i] != '\n' by {
            assert(text[i] == chars[i]);
            if i == chars.len() - 1 {
                assert(text.last() == chars[i]);
                assert(is_whitespace('\n'));
            } else {
                assert(chars[i] as u32 != LINE_FEED as u32);
            }
        }
        if text.len() > 0 {
            assert(text[0] == chars[0]);
            assert('#' as u32 == COMMENT_MARK as u32);
        }
    }
}

/// A tidy state stays tidy when it takes in a line.
pub proof fn lemma_absorb_tidy(st: ScanState, index: int, text: Seq<char>)
    requires
        tidy(st),
        is_line_text(text),
    ensures
        tidy(absorb(st, index, text)),
{
    let m = st.message;
    let next = absorb(st, index, text);
    let m2 = next.message;
    if text.len() > 0 && (st.in_message || header_at(index, text) is None) {
        assert(m2 == (m + text).push('\n'));
        assert forall|j: int| 0 <= j < m.len() implies #[trigger] m2[j] == m[j] by {}
        assert forall|j: int| m.len() <= j < m.len() + text.len() implies #[trigger] m2[j]
            != '\n' by {
            assert(m2[j] == text[j - m.len()]);
        }
        assert(m2[m.len() as int] == text[0]);
        assert(m2.last() == '\n');
        assert(m2[m2.len() - 2] == text.last());
        assert(is_whitespace('\n'));
        assert forall|i: int| 0 <= i && i + 2 < m2.len() implies !(#[trigger] m2[i] == '\n'
            && m2[i + 1] == '\n' && m2[i + 2] == '\n') by {
            if i + 2 < m.len() {
                assert(m2[i] == m[i] && m2[i + 1] == m[i + 1] && m2[i + 2] == m[i + 2]);
            } else if i + 2 < m.len() + text.len() {
                assert(m2[i + 2] != '\n');
            } else {
                assert(m2[i + 1] != '\n');
            }
        }
        assert forall|i: int| 0 <= i && i + 1 < m2.len() && #[trigger] m2[i] == '\n' implies m2[i
            + 1] != '#' by {
            if i + 1 < m.len() {
                assert(m2[i] == m[i] && m2[i + 1] == m[i + 1]);
            } else if i + 1 == m.len() {
            } else {
                assert(m2[i] != '\n');
            }
        }
    } else if st.in_message && text.len() == 0 && !st.after_blank {
        assert(m2 == m.push('\n'));
        assert(m.len() >= 2);
        assert forall|i: int| 0 <= i && i + 2 < m2.len() implies !(#[trigger] m2[i] == '\n'
            && m2[i + 1] == '\n' && m2[i + 2] == '\n') by {
            if i + 2 < m.len() {
                assert(m2[i] == m[i] && m2[i + 1] == m[i + 1] && m2[i + 2] == m[i + 2]);
            } else {
                assert(m2[i] == m[m.len() - 2]);
            }
        }
        assert forall|i: int| 0 <= i && i + 1 < m2.len() && #[trigger] m2[i] == '\n' implies m2[i
            + 1] != '#' by {
            if i + 1 < m.len() {
                assert(m2[i] == m[i] && m2[i + 1] == m[i + 1]);
            }
        }
    } else {
        assert(m2 == m);
    }
}

/// A scan that starts tidy ends tidy.
pub proof fn lemma_scan_tidy(rest: Seq<u8>, index: int, st: ScanState)
    requires
        tidy(st),
    ensures
        scan_rest(rest, index, st) matches Some((end, _)) ==> tidy(end),
    decreases rest.len(),
{
    if rest.len() > 0 {
        lemma_line_len(rest);
        let n = line_len(rest);
        let line = rest.take(n);
        assert forall|k: int| 0 <= k < line.len() - 1 implies #[trigger] line[k] != LINE_FEED by {
            assert(line[k] == rest[k]);
        }
        lemma_line_text(line);
        match read_line(line) {
            Line::Comment => {
                lemma_scan_tidy(rest.skip(n), index + 1, st);
            },
            Line::Text(text) => {
                lemma_absorb_tidy(st, index, text);
                lemma_scan_tidy(rest.skip(n), index + 1, absorb(st, index, text));
            },
            _ => {},
        }
    }
}

/// The message that a tidy state hands out has its blank lines collapsed.
pub proof fn lemma_finish_collapsed(st: ScanState)
    requires
        tidy(st),
    ensures
        collapsed(finish_message(st.message)),
{
    let m = st.message;
    if ends_with_blank_line(m) {
        let cut = m.drop_last();
        assert(m.len() >= 3);
        assert(!(m[m.len() - 3] == '\n' && m[m.len() - 3 + 1] == '\n' && m[m.len() - 3 + 2]
            == '\n'));
        assert(cut.last() == m[m.len() - 2]);
        assert(cut[cut.len() - 2] == m[m.len() - 3]);
        assert forall|i: int| 0 <= i && i + 2 < cut.len() implies !(#[trigger] cut[i] == '\n'
            && cut[i + 1] == '\n' && cut[i + 2] == '\n') by {
            assert(cut[i] == m[i] && cut[i + 1] == m[i + 1] && cut[i + 2] == m[i + 2]);
        }
        assert forall|i: int| 0 <= i && i + 1 < cut.len() && #[trigger] cut[i] == '\n' implies cut[i
            + 1] != '#' by {
            assert(cut[i] == m[i] && cut[i + 1] == m[i + 1]);
        }
        assert(cut[0] == m[0]);
    }
}

/// The blank lines of every message that a scan hands out are collapsed:
/// the message begins with no blank line, ends with none and holds no two
/// in a row, and no line of it is a comment.
pub proof fn lemma_blank_lines_collapse(buf: Seq<u8>)
    ensures
        scan_spec(buf) matches Some(s) ==> collapsed(s.message),
{
    lemma_scan_tidy(buf, 0, initial_state());
    match scan_rest(buf, 0, initial_state()) {
        Some((st, _)) => {
            lemma_finish_collapsed(st);
        },
        None => {},
    }
}

/// From the fourth line on, and in the message, the scan does not depend on
/// the index of a line.
pub proof fn lemma_scan_index_free(rest: Seq<u8>, i: int, j: int, st: ScanState)
    requires
        (i >= 3 && j >= 3) || st.in_message,
    ensures
        scan_rest(rest, i, st) == scan_rest(rest, j, st),
    decreases rest.len(),
{
    if rest.len() > 0 {
        lemma_line_len(rest);
        let n = line_len(rest);
        match read_line(rest.take(n)) {
            Line::Comment => {
                lemma_scan_index_free(rest.skip(n), i + 1, j + 1, st);
            },
            Line::Text(text) => {
                assert(absorb(st, i, text) == absorb(st, j, text));
                lemma_scan_index_free(rest.skip(n), i + 1, j + 1, absorb(st, i, text));
            },
            _ => {},
        }
    }
}

/// The first line of a buffer that ends with a line feed is the first line
/// of any buffer that this one begins.
pub proof fn lemma_line_len_prefix(a: Seq<u8>, x: Seq<u8>)
    requires
        a.len() > 0,
        a.last() == LINE_FEED,
    ensures
        line_len(a + x) == line_len(a),
        (a + x).take(line_len(a)) == a.take(line_len(a)),
        (a + x).skip(line_len(a)) == a.skip(line_len(a)) + x,
{
    lemma_line_len(a);
    let n = line_len(a);
    assert forall|i: int| 0 <= i < n - 1 implies #[trigger] (a + x)[i] != LINE_FEED by {
        assert((a + x)[i] == a[i]);
    }
    assert((a + x)[n - 1] == a[n - 1]);
    lemma_line_len_is(a + x, n);
    assert((a + x).take(n) =~= a.take(n));
    assert((a + x).skip(n) =~= a.skip(n) + x);
}

/// The scan of whole lines followed by more bytes: it stops in the lines
/// where their scan stops, and else goes on with the bytes that follow.
pub proof fn lemma_scan_prefix(a: Seq<u8>, x: Seq<u8>, index: int, st: ScanState)
    requires
        ends_lines(a),
    ensures
        scan_rest(a + x, index, st) == match scan_rest(a, index, st) {
            None => None,
            Some((end, Some(tail))) => Some((end, Some(tail + x))),
            Some((end, None)) => scan_rest(x, index + line_count(a), end),
        },
    decreases a.len(),
{
    if a.len() == 0 {
        assert(a + x =~= x);
    } else {
        lemma_line_len_prefix(a, x);
        lemma_line_len(a);
        let n = line_len(a);
        let rest = a.skip(n);
        if rest.len() > 0 {
            assert(rest.last() == a.last());
        }
        match read_line(a.take(n)) {
            Line::Comment => {
                lemma_scan_prefix(rest, x, index + 1, st);
            },
            Line::Text(text) => {
                lemma_scan_prefix(rest, x, index + 1, absorb(st, index, text));
            },
            _ => {},
        }
    }
}

/// Whether `c` is one comment line.
pub open spec fn is_comment_line(c: Seq<u8>) -> bool {
    c.len() > 0 && c[0] == COMMENT_MARK && line_len(c) == c.len()
}

/// A comment line that is put in after the third line or later, and before
/// the sentinel, changes nothing of what the scan yields.
pub proof fn lemma_comment_is_skipped(before: Seq<u8>, comment: Seq<u8>, after: Seq<u8>)
    requires
        ends_lines(before),
        line_count(before) >= 3,
        is_comment_line(comment),
        comment.last() == LINE_FEED || after.len() == 0,
        scan_rest(before, 0, initial_state()) matches Some((_, tail)) ==> tail is None,
    ensures
        scan_spec(before + comment + after) == scan_spec(before + after),
{
    let start = initial_state();
    assert(before + comment + after =~= before + (comment + after));
    lemma_scan_prefix(before, comment + after, 0, start);
    lemma_scan_prefix(before, after, 0, start);
    match scan_rest(before, 0, start) {
        Some((st, _)) => {
            let k = line_count(before) as int;
            let rest = comment + after;
            if comment.last() == LINE_FEED {
                lemma_line_len_prefix(comment, after);
            } else {
                assert(rest =~= comment);
            }
            assert(rest.take(comment.len() as int) =~= comment);
            assert(rest.skip(comment.len() as int) =~= after);
            assert(scan_rest(rest, k, st) == scan_rest(after, k + 1, st));
            lemma_scan_index_free(after, k + 1, k, st);
        },
        None => {},
    }
}

/// After the first line, no line sets the patch name.
pub proof fn lemma_no_late_patch_header(rest: Seq<u8>, index: int, st: ScanState)
    requires
        index >= 1,
        st.patchname is None,
    ensures
        scan_rest(rest, index, st) matches Some((end, _)) ==> end.patchname is None,
    decreases rest.len(),
{
    if rest.len() > 0 {
        lemma_line_len(rest);
        let n = line_len(rest);
        match read_line(rest.take(n)) {
            Line::Comment => {
                lemma_no_late_patch_header(rest.skip(n), index + 1, st);
            },
            Line::Text(text) => {
                lemma_no_late_patch_header(rest.skip(n), index + 1, absorb(st, index, text));
            },
            _ => {},
        }
    }
}

/// Where the first line of a document is a comment, the scan finds no patch
/// name, whatever the lines after it say.
pub proof fn lemma_comment_hides_patch_header(buf: Seq<u8>)
    requires
        buf.len() > 0,
        buf[0] == COMMENT_MARK,
    ensures
        scan_spec(buf) matches Some(s) ==> s.patchname is None,
{
    lemma_line_len(buf);
    let n = line_len(buf);
    assert(buf.take(n)[0] == buf[0]);
    lemma_no_late_patch_header(buf.skip(n), 1, initial_state());
}

} // verus!
